//! Symbolic complex scalars: a pair of real expression trees.

use crate::constant::Constant;
use crate::derivative::{derivative, differentiable, log_agrees};
use crate::expression::{
    add_expr, fast_eq, is_one_fast, is_parameterized, is_zero_fast, map_names, mul_expr, neg_expr,
    one_expr, rename, sub_expr, substitute, div_expr, zero_expr, Expr, Expression,
};
use crate::variables::{ancestors, merge_unique, models, names, unique_vars};
use crate::varmap::VarMap;
use crate::zero_one::{is_one, is_zero, numeric_agrees, NumericTest};
use vstd::prelude::*;

verus! {

/// A symbolic complex scalar, stored as a pair of real expression trees.
pub struct ComplexExpression {
    pub real: Expression,
    pub imag: Expression,
}

impl View for ComplexExpression {
    /// The models of the real and the imaginary part.
    type V = (Expr, Expr);

    open spec fn view(&self) -> (Expr, Expr) {
        (self.real@, self.imag@)
    }
}

/// What `a + b` builds, part by part.
pub open spec fn cadd(a: (Expr, Expr), b: (Expr, Expr)) -> (Expr, Expr) {
    (add_expr(a.0, b.0), add_expr(a.1, b.1))
}

/// What `a - b` builds, part by part.
pub open spec fn csub(a: (Expr, Expr), b: (Expr, Expr)) -> (Expr, Expr) {
    (sub_expr(a.0, b.0), sub_expr(a.1, b.1))
}

/// What `-a` builds, part by part.
pub open spec fn cneg(a: (Expr, Expr)) -> (Expr, Expr) {
    (neg_expr(a.0), neg_expr(a.1))
}

/// What `a * b` builds: `(ar*br - ai*bi, ar*bi + ai*br)`.
pub open spec fn cmul(a: (Expr, Expr), b: (Expr, Expr)) -> (Expr, Expr) {
    (
        sub_expr(mul_expr(a.0, b.0), mul_expr(a.1, b.1)),
        add_expr(mul_expr(a.0, b.1), mul_expr(a.1, b.0)),
    )
}

/// The denominator `br*br + bi*bi` of a complex division by `b`.
pub open spec fn cdenominator(b: (Expr, Expr)) -> Expr {
    add_expr(mul_expr(b.0, b.0), mul_expr(b.1, b.1))
}

/// What `a / b` builds: `((ar*br + ai*bi) / d, (ai*br - ar*bi) / d)` with
/// `d` the [`cdenominator`] of `b`.
pub open spec fn cdiv(a: (Expr, Expr), b: (Expr, Expr)) -> (Expr, Expr) {
    (
        div_expr(add_expr(mul_expr(a.0, b.0), mul_expr(a.1, b.1)), cdenominator(b)),
        div_expr(sub_expr(mul_expr(a.1, b.0), mul_expr(a.0, b.1)), cdenominator(b)),
    )
}

/// The subtrees above the variable `v` that the complex expression `c`
/// reports: those of the imaginary part when the real part has none;
/// otherwise those of the real part, keeping, when the imaginary part has
/// some, only those that equal one of them.
pub open spec fn cancestors(c: (Expr, Expr), v: Seq<char>) -> Seq<Expr> {
    let re = ancestors(c.0, v);
    let im = ancestors(c.1, v);
    if re.len() == 0 {
        im
    } else if im.len() == 0 {
        re
    } else {
        re.filter(|x: Expr| exists|j: int| 0 <= j < im.len() && fast_eq(im[j], x))
    }
}

impl ComplexExpression {
    /// The complex number one.
    pub fn one() -> (r: ComplexExpression)
        ensures
            r@ == (one_expr(), zero_expr()),
    {
        ComplexExpression { real: Expression::one(), imag: Expression::zero() }
    }

    /// The complex number zero.
    pub fn zero() -> (r: ComplexExpression)
        ensures
            r@ == (zero_expr(), zero_expr()),
    {
        ComplexExpression { real: Expression::zero(), imag: Expression::zero() }
    }

    /// The imaginary unit.
    pub fn i() -> (r: ComplexExpression)
        ensures
            r@ == (zero_expr(), one_expr()),
    {
        ComplexExpression { real: Expression::zero(), imag: Expression::one() }
    }

    /// The real number pi.
    pub fn pi() -> (r: ComplexExpression)
        ensures
            r@ == (Expr::Pi, zero_expr()),
    {
        ComplexExpression { real: Expression::Pi, imag: Expression::zero() }
    }

    /// Whether the imaginary part is zero by the full test.
    pub fn is_real<F: Fn(&Expression, NumericTest) -> bool>(&self, numeric: &F) -> (r: bool)
        requires
            forall|e: &Expression, t: NumericTest| numeric.requires((e, t)),
        ensures
            forall|o: spec_fn(Expr, NumericTest) -> bool|
                numeric_agrees(*numeric, o) ==> r == is_zero(self@.1, o),
    {
        self.imag.is_zero(numeric)
    }

    /// Whether the real part is zero and the imaginary part is not, by the
    /// full test.
    pub fn is_imag<F: Fn(&Expression, NumericTest) -> bool>(&self, numeric: &F) -> (r: bool)
        requires
            forall|e: &Expression, t: NumericTest| numeric.requires((e, t)),
        ensures
            forall|o: spec_fn(Expr, NumericTest) -> bool|
                numeric_agrees(*numeric, o) ==> r == (is_zero(self@.0, o) && !is_zero(self@.1, o)),
    {
        let a = self.real.is_zero(numeric);
        let b = a && !self.imag.is_zero(numeric);
        assert forall|o: spec_fn(Expr, NumericTest) -> bool| numeric_agrees(*numeric, o) implies b
            == (is_zero(self@.0, o) && !is_zero(self@.1, o)) by {
            assert(a == is_zero(self@.0, o));
            if a {
                assert(!b == is_zero(self@.1, o));
            }
        }
        b
    }

    /// Whether neither part is zero, by the full test.
    pub fn is_cplx<F: Fn(&Expression, NumericTest) -> bool>(&self, numeric: &F) -> (r: bool)
        requires
            forall|e: &Expression, t: NumericTest| numeric.requires((e, t)),
        ensures
            forall|o: spec_fn(Expr, NumericTest) -> bool|
                numeric_agrees(*numeric, o) ==> r == (!is_zero(self@.0, o) && !is_zero(self@.1, o)),
    {
        let a = !self.real.is_zero(numeric);
        let b = a && !self.imag.is_zero(numeric);
        assert forall|o: spec_fn(Expr, NumericTest) -> bool| numeric_agrees(*numeric, o) implies b
            == (!is_zero(self@.0, o) && !is_zero(self@.1, o)) by {
            assert(!a == is_zero(self@.0, o));
            if a {
                assert(!b == is_zero(self@.1, o));
            }
        }
        b
    }

    /// Whether the imaginary part is zero by the fast test.
    pub fn is_real_fast(&self) -> (r: bool)
        ensures
            r == is_zero_fast(self@.1),
    {
        self.imag.is_zero_fast()
    }

    /// Whether the real part is zero and the imaginary part is not, by the
    /// fast test.
    pub fn is_imag_fast(&self) -> (r: bool)
        ensures
            r == (is_zero_fast(self@.0) && !is_zero_fast(self@.1)),
    {
        self.real.is_zero_fast() && !self.imag.is_zero_fast()
    }

    /// Whether neither part is zero, by the fast test.
    pub fn is_cplx_fast(&self) -> (r: bool)
        ensures
            r == (!is_zero_fast(self@.0) && !is_zero_fast(self@.1)),
    {
        !self.real.is_zero_fast() && !self.imag.is_zero_fast()
    }

    /// Whether the real part is the variable named `e`.
    pub fn is_e(&self) -> (r: bool)
        ensures
            r == (self@.0 == Expr::Var("e"@)),
    {
        match &self.real {
            Expression::Variable(var) => {
                let e = "e".to_owned();
                *var == e
            },
            _ => false,
        }
    }

    /// Whether both parts are zero by the full test.
    pub fn is_zero<F: Fn(&Expression, NumericTest) -> bool>(&self, numeric: &F) -> (r: bool)
        requires
            forall|e: &Expression, t: NumericTest| numeric.requires((e, t)),
        ensures
            forall|o: spec_fn(Expr, NumericTest) -> bool|
                numeric_agrees(*numeric, o) ==> r == (is_zero(self@.0, o) && is_zero(self@.1, o)),
    {
        let a = self.real.is_zero(numeric);
        let b = a && self.imag.is_zero(numeric);
        assert forall|o: spec_fn(Expr, NumericTest) -> bool| numeric_agrees(*numeric, o) implies b
            == (is_zero(self@.0, o) && is_zero(self@.1, o)) by {
            assert(a == is_zero(self@.0, o));
            if a {
                assert(b == is_zero(self@.1, o));
            }
        }
        b
    }

    /// Whether the real part is one and the imaginary part zero, by the full
    /// test.
    pub fn is_one<F: Fn(&Expression, NumericTest) -> bool>(&self, numeric: &F) -> (r: bool)
        requires
            forall|e: &Expression, t: NumericTest| numeric.requires((e, t)),
        ensures
            forall|o: spec_fn(Expr, NumericTest) -> bool|
                numeric_agrees(*numeric, o) ==> r == (is_one(self@.0, o) && is_zero(self@.1, o)),
    {
        let a = self.real.is_one(numeric);
        let b = a && self.imag.is_zero(numeric);
        assert forall|o: spec_fn(Expr, NumericTest) -> bool| numeric_agrees(*numeric, o) implies b
            == (is_one(self@.0, o) && is_zero(self@.1, o)) by {
            assert(a == is_one(self@.0, o));
            if a {
                assert(b == is_zero(self@.1, o));
            }
        }
        b
    }

    /// Whether both parts are zero by the fast test.
    pub fn is_zero_fast(&self) -> (r: bool)
        ensures
            r == (is_zero_fast(self@.0) && is_zero_fast(self@.1)),
    {
        self.real.is_zero_fast() && self.imag.is_zero_fast()
    }

    /// Whether the real part is one and the imaginary part zero, by the fast
    /// test.
    pub fn is_one_fast(&self) -> (r: bool)
        ensures
            r == (is_one_fast(self@.0) && is_zero_fast(self@.1)),
    {
        self.real.is_one_fast() && self.imag.is_zero_fast()
    }

    /// Renames, in both parts, every variable that `var_map` maps.
    pub fn map_var_names(&self, var_map: &VarMap) -> (r: ComplexExpression)
        ensures
            r@ == (map_names(self@.0, var_map@), map_names(self@.1, var_map@)),
    {
        ComplexExpression {
            real: self.real.map_var_names(var_map),
            imag: self.imag.map_var_names(var_map),
        }
    }

    /// The complex conjugate: the imaginary part wrapped in a negation.
    pub fn conjugate(&self) -> (r: ComplexExpression)
        ensures
            r@ == (self@.0, Expr::Neg(Box::new(self@.1))),
    {
        ComplexExpression {
            real: self.real.deep_clone(),
            imag: Expression::Neg(Box::new(self.imag.deep_clone())),
        }
    }

    /// Replaces this expression by its complex conjugate.
    pub fn conjugate_in_place(&mut self)
        ensures
            final(self)@ == (old(self)@.0, Expr::Neg(Box::new(old(self)@.1))),
    {
        self.imag = Expression::Neg(Box::new(self.imag.deep_clone()));
    }

    /// The partial derivative of both parts with respect to `wrt`; `ln_of`
    /// is as for [`Expression::differentiate`].
    pub fn differentiate<F: Fn(&Expression) -> Constant>(&self, wrt: &str, ln_of: &F) -> (r:
        ComplexExpression)
        requires
            forall|e: &Expression| ln_of.requires((e,)),
            differentiable(self@.0, wrt@),
            differentiable(self@.1, wrt@),
        ensures
            forall|lf: spec_fn(Expr) -> (int, int)|
                log_agrees(*ln_of, lf) ==> r@ == (derivative(self@.0, wrt@, lf), derivative(
                    self@.1,
                    wrt@,
                    lf,
                )),
    {
        let re = self.real.differentiate(wrt, ln_of);
        let im = self.imag.differentiate(wrt, ln_of);
        ComplexExpression { real: re, imag: im }
    }

    /// The subtrees above the variable `variable`, as [`cancestors`] says.
    pub fn get_ancestors(&self, variable: &str) -> (r: Vec<Expression>)
        ensures
            models(r@) == cancestors(self@, variable@),
    {
        let re = self.real.get_ancestors(variable);
        let im = self.imag.get_ancestors(variable);
        if re.len() == 0 {
            return im;
        }
        if im.len() == 0 {
            return re;
        }
        let ghost keep = |x: Expr| exists|j: int| 0 <= j < im@.len() && fast_eq(models(im@)[j], x);
        let mut kept: Vec<Expression> = Vec::new();
        let mut i: usize = 0;
        while i < re.len()
            invariant
                i <= re@.len(),
                models(kept@) == models(re@).subrange(0, i as int).filter(keep),
                keep == (|x: Expr| exists|j: int| 0 <= j < im@.len() && fast_eq(models(im@)[j], x)),
            decreases re@.len() - i,
        {
            let ghost before = models(kept@);
            assert(models(re@).subrange(0, i + 1).drop_last() =~= models(re@).subrange(0, i as int));
            if contains_fast_eq(&im, &re[i]) {
                kept.push(re[i].deep_clone());
                assert(models(kept@) =~= before.push(re@[i as int]@));
            }
            proof {
                reveal_with_fuel(Seq::<_>::filter, 1);
            }
            i = i + 1;
        }
        assert(models(re@).subrange(0, re@.len() as int) =~= models(re@));
        kept
    }

    /// Replaces, in both parts, every subtree equal to `original`.
    pub fn substitute(&self, original: &Expression, substitution: &Expression) -> (r:
        ComplexExpression)
        ensures
            r@ == (substitute(self@.0, original@, substitution@), substitute(
                self@.1,
                original@,
                substitution@,
            )),
    {
        ComplexExpression {
            real: self.real.substitute(original, substitution),
            imag: self.imag.substitute(original, substitution),
        }
    }

    /// Renames the variable `original` to `new` in both parts.
    pub fn rename_variable(&self, original: &str, new: &str) -> (r: ComplexExpression)
        ensures
            r@ == (rename(self@.0, original@, new@), rename(self@.1, original@, new@)),
    {
        ComplexExpression {
            real: self.real.rename_variable(original, new),
            imag: self.imag.rename_variable(original, new),
        }
    }

    /// The variables of the real part followed by those of the imaginary
    /// part that are new, each once.
    pub fn get_unique_variables(&self) -> (r: Vec<String>)
        ensures
            names(r@) == merge_unique(unique_vars(self@.0), unique_vars(self@.1)),
    {
        let mut acc = self.real.get_unique_variables();
        let rest = self.imag.get_unique_variables();
        crate::variables::merge_names(&mut acc, &rest);
        acc
    }

    /// Whether either part has a variable.
    pub fn is_parameterized(&self) -> (r: bool)
        ensures
            r == (is_parameterized(self@.0) || is_parameterized(self@.1)),
    {
        self.real.is_parameterized() || self.imag.is_parameterized()
    }

    /// The sum, as [`cadd`] says.
    pub fn add(&self, rhs: &ComplexExpression) -> (r: ComplexExpression)
        ensures
            r@ == cadd(self@, rhs@),
    {
        ComplexExpression { real: self.real.add(&rhs.real), imag: self.imag.add(&rhs.imag) }
    }

    /// The difference, as [`csub`] says.
    pub fn sub(&self, rhs: &ComplexExpression) -> (r: ComplexExpression)
        ensures
            r@ == csub(self@, rhs@),
    {
        ComplexExpression { real: self.real.sub(&rhs.real), imag: self.imag.sub(&rhs.imag) }
    }

    /// The negation, as [`cneg`] says.
    pub fn neg(&self) -> (r: ComplexExpression)
        ensures
            r@ == cneg(self@),
    {
        ComplexExpression { real: self.real.neg(), imag: self.imag.neg() }
    }

    /// The product, as [`cmul`] says.
    pub fn mul(&self, rhs: &ComplexExpression) -> (r: ComplexExpression)
        ensures
            r@ == cmul(self@, rhs@),
    {
        ComplexExpression {
            real: self.real.mul(&rhs.real).sub(&self.imag.mul(&rhs.imag)),
            imag: self.real.mul(&rhs.imag).add(&self.imag.mul(&rhs.real)),
        }
    }

    /// The quotient, as [`cdiv`] says; a divisor whose [`cdenominator`] is
    /// zero by the fast test is refused.
    pub fn div(&self, rhs: &ComplexExpression) -> (r: ComplexExpression)
        requires
            !is_zero_fast(cdenominator(rhs@)),
        ensures
            r@ == cdiv(self@, rhs@),
    {
        let dem = rhs.real.mul(&rhs.real).add(&rhs.imag.mul(&rhs.imag));
        ComplexExpression {
            real: self.real.mul(&rhs.real).add(&self.imag.mul(&rhs.imag)).div(&dem),
            imag: self.imag.mul(&rhs.real).sub(&self.real.mul(&rhs.imag)).div(&dem),
        }
    }

    /// Adds `rhs` to this expression.
    pub fn add_assign(&mut self, rhs: &ComplexExpression)
        ensures
            final(self)@ == cadd(old(self)@, rhs@),
    {
        *self = self.add(rhs);
    }

    /// Subtracts `rhs` from this expression.
    pub fn sub_assign(&mut self, rhs: &ComplexExpression)
        ensures
            final(self)@ == csub(old(self)@, rhs@),
    {
        *self = self.sub(rhs);
    }

    /// Multiplies this expression by `rhs`.
    pub fn mul_assign(&mut self, rhs: &ComplexExpression)
        ensures
            final(self)@ == cmul(old(self)@, rhs@),
    {
        *self = self.mul(rhs);
    }

    /// Divides this expression by `rhs`.
    pub fn div_assign(&mut self, rhs: &ComplexExpression)
        requires
            !is_zero_fast(cdenominator(rhs@)),
        ensures
            final(self)@ == cdiv(old(self)@, rhs@),
    {
        *self = self.div(rhs);
    }

    /// Both parts equal by [`fast_eq`].
    pub fn equals(&self, other: &ComplexExpression) -> (r: bool)
        ensures
            r == (fast_eq(self@.0, other@.0) && fast_eq(self@.1, other@.1)),
    {
        self.real.fast_eq(&other.real) && self.imag.fast_eq(&other.imag)
    }
}

impl Clone for ComplexExpression {
    fn clone(&self) -> (r: Self)
        ensures
            r@ == self@,
    {
        ComplexExpression { real: self.real.deep_clone(), imag: self.imag.deep_clone() }
    }
}

/// Whether some element of `list` is [`fast_eq`] to `x`, comparing the
/// element first.
fn contains_fast_eq(list: &Vec<Expression>, x: &Expression) -> (r: bool)
    ensures
        r == exists|j: int| 0 <= j < list@.len() && fast_eq(models(list@)[j], x@),
{
    let mut i: usize = 0;
    while i < list.len()
        invariant
            i <= list@.len(),
            forall|j: int| 0 <= j < i ==> !fast_eq(#[trigger] models(list@)[j], x@),
        decreases list@.len() - i,
    {
        if list[i].fast_eq(x) {
            assert(fast_eq(models(list@)[i as int], x@));
            return true;
        }
        i = i + 1;
    }
    false
}

} // verus!
