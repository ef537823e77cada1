//! Symbolic differentiation of expressions.

use crate::constant::Constant;
use crate::expression::{
    add_expr, contains_var, div_expr, is_parameterized, is_zero_fast, mul_expr, one_expr, sub_expr,
    zero_expr, Expr, Expression,
};
use crate::laws::law_derivative_of_absent_variable;
use vstd::prelude::*;

verus! {

/// Whether [`derivative`] is defined for `e`: no division by an expression
/// that is zero by the fast test occurs, and no power is met whose exponent
/// depends on `wrt` while its base is parameterized or depends on `wrt`.
pub open spec fn differentiable(e: Expr, wrt: Seq<char>) -> bool
    decreases e,
{
    match e {
        Expr::Neg(x) => differentiable(*x, wrt),
        Expr::Add(l, r) => differentiable(*l, wrt) && differentiable(*r, wrt),
        Expr::Sub(l, r) => differentiable(*l, wrt) && differentiable(*r, wrt),
        Expr::Mul(l, r) => differentiable(*l, wrt) && differentiable(*r, wrt),
        Expr::Div(l, r) => differentiable(*l, wrt) && differentiable(*r, wrt) && !is_zero_fast(
            mul_expr(*r, *r),
        ),
        Expr::Pow(l, r) => {
            let base_fn_x = contains_var(*l, wrt);
            let exponent_fn_x = contains_var(*r, wrt);
            if !base_fn_x && !exponent_fn_x {
                true
            } else if !base_fn_x && exponent_fn_x {
                !is_parameterized(*l) && differentiable(*r, wrt)
            } else if base_fn_x && !exponent_fn_x {
                differentiable(*l, wrt)
            } else {
                false
            }
        },
        Expr::Sqrt(x) => differentiable(*x, wrt) && !is_zero_fast(
            mul_expr(Expr::Const((2, 1)), Expr::Sqrt(x)),
        ),
        Expr::Sin(x) => differentiable(*x, wrt),
        Expr::Cos(x) => differentiable(*x, wrt),
        _ => true,
    }
}

/// The symbolic partial derivative of `e` with respect to `wrt`. For a
/// constant base `b` raised to a power that depends on `wrt`, `ln(b)` enters
/// as the constant `ln_of(b)`.
pub open spec fn derivative(e: Expr, wrt: Seq<char>, ln_of: spec_fn(Expr) -> (int, int)) -> Expr
    decreases e,
{
    match e {
        Expr::Pi => zero_expr(),
        Expr::Var(v) => if v == wrt {
            one_expr()
        } else {
            zero_expr()
        },
        Expr::Const(_) => zero_expr(),
        Expr::Neg(x) => Expr::Neg(Box::new(derivative(*x, wrt, ln_of))),
        Expr::Add(l, r) => Expr::Add(
            Box::new(derivative(*l, wrt, ln_of)),
            Box::new(derivative(*r, wrt, ln_of)),
        ),
        Expr::Sub(l, r) => Expr::Sub(
            Box::new(derivative(*l, wrt, ln_of)),
            Box::new(derivative(*r, wrt, ln_of)),
        ),
        Expr::Mul(l, r) => add_expr(
            mul_expr(derivative(*l, wrt, ln_of), *r),
            mul_expr(*l, derivative(*r, wrt, ln_of)),
        ),
        Expr::Div(l, r) => div_expr(
            sub_expr(
                mul_expr(derivative(*l, wrt, ln_of), *r),
                mul_expr(*l, derivative(*r, wrt, ln_of)),
            ),
            mul_expr(*r, *r),
        ),
        Expr::Pow(l, r) => {
            let base_fn_x = contains_var(*l, wrt);
            let exponent_fn_x = contains_var(*r, wrt);
            if !base_fn_x && !exponent_fn_x {
                zero_expr()
            } else if !base_fn_x && exponent_fn_x {
                mul_expr(mul_expr(e, derivative(*r, wrt, ln_of)), Expr::Const(ln_of(*l)))
            } else {
                mul_expr(
                    mul_expr(*r, Expr::Pow(l, Box::new(sub_expr(*r, one_expr())))),
                    derivative(*l, wrt, ln_of),
                )
            }
        },
        Expr::Sqrt(x) => mul_expr(
            div_expr(one_expr(), mul_expr(Expr::Const((2, 1)), e)),
            derivative(*x, wrt, ln_of),
        ),
        Expr::Sin(x) => mul_expr(Expr::Cos(x), derivative(*x, wrt, ln_of)),
        Expr::Cos(x) => mul_expr(Expr::Neg(Box::new(Expr::Sin(x))), derivative(*x, wrt, ln_of)),
    }
}

/// Whether some power in `e` has an exponent in which `wrt` occurs: only
/// then does [`derivative`] need a logarithm.
pub open spec fn exponent_depends(e: Expr, wrt: Seq<char>) -> bool
    decreases e,
{
    match e {
        Expr::Neg(x) => exponent_depends(*x, wrt),
        Expr::Add(l, r) => exponent_depends(*l, wrt) || exponent_depends(*r, wrt),
        Expr::Sub(l, r) => exponent_depends(*l, wrt) || exponent_depends(*r, wrt),
        Expr::Mul(l, r) => exponent_depends(*l, wrt) || exponent_depends(*r, wrt),
        Expr::Div(l, r) => exponent_depends(*l, wrt) || exponent_depends(*r, wrt),
        Expr::Pow(l, r) => contains_var(*r, wrt) || exponent_depends(*l, wrt) || exponent_depends(
            *r,
            wrt,
        ),
        Expr::Sqrt(x) => exponent_depends(*x, wrt),
        Expr::Sin(x) => exponent_depends(*x, wrt),
        Expr::Cos(x) => exponent_depends(*x, wrt),
        _ => false,
    }
}

/// A tree with an exponent in which `wrt` occurs contains `wrt`.
proof fn lemma_exponent_depends_contains(e: Expr, wrt: Seq<char>)
    ensures
        exponent_depends(e, wrt) ==> contains_var(e, wrt),
    decreases e,
{
    match e {
        Expr::Neg(x) | Expr::Sqrt(x) | Expr::Sin(x) | Expr::Cos(x) => lemma_exponent_depends_contains(
            *x,
            wrt,
        ),
        Expr::Add(l, r) | Expr::Sub(l, r) | Expr::Mul(l, r) | Expr::Div(l, r) | Expr::Pow(l, r) => {
            lemma_exponent_depends_contains(*l, wrt);
            lemma_exponent_depends_contains(*r, wrt);
        },
        _ => {},
    }
}

/// Every answer that `f` gives is the one that `ln_of` names.
pub open spec fn log_agrees<F: Fn(&Expression) -> Constant>(
    f: F,
    ln_of: spec_fn(Expr) -> (int, int),
) -> bool {
    forall|e: &Expression, c: Constant| #[trigger] f.ensures((e,), c) ==> c@ == ln_of(e@)
}

impl Expression {
    /// Whether this tree can be differentiated with respect to `wrt`, as
    /// [`differentiable`] says.
    pub fn can_differentiate(&self, wrt: &str) -> (r: bool)
        ensures
            r == differentiable(self@, wrt@),
        decreases self,
    {
        match self {
            Expression::Neg(x) => x.can_differentiate(wrt),
            Expression::Add(l, r) => l.can_differentiate(wrt) && r.can_differentiate(wrt),
            Expression::Sub(l, r) => l.can_differentiate(wrt) && r.can_differentiate(wrt),
            Expression::Mul(l, r) => l.can_differentiate(wrt) && r.can_differentiate(wrt),
            Expression::Div(l, r) => l.can_differentiate(wrt) && r.can_differentiate(wrt) && !r.mul(
                r,
            ).is_zero_fast(),
            Expression::Pow(l, r) => {
                let base_fn_x = l.contains_variable(wrt);
                let exponent_fn_x = r.contains_variable(wrt);
                if !base_fn_x && !exponent_fn_x {
                    true
                } else if !base_fn_x && exponent_fn_x {
                    !l.is_parameterized() && r.can_differentiate(wrt)
                } else if base_fn_x && !exponent_fn_x {
                    l.can_differentiate(wrt)
                } else {
                    false
                }
            },
            Expression::Sqrt(x) => {
                x.can_differentiate(wrt) && !Expression::from_int(2).mul(
                    &Expression::Sqrt(Box::new(x.deep_clone())),
                ).is_zero_fast()
            },
            Expression::Sin(x) => x.can_differentiate(wrt),
            Expression::Cos(x) => x.can_differentiate(wrt),
            _ => true,
        }
    }

    /// The partial derivative of this tree with respect to `wrt`.
    ///
    /// A constant base raised to a power that depends on `wrt` contributes
    /// its natural logarithm as a constant; `ln_of` computes that constant
    /// from the base (a numeric evaluation that this library leaves to the
    /// caller). Where no exponent depends on `wrt`, `ln_of` is never asked
    /// and the result is the derivative whatever it would answer.
    pub fn differentiate<F: Fn(&Expression) -> Constant>(&self, wrt: &str, ln_of: &F) -> (r:
        Expression)
        requires
            forall|e: &Expression| ln_of.requires((e,)),
            differentiable(self@, wrt@),
        ensures
            forall|lf: spec_fn(Expr) -> (int, int)|
                log_agrees(*ln_of, lf) ==> r@ == derivative(self@, wrt@, lf),
            !exponent_depends(self@, wrt@) ==> forall|lf: spec_fn(Expr) -> (int, int)|
                r@ == derivative(self@, wrt@, lf),
            !contains_var(self@, wrt@) ==> is_zero_fast(r@),
    {
        let w = wrt.to_owned();
        let r = self.derive(&w, ln_of);
        self.constants_in_lowest_terms();
        assert forall|lf: spec_fn(Expr) -> (int, int)| !exponent_depends(self@, wrt@) implies r@
            == derivative(self@, wrt@, lf) by {
            assert(log_agrees(*ln_of, lf) || !exponent_depends(self@, wrt@));
        }
        proof {
            lemma_exponent_depends_contains(self@, wrt@);
            if !contains_var(self@, wrt@) {
                let lf = |x: Expr| (0int, 1int);
                assert(r@ == derivative(self@, wrt@, lf));
                law_derivative_of_absent_variable(self@, wrt@, lf);
            }
        }
        r
    }

    fn derive<F: Fn(&Expression) -> Constant>(&self, wrt: &String, ln_of: &F) -> (r: Expression)
        requires
            forall|e: &Expression| ln_of.requires((e,)),
            differentiable(self@, wrt@),
        ensures
            forall|lf: spec_fn(Expr) -> (int, int)|
                log_agrees(*ln_of, lf) || !exponent_depends(self@, wrt@) ==> r@ == #[trigger] derivative(
                    self@,
                    wrt@,
                    lf,
                ),
        decreases self,
    {
        match self {
            Expression::Pi => Expression::zero(),
            Expression::Variable(var) => {
                if *var == *wrt {
                    Expression::one()
                } else {
                    Expression::zero()
                }
            },
            Expression::Constant(_) => Expression::zero(),
            Expression::Neg(x) => {
                let dx = x.derive(wrt, ln_of);
                let res = Expression::Neg(Box::new(dx));
                assert forall|lf: spec_fn(Expr) -> (int, int)| log_agrees(*ln_of, lf) || !exponent_depends(self@, wrt@) implies res@
                    == derivative(self@, wrt@, lf) by {
                    assert(dx@ == derivative(x@, wrt@, lf));
                }
                res
            },
            Expression::Add(l, r) => {
                let dl = l.derive(wrt, ln_of);
                let dr = r.derive(wrt, ln_of);
                let res = Expression::Add(Box::new(dl), Box::new(dr));
                assert forall|lf: spec_fn(Expr) -> (int, int)| log_agrees(*ln_of, lf) || !exponent_depends(self@, wrt@) implies res@
                    == derivative(self@, wrt@, lf) by {
                    assert(dl@ == derivative(l@, wrt@, lf));
                    assert(dr@ == derivative(r@, wrt@, lf));
                }
                res
            },
            Expression::Sub(l, r) => {
                let dl = l.derive(wrt, ln_of);
                let dr = r.derive(wrt, ln_of);
                let res = Expression::Sub(Box::new(dl), Box::new(dr));
                assert forall|lf: spec_fn(Expr) -> (int, int)| log_agrees(*ln_of, lf) || !exponent_depends(self@, wrt@) implies res@
                    == derivative(self@, wrt@, lf) by {
                    assert(dl@ == derivative(l@, wrt@, lf));
                    assert(dr@ == derivative(r@, wrt@, lf));
                }
                res
            },
            Expression::Mul(l, r) => {
                let dl = l.derive(wrt, ln_of);
                let dr = r.derive(wrt, ln_of);
                let res = dl.mul(r).add(&l.mul(&dr));
                assert forall|lf: spec_fn(Expr) -> (int, int)| log_agrees(*ln_of, lf) || !exponent_depends(self@, wrt@) implies res@
                    == derivative(self@, wrt@, lf) by {
                    assert(dl@ == derivative(l@, wrt@, lf));
                    assert(dr@ == derivative(r@, wrt@, lf));
                }
                res
            },
            Expression::Div(l, r) => {
                let dl = l.derive(wrt, ln_of);
                let dr = r.derive(wrt, ln_of);
                let numerator = dl.mul(r).sub(&l.mul(&dr));
                let denominator = r.mul(r);
                let res = numerator.div(&denominator);
                assert forall|lf: spec_fn(Expr) -> (int, int)| log_agrees(*ln_of, lf) || !exponent_depends(self@, wrt@) implies res@
                    == derivative(self@, wrt@, lf) by {
                    assert(dl@ == derivative(l@, wrt@, lf));
                    assert(dr@ == derivative(r@, wrt@, lf));
                }
                res
            },
            Expression::Pow(l, r) => {
                let base_fn_x = l.contains_named(wrt);
                let exponent_fn_x = r.contains_named(wrt);
                if !base_fn_x && !exponent_fn_x {
                    Expression::zero()
                } else if !base_fn_x && exponent_fn_x {
                    let dr = r.derive(wrt, ln_of);
                    let scaled = self.mul(&dr);
                    let ln_base = ln_of(&**l);
                    let res = scaled.mul(&Expression::Constant(ln_base));
                    assert forall|lf: spec_fn(Expr) -> (int, int)| log_agrees(*ln_of, lf) || !exponent_depends(self@, wrt@) implies res@
                        == derivative(self@, wrt@, lf) by {
                        assert(dr@ == derivative(r@, wrt@, lf));
                        assert(ln_base@ == lf(l@));
                    }
                    res
                } else {
                    let exponent = r.sub(&Expression::one());
                    let lowered = Expression::Pow(Box::new(l.deep_clone()), Box::new(exponent));
                    let dl = l.derive(wrt, ln_of);
                    let res = r.mul(&lowered).mul(&dl);
                    assert forall|lf: spec_fn(Expr) -> (int, int)| log_agrees(*ln_of, lf) || !exponent_depends(self@, wrt@) implies res@
                        == derivative(self@, wrt@, lf) by {
                        assert(dl@ == derivative(l@, wrt@, lf));
                    }
                    res
                }
            },
            Expression::Sqrt(x) => {
                let dx = x.derive(wrt, ln_of);
                let two = Expression::from_int(2);
                let twice = two.mul(self);
                let factor = Expression::one().div(&twice);
                let res = factor.mul(&dx);
                assert forall|lf: spec_fn(Expr) -> (int, int)| log_agrees(*ln_of, lf) || !exponent_depends(self@, wrt@) implies res@
                    == derivative(self@, wrt@, lf) by {
                    assert(dx@ == derivative(x@, wrt@, lf));
                }
                res
            },
            Expression::Sin(x) => {
                let dx = x.derive(wrt, ln_of);
                let c = Expression::Cos(Box::new(x.deep_clone()));
                let res = c.mul(&dx);
                assert forall|lf: spec_fn(Expr) -> (int, int)| log_agrees(*ln_of, lf) || !exponent_depends(self@, wrt@) implies res@
                    == derivative(self@, wrt@, lf) by {
                    assert(dx@ == derivative(x@, wrt@, lf));
                }
                res
            },
            Expression::Cos(x) => {
                let dx = x.derive(wrt, ln_of);
                let sine = Expression::Sin(Box::new(x.deep_clone()));
                assert(sine@ == Expr::Sin(Box::new(x@)));
                let s = Expression::Neg(Box::new(sine));
                let res = s.mul(&dx);
                assert forall|lf: spec_fn(Expr) -> (int, int)| log_agrees(*ln_of, lf) || !exponent_depends(self@, wrt@) implies res@
                    == derivative(self@, wrt@, lf) by {
                    assert(dx@ == derivative(x@, wrt@, lf));
                }
                res
            },
        }
    }

}

} // verus!
