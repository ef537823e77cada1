//! The structural tests for zero and one, which for a few trigonometric and
//! negated constant subtrees consult a numeric evaluation.

use crate::expression::{fast_eq, is_parameterized, is_zero_fast, may_be_zero, Expr, Expression};
use vstd::prelude::*;

verus! {

/// The two numeric questions that the tests ask about a subtree without
/// variables, whose value `x` is computed in floating point.
pub enum NumericTest {
    /// Whether `x` lies within `1e-6` of `pi / 2`: `|x - pi / 2| < 1e-6`.
    NearHalfPi,
    /// Whether `x == -1.0` holds.
    MinusOne,
}

/// Every answer that `f` gives is the one that `o` names.
pub open spec fn numeric_agrees<F: Fn(&Expression, NumericTest) -> bool>(
    f: F,
    o: spec_fn(Expr, NumericTest) -> bool,
) -> bool {
    forall|e: &Expression, t: NumericTest, b: bool| #[trigger] f.ensures((e, t), b) ==> b == o(e@, t)
}

/// The test for zero, where `o` answers the numeric questions.
pub open spec fn is_zero(e: Expr, o: spec_fn(Expr, NumericTest) -> bool) -> bool
    decreases e,
{
    match e {
        Expr::Const(c) => c.0 == 0,
        Expr::Neg(x) => is_zero(*x, o),
        Expr::Add(l, r) => is_zero(*l, o) && is_zero(*r, o),
        Expr::Sub(l, r) => (is_zero(*l, o) && is_zero(*r, o)) || fast_eq(*l, *r),
        Expr::Mul(l, r) => is_zero(*l, o) || is_zero(*r, o),
        Expr::Div(l, _) => is_zero(*l, o),
        Expr::Pow(l, r) => is_zero(*l, o) && !is_zero(*r, o),
        Expr::Sqrt(x) => is_zero(*x, o),
        Expr::Sin(x) => is_zero(*x, o),
        Expr::Cos(x) => !is_parameterized(*x) && o(*x, NumericTest::NearHalfPi),
        Expr::Pi => false,
        Expr::Var(_) => false,
    }
}

/// The test for one, where `o` answers the numeric questions.
pub open spec fn is_one(e: Expr, o: spec_fn(Expr, NumericTest) -> bool) -> bool
    decreases e,
{
    match e {
        Expr::Const(c) => c.0 == c.1,
        Expr::Neg(x) => !is_parameterized(*x) && o(*x, NumericTest::MinusOne),
        Expr::Add(l, r) => is_one(*l, o) && is_zero(*r, o) || is_zero(*l, o) && is_one(*r, o),
        Expr::Sub(l, r) => is_one(*l, o) && is_zero(*r, o),
        Expr::Mul(l, r) => is_one(*l, o) && is_one(*r, o),
        Expr::Div(l, r) => fast_eq(*l, *r) && !is_zero(*r, o),
        Expr::Pow(l, _) => is_one(*l, o),
        Expr::Sqrt(x) => is_one(*x, o),
        Expr::Sin(x) => !is_parameterized(*x) && o(*x, NumericTest::NearHalfPi),
        Expr::Cos(x) => is_zero(*x, o),
        Expr::Pi => false,
        Expr::Var(_) => false,
    }
}

impl Expression {
    /// Whether this tree is structurally zero. `numeric` answers the
    /// numeric questions about variable-free subtrees (a floating-point
    /// evaluation that this library leaves to the caller).
    pub fn is_zero<F: Fn(&Expression, NumericTest) -> bool>(&self, numeric: &F) -> (r: bool)
        requires
            forall|e: &Expression, t: NumericTest| numeric.requires((e, t)),
        ensures
            forall|o: spec_fn(Expr, NumericTest) -> bool|
                numeric_agrees(*numeric, o) ==> r == is_zero(self@, o),
        decreases self,
    {
        match self {
            Expression::Constant(c) => c.numer_is_zero(),
            Expression::Neg(x) => x.is_zero(numeric),
            Expression::Add(l, r) => {
                let a = l.is_zero(numeric);
                let b = a && r.is_zero(numeric);
                assert forall|o: spec_fn(Expr, NumericTest) -> bool|
                    numeric_agrees(*numeric, o) implies b == is_zero(self@, o) by {
                    assert(a == is_zero(l@, o));
                    if a {
                        assert(b == is_zero(r@, o));
                    }
                }
                b
            },
            Expression::Sub(l, r) => {
                let a = l.is_zero(numeric);
                let b = a && r.is_zero(numeric);
                let res = b || l.fast_eq(r);
                assert forall|o: spec_fn(Expr, NumericTest) -> bool|
                    numeric_agrees(*numeric, o) implies res == is_zero(self@, o) by {
                    assert(a == is_zero(l@, o));
                    if a {
                        assert(b == is_zero(r@, o));
                    }
                }
                res
            },
            Expression::Mul(l, r) => {
                let a = l.is_zero(numeric);
                let b = a || r.is_zero(numeric);
                assert forall|o: spec_fn(Expr, NumericTest) -> bool|
                    numeric_agrees(*numeric, o) implies b == is_zero(self@, o) by {
                    assert(a == is_zero(l@, o));
                    if !a {
                        assert(b == is_zero(r@, o));
                    }
                }
                b
            },
            Expression::Div(l, _) => l.is_zero(numeric),
            Expression::Pow(l, r) => {
                let a = l.is_zero(numeric);
                let b = a && !r.is_zero(numeric);
                assert forall|o: spec_fn(Expr, NumericTest) -> bool|
                    numeric_agrees(*numeric, o) implies b == is_zero(self@, o) by {
                    assert(a == is_zero(l@, o));
                    if a {
                        assert(!b == is_zero(r@, o));
                    }
                }
                b
            },
            Expression::Sqrt(x) => x.is_zero(numeric),
            Expression::Sin(x) => x.is_zero(numeric),
            Expression::Cos(x) => {
                if x.is_parameterized() {
                    false
                } else {
                    let b = numeric(&**x, NumericTest::NearHalfPi);
                    assert forall|o: spec_fn(Expr, NumericTest) -> bool|
                        numeric_agrees(*numeric, o) implies b == is_zero(self@, o) by {
                        assert(numeric.ensures((&**x, NumericTest::NearHalfPi), b));
                    }
                    b
                }
            },
            Expression::Pi => false,
            Expression::Variable(_) => false,
        }
    }

    /// Whether this tree is structurally one. `numeric` answers the numeric
    /// questions about variable-free subtrees (a floating-point evaluation
    /// that this library leaves to the caller).
    pub fn is_one<F: Fn(&Expression, NumericTest) -> bool>(&self, numeric: &F) -> (r: bool)
        requires
            forall|e: &Expression, t: NumericTest| numeric.requires((e, t)),
        ensures
            forall|o: spec_fn(Expr, NumericTest) -> bool|
                numeric_agrees(*numeric, o) ==> r == is_one(self@, o),
        decreases self,
    {
        match self {
            Expression::Constant(c) => c.numer_eq_denom(),
            Expression::Neg(x) => {
                if x.is_parameterized() {
                    false
                } else {
                    let b = numeric(&**x, NumericTest::MinusOne);
                    assert forall|o: spec_fn(Expr, NumericTest) -> bool|
                        numeric_agrees(*numeric, o) implies b == is_one(self@, o) by {
                        assert(numeric.ensures((&**x, NumericTest::MinusOne), b));
                    }
                    b
                }
            },
            Expression::Add(l, r) => {
                let a1 = l.is_one(numeric);
                let a2 = a1 && r.is_zero(numeric);
                let res = if a2 {
                    true
                } else {
                    let b1 = l.is_zero(numeric);
                    let b2 = b1 && r.is_one(numeric);
                    assert forall|o: spec_fn(Expr, NumericTest) -> bool|
                        numeric_agrees(*numeric, o) implies b2 == (is_zero(l@, o) && is_one(r@, o)) by {
                        assert(b1 == is_zero(l@, o));
                        if b1 {
                            assert(b2 == is_one(r@, o));
                        }
                    }
                    b2
                };
                assert forall|o: spec_fn(Expr, NumericTest) -> bool|
                    numeric_agrees(*numeric, o) implies res == is_one(self@, o) by {
                    assert(a1 == is_one(l@, o));
                    if a1 {
                        assert(a2 == is_zero(r@, o));
                    }
                }
                res
            },
            Expression::Sub(l, r) => {
                let a = l.is_one(numeric);
                let b = a && r.is_zero(numeric);
                assert forall|o: spec_fn(Expr, NumericTest) -> bool|
                    numeric_agrees(*numeric, o) implies b == is_one(self@, o) by {
                    assert(a == is_one(l@, o));
                    if a {
                        assert(b == is_zero(r@, o));
                    }
                }
                b
            },
            Expression::Mul(l, r) => {
                let a = l.is_one(numeric);
                let b = a && r.is_one(numeric);
                assert forall|o: spec_fn(Expr, NumericTest) -> bool|
                    numeric_agrees(*numeric, o) implies b == is_one(self@, o) by {
                    assert(a == is_one(l@, o));
                    if a {
                        assert(b == is_one(r@, o));
                    }
                }
                b
            },
            Expression::Div(l, r) => {
                let a = l.fast_eq(r);
                let b = a && !r.is_zero(numeric);
                assert forall|o: spec_fn(Expr, NumericTest) -> bool|
                    numeric_agrees(*numeric, o) implies b == is_one(self@, o) by {
                    if a {
                        assert(!b == is_zero(r@, o));
                    }
                }
                b
            },
            Expression::Pow(l, _) => l.is_one(numeric),
            Expression::Sqrt(x) => x.is_one(numeric),
            Expression::Sin(x) => {
                if x.is_parameterized() {
                    false
                } else {
                    let b = numeric(&**x, NumericTest::NearHalfPi);
                    assert forall|o: spec_fn(Expr, NumericTest) -> bool|
                        numeric_agrees(*numeric, o) implies b == is_one(self@, o) by {
                        assert(numeric.ensures((&**x, NumericTest::NearHalfPi), b));
                    }
                    b
                }
            },
            Expression::Cos(x) => x.is_zero(numeric),
            Expression::Pi => false,
            Expression::Variable(_) => false,
        }
    }
}

/// What the full test finds zero, [`may_be_zero`] allows, whatever the
/// numeric answers.
pub proof fn law_zero_may_be_zero(e: Expr, o: spec_fn(Expr, NumericTest) -> bool)
    ensures
        is_zero(e, o) ==> may_be_zero(e),
    decreases e,
{
    match e {
        Expr::Neg(x) | Expr::Sqrt(x) | Expr::Sin(x) | Expr::Cos(x) => law_zero_may_be_zero(*x, o),
        Expr::Add(l, r) | Expr::Sub(l, r) | Expr::Mul(l, r) | Expr::Div(l, r) | Expr::Pow(l, r) => {
            law_zero_may_be_zero(*l, o);
            law_zero_may_be_zero(*r, o);
        },
        _ => {},
    }
}

/// The fast test for zero is conservative: what it finds zero, the full
/// test finds zero too, whatever the numeric answers.
pub proof fn law_fast_zero_is_zero(e: Expr, o: spec_fn(Expr, NumericTest) -> bool)
    ensures
        is_zero_fast(e) ==> is_zero(e, o),
    decreases e,
{
    match e {
        Expr::Neg(x) => law_fast_zero_is_zero(*x, o),
        Expr::Add(l, r) => {
            law_fast_zero_is_zero(*l, o);
            law_fast_zero_is_zero(*r, o);
        },
        Expr::Sub(l, r) => {
            law_fast_zero_is_zero(*l, o);
            law_fast_zero_is_zero(*r, o);
        },
        Expr::Mul(l, r) => {
            law_fast_zero_is_zero(*l, o);
            law_fast_zero_is_zero(*r, o);
        },
        Expr::Div(l, r) => {
            law_fast_zero_is_zero(*l, o);
        },
        Expr::Pow(l, r) => {
            law_fast_zero_is_zero(*l, o);
            law_zero_may_be_zero(*r, o);
        },
        Expr::Sqrt(x) => law_fast_zero_is_zero(*x, o),
        Expr::Sin(x) => law_fast_zero_is_zero(*x, o),
        _ => {},
    }
}

/// A quotient is one by the full test only when its operands are equal by
/// [`fast_eq`] and its divisor is not zero.
pub proof fn law_one_quotient(l: Expr, r: Expr, o: spec_fn(Expr, NumericTest) -> bool)
    ensures
        is_one(Expr::Div(Box::new(l), Box::new(r)), o) ==> fast_eq(l, r) && !is_zero(r, o),
{
}

} // verus!
