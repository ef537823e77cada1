//! The exact rational value of an expression tree built from constants,
//! variables and the four arithmetic operations, its value in a model that
//! also interprets the functions and powers, and the laws that tie the
//! operations on trees to these values.

use crate::constant::{law_reduced_form_value, rat_eq};
use crate::complex::{cdenominator, cdiv, cmul};
use crate::derivative::derivative;
use crate::expression::{
    add_expr, contains_var, div_expr, fast_eq, is_one_fast, is_parameterized, is_zero_fast, mul_expr,
    neg_expr, sub_expr, Expr,
};
use crate::zero_one::{is_one, is_zero, NumericTest};
use vstd::prelude::*;

verus! {

/// The sum of two fractions, not reduced.
pub open spec fn qadd(a: (int, int), b: (int, int)) -> (int, int) {
    (a.0 * b.1 + b.0 * a.1, a.1 * b.1)
}

/// The difference of two fractions, not reduced.
pub open spec fn qsub(a: (int, int), b: (int, int)) -> (int, int) {
    (a.0 * b.1 - b.0 * a.1, a.1 * b.1)
}

/// The product of two fractions, not reduced.
pub open spec fn qmul(a: (int, int), b: (int, int)) -> (int, int) {
    (a.0 * b.0, a.1 * b.1)
}

/// The quotient of two fractions, not reduced.
pub open spec fn qdiv(a: (int, int), b: (int, int)) -> (int, int) {
    (a.0 * b.1, a.1 * b.0)
}

/// The negation of a fraction.
pub open spec fn qneg(a: (int, int)) -> (int, int) {
    (-a.0, a.1)
}

/// The exact value of `e` as a fraction, where `env` gives the value of
/// each variable. A tree has a value when it is built from constants and
/// variables with non-zero denominators by negation, sum, difference,
/// product and quotient by a non-zero value; every other tree has none.
pub open spec fn value(e: Expr, env: spec_fn(Seq<char>) -> (int, int)) -> Option<(int, int)>
    decreases e,
{
    match e {
        Expr::Const(c) => if c.1 != 0 {
            Some(c)
        } else {
            None
        },
        Expr::Var(v) => if env(v).1 != 0 {
            Some(env(v))
        } else {
            None
        },
        Expr::Neg(x) => match value(*x, env) {
            Some(p) => Some(qneg(p)),
            None => None,
        },
        Expr::Add(l, r) => match (value(*l, env), value(*r, env)) {
            (Some(p), Some(q)) => Some(qadd(p, q)),
            _ => None,
        },
        Expr::Sub(l, r) => match (value(*l, env), value(*r, env)) {
            (Some(p), Some(q)) => Some(qsub(p, q)),
            _ => None,
        },
        Expr::Mul(l, r) => match (value(*l, env), value(*r, env)) {
            (Some(p), Some(q)) => Some(qmul(p, q)),
            _ => None,
        },
        Expr::Div(l, r) => match (value(*l, env), value(*r, env)) {
            (Some(p), Some(q)) => if q.0 != 0 {
                Some(qdiv(p, q))
            } else {
                None
            },
            _ => None,
        },
        _ => None,
    }
}

/// `e` has a value, and it equals the fraction `q`.
pub open spec fn has_value(e: Expr, env: spec_fn(Seq<char>) -> (int, int), q: (int, int)) -> bool {
    &&& value(e, env) is Some
    &&& rat_eq(value(e, env).unwrap(), q)
}

/// A product of non-zero integers is not zero.
pub proof fn lemma_nonzero_product(x: int, y: int)
    requires
        x != 0,
        y != 0,
    ensures
        x * y != 0,
{
    assert(x * y != 0) by (nonlinear_arith)
        requires
            x != 0,
            y != 0,
    ;
}

/// A value has a non-zero denominator.
pub proof fn lemma_value_denom(e: Expr, env: spec_fn(Seq<char>) -> (int, int))
    ensures
        value(e, env) matches Some(p) ==> p.1 != 0,
    decreases e,
{
    match e {
        Expr::Neg(x) => lemma_value_denom(*x, env),
        Expr::Add(l, r) | Expr::Sub(l, r) | Expr::Mul(l, r) | Expr::Div(l, r) => {
            lemma_value_denom(*l, env);
            lemma_value_denom(*r, env);
            if let (Some(p), Some(q)) = (value(*l, env), value(*r, env)) {
                lemma_nonzero_product(p.1, q.1);
                if q.0 != 0 {
                    lemma_nonzero_product(p.1, q.0);
                }
            }
        },
        _ => {},
    }
}

/// Equality of fractions with non-zero denominators is transitive.
pub proof fn lemma_eq_trans(a: (int, int), b: (int, int), c: (int, int))
    requires
        b.1 != 0,
        rat_eq(a, b),
        rat_eq(b, c),
    ensures
        rat_eq(a, c),
{
    assert((a.0 * c.1 - c.0 * a.1) * b.1 == 0) by (nonlinear_arith)
        requires
            a.0 * b.1 == b.0 * a.1,
            b.0 * c.1 == c.0 * b.1,
    ;
    assert(a.0 * c.1 - c.0 * a.1 == 0) by (nonlinear_arith)
        requires
            (a.0 * c.1 - c.0 * a.1) * b.1 == 0,
            b.1 != 0,
    ;
}

/// Replacing operands by equal fractions gives equal results.
pub proof fn lemma_ops_congruent(a: (int, int), b: (int, int), c: (int, int), d: (int, int))
    requires
        rat_eq(a, c),
        rat_eq(b, d),
    ensures
        rat_eq(qadd(a, b), qadd(c, d)),
        rat_eq(qsub(a, b), qsub(c, d)),
        rat_eq(qmul(a, b), qmul(c, d)),
        rat_eq(qdiv(a, b), qdiv(c, d)),
        rat_eq(qneg(a), qneg(c)),
{
    let (a0, a1, b0, b1, c0, c1, d0, d1) = (a.0, a.1, b.0, b.1, c.0, c.1, d.0, d.1);
    assert(a0 * c1 == c0 * a1 && b0 * d1 == d0 * b1);
    let (x, y, z) = (a0 * b1, b0 * a1, c1 * d1);
    vstd::arithmetic::mul::lemma_mul_is_distributive_add_other_way(z, x, y);
    vstd::arithmetic::mul::lemma_mul_is_distributive_sub_other_way(z, x, y);
    assert(x * z == (a0 * c1) * (b1 * d1)) by (nonlinear_arith)
        requires
            x == a0 * b1,
            z == c1 * d1,
    ;
    assert(y * z == (b0 * d1) * (a1 * c1)) by (nonlinear_arith)
        requires
            y == b0 * a1,
            z == c1 * d1,
    ;
    assert((c0 * a1) * (b1 * d1) == (c0 * d1) * (a1 * b1)) by (nonlinear_arith);
    assert((d0 * b1) * (a1 * c1) == (d0 * c1) * (a1 * b1)) by (nonlinear_arith);
    vstd::arithmetic::mul::lemma_mul_is_distributive_add_other_way(a1 * b1, c0 * d1, d0 * c1);
    vstd::arithmetic::mul::lemma_mul_is_distributive_sub_other_way(a1 * b1, c0 * d1, d0 * c1);
    assert((a0 * b0) * (c1 * d1) == (a0 * c1) * (b0 * d1)) by (nonlinear_arith);
    assert((c0 * a1) * (d0 * b1) == (c0 * d0) * (a1 * b1)) by (nonlinear_arith);
    assert((a0 * b1) * (c1 * d0) == (a0 * c1) * (b1 * d0)) by (nonlinear_arith);
    assert((c0 * a1) * (d1 * b0) == (c0 * d1) * (a1 * b0)) by (nonlinear_arith);
    assert(b1 * d0 == d1 * b0) by (nonlinear_arith)
        requires
            b0 * d1 == d0 * b1,
    ;
    assert((-a0) * c1 == (-c0) * a1) by (nonlinear_arith)
        requires
            a0 * c1 == c0 * a1,
    ;
}

/// Sum and product do not depend on the order of the operands.
pub proof fn lemma_ops_commute(a: (int, int), b: (int, int))
    ensures
        rat_eq(qadd(a, b), qadd(b, a)),
        rat_eq(qmul(a, b), qmul(b, a)),
{
    assert(rat_eq(qadd(a, b), qadd(b, a))) by (nonlinear_arith);
    assert(rat_eq(qmul(a, b), qmul(b, a))) by (nonlinear_arith);
}

/// What the fast test finds zero has the value zero, where it has a value.
pub proof fn lemma_fast_zero_value(e: Expr, env: spec_fn(Seq<char>) -> (int, int))
    ensures
        is_zero_fast(e) && value(e, env) is Some ==> value(e, env).unwrap().0 == 0,
    decreases e,
{
    match e {
        Expr::Neg(x) => lemma_fast_zero_value(*x, env),
        Expr::Add(l, r) | Expr::Sub(l, r) | Expr::Mul(l, r) | Expr::Div(l, r) => {
            lemma_fast_zero_value(*l, env);
            lemma_fast_zero_value(*r, env);
            if let (Some(p), Some(q)) = (value(*l, env), value(*r, env)) {
                if p.0 == 0 {
                    assert(p.0 * q.1 == 0 && p.0 * q.0 == 0 && q.0 * p.0 == 0) by (nonlinear_arith)
                        requires
                            p.0 == 0,
                    ;
                }
                if q.0 == 0 {
                    assert(q.0 * p.1 == 0 && p.0 * q.0 == 0) by (nonlinear_arith)
                        requires
                            q.0 == 0,
                    ;
                }
            }
        },
        _ => {},
    }
}

/// What the fast test finds one has the value one, where it has a value.
pub proof fn lemma_fast_one_value(e: Expr, env: spec_fn(Seq<char>) -> (int, int))
    ensures
        is_one_fast(e) && value(e, env) is Some ==> value(e, env).unwrap().0 == value(
            e,
            env,
        ).unwrap().1,
    decreases e,
{
    match e {
        Expr::Add(l, r) | Expr::Sub(l, r) | Expr::Mul(l, r) | Expr::Div(l, r) => {
            lemma_fast_one_value(*l, env);
            lemma_fast_one_value(*r, env);
            lemma_fast_zero_value(*l, env);
            lemma_fast_zero_value(*r, env);
            if let (Some(p), Some(q)) = (value(*l, env), value(*r, env)) {
                if p.0 == p.1 && q.0 == 0 {
                    assert(p.0 * q.1 + q.0 * p.1 == p.1 * q.1 && p.0 * q.1 - q.0 * p.1 == p.1 * q.1)
                        by (nonlinear_arith)
                        requires
                            p.0 == p.1,
                            q.0 == 0,
                    ;
                }
                if p.0 == 0 && q.0 == q.1 {
                    assert(p.0 * q.1 + q.0 * p.1 == p.1 * q.1) by (nonlinear_arith)
                        requires
                            q.0 == q.1,
                            p.0 == 0,
                    ;
                }
                if p.0 == p.1 && q.0 == q.1 {
                    assert(p.0 * q.0 == p.1 * q.1 && p.0 * q.1 == p.1 * q.0) by (nonlinear_arith)
                        requires
                            p.0 == p.1,
                            q.0 == q.1,
                    ;
                }
            }
        },
        _ => {},
    }
}

/// The simplifying constructors keep the value: each builds a tree whose
/// value is the sum, difference, product, quotient or negation of the
/// operands' values.
pub proof fn lemma_built_values(a: Expr, b: Expr, env: spec_fn(Seq<char>) -> (int, int))
    requires
        value(a, env) is Some,
        value(b, env) is Some,
    ensures
        has_value(add_expr(a, b), env, qadd(value(a, env).unwrap(), value(b, env).unwrap())),
        has_value(sub_expr(a, b), env, qsub(value(a, env).unwrap(), value(b, env).unwrap())),
        has_value(mul_expr(a, b), env, qmul(value(a, env).unwrap(), value(b, env).unwrap())),
        value(b, env).unwrap().0 != 0 ==> has_value(
            div_expr(a, b),
            env,
            qdiv(value(a, env).unwrap(), value(b, env).unwrap()),
        ),
        has_value(neg_expr(a), env, qneg(value(a, env).unwrap())),
{
    reveal(add_expr);
    reveal(sub_expr);
    reveal(mul_expr);
    reveal(div_expr);
    reveal(neg_expr);
    let p = value(a, env).unwrap();
    let q = value(b, env).unwrap();
    lemma_value_denom(a, env);
    lemma_value_denom(b, env);
    lemma_fast_zero_value(a, env);
    lemma_fast_zero_value(b, env);
    lemma_fast_one_value(a, env);
    lemma_fast_one_value(b, env);
    lemma_nonzero_product(p.1, q.1);
    if q.0 != 0 {
        lemma_nonzero_product(p.1, q.0);
    }
    if let (Expr::Const(c1), Expr::Const(c2)) = (a, b) {
        law_reduced_form_value(p.0 * q.1 + q.0 * p.1, p.1 * q.1);
        law_reduced_form_value(p.0 * q.1 - q.0 * p.1, p.1 * q.1);
        law_reduced_form_value(p.0 * q.0, p.1 * q.1);
        if q.0 != 0 {
            law_reduced_form_value(p.0 * q.1, p.1 * q.0);
        }
    }
    assert(p.0 * (p.1 * q.1) == (p.0 * q.1) * p.1) by (nonlinear_arith);
    assert(q.0 * (p.1 * q.1) == (q.0 * p.1) * q.1) by (nonlinear_arith);
    assert((-q.0) * (p.1 * q.1) == (-(q.0 * p.1)) * q.1) by (nonlinear_arith);
    if p.0 == 0 {
        assert(p.0 * q.1 == 0 && p.0 * q.0 == 0 && 0 * p.1 == 0) by (nonlinear_arith)
            requires
                p.0 == 0,
        ;
    }
    if q.0 == 0 {
        assert(q.0 * p.1 == 0 && p.0 * q.0 == 0) by (nonlinear_arith)
            requires
                q.0 == 0,
        ;
    }
    if q.0 == q.1 {
        assert(p.0 * (p.1 * q.1) == (p.0 * q.0) * p.1) by (nonlinear_arith)
            requires
                q.0 == q.1,
        ;
    }
    if p.0 == p.1 {
        assert(q.0 * (p.1 * q.1) == (p.0 * q.0) * q.1) by (nonlinear_arith)
            requires
                p.0 == p.1,
        ;
    }
    assert(0 * (p.1 * q.1) == 0 * 1 && 0 * (p.1 * q.0) == 0 * 1);
}

/// A value equal to `q1` equals every fraction equal to `q1`.
pub proof fn lemma_has_value_trans(
    e: Expr,
    env: spec_fn(Seq<char>) -> (int, int),
    q1: (int, int),
    q2: (int, int),
)
    requires
        has_value(e, env, q1),
        q1.1 != 0,
        rat_eq(q1, q2),
    ensures
        has_value(e, env, q2),
{
    lemma_eq_trans(value(e, env).unwrap(), q1, q2);
}

/// The derivative of a negation has the negated value of the derivative.
pub proof fn law_derivative_of_negation(
    x: Expr,
    wrt: Seq<char>,
    ln_of: spec_fn(Expr) -> (int, int),
    env: spec_fn(Seq<char>) -> (int, int),
)
    requires
        value(derivative(x, wrt, ln_of), env) is Some,
    ensures
        has_value(
            derivative(Expr::Neg(Box::new(x)), wrt, ln_of),
            env,
            qneg(value(derivative(x, wrt, ln_of), env).unwrap()),
        ),
{
    let n = derivative(Expr::Neg(Box::new(x)), wrt, ln_of);
    assert(value(n, env).unwrap() == qneg(value(derivative(x, wrt, ln_of), env).unwrap()));
}

/// The derivative of a variable is one for the variable differentiated by
/// and zero for any other; that of a constant is zero.
pub proof fn law_derivative_of_leaves(
    v: Seq<char>,
    c: (int, int),
    wrt: Seq<char>,
    ln_of: spec_fn(Expr) -> (int, int),
    env: spec_fn(Seq<char>) -> (int, int),
)
    ensures
        has_value(derivative(Expr::Var(v), wrt, ln_of), env, if v == wrt { (1, 1) } else { (0, 1) }),
        has_value(derivative(Expr::Const(c), wrt, ln_of), env, (0, 1)),
{
}

/// On values, differentiation follows the sum, difference, product and
/// quotient rules.
pub proof fn law_derivative_rules(
    x: Expr,
    y: Expr,
    wrt: Seq<char>,
    ln_of: spec_fn(Expr) -> (int, int),
    env: spec_fn(Seq<char>) -> (int, int),
)
    requires
        value(x, env) is Some,
        value(y, env) is Some,
        value(derivative(x, wrt, ln_of), env) is Some,
        value(derivative(y, wrt, ln_of), env) is Some,
    ensures
        ({
            let vx = value(x, env).unwrap();
            let vy = value(y, env).unwrap();
            let dx = value(derivative(x, wrt, ln_of), env).unwrap();
            let dy = value(derivative(y, wrt, ln_of), env).unwrap();
            &&& has_value(derivative(Expr::Add(Box::new(x), Box::new(y)), wrt, ln_of), env, qadd(dx, dy))
            &&& has_value(derivative(Expr::Sub(Box::new(x), Box::new(y)), wrt, ln_of), env, qsub(dx, dy))
            &&& has_value(
                derivative(Expr::Mul(Box::new(x), Box::new(y)), wrt, ln_of),
                env,
                qadd(qmul(dx, vy), qmul(vx, dy)),
            )
            &&& vy.0 != 0 ==> has_value(
                derivative(Expr::Div(Box::new(x), Box::new(y)), wrt, ln_of),
                env,
                qdiv(qsub(qmul(dx, vy), qmul(vx, dy)), qmul(vy, vy)),
            )
        }),
{
    let vx = value(x, env).unwrap();
    let vy = value(y, env).unwrap();
    let ddx = derivative(x, wrt, ln_of);
    let ddy = derivative(y, wrt, ln_of);
    let dx = value(ddx, env).unwrap();
    let dy = value(ddy, env).unwrap();
    lemma_value_denom(x, env);
    lemma_value_denom(y, env);
    lemma_value_denom(ddx, env);
    lemma_value_denom(ddy, env);
    let m1 = mul_expr(ddx, y);
    let m2 = mul_expr(x, ddy);
    lemma_built_values(ddx, y, env);
    lemma_built_values(x, ddy, env);
    lemma_value_denom(m1, env);
    lemma_value_denom(m2, env);
    let v1 = value(m1, env).unwrap();
    let v2 = value(m2, env).unwrap();
    lemma_built_values(m1, m2, env);
    lemma_ops_congruent(v1, v2, qmul(dx, vy), qmul(vx, dy));
    lemma_nonzero_product(v1.1, v2.1);
    lemma_has_value_trans(add_expr(m1, m2), env, qadd(v1, v2), qadd(qmul(dx, vy), qmul(vx, dy)));
    assert(derivative(Expr::Mul(Box::new(x), Box::new(y)), wrt, ln_of) == add_expr(m1, m2));
    assert(value(derivative(Expr::Sub(Box::new(x), Box::new(y)), wrt, ln_of), env).unwrap() == qsub(dx, dy));
    assert(value(derivative(Expr::Add(Box::new(x), Box::new(y)), wrt, ln_of), env).unwrap() == qadd(dx, dy));
    if vy.0 != 0 {
        let s = sub_expr(m1, m2);
        lemma_has_value_trans(s, env, qsub(v1, v2), qsub(qmul(dx, vy), qmul(vx, dy)));
        let yy = mul_expr(y, y);
        lemma_built_values(y, y, env);
        lemma_value_denom(s, env);
        lemma_value_denom(yy, env);
        let vs = value(s, env).unwrap();
        let vyy = value(yy, env).unwrap();
        lemma_nonzero_product(vy.0, vy.0);
        lemma_nonzero_product(vy.1, vy.1);
        assert(vyy.0 != 0) by (nonlinear_arith)
            requires
                vyy.0 * (vy.1 * vy.1) == (vy.0 * vy.0) * vyy.1,
                vy.0 * vy.0 != 0,
                vyy.1 != 0,
        ;
        lemma_built_values(s, yy, env);
        lemma_ops_congruent(vs, vyy, qsub(qmul(dx, vy), qmul(vx, dy)), qmul(vy, vy));
        lemma_nonzero_product(vs.1, vyy.0);
        lemma_has_value_trans(
            div_expr(s, yy),
            env,
            qdiv(vs, vyy),
            qdiv(qsub(qmul(dx, vy), qmul(vx, dy)), qmul(vy, vy)),
        );
        assert(derivative(Expr::Div(Box::new(x), Box::new(y)), wrt, ln_of) == div_expr(s, yy));
    }
}

/// Trees equal by [`fast_eq`] hold the same variables.
pub proof fn law_fast_eq_same_variables(a: Expr, b: Expr, v: Seq<char>)
    requires
        fast_eq(a, b),
    ensures
        contains_var(a, v) == contains_var(b, v),
    decreases a,
{
    match (a, b) {
        (Expr::Neg(x1), Expr::Neg(x2)) => law_fast_eq_same_variables(*x1, *x2, v),
        (Expr::Sqrt(x1), Expr::Sqrt(x2)) => law_fast_eq_same_variables(*x1, *x2, v),
        (Expr::Sin(x1), Expr::Sin(x2)) => law_fast_eq_same_variables(*x1, *x2, v),
        (Expr::Cos(x1), Expr::Cos(x2)) => law_fast_eq_same_variables(*x1, *x2, v),
        (Expr::Add(l1, r1), Expr::Add(l2, r2)) | (Expr::Mul(l1, r1), Expr::Mul(l2, r2)) => {
            if fast_eq(*l1, *l2) && fast_eq(*r1, *r2) {
                law_fast_eq_same_variables(*l1, *l2, v);
                law_fast_eq_same_variables(*r1, *r2, v);
            } else {
                law_fast_eq_same_variables(*l1, *r2, v);
                law_fast_eq_same_variables(*r1, *l2, v);
            }
        },
        (Expr::Sub(l1, r1), Expr::Sub(l2, r2)) | (Expr::Div(l1, r1), Expr::Div(l2, r2)) | (
            Expr::Pow(l1, r1),
            Expr::Pow(l2, r2),
        ) => {
            law_fast_eq_same_variables(*l1, *l2, v);
            law_fast_eq_same_variables(*r1, *r2, v);
        },
        _ => {},
    }
}

/// Trees equal by [`fast_eq`] that both have a value have equal values.
pub proof fn law_fast_eq_same_value(a: Expr, b: Expr, env: spec_fn(Seq<char>) -> (int, int))
    requires
        fast_eq(a, b),
        value(a, env) is Some,
        value(b, env) is Some,
    ensures
        rat_eq(value(a, env).unwrap(), value(b, env).unwrap()),
    decreases a,
{
    lemma_value_denom(a, env);
    lemma_value_denom(b, env);
    match (a, b) {
        (Expr::Neg(x1), Expr::Neg(x2)) => {
            law_fast_eq_same_value(*x1, *x2, env);
            let p = value(*x1, env).unwrap();
            lemma_ops_congruent(p, p, value(*x2, env).unwrap(), p);
        },
        (Expr::Add(l1, r1), Expr::Add(l2, r2)) | (Expr::Mul(l1, r1), Expr::Mul(l2, r2)) => {
            let (p1, q1) = (value(*l1, env).unwrap(), value(*r1, env).unwrap());
            let (p2, q2) = (value(*l2, env).unwrap(), value(*r2, env).unwrap());
            lemma_value_denom(*l1, env);
            lemma_value_denom(*r1, env);
            lemma_value_denom(*l2, env);
            lemma_value_denom(*r2, env);
            if fast_eq(*l1, *l2) && fast_eq(*r1, *r2) {
                law_fast_eq_same_value(*l1, *l2, env);
                law_fast_eq_same_value(*r1, *r2, env);
                lemma_ops_congruent(p1, q1, p2, q2);
            } else {
                law_fast_eq_same_value(*l1, *r2, env);
                law_fast_eq_same_value(*r1, *l2, env);
                lemma_ops_congruent(p1, q1, q2, p2);
                lemma_ops_commute(q2, p2);
                lemma_nonzero_product(q2.1, p2.1);
                lemma_eq_trans(qadd(p1, q1), qadd(q2, p2), qadd(p2, q2));
                lemma_eq_trans(qmul(p1, q1), qmul(q2, p2), qmul(p2, q2));
            }
        },
        (Expr::Sub(l1, r1), Expr::Sub(l2, r2)) | (Expr::Div(l1, r1), Expr::Div(l2, r2)) => {
            law_fast_eq_same_value(*l1, *l2, env);
            law_fast_eq_same_value(*r1, *r2, env);
            lemma_ops_congruent(
                value(*l1, env).unwrap(),
                value(*r1, env).unwrap(),
                value(*l2, env).unwrap(),
                value(*r2, env).unwrap(),
            );
        },
        _ => {},
    }
}

/// The value of `e` where, beyond the field operations, `pi` is the value
/// of `Pi`, `un(0, _)`, `un(1, _)` and `un(2, _)` interpret `Sqrt`, `Sin`
/// and `Cos`, and `pw` interprets `Pow`; none where a denominator is zero.
pub open spec fn model_value(
    e: Expr,
    env: spec_fn(Seq<char>) -> (int, int),
    pi: (int, int),
    un: spec_fn(int, (int, int)) -> (int, int),
    pw: spec_fn((int, int), (int, int)) -> (int, int),
) -> Option<(int, int)>
    decreases e,
{
    let nz = |p: (int, int)| if p.1 != 0 { Some(p) } else { None };
    match e {
        Expr::Pi => nz(pi),
        Expr::Const(c) => nz(c),
        Expr::Var(v) => nz(env(v)),
        Expr::Neg(x) => match model_value(*x, env, pi, un, pw) {
            Some(p) => Some(qneg(p)),
            None => None,
        },
        Expr::Sqrt(x) => match model_value(*x, env, pi, un, pw) {
            Some(p) => nz(un(0, p)),
            None => None,
        },
        Expr::Sin(x) => match model_value(*x, env, pi, un, pw) {
            Some(p) => nz(un(1, p)),
            None => None,
        },
        Expr::Cos(x) => match model_value(*x, env, pi, un, pw) {
            Some(p) => nz(un(2, p)),
            None => None,
        },
        Expr::Add(l, r) => match (model_value(*l, env, pi, un, pw), model_value(*r, env, pi, un, pw)) {
            (Some(p), Some(q)) => Some(qadd(p, q)),
            _ => None,
        },
        Expr::Sub(l, r) => match (model_value(*l, env, pi, un, pw), model_value(*r, env, pi, un, pw)) {
            (Some(p), Some(q)) => Some(qsub(p, q)),
            _ => None,
        },
        Expr::Mul(l, r) => match (model_value(*l, env, pi, un, pw), model_value(*r, env, pi, un, pw)) {
            (Some(p), Some(q)) => Some(qmul(p, q)),
            _ => None,
        },
        Expr::Div(l, r) => match (model_value(*l, env, pi, un, pw), model_value(*r, env, pi, un, pw)) {
            (Some(p), Some(q)) => if q.0 != 0 {
                Some(qdiv(p, q))
            } else {
                None
            },
            _ => None,
        },
        Expr::Pow(l, r) => match (model_value(*l, env, pi, un, pw), model_value(*r, env, pi, un, pw)) {
            (Some(p), Some(q)) => nz(pw(p, q)),
            _ => None,
        },
    }
}

/// `un` and `pw` give equal results on equal fractions.
pub open spec fn congruent(
    un: spec_fn(int, (int, int)) -> (int, int),
    pw: spec_fn((int, int), (int, int)) -> (int, int),
) -> bool {
    &&& forall|k: int, p: (int, int), q: (int, int)|
        p.1 != 0 && q.1 != 0 && rat_eq(p, q) ==> rat_eq(#[trigger] un(k, p), #[trigger] un(k, q))
    &&& forall|p1: (int, int), q1: (int, int), p2: (int, int), q2: (int, int)|
        p1.1 != 0 && q1.1 != 0 && p2.1 != 0 && q2.1 != 0 && rat_eq(p1, p2) && rat_eq(q1, q2)
            ==> rat_eq(#[trigger] pw(p1, q1), #[trigger] pw(p2, q2))
}

/// A model value has a non-zero denominator.
proof fn lemma_model_value_denom(
    e: Expr,
    env: spec_fn(Seq<char>) -> (int, int),
    pi: (int, int),
    un: spec_fn(int, (int, int)) -> (int, int),
    pw: spec_fn((int, int), (int, int)) -> (int, int),
)
    ensures
        model_value(e, env, pi, un, pw) matches Some(p) ==> p.1 != 0,
    decreases e,
{
    match e {
        Expr::Neg(x) | Expr::Sqrt(x) | Expr::Sin(x) | Expr::Cos(x) => lemma_model_value_denom(
            *x,
            env,
            pi,
            un,
            pw,
        ),
        Expr::Add(l, r) | Expr::Sub(l, r) | Expr::Mul(l, r) | Expr::Div(l, r) | Expr::Pow(l, r) => {
            lemma_model_value_denom(*l, env, pi, un, pw);
            lemma_model_value_denom(*r, env, pi, un, pw);
            if let (Some(p), Some(q)) = (
                model_value(*l, env, pi, un, pw),
                model_value(*r, env, pi, un, pw),
            ) {
                lemma_nonzero_product(p.1, q.1);
                if q.0 != 0 {
                    lemma_nonzero_product(p.1, q.0);
                }
            }
        },
        _ => {},
    }
}

/// Trees equal by [`fast_eq`] have equal values in every model that
/// interprets the functions and powers congruently: equality compares
/// structure, with sums and products commuting and constants compared as
/// numbers, and nothing more.
pub proof fn law_fast_eq_same_model_value(
    a: Expr,
    b: Expr,
    env: spec_fn(Seq<char>) -> (int, int),
    pi: (int, int),
    un: spec_fn(int, (int, int)) -> (int, int),
    pw: spec_fn((int, int), (int, int)) -> (int, int),
)
    requires
        fast_eq(a, b),
        congruent(un, pw),
        model_value(a, env, pi, un, pw) is Some,
        model_value(b, env, pi, un, pw) is Some,
    ensures
        rat_eq(model_value(a, env, pi, un, pw).unwrap(), model_value(b, env, pi, un, pw).unwrap()),
    decreases a,
{
    lemma_model_value_denom(a, env, pi, un, pw);
    lemma_model_value_denom(b, env, pi, un, pw);
    match (a, b) {
        (Expr::Neg(x1), Expr::Neg(x2)) | (Expr::Sqrt(x1), Expr::Sqrt(x2)) | (Expr::Sin(x1), Expr::Sin(x2))
        | (Expr::Cos(x1), Expr::Cos(x2)) => {
            law_fast_eq_same_model_value(*x1, *x2, env, pi, un, pw);
            lemma_model_value_denom(*x1, env, pi, un, pw);
            lemma_model_value_denom(*x2, env, pi, un, pw);
            let p = model_value(*x1, env, pi, un, pw).unwrap();
            let q = model_value(*x2, env, pi, un, pw).unwrap();
            lemma_ops_congruent(p, p, q, p);
            assert(rat_eq(un(0, p), un(0, q)) && rat_eq(un(1, p), un(1, q)) && rat_eq(un(2, p), un(2, q)));
        },
        (Expr::Add(l1, r1), Expr::Add(l2, r2)) | (Expr::Mul(l1, r1), Expr::Mul(l2, r2)) => {
            lemma_model_value_denom(*l1, env, pi, un, pw);
            lemma_model_value_denom(*r1, env, pi, un, pw);
            lemma_model_value_denom(*l2, env, pi, un, pw);
            lemma_model_value_denom(*r2, env, pi, un, pw);
            let (p1, q1) = (model_value(*l1, env, pi, un, pw).unwrap(), model_value(*r1, env, pi, un, pw).unwrap());
            let (p2, q2) = (model_value(*l2, env, pi, un, pw).unwrap(), model_value(*r2, env, pi, un, pw).unwrap());
            if fast_eq(*l1, *l2) && fast_eq(*r1, *r2) {
                law_fast_eq_same_model_value(*l1, *l2, env, pi, un, pw);
                law_fast_eq_same_model_value(*r1, *r2, env, pi, un, pw);
                lemma_ops_congruent(p1, q1, p2, q2);
            } else {
                law_fast_eq_same_model_value(*l1, *r2, env, pi, un, pw);
                law_fast_eq_same_model_value(*r1, *l2, env, pi, un, pw);
                lemma_ops_congruent(p1, q1, q2, p2);
                lemma_ops_commute(q2, p2);
                lemma_nonzero_product(q2.1, p2.1);
                lemma_eq_trans(qadd(p1, q1), qadd(q2, p2), qadd(p2, q2));
                lemma_eq_trans(qmul(p1, q1), qmul(q2, p2), qmul(p2, q2));
            }
        },
        (Expr::Sub(l1, r1), Expr::Sub(l2, r2)) | (Expr::Div(l1, r1), Expr::Div(l2, r2)) | (
            Expr::Pow(l1, r1),
            Expr::Pow(l2, r2),
        ) => {
            law_fast_eq_same_model_value(*l1, *l2, env, pi, un, pw);
            law_fast_eq_same_model_value(*r1, *r2, env, pi, un, pw);
            lemma_model_value_denom(*l1, env, pi, un, pw);
            lemma_model_value_denom(*r1, env, pi, un, pw);
            lemma_model_value_denom(*l2, env, pi, un, pw);
            lemma_model_value_denom(*r2, env, pi, un, pw);
            let (p1, q1) = (model_value(*l1, env, pi, un, pw).unwrap(), model_value(*r1, env, pi, un, pw).unwrap());
            let (p2, q2) = (model_value(*l2, env, pi, un, pw).unwrap(), model_value(*r2, env, pi, un, pw).unwrap());
            lemma_ops_congruent(p1, q1, p2, q2);
            assert(rat_eq(pw(p1, q1), pw(p2, q2)));
        },
        _ => {},
    }
}

/// The tests for zero and one are sound on trees with a value, where the
/// numeric answer to whether a closed tree is minus one is exact: what
/// they find zero has the value zero, and what they find one has the
/// value one.
pub proof fn law_zero_one_sound(
    e: Expr,
    o: spec_fn(Expr, NumericTest) -> bool,
    env: spec_fn(Seq<char>) -> (int, int),
)
    requires
        forall|x: Expr|
            !is_parameterized(x) && value(x, env) is Some ==> (o(x, NumericTest::MinusOne)
                == rat_eq(#[trigger] value(x, env).unwrap(), (-1, 1))),
    ensures
        value(e, env) matches Some(p) ==> (is_zero(e, o) ==> p.0 == 0) && (is_one(e, o) ==> p.0
            == p.1),
    decreases e,
{
    lemma_value_denom(e, env);
    match e {
        Expr::Neg(x) => {
            law_zero_one_sound(*x, o, env);
            if let Some(p) = value(*x, env) {
                assert(p.0 * 1 == -1 * p.1 ==> -p.0 == p.1);
            }
        },
        Expr::Add(l, r) | Expr::Sub(l, r) | Expr::Mul(l, r) | Expr::Div(l, r) => {
            law_zero_one_sound(*l, o, env);
            law_zero_one_sound(*r, o, env);
            if let (Some(p), Some(q)) = (value(*l, env), value(*r, env)) {
                if fast_eq(*l, *r) {
                    law_fast_eq_same_value(*l, *r, env);
                }
                assert(p.0 == 0 && q.0 == 0 ==> p.0 * q.1 + q.0 * p.1 == 0 && p.0 * q.1 - q.0 * p.1
                    == 0) by (nonlinear_arith);
                assert(p.0 == 0 || q.0 == 0 ==> p.0 * q.0 == 0) by (nonlinear_arith);
                assert(p.0 == 0 ==> p.0 * q.1 == 0) by (nonlinear_arith);
                assert(p.0 == p.1 && q.0 == 0 ==> p.0 * q.1 + q.0 * p.1 == p.1 * q.1 && p.0 * q.1
                    - q.0 * p.1 == p.1 * q.1) by (nonlinear_arith);
                assert(p.0 == 0 && q.0 == q.1 ==> p.0 * q.1 + q.0 * p.1 == p.1 * q.1)
                    by (nonlinear_arith);
                assert(p.0 == p.1 && q.0 == q.1 ==> p.0 * q.0 == p.1 * q.1) by (nonlinear_arith);
                assert(p.0 * q.1 == q.0 * p.1 ==> p.0 * q.1 - q.0 * p.1 == 0);
            }
        },
        _ => {},
    }
}

/// The complex conjugate `(br, -bi)` of `b`, as a pair of trees.
pub open spec fn cconj(b: (Expr, Expr)) -> (Expr, Expr) {
    (b.0, Expr::Neg(Box::new(b.1)))
}

/// Subtracting a negation adds, and adding a negation subtracts.
proof fn lemma_negated_operand(u: (int, int), t: (int, int))
    ensures
        rat_eq(qsub(u, qneg(t)), qadd(u, t)),
        rat_eq(qadd(qneg(t), u), qsub(u, t)),
{
    assert(rat_eq(qsub(u, qneg(t)), qadd(u, t))) by (nonlinear_arith);
    assert(rat_eq(qadd(qneg(t), u), qsub(u, t))) by (nonlinear_arith);
}

/// A product with a negated factor is the negated product.
proof fn lemma_mul_negated(a: Expr, b: Expr, env: spec_fn(Seq<char>) -> (int, int))
    requires
        value(a, env) is Some,
        value(b, env) is Some,
    ensures
        value(mul_expr(a, Expr::Neg(Box::new(b))), env) is Some,
        value(mul_expr(a, b), env) is Some,
        rat_eq(
            value(mul_expr(a, Expr::Neg(Box::new(b))), env).unwrap(),
            qneg(value(mul_expr(a, b), env).unwrap()),
        ),
{
    let nb = Expr::Neg(Box::new(b));
    let p = value(a, env).unwrap();
    let q = value(b, env).unwrap();
    lemma_value_denom(a, env);
    lemma_value_denom(b, env);
    lemma_built_values(a, nb, env);
    lemma_built_values(a, b, env);
    let u = value(mul_expr(a, nb), env).unwrap();
    let w = value(mul_expr(a, b), env).unwrap();
    lemma_value_denom(mul_expr(a, b), env);
    lemma_nonzero_product(p.1, q.1);
    assert(qmul(p, qneg(q)) == qneg(qmul(p, q))) by {
        assert(p.0 * (-q.0) == -(p.0 * q.0)) by (nonlinear_arith);
    }
    lemma_ops_congruent(w, w, qmul(p, q), qmul(p, q));
    lemma_eq_trans(u, qneg(qmul(p, q)), qneg(w));
}

/// Complex division multiplies by the conjugate of the divisor and divides
/// both parts by its squared magnitude: on values, each part of `a / b` is
/// the part of `a * conj(b)` over `br*br + bi*bi`, whenever `b` is not zero.
pub proof fn law_division_by_conjugate(
    a: (Expr, Expr),
    b: (Expr, Expr),
    env: spec_fn(Seq<char>) -> (int, int),
)
    requires
        value(a.0, env) is Some,
        value(a.1, env) is Some,
        value(b.0, env) is Some,
        value(b.1, env) is Some,
        value(b.0, env).unwrap().0 != 0 || value(b.1, env).unwrap().0 != 0,
    ensures
        value(cdenominator(b), env) is Some,
        value(cdenominator(b), env).unwrap().0 != 0,
        value(cmul(a, cconj(b)).0, env) is Some,
        value(cmul(a, cconj(b)).1, env) is Some,
        has_value(
            cdiv(a, b).0,
            env,
            qdiv(value(cmul(a, cconj(b)).0, env).unwrap(), value(cdenominator(b), env).unwrap()),
        ),
        has_value(
            cdiv(a, b).1,
            env,
            qdiv(value(cmul(a, cconj(b)).1, env).unwrap(), value(cdenominator(b), env).unwrap()),
        ),
{
    let (ar, ai, br, bi) = (a.0, a.1, b.0, b.1);
    let nb = Expr::Neg(Box::new(bi));
    lemma_value_denom(ar, env);
    lemma_value_denom(ai, env);
    lemma_value_denom(br, env);
    lemma_value_denom(bi, env);
    let vbr = value(br, env).unwrap();
    let vbi = value(bi, env).unwrap();
    // The squared magnitude.
    let b1 = mul_expr(br, br);
    let b2 = mul_expr(bi, bi);
    lemma_built_values(br, br, env);
    lemma_built_values(bi, bi, env);
    lemma_value_denom(b1, env);
    lemma_value_denom(b2, env);
    let d = cdenominator(b);
    lemma_built_values(b1, b2, env);
    lemma_value_denom(d, env);
    let vd = value(d, env).unwrap();
    let (vb1, vb2) = (value(b1, env).unwrap(), value(b2, env).unwrap());
    lemma_ops_congruent(vb1, vb2, qmul(vbr, vbr), qmul(vbi, vbi));
    lemma_nonzero_product(vb1.1, vb2.1);
    lemma_eq_trans(vd, qadd(vb1, vb2), qadd(qmul(vbr, vbr), qmul(vbi, vbi)));
    let m = qadd(qmul(vbr, vbr), qmul(vbi, vbi));
    assert(m.0 != 0) by (nonlinear_arith)
        requires
            m.0 == (vbr.0 * vbr.0) * (vbi.1 * vbi.1) + (vbi.0 * vbi.0) * (vbr.1 * vbr.1),
            vbr.1 != 0,
            vbi.1 != 0,
            vbr.0 != 0 || vbi.0 != 0,
    ;
    lemma_nonzero_product(vbr.1, vbr.1);
    lemma_nonzero_product(vbi.1, vbi.1);
    lemma_nonzero_product(vbr.1 * vbr.1, vbi.1 * vbi.1);
    assert(vd.0 != 0) by (nonlinear_arith)
        requires
            vd.0 * m.1 == m.0 * vd.1,
            m.0 != 0,
            vd.1 != 0,
    ;
    // The products of the parts.
    let p1 = mul_expr(ar, br);
    let p2 = mul_expr(ai, bi);
    let p3 = mul_expr(ai, br);
    let p4 = mul_expr(ar, bi);
    let q1 = mul_expr(ai, nb);
    let q2 = mul_expr(ar, nb);
    lemma_built_values(ar, br, env);
    lemma_built_values(ai, br, env);
    lemma_mul_negated(ai, bi, env);
    lemma_mul_negated(ar, bi, env);
    lemma_value_denom(p1, env);
    lemma_value_denom(p2, env);
    lemma_value_denom(p3, env);
    lemma_value_denom(p4, env);
    lemma_value_denom(q1, env);
    lemma_value_denom(q2, env);
    let (v1, v2, v3, v4) = (
        value(p1, env).unwrap(),
        value(p2, env).unwrap(),
        value(p3, env).unwrap(),
        value(p4, env).unwrap(),
    );
    let (w1, w2) = (value(q1, env).unwrap(), value(q2, env).unwrap());
    // Real part.
    let n = add_expr(p1, p2);
    let c = sub_expr(p1, q1);
    assert(cmul(a, cconj(b)).0 == c);
    lemma_built_values(p1, p2, env);
    lemma_built_values(p1, q1, env);
    lemma_value_denom(n, env);
    lemma_value_denom(c, env);
    let (vn, vc) = (value(n, env).unwrap(), value(c, env).unwrap());
    lemma_ops_congruent(v1, w1, v1, qneg(v2));
    lemma_negated_operand(v1, v2);
    lemma_nonzero_product(v1.1, w1.1);
    lemma_nonzero_product(v1.1, v2.1);
    lemma_eq_trans(vc, qsub(v1, w1), qsub(v1, qneg(v2)));
    lemma_eq_trans(vc, qsub(v1, qneg(v2)), qadd(v1, v2));
    lemma_eq_trans(vn, qadd(v1, v2), vc);
    lemma_built_values(n, d, env);
    lemma_ops_congruent(vn, vd, vc, vd);
    lemma_nonzero_product(vn.1, vd.0);
    lemma_has_value_trans(div_expr(n, d), env, qdiv(vn, vd), qdiv(vc, vd));
    // Imaginary part.
    let s = sub_expr(p3, p4);
    let e = add_expr(q2, p3);
    assert(cmul(a, cconj(b)).1 == e);
    lemma_built_values(p3, p4, env);
    lemma_built_values(q2, p3, env);
    lemma_value_denom(s, env);
    lemma_value_denom(e, env);
    let (vs, ve) = (value(s, env).unwrap(), value(e, env).unwrap());
    lemma_ops_congruent(w2, v3, qneg(v4), v3);
    lemma_negated_operand(v3, v4);
    lemma_nonzero_product(w2.1, v3.1);
    lemma_nonzero_product(v4.1, v3.1);
    lemma_eq_trans(ve, qadd(w2, v3), qadd(qneg(v4), v3));
    lemma_eq_trans(ve, qadd(qneg(v4), v3), qsub(v3, v4));
    lemma_nonzero_product(v3.1, v4.1);
    lemma_eq_trans(vs, qsub(v3, v4), ve);
    lemma_built_values(s, d, env);
    lemma_ops_congruent(vs, vd, ve, vd);
    lemma_nonzero_product(vs.1, vd.0);
    lemma_has_value_trans(div_expr(s, d), env, qdiv(vs, vd), qdiv(ve, vd));
}

} // verus!
