//! Differentiation of the functions, checked on values in every model of
//! `sqrt`, `sin`, `cos` and powers that agrees with them at zero and one.

use crate::constant::{law_reduced_form_value, rat_eq};
use crate::derivative::derivative;
use crate::expression::{
    add_expr, contains_var, div_expr, is_one_fast, is_zero_fast, mul_expr, neg_expr, one_expr,
    sub_expr, Expr,
};
use crate::value::{
    congruent, lemma_eq_trans, lemma_nonzero_product, lemma_ops_congruent, model_value, qadd, qdiv,
    qmul, qneg, qsub,
};
use vstd::prelude::*;

verus! {

/// The interpretation agrees with the real functions where the fast tests
/// look: `sqrt`, `sin` and a power of zero are zero, `cos` of zero is one,
/// and `sqrt` and a power of one are one.
pub open spec fn sound_model(
    un: spec_fn(int, (int, int)) -> (int, int),
    pw: spec_fn((int, int), (int, int)) -> (int, int),
) -> bool {
    &&& forall|p: (int, int)| p.1 != 0 && p.0 == 0 ==> (#[trigger] un(0, p)).0 == 0
    &&& forall|p: (int, int)| p.1 != 0 && p.0 == 0 ==> (#[trigger] un(1, p)).0 == 0
    &&& forall|p: (int, int)| p.1 != 0 && p.0 == 0 ==> (#[trigger] un(2, p)).0 == un(2, p).1
    &&& forall|p: (int, int)| p.1 != 0 && p.0 == p.1 ==> (#[trigger] un(0, p)).0 == un(0, p).1
    &&& forall|p: (int, int), q: (int, int)|
        p.1 != 0 && q.1 != 0 && p.0 == 0 ==> (#[trigger] pw(p, q)).0 == 0
    &&& forall|p: (int, int), q: (int, int)|
        p.1 != 0 && q.1 != 0 && p.0 == p.1 ==> (#[trigger] pw(p, q)).0 == pw(p, q).1
}

/// `e` has a model value, and it equals `q`.
pub open spec fn has_model_value(
    e: Expr,
    env: spec_fn(Seq<char>) -> (int, int),
    pi: (int, int),
    un: spec_fn(int, (int, int)) -> (int, int),
    pw: spec_fn((int, int), (int, int)) -> (int, int),
    q: (int, int),
) -> bool {
    &&& model_value(e, env, pi, un, pw) is Some
    &&& rat_eq(model_value(e, env, pi, un, pw).unwrap(), q)
}

/// A model value has a non-zero denominator.
pub proof fn lemma_model_denom(
    e: Expr,
    env: spec_fn(Seq<char>) -> (int, int),
    pi: (int, int),
    un: spec_fn(int, (int, int)) -> (int, int),
    pw: spec_fn((int, int), (int, int)) -> (int, int),
)
    ensures
        model_value(e, env, pi, un, pw) matches Some(p) ==> p.1 != 0,
    decreases e,
{
    match e {
        Expr::Neg(x) | Expr::Sqrt(x) | Expr::Sin(x) | Expr::Cos(x) => lemma_model_denom(
            *x,
            env,
            pi,
            un,
            pw,
        ),
        Expr::Add(l, r) | Expr::Sub(l, r) | Expr::Mul(l, r) | Expr::Div(l, r) | Expr::Pow(l, r) => {
            lemma_model_denom(*l, env, pi, un, pw);
            lemma_model_denom(*r, env, pi, un, pw);
            if let (Some(p), Some(q)) = (
                model_value(*l, env, pi, un, pw),
                model_value(*r, env, pi, un, pw),
            ) {
                lemma_nonzero_product(p.1, q.1);
                if q.0 != 0 {
                    lemma_nonzero_product(p.1, q.0);
                }
            }
        },
        _ => {},
    }
}

/// In a sound model, what the fast tests find zero or one has the model
/// value zero or one.
pub proof fn lemma_model_fast_tests(
    e: Expr,
    env: spec_fn(Seq<char>) -> (int, int),
    pi: (int, int),
    un: spec_fn(int, (int, int)) -> (int, int),
    pw: spec_fn((int, int), (int, int)) -> (int, int),
)
    requires
        sound_model(un, pw),
    ensures
        model_value(e, env, pi, un, pw) matches Some(p) ==> (is_zero_fast(e) ==> p.0 == 0) && (
        is_one_fast(e) ==> p.0 == p.1),
    decreases e,
{
    lemma_model_denom(e, env, pi, un, pw);
    match e {
        Expr::Neg(x) | Expr::Sqrt(x) | Expr::Sin(x) | Expr::Cos(x) => {
            lemma_model_fast_tests(*x, env, pi, un, pw);
            lemma_model_denom(*x, env, pi, un, pw);
        },
        Expr::Add(l, r) | Expr::Sub(l, r) | Expr::Mul(l, r) | Expr::Div(l, r) | Expr::Pow(l, r) => {
            lemma_model_fast_tests(*l, env, pi, un, pw);
            lemma_model_fast_tests(*r, env, pi, un, pw);
            lemma_model_denom(*l, env, pi, un, pw);
            lemma_model_denom(*r, env, pi, un, pw);
            if let (Some(p), Some(q)) = (
                model_value(*l, env, pi, un, pw),
                model_value(*r, env, pi, un, pw),
            ) {
                assert(p.0 == 0 && q.0 == 0 ==> p.0 * q.1 + q.0 * p.1 == 0 && p.0 * q.1 - q.0 * p.1
                    == 0) by (nonlinear_arith);
                assert(p.0 == 0 || q.0 == 0 ==> p.0 * q.0 == 0) by (nonlinear_arith);
                assert(p.0 == 0 ==> p.0 * q.1 == 0) by (nonlinear_arith);
                assert(p.0 == p.1 && q.0 == 0 ==> p.0 * q.1 + q.0 * p.1 == p.1 * q.1 && p.0 * q.1
                    - q.0 * p.1 == p.1 * q.1) by (nonlinear_arith);
                assert(p.0 == 0 && q.0 == q.1 ==> p.0 * q.1 + q.0 * p.1 == p.1 * q.1)
                    by (nonlinear_arith);
                assert(p.0 == p.1 && q.0 == q.1 ==> p.0 * q.0 == p.1 * q.1 && p.0 * q.1 == p.1
                    * q.0) by (nonlinear_arith);
                assert(p.0 == 0 ==> pw(p, q).0 == 0);
                assert(p.0 == p.1 ==> pw(p, q).0 == pw(p, q).1);
            }
        },
        _ => {},
    }
}

/// In a sound model the simplifying constructors keep the model value: each builds a tree whose
/// value is the sum, difference, product, quotient or negation of the
/// operands' values.
pub proof fn lemma_model_built(
    a: Expr,
    b: Expr,
    env: spec_fn(Seq<char>) -> (int, int),
    pi: (int, int),
    un: spec_fn(int, (int, int)) -> (int, int),
    pw: spec_fn((int, int), (int, int)) -> (int, int),
)
    requires
        sound_model(un, pw),
        model_value(a, env, pi, un, pw) is Some,
        model_value(b, env, pi, un, pw) is Some,
    ensures
        ({
            let p = model_value(a, env, pi, un, pw).unwrap();
            let q = model_value(b, env, pi, un, pw).unwrap();
            &&& has_model_value(add_expr(a, b), env, pi, un, pw, qadd(p, q))
            &&& has_model_value(sub_expr(a, b), env, pi, un, pw, qsub(p, q))
            &&& has_model_value(mul_expr(a, b), env, pi, un, pw, qmul(p, q))
            &&& q.0 != 0 ==> has_model_value(div_expr(a, b), env, pi, un, pw, qdiv(p, q))
            &&& has_model_value(neg_expr(a), env, pi, un, pw, qneg(p))
        }),
{
    reveal(add_expr);
    reveal(sub_expr);
    reveal(mul_expr);
    reveal(div_expr);
    reveal(neg_expr);
    let p = model_value(a, env, pi, un, pw).unwrap();
    let q = model_value(b, env, pi, un, pw).unwrap();
    lemma_model_denom(a, env, pi, un, pw);
    lemma_model_denom(b, env, pi, un, pw);
    lemma_model_fast_tests(a, env, pi, un, pw);
    lemma_model_fast_tests(b, env, pi, un, pw);
    lemma_nonzero_product(p.1, q.1);
    if q.0 != 0 {
        lemma_nonzero_product(p.1, q.0);
    }
    if let (Expr::Const(c1), Expr::Const(c2)) = (a, b) {
        law_reduced_form_value(p.0 * q.1 + q.0 * p.1, p.1 * q.1);
        law_reduced_form_value(p.0 * q.1 - q.0 * p.1, p.1 * q.1);
        law_reduced_form_value(p.0 * q.0, p.1 * q.1);
        if q.0 != 0 {
            law_reduced_form_value(p.0 * q.1, p.1 * q.0);
        }
    }
    assert(p.0 * (p.1 * q.1) == (p.0 * q.1) * p.1) by (nonlinear_arith);
    assert(q.0 * (p.1 * q.1) == (q.0 * p.1) * q.1) by (nonlinear_arith);
    assert((-q.0) * (p.1 * q.1) == (-(q.0 * p.1)) * q.1) by (nonlinear_arith);
    if p.0 == 0 {
        assert(p.0 * q.1 == 0 && p.0 * q.0 == 0 && 0 * p.1 == 0) by (nonlinear_arith)
            requires
                p.0 == 0,
        ;
    }
    if q.0 == 0 {
        assert(q.0 * p.1 == 0 && p.0 * q.0 == 0) by (nonlinear_arith)
            requires
                q.0 == 0,
        ;
    }
    if q.0 == q.1 {
        assert(p.0 * (p.1 * q.1) == (p.0 * q.0) * p.1) by (nonlinear_arith)
            requires
                q.0 == q.1,
        ;
    }
    if p.0 == p.1 {
        assert(q.0 * (p.1 * q.1) == (p.0 * q.0) * q.1) by (nonlinear_arith)
            requires
                p.0 == p.1,
        ;
    }
    assert(0 * (p.1 * q.1) == 0 * 1 && 0 * (p.1 * q.0) == 0 * 1);
}

/// A model value equal to `q1` equals every fraction equal to `q1`.
proof fn lemma_model_trans(
    e: Expr,
    env: spec_fn(Seq<char>) -> (int, int),
    pi: (int, int),
    un: spec_fn(int, (int, int)) -> (int, int),
    pw: spec_fn((int, int), (int, int)) -> (int, int),
    q1: (int, int),
    q2: (int, int),
)
    requires
        has_model_value(e, env, pi, un, pw, q1),
        q1.1 != 0,
        rat_eq(q1, q2),
    ensures
        has_model_value(e, env, pi, un, pw, q2),
{
    lemma_eq_trans(model_value(e, env, pi, un, pw).unwrap(), q1, q2);
}

/// In every sound model, the derivative of `sin(x)` is `cos(x)` times that
/// of `x`, the derivative of `cos(x)` is `-sin(x)` times it, and the
/// derivative of `sqrt(x)` is `1 / (2 sqrt(x))` times it.
pub proof fn law_derivative_of_functions(
    x: Expr,
    wrt: Seq<char>,
    ln_of: spec_fn(Expr) -> (int, int),
    env: spec_fn(Seq<char>) -> (int, int),
    pi: (int, int),
    un: spec_fn(int, (int, int)) -> (int, int),
    pw: spec_fn((int, int), (int, int)) -> (int, int),
)
    requires
        sound_model(un, pw),
        model_value(x, env, pi, un, pw) is Some,
        model_value(derivative(x, wrt, ln_of), env, pi, un, pw) is Some,
        ({
            let vx = model_value(x, env, pi, un, pw).unwrap();
            un(0, vx).1 != 0 && un(1, vx).1 != 0 && un(2, vx).1 != 0
        }),
    ensures
        ({
            let vx = model_value(x, env, pi, un, pw).unwrap();
            let dx = model_value(derivative(x, wrt, ln_of), env, pi, un, pw).unwrap();
            &&& has_model_value(
                derivative(Expr::Sin(Box::new(x)), wrt, ln_of),
                env,
                pi,
                un,
                pw,
                qmul(un(2, vx), dx),
            )
            &&& has_model_value(
                derivative(Expr::Cos(Box::new(x)), wrt, ln_of),
                env,
                pi,
                un,
                pw,
                qmul(qneg(un(1, vx)), dx),
            )
            &&& un(0, vx).0 != 0 ==> has_model_value(
                derivative(Expr::Sqrt(Box::new(x)), wrt, ln_of),
                env,
                pi,
                un,
                pw,
                qmul(qdiv((1, 1), qmul((2, 1), un(0, vx))), dx),
            )
        }),
{
    let vx = model_value(x, env, pi, un, pw).unwrap();
    let ddx = derivative(x, wrt, ln_of);
    let dx = model_value(ddx, env, pi, un, pw).unwrap();
    lemma_model_denom(ddx, env, pi, un, pw);
    let c = Expr::Cos(Box::new(x));
    let ns = Expr::Neg(Box::new(Expr::Sin(Box::new(x))));
    assert(model_value(Expr::Sin(Box::new(x)), env, pi, un, pw) == Some(un(1, vx)));
    assert(model_value(ns, env, pi, un, pw) == Some(qneg(un(1, vx))));
    assert(model_value(c, env, pi, un, pw) == Some(un(2, vx)));
    lemma_model_built(c, ddx, env, pi, un, pw);
    lemma_model_built(ns, ddx, env, pi, un, pw);
    assert(derivative(Expr::Sin(Box::new(x)), wrt, ln_of) == mul_expr(c, ddx));
    assert(derivative(Expr::Cos(Box::new(x)), wrt, ln_of) == mul_expr(ns, ddx));
    let s = un(0, vx);
    if s.0 != 0 {
        let sq = Expr::Sqrt(Box::new(x));
        let two = Expr::Const((2, 1));
        let m = mul_expr(two, sq);
        lemma_model_built(two, sq, env, pi, un, pw);
        lemma_model_denom(m, env, pi, un, pw);
        let vm = model_value(m, env, pi, un, pw).unwrap();
        assert(vm.0 != 0) by (nonlinear_arith)
            requires
                vm.0 * (1 * s.1) == (2 * s.0) * vm.1,
                s.0 != 0,
                vm.1 != 0,
        ;
        let one = one_expr();
        let f = div_expr(one, m);
        lemma_model_built(one, m, env, pi, un, pw);
        lemma_model_denom(f, env, pi, un, pw);
        let vf = model_value(f, env, pi, un, pw).unwrap();
        lemma_ops_congruent((1, 1), vm, (1, 1), qmul((2, 1), s));
        lemma_nonzero_product(1, vm.0);
        lemma_eq_trans(vf, qdiv((1, 1), vm), qdiv((1, 1), qmul((2, 1), s)));
        lemma_model_built(f, ddx, env, pi, un, pw);
        lemma_ops_congruent(vf, dx, qdiv((1, 1), qmul((2, 1), s)), dx);
        lemma_nonzero_product(vf.1, dx.1);
        lemma_model_trans(
            mul_expr(f, ddx),
            env,
            pi,
            un,
            pw,
            qmul(vf, dx),
            qmul(qdiv((1, 1), qmul((2, 1), s)), dx),
        );
        assert(derivative(sq, wrt, ln_of) == mul_expr(f, ddx));
    }
}

/// The interpretation gives a value wherever its arguments have one.
pub open spec fn total_model(
    un: spec_fn(int, (int, int)) -> (int, int),
    pw: spec_fn((int, int), (int, int)) -> (int, int),
) -> bool {
    &&& forall|k: int, p: (int, int)| p.1 != 0 ==> (#[trigger] un(k, p)).1 != 0
    &&& forall|p: (int, int), q: (int, int)| p.1 != 0 && q.1 != 0 ==> (#[trigger] pw(p, q)).1 != 0
}

/// In every sound, total and congruent model, the derivative of a power
/// follows the power rule where only the base depends on the variable,
/// `r * l^(r - 1) * dl`; the exponential rule where only the exponent
/// does, `l^r * dr * ln(l)`, with `ln_of` giving the logarithm; and is zero
/// where neither does.
pub proof fn law_derivative_of_power(
    l: Expr,
    r: Expr,
    wrt: Seq<char>,
    ln_of: spec_fn(Expr) -> (int, int),
    env: spec_fn(Seq<char>) -> (int, int),
    pi: (int, int),
    un: spec_fn(int, (int, int)) -> (int, int),
    pw: spec_fn((int, int), (int, int)) -> (int, int),
)
    requires
        sound_model(un, pw),
        total_model(un, pw),
        congruent(un, pw),
        model_value(l, env, pi, un, pw) is Some,
        model_value(r, env, pi, un, pw) is Some,
        model_value(derivative(l, wrt, ln_of), env, pi, un, pw) is Some,
        model_value(derivative(r, wrt, ln_of), env, pi, un, pw) is Some,
        ln_of(l).1 != 0,
    ensures
        ({
            let vl = model_value(l, env, pi, un, pw).unwrap();
            let vr = model_value(r, env, pi, un, pw).unwrap();
            let dl = model_value(derivative(l, wrt, ln_of), env, pi, un, pw).unwrap();
            let dr = model_value(derivative(r, wrt, ln_of), env, pi, un, pw).unwrap();
            let d = derivative(Expr::Pow(Box::new(l), Box::new(r)), wrt, ln_of);
            &&& !contains_var(l, wrt) && !contains_var(r, wrt) ==> has_model_value(
                d,
                env,
                pi,
                un,
                pw,
                (0, 1),
            )
            &&& !contains_var(l, wrt) && contains_var(r, wrt) ==> has_model_value(
                d,
                env,
                pi,
                un,
                pw,
                qmul(qmul(pw(vl, vr), dr), ln_of(l)),
            )
            &&& contains_var(l, wrt) && !contains_var(r, wrt) ==> has_model_value(
                d,
                env,
                pi,
                un,
                pw,
                qmul(qmul(vr, pw(vl, qsub(vr, (1, 1)))), dl),
            )
        }),
{
    let vl = model_value(l, env, pi, un, pw).unwrap();
    let vr = model_value(r, env, pi, un, pw).unwrap();
    let ddl = derivative(l, wrt, ln_of);
    let ddr = derivative(r, wrt, ln_of);
    let dl = model_value(ddl, env, pi, un, pw).unwrap();
    let dr = model_value(ddr, env, pi, un, pw).unwrap();
    lemma_model_denom(l, env, pi, un, pw);
    lemma_model_denom(r, env, pi, un, pw);
    lemma_model_denom(ddl, env, pi, un, pw);
    lemma_model_denom(ddr, env, pi, un, pw);
    let e = Expr::Pow(Box::new(l), Box::new(r));
    let ve = pw(vl, vr);
    assert(ve.1 != 0);
    assert(model_value(e, env, pi, un, pw) == Some(ve));
    if !contains_var(l, wrt) && contains_var(r, wrt) {
        let m = mul_expr(e, ddr);
        lemma_model_built(e, ddr, env, pi, un, pw);
        lemma_model_denom(m, env, pi, un, pw);
        let vm = model_value(m, env, pi, un, pw).unwrap();
        let ln = Expr::Const(ln_of(l));
        lemma_model_built(m, ln, env, pi, un, pw);
        lemma_ops_congruent(vm, ln_of(l), qmul(ve, dr), ln_of(l));
        lemma_nonzero_product(vm.1, ln_of(l).1);
        lemma_model_trans(
            mul_expr(m, ln),
            env,
            pi,
            un,
            pw,
            qmul(vm, ln_of(l)),
            qmul(qmul(ve, dr), ln_of(l)),
        );
        assert(derivative(e, wrt, ln_of) == mul_expr(m, ln));
    }
    if contains_var(l, wrt) && !contains_var(r, wrt) {
        let one = one_expr();
        let sr = sub_expr(r, one);
        lemma_model_built(r, one, env, pi, un, pw);
        lemma_model_denom(sr, env, pi, un, pw);
        let vsr = model_value(sr, env, pi, un, pw).unwrap();
        let lowered = Expr::Pow(Box::new(l), Box::new(sr));
        let target = qsub(vr, (1, 1));
        lemma_nonzero_product(vr.1, 1);
        assert(rat_eq(pw(vl, vsr), pw(vl, target)));
        assert(model_value(lowered, env, pi, un, pw) == Some(pw(vl, vsr)));
        let m = mul_expr(r, lowered);
        lemma_model_built(r, lowered, env, pi, un, pw);
        lemma_model_denom(m, env, pi, un, pw);
        let vm = model_value(m, env, pi, un, pw).unwrap();
        lemma_ops_congruent(vr, pw(vl, vsr), vr, pw(vl, target));
        lemma_nonzero_product(vr.1, pw(vl, vsr).1);
        lemma_eq_trans(vm, qmul(vr, pw(vl, vsr)), qmul(vr, pw(vl, target)));
        lemma_model_built(m, ddl, env, pi, un, pw);
        lemma_ops_congruent(vm, dl, qmul(vr, pw(vl, target)), dl);
        lemma_nonzero_product(vm.1, dl.1);
        lemma_model_trans(
            mul_expr(m, ddl),
            env,
            pi,
            un,
            pw,
            qmul(vm, dl),
            qmul(qmul(vr, pw(vl, target)), dl),
        );
        assert(derivative(e, wrt, ln_of) == mul_expr(m, ddl));
    }
}

} // verus!
