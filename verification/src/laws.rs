//! Laws of the scalar expression operations.

use crate::constant::{law_reduced_form_unique, rat_mul, reduced, reduced_form};
use crate::derivative::{derivative, differentiable};
use crate::expression::{
    add_expr, contains_var, div_expr, fast_eq, is_one_fast, is_zero_fast, map_names, mul_expr,
    neg_expr, one_expr, rename, sub_expr, substitute, zero_expr, Expr, Expression,
};
use crate::products::lemma_reduced_zero_canonical;
use vstd::prelude::*;

verus! {

/// Every expression is [`fast_eq`] to itself.
pub proof fn law_fast_eq_reflexive(e: Expr)
    ensures
        fast_eq(e, e),
    decreases e,
{
    match e {
        Expr::Neg(x) => law_fast_eq_reflexive(*x),
        Expr::Add(l, r) => {
            law_fast_eq_reflexive(*l);
            law_fast_eq_reflexive(*r);
        },
        Expr::Sub(l, r) => {
            law_fast_eq_reflexive(*l);
            law_fast_eq_reflexive(*r);
        },
        Expr::Mul(l, r) => {
            law_fast_eq_reflexive(*l);
            law_fast_eq_reflexive(*r);
        },
        Expr::Div(l, r) => {
            law_fast_eq_reflexive(*l);
            law_fast_eq_reflexive(*r);
        },
        Expr::Pow(l, r) => {
            law_fast_eq_reflexive(*l);
            law_fast_eq_reflexive(*r);
        },
        Expr::Sqrt(x) => law_fast_eq_reflexive(*x),
        Expr::Sin(x) => law_fast_eq_reflexive(*x),
        Expr::Cos(x) => law_fast_eq_reflexive(*x),
        _ => {},
    }
}

/// [`fast_eq`] does not depend on the order of its arguments.
pub proof fn law_fast_eq_symmetric(a: Expr, b: Expr)
    ensures
        fast_eq(a, b) == fast_eq(b, a),
    decreases a,
{
    match (a, b) {
        (Expr::Neg(x1), Expr::Neg(x2)) => law_fast_eq_symmetric(*x1, *x2),
        (Expr::Add(l1, r1), Expr::Add(l2, r2)) => {
            law_fast_eq_symmetric(*l1, *l2);
            law_fast_eq_symmetric(*r1, *r2);
            law_fast_eq_symmetric(*l1, *r2);
            law_fast_eq_symmetric(*r1, *l2);
        },
        (Expr::Sub(l1, r1), Expr::Sub(l2, r2)) => {
            law_fast_eq_symmetric(*l1, *l2);
            law_fast_eq_symmetric(*r1, *r2);
        },
        (Expr::Mul(l1, r1), Expr::Mul(l2, r2)) => {
            law_fast_eq_symmetric(*l1, *l2);
            law_fast_eq_symmetric(*r1, *r2);
            law_fast_eq_symmetric(*l1, *r2);
            law_fast_eq_symmetric(*r1, *l2);
        },
        (Expr::Div(l1, r1), Expr::Div(l2, r2)) => {
            law_fast_eq_symmetric(*l1, *l2);
            law_fast_eq_symmetric(*r1, *r2);
        },
        (Expr::Pow(l1, r1), Expr::Pow(l2, r2)) => {
            law_fast_eq_symmetric(*l1, *l2);
            law_fast_eq_symmetric(*r1, *r2);
        },
        (Expr::Sqrt(x1), Expr::Sqrt(x2)) => law_fast_eq_symmetric(*x1, *x2),
        (Expr::Sin(x1), Expr::Sin(x2)) => law_fast_eq_symmetric(*x1, *x2),
        (Expr::Cos(x1), Expr::Cos(x2)) => law_fast_eq_symmetric(*x1, *x2),
        _ => {},
    }
}

/// Renaming a variable to its own name leaves the tree unchanged.
pub proof fn law_rename_to_itself(e: Expr, v: Seq<char>)
    ensures
        rename(e, v, v) == e,
    decreases e,
{
    match e {
        Expr::Neg(x) => law_rename_to_itself(*x, v),
        Expr::Add(l, r) => {
            law_rename_to_itself(*l, v);
            law_rename_to_itself(*r, v);
        },
        Expr::Sub(l, r) => {
            law_rename_to_itself(*l, v);
            law_rename_to_itself(*r, v);
        },
        Expr::Mul(l, r) => {
            law_rename_to_itself(*l, v);
            law_rename_to_itself(*r, v);
        },
        Expr::Div(l, r) => {
            law_rename_to_itself(*l, v);
            law_rename_to_itself(*r, v);
        },
        Expr::Pow(l, r) => {
            law_rename_to_itself(*l, v);
            law_rename_to_itself(*r, v);
        },
        Expr::Sqrt(x) => law_rename_to_itself(*x, v),
        Expr::Sin(x) => law_rename_to_itself(*x, v),
        Expr::Cos(x) => law_rename_to_itself(*x, v),
        _ => {},
    }
}

/// Renaming a variable that does not occur leaves the tree unchanged, and
/// after a renaming to another name the old name no longer occurs.
pub proof fn law_rename_occurrence(e: Expr, v: Seq<char>, w: Seq<char>)
    ensures
        !contains_var(e, v) ==> rename(e, v, w) == e,
        v != w ==> !contains_var(rename(e, v, w), v),
        contains_var(rename(e, v, w), w) == (contains_var(e, w) || contains_var(e, v)),
    decreases e,
{
    match e {
        Expr::Neg(x) => law_rename_occurrence(*x, v, w),
        Expr::Add(l, r) => {
            law_rename_occurrence(*l, v, w);
            law_rename_occurrence(*r, v, w);
        },
        Expr::Sub(l, r) => {
            law_rename_occurrence(*l, v, w);
            law_rename_occurrence(*r, v, w);
        },
        Expr::Mul(l, r) => {
            law_rename_occurrence(*l, v, w);
            law_rename_occurrence(*r, v, w);
        },
        Expr::Div(l, r) => {
            law_rename_occurrence(*l, v, w);
            law_rename_occurrence(*r, v, w);
        },
        Expr::Pow(l, r) => {
            law_rename_occurrence(*l, v, w);
            law_rename_occurrence(*r, v, w);
        },
        Expr::Sqrt(x) => law_rename_occurrence(*x, v, w),
        Expr::Sin(x) => law_rename_occurrence(*x, v, w),
        Expr::Cos(x) => law_rename_occurrence(*x, v, w),
        _ => {},
    }
}


/// Renaming by a map with the single entry `v -> w` is renaming `v` to `w`.
pub proof fn law_map_one_name_is_rename(e: Expr, v: Seq<char>, w: Seq<char>)
    ensures
        map_names(e, Map::empty().insert(v, w)) == rename(e, v, w),
    decreases e,
{
    match e {
        Expr::Neg(x) => law_map_one_name_is_rename(*x, v, w),
        Expr::Add(l, r) => {
            law_map_one_name_is_rename(*l, v, w);
            law_map_one_name_is_rename(*r, v, w);
        },
        Expr::Sub(l, r) => {
            law_map_one_name_is_rename(*l, v, w);
            law_map_one_name_is_rename(*r, v, w);
        },
        Expr::Mul(l, r) => {
            law_map_one_name_is_rename(*l, v, w);
            law_map_one_name_is_rename(*r, v, w);
        },
        Expr::Div(l, r) => {
            law_map_one_name_is_rename(*l, v, w);
            law_map_one_name_is_rename(*r, v, w);
        },
        Expr::Pow(l, r) => {
            law_map_one_name_is_rename(*l, v, w);
            law_map_one_name_is_rename(*r, v, w);
        },
        Expr::Sqrt(x) => law_map_one_name_is_rename(*x, v, w),
        Expr::Sin(x) => law_map_one_name_is_rename(*x, v, w),
        Expr::Cos(x) => law_map_one_name_is_rename(*x, v, w),
        _ => {},
    }
}

/// Renaming by the empty map leaves the tree unchanged.
pub proof fn law_map_no_names(e: Expr)
    ensures
        map_names(e, Map::empty()) == e,
    decreases e,
{
    match e {
        Expr::Neg(x) => law_map_no_names(*x),
        Expr::Add(l, r) => {
            law_map_no_names(*l);
            law_map_no_names(*r);
        },
        Expr::Sub(l, r) => {
            law_map_no_names(*l);
            law_map_no_names(*r);
        },
        Expr::Mul(l, r) => {
            law_map_no_names(*l);
            law_map_no_names(*r);
        },
        Expr::Div(l, r) => {
            law_map_no_names(*l);
            law_map_no_names(*r);
        },
        Expr::Pow(l, r) => {
            law_map_no_names(*l);
            law_map_no_names(*r);
        },
        Expr::Sqrt(x) => law_map_no_names(*x),
        Expr::Sin(x) => law_map_no_names(*x),
        Expr::Cos(x) => law_map_no_names(*x),
        _ => {},
    }
}

/// Every constant in the tree is in lowest terms with a positive
/// denominator, as every [`Constant`](crate::constant::Constant) is.
pub open spec fn consts_valid(e: Expr) -> bool
    decreases e,
{
    match e {
        Expr::Const(c) => reduced(c.0, c.1),
        Expr::Neg(x) => consts_valid(*x),
        Expr::Add(l, r) => consts_valid(*l) && consts_valid(*r),
        Expr::Sub(l, r) => consts_valid(*l) && consts_valid(*r),
        Expr::Mul(l, r) => consts_valid(*l) && consts_valid(*r),
        Expr::Div(l, r) => consts_valid(*l) && consts_valid(*r),
        Expr::Pow(l, r) => consts_valid(*l) && consts_valid(*r),
        Expr::Sqrt(x) => consts_valid(*x),
        Expr::Sin(x) => consts_valid(*x),
        Expr::Cos(x) => consts_valid(*x),
        _ => true,
    }
}

/// Zero by the fast test, and a constant with a non-zero denominator if it
/// is a constant.
spec fn zero_like(e: Expr) -> bool {
    &&& is_zero_fast(e)
    &&& (e matches Expr::Const(c) ==> c.1 != 0)
}

/// Given a witness `(w0, w1)` in lowest terms with the value `n / d`, the
/// lowest-terms form of `n / d` has a positive denominator.
proof fn lemma_reduced_form_exists(n: int, d: int, w0: int, w1: int)
    requires
        reduced(w0, w1),
        w0 * d == n * w1,
    ensures
        reduced(reduced_form(n, d).0, reduced_form(n, d).1),
        reduced_form(n, d).0 * d == n * reduced_form(n, d).1,
{
    let w = (w0, w1);
    assert(reduced(w.0, w.1) && w.0 * d == n * w.1);
}

/// One is coprime to everything.
proof fn lemma_coprime_one(a: int)
    ensures
        crate::constant::coprime(a, 1),
{
    assert forall|k: int| 1 < k implies !(#[trigger] crate::constant::divides(k, a)
        && crate::constant::divides(k, 1)) by {
        vstd::arithmetic::div_mod::lemma_small_mod(1, k as nat);
    }
}

/// The lowest-terms form of `0 / d` is zero with a positive denominator.
proof fn lemma_reduced_zero(d: int)
    requires
        d != 0,
    ensures
        reduced_form(0, d).0 == 0,
        reduced_form(0, d).1 > 0,
{
    lemma_coprime_one(0);
    lemma_reduced_form_exists(0, d, 0, 1);
    let r = reduced_form(0, d);
    assert(r.0 == 0) by (nonlinear_arith)
        requires
            r.0 * d == 0 * r.1,
            d != 0,
    ;
}

/// A constant in a tree of valid constants has a positive denominator.
proof fn lemma_const_denom(e: Expr)
    requires
        consts_valid(e),
    ensures
        e matches Expr::Const(c) ==> c.1 != 0,
{
}

/// A product with a zero-like factor and a valid other factor is zero-like.
proof fn lemma_mul_zero(a: Expr, b: Expr)
    requires
        (zero_like(a) && (b matches Expr::Const(c) ==> c.1 != 0)) || (zero_like(b) && (
        a matches Expr::Const(c) ==> c.1 != 0)),
    ensures
        zero_like(mul_expr(a, b)),
{
    reveal(mul_expr);
    if let (Expr::Const(c1), Expr::Const(c2)) = (a, b) {
        assert(c1.0 * c2.0 == 0) by (nonlinear_arith)
            requires
                c1.0 == 0 || c2.0 == 0,
        ;
        assert(c1.1 * c2.1 != 0) by (nonlinear_arith)
            requires
                c1.1 != 0,
                c2.1 != 0,
        ;
        lemma_reduced_zero(c1.1 * c2.1);
    }
}

/// A sum or difference of zero-like terms is zero-like.
proof fn lemma_add_sub_zero(a: Expr, b: Expr)
    requires
        zero_like(a),
        zero_like(b),
    ensures
        zero_like(add_expr(a, b)),
        zero_like(sub_expr(a, b)),
{
    reveal(add_expr);
    reveal(sub_expr);
    if let (Expr::Const(c1), Expr::Const(c2)) = (a, b) {
        assert(c1.0 * c2.1 + c2.0 * c1.1 == 0 && c1.0 * c2.1 - c2.0 * c1.1 == 0) by (nonlinear_arith)
            requires
                c1.0 == 0,
                c2.0 == 0,
        ;
        assert(c1.1 * c2.1 != 0) by (nonlinear_arith)
            requires
                c1.1 != 0,
                c2.1 != 0,
        ;
        lemma_reduced_zero(c1.1 * c2.1);
    }
}

/// A zero-like dividend over a divisor that is not zero by the fast test
/// gives a zero-like quotient.
proof fn lemma_div_zero(a: Expr, b: Expr)
    requires
        zero_like(a),
        !is_zero_fast(b),
    ensures
        zero_like(div_expr(a, b)),
{
    reveal(div_expr);
    if let (Expr::Const(c1), Expr::Const(c2)) = (a, b) {
        assert(c1.0 * c2.1 == 0) by (nonlinear_arith)
            requires
                c1.0 == 0,
        ;
        assert(c1.1 * c2.0 != 0) by (nonlinear_arith)
            requires
                c1.1 != 0,
                c2.0 != 0,
        ;
        lemma_reduced_zero(c1.1 * c2.0);
    }
}

/// The derivative with respect to a variable that does not occur in the
/// tree is zero by the fast test.
pub proof fn law_derivative_of_absent_variable(
    e: Expr,
    wrt: Seq<char>,
    ln_of: spec_fn(Expr) -> (int, int),
)
    requires
        consts_valid(e),
        differentiable(e, wrt),
        !contains_var(e, wrt),
    ensures
        is_zero_fast(derivative(e, wrt, ln_of)),
{
    lemma_derivative_zero_like(e, wrt, ln_of);
}

proof fn lemma_derivative_zero_like(e: Expr, wrt: Seq<char>, ln_of: spec_fn(Expr) -> (int, int))
    requires
        consts_valid(e),
        differentiable(e, wrt),
        !contains_var(e, wrt),
    ensures
        zero_like(derivative(e, wrt, ln_of)),
    decreases e,
{
    match e {
        Expr::Neg(x) => lemma_derivative_zero_like(*x, wrt, ln_of),
        Expr::Add(l, r) => {
            lemma_derivative_zero_like(*l, wrt, ln_of);
            lemma_derivative_zero_like(*r, wrt, ln_of);
        },
        Expr::Sub(l, r) => {
            lemma_derivative_zero_like(*l, wrt, ln_of);
            lemma_derivative_zero_like(*r, wrt, ln_of);
        },
        Expr::Mul(l, r) => {
            let dl = derivative(*l, wrt, ln_of);
            let dr = derivative(*r, wrt, ln_of);
            lemma_const_denom(*l);
            lemma_const_denom(*r);
            lemma_derivative_zero_like(*l, wrt, ln_of);
            lemma_derivative_zero_like(*r, wrt, ln_of);
            lemma_mul_zero(dl, *r);
            lemma_mul_zero(*l, dr);
            lemma_add_sub_zero(mul_expr(dl, *r), mul_expr(*l, dr));
        },
        Expr::Div(l, r) => {
            let dl = derivative(*l, wrt, ln_of);
            let dr = derivative(*r, wrt, ln_of);
            lemma_const_denom(*l);
            lemma_const_denom(*r);
            lemma_derivative_zero_like(*l, wrt, ln_of);
            lemma_derivative_zero_like(*r, wrt, ln_of);
            lemma_mul_zero(dl, *r);
            lemma_mul_zero(*l, dr);
            lemma_add_sub_zero(mul_expr(dl, *r), mul_expr(*l, dr));
            lemma_div_zero(sub_expr(mul_expr(dl, *r), mul_expr(*l, dr)), mul_expr(*r, *r));
        },
        Expr::Sqrt(x) => {
            lemma_derivative_zero_like(*x, wrt, ln_of);
            let m = mul_expr(Expr::Const((2, 1)), e);
            reveal(mul_expr);
            reveal(div_expr);
            let q = div_expr(Expr::Const((1, 1)), m);
            if m is Const {
                assert(m == Expr::Const((2, 1)));
                lemma_coprime_one(1);
                assert(crate::constant::coprime(1, 2)) by {
                    assert forall|k: int| 1 < k implies !(#[trigger] crate::constant::divides(k, 1)
                        && crate::constant::divides(k, 2)) by {
                        vstd::arithmetic::div_mod::lemma_small_mod(1, k as nat);
                    }
                }
                lemma_reduced_form_exists(1int * 1int, 1int * 2int, 1, 2);
            }
            lemma_mul_zero(q, derivative(*x, wrt, ln_of));
        },
        Expr::Sin(x) => {
            lemma_derivative_zero_like(*x, wrt, ln_of);
            lemma_mul_zero(Expr::Cos(x), derivative(*x, wrt, ln_of));
        },
        Expr::Cos(x) => {
            lemma_derivative_zero_like(*x, wrt, ln_of);
            lemma_mul_zero(Expr::Neg(Box::new(Expr::Sin(x))), derivative(*x, wrt, ln_of));
        },
        _ => {},
    }
}

/// Renaming `o` to a name `n` that does not occur, and then `n` back to
/// `o`, gives the tree back.
pub proof fn law_rename_back(e: Expr, o: Seq<char>, n: Seq<char>)
    requires
        o != n,
        !contains_var(e, n),
    ensures
        rename(rename(e, o, n), n, o) == e,
    decreases e,
{
    match e {
        Expr::Neg(x) | Expr::Sqrt(x) | Expr::Sin(x) | Expr::Cos(x) => law_rename_back(*x, o, n),
        Expr::Add(l, r) | Expr::Sub(l, r) | Expr::Mul(l, r) | Expr::Div(l, r) | Expr::Pow(l, r) => {
            law_rename_back(*l, o, n);
            law_rename_back(*r, o, n);
        },
        _ => {},
    }
}

/// Whether some subtree of `e` (`e` itself included) is [`fast_eq`] to
/// `o`.
pub open spec fn has_match(e: Expr, o: Expr) -> bool
    decreases e,
{
    fast_eq(e, o) || match e {
        Expr::Neg(x) => has_match(*x, o),
        Expr::Add(l, r) => has_match(*l, o) || has_match(*r, o),
        Expr::Sub(l, r) => has_match(*l, o) || has_match(*r, o),
        Expr::Mul(l, r) => has_match(*l, o) || has_match(*r, o),
        Expr::Div(l, r) => has_match(*l, o) || has_match(*r, o),
        Expr::Pow(l, r) => has_match(*l, o) || has_match(*r, o),
        Expr::Sqrt(x) => has_match(*x, o),
        Expr::Sin(x) => has_match(*x, o),
        Expr::Cos(x) => has_match(*x, o),
        _ => false,
    }
}

/// Substituting for a tree that matches no subtree changes nothing.
pub proof fn law_substitute_without_match(e: Expr, o: Expr, s: Expr)
    requires
        !has_match(e, o),
    ensures
        substitute(e, o, s) == e,
    decreases e,
{
    match e {
        Expr::Neg(x) | Expr::Sqrt(x) | Expr::Sin(x) | Expr::Cos(x) => law_substitute_without_match(
            *x,
            o,
            s,
        ),
        Expr::Add(l, r) | Expr::Sub(l, r) | Expr::Mul(l, r) | Expr::Div(l, r) | Expr::Pow(l, r) => {
            law_substitute_without_match(*l, o, s);
            law_substitute_without_match(*r, o, s);
        },
        _ => {},
    }
}

/// Substituting a tree for itself gives a tree equal to the first.
pub proof fn law_substitute_by_itself(e: Expr, o: Expr)
    ensures
        fast_eq(substitute(e, o, o), e),
    decreases e,
{
    if fast_eq(e, o) {
        law_fast_eq_symmetric(e, o);
    } else {
        match e {
            Expr::Neg(x) | Expr::Sqrt(x) | Expr::Sin(x) | Expr::Cos(x) => law_substitute_by_itself(
                *x,
                o,
            ),
            Expr::Add(l, r) | Expr::Sub(l, r) | Expr::Mul(l, r) | Expr::Div(l, r) | Expr::Pow(
                l,
                r,
            ) => {
                law_substitute_by_itself(*l, o);
                law_substitute_by_itself(*r, o);
            },
            _ => law_fast_eq_reflexive(e),
        }
    }
}

/// The variables of what the smart constructors build are among those of
/// their operands.
proof fn lemma_built_vars(a: Expr, b: Expr, v: Seq<char>)
    ensures
        contains_var(add_expr(a, b), v) ==> contains_var(a, v) || contains_var(b, v),
        contains_var(sub_expr(a, b), v) ==> contains_var(a, v) || contains_var(b, v),
        contains_var(mul_expr(a, b), v) ==> contains_var(a, v) || contains_var(b, v),
        contains_var(div_expr(a, b), v) ==> contains_var(a, v) || contains_var(b, v),
        contains_var(neg_expr(a), v) ==> contains_var(a, v),
{
    reveal(add_expr);
    reveal(sub_expr);
    reveal(mul_expr);
    reveal(div_expr);
    reveal(neg_expr);
}

/// Every variable of a derivative is a variable of the tree it was taken
/// of.
pub proof fn law_derivative_variables(
    e: Expr,
    wrt: Seq<char>,
    ln_of: spec_fn(Expr) -> (int, int),
    v: Seq<char>,
)
    ensures
        contains_var(derivative(e, wrt, ln_of), v) ==> contains_var(e, v),
    decreases e,
{
    match e {
        Expr::Neg(x) => law_derivative_variables(*x, wrt, ln_of, v),
        Expr::Add(l, r) | Expr::Sub(l, r) => {
            law_derivative_variables(*l, wrt, ln_of, v);
            law_derivative_variables(*r, wrt, ln_of, v);
        },
        Expr::Mul(l, r) => {
            let dl = derivative(*l, wrt, ln_of);
            let dr = derivative(*r, wrt, ln_of);
            law_derivative_variables(*l, wrt, ln_of, v);
            law_derivative_variables(*r, wrt, ln_of, v);
            lemma_built_vars(dl, *r, v);
            lemma_built_vars(*l, dr, v);
            lemma_built_vars(mul_expr(dl, *r), mul_expr(*l, dr), v);
        },
        Expr::Div(l, r) => {
            let dl = derivative(*l, wrt, ln_of);
            let dr = derivative(*r, wrt, ln_of);
            law_derivative_variables(*l, wrt, ln_of, v);
            law_derivative_variables(*r, wrt, ln_of, v);
            lemma_built_vars(dl, *r, v);
            lemma_built_vars(*l, dr, v);
            lemma_built_vars(*r, *r, v);
            lemma_built_vars(mul_expr(dl, *r), mul_expr(*l, dr), v);
            lemma_built_vars(sub_expr(mul_expr(dl, *r), mul_expr(*l, dr)), mul_expr(*r, *r), v);
        },
        Expr::Pow(l, r) => {
            let dl = derivative(*l, wrt, ln_of);
            let dr = derivative(*r, wrt, ln_of);
            law_derivative_variables(*l, wrt, ln_of, v);
            law_derivative_variables(*r, wrt, ln_of, v);
            lemma_built_vars(e, dr, v);
            lemma_built_vars(mul_expr(e, dr), Expr::Const(ln_of(*l)), v);
            let sr = sub_expr(*r, one_expr());
            lemma_built_vars(*r, one_expr(), v);
            lemma_built_vars(*r, Expr::Pow(l, Box::new(sr)), v);
            lemma_built_vars(mul_expr(*r, Expr::Pow(l, Box::new(sr))), dl, v);
        },
        Expr::Sqrt(x) => {
            let dx = derivative(*x, wrt, ln_of);
            law_derivative_variables(*x, wrt, ln_of, v);
            let m = mul_expr(Expr::Const((2, 1)), e);
            lemma_built_vars(Expr::Const((2, 1)), e, v);
            lemma_built_vars(one_expr(), m, v);
            lemma_built_vars(div_expr(one_expr(), m), dx, v);
        },
        Expr::Sin(x) => {
            law_derivative_variables(*x, wrt, ln_of, v);
            lemma_built_vars(Expr::Cos(x), derivative(*x, wrt, ln_of), v);
        },
        Expr::Cos(x) => {
            law_derivative_variables(*x, wrt, ln_of, v);
            lemma_built_vars(Expr::Neg(Box::new(Expr::Sin(x))), derivative(*x, wrt, ln_of), v);
            assert(contains_var(Expr::Sin(x), v) == contains_var(*x, v));
            assert(contains_var(Expr::Neg(Box::new(Expr::Sin(x))), v) == contains_var(Expr::Sin(x), v));
        },
        _ => {},
    }
}

/// A product with zero is zero, on either side.
pub proof fn law_mul_by_zero(x: Expr)
    requires
        x matches Expr::Const(c) ==> c.1 > 0,
    ensures
        mul_expr(x, zero_expr()) == zero_expr(),
        mul_expr(zero_expr(), x) == zero_expr(),
{
    reveal(mul_expr);
    if let Expr::Const(c) = x {
        assert(c.0 * 0 == 0 && 0 * c.0 == 0 && c.1 * 1 == c.1 && 1 * c.1 == c.1);
        lemma_reduced_zero_canonical(c.1);
    }
}

/// A product `x * 1` is `x` when `x` is not zero by the fast test. So is
/// `1 * x`, except where `x` is one by the fast test without being a
/// constant: then `1 * x` is the constant one.
pub proof fn law_mul_by_one(x: Expr)
    requires
        !is_zero_fast(x),
        x matches Expr::Const(c) ==> reduced(c.0, c.1),
    ensures
        mul_expr(x, one_expr()) == x,
        !is_one_fast(x) || x is Const ==> mul_expr(one_expr(), x) == x,
{
    reveal(mul_expr);
    if let Expr::Const(c) = x {
        assert(c.0 * 1 == c.0 && 1 * c.0 == c.0 && c.1 * 1 == c.1 && 1 * c.1 == c.1);
        assert(c.0 * c.1 == c.0 * c.1);
        law_reduced_form_unique(c.0, c.1, c.0, c.1);
    }
}

/// The product of two constants is the constant of their exact product.
pub proof fn law_mul_constants(a: (int, int), b: (int, int))
    ensures
        mul_expr(Expr::Const(a), Expr::Const(b)) == Expr::Const(rat_mul(a, b)),
{
    reveal(mul_expr);
}

impl Expression {
    /// Shows the verifier that every constant of this tree is in lowest
    /// terms, as every constant is; it computes nothing.
    pub fn constants_in_lowest_terms(&self)
        ensures
            consts_valid(self@),
        decreases self,
    {
        match self {
            Expression::Constant(c) => c.in_lowest_terms(),
            Expression::Neg(x) | Expression::Sqrt(x) | Expression::Sin(x) | Expression::Cos(x) => {
                x.constants_in_lowest_terms()
            },
            Expression::Add(l, r) | Expression::Sub(l, r) | Expression::Mul(l, r) | Expression::Div(
                l,
                r,
            ) | Expression::Pow(l, r) => {
                l.constants_in_lowest_terms();
                r.constants_in_lowest_terms();
            },
            _ => {},
        }
    }
}

} // verus!
