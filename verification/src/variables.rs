//! The variables of an expression, and the subtrees that lie above a
//! variable.

use crate::expression::{contains_var, is_parameterized, Expr, Expression};
use vstd::prelude::*;

verus! {

/// The models of a sequence of expressions.
pub open spec fn models(s: Seq<Expression>) -> Seq<Expr> {
    s.map_values(|x: Expression| x@)
}

/// The character sequences of a sequence of names.
pub open spec fn names(s: Seq<String>) -> Seq<Seq<char>> {
    s.map_values(|x: String| x@)
}

/// `acc` followed by each element of `rest` that is not already present,
/// taken in order.
pub open spec fn merge_unique(acc: Seq<Seq<char>>, rest: Seq<Seq<char>>) -> Seq<Seq<char>>
    decreases rest.len(),
{
    if rest.len() == 0 {
        acc
    } else {
        merge_unique(
            if acc.contains(rest[0]) {
                acc
            } else {
                acc.push(rest[0])
            },
            rest.drop_first(),
        )
    }
}

/// The names of the variables of `e`, each once, in the order in which a
/// left-to-right walk first meets them.
pub open spec fn unique_vars(e: Expr) -> Seq<Seq<char>>
    decreases e,
{
    match e {
        Expr::Var(s) => seq![s],
        Expr::Neg(x) => unique_vars(*x),
        Expr::Add(l, r) => merge_unique(unique_vars(*l), unique_vars(*r)),
        Expr::Sub(l, r) => merge_unique(unique_vars(*l), unique_vars(*r)),
        Expr::Mul(l, r) => merge_unique(unique_vars(*l), unique_vars(*r)),
        Expr::Div(l, r) => merge_unique(unique_vars(*l), unique_vars(*r)),
        Expr::Pow(l, r) => merge_unique(unique_vars(*l), unique_vars(*r)),
        Expr::Sqrt(x) => unique_vars(*x),
        Expr::Sin(x) => unique_vars(*x),
        Expr::Cos(x) => unique_vars(*x),
        _ => seq![],
    }
}

/// The subtrees of `e` that contain the variable `v`, in post-order: the
/// variable occurrences themselves and every node above one.
pub open spec fn ancestors(e: Expr, v: Seq<char>) -> Seq<Expr>
    decreases e,
{
    match e {
        Expr::Var(w) => if w == v {
            seq![e]
        } else {
            seq![]
        },
        Expr::Neg(x) => above(ancestors(*x, v), e),
        Expr::Add(l, r) => above(ancestors(*l, v) + ancestors(*r, v), e),
        Expr::Sub(l, r) => above(ancestors(*l, v) + ancestors(*r, v), e),
        Expr::Mul(l, r) => above(ancestors(*l, v) + ancestors(*r, v), e),
        Expr::Div(l, r) => above(ancestors(*l, v) + ancestors(*r, v), e),
        Expr::Pow(l, r) => above(ancestors(*l, v) + ancestors(*r, v), e),
        Expr::Sqrt(x) => above(ancestors(*x, v), e),
        Expr::Sin(x) => above(ancestors(*x, v), e),
        Expr::Cos(x) => above(ancestors(*x, v), e),
        _ => seq![],
    }
}

/// The children's ancestors followed by the node itself, or nothing when
/// the children have none.
pub open spec fn above(children: Seq<Expr>, node: Expr) -> Seq<Expr> {
    if children.len() == 0 {
        seq![]
    } else {
        children.push(node)
    }
}

/// Whether `names` holds `name`.
pub(crate) fn holds_name(names_vec: &Vec<String>, name: &String) -> (r: bool)
    ensures
        r == names(names_vec@).contains(name@),
{
    let mut i: usize = 0;
    while i < names_vec.len()
        invariant
            i <= names_vec@.len(),
            forall|j: int| 0 <= j < i ==> (#[trigger] names_vec@[j])@ != name@,
        decreases names_vec@.len() - i,
    {
        if names_vec[i] == *name {
            assert(names(names_vec@)[i as int] == name@);
            return true;
        }
        i = i + 1;
    }
    assert(!names(names_vec@).contains(name@)) by {
        if names(names_vec@).contains(name@) {
            let j = choose|j: int| 0 <= j < names(names_vec@).len() && names(names_vec@)[j] == name@;
            assert(names_vec@[j]@ == name@);
        }
    }
    false
}

/// Appends to `acc` each name of `rest` that it does not hold yet.
pub(crate) fn merge_names(acc: &mut Vec<String>, rest: &Vec<String>)
    ensures
        names(final(acc)@) == merge_unique(names(old(acc)@), names(rest@)),
{
    let ghost target = merge_unique(names(acc@), names(rest@));
    let mut i: usize = 0;
    assert(names(rest@).skip(0) =~= names(rest@));
    while i < rest.len()
        invariant
            i <= rest@.len(),
            merge_unique(names(acc@), names(rest@).skip(i as int)) == target,
        decreases rest@.len() - i,
    {
        let ghost before = names(acc@);
        let ghost tail = names(rest@).skip(i as int);
        assert(tail[0] == rest@[i as int]@);
        assert(tail.drop_first() =~= names(rest@).skip(i + 1));
        if !holds_name(acc, &rest[i]) {
            acc.push(rest[i].clone());
            assert(names(acc@) =~= before.push(tail[0]));
        }
        i = i + 1;
    }
}

impl Expression {
    /// The names of the variables of this tree, each once, in the order in
    /// which they are first met.
    pub fn get_unique_variables(&self) -> (r: Vec<String>)
        ensures
            names(r@) == unique_vars(self@),
        decreases self,
    {
        match self {
            Expression::Variable(s) => {
                let mut v = Vec::new();
                v.push(s.clone());
                assert(names(v@) =~= seq![s@]);
                v
            },
            Expression::Neg(x) => x.get_unique_variables(),
            Expression::Add(l, r) => {
                let mut acc = l.get_unique_variables();
                merge_names(&mut acc, &r.get_unique_variables());
                acc
            },
            Expression::Sub(l, r) => {
                let mut acc = l.get_unique_variables();
                merge_names(&mut acc, &r.get_unique_variables());
                acc
            },
            Expression::Mul(l, r) => {
                let mut acc = l.get_unique_variables();
                merge_names(&mut acc, &r.get_unique_variables());
                acc
            },
            Expression::Div(l, r) => {
                let mut acc = l.get_unique_variables();
                merge_names(&mut acc, &r.get_unique_variables());
                acc
            },
            Expression::Pow(l, r) => {
                let mut acc = l.get_unique_variables();
                merge_names(&mut acc, &r.get_unique_variables());
                acc
            },
            Expression::Sqrt(x) => x.get_unique_variables(),
            Expression::Sin(x) => x.get_unique_variables(),
            Expression::Cos(x) => x.get_unique_variables(),
            _ => {
                let v: Vec<String> = Vec::new();
                assert(names(v@) =~= seq![]);
                v
            },
        }
    }

    /// The subtrees of this tree that contain the variable `variable`, in
    /// post-order.
    pub fn get_ancestors(&self, variable: &str) -> (r: Vec<Expression>)
        ensures
            models(r@) == ancestors(self@, variable@),
    {
        let v = variable.to_owned();
        self.ancestors_of(&v)
    }

    fn ancestors_of(&self, variable: &String) -> (r: Vec<Expression>)
        ensures
            models(r@) == ancestors(self@, variable@),
        decreases self,
    {
        let mut result: Vec<Expression> = Vec::new();
        match self {
            Expression::Variable(var) => {
                if *var == *variable {
                    result.push(self.deep_clone());
                }
                assert(models(result@) =~= ancestors(self@, variable@));
            },
            Expression::Neg(x) => {
                let mut below = x.ancestors_of(variable);
                self.close_over(&mut result, &mut below);
            },
            Expression::Add(l, r) => {
                let mut below = l.ancestors_of(variable);
                let mut right = r.ancestors_of(variable);
                join(&mut below, &mut right);
                self.close_over(&mut result, &mut below);
            },
            Expression::Sub(l, r) => {
                let mut below = l.ancestors_of(variable);
                let mut right = r.ancestors_of(variable);
                join(&mut below, &mut right);
                self.close_over(&mut result, &mut below);
            },
            Expression::Mul(l, r) => {
                let mut below = l.ancestors_of(variable);
                let mut right = r.ancestors_of(variable);
                join(&mut below, &mut right);
                self.close_over(&mut result, &mut below);
            },
            Expression::Div(l, r) => {
                let mut below = l.ancestors_of(variable);
                let mut right = r.ancestors_of(variable);
                join(&mut below, &mut right);
                self.close_over(&mut result, &mut below);
            },
            Expression::Pow(l, r) => {
                let mut below = l.ancestors_of(variable);
                let mut right = r.ancestors_of(variable);
                join(&mut below, &mut right);
                self.close_over(&mut result, &mut below);
            },
            Expression::Sqrt(x) => {
                let mut below = x.ancestors_of(variable);
                self.close_over(&mut result, &mut below);
            },
            Expression::Sin(x) => {
                let mut below = x.ancestors_of(variable);
                self.close_over(&mut result, &mut below);
            },
            Expression::Cos(x) => {
                let mut below = x.ancestors_of(variable);
                self.close_over(&mut result, &mut below);
            },
            _ => {
                assert(models(result@) =~= ancestors(self@, variable@));
            },
        }
        result
    }

    /// Moves the subtrees found below this node into the empty `result`,
    /// followed by this node itself when there was at least one.
    fn close_over(&self, result: &mut Vec<Expression>, below: &mut Vec<Expression>)
        requires
            old(result)@.len() == 0,
        ensures
            models(final(result)@) == above(models(old(below)@), self@),
    {
        let is_empty = below.len() == 0;
        result.append(below);
        if !is_empty {
            let ghost before = result@;
            result.push(self.deep_clone());
            assert(models(result@) =~= models(before).push(self@));
        }
        assert(models(result@) =~= above(models(old(below)@), self@));
    }
}

/// Moves the elements of `right` to the end of `left`.
fn join(left: &mut Vec<Expression>, right: &mut Vec<Expression>)
    ensures
        models(final(left)@) == models(old(left)@) + models(old(right)@),
{
    left.append(right);
    assert(models(left@) =~= models(old(left)@) + models(old(right)@));
}

/// What [`merge_unique`] holds, and that it adds no duplicates.
pub(crate) proof fn lemma_merge_unique(acc: Seq<Seq<char>>, rest: Seq<Seq<char>>)
    ensures
        forall|x: Seq<char>|
            #[trigger] merge_unique(acc, rest).contains(x) <==> acc.contains(x) || rest.contains(x),
        acc.no_duplicates() ==> merge_unique(acc, rest).no_duplicates(),
    decreases rest.len(),
{
    if rest.len() > 0 {
        let next = if acc.contains(rest[0]) {
            acc
        } else {
            acc.push(rest[0])
        };
        lemma_merge_unique(next, rest.drop_first());
        assert(merge_unique(acc, rest) == merge_unique(next, rest.drop_first()));
        assert forall|x: Seq<char>| next.contains(x) <==> acc.contains(x) || x == rest[0] by {
            if acc.contains(x) {
                let i = choose|i: int| 0 <= i < acc.len() && acc[i] == x;
                assert(next[i] == x);
            }
            if x == rest[0] && !acc.contains(x) {
                assert(next[acc.len() as int] == x);
            }
            if next.contains(x) && !acc.contains(rest[0]) {
                let i = choose|i: int| 0 <= i < next.len() && next[i] == x;
                if i < acc.len() {
                    assert(acc[i] == x);
                }
            }
        }
        assert forall|x: Seq<char>| rest.contains(x) <==> x == rest[0] || rest.drop_first().contains(x) by {
            if rest.contains(x) {
                let i = choose|i: int| 0 <= i < rest.len() && rest[i] == x;
                if i > 0 {
                    assert(rest.drop_first()[i - 1] == x);
                }
            }
            if x == rest[0] {
                assert(rest[0] == x);
            }
            if rest.drop_first().contains(x) {
                let i = choose|i: int| 0 <= i < rest.drop_first().len() && rest.drop_first()[i] == x;
                assert(rest[i + 1] == x);
            }
        }
        if acc.no_duplicates() {
            assert(next.no_duplicates());
        }
    }
}

/// Each name occurs at most once among the unique variables of an
/// expression, and a name is listed exactly when that variable occurs in
/// the expression.
pub proof fn law_unique_variables(e: Expr)
    ensures
        unique_vars(e).no_duplicates(),
        forall|v: Seq<char>| #[trigger] unique_vars(e).contains(v) <==> contains_var(e, v),
    decreases e,
{
    match e {
        Expr::Var(s) => {
            assert forall|v: Seq<char>| #[trigger] unique_vars(e).contains(v) <==> contains_var(
                e,
                v,
            ) by {
                if v == s {
                    assert(unique_vars(e)[0] == v);
                }
            }
        },
        Expr::Neg(x) => law_unique_variables(*x),
        Expr::Add(l, r) => {
            law_unique_variables(*l);
            law_unique_variables(*r);
            lemma_merge_unique(unique_vars(*l), unique_vars(*r));
        },
        Expr::Sub(l, r) => {
            law_unique_variables(*l);
            law_unique_variables(*r);
            lemma_merge_unique(unique_vars(*l), unique_vars(*r));
        },
        Expr::Mul(l, r) => {
            law_unique_variables(*l);
            law_unique_variables(*r);
            lemma_merge_unique(unique_vars(*l), unique_vars(*r));
        },
        Expr::Div(l, r) => {
            law_unique_variables(*l);
            law_unique_variables(*r);
            lemma_merge_unique(unique_vars(*l), unique_vars(*r));
        },
        Expr::Pow(l, r) => {
            law_unique_variables(*l);
            law_unique_variables(*r);
            lemma_merge_unique(unique_vars(*l), unique_vars(*r));
        },
        Expr::Sqrt(x) => law_unique_variables(*x),
        Expr::Sin(x) => law_unique_variables(*x),
        Expr::Cos(x) => law_unique_variables(*x),
        _ => {},
    }
}

/// An expression is parameterized exactly when it has a variable.
pub proof fn law_parameterized_has_variables(e: Expr)
    ensures
        is_parameterized(e) <==> unique_vars(e).len() > 0,
    decreases e,
{
    match e {
        Expr::Neg(x) => law_parameterized_has_variables(*x),
        Expr::Add(l, r) => {
            law_parameterized_has_variables(*l);
            law_parameterized_has_variables(*r);
            lemma_merge_len(unique_vars(*l), unique_vars(*r));
        },
        Expr::Sub(l, r) => {
            law_parameterized_has_variables(*l);
            law_parameterized_has_variables(*r);
            lemma_merge_len(unique_vars(*l), unique_vars(*r));
        },
        Expr::Mul(l, r) => {
            law_parameterized_has_variables(*l);
            law_parameterized_has_variables(*r);
            lemma_merge_len(unique_vars(*l), unique_vars(*r));
        },
        Expr::Div(l, r) => {
            law_parameterized_has_variables(*l);
            law_parameterized_has_variables(*r);
            lemma_merge_len(unique_vars(*l), unique_vars(*r));
        },
        Expr::Pow(l, r) => {
            law_parameterized_has_variables(*l);
            law_parameterized_has_variables(*r);
            lemma_merge_len(unique_vars(*l), unique_vars(*r));
        },
        Expr::Sqrt(x) => law_parameterized_has_variables(*x),
        Expr::Sin(x) => law_parameterized_has_variables(*x),
        Expr::Cos(x) => law_parameterized_has_variables(*x),
        _ => {},
    }
}

/// Merging yields something non-empty exactly when either side is.
proof fn lemma_merge_len(acc: Seq<Seq<char>>, rest: Seq<Seq<char>>)
    ensures
        merge_unique(acc, rest).len() > 0 <==> acc.len() > 0 || rest.len() > 0,
        merge_unique(acc, rest).len() >= acc.len(),
    decreases rest.len(),
{
    if rest.len() > 0 {
        let next = if acc.contains(rest[0]) {
            acc
        } else {
            acc.push(rest[0])
        };
        lemma_merge_len(next, rest.drop_first());
        if acc.contains(rest[0]) {
            assert(acc.len() > 0);
        }
    }
}

/// The ancestors of a variable are non-empty exactly when the variable
/// occurs, every ancestor contains the variable, and when there are any the
/// last one is the whole expression.
pub proof fn law_ancestors(e: Expr, v: Seq<char>)
    ensures
        ancestors(e, v).len() > 0 <==> contains_var(e, v),
        forall|i: int| 0 <= i < ancestors(e, v).len() ==> contains_var(#[trigger] ancestors(e, v)[i], v),
        ancestors(e, v).len() > 0 ==> ancestors(e, v).last() == e,
    decreases e,
{
    match e {
        Expr::Neg(x) => law_ancestors(*x, v),
        Expr::Add(l, r) => {
            law_ancestors(*l, v);
            law_ancestors(*r, v);
            lemma_join_contains(ancestors(*l, v), ancestors(*r, v), v);
        },
        Expr::Sub(l, r) => {
            law_ancestors(*l, v);
            law_ancestors(*r, v);
            lemma_join_contains(ancestors(*l, v), ancestors(*r, v), v);
        },
        Expr::Mul(l, r) => {
            law_ancestors(*l, v);
            law_ancestors(*r, v);
            lemma_join_contains(ancestors(*l, v), ancestors(*r, v), v);
        },
        Expr::Div(l, r) => {
            law_ancestors(*l, v);
            law_ancestors(*r, v);
            lemma_join_contains(ancestors(*l, v), ancestors(*r, v), v);
        },
        Expr::Pow(l, r) => {
            law_ancestors(*l, v);
            law_ancestors(*r, v);
            lemma_join_contains(ancestors(*l, v), ancestors(*r, v), v);
        },
        Expr::Sqrt(x) => law_ancestors(*x, v),
        Expr::Sin(x) => law_ancestors(*x, v),
        Expr::Cos(x) => law_ancestors(*x, v),
        _ => {},
    }
}

/// Every subtree of `e`, `e` itself included and repeated subtrees kept,
/// in post-order: the subtrees of the operands from left to right, then
/// the node.
pub open spec fn subtrees(e: Expr) -> Seq<Expr>
    decreases e,
{
    match e {
        Expr::Neg(x) => subtrees(*x).push(e),
        Expr::Add(l, r) => (subtrees(*l) + subtrees(*r)).push(e),
        Expr::Sub(l, r) => (subtrees(*l) + subtrees(*r)).push(e),
        Expr::Mul(l, r) => (subtrees(*l) + subtrees(*r)).push(e),
        Expr::Div(l, r) => (subtrees(*l) + subtrees(*r)).push(e),
        Expr::Pow(l, r) => (subtrees(*l) + subtrees(*r)).push(e),
        Expr::Sqrt(x) => subtrees(*x).push(e),
        Expr::Sin(x) => subtrees(*x).push(e),
        Expr::Cos(x) => subtrees(*x).push(e),
        _ => seq![e],
    }
}

/// The ancestors of a variable are exactly the subtrees that contain it,
/// in post-order.
pub proof fn law_ancestors_are_subtrees_with_the_variable(e: Expr, v: Seq<char>)
    ensures
        ancestors(e, v) == subtrees(e).filter(|s: Expr| contains_var(s, v)),
    decreases e,
{
    let p = |s: Expr| contains_var(s, v);
    law_ancestors(e, v);
    match e {
        Expr::Neg(x) | Expr::Sqrt(x) | Expr::Sin(x) | Expr::Cos(x) => {
            law_ancestors_are_subtrees_with_the_variable(*x, v);
            law_ancestors(*x, v);
            subtrees(*x).lemma_filter_push(e, p);
        },
        Expr::Add(l, r) | Expr::Sub(l, r) | Expr::Mul(l, r) | Expr::Div(l, r) | Expr::Pow(l, r) => {
            law_ancestors_are_subtrees_with_the_variable(*l, v);
            law_ancestors_are_subtrees_with_the_variable(*r, v);
            law_ancestors(*l, v);
            law_ancestors(*r, v);
            Seq::filter_distributes_over_add(subtrees(*l), subtrees(*r), p);
            (subtrees(*l) + subtrees(*r)).lemma_filter_push(e, p);
        },
        _ => {
            Seq::<Expr>::empty().lemma_filter_push(e, p);
            assert(Seq::<Expr>::empty().filter(p) =~= Seq::<Expr>::empty()) by {
                reveal(Seq::filter);
            }
            assert(seq![e] =~= Seq::<Expr>::empty().push(e));
            if contains_var(e, v) {
                assert(ancestors(e, v) =~= seq![e]);
            } else {
                assert(ancestors(e, v) =~= Seq::<Expr>::empty());
            }
        },
    }
}

/// Concatenation keeps the property that every element contains `v`.
proof fn lemma_join_contains(a: Seq<Expr>, b: Seq<Expr>, v: Seq<char>)
    requires
        forall|i: int| 0 <= i < a.len() ==> contains_var(#[trigger] a[i], v),
        forall|i: int| 0 <= i < b.len() ==> contains_var(#[trigger] b[i], v),
    ensures
        forall|i: int| 0 <= i < (a + b).len() ==> contains_var(#[trigger] (a + b)[i], v),
{
    assert forall|i: int| 0 <= i < (a + b).len() implies contains_var(#[trigger] (a + b)[i], v) by {
        if i < a.len() {
            assert((a + b)[i] == a[i]);
        } else {
            assert((a + b)[i] == b[i - a.len()]);
        }
    }
}

} // verus!
