//! The prefix text form of an expression tree, and the set of texts that
//! name its parts.

use crate::constant::Constant;
use crate::expression::{Expr, Expression};
use crate::variables::{holds_name, names};
use vstd::prelude::*;
use vstd::string::StringExecFns;

verus! {

/// Every text that `f` gives for a constant is the one that `ct` names.
pub open spec fn text_agrees<F: Fn(&Constant) -> String>(
    f: F,
    ct: spec_fn((int, int)) -> Seq<char>,
) -> bool {
    forall|c: &Constant, s: String| #[trigger] f.ensures((c,), s) ==> s@ == ct(c@)
}

/// The prefix text of a tree: each node in round brackets, its operator
/// first and then its operands, separated by single spaces; `ct` gives the
/// text of a constant.
pub open spec fn text(e: Expr, ct: spec_fn((int, int)) -> Seq<char>) -> Seq<char>
    decreases e,
{
    let inner = match e {
        Expr::Pi => "pi"@,
        Expr::Var(v) => v,
        Expr::Const(c) => ct(c),
        Expr::Neg(x) => "~ "@ + text(*x, ct),
        Expr::Add(l, r) => "+ "@ + text(*l, ct) + " "@ + text(*r, ct),
        Expr::Sub(l, r) => "- "@ + text(*l, ct) + " "@ + text(*r, ct),
        Expr::Mul(l, r) => "* "@ + text(*l, ct) + " "@ + text(*r, ct),
        Expr::Div(l, r) => "/ "@ + text(*l, ct) + " "@ + text(*r, ct),
        Expr::Pow(l, r) => "pow "@ + text(*l, ct) + " "@ + text(*r, ct),
        Expr::Sqrt(x) => "sqrt "@ + text(*x, ct),
        Expr::Sin(x) => "sin "@ + text(*x, ct),
        Expr::Cos(x) => "cos "@ + text(*x, ct),
    };
    "("@ + inner + ")"@
}

/// The texts that name the parts of a tree, in the order in which they are
/// gathered: the text of the tree, then `pi`, a variable's name or a
/// constant's text at a leaf, and those of the operands, left to right.
pub open spec fn context_list(e: Expr, ct: spec_fn((int, int)) -> Seq<char>) -> Seq<Seq<char>>
    decreases e,
{
    let rest = match e {
        Expr::Pi => seq!["pi"@],
        Expr::Var(v) => seq![v],
        Expr::Const(c) => seq![ct(c)],
        Expr::Neg(x) => context_list(*x, ct),
        Expr::Add(l, r) => context_list(*l, ct) + context_list(*r, ct),
        Expr::Sub(l, r) => context_list(*l, ct) + context_list(*r, ct),
        Expr::Mul(l, r) => context_list(*l, ct) + context_list(*r, ct),
        Expr::Div(l, r) => context_list(*l, ct) + context_list(*r, ct),
        Expr::Pow(l, r) => context_list(*l, ct) + context_list(*r, ct),
        Expr::Sqrt(x) => context_list(*x, ct),
        Expr::Sin(x) => context_list(*x, ct),
        Expr::Cos(x) => context_list(*x, ct),
    };
    seq![text(e, ct)] + rest
}

/// The context of a tree: the text of every subtree, and `pi`, the name of
/// every variable and the text of every constant in it.
pub open spec fn context(e: Expr, ct: spec_fn((int, int)) -> Seq<char>) -> Set<Seq<char>>
    decreases e,
{
    let own = set![text(e, ct)];
    match e {
        Expr::Pi => own.insert("pi"@),
        Expr::Var(v) => own.insert(v),
        Expr::Const(c) => own.insert(ct(c)),
        Expr::Neg(x) => own + context(*x, ct),
        Expr::Add(l, r) => own + context(*l, ct) + context(*r, ct),
        Expr::Sub(l, r) => own + context(*l, ct) + context(*r, ct),
        Expr::Mul(l, r) => own + context(*l, ct) + context(*r, ct),
        Expr::Div(l, r) => own + context(*l, ct) + context(*r, ct),
        Expr::Pow(l, r) => own + context(*l, ct) + context(*r, ct),
        Expr::Sqrt(x) => own + context(*x, ct),
        Expr::Sin(x) => own + context(*x, ct),
        Expr::Cos(x) => own + context(*x, ct),
    }
}

/// The set of a concatenation is the union of the sets.
proof fn lemma_concat_to_set(a: Seq<Seq<char>>, b: Seq<Seq<char>>)
    ensures
        (a + b).to_set() == a.to_set() + b.to_set(),
{
    assert forall|t: Seq<char>| (a + b).to_set().contains(t) <==> (a.to_set() + b.to_set()).contains(t) by {
        if (a + b).to_set().contains(t) {
            let i = choose|i: int| 0 <= i < (a + b).len() && (a + b)[i] == t;
            if i < a.len() {
                assert(a[i] == t);
            } else {
                assert(b[i - a.len()] == t);
            }
        }
        if a.to_set().contains(t) {
            let i = choose|i: int| 0 <= i < a.len() && a[i] == t;
            assert((a + b)[i] == t);
        }
        if b.to_set().contains(t) {
            let i = choose|i: int| 0 <= i < b.len() && b[i] == t;
            assert((a + b)[a.len() + i] == t);
        }
    }
    assert((a + b).to_set() =~= a.to_set() + b.to_set());
}

/// The listed texts are exactly the context.
pub proof fn lemma_context_list_set(e: Expr, ct: spec_fn((int, int)) -> Seq<char>)
    ensures
        context_list(e, ct).to_set() == context(e, ct),
    decreases e,
{
    let own = seq![text(e, ct)];
    assert(own.to_set() =~= set![text(e, ct)]) by {
        assert(own[0] == text(e, ct));
    }
    match e {
        Expr::Pi => {
            let rest = seq!["pi"@];
            assert(rest.to_set() =~= set!["pi"@]) by {
                assert(rest[0] == "pi"@);
            }
            lemma_concat_to_set(own, rest);
            assert(context(e, ct) =~= set![text(e, ct)] + set!["pi"@]);
        },
        Expr::Var(v) => {
            let rest = seq![v];
            assert(rest.to_set() =~= set![v]) by {
                assert(rest[0] == v);
            }
            lemma_concat_to_set(own, rest);
            assert(context(e, ct) =~= set![text(e, ct)] + set![v]);
        },
        Expr::Const(c) => {
            let rest = seq![ct(c)];
            assert(rest.to_set() =~= set![ct(c)]) by {
                assert(rest[0] == ct(c));
            }
            lemma_concat_to_set(own, rest);
            assert(context(e, ct) =~= set![text(e, ct)] + set![ct(c)]);
        },
        Expr::Neg(x) | Expr::Sqrt(x) | Expr::Sin(x) | Expr::Cos(x) => {
            lemma_context_list_set(*x, ct);
            lemma_concat_to_set(own, context_list(*x, ct));
        },
        Expr::Add(l, r) | Expr::Sub(l, r) | Expr::Mul(l, r) | Expr::Div(l, r) | Expr::Pow(l, r) => {
            lemma_context_list_set(*l, ct);
            lemma_context_list_set(*r, ct);
            lemma_concat_to_set(context_list(*l, ct), context_list(*r, ct));
            lemma_concat_to_set(own, context_list(*l, ct) + context_list(*r, ct));
            assert(context(e, ct) =~= own.to_set() + (context(*l, ct) + context(*r, ct)));
        },
    }
}

/// `op`, `a`, a space and `b`, as one text.
fn binary_text(op: &str, a: String, b: String) -> (r: String)
    ensures
        r@ == op@ + a@ + " "@ + b@,
{
    let mut s = String::from_str(op);
    s.append(a.as_str());
    s.append(" ");
    s.append(b.as_str());
    s
}

/// `op` followed by `a`, as one text.
fn unary_text(op: &str, a: String) -> (r: String)
    ensures
        r@ == op@ + a@,
{
    let mut s = String::from_str(op);
    s.append(a.as_str());
    s
}

/// Moves the strings of `src` to the end of `out`.
fn append_all(out: &mut Vec<String>, src: Vec<String>)
    ensures
        names(final(out)@) == names(old(out)@) + names(src@),
{
    let ghost moved = src@;
    let mut src = src;
    let ghost before = out@;
    out.append(&mut src);
    assert(names(out@) =~= names(before) + names(moved));
}

/// A sequence with `x` pushed holds what it held, and `x`.
proof fn lemma_push_contains(s: Seq<Seq<char>>, x: Seq<char>, t: Seq<char>)
    ensures
        s.push(x).contains(t) <==> s.contains(t) || x == t,
{
    if s.contains(t) {
        let k = choose|k: int| 0 <= k < s.len() && s[k] == t;
        assert(s.push(x)[k] == t);
    }
    if x == t {
        assert(s.push(x)[s.len() as int] == t);
    }
    if s.push(x).contains(t) {
        let k = choose|k: int| 0 <= k < s.push(x).len() && s.push(x)[k] == t;
        if k < s.len() {
            assert(s[k] == t);
        }
    }
}

/// The strings of `v`, each once, in the order of their first occurrence.
fn without_repeats(v: &Vec<String>) -> (r: Vec<String>)
    ensures
        names(r@).no_duplicates(),
        names(r@).to_set() == names(v@).to_set(),
{
    let mut out: Vec<String> = Vec::new();
    let mut i: usize = 0;
    while i < v.len()
        invariant
            i <= v@.len(),
            names(out@).no_duplicates(),
            forall|t: Seq<char>| names(out@).contains(t) <==> names(v@).take(i as int).contains(t),
        decreases v@.len() - i,
    {
        let ghost before = names(out@);
        let ghost seen = names(v@).take(i as int);
        assert(names(v@).take(i + 1) =~= seen.push(v@[i as int]@));
        let ghost x = v@[i as int]@;
        if !holds_name(&out, &v[i]) {
            out.push(v[i].clone());
            assert(names(out@) =~= before.push(x));
        }
        proof {
            assert forall|t: Seq<char>| names(out@).contains(t) <==> seen.push(x).contains(t) by {
                lemma_push_contains(before, x, t);
                lemma_push_contains(seen, x, t);
            }
        }
        i = i + 1;
    }
    assert(names(v@).take(i as int) =~= names(v@));
    assert(names(out@).to_set() =~= names(v@).to_set());
    out
}

impl Expression {
    /// The prefix text of this tree, with `constant_text` giving the text
    /// of each constant.
    pub fn to_text<F: Fn(&Constant) -> String>(&self, constant_text: &F) -> (r: String)
        requires
            forall|c: &Constant| constant_text.requires((c,)),
        ensures
            forall|ct: spec_fn((int, int)) -> Seq<char>|
                text_agrees(*constant_text, ct) ==> r@ == text(self@, ct),
        decreases self,
    {
        let inner = match self {
            Expression::Pi => String::from_str("pi"),
            Expression::Variable(v) => v.clone(),
            Expression::Constant(c) => constant_text(c),
            Expression::Neg(x) => unary_text("~ ", x.to_text(constant_text)),
            Expression::Add(l, r) => binary_text(
                "+ ",
                l.to_text(constant_text),
                r.to_text(constant_text),
            ),
            Expression::Sub(l, r) => binary_text(
                "- ",
                l.to_text(constant_text),
                r.to_text(constant_text),
            ),
            Expression::Mul(l, r) => binary_text(
                "* ",
                l.to_text(constant_text),
                r.to_text(constant_text),
            ),
            Expression::Div(l, r) => binary_text(
                "/ ",
                l.to_text(constant_text),
                r.to_text(constant_text),
            ),
            Expression::Pow(l, r) => binary_text(
                "pow ",
                l.to_text(constant_text),
                r.to_text(constant_text),
            ),
            Expression::Sqrt(x) => unary_text("sqrt ", x.to_text(constant_text)),
            Expression::Sin(x) => unary_text("sin ", x.to_text(constant_text)),
            Expression::Cos(x) => unary_text("cos ", x.to_text(constant_text)),
        };
        let mut s = String::from_str("(");
        s.append(inner.as_str());
        s.append(")");
        s
    }

    /// The texts of [`context_list`], in that order.
    fn context_texts<F: Fn(&Constant) -> String>(&self, constant_text: &F) -> (r: Vec<String>)
        requires
            forall|c: &Constant| constant_text.requires((c,)),
        ensures
            forall|ct: spec_fn((int, int)) -> Seq<char>|
                text_agrees(*constant_text, ct) ==> names(r@) == context_list(self@, ct),
            forall|ct: spec_fn((int, int)) -> Seq<char>|
                text_agrees(*constant_text, ct) ==> names(r@).to_set() == context(self@, ct),
        decreases self,
    {
        let mut out: Vec<String> = Vec::new();
        let own = self.to_text(constant_text);
        out.push(own);
        let ghost first = names(out@);
        let rest: Vec<String> = match self {
            Expression::Pi => {
                let mut v: Vec<String> = Vec::new();
                v.push(String::from_str("pi"));
                v
            },
            Expression::Variable(name) => {
                let mut v: Vec<String> = Vec::new();
                v.push(name.clone());
                v
            },
            Expression::Constant(c) => {
                let mut v: Vec<String> = Vec::new();
                v.push(constant_text(c));
                v
            },
            Expression::Neg(x) | Expression::Sqrt(x) | Expression::Sin(x) | Expression::Cos(x) => {
                x.context_texts(constant_text)
            },
            Expression::Add(l, r) | Expression::Sub(l, r) | Expression::Mul(l, r) | Expression::Div(
                l,
                r,
            ) | Expression::Pow(l, r) => {
                let mut v = l.context_texts(constant_text);
                let w = r.context_texts(constant_text);
                append_all(&mut v, w);
                v
            },
        };
        append_all(&mut out, rest);
        proof {
            assert forall|ct: spec_fn((int, int)) -> Seq<char>|
                text_agrees(*constant_text, ct) implies names(out@) == context_list(self@, ct) && names(out@).to_set() == context(self@, ct) by {
                assert(first =~= seq![text(self@, ct)]);
                assert(names(out@) =~= context_list(self@, ct));
                lemma_context_list_set(self@, ct);
            }
        }
        out
    }

    /// Every text that names this tree or a part of it, each once: the
    /// text of each subtree, `pi`, the name of each variable and the text
    /// of each constant, with `constant_text` giving the text of a
    /// constant.
    pub fn gather_context<F: Fn(&Constant) -> String>(&self, constant_text: &F) -> (r: Vec<String>)
        requires
            forall|c: &Constant| constant_text.requires((c,)),
        ensures
            names(r@).no_duplicates(),
            forall|ct: spec_fn((int, int)) -> Seq<char>|
                text_agrees(*constant_text, ct) ==> names(r@).to_set() == context(self@, ct),
    {
        let all = self.context_texts(constant_text);
        let r = without_repeats(&all);
        proof {
            assert forall|ct: spec_fn((int, int)) -> Seq<char>|
                text_agrees(*constant_text, ct) implies names(r@).to_set() == context(self@, ct) by {
                lemma_context_list_set(self@, ct);
            }
        }
        r
    }
}

} // verus!
