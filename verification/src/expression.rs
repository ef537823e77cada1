//! Symbolic real-valued scalar expressions.

use crate::constant::{rat_add, rat_div, rat_eq, rat_mul, rat_sub, Constant};
use crate::laws::{law_mul_by_one, law_mul_by_zero};
use crate::varmap::VarMap;
use vstd::prelude::*;
use vstd::std_specs::cmp::PartialEqSpecImpl;

verus! {

/// The mathematical model of an [`Expression`]: the same tree, with names
/// as character sequences and constants as `(numerator, denominator)`.
pub enum Expr {
    Pi,
    Var(Seq<char>),
    Const((int, int)),
    Neg(Box<Expr>),
    Add(Box<Expr>, Box<Expr>),
    Sub(Box<Expr>, Box<Expr>),
    Mul(Box<Expr>, Box<Expr>),
    Div(Box<Expr>, Box<Expr>),
    Pow(Box<Expr>, Box<Expr>),
    Sqrt(Box<Expr>),
    Sin(Box<Expr>),
    Cos(Box<Expr>),
}

/// A node in a symbolic, real-valued scalar expression tree.
pub enum Expression {
    Pi,
    Variable(String),
    Constant(Constant),
    Neg(Box<Expression>),
    Add(Box<Expression>, Box<Expression>),
    Sub(Box<Expression>, Box<Expression>),
    Mul(Box<Expression>, Box<Expression>),
    Div(Box<Expression>, Box<Expression>),
    Pow(Box<Expression>, Box<Expression>),
    Sqrt(Box<Expression>),
    Sin(Box<Expression>),
    Cos(Box<Expression>),
}

impl Expression {
    /// The model of this tree.
    pub open spec fn model(&self) -> Expr
        decreases self,
    {
        match self {
            Expression::Pi => Expr::Pi,
            Expression::Variable(v) => Expr::Var(v@),
            Expression::Constant(c) => Expr::Const(c@),
            Expression::Neg(x) => Expr::Neg(Box::new(x.model())),
            Expression::Add(l, r) => Expr::Add(Box::new(l.model()), Box::new(r.model())),
            Expression::Sub(l, r) => Expr::Sub(Box::new(l.model()), Box::new(r.model())),
            Expression::Mul(l, r) => Expr::Mul(Box::new(l.model()), Box::new(r.model())),
            Expression::Div(l, r) => Expr::Div(Box::new(l.model()), Box::new(r.model())),
            Expression::Pow(l, r) => Expr::Pow(Box::new(l.model()), Box::new(r.model())),
            Expression::Sqrt(x) => Expr::Sqrt(Box::new(x.model())),
            Expression::Sin(x) => Expr::Sin(Box::new(x.model())),
            Expression::Cos(x) => Expr::Cos(Box::new(x.model())),
        }
    }
}

impl View for Expression {
    type V = Expr;

    open spec fn view(&self) -> Expr {
        self.model()
    }
}

/// The constant zero, `0 / 1`.
pub open spec fn zero_expr() -> Expr {
    Expr::Const((0, 1))
}

/// The constant one, `1 / 1`.
pub open spec fn one_expr() -> Expr {
    Expr::Const((1, 1))
}

/// Whether the full test for zero could find `e` zero, for some answers to
/// its numeric questions: its structure alone does not rule zero out.
pub open spec fn may_be_zero(e: Expr) -> bool
    decreases e,
{
    match e {
        Expr::Const(c) => c.0 == 0,
        Expr::Neg(x) => may_be_zero(*x),
        Expr::Add(l, r) => may_be_zero(*l) && may_be_zero(*r),
        Expr::Sub(l, r) => (may_be_zero(*l) && may_be_zero(*r)) || fast_eq(*l, *r),
        Expr::Mul(l, r) => may_be_zero(*l) || may_be_zero(*r),
        Expr::Div(l, _) => may_be_zero(*l),
        Expr::Pow(l, _) => may_be_zero(*l),
        Expr::Sqrt(x) => may_be_zero(*x),
        Expr::Sin(x) => may_be_zero(*x),
        Expr::Cos(x) => !is_parameterized(*x),
        Expr::Pi => false,
        Expr::Var(_) => false,
    }
}

/// The conservative, purely structural test for zero. A power counts as
/// zero when its base does and its exponent cannot be zero by the full
/// test.
pub open spec fn is_zero_fast(e: Expr) -> bool
    decreases e,
{
    match e {
        Expr::Const(c) => c.0 == 0,
        Expr::Neg(x) => is_zero_fast(*x),
        Expr::Add(l, r) => is_zero_fast(*l) && is_zero_fast(*r),
        Expr::Sub(l, r) => is_zero_fast(*l) && is_zero_fast(*r),
        Expr::Mul(l, r) => is_zero_fast(*l) || is_zero_fast(*r),
        Expr::Div(l, _) => is_zero_fast(*l),
        Expr::Pow(l, r) => is_zero_fast(*l) && !may_be_zero(*r),
        Expr::Sqrt(x) => is_zero_fast(*x),
        Expr::Sin(x) => is_zero_fast(*x),
        Expr::Cos(_) => false,
        Expr::Pi => false,
        Expr::Var(_) => false,
    }
}

/// The conservative, purely structural test for one.
pub open spec fn is_one_fast(e: Expr) -> bool
    decreases e,
{
    match e {
        Expr::Const(c) => c.0 == c.1,
        Expr::Neg(_) => false,
        Expr::Add(l, r) => is_one_fast(*l) && is_zero_fast(*r) || is_zero_fast(*l) && is_one_fast(*r),
        Expr::Sub(l, r) => is_one_fast(*l) && is_zero_fast(*r),
        Expr::Mul(l, r) => is_one_fast(*l) && is_one_fast(*r),
        Expr::Div(l, r) => is_one_fast(*l) && is_one_fast(*r),
        Expr::Pow(l, _) => is_one_fast(*l),
        Expr::Sqrt(x) => is_one_fast(*x),
        Expr::Sin(_) => false,
        Expr::Cos(x) => is_zero_fast(*x),
        Expr::Pi => false,
        Expr::Var(_) => false,
    }
}

/// Whether the variable named `v` occurs in the tree.
pub open spec fn contains_var(e: Expr, v: Seq<char>) -> bool
    decreases e,
{
    match e {
        Expr::Pi => false,
        Expr::Var(w) => w == v,
        Expr::Const(_) => false,
        Expr::Neg(x) => contains_var(*x, v),
        Expr::Add(l, r) => contains_var(*l, v) || contains_var(*r, v),
        Expr::Sub(l, r) => contains_var(*l, v) || contains_var(*r, v),
        Expr::Mul(l, r) => contains_var(*l, v) || contains_var(*r, v),
        Expr::Div(l, r) => contains_var(*l, v) || contains_var(*r, v),
        Expr::Pow(l, r) => contains_var(*l, v) || contains_var(*r, v),
        Expr::Sqrt(x) => contains_var(*x, v),
        Expr::Sin(x) => contains_var(*x, v),
        Expr::Cos(x) => contains_var(*x, v),
    }
}

/// Whether any variable occurs in the tree.
pub open spec fn is_parameterized(e: Expr) -> bool
    decreases e,
{
    match e {
        Expr::Pi => false,
        Expr::Var(_) => true,
        Expr::Const(_) => false,
        Expr::Neg(x) => is_parameterized(*x),
        Expr::Add(l, r) => is_parameterized(*l) || is_parameterized(*r),
        Expr::Sub(l, r) => is_parameterized(*l) || is_parameterized(*r),
        Expr::Mul(l, r) => is_parameterized(*l) || is_parameterized(*r),
        Expr::Div(l, r) => is_parameterized(*l) || is_parameterized(*r),
        Expr::Pow(l, r) => is_parameterized(*l) || is_parameterized(*r),
        Expr::Sqrt(x) => is_parameterized(*x),
        Expr::Sin(x) => is_parameterized(*x),
        Expr::Cos(x) => is_parameterized(*x),
    }
}

impl Expression {
    /// Conservative check for zero. This is faster than the exact check.
    pub fn is_zero_fast(&self) -> (r: bool)
        ensures
            r == is_zero_fast(self@),
        decreases self,
    {
        match self {
            Expression::Constant(c) => c.numer_is_zero(),
            Expression::Neg(x) => x.is_zero_fast(),
            Expression::Add(l, r) => l.is_zero_fast() && r.is_zero_fast(),
            Expression::Sub(l, r) => l.is_zero_fast() && r.is_zero_fast(),
            Expression::Mul(l, r) => l.is_zero_fast() || r.is_zero_fast(),
            Expression::Div(l, _) => l.is_zero_fast(),
            Expression::Pow(l, r) => l.is_zero_fast() && !r.may_be_zero(),
            Expression::Sqrt(x) => x.is_zero_fast(),
            Expression::Sin(x) => x.is_zero_fast(),
            Expression::Cos(_) => false,
            Expression::Pi => false,
            Expression::Variable(_) => false,
        }
    }

    /// Whether the full test for zero could find this tree zero, as
    /// [`may_be_zero`] says.
    pub fn may_be_zero(&self) -> (r: bool)
        ensures
            r == may_be_zero(self@),
        decreases self,
    {
        match self {
            Expression::Constant(c) => c.numer_is_zero(),
            Expression::Neg(x) => x.may_be_zero(),
            Expression::Add(l, r) => l.may_be_zero() && r.may_be_zero(),
            Expression::Sub(l, r) => (l.may_be_zero() && r.may_be_zero()) || l.fast_eq(r),
            Expression::Mul(l, r) => l.may_be_zero() || r.may_be_zero(),
            Expression::Div(l, _) => l.may_be_zero(),
            Expression::Pow(l, _) => l.may_be_zero(),
            Expression::Sqrt(x) => x.may_be_zero(),
            Expression::Sin(x) => x.may_be_zero(),
            Expression::Cos(x) => !x.is_parameterized(),
            Expression::Pi => false,
            Expression::Variable(_) => false,
        }
    }

    /// Conservative check for one.
    pub fn is_one_fast(&self) -> (r: bool)
        ensures
            r == is_one_fast(self@),
        decreases self,
    {
        match self {
            Expression::Constant(c) => c.numer_eq_denom(),
            Expression::Neg(_) => false,
            Expression::Add(l, r) => l.is_one_fast() && r.is_zero_fast() || l.is_zero_fast()
                && r.is_one_fast(),
            Expression::Sub(l, r) => l.is_one_fast() && r.is_zero_fast(),
            Expression::Mul(l, r) => l.is_one_fast() && r.is_one_fast(),
            Expression::Div(l, r) => l.is_one_fast() && r.is_one_fast(),
            Expression::Pow(l, _) => l.is_one_fast(),
            Expression::Sqrt(x) => x.is_one_fast(),
            Expression::Sin(_) => false,
            Expression::Cos(x) => x.is_zero_fast(),
            Expression::Pi => false,
            Expression::Variable(_) => false,
        }
    }

    /// Whether the variable named `var` occurs in this tree.
    pub fn contains_variable(&self, var: &str) -> (r: bool)
        ensures
            r == contains_var(self@, var@),
    {
        let v = var.to_owned();
        self.contains_named(&v)
    }

    pub(crate) fn contains_named(&self, var: &String) -> (r: bool)
        ensures
            r == contains_var(self@, var@),
        decreases self,
    {
        match self {
            Expression::Pi => false,
            Expression::Variable(v) => *v == *var,
            Expression::Constant(_) => false,
            Expression::Neg(x) => x.contains_named(var),
            Expression::Add(l, r) => l.contains_named(var) || r.contains_named(var),
            Expression::Sub(l, r) => l.contains_named(var) || r.contains_named(var),
            Expression::Mul(l, r) => l.contains_named(var) || r.contains_named(var),
            Expression::Div(l, r) => l.contains_named(var) || r.contains_named(var),
            Expression::Pow(l, r) => l.contains_named(var) || r.contains_named(var),
            Expression::Sqrt(x) => x.contains_named(var),
            Expression::Sin(x) => x.contains_named(var),
            Expression::Cos(x) => x.contains_named(var),
        }
    }

    /// Whether any variable occurs in this tree.
    pub fn is_parameterized(&self) -> (r: bool)
        ensures
            r == is_parameterized(self@),
        decreases self,
    {
        match self {
            Expression::Pi => false,
            Expression::Variable(_) => true,
            Expression::Constant(_) => false,
            Expression::Neg(x) => x.is_parameterized(),
            Expression::Add(l, r) => l.is_parameterized() || r.is_parameterized(),
            Expression::Sub(l, r) => l.is_parameterized() || r.is_parameterized(),
            Expression::Mul(l, r) => l.is_parameterized() || r.is_parameterized(),
            Expression::Div(l, r) => l.is_parameterized() || r.is_parameterized(),
            Expression::Pow(l, r) => l.is_parameterized() || r.is_parameterized(),
            Expression::Sqrt(x) => x.is_parameterized(),
            Expression::Sin(x) => x.is_parameterized(),
            Expression::Cos(x) => x.is_parameterized(),
        }
    }
}

/// The tree with every variable named `orig` renamed to `new`.
pub open spec fn rename(e: Expr, orig: Seq<char>, new: Seq<char>) -> Expr
    decreases e,
{
    match e {
        Expr::Var(w) => if w == orig {
            Expr::Var(new)
        } else {
            Expr::Var(w)
        },
        Expr::Neg(x) => Expr::Neg(Box::new(rename(*x, orig, new))),
        Expr::Add(l, r) => Expr::Add(Box::new(rename(*l, orig, new)), Box::new(rename(*r, orig, new))),
        Expr::Sub(l, r) => Expr::Sub(Box::new(rename(*l, orig, new)), Box::new(rename(*r, orig, new))),
        Expr::Mul(l, r) => Expr::Mul(Box::new(rename(*l, orig, new)), Box::new(rename(*r, orig, new))),
        Expr::Div(l, r) => Expr::Div(Box::new(rename(*l, orig, new)), Box::new(rename(*r, orig, new))),
        Expr::Pow(l, r) => Expr::Pow(Box::new(rename(*l, orig, new)), Box::new(rename(*r, orig, new))),
        Expr::Sqrt(x) => Expr::Sqrt(Box::new(rename(*x, orig, new))),
        Expr::Sin(x) => Expr::Sin(Box::new(rename(*x, orig, new))),
        Expr::Cos(x) => Expr::Cos(Box::new(rename(*x, orig, new))),
        _ => e,
    }
}

/// The tree with every variable that `m` maps renamed to its image.
pub open spec fn map_names(e: Expr, m: Map<Seq<char>, Seq<char>>) -> Expr
    decreases e,
{
    match e {
        Expr::Var(w) => if m.dom().contains(w) {
            Expr::Var(m[w])
        } else {
            Expr::Var(w)
        },
        Expr::Neg(x) => Expr::Neg(Box::new(map_names(*x, m))),
        Expr::Add(l, r) => Expr::Add(Box::new(map_names(*l, m)), Box::new(map_names(*r, m))),
        Expr::Sub(l, r) => Expr::Sub(Box::new(map_names(*l, m)), Box::new(map_names(*r, m))),
        Expr::Mul(l, r) => Expr::Mul(Box::new(map_names(*l, m)), Box::new(map_names(*r, m))),
        Expr::Div(l, r) => Expr::Div(Box::new(map_names(*l, m)), Box::new(map_names(*r, m))),
        Expr::Pow(l, r) => Expr::Pow(Box::new(map_names(*l, m)), Box::new(map_names(*r, m))),
        Expr::Sqrt(x) => Expr::Sqrt(Box::new(map_names(*x, m))),
        Expr::Sin(x) => Expr::Sin(Box::new(map_names(*x, m))),
        Expr::Cos(x) => Expr::Cos(Box::new(map_names(*x, m))),
        _ => e,
    }
}

/// Structural equality, where the operands of a sum or a product may also
/// match crosswise and constants are compared as numbers.
pub open spec fn fast_eq(a: Expr, b: Expr) -> bool
    decreases a,
{
    match (a, b) {
        (Expr::Pi, Expr::Pi) => true,
        (Expr::Var(v1), Expr::Var(v2)) => v1 == v2,
        (Expr::Const(c1), Expr::Const(c2)) => rat_eq(c1, c2),
        (Expr::Neg(x1), Expr::Neg(x2)) => fast_eq(*x1, *x2),
        (Expr::Add(l1, r1), Expr::Add(l2, r2)) => (fast_eq(*l1, *l2) && fast_eq(*r1, *r2)) || (
        fast_eq(*l1, *r2) && fast_eq(*r1, *l2)),
        (Expr::Sub(l1, r1), Expr::Sub(l2, r2)) => fast_eq(*l1, *l2) && fast_eq(*r1, *r2),
        (Expr::Mul(l1, r1), Expr::Mul(l2, r2)) => (fast_eq(*l1, *l2) && fast_eq(*r1, *r2)) || (
        fast_eq(*l1, *r2) && fast_eq(*r1, *l2)),
        (Expr::Div(l1, r1), Expr::Div(l2, r2)) => fast_eq(*l1, *l2) && fast_eq(*r1, *r2),
        (Expr::Pow(l1, r1), Expr::Pow(l2, r2)) => fast_eq(*l1, *l2) && fast_eq(*r1, *r2),
        (Expr::Sqrt(x1), Expr::Sqrt(x2)) => fast_eq(*x1, *x2),
        (Expr::Sin(x1), Expr::Sin(x2)) => fast_eq(*x1, *x2),
        (Expr::Cos(x1), Expr::Cos(x2)) => fast_eq(*x1, *x2),
        _ => false,
    }
}

/// The tree with every subtree that is [`fast_eq`] to `orig` replaced by
/// `sub`, searching from the root down and not inside a replaced subtree.
pub open spec fn substitute(e: Expr, orig: Expr, sub: Expr) -> Expr
    decreases e,
{
    if fast_eq(e, orig) {
        sub
    } else {
        match e {
            Expr::Neg(x) => Expr::Neg(Box::new(substitute(*x, orig, sub))),
            Expr::Add(l, r) => Expr::Add(
                Box::new(substitute(*l, orig, sub)),
                Box::new(substitute(*r, orig, sub)),
            ),
            Expr::Sub(l, r) => Expr::Sub(
                Box::new(substitute(*l, orig, sub)),
                Box::new(substitute(*r, orig, sub)),
            ),
            Expr::Mul(l, r) => Expr::Mul(
                Box::new(substitute(*l, orig, sub)),
                Box::new(substitute(*r, orig, sub)),
            ),
            Expr::Div(l, r) => Expr::Div(
                Box::new(substitute(*l, orig, sub)),
                Box::new(substitute(*r, orig, sub)),
            ),
            Expr::Pow(l, r) => Expr::Pow(
                Box::new(substitute(*l, orig, sub)),
                Box::new(substitute(*r, orig, sub)),
            ),
            Expr::Sqrt(x) => Expr::Sqrt(Box::new(substitute(*x, orig, sub))),
            Expr::Sin(x) => Expr::Sin(Box::new(substitute(*x, orig, sub))),
            Expr::Cos(x) => Expr::Cos(Box::new(substitute(*x, orig, sub))),
            _ => e,
        }
    }
}

impl Expression {
    /// The constant zero.
    pub fn zero() -> (r: Expression)
        ensures
            r@ == zero_expr(),
    {
        Expression::Constant(Constant::from_int(0))
    }

    /// The constant one.
    pub fn one() -> (r: Expression)
        ensures
            r@ == one_expr(),
    {
        Expression::Constant(Constant::from_int(1))
    }

    /// The integer `n` as a constant.
    pub fn from_int(n: i64) -> (r: Expression)
        ensures
            r@ == Expr::Const((n as int, 1int)),
    {
        Expression::Constant(Constant::from_int(n))
    }

    /// A copy of this tree.
    pub fn deep_clone(&self) -> (r: Expression)
        ensures
            r@ == self@,
        decreases self,
    {
        match self {
            Expression::Pi => Expression::Pi,
            Expression::Variable(v) => Expression::Variable(v.clone()),
            Expression::Constant(c) => Expression::Constant(c.clone()),
            Expression::Neg(x) => Expression::Neg(Box::new(x.deep_clone())),
            Expression::Add(l, r) => Expression::Add(Box::new(l.deep_clone()), Box::new(r.deep_clone())),
            Expression::Sub(l, r) => Expression::Sub(Box::new(l.deep_clone()), Box::new(r.deep_clone())),
            Expression::Mul(l, r) => Expression::Mul(Box::new(l.deep_clone()), Box::new(r.deep_clone())),
            Expression::Div(l, r) => Expression::Div(Box::new(l.deep_clone()), Box::new(r.deep_clone())),
            Expression::Pow(l, r) => Expression::Pow(Box::new(l.deep_clone()), Box::new(r.deep_clone())),
            Expression::Sqrt(x) => Expression::Sqrt(Box::new(x.deep_clone())),
            Expression::Sin(x) => Expression::Sin(Box::new(x.deep_clone())),
            Expression::Cos(x) => Expression::Cos(Box::new(x.deep_clone())),
        }
    }

    /// This tree with the variable `original` renamed to `new`.
    pub fn rename_variable(&self, original: &str, new: &str) -> (r: Expression)
        ensures
            r@ == rename(self@, original@, new@),
    {
        let o = original.to_owned();
        let n = new.to_owned();
        self.rename_named(&o, &n)
    }

    fn rename_named(&self, original: &String, new: &String) -> (r: Expression)
        ensures
            r@ == rename(self@, original@, new@),
        decreases self,
    {
        match self {
            Expression::Pi => Expression::Pi,
            Expression::Variable(var) => {
                if *var == *original {
                    Expression::Variable(new.clone())
                } else {
                    Expression::Variable(var.clone())
                }
            },
            Expression::Constant(c) => Expression::Constant(c.clone()),
            Expression::Neg(x) => Expression::Neg(Box::new(x.rename_named(original, new))),
            Expression::Add(l, r) => Expression::Add(
                Box::new(l.rename_named(original, new)),
                Box::new(r.rename_named(original, new)),
            ),
            Expression::Sub(l, r) => Expression::Sub(
                Box::new(l.rename_named(original, new)),
                Box::new(r.rename_named(original, new)),
            ),
            Expression::Mul(l, r) => Expression::Mul(
                Box::new(l.rename_named(original, new)),
                Box::new(r.rename_named(original, new)),
            ),
            Expression::Div(l, r) => Expression::Div(
                Box::new(l.rename_named(original, new)),
                Box::new(r.rename_named(original, new)),
            ),
            Expression::Pow(l, r) => Expression::Pow(
                Box::new(l.rename_named(original, new)),
                Box::new(r.rename_named(original, new)),
            ),
            Expression::Sqrt(x) => Expression::Sqrt(Box::new(x.rename_named(original, new))),
            Expression::Sin(x) => Expression::Sin(Box::new(x.rename_named(original, new))),
            Expression::Cos(x) => Expression::Cos(Box::new(x.rename_named(original, new))),
        }
    }

    /// This tree with every variable that `var_map` maps renamed to its
    /// image.
    pub fn map_var_names(&self, var_map: &VarMap) -> (r: Expression)
        ensures
            r@ == map_names(self@, var_map@),
        decreases self,
    {
        match self {
            Expression::Pi => Expression::Pi,
            Expression::Variable(var) => {
                match var_map.get(var) {
                    Some(new_var) => Expression::Variable(new_var.clone()),
                    None => Expression::Variable(var.clone()),
                }
            },
            Expression::Constant(c) => Expression::Constant(c.clone()),
            Expression::Neg(x) => Expression::Neg(Box::new(x.map_var_names(var_map))),
            Expression::Add(l, r) => Expression::Add(
                Box::new(l.map_var_names(var_map)),
                Box::new(r.map_var_names(var_map)),
            ),
            Expression::Sub(l, r) => Expression::Sub(
                Box::new(l.map_var_names(var_map)),
                Box::new(r.map_var_names(var_map)),
            ),
            Expression::Mul(l, r) => Expression::Mul(
                Box::new(l.map_var_names(var_map)),
                Box::new(r.map_var_names(var_map)),
            ),
            Expression::Div(l, r) => Expression::Div(
                Box::new(l.map_var_names(var_map)),
                Box::new(r.map_var_names(var_map)),
            ),
            Expression::Pow(l, r) => Expression::Pow(
                Box::new(l.map_var_names(var_map)),
                Box::new(r.map_var_names(var_map)),
            ),
            Expression::Sqrt(x) => Expression::Sqrt(Box::new(x.map_var_names(var_map))),
            Expression::Sin(x) => Expression::Sin(Box::new(x.map_var_names(var_map))),
            Expression::Cos(x) => Expression::Cos(Box::new(x.map_var_names(var_map))),
        }
    }

    /// Structural equality, where the operands of a sum or a product may
    /// also match crosswise and constants are compared as numbers.
    pub fn fast_eq(&self, other: &Expression) -> (r: bool)
        ensures
            r == fast_eq(self@, other@),
        decreases self,
    {
        match (self, other) {
            (Expression::Pi, Expression::Pi) => true,
            (Expression::Variable(v1), Expression::Variable(v2)) => *v1 == *v2,
            (Expression::Constant(c1), Expression::Constant(c2)) => c1.equals(c2),
            (Expression::Neg(x1), Expression::Neg(x2)) => x1.fast_eq(x2),
            (Expression::Add(l1, r1), Expression::Add(l2, r2)) => (l1.fast_eq(l2) && r1.fast_eq(r2))
                || (l1.fast_eq(r2) && r1.fast_eq(l2)),
            (Expression::Sub(l1, r1), Expression::Sub(l2, r2)) => l1.fast_eq(l2) && r1.fast_eq(r2),
            (Expression::Mul(l1, r1), Expression::Mul(l2, r2)) => (l1.fast_eq(l2) && r1.fast_eq(r2))
                || (l1.fast_eq(r2) && r1.fast_eq(l2)),
            (Expression::Div(l1, r1), Expression::Div(l2, r2)) => l1.fast_eq(l2) && r1.fast_eq(r2),
            (Expression::Pow(l1, r1), Expression::Pow(l2, r2)) => l1.fast_eq(l2) && r1.fast_eq(r2),
            (Expression::Sqrt(x1), Expression::Sqrt(x2)) => x1.fast_eq(x2),
            (Expression::Sin(x1), Expression::Sin(x2)) => x1.fast_eq(x2),
            (Expression::Cos(x1), Expression::Cos(x2)) => x1.fast_eq(x2),
            _ => false,
        }
    }

    /// This tree with every subtree that is [`fast_eq`] to `original`
    /// replaced by `substitution`.
    pub fn substitute(&self, original: &Expression, substitution: &Expression) -> (r: Expression)
        ensures
            r@ == substitute(self@, original@, substitution@),
        decreases self,
    {
        if self.fast_eq(original) {
            return substitution.deep_clone();
        }
        match self {
            Expression::Neg(x) => Expression::Neg(Box::new(x.substitute(original, substitution))),
            Expression::Add(l, r) => Expression::Add(
                Box::new(l.substitute(original, substitution)),
                Box::new(r.substitute(original, substitution)),
            ),
            Expression::Sub(l, r) => Expression::Sub(
                Box::new(l.substitute(original, substitution)),
                Box::new(r.substitute(original, substitution)),
            ),
            Expression::Mul(l, r) => Expression::Mul(
                Box::new(l.substitute(original, substitution)),
                Box::new(r.substitute(original, substitution)),
            ),
            Expression::Div(l, r) => Expression::Div(
                Box::new(l.substitute(original, substitution)),
                Box::new(r.substitute(original, substitution)),
            ),
            Expression::Pow(l, r) => Expression::Pow(
                Box::new(l.substitute(original, substitution)),
                Box::new(r.substitute(original, substitution)),
            ),
            Expression::Sqrt(x) => Expression::Sqrt(Box::new(x.substitute(original, substitution))),
            Expression::Sin(x) => Expression::Sin(Box::new(x.substitute(original, substitution))),
            Expression::Cos(x) => Expression::Cos(Box::new(x.substitute(original, substitution))),
            _ => self.deep_clone(),
        }
    }
}

impl Clone for Expression {
    fn clone(&self) -> (r: Self)
        ensures
            r@ == self@,
    {
        self.deep_clone()
    }
}

/// `==` on expressions is [`fast_eq`].
impl PartialEq for Expression {
    fn eq(&self, other: &Self) -> (r: bool) {
        self.fast_eq(other)
    }
}

impl PartialEqSpecImpl for Expression {
    open spec fn obeys_eq_spec() -> bool {
        true
    }

    open spec fn eq_spec(&self, other: &Self) -> bool {
        fast_eq(self@, other@)
    }
}

/// What `a + b` builds: constants are folded, a zero operand (by the fast
/// test) is dropped, and otherwise an `Add` node is formed.
#[verifier::opaque]
pub open spec fn add_expr(a: Expr, b: Expr) -> Expr {
    match (a, b) {
        (Expr::Const(c1), Expr::Const(c2)) => Expr::Const(rat_add(c1, c2)),
        _ => if is_zero_fast(b) {
            a
        } else if is_zero_fast(a) {
            b
        } else {
            Expr::Add(Box::new(a), Box::new(b))
        },
    }
}

/// What `-a` builds: a zero (by the fast test) stays as it is, anything else
/// is wrapped in a `Neg` node.
#[verifier::opaque]
pub open spec fn neg_expr(a: Expr) -> Expr {
    if is_zero_fast(a) {
        a
    } else {
        Expr::Neg(Box::new(a))
    }
}

/// What `a - b` builds: constants are folded, a zero subtrahend is dropped,
/// a zero minuend gives `-b`, and otherwise a `Sub` node is formed.
#[verifier::opaque]
pub open spec fn sub_expr(a: Expr, b: Expr) -> Expr {
    match (a, b) {
        (Expr::Const(c1), Expr::Const(c2)) => Expr::Const(rat_sub(c1, c2)),
        _ => if is_zero_fast(b) {
            a
        } else if is_zero_fast(a) {
            neg_expr(b)
        } else {
            Expr::Sub(Box::new(a), Box::new(b))
        },
    }
}

/// What `a * b` builds: constants are folded, a zero factor gives zero, a
/// factor of one is dropped, and otherwise a `Mul` node is formed.
#[verifier::opaque]
pub open spec fn mul_expr(a: Expr, b: Expr) -> Expr {
    match (a, b) {
        (Expr::Const(c1), Expr::Const(c2)) => Expr::Const(rat_mul(c1, c2)),
        _ => if is_zero_fast(b) || is_zero_fast(a) {
            zero_expr()
        } else if is_one_fast(b) {
            a
        } else if is_one_fast(a) {
            b
        } else {
            Expr::Mul(Box::new(a), Box::new(b))
        },
    }
}

/// What `a / b` builds for a divisor that is not zero by the fast test:
/// constants are folded, a zero dividend gives zero, and otherwise a `Div`
/// node is formed.
#[verifier::opaque]
pub open spec fn div_expr(a: Expr, b: Expr) -> Expr {
    match (a, b) {
        (Expr::Const(c1), Expr::Const(c2)) => Expr::Const(rat_div(c1, c2)),
        _ => if is_zero_fast(a) {
            zero_expr()
        } else {
            Expr::Div(Box::new(a), Box::new(b))
        },
    }
}

impl Expression {
    /// `self + other`, simplified as [`add_expr`] says.
    pub fn add(&self, other: &Expression) -> (r: Expression)
        ensures
            r@ == add_expr(self@, other@),
    {
        reveal(add_expr);
        if let Expression::Constant(c1) = self {
            if let Expression::Constant(c2) = other {
                return Expression::Constant(c1.plus(c2));
            }
        }
        if other.is_zero_fast() {
            self.deep_clone()
        } else if self.is_zero_fast() {
            other.deep_clone()
        } else {
            Expression::Add(Box::new(self.deep_clone()), Box::new(other.deep_clone()))
        }
    }

    /// `-self`, simplified as [`neg_expr`] says.
    pub fn neg(&self) -> (r: Expression)
        ensures
            r@ == neg_expr(self@),
    {
        reveal(neg_expr);
        if self.is_zero_fast() {
            self.deep_clone()
        } else {
            Expression::Neg(Box::new(self.deep_clone()))
        }
    }

    /// `self - other`, simplified as [`sub_expr`] says.
    pub fn sub(&self, other: &Expression) -> (r: Expression)
        ensures
            r@ == sub_expr(self@, other@),
    {
        reveal(sub_expr);
        if let Expression::Constant(c1) = self {
            if let Expression::Constant(c2) = other {
                return Expression::Constant(c1.minus(c2));
            }
        }
        if other.is_zero_fast() {
            self.deep_clone()
        } else if self.is_zero_fast() {
            other.neg()
        } else {
            Expression::Sub(Box::new(self.deep_clone()), Box::new(other.deep_clone()))
        }
    }

    /// `self * other`, simplified as [`mul_expr`] says. A product with
    /// zero is zero; a product with one is the other factor when that is
    /// not zero by the fast test (and, for `1 * x`, when `x` is a constant
    /// or not one by the fast test).
    pub fn mul(&self, other: &Expression) -> (r: Expression)
        ensures
            r@ == mul_expr(self@, other@),
            other@ == zero_expr() || self@ == zero_expr() ==> r@ == zero_expr(),
            other@ == one_expr() && !is_zero_fast(self@) ==> r@ == self@,
            self@ == one_expr() && !is_zero_fast(other@) && (!is_one_fast(other@) || other@ is Const)
                ==> r@ == other@,
    {
        if let Expression::Constant(c) = self {
            c.in_lowest_terms();
        }
        if let Expression::Constant(c) = other {
            c.in_lowest_terms();
        }
        proof {
            law_mul_by_zero(self@);
            law_mul_by_zero(other@);
            if !is_zero_fast(self@) {
                law_mul_by_one(self@);
            }
            if !is_zero_fast(other@) {
                law_mul_by_one(other@);
            }
        }
        reveal(mul_expr);
        if let Expression::Constant(c1) = self {
            if let Expression::Constant(c2) = other {
                return Expression::Constant(c1.times(c2));
            }
        }
        if other.is_zero_fast() || self.is_zero_fast() {
            Expression::zero()
        } else if other.is_one_fast() {
            self.deep_clone()
        } else if self.is_one_fast() {
            other.deep_clone()
        } else {
            Expression::Mul(Box::new(self.deep_clone()), Box::new(other.deep_clone()))
        }
    }

    /// `self / other`, simplified as [`div_expr`] says. Dividing by an
    /// expression that is zero by the fast test is refused.
    pub fn div(&self, other: &Expression) -> (r: Expression)
        requires
            !is_zero_fast(other@),
        ensures
            r@ == div_expr(self@, other@),
    {
        reveal(div_expr);
        if let Expression::Constant(c1) = self {
            if let Expression::Constant(c2) = other {
                return Expression::Constant(c1.divided_by(c2));
            }
        }
        if self.is_zero_fast() {
            Expression::zero()
        } else {
            Expression::Div(Box::new(self.deep_clone()), Box::new(other.deep_clone()))
        }
    }
}


} // verus!
