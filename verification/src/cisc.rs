//! Conversion of a parsed scalar formula into a complex expression.

use crate::complex::{cadd, cdenominator, cdiv, cmul, csub, ComplexExpression};
use crate::constant::Constant;
use crate::text::text_is;
use crate::expression::{is_zero_fast, one_expr, zero_expr, Expr, Expression};
use crate::zero_one::{is_zero, numeric_agrees, NumericTest};
use vstd::prelude::*;

verus! {

/// A scalar formula as the parser produces it: numbers and names are kept
/// as text, operators as characters.
pub enum CiscExpression {
    Number(String),
    Variable(String),
    Unary { op: char, expr: Box<CiscExpression> },
    Binary { op: char, lhs: Box<CiscExpression>, rhs: Box<CiscExpression> },
    Call { fn_name: String, args: Vec<CiscExpression> },
}

/// The model of a [`CiscExpression`]. A call keeps its function name, its
/// number of arguments and the model of its first argument, which is all
/// that the conversion reads.
pub enum Cisc {
    Number(Seq<char>),
    Variable(Seq<char>),
    Unary { op: char, expr: Box<Cisc> },
    Binary { op: char, lhs: Box<Cisc>, rhs: Box<Cisc> },
    Call { fn_name: Seq<char>, arity: nat, first: Box<Cisc> },
}

impl CiscExpression {
    /// The model of this formula.
    pub open spec fn model(&self) -> Cisc
        decreases self,
    {
        match self {
            CiscExpression::Number(s) => Cisc::Number(s@),
            CiscExpression::Variable(s) => Cisc::Variable(s@),
            CiscExpression::Unary { op, expr } => Cisc::Unary { op: *op, expr: Box::new(expr.model()) },
            CiscExpression::Binary { op, lhs, rhs } => Cisc::Binary {
                op: *op,
                lhs: Box::new(lhs.model()),
                rhs: Box::new(rhs.model()),
            },
            CiscExpression::Call { fn_name, args } => Cisc::Call {
                fn_name: fn_name@,
                arity: args@.len(),
                first: Box::new(
                    if args@.len() > 0 {
                        args@[0].model()
                    } else {
                        Cisc::Number(Seq::empty())
                    },
                ),
            },
        }
    }
}

impl View for CiscExpression {
    type V = Cisc;

    open spec fn view(&self) -> Cisc {
        self.model()
    }
}

/// The functions that a call may name.
pub open spec fn known_function(name: Seq<char>) -> bool {
    name == "sqrt"@ || name == "sin"@ || name == "cos"@ || name == "tan"@ || name == "csc"@ || name
        == "sec"@ || name == "cot"@
}

/// Every answer that `f` gives is the constant that `n` names for the text.
pub open spec fn number_agrees<G: Fn(&String) -> Constant>(
    f: G,
    n: spec_fn(Seq<char>) -> (int, int),
) -> bool {
    forall|s: &String, c: Constant| #[trigger] f.ensures((s,), c) ==> c@ == n(s@)
}

/// The real expression that a call of the function `name` on `x` denotes.
pub open spec fn apply_call(name: Seq<char>, x: Expr) -> Expr {
    if name == "sqrt"@ {
        Expr::Sqrt(Box::new(x))
    } else if name == "sin"@ {
        Expr::Sin(Box::new(x))
    } else if name == "cos"@ {
        Expr::Cos(Box::new(x))
    } else if name == "tan"@ {
        Expr::Div(Box::new(Expr::Sin(Box::new(x))), Box::new(Expr::Cos(Box::new(x))))
    } else if name == "csc"@ {
        Expr::Div(Box::new(one_expr()), Box::new(Expr::Sin(Box::new(x))))
    } else if name == "sec"@ {
        Expr::Div(Box::new(one_expr()), Box::new(Expr::Cos(Box::new(x))))
    } else {
        Expr::Div(Box::new(Expr::Cos(Box::new(x))), Box::new(Expr::Sin(Box::new(x))))
    }
}

/// Each known function name stands for its own formula: `sqrt`, `sin` and
/// `cos` for the node of that name, `tan` for `sin / cos`, `csc` for
/// `1 / sin`, `sec` for `1 / cos` and `cot` for `cos / sin`.
pub proof fn law_call_formulas(x: Expr)
    ensures
        apply_call("sqrt"@, x) == Expr::Sqrt(Box::new(x)),
        apply_call("sin"@, x) == Expr::Sin(Box::new(x)),
        apply_call("cos"@, x) == Expr::Cos(Box::new(x)),
        apply_call("tan"@, x) == Expr::Div(
            Box::new(Expr::Sin(Box::new(x))),
            Box::new(Expr::Cos(Box::new(x))),
        ),
        apply_call("csc"@, x) == Expr::Div(
            Box::new(Expr::Const((1int, 1int))),
            Box::new(Expr::Sin(Box::new(x))),
        ),
        apply_call("sec"@, x) == Expr::Div(
            Box::new(Expr::Const((1int, 1int))),
            Box::new(Expr::Cos(Box::new(x))),
        ),
        apply_call("cot"@, x) == Expr::Div(
            Box::new(Expr::Cos(Box::new(x))),
            Box::new(Expr::Sin(Box::new(x))),
        ),
{
    reveal_strlit("sqrt");
    reveal_strlit("sin");
    reveal_strlit("cos");
    reveal_strlit("tan");
    reveal_strlit("csc");
    reveal_strlit("sec");
    reveal_strlit("cot");
    assert("sin"@ != "sqrt"@ && "cos"@ != "sqrt"@ && "tan"@ != "sqrt"@ && "csc"@ != "sqrt"@
        && "sec"@ != "sqrt"@ && "cot"@ != "sqrt"@) by {
        assert("sin"@[1] != "sqrt"@[1] && "cos"@[0] != "sqrt"@[0] && "tan"@[0] != "sqrt"@[0]
            && "csc"@[1] != "sqrt"@[1] && "sec"@[1] != "sqrt"@[1] && "cot"@[0] != "sqrt"@[0]);
    }
    assert("cos"@ != "sin"@ && "tan"@ != "sin"@ && "csc"@ != "sin"@ && "sec"@ != "sin"@
        && "cot"@ != "sin"@) by {
        assert("cos"@[0] != "sin"@[0] && "tan"@[0] != "sin"@[0] && "csc"@[0] != "sin"@[0]
            && "sec"@[1] != "sin"@[1] && "cot"@[0] != "sin"@[0]);
    }
    assert("tan"@ != "cos"@ && "csc"@ != "cos"@ && "sec"@ != "cos"@ && "cot"@ != "cos"@) by {
        assert("tan"@[0] != "cos"@[0] && "csc"@[1] != "cos"@[1] && "sec"@[0] != "cos"@[0]
            && "cot"@[2] != "cos"@[2]);
    }
    assert("csc"@ != "tan"@ && "sec"@ != "tan"@ && "cot"@ != "tan"@) by {
        assert("csc"@[0] != "tan"@[0] && "sec"@[0] != "tan"@[0] && "cot"@[0] != "tan"@[0]);
    }
    assert("sec"@ != "csc"@ && "cot"@ != "csc"@) by {
        assert("sec"@[0] != "csc"@[0] && "cot"@[1] != "csc"@[1]);
    }
    assert("cot"@ != "sec"@) by {
        assert("cot"@[0] != "sec"@[0]);
    }
}

/// The complex expression that the formula `t` denotes, where `o` answers
/// the numeric questions and `n` gives the constant for a number's text.
pub open spec fn convert(
    t: Cisc,
    o: spec_fn(Expr, NumericTest) -> bool,
    n: spec_fn(Seq<char>) -> (int, int),
) -> (Expr, Expr)
    decreases t,
{
    match t {
        Cisc::Number(s) => (Expr::Const(n(s)), zero_expr()),
        Cisc::Variable(v) => if v == "i"@ {
            (zero_expr(), one_expr())
        } else if v == "π"@ || v == "pi"@ {
            (Expr::Pi, zero_expr())
        } else {
            (Expr::Var(v), zero_expr())
        },
        Cisc::Unary { op, expr } => {
            let c = convert(*expr, o, n);
            (Expr::Neg(Box::new(c.0)), Expr::Neg(Box::new(c.1)))
        },
        Cisc::Binary { op, lhs, rhs } => {
            let a = convert(*lhs, o, n);
            let b = convert(*rhs, o, n);
            if op == '+' {
                cadd(a, b)
            } else if op == '-' {
                csub(a, b)
            } else if op == '*' {
                cmul(a, b)
            } else if op == '/' {
                cdiv(a, b)
            } else if a.0 == Expr::Var("e"@) {
                (Expr::Cos(Box::new(b.1)), Expr::Sin(Box::new(b.1)))
            } else {
                (Expr::Pow(Box::new(a.0), Box::new(b.0)), zero_expr())
            }
        },
        Cisc::Call { fn_name, arity, first } => (apply_call(fn_name, convert(*first, o, n).0), zero_expr()),
    }
}

/// Whether the formula `t` can be converted: every unary operator is `~`,
/// every binary operator is one of `+ - * / ^`, a divisor's denominator is
/// not zero by the fast test, `e^x` has an exponent whose real part is zero,
/// any other power has a real base and a real exponent, and every call
/// names a known function with exactly one real argument.
pub open spec fn convertible(
    t: Cisc,
    o: spec_fn(Expr, NumericTest) -> bool,
    n: spec_fn(Seq<char>) -> (int, int),
) -> bool
    decreases t,
{
    match t {
        Cisc::Number(_) => true,
        Cisc::Variable(_) => true,
        Cisc::Unary { op, expr } => op == '~' && convertible(*expr, o, n),
        Cisc::Binary { op, lhs, rhs } => {
            let a = convert(*lhs, o, n);
            let b = convert(*rhs, o, n);
            &&& convertible(*lhs, o, n)
            &&& convertible(*rhs, o, n)
            &&& {
                ||| op == '+'
                ||| op == '-'
                ||| op == '*'
                ||| op == '/' && !is_zero_fast(cdenominator(b))
                ||| op == '^' && if a.0 == Expr::Var("e"@) {
                    is_zero(b.0, o)
                } else {
                    is_zero(a.1, o) && is_zero(b.1, o)
                }
            }
        },
        Cisc::Call { fn_name, arity, first } => {
            &&& known_function(fn_name)
            &&& arity == 1
            &&& convertible(*first, o, n)
            &&& is_zero(convert(*first, o, n).1, o)
        },
    }
}

/// The real expression for a call of the function `name`, one of the
/// known functions, on `x`, as [`apply_call`] says.
fn apply_function(name: &String, x: Expression) -> (r: Expression)
    ensures
        r@ == apply_call(name@, x@),
{
    let ghost xv = x@;
    if text_is(name, "sqrt") {
        Expression::Sqrt(Box::new(x))
    } else if text_is(name, "sin") {
        Expression::Sin(Box::new(x))
    } else if text_is(name, "cos") {
        Expression::Cos(Box::new(x))
    } else if text_is(name, "tan") {
        let s = Expression::Sin(Box::new(x.deep_clone()));
        let c = Expression::Cos(Box::new(x));
        assert(s@ == Expr::Sin(Box::new(xv)));
        assert(c@ == Expr::Cos(Box::new(xv)));
        Expression::Div(Box::new(s), Box::new(c))
    } else if text_is(name, "csc") {
        let s = Expression::Sin(Box::new(x));
        assert(s@ == Expr::Sin(Box::new(xv)));
        Expression::Div(Box::new(Expression::one()), Box::new(s))
    } else if text_is(name, "sec") {
        let c = Expression::Cos(Box::new(x));
        assert(c@ == Expr::Cos(Box::new(xv)));
        Expression::Div(Box::new(Expression::one()), Box::new(c))
    } else {
        let c = Expression::Cos(Box::new(x.deep_clone()));
        let s = Expression::Sin(Box::new(x));
        assert(c@ == Expr::Cos(Box::new(xv)));
        assert(s@ == Expr::Sin(Box::new(xv)));
        Expression::Div(Box::new(c), Box::new(s))
    }
}

/// `o` and `n` give the answers of `numeric` and `number`.
pub open spec fn agreeing<F: Fn(&Expression, NumericTest) -> bool, G: Fn(&String) -> Constant>(
    numeric: F,
    number: G,
    o: spec_fn(Expr, NumericTest) -> bool,
    n: spec_fn(Seq<char>) -> (int, int),
) -> bool {
    numeric_agrees(numeric, o) && number_agrees(number, n)
}

impl ComplexExpression {
    /// The complex expression that a parsed formula denotes. `numeric`
    /// answers the numeric questions of the tests for zero, and `number`
    /// turns a number's text into a constant (both are floating-point work
    /// that this library leaves to the caller). The formula must be
    /// [`convertible`] for every pair of answer functions that agrees with
    /// the closures. What a closure's contract says of its results binds
    /// them in one direction only, so a verified caller can show this only
    /// where convertibility does not hinge on a numeral or a numeric answer
    /// (a divisor, the real part of an `e` exponent, an imaginary part).
    /// Everywhere else, [`ComplexExpression::try_new`] is the entry point:
    /// it decides convertibility itself and says in its result which way
    /// it went.
    pub fn new<F: Fn(&Expression, NumericTest) -> bool, G: Fn(&String) -> Constant>(
        cisc_expr: &CiscExpression,
        numeric: &F,
        number: &G,
    ) -> (r: ComplexExpression)
        requires
            forall|e: &Expression, t: NumericTest| numeric.requires((e, t)),
            forall|s: &String| number.requires((s,)),
            exists|o: spec_fn(Expr, NumericTest) -> bool, n: spec_fn(Seq<char>) -> (int, int)|
                agreeing(*numeric, *number, o, n),
            forall|o: spec_fn(Expr, NumericTest) -> bool, n: spec_fn(Seq<char>) -> (int, int)|
                agreeing(*numeric, *number, o, n) ==> convertible(
                    cisc_expr@,
                    o,
                    n,
                ),
        ensures
            forall|o: spec_fn(Expr, NumericTest) -> bool, n: spec_fn(Seq<char>) -> (int, int)|
                agreeing(*numeric, *number, o, n) ==> r@ == convert(
                    cisc_expr@,
                    o,
                    n,
                ),
    {
        let ghost (o0, n0) = choose|
            o: spec_fn(Expr, NumericTest) -> bool,
            n: spec_fn(Seq<char>) -> (int, int),
        | agreeing(*numeric, *number, o, n);
        match ComplexExpression::try_new(cisc_expr, numeric, number) {
            Some(c) => c,
            None => vstd::pervasive::unreached(),
        }
    }

    /// The complex expression that a parsed formula denotes, or `None` when
    /// the formula cannot be converted: an unknown operator or function, a
    /// call without exactly one real argument, a divisor that is zero by
    /// the fast test, `e` raised to a power with a real part, or a power of
    /// complex values. `numeric` and `number` are as for
    /// [`ComplexExpression::new`].
    pub fn try_new<F: Fn(&Expression, NumericTest) -> bool, G: Fn(&String) -> Constant>(
        cisc_expr: &CiscExpression,
        numeric: &F,
        number: &G,
    ) -> (r: Option<ComplexExpression>)
        requires
            forall|e: &Expression, t: NumericTest| numeric.requires((e, t)),
            forall|s: &String| number.requires((s,)),
        ensures
            forall|o: spec_fn(Expr, NumericTest) -> bool, n: spec_fn(Seq<char>) -> (int, int)|
                #[trigger] agreeing(*numeric, *number, o, n) ==> {
                    &&& (r is Some <==> convertible(cisc_expr@, o, n))
                    &&& (r matches Some(c) ==> c@ == convert(cisc_expr@, o, n))
                },
        decreases cisc_expr,
    {
        match cisc_expr {
            CiscExpression::Number(num) => {
                let c = number(num);
                let res = ComplexExpression { real: Expression::Constant(c), imag: Expression::zero() };
                assert forall|o: spec_fn(Expr, NumericTest) -> bool, n: spec_fn(Seq<char>) -> (int, int)|
                    agreeing(*numeric, *number, o, n) implies res@ == convert(cisc_expr@, o, n) by {
                    assert(number.ensures((num,), c));
                }
                Some(res)
            },
            CiscExpression::Variable(var) => {
                if text_is(var, "i") {
                    Some(ComplexExpression { real: Expression::zero(), imag: Expression::one() })
                } else if text_is(var, "π") || text_is(var, "pi") {
                    Some(ComplexExpression { real: Expression::Pi, imag: Expression::zero() })
                } else {
                    Some(ComplexExpression { real: Expression::Variable(var.clone()), imag: Expression::zero() })
                }
            },
            CiscExpression::Unary { op, expr } => {
                if *op != '~' {
                    return None;
                }
                match ComplexExpression::try_new(expr, numeric, number) {
                    None => None,
                    Some(inner) => {
                        let ghost iv = inner@;
                        let res = ComplexExpression {
                            real: Expression::Neg(Box::new(inner.real)),
                            imag: Expression::Neg(Box::new(inner.imag)),
                        };
                        assert forall|o: spec_fn(Expr, NumericTest) -> bool, n: spec_fn(Seq<char>) -> (int, int)|
                            agreeing(*numeric, *number, o, n) implies res@ == convert(cisc_expr@, o, n) by {
                            assert(iv == convert(expr@, o, n));
                        }
                        Some(res)
                    },
                }
            },
            CiscExpression::Binary { op, lhs, rhs } => {
                let a = match ComplexExpression::try_new(lhs, numeric, number) {
                    None => {
                        return None;
                    },
                    Some(a) => a,
                };
                let b = match ComplexExpression::try_new(rhs, numeric, number) {
                    None => {
                        return None;
                    },
                    Some(b) => b,
                };
                let ghost av = a@;
                let ghost bv = b@;
                if *op == '+' {
                    let res = a.add(&b);
                    assert forall|o: spec_fn(Expr, NumericTest) -> bool, n: spec_fn(Seq<char>) -> (int, int)|
                        agreeing(*numeric, *number, o, n) implies res@ == convert(cisc_expr@, o, n) by {
                        assert(av == convert(lhs@, o, n) && bv == convert(rhs@, o, n));
                    }
                    Some(res)
                } else if *op == '-' {
                    let res = a.sub(&b);
                    assert forall|o: spec_fn(Expr, NumericTest) -> bool, n: spec_fn(Seq<char>) -> (int, int)|
                        agreeing(*numeric, *number, o, n) implies res@ == convert(cisc_expr@, o, n) by {
                        assert(av == convert(lhs@, o, n) && bv == convert(rhs@, o, n));
                    }
                    Some(res)
                } else if *op == '*' {
                    let res = a.mul(&b);
                    assert forall|o: spec_fn(Expr, NumericTest) -> bool, n: spec_fn(Seq<char>) -> (int, int)|
                        agreeing(*numeric, *number, o, n) implies res@ == convert(cisc_expr@, o, n) by {
                        assert(av == convert(lhs@, o, n) && bv == convert(rhs@, o, n));
                    }
                    Some(res)
                } else if *op == '/' {
                    let dem = b.real.mul(&b.real).add(&b.imag.mul(&b.imag));
                    if dem.is_zero_fast() {
                        assert forall|o: spec_fn(Expr, NumericTest) -> bool, n: spec_fn(Seq<char>) -> (int, int)|
                            agreeing(*numeric, *number, o, n) implies !convertible(cisc_expr@, o, n) by {
                            assert(bv == convert(rhs@, o, n));
                        }
                        return None;
                    }
                    let res = a.div(&b);
                    assert forall|o: spec_fn(Expr, NumericTest) -> bool, n: spec_fn(Seq<char>) -> (int, int)|
                        agreeing(*numeric, *number, o, n) implies res@ == convert(cisc_expr@, o, n)
                        && convertible(cisc_expr@, o, n) by {
                        assert(av == convert(lhs@, o, n) && bv == convert(rhs@, o, n));
                    }
                    Some(res)
                } else if *op == '^' {
                    if a.is_e() {
                        let z = b.real.is_zero(numeric);
                        assert forall|o: spec_fn(Expr, NumericTest) -> bool, n: spec_fn(Seq<char>) -> (int, int)|
                            agreeing(*numeric, *number, o, n) implies z == is_zero(bv.0, o) by {}
                        if !z {
                            assert forall|o: spec_fn(Expr, NumericTest) -> bool, n: spec_fn(Seq<char>) -> (int, int)|
                                agreeing(*numeric, *number, o, n) implies !convertible(cisc_expr@, o, n) by {
                                assert(av == convert(lhs@, o, n) && bv == convert(rhs@, o, n));
                            }
                            return None;
                        }
                        let res = ComplexExpression {
                            real: Expression::Cos(Box::new(b.imag.deep_clone())),
                            imag: Expression::Sin(Box::new(b.imag)),
                        };
                        assert forall|o: spec_fn(Expr, NumericTest) -> bool, n: spec_fn(Seq<char>) -> (int, int)|
                            agreeing(*numeric, *number, o, n) implies res@ == convert(cisc_expr@, o, n)
                            && convertible(cisc_expr@, o, n) by {
                            assert(av == convert(lhs@, o, n) && bv == convert(rhs@, o, n));
                        }
                        Some(res)
                    } else {
                        let za = a.imag.is_zero(numeric);
                        let zb = b.imag.is_zero(numeric);
                        assert forall|o: spec_fn(Expr, NumericTest) -> bool, n: spec_fn(Seq<char>) -> (int, int)|
                            agreeing(*numeric, *number, o, n) implies za == is_zero(av.1, o) && zb == is_zero(
                            bv.1,
                            o,
                        ) by {}
                        if !za || !zb {
                            assert forall|o: spec_fn(Expr, NumericTest) -> bool, n: spec_fn(Seq<char>) -> (int, int)|
                                agreeing(*numeric, *number, o, n) implies !convertible(cisc_expr@, o, n) by {
                                assert(av == convert(lhs@, o, n) && bv == convert(rhs@, o, n));
                            }
                            return None;
                        }
                        let res = ComplexExpression {
                            real: Expression::Pow(Box::new(a.real), Box::new(b.real)),
                            imag: Expression::zero(),
                        };
                        assert forall|o: spec_fn(Expr, NumericTest) -> bool, n: spec_fn(Seq<char>) -> (int, int)|
                            agreeing(*numeric, *number, o, n) implies res@ == convert(cisc_expr@, o, n)
                            && convertible(cisc_expr@, o, n) by {
                            assert(av == convert(lhs@, o, n) && bv == convert(rhs@, o, n));
                        }
                        Some(res)
                    }
                } else {
                    None
                }
            },
            CiscExpression::Call { fn_name, args } => {
                let known = text_is(fn_name, "sqrt") || text_is(fn_name, "sin") || text_is(fn_name, "cos")
                    || text_is(fn_name, "tan") || text_is(fn_name, "csc") || text_is(fn_name, "sec")
                    || text_is(fn_name, "cot");
                if !known || args.len() != 1 {
                    return None;
                }
                assert(cisc_expr@ == Cisc::Call { fn_name: fn_name@, arity: 1, first: Box::new(args@[0]@) });
                let arg = match ComplexExpression::try_new(&args[0], numeric, number) {
                    None => {
                        return None;
                    },
                    Some(arg) => arg,
                };
                let ghost argv = arg@;
                let real_arg = arg.imag.is_zero(numeric);
                assert forall|o: spec_fn(Expr, NumericTest) -> bool, n: spec_fn(Seq<char>) -> (int, int)|
                    agreeing(*numeric, *number, o, n) implies real_arg == is_zero(argv.1, o) by {}
                if !real_arg {
                    assert forall|o: spec_fn(Expr, NumericTest) -> bool, n: spec_fn(Seq<char>) -> (int, int)|
                        agreeing(*numeric, *number, o, n) implies !convertible(cisc_expr@, o, n) by {
                        assert(argv == convert(args@[0]@, o, n));
                    }
                    return None;
                }
                let f = apply_function(fn_name, arg.real);
                let res = ComplexExpression { real: f, imag: Expression::zero() };
                assert forall|o: spec_fn(Expr, NumericTest) -> bool, n: spec_fn(Seq<char>) -> (int, int)|
                    agreeing(*numeric, *number, o, n) implies res@ == convert(cisc_expr@, o, n)
                    && convertible(cisc_expr@, o, n) by {
                    assert(argv == convert(args@[0]@, o, n));
                }
                Some(res)
            },
        }
    }
}

} // verus!
