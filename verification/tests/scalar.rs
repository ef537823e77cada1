use openqudit::cisc::CiscExpression;
use openqudit::complex::ComplexExpression;
use openqudit::constant::Constant;
use openqudit::expression::Expression;
use openqudit::varmap::VarMap;
use openqudit::zero_one::NumericTest;

fn var(name: &str) -> Expression {
    Expression::Variable(name.to_string())
}

fn konst(n: i64) -> Expression {
    Expression::from_int(n)
}

fn frac(n: u8, d: u8) -> Constant {
    Constant::from_parts(vec![n], vec![d]).unwrap()
}

fn has_bytes(c: &Constant, numer: Vec<u8>, denom: Vec<u8>) -> bool {
    c.numer_bytes() == numer && c.denom_bytes() == denom
}

fn is_const(e: &Expression, numer: Vec<u8>, denom: Vec<u8>) -> bool {
    match e {
        Expression::Constant(c) => has_bytes(c, numer, denom),
        _ => false,
    }
}

fn no_numeric(_e: &Expression, _t: NumericTest) -> bool {
    false
}

fn no_log(_e: &Expression) -> Constant {
    Constant::zero()
}

#[test]
fn constant_sum_is_reduced() {
    let sum = frac(1, 2).plus(&frac(1, 3));
    assert!(has_bytes(&sum, vec![5], vec![6]));
}

#[test]
fn constant_difference_product_quotient() {
    assert!(has_bytes(&frac(1, 2).minus(&frac(1, 3)), vec![1], vec![6]));
    assert!(has_bytes(&frac(2, 3).times(&frac(3, 4)), vec![1], vec![2]));
    assert!(has_bytes(&frac(1, 2).divided_by(&frac(1, 4)), vec![2], vec![1]));
}

#[test]
fn constant_from_parts_reduces_and_normalizes_sign() {
    assert!(has_bytes(&frac(2, 4), vec![1], vec![2]));
    let neg = Constant::from_parts(vec![1], vec![0xfe]).unwrap();
    assert!(has_bytes(&neg, vec![0xff], vec![2]));
}

#[test]
fn constant_zero_denominator_is_refused() {
    assert!(Constant::from_parts(vec![1], vec![0]).is_none());
    assert!(Constant::from_parts(vec![1], vec![]).is_none());
}

#[test]
fn constant_integers_and_tests() {
    assert!(has_bytes(&Constant::from_int(-3), vec![0xfd], vec![1]));
    assert!(has_bytes(&Constant::from_int(200), vec![200, 0], vec![1]));
    assert!(Constant::zero().numer_is_zero());
    assert!(!Constant::one().numer_is_zero());
    assert!(Constant::one().numer_eq_denom());
    assert!(frac(1, 2).equals(&frac(2, 4)));
    assert!(!frac(1, 2).equals(&frac(1, 3)));
}

#[test]
fn smart_constructors_simplify() {
    let x = var("x");
    assert!(matches!(x.add(&Expression::zero()), Expression::Variable(ref v) if v == "x"));
    assert!(is_const(&konst(2).add(&konst(3)), vec![5], vec![1]));
    assert!(matches!(x.mul(&Expression::one()), Expression::Variable(ref v) if v == "x"));
    assert!(x.mul(&Expression::zero()).is_zero_fast());
    assert!(matches!(x.sub(&var("y")), Expression::Sub(_, _)));
    assert!(matches!(Expression::zero().sub(&x), Expression::Neg(_)));
    assert!(matches!(x.div(&konst(2)), Expression::Div(_, _)));
    assert!(Expression::zero().div(&x).is_zero_fast());
    assert!(is_const(&konst(1).div(&konst(4)), vec![1], vec![4]));
    assert!(matches!(x.neg(), Expression::Neg(_)));
    assert!(Expression::zero().neg().is_zero_fast());
}

#[test]
fn variables_are_found_and_renamed() {
    let e = var("x").mul(&var("y")).add(&var("x"));
    assert!(e.contains_variable("x"));
    assert!(!e.contains_variable("z"));
    assert!(e.is_parameterized());
    assert!(!konst(3).is_parameterized());
    assert_eq!(e.get_unique_variables(), vec!["x".to_string(), "y".to_string()]);
    let renamed = e.rename_variable("x", "z");
    assert!(!renamed.contains_variable("x"));
    assert_eq!(renamed.get_unique_variables(), vec!["z".to_string(), "y".to_string()]);
}

#[test]
fn map_var_names_uses_the_map() {
    let mut m = VarMap::new();
    m.insert("x".to_string(), "a".to_string());
    assert_eq!(m.len(), 1);
    m.insert("x".to_string(), "b".to_string());
    assert_eq!(m.len(), 1);
    assert_eq!(m.get(&"x".to_string()), Some(&"b".to_string()));
    assert_eq!(m.get(&"y".to_string()), None);
    let e = var("x").add(&var("y")).map_var_names(&m);
    assert_eq!(e.get_unique_variables(), vec!["b".to_string(), "y".to_string()]);
}

#[test]
fn fast_eq_matches_operands_crosswise() {
    let a = var("x").add(&var("y"));
    let b = var("y").add(&var("x"));
    assert!(a.fast_eq(&b));
    assert!(!a.fast_eq(&var("x").sub(&var("y"))));
    let half = Expression::Constant(frac(1, 2));
    let also_half = Expression::Constant(frac(2, 4));
    assert!(half.fast_eq(&also_half));
}

#[test]
fn substitute_replaces_matching_subtrees() {
    let e = var("x").add(&var("y"));
    let s = e.substitute(&var("x"), &konst(1));
    assert!(!s.contains_variable("x"));
    match s {
        Expression::Add(l, r) => {
            assert!(is_const(&l, vec![1], vec![1]));
            assert!(matches!(*r, Expression::Variable(ref v) if v == "y"));
        },
        _ => panic!("expected a sum"),
    }
}

#[test]
fn ancestors_are_listed_in_post_order() {
    let e = var("x").mul(&var("y")).add(&var("z"));
    let a = e.get_ancestors("x");
    assert_eq!(a.len(), 3);
    assert!(matches!(a[0], Expression::Variable(ref v) if v == "x"));
    assert!(matches!(a[1], Expression::Mul(_, _)));
    assert!(matches!(a[2], Expression::Add(_, _)));
    assert!(e.get_ancestors("w").is_empty());
}

#[test]
fn derivative_of_a_square() {
    let x = var("x");
    let d = x.mul(&x).differentiate("x", &no_log);
    assert!(d.fast_eq(&Expression::Add(Box::new(var("x")), Box::new(var("x")))));
}

#[test]
fn derivative_of_sine_and_absent_variable() {
    let s = Expression::Sin(Box::new(var("x")));
    let d = s.differentiate("x", &no_log);
    assert!(d.fast_eq(&Expression::Cos(Box::new(var("x")))));
    let e = var("y").mul(&Expression::Sin(Box::new(var("y"))));
    assert!(e.differentiate("x", &no_log).is_zero_fast());
}

#[test]
fn derivative_of_exponential_uses_the_logarithm() {
    let e = Expression::Pow(Box::new(konst(2)), Box::new(var("x")));
    let ln2 = |_b: &Expression| Constant::from_parts(vec![7], vec![10]).unwrap();
    let d = e.differentiate("x", &ln2);
    match d {
        Expression::Mul(l, r) => {
            assert!(matches!(*l, Expression::Pow(_, _)));
            assert!(is_const(&r, vec![7], vec![10]));
        },
        _ => panic!("expected a product"),
    }
}

#[test]
fn zero_and_one_tests_consult_the_numeric_answers() {
    let cos_pi = Expression::Cos(Box::new(Expression::Pi));
    assert!(!cos_pi.is_zero(&no_numeric));
    let yes = |_e: &Expression, t: NumericTest| matches!(t, NumericTest::NearHalfPi);
    assert!(cos_pi.is_zero(&yes));
    let x = var("x");
    assert!(x.sub(&x).is_zero(&no_numeric));
    assert!(!x.sub(&x).is_zero_fast());
    let minus_one = |_e: &Expression, t: NumericTest| matches!(t, NumericTest::MinusOne);
    let neg_one = Expression::Neg(Box::new(konst(-1)));
    assert!(neg_one.is_one(&minus_one));
    assert!(!neg_one.is_one(&no_numeric));
    assert!(konst(1).is_one_fast());
}

#[test]
fn complex_arithmetic_folds_constants() {
    let i = ComplexExpression::i();
    let sq = i.mul(&i);
    assert!(is_const(&sq.real, vec![0xff], vec![1]));
    assert!(sq.imag.is_zero_fast());
    let sum = ComplexExpression::one().add(&ComplexExpression::i());
    assert!(sum.real.is_one_fast());
    assert!(sum.imag.is_one_fast());
    assert!(sum.sub(&ComplexExpression::i()).equals(&ComplexExpression::one()));
    let q = ComplexExpression::one().div(&ComplexExpression::one());
    assert!(q.is_one_fast());
}

#[test]
fn complex_conjugate_negates_the_imaginary_part() {
    let c = ComplexExpression::i().conjugate();
    assert!(c.real.is_zero_fast());
    assert!(matches!(c.imag, Expression::Neg(_)));
    let mut d = ComplexExpression::i();
    d.conjugate_in_place();
    assert!(d.equals(&c));
    assert!(ComplexExpression::i().is_imag_fast());
    assert!(ComplexExpression::one().is_real_fast());
    assert!(!ComplexExpression::one().is_cplx_fast());
}

#[test]
fn complex_variables_and_renaming() {
    let c = ComplexExpression { real: var("a"), imag: var("b").add(&var("a")) };
    assert_eq!(c.get_unique_variables(), vec!["a".to_string(), "b".to_string()]);
    assert!(c.is_parameterized());
    let r = c.rename_variable("a", "z");
    assert_eq!(r.get_unique_variables(), vec!["z".to_string(), "b".to_string()]);
    let s = c.substitute(&var("b"), &konst(0));
    assert_eq!(s.get_unique_variables(), vec!["a".to_string()]);
}

fn number_text(s: &String) -> Constant {
    Constant::from_int(s.parse::<i64>().unwrap())
}

#[test]
fn cisc_sum_with_the_imaginary_unit() {
    let t = CiscExpression::Binary {
        op: '+',
        lhs: Box::new(CiscExpression::Number("1".to_string())),
        rhs: Box::new(CiscExpression::Variable("i".to_string())),
    };
    let c = ComplexExpression::new(&t, &no_numeric, &number_text);
    assert!(c.real.is_one_fast());
    assert!(c.imag.is_one_fast());
}

#[test]
fn cisc_function_calls() {
    let t = CiscExpression::Call {
        fn_name: "tan".to_string(),
        args: vec![CiscExpression::Variable("x".to_string())],
    };
    let c = ComplexExpression::new(&t, &no_numeric, &number_text);
    match c.real {
        Expression::Div(l, r) => {
            assert!(matches!(*l, Expression::Sin(_)));
            assert!(matches!(*r, Expression::Cos(_)));
        },
        _ => panic!("expected a quotient"),
    }
    assert!(c.imag.is_zero_fast());
}

#[test]
fn cisc_euler_formula() {
    let t = CiscExpression::Binary {
        op: '^',
        lhs: Box::new(CiscExpression::Variable("e".to_string())),
        rhs: Box::new(CiscExpression::Binary {
            op: '*',
            lhs: Box::new(CiscExpression::Variable("i".to_string())),
            rhs: Box::new(CiscExpression::Variable("x".to_string())),
        }),
    };
    let c = ComplexExpression::new(&t, &no_numeric, &number_text);
    assert!(c.real.fast_eq(&Expression::Cos(Box::new(var("x")))));
    assert!(c.imag.fast_eq(&Expression::Sin(Box::new(var("x")))));
}

#[test]
fn cisc_pi_and_negation() {
    let t = CiscExpression::Unary { op: '~', expr: Box::new(CiscExpression::Variable("pi".to_string())) };
    let c = ComplexExpression::new(&t, &no_numeric, &number_text);
    assert!(matches!(c.real, Expression::Neg(ref x) if matches!(**x, Expression::Pi)));
    assert!(c.imag.is_zero_fast());
}

#[test]
fn fast_eq_is_reflexive_and_symmetric() {
    let a = Expression::Sin(Box::new(var("x").mul(&konst(3))));
    let b = Expression::Sin(Box::new(konst(3).mul(&var("x"))));
    assert!(a.fast_eq(&a));
    assert_eq!(a.fast_eq(&b), b.fast_eq(&a));
    assert!(a == b);
    assert!(a != Expression::Cos(Box::new(var("x"))));
}

#[test]
fn renaming_to_the_same_name_or_an_absent_name_changes_nothing() {
    let e = var("x").add(&var("y"));
    assert!(e.rename_variable("x", "x").fast_eq(&e));
    assert!(e.rename_variable("w", "v").fast_eq(&e));
}

#[test]
fn complex_ancestors_keep_the_common_subtrees() {
    let x = var("x");
    let c = ComplexExpression { real: x.mul(&var("y")), imag: x.add(&konst(1)) };
    let a = c.get_ancestors("x");
    assert_eq!(a.len(), 1);
    assert!(matches!(a[0], Expression::Variable(ref v) if v == "x"));
    let only_imag = ComplexExpression { real: konst(2), imag: x.add(&konst(1)) };
    assert_eq!(only_imag.get_ancestors("x").len(), 2);
    let only_real = ComplexExpression { real: Expression::Sin(Box::new(var("x"))), imag: konst(2) };
    assert_eq!(only_real.get_ancestors("x").len(), 2);
}

#[test]
fn complex_tests_with_numeric_answers() {
    let x = var("x");
    let c = ComplexExpression { real: x.clone(), imag: x.sub(&x) };
    assert!(c.is_real(&no_numeric));
    assert!(!c.is_real_fast());
    assert!(!c.is_imag(&no_numeric));
    assert!(!c.is_cplx(&no_numeric));
    let d = ComplexExpression { real: x.sub(&x), imag: var("y") };
    assert!(d.is_imag(&no_numeric));
    let e = ComplexExpression { real: var("z"), imag: var("y") };
    assert!(e.is_cplx(&no_numeric));
    assert!(e.is_cplx_fast());
    assert!(!e.is_zero(&no_numeric));
    let z = ComplexExpression { real: x.sub(&x), imag: Expression::zero() };
    assert!(z.is_zero(&no_numeric));
    assert!(!z.is_zero_fast());
    assert!(ComplexExpression::one().is_one(&no_numeric));
}

#[test]
fn complex_assignment_operators() {
    let mut c = ComplexExpression::one();
    c.add_assign(&ComplexExpression::one());
    assert!(is_const(&c.real, vec![2], vec![1]));
    c.mul_assign(&ComplexExpression::i());
    assert!(c.real.is_zero_fast());
    assert!(is_const(&c.imag, vec![2], vec![1]));
    c.sub_assign(&ComplexExpression::i());
    assert!(c.imag.is_one_fast());
    c.div_assign(&ComplexExpression::i());
    assert!(c.real.is_one_fast());
    assert!(c.imag.is_zero_fast());
    let n = ComplexExpression::one().neg();
    assert!(matches!(n.real, Expression::Neg(_)));
    assert!(n.imag.is_zero_fast());
}

#[test]
fn complex_named_values_and_renaming() {
    assert!(matches!(ComplexExpression::pi().real, Expression::Pi));
    let e = ComplexExpression { real: var("e"), imag: Expression::zero() };
    assert!(e.is_e());
    assert!(!ComplexExpression::pi().is_e());
    let mut m = VarMap::new();
    m.insert("e".to_string(), "f".to_string());
    assert!(!e.map_var_names(&m).is_e());
    let s = ComplexExpression { real: Expression::Sin(Box::new(var("t"))), imag: var("t") };
    let d = s.differentiate("t", &no_log);
    assert!(d.real.fast_eq(&Expression::Cos(Box::new(var("t")))));
    assert!(d.imag.is_one_fast());
}

#[test]
fn renaming_by_a_one_entry_map_matches_rename_variable() {
    let e = Expression::Sin(Box::new(var("x").mul(&var("y")))).add(&var("x"));
    let mut m = VarMap::new();
    m.insert("x".to_string(), "q".to_string());
    assert!(e.map_var_names(&m).fast_eq(&e.rename_variable("x", "q")));
    assert!(e.map_var_names(&VarMap::new()).fast_eq(&e));
}

#[test]
fn cisc_conversion_refuses_unsupported_formulas() {
    let num = |s: &str| Box::new(CiscExpression::Number(s.to_string()));
    let v = |s: &str| Box::new(CiscExpression::Variable(s.to_string()));
    let bad_unary = CiscExpression::Unary { op: '!', expr: num("1") };
    assert!(ComplexExpression::try_new(&bad_unary, &no_numeric, &number_text).is_none());
    let bad_binary = CiscExpression::Binary { op: '%', lhs: num("1"), rhs: num("2") };
    assert!(ComplexExpression::try_new(&bad_binary, &no_numeric, &number_text).is_none());
    let by_zero = CiscExpression::Binary { op: '/', lhs: num("1"), rhs: num("0") };
    assert!(ComplexExpression::try_new(&by_zero, &no_numeric, &number_text).is_none());
    let complex_power = CiscExpression::Binary { op: '^', lhs: v("i"), rhs: num("2") };
    assert!(ComplexExpression::try_new(&complex_power, &no_numeric, &number_text).is_none());
    let real_exponential = CiscExpression::Binary { op: '^', lhs: v("e"), rhs: v("x") };
    assert!(ComplexExpression::try_new(&real_exponential, &no_numeric, &number_text).is_none());
    let unknown = CiscExpression::Call { fn_name: "log".to_string(), args: vec![CiscExpression::Variable("x".to_string())] };
    assert!(ComplexExpression::try_new(&unknown, &no_numeric, &number_text).is_none());
    let two_args = CiscExpression::Call {
        fn_name: "sin".to_string(),
        args: vec![CiscExpression::Variable("x".to_string()), CiscExpression::Variable("y".to_string())],
    };
    assert!(ComplexExpression::try_new(&two_args, &no_numeric, &number_text).is_none());
    let complex_arg = CiscExpression::Call { fn_name: "cos".to_string(), args: vec![CiscExpression::Variable("i".to_string())] };
    assert!(ComplexExpression::try_new(&complex_arg, &no_numeric, &number_text).is_none());
    let ok = CiscExpression::Binary { op: '^', lhs: v("x"), rhs: num("2") };
    let c = ComplexExpression::try_new(&ok, &no_numeric, &number_text).unwrap();
    assert!(matches!(c.real, Expression::Pow(_, _)));
}

fn bx(e: Expression) -> Box<Expression> {
    Box::new(e)
}

#[test]
fn fast_eq_keeps_the_order_of_differences_quotients_and_powers() {
    let xy = Expression::Sub(bx(var("x")), bx(var("y")));
    let yx = Expression::Sub(bx(var("y")), bx(var("x")));
    assert!(!xy.fast_eq(&yx));
    assert!(xy.fast_eq(&xy.clone()));
    let dxy = Expression::Div(bx(var("x")), bx(var("y")));
    let dyx = Expression::Div(bx(var("y")), bx(var("x")));
    assert!(!dxy.fast_eq(&dyx));
    let pxy = Expression::Pow(bx(var("x")), bx(var("y")));
    let pyx = Expression::Pow(bx(var("y")), bx(var("x")));
    assert!(!pxy.fast_eq(&pyx));
    let mxy = Expression::Mul(bx(var("x")), bx(var("y")));
    let myx = Expression::Mul(bx(var("y")), bx(var("x")));
    assert!(mxy.fast_eq(&myx));
}

#[test]
fn fast_zero_power_needs_an_exponent_that_cannot_be_zero() {
    let diff = Expression::Sub(bx(var("x")), bx(var("x")));
    let p = Expression::Pow(bx(Expression::zero()), bx(diff));
    assert!(!p.is_zero_fast());
    assert!(!p.is_zero(&no_numeric));
    let q = Expression::Pow(bx(Expression::zero()), bx(konst(2)));
    assert!(q.is_zero_fast());
    assert!(q.is_zero(&no_numeric));
    let r = Expression::Pow(bx(Expression::zero()), bx(Expression::zero()));
    assert!(!r.is_zero_fast());
    let s = Expression::Pow(bx(Expression::zero()), bx(var("x")));
    assert!(s.is_zero_fast());
    assert!(s.is_zero(&no_numeric));
    let t = Expression::Pow(bx(Expression::zero()), bx(Expression::Cos(bx(Expression::Pi))));
    assert!(!t.is_zero_fast());
}

fn constant_mark(c: &Constant) -> String {
    if c.numer_is_zero() {
        "zero".to_string()
    } else {
        "k".to_string()
    }
}

#[test]
fn prefix_text_brackets_every_node() {
    let e = Expression::Add(bx(var("x")), bx(Expression::Sin(bx(Expression::Pi))));
    assert_eq!(e.to_text(&constant_mark), "(+ (x) (sin (pi)))");
    let p = Expression::Pow(bx(konst(2)), bx(Expression::Neg(bx(Expression::zero()))));
    assert_eq!(p.to_text(&constant_mark), "(pow (k) (~ (zero)))");
}

#[test]
fn gather_context_lists_subtrees_names_and_constants() {
    let e = Expression::Mul(bx(var("x")), bx(konst(3)));
    let got = e.gather_context(&constant_mark);
    let want = vec!["(* (x) (k))", "(x)", "x", "(k)", "k"];
    assert_eq!(got, want.iter().map(|s| s.to_string()).collect::<Vec<String>>());
    let pi = Expression::Pi.gather_context(&constant_mark);
    assert_eq!(pi, vec!["(pi)".to_string(), "pi".to_string()]);
}

#[test]
fn gather_context_names_each_text_once() {
    let e = Expression::Add(bx(var("x")), bx(Expression::Mul(bx(var("x")), bx(var("x")))));
    let mut got = e.gather_context(&constant_mark);
    got.sort();
    let mut want: Vec<String> = vec!["(+ (x) (* (x) (x)))", "(x)", "x", "(* (x) (x))"]
        .iter()
        .map(|s| s.to_string())
        .collect();
    want.sort();
    assert_eq!(got, want);
}

fn refuse_log(_e: &Expression) -> Constant {
    panic!("no logarithm is needed here")
}

#[test]
fn derivative_without_a_dependent_exponent_asks_no_logarithm() {
    let e = Expression::Pow(bx(var("x")), bx(konst(3)));
    let d = e.differentiate("x", &refuse_log);
    assert!(d.contains_variable("x"));
    let absent = Expression::Mul(bx(var("y")), bx(Expression::Sin(bx(var("y")))));
    assert!(absent.differentiate("x", &refuse_log).is_zero_fast());
}

fn texts(es: &[Expression]) -> Vec<String> {
    es.iter().map(|e| e.to_text(&constant_mark)).collect()
}

fn sample() -> Expression {
    Expression::Add(
        bx(Expression::Mul(bx(var("x")), bx(var("y")))),
        bx(Expression::Sin(bx(var("x")))),
    )
}

#[test]
fn renaming_back_restores_the_tree() {
    let e = sample();
    let there = e.rename_variable("x", "z");
    assert!(!there.contains_variable("x"));
    let back = there.rename_variable("z", "x");
    assert_eq!(back.to_text(&constant_mark), e.to_text(&constant_mark));
}

#[test]
fn substitution_without_a_match_changes_nothing() {
    let e = sample();
    let s = e.substitute(&var("q"), &konst(5));
    assert_eq!(s.to_text(&constant_mark), e.to_text(&constant_mark));
    let same = e.substitute(&var("x"), &var("x"));
    assert!(same.fast_eq(&e));
    let whole = e.substitute(&e, &e);
    assert!(whole.fast_eq(&e));
}

#[test]
fn derivative_uses_only_the_trees_variables() {
    let e = Expression::Add(
        bx(Expression::Mul(bx(var("x")), bx(var("y")))),
        bx(Expression::Sin(bx(var("z")))),
    );
    let d = e.differentiate("x", &no_log);
    let vars = e.get_unique_variables();
    for v in d.get_unique_variables() {
        assert!(vars.contains(&v));
    }
    assert!(d.contains_variable("y"));
    assert!(!d.contains_variable("z"));
}

#[test]
fn ancestors_are_the_subtrees_with_the_variable_in_post_order() {
    let e = sample();
    let got = texts(&e.get_ancestors("x"));
    assert_eq!(got, vec!["(x)", "(* (x) (y))", "(x)", "(sin (x))", "(+ (* (x) (y)) (sin (x)))"]);
    let y = texts(&e.get_ancestors("y"));
    assert_eq!(y, vec!["(y)", "(* (x) (y))", "(+ (* (x) (y)) (sin (x)))"]);
    assert!(e.get_ancestors("w").is_empty());
}

#[test]
fn products_with_zero_one_and_constants() {
    let x = sample();
    let zero = Expression::zero();
    let one = Expression::one();
    assert!(is_const(&x.mul(&zero), vec![0], vec![1]));
    assert!(is_const(&zero.mul(&x), vec![0], vec![1]));
    assert_eq!(x.mul(&one).to_text(&constant_mark), x.to_text(&constant_mark));
    assert_eq!(one.mul(&x).to_text(&constant_mark), x.to_text(&constant_mark));
    let half = Expression::Constant(frac(1, 2));
    assert!(is_const(&half.mul(&one), vec![1], vec![2]));
    assert!(is_const(&one.mul(&half), vec![1], vec![2]));
    let six = konst(2).mul(&konst(3));
    assert!(is_const(&six, vec![6], vec![1]));
    let third = Expression::Constant(frac(2, 3)).mul(&Expression::Constant(frac(1, 2)));
    assert!(is_const(&third, vec![1], vec![3]));
    let cos_zero = Expression::Cos(bx(Expression::zero()));
    assert!(is_const(&one.mul(&cos_zero), vec![1], vec![1]));
    assert_eq!(cos_zero.mul(&one).to_text(&constant_mark), "(cos (zero))");
}

#[test]
fn equal_fractions_reduce_to_one_pair() {
    let a = Constant::from_parts(vec![2], vec![4]).unwrap();
    let b = Constant::from_parts(vec![3], vec![6]).unwrap();
    assert!(has_bytes(&a, vec![1], vec![2]));
    assert!(has_bytes(&b, vec![1], vec![2]));
    let c = Constant::from_parts(vec![0xfe], vec![0xfc]).unwrap();
    assert!(has_bytes(&c, vec![1], vec![2]));
}

#[test]
fn zero_is_recognised_in_any_byte_length() {
    assert!(Constant::from_parts(vec![1], vec![0, 0]).is_none());
    assert!(Constant::from_parts(vec![1], vec![]).is_none());
    assert!(Constant::from_parts(vec![0, 0], vec![5]).unwrap().numer_is_zero());
    assert!(!Constant::from_parts(vec![0x80], vec![1]).unwrap().numer_is_zero());
    assert!(!Constant::from_parts(vec![0, 1], vec![1]).unwrap().numer_is_zero());
}
