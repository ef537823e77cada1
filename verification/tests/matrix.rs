use openqudit::bra::{BraExpression, BraSystemExpression};
use openqudit::complex::ComplexExpression;
use openqudit::directive::{CircuitError, DirectiveOperation};
use openqudit::expression::Expression;
use openqudit::ket::{KetExpression, ZeroState};
use openqudit::kraus::KrausOperatorsExpression;
use openqudit::qasm::qasm_gate_name_lookup;
use openqudit::radices::Radices;
use openqudit::tensor::{GenerationShape, IndexDirection, NamedExpression, TensorExpression, TensorIndex};
use openqudit::text::{indexed_name, push_decimal};
use openqudit::unitary::UnitaryExpression;

fn var(name: &str) -> Expression {
    Expression::Variable(name.to_string())
}

fn real_var(name: &str) -> ComplexExpression {
    ComplexExpression { real: var(name), imag: Expression::zero() }
}

fn real_var_is(c: &ComplexExpression, name: &str) -> bool {
    matches!(c.real, Expression::Variable(ref v) if v == name) && c.imag.is_zero_fast()
}

fn strings(v: &[&str]) -> Vec<String> {
    v.iter().map(|s| s.to_string()).collect()
}

fn square(name: &str, vars: &[&str], entries: &[&str]) -> UnitaryExpression {
    let body = entries.iter().map(|e| real_var(e)).collect();
    let inner = NamedExpression::new(name.to_string(), strings(vars), body);
    let indices = vec![
        TensorIndex::new(IndexDirection::Output, 0, 2),
        TensorIndex::new(IndexDirection::Input, 1, 2),
    ];
    match UnitaryExpression::try_from_tensor(TensorExpression::from_raw(indices, inner)) {
        Ok(u) => u,
        Err(m) => panic!("{}", m),
    }
}

fn abcd() -> UnitaryExpression {
    square("A", &["a", "b", "c", "d"], &["a", "b", "c", "d"])
}

#[test]
fn identity_has_ones_on_the_diagonal() {
    let id = UnitaryExpression::identity("I".to_string(), Radices::new(vec![2]));
    let e = id.elements();
    assert_eq!(e.len(), 4);
    assert!(e[0].is_one_fast() && e[3].is_one_fast());
    assert!(e[1].is_zero_fast() && e[2].is_zero_fast());
    assert_eq!(id.dimension(), 2);
    assert_eq!(id.num_qudits(), 1);
    assert_eq!(id.num_params(), 0);
    assert_eq!(id.name(), "I");
}

#[test]
fn identity_on_two_qudits() {
    let id = UnitaryExpression::identity("I".to_string(), Radices::new(vec![2, 3]));
    assert_eq!(id.dimension(), 6);
    assert_eq!(id.elements().len(), 36);
    assert!(id.elements()[7].is_one_fast());
    assert!(id.elements()[6].is_zero_fast());
}

#[test]
fn transpose_swaps_rows_and_columns() {
    let mut a = abcd();
    a.transpose();
    let e = a.elements();
    assert!(real_var_is(&e[0], "a"));
    assert!(real_var_is(&e[1], "c"));
    assert!(real_var_is(&e[2], "b"));
    assert!(real_var_is(&e[3], "d"));
    a.transpose();
    assert!(real_var_is(&a.elements()[1], "b"));
}

#[test]
fn dagger_conjugates_and_transposes() {
    let mut a = abcd();
    a.dagger();
    let e = a.elements();
    assert!(matches!(e[1].real, Expression::Variable(ref v) if v == "c"));
    assert!(matches!(e[1].imag, Expression::Neg(_)));
    let mut b = abcd();
    b.conjugate();
    assert!(matches!(b.elements()[1].real, Expression::Variable(ref v) if v == "b"));
}

#[test]
fn tensor_with_a_batch_index_is_not_a_unitary() {
    let body = vec![ComplexExpression::one(), ComplexExpression::zero()];
    let inner = NamedExpression::new("B".to_string(), vec![], body);
    let t = TensorExpression::from_raw(vec![TensorIndex::new(IndexDirection::Batch, 0, 2)], inner);
    match UnitaryExpression::try_from_tensor(t) {
        Err(m) => assert_eq!(m, "Cannot convert a tensor with non-input, non-output indices to an isometry."),
        Ok(_) => panic!("a batch index was accepted"),
    }
}

#[test]
fn non_square_tensor_is_not_a_unitary() {
    let body = (0..6).map(|_| ComplexExpression::zero()).collect();
    let inner = NamedExpression::new("R".to_string(), vec![], body);
    let indices = vec![
        TensorIndex::new(IndexDirection::Output, 0, 2),
        TensorIndex::new(IndexDirection::Input, 1, 3),
    ];
    match UnitaryExpression::try_from_tensor(TensorExpression::from_raw(indices, inner)) {
        Err(m) => assert_eq!(m, "Non-square matrix tensor cannot be converted to a unitary."),
        Ok(_) => panic!("a non-square tensor was accepted"),
    }
}

#[test]
fn unitary_tensor_round_trip() {
    let a = abcd();
    let t = a.clone().into_tensor();
    let idx = t.indices().clone();
    assert_eq!(idx.len(), 2);
    assert_eq!(idx[0].direction(), IndexDirection::Output);
    assert_eq!(idx[1].direction(), IndexDirection::Input);
    assert_eq!(idx[1].index_size(), 2);
    let back = UnitaryExpression::try_from_tensor(t).ok().unwrap();
    assert_eq!(back.name(), "A");
    assert_eq!(back.radices().to_vec(), vec![2]);
    assert!(real_var_is(&back.elements()[2], "c"));
}

#[test]
fn embed_writes_the_block_and_merges_variables() {
    let mut id = UnitaryExpression::identity("I".to_string(), Radices::new(vec![2, 2]));
    id.embed(abcd(), 1, 1);
    let e = id.elements();
    assert!(e[0].is_one_fast());
    assert!(real_var_is(&e[5], "a"));
    assert!(real_var_is(&e[6], "b"));
    assert!(real_var_is(&e[9], "c"));
    assert!(real_var_is(&e[10], "d"));
    assert!(e[15].is_one_fast());
    assert!(e[4].is_zero_fast());
    assert_eq!(id.variables(), &strings(&["a", "b", "c", "d"]));
}

#[test]
fn otimes_renames_and_multiplies() {
    let a = square("A", &["a"], &["a", "a", "a", "a"]);
    let id = UnitaryExpression::identity("I".to_string(), Radices::new(vec![2]));
    let p = a.otimes(&id);
    assert_eq!(p.name(), "A ⊗ I");
    assert_eq!(p.variables(), &strings(&["x0"]));
    assert_eq!(p.radices().to_vec(), vec![2, 2]);
    assert_eq!(p.dimension(), 4);
    let e = p.elements();
    assert!(real_var_is(&e[0], "x0"));
    assert!(e[1].is_zero_fast());
    assert!(real_var_is(&e[5], "x0"));
}

#[test]
fn dot_sums_products() {
    let a = abcd();
    let id = UnitaryExpression::identity("I".to_string(), Radices::new(vec![2]));
    let p = a.dot(&id);
    assert_eq!(p.name(), "A ⋅ I");
    assert_eq!(p.variables(), &strings(&["x0", "x1", "x2", "x3"]));
    let e = p.elements();
    assert!(real_var_is(&e[0], "x0"));
    assert!(real_var_is(&e[1], "x1"));
    assert!(real_var_is(&e[2], "x2"));
    assert!(real_var_is(&e[3], "x3"));
}

#[test]
fn dot_of_two_parameterized_matrices_numbers_all_variables() {
    let a = square("A", &["p"], &["p", "p", "p", "p"]);
    let b = square("B", &["q"], &["q", "q", "q", "q"]);
    let p = a.dot(&b);
    assert_eq!(p.variables(), &strings(&["x0", "x1"]));
    assert_eq!(p.elements()[0].get_unique_variables(), strings(&["x0", "x1"]));
}

#[test]
fn qasm_names_of_standard_gates() {
    assert_eq!(qasm_gate_name_lookup("Controlled(X)_subbed_subbed", 2, 0), Some("cx"));
    assert_eq!(qasm_gate_name_lookup("Stacked_RZ", 1, 1), Some("rz"));
    assert_eq!(qasm_gate_name_lookup("U", 1, 3), Some("U"));
    assert_eq!(qasm_gate_name_lookup("Controlled(X)", 5, 0), Some("c4x"));
    assert_eq!(qasm_gate_name_lookup("Dagger(SX)", 1, 0), Some("sxdg"));
    assert_eq!(qasm_gate_name_lookup("X", 2, 0), None);
    assert_eq!(qasm_gate_name_lookup("Foo", 1, 0), None);
    assert_eq!(qasm_gate_name_lookup("_subbed", 1, 0), None);
    let id = UnitaryExpression::identity("I".to_string(), Radices::new(vec![2]));
    assert_eq!(id.qasm_name(), Some("id"));
    assert_eq!(abcd().qasm_name(), None);
}

#[test]
fn classically_control_stacks_identity_and_the_gate() {
    let a = abcd();
    let s = a.classically_control(&[1], &[2]);
    assert_eq!(s.name(), "Stacked_A");
    assert_eq!(s.variables(), &strings(&["a", "b", "c", "d"]));
    assert_eq!(s.batch_radices(), vec![2]);
    let e = s.elements();
    assert_eq!(e.len(), 8);
    assert!(e[0].is_one_fast() && e[1].is_zero_fast() && e[3].is_one_fast());
    assert!(real_var_is(&e[4], "a"));
    assert!(real_var_is(&e[7], "d"));
}

#[test]
fn classically_multiplex_renames_each_block() {
    let a = abcd();
    let id = UnitaryExpression::identity("I".to_string(), Radices::new(vec![2]));
    let s = UnitaryExpression::classically_multiplex(&[&a, &id], &[2]);
    assert_eq!(s.name(), "Multiplexed_A_I");
    assert_eq!(s.variables(), &strings(&["alpha_0", "alpha_1", "alpha_2", "alpha_3"]));
    let e = s.elements();
    assert!(real_var_is(&e[0], "alpha_0"));
    assert!(real_var_is(&e[3], "alpha_3"));
    assert!(e[4].is_one_fast());
    let same = UnitaryExpression::classically_multiplex(&[&id, &id], &[2]);
    assert_eq!(same.name(), "Multiplexed_I");
    let twice = UnitaryExpression::classically_multiplex(&[&a, &a], &[2]);
    assert_eq!(twice.name(), "Multiplexed_A");
    assert!(real_var_is(&twice.elements()[4], "alpha_4"));
}

#[test]
fn set_radices_keeps_the_dimension() {
    let mut id = UnitaryExpression::identity("I".to_string(), Radices::new(vec![2, 2]));
    id.set_radices(Radices::new(vec![4]));
    assert_eq!(id.num_qudits(), 1);
    assert_eq!(id.dimension(), 4);
}

#[test]
fn kets_of_the_zero_state() {
    let k = KetExpression::zero(Radices::new(vec![3]));
    assert_eq!(k.name(), "zero");
    assert_eq!(k.num_qudits(), 1);
    let e = k.elements();
    assert_eq!(e.len(), 3);
    assert!(e[0].is_one_fast() && e[1].is_zero_fast() && e[2].is_zero_fast());
    let z = ZeroState(2);
    assert_eq!(z.name(), "Zero");
    assert_eq!(z.radices().to_vec(), vec![2]);
    assert!(z.elements()[0].is_one_fast() && z.elements()[1].is_zero_fast());
}

#[test]
fn ket_tensor_conversions() {
    let k = KetExpression::zero(Radices::new(vec![2, 3]));
    let back = KetExpression::try_from_tensor(k.into_tensor()).ok().unwrap();
    assert_eq!(back.radices().to_vec(), vec![2, 3]);
    let unit = KetExpression::zero(Radices::new(vec![1]));
    let shrunk = KetExpression::try_from_tensor(unit.into_tensor()).ok().unwrap();
    assert_eq!(shrunk.num_qudits(), 0);
    let inner = NamedExpression::new("k".to_string(), vec![], vec![ComplexExpression::one(), ComplexExpression::zero()]);
    let t = TensorExpression::from_raw(vec![TensorIndex::new(IndexDirection::Input, 0, 2)], inner);
    match KetExpression::try_from_tensor(t) {
        Err(m) => assert_eq!(m, "Cannot convert a tensor with non-output indices to a ket."),
        Ok(_) => panic!("an input index was accepted"),
    }
}

fn entries(n: usize) -> Vec<ComplexExpression> {
    (0..n).map(|_| ComplexExpression::one()).collect()
}

#[test]
fn bras_from_tensors() {
    let inner = NamedExpression::new("b".to_string(), vec![], entries(2));
    let t = TensorExpression::from_raw(vec![TensorIndex::new(IndexDirection::Input, 0, 2)], inner);
    let b = BraExpression::try_from_tensor(t).ok().unwrap();
    assert_eq!(b.num_qudits(), 1);
    let back = BraExpression::try_from_tensor(b.into_tensor()).ok().unwrap();
    assert_eq!(back.radices().to_vec(), vec![2]);
    let inner = NamedExpression::new("b".to_string(), vec![], entries(2));
    let t = TensorExpression::from_raw(vec![TensorIndex::new(IndexDirection::Output, 0, 2)], inner);
    match BraExpression::try_from_tensor(t) {
        Err(m) => assert_eq!(m, "Cannot convert a tensor with non-input indices to a bra."),
        Ok(_) => panic!("an output index was accepted"),
    }
}

#[test]
fn bra_systems_from_tensors() {
    let inner = NamedExpression::new("s".to_string(), vec![], entries(12));
    let indices = vec![
        TensorIndex::new(IndexDirection::Batch, 0, 3),
        TensorIndex::new(IndexDirection::Output, 1, 1),
        TensorIndex::new(IndexDirection::Batch, 2, 2),
        TensorIndex::new(IndexDirection::Input, 3, 2),
    ];
    let s = BraSystemExpression::try_from_tensor(TensorExpression::from_raw(indices, inner)).ok().unwrap();
    assert_eq!(s.num_states(), 6);
    assert_eq!(s.num_qudits(), 1);
    let back = BraSystemExpression::try_from_tensor(s.into_tensor()).ok().unwrap();
    assert_eq!(back.num_states(), 6);
    let inner = NamedExpression::new("s".to_string(), vec![], entries(4));
    let indices = vec![
        TensorIndex::new(IndexDirection::Output, 0, 2),
        TensorIndex::new(IndexDirection::Input, 1, 2),
    ];
    match BraSystemExpression::try_from_tensor(TensorExpression::from_raw(indices, inner)) {
        Err(m) => assert_eq!(m, "Cannot convert a tensor with non-input or batch indices to a bra system."),
        Ok(_) => panic!("a wide output index was accepted"),
    }
    let inner = NamedExpression::new("s".to_string(), vec![], entries(2));
    let t = TensorExpression::from_raw(vec![TensorIndex::new(IndexDirection::Input, 0, 2)], inner);
    let single = BraSystemExpression::try_from_tensor(t).ok().unwrap();
    assert_eq!(single.num_states(), 1);
}

#[test]
fn kraus_operators_from_tensors() {
    let inner = NamedExpression::new("k".to_string(), vec![], entries(8));
    let indices = vec![
        TensorIndex::new(IndexDirection::Batch, 0, 2),
        TensorIndex::new(IndexDirection::Output, 1, 2),
        TensorIndex::new(IndexDirection::Input, 2, 2),
    ];
    let k = KrausOperatorsExpression::try_from_tensor(TensorExpression::from_raw(indices, inner)).ok().unwrap();
    assert_eq!(k.num_operators(), 2);
    assert_eq!(k.num_qudits(), 1);
    assert_eq!(k.elements().len(), 8);
    let back = KrausOperatorsExpression::try_from_tensor(k.into_tensor()).ok().unwrap();
    assert_eq!(back.num_operators(), 2);
}

#[test]
fn directives_from_discriminants() {
    assert_eq!(DirectiveOperation::try_from_u64(0).ok(), Some(DirectiveOperation::Barrier));
    assert_eq!(DirectiveOperation::try_from_usize(0).ok(), Some(DirectiveOperation::Barrier));
    match DirectiveOperation::try_from_u64(1) {
        Err(CircuitError::GenericError(m)) => assert_eq!(m, "Invalid directive operation discriminant provided."),
        Ok(_) => panic!("an unknown discriminant was accepted"),
    }
    assert!(DirectiveOperation::try_from_usize(7).is_err());
    assert_eq!(DirectiveOperation::Barrier.specialize(()).ok(), Some(DirectiveOperation::Barrier));
}

#[test]
fn generated_names_and_numerals() {
    assert_eq!(indexed_name("x", 12), "x12");
    assert_eq!(indexed_name("alpha_", 0), "alpha_0");
    let mut s = "n=".to_string();
    push_decimal(&mut s, 9070);
    assert_eq!(s, "n=9070");
}

#[test]
fn radices_dimension_and_concat() {
    let r = Radices::new(vec![2, 3]);
    assert_eq!(r.dimension(), 6);
    assert_eq!(r.num_qudits(), 2);
    let c = r.concat(&Radices::new(vec![4]));
    assert_eq!(c.to_vec(), vec![2, 3, 4]);
    assert_eq!(c.dimension(), 24);
    assert_eq!(Radices::new(vec![]).dimension(), 1);
}

#[test]
fn identity_is_its_own_transpose() {
    let mut id = UnitaryExpression::identity("I".to_string(), Radices::new(vec![3]));
    id.transpose();
    for k in 0..9 {
        assert_eq!(id.elements()[k].is_one_fast(), k % 4 == 0);
        assert!(id.elements()[k].is_one_fast() || id.elements()[k].is_zero_fast());
    }
}

#[test]
fn identity_products_are_identities() {
    let a = UnitaryExpression::identity("I".to_string(), Radices::new(vec![2]));
    let b = UnitaryExpression::identity("J".to_string(), Radices::new(vec![3]));
    let t = a.otimes(&b);
    assert_eq!(t.dimension(), 6);
    for p in 0..6 {
        for q in 0..6 {
            let e = &t.elements()[p * 6 + q];
            assert_eq!(e.is_one_fast(), p == q);
            assert!(e.is_one_fast() || e.is_zero_fast());
        }
    }
    let c = UnitaryExpression::identity("K".to_string(), Radices::new(vec![3]));
    let d = b.dot(&c);
    for p in 0..3 {
        for q in 0..3 {
            let e = &d.elements()[p * 3 + q];
            assert_eq!(e.is_one_fast(), p == q);
            assert!(e.is_one_fast() || e.is_zero_fast());
        }
    }
}

#[test]
fn generation_shapes() {
    let u = UnitaryExpression::identity("I".to_string(), Radices::new(vec![2, 3]));
    assert_eq!(u.generation_shape(), GenerationShape::Matrix(6, 6));
    let k = KetExpression::zero(Radices::new(vec![3]));
    assert_eq!(k.generation_shape(), GenerationShape::Matrix(3, 1));
    let inner = NamedExpression::new("b".to_string(), vec![], entries(4));
    let t = TensorExpression::from_raw(vec![TensorIndex::new(IndexDirection::Input, 0, 4)], inner);
    let b = BraExpression::try_from_tensor(t).ok().unwrap();
    assert_eq!(b.generation_shape(), GenerationShape::Vector(4));
    let inner = NamedExpression::new("s".to_string(), vec![], entries(6));
    let indices = vec![TensorIndex::new(IndexDirection::Batch, 0, 3), TensorIndex::new(IndexDirection::Input, 1, 2)];
    let s = BraSystemExpression::try_from_tensor(TensorExpression::from_raw(indices, inner)).ok().unwrap();
    assert_eq!(s.generation_shape(), GenerationShape::Tensor3D(3, 1, 2));
    let inner = NamedExpression::new("k".to_string(), vec![], entries(12));
    let indices = vec![
        TensorIndex::new(IndexDirection::Batch, 0, 2),
        TensorIndex::new(IndexDirection::Output, 1, 3),
        TensorIndex::new(IndexDirection::Input, 2, 2),
    ];
    let k = KrausOperatorsExpression::try_from_tensor(TensorExpression::from_raw(indices, inner)).ok().unwrap();
    assert_eq!(k.generation_shape(), GenerationShape::Tensor3D(2, 3, 2));
}

#[test]
fn embed_keeps_each_variable_once() {
    let mut target = square("T", &["b", "c"], &["b", "c", "c", "b"]);
    let inner = NamedExpression::new("S".to_string(), strings(&["a", "b"]), vec![real_var("a")]);
    let indices = vec![
        TensorIndex::new(IndexDirection::Output, 0, 1),
        TensorIndex::new(IndexDirection::Input, 1, 1),
    ];
    let sub = UnitaryExpression::try_from_tensor(TensorExpression::from_raw(indices, inner)).ok().unwrap();
    target.embed(sub, 1, 0);
    assert_eq!(target.variables(), &strings(&["b", "c", "a"]));
    assert!(real_var_is(&target.elements()[2], "a"));
    assert!(real_var_is(&target.elements()[3], "b"));
}

#[test]
fn classically_control_over_an_empty_register() {
    let a = abcd();
    let s = a.classically_control(&[], &[0]);
    assert_eq!(s.batch_radices(), vec![0]);
    assert_eq!(s.elements().len(), 0);
}
