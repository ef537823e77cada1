//! Symbolic bras (row vectors) and systems of bras over a qudit system.

use crate::complex::ComplexExpression;
use crate::expression::Expr;
use crate::radices::{all_positive, lemma_product_prefix, product, Radices};
use crate::tensor::{
    dir_sizes, lemma_dir_sizes_positive, lemma_product_push, sizes, GenerationShape, IndexDirection, NamedExpression, TensorExpression, TensorIndex,
    TensorModel,
};
use crate::unitary::cmodels;
use crate::variables::names;
use vstd::prelude::*;

verus! {

/// The model of a [`BraExpression`].
pub struct BraModel {
    pub name: Seq<char>,
    pub variables: Seq<Seq<char>>,
    pub body: Seq<(Expr, Expr)>,
    pub radices: Seq<usize>,
}

/// A row vector whose entries are symbolic complex expressions over named
/// variables, on a qudit system with the given radices.
pub struct BraExpression {
    name: String,
    variables: Vec<String>,
    body: Vec<ComplexExpression>,
    radices: Radices,
}

impl View for BraExpression {
    type V = BraModel;

    closed spec fn view(&self) -> BraModel {
        BraModel {
            name: self.name@,
            variables: names(self.variables@),
            body: cmodels(self.body@),
            radices: self.radices@,
        }
    }
}

/// Some index of `s` is not an input index.
pub open spec fn has_non_input(s: Seq<TensorIndex>) -> bool {
    exists|k: int| 0 <= k < s.len() && (#[trigger] s[k]).direction != IndexDirection::Input
}

/// The bra that the tensor `t` denotes, or the message of the error: a
/// tensor with an index that is not an input index is refused.
pub open spec fn bra_from_tensor(t: TensorModel) -> Result<BraModel, Seq<char>> {
    if has_non_input(t.indices) {
        Err("Cannot convert a tensor with non-input indices to a bra."@)
    } else {
        Ok(BraModel { name: t.name, variables: t.variables, body: t.body, radices: sizes(t.indices) })
    }
}

/// The indices of a bra on `radices`: an input index for each radix.
pub open spec fn bra_indices(radices: Seq<usize>) -> Seq<TensorIndex> {
    Seq::new(
        radices.len(),
        |k: int| TensorIndex { direction: IndexDirection::Input, index: k as usize, size: radices[k] },
    )
}

impl BraExpression {
    #[verifier::type_invariant]
    closed spec fn well_formed(self) -> bool {
        &&& all_positive(self.radices@)
        &&& self.body@.len() == product(self.radices@)
    }

    /// The bra that a tensor denotes, as [`bra_from_tensor`] says.
    pub fn try_from_tensor(value: TensorExpression) -> (r: Result<BraExpression, String>)
        ensures
            match r {
                Ok(b) => bra_from_tensor(value@) == Ok::<BraModel, Seq<char>>(b@),
                Err(m) => bra_from_tensor(value@) == Err::<BraModel, Seq<char>>(m@),
            },
    {
        let ghost t = value@;
        let (indices, inner) = value.into_parts();
        let ghost s = indices@;
        let mut radices: Vec<usize> = Vec::new();
        let mut i: usize = 0;
        while i < indices.len()
            invariant
                t == value@,
                s == indices@,
                s == t.indices,
                i <= s.len(),
                forall|k: int| 0 <= k < i ==> (#[trigger] s[k]).direction == IndexDirection::Input,
                radices@ == sizes(s).take(i as int),
            decreases s.len() - i,
        {
            if indices[i].direction() != IndexDirection::Input {
                assert(has_non_input(s) && s[i as int].direction != IndexDirection::Input);
                return Err("Cannot convert a tensor with non-input indices to a bra.".to_owned());
            }
            radices.push(indices[i].index_size());
            i = i + 1;
            assert(radices@ =~= sizes(s).take(i as int));
        }
        assert(radices@ =~= sizes(s));
        let (name, variables, body) = inner.into_parts();
        Ok(BraExpression { name, variables, body, radices: Radices::new(radices) })
    }

    /// The tensor of this bra, with the indices of [`bra_indices`].
    pub fn into_tensor(self) -> (r: TensorExpression)
        ensures
            r@ == (TensorModel {
                indices: bra_indices(self@.radices),
                name: self@.name,
                variables: self@.variables,
                body: self@.body,
            }),
    {
        proof {
            use_type_invariant(&self);
        }
        let radices = self.radices.to_vec();
        let ghost rs = radices@;
        let mut indices: Vec<TensorIndex> = Vec::new();
        let mut k: usize = 0;
        while k < radices.len()
            invariant
                rs == radices@,
                k <= rs.len(),
                indices@ =~= bra_indices(rs).take(k as int),
            decreases rs.len() - k,
        {
            indices.push(TensorIndex::new(IndexDirection::Input, k, radices[k]));
            k = k + 1;
        }
        assert(indices@ =~= bra_indices(rs));
        assert(sizes(indices@) =~= rs);
        let BraExpression { name, variables, body, radices: _ } = self;
        TensorExpression::from_raw(indices, NamedExpression::new(name, variables, body))
    }

    /// The name of this expression.
    pub fn name(&self) -> (r: &str)
        ensures
            r@ == self@.name,
    {
        self.name.as_str()
    }

    /// The names of the variables, in parameter order.
    pub fn variables(&self) -> (r: &Vec<String>)
        ensures
            names(r@) == self@.variables,
    {
        &self.variables
    }

    /// The entries, in order.
    pub fn elements(&self) -> (r: &Vec<ComplexExpression>)
        ensures
            cmodels(r@) == self@.body,
            r@.len() == product(self@.radices),
    {
        proof {
            use_type_invariant(self);
        }
        &self.body
    }

    /// The radices of the system.
    pub fn radices(&self) -> (r: Radices)
        ensures
            r@ == self@.radices,
    {
        self.radices.clone()
    }

    /// The number of qudits of the system.
    pub fn num_qudits(&self) -> (r: usize)
        ensures
            r == self@.radices.len(),
    {
        self.radices.num_qudits()
    }

    /// The shape of the evaluated vector: the dimension.
    pub fn generation_shape(&self) -> (r: GenerationShape)
        ensures
            r == GenerationShape::Vector(product(self@.radices) as usize),
    {
        proof {
            use_type_invariant(self);
        }
        // The length of the body, a `usize`, bounds the dimensions.
        let _body_len = self.body.len();
        GenerationShape::Vector(self.radices.dimension())
    }
}

/// Converting a bra to its tensor and back gives the same bra.
pub proof fn law_bra_tensor_round_trip(m: BraModel)
    ensures
        bra_from_tensor(
            TensorModel { indices: bra_indices(m.radices), name: m.name, variables: m.variables, body: m.body },
        ) == Ok::<BraModel, Seq<char>>(m),
{
    let u = bra_indices(m.radices);
    assert(sizes(u) =~= m.radices);
    assert(!has_non_input(u));
}

/// The model of a [`BraSystemExpression`].
pub struct BraSystemModel {
    pub name: Seq<char>,
    pub variables: Seq<Seq<char>>,
    pub body: Seq<(Expr, Expr)>,
    pub radices: Seq<usize>,
    pub num_states: nat,
}

/// A batch of bras of one qudit system: `num_states` row vectors, one
/// after another.
pub struct BraSystemExpression {
    name: String,
    variables: Vec<String>,
    body: Vec<ComplexExpression>,
    radices: Radices,
    num_states: usize,
}

impl View for BraSystemExpression {
    type V = BraSystemModel;

    closed spec fn view(&self) -> BraSystemModel {
        BraSystemModel {
            name: self.name@,
            variables: names(self.variables@),
            body: cmodels(self.body@),
            radices: self.radices@,
            num_states: self.num_states as nat,
        }
    }
}

/// Some index of `s` is an output index of a size above one.
pub open spec fn has_wide_output(s: Seq<TensorIndex>) -> bool {
    exists|k: int|
        0 <= k < s.len() && (#[trigger] s[k]).direction == IndexDirection::Output && s[k].size > 1
}

/// The bra system that the tensor `t` denotes, or the message of the
/// error: a tensor with an output index of a size above one is refused. The
/// number of states is the product of the batch sizes.
pub open spec fn bra_system_from_tensor(t: TensorModel) -> Result<BraSystemModel, Seq<char>> {
    if has_wide_output(t.indices) {
        Err("Cannot convert a tensor with non-input or batch indices to a bra system."@)
    } else {
        Ok(
            BraSystemModel {
                name: t.name,
                variables: t.variables,
                body: t.body,
                radices: dir_sizes(t.indices, IndexDirection::Input),
                num_states: product(dir_sizes(t.indices, IndexDirection::Batch)),
            },
        )
    }
}

/// The indices of a system of `n` bras on `radices`: a batch index of size
/// `n`, then an input index for each radix.
pub open spec fn bra_system_indices(n: nat, radices: Seq<usize>) -> Seq<TensorIndex> {
    Seq::new(
        radices.len() + 1,
        |k: int|
            if k == 0 {
                TensorIndex { direction: IndexDirection::Batch, index: 0, size: n as usize }
            } else {
                TensorIndex { direction: IndexDirection::Input, index: k as usize, size: radices[k - 1] }
            },
    )
}

impl BraSystemExpression {
    #[verifier::type_invariant]
    closed spec fn well_formed(self) -> bool {
        &&& all_positive(self.radices@)
        &&& self.num_states >= 1
        &&& self.body@.len() == self.num_states * product(self.radices@)
    }

    /// The bra system that a tensor denotes, as [`bra_system_from_tensor`]
    /// says.
    pub fn try_from_tensor(value: TensorExpression) -> (r: Result<BraSystemExpression, String>)
        ensures
            match r {
                Ok(b) => bra_system_from_tensor(value@) == Ok::<BraSystemModel, Seq<char>>(b@),
                Err(m) => bra_system_from_tensor(value@) == Err::<BraSystemModel, Seq<char>>(m@),
            },
    {
        let ghost t = value@;
        let (indices, inner) = value.into_parts();
        let total = inner.len();
        let ghost s = indices@;
        let mut num_states: Option<usize> = None;
        let mut radices: Vec<usize> = Vec::new();
        let mut i: usize = 0;
        assert(s.take(0) =~= Seq::<TensorIndex>::empty());
        assert(sizes(s.take(0)) =~= Seq::<usize>::empty());
        assert(product(radices@) == 1);
        assert(product(sizes(s.take(0))) == 1);
        assert(product(Seq::<usize>::empty()) == 1);
        while i < indices.len()
            invariant
                t == value@,
                s == indices@,
                s == t.indices,
                all_positive(sizes(s)),
                product(sizes(s)) == total,
                i <= s.len(),
                forall|k: int|
                    0 <= k < i ==> !((#[trigger] s[k]).direction == IndexDirection::Output && s[k].size > 1),
                radices@ == dir_sizes(s.take(i as int), IndexDirection::Input),
                all_positive(radices@),
                match num_states {
                    Some(n) => n == product(dir_sizes(s.take(i as int), IndexDirection::Batch)),
                    None => dir_sizes(s.take(i as int), IndexDirection::Batch).len() == 0,
                },
                product(sizes(s.take(i as int))) == product(dir_sizes(s.take(i as int), IndexDirection::Batch))
                    * product(radices@),
            decreases s.len() - i,
        {
            let idx = indices[i];
            let ghost before = s.take(i as int);
            let ghost next = s.take(i + 1);
            let ghost pb = product(dir_sizes(before, IndexDirection::Batch));
            let ghost pr = product(radices@);
            let ghost x = idx.size as int;
            assert(next.drop_last() =~= before);
            assert(next.last() == idx);
            assert(sizes(next) =~= sizes(before).push(idx.size));
            assert(sizes(s)[i as int] >= 1);
            proof {
                lemma_product_push(sizes(before), idx.size);
                lemma_product_prefix(sizes(s), i + 1);
                assert(sizes(s).take(i + 1) =~= sizes(next));
                lemma_positive_product(radices@);
            }
            match idx.direction() {
                IndexDirection::Batch => {
                    proof {
                        lemma_product_push(dir_sizes(before, IndexDirection::Batch), idx.size);
                        assert(pb * pr * x == (pb * x) * pr) by (nonlinear_arith);
                        assert(pb * x <= pb * x * pr) by (nonlinear_arith)
                            requires
                                pr >= 1,
                                pb * x >= 0,
                        ;
                    }
                    num_states = match num_states {
                        Some(n) => Some(n * idx.index_size()),
                        None => {
                            assert(dir_sizes(before, IndexDirection::Batch) =~= Seq::<usize>::empty());
                            Some(idx.index_size())
                        },
                    };
                },
                IndexDirection::Input => {
                    proof {
                        lemma_product_push(radices@, idx.size);
                        assert(pb * pr * x == pb * (pr * x)) by (nonlinear_arith);
                    }
                    radices.push(idx.index_size());
                },
                IndexDirection::Output => {
                    if idx.index_size() > 1 {
                        assert(has_wide_output(t.indices) && s[i as int].size > 1);
                        return Err(
                            "Cannot convert a tensor with non-input or batch indices to a bra system.".to_owned(),
                        );
                    }
                    assert(pb * pr * 1 == pb * pr);
                },
            }
            i = i + 1;
        }
        assert(s.take(i as int) =~= s);
        let n = match num_states {
            Some(n) => n,
            None => 1,
        };
        proof {
            assert forall|k: int| 0 <= k < dir_sizes(s, IndexDirection::Batch).len() implies #[trigger] dir_sizes(
                s,
                IndexDirection::Batch,
            )[k] >= 1 by {
                lemma_dir_sizes_positive(s, IndexDirection::Batch, k);
            }
            lemma_positive_product(dir_sizes(s, IndexDirection::Batch));
            if num_states is None {
                assert(dir_sizes(s, IndexDirection::Batch) =~= Seq::<usize>::empty());
            }
        }
        let (name, variables, body) = inner.into_parts();
        Ok(BraSystemExpression { name, variables, body, radices: Radices::new(radices), num_states: n })
    }

    /// The tensor of this bra system, with the indices of
    /// [`bra_system_indices`].
    pub fn into_tensor(self) -> (r: TensorExpression)
        requires
            self@.radices.len() + 1 <= usize::MAX,
        ensures
            r@ == (TensorModel {
                indices: bra_system_indices(self@.num_states, self@.radices),
                name: self@.name,
                variables: self@.variables,
                body: self@.body,
            }),
    {
        proof {
            use_type_invariant(&self);
        }
        let radices = self.radices.to_vec();
        let ghost rs = radices@;
        let ghost n = self.num_states as nat;
        let mut indices: Vec<TensorIndex> = Vec::new();
        indices.push(TensorIndex::new(IndexDirection::Batch, 0, self.num_states));
        let mut k: usize = 0;
        while k < radices.len()
            invariant
                rs == radices@,
                rs.len() + 1 <= usize::MAX,
                k <= rs.len(),
                indices@ =~= bra_system_indices(n, rs).take(k + 1),
            decreases rs.len() - k,
        {
            indices.push(TensorIndex::new(IndexDirection::Input, k + 1, radices[k]));
            k = k + 1;
        }
        assert(indices@ =~= bra_system_indices(n, rs));
        assert(sizes(indices@) =~= seq![self.num_states].add(rs));
        proof {
            crate::products::lemma_product_concat(seq![self.num_states], rs);
            assert(seq![self.num_states].drop_last() =~= Seq::<usize>::empty());
            assert(product(Seq::<usize>::empty()) == 1);
            assert(product(seq![self.num_states]) == 1 * self.num_states);
        }
        let BraSystemExpression { name, variables, body, radices: _, num_states: _ } = self;
        TensorExpression::from_raw(indices, NamedExpression::new(name, variables, body))
    }

    /// The name of this expression.
    pub fn name(&self) -> (r: &str)
        ensures
            r@ == self@.name,
    {
        self.name.as_str()
    }

    /// The entries of all bras, one after another.
    pub fn elements(&self) -> (r: &Vec<ComplexExpression>)
        ensures
            cmodels(r@) == self@.body,
            r@.len() == self@.num_states * product(self@.radices),
    {
        proof {
            use_type_invariant(self);
        }
        &self.body
    }

    /// The number of bras.
    pub fn num_states(&self) -> (r: usize)
        ensures
            r == self@.num_states,
    {
        self.num_states
    }

    /// The number of qudits of the system.
    pub fn num_qudits(&self) -> (r: usize)
        ensures
            r == self@.radices.len(),
    {
        self.radices.num_qudits()
    }

    /// The shape of the evaluated bras: the number of states, one row, the
    /// dimension.
    pub fn generation_shape(&self) -> (r: GenerationShape)
        ensures
            r == GenerationShape::Tensor3D(self@.num_states as usize, 1, product(self@.radices) as usize),
    {
        proof {
            use_type_invariant(self);
            lemma_positive_product(self.radices@);
            let p = product(self.radices@);
            let k = self.num_states as int;
            assert(p <= k * p) by (nonlinear_arith)
                requires
                    k >= 1,
                    p >= 1,
            ;
        }
        // The length of the body, a `usize`, bounds the dimensions.
        let _body_len = self.body.len();
        GenerationShape::Tensor3D(self.num_states, 1, self.radices.dimension())
    }
}

/// The roles of the indices of a bra system, counted over a prefix.
proof fn lemma_bra_system_dir_sizes(n: nat, rs: Seq<usize>, k: int)
    requires
        1 <= k <= rs.len() + 1,
    ensures
        dir_sizes(bra_system_indices(n, rs).take(k), IndexDirection::Batch) =~= seq![n as usize],
        dir_sizes(bra_system_indices(n, rs).take(k), IndexDirection::Input) =~= rs.take(k - 1),
    decreases k,
{
    let u = bra_system_indices(n, rs);
    assert(u.take(k).drop_last() =~= u.take(k - 1));
    assert(u.take(k).last() == u[k - 1]);
    if k > 1 {
        lemma_bra_system_dir_sizes(n, rs, k - 1);
        assert(rs.take(k - 2).push(rs[k - 2]) =~= rs.take(k - 1));
    } else {
        assert(u.take(0) =~= Seq::<TensorIndex>::empty());
        assert(dir_sizes(u.take(0), IndexDirection::Batch) =~= Seq::<usize>::empty());
        assert(dir_sizes(u.take(0), IndexDirection::Input) =~= Seq::<usize>::empty());
        assert(Seq::<usize>::empty().push(n as usize) =~= seq![n as usize]);
        assert(rs.take(0) =~= Seq::<usize>::empty());
    }
}

/// Converting a bra system to its tensor and back gives the same system.
pub proof fn law_bra_system_tensor_round_trip(m: BraSystemModel)
    requires
        1 <= m.num_states <= usize::MAX,
    ensures
        bra_system_from_tensor(
            TensorModel {
                indices: bra_system_indices(m.num_states, m.radices),
                name: m.name,
                variables: m.variables,
                body: m.body,
            },
        ) == Ok::<BraSystemModel, Seq<char>>(m),
{
    let u = bra_system_indices(m.num_states, m.radices);
    lemma_bra_system_dir_sizes(m.num_states, m.radices, m.radices.len() + 1int);
    assert(u.take(m.radices.len() + 1int) =~= u);
    assert(m.radices.take(m.radices.len() as int) =~= m.radices);
    assert(seq![m.num_states as usize].drop_last() =~= Seq::<usize>::empty());
    assert(seq![m.num_states as usize].last() == m.num_states as usize);
    assert(product(Seq::<usize>::empty()) == 1);
    assert(product(seq![m.num_states as usize]) == 1 * (m.num_states as usize));
    assert(!has_wide_output(u));
}

/// The product of positive numbers is positive.
proof fn lemma_positive_product(s: Seq<usize>)
    requires
        all_positive(s),
    ensures
        product(s) >= 1,
{
    lemma_product_prefix(s, s.len() as int);
    assert(s.take(s.len() as int) =~= s);
}

} // verus!
