//! Named tensor expressions: a named body of complex entries together with
//! the indices that shape it. The matrix, vector and operator expressions
//! are converted from and to them.

use crate::complex::ComplexExpression;
use crate::expression::Expr;
use crate::radices::{all_positive, product};
use crate::products::lemma_product_concat;
use crate::radices::Radices;
use crate::unitary::{cmodels, dim, UnitaryExpression, UnitaryModel};
use crate::variables::names;
use vstd::prelude::*;

verus! {

/// The role of a tensor index.
#[derive(Clone, Copy, Debug, PartialEq, Eq, Structural)]
pub enum IndexDirection {
    Batch,
    Output,
    Input,
}

/// An index of a tensor: its role, its position and its size.
#[derive(Clone, Copy, Debug)]
pub struct TensorIndex {
    pub direction: IndexDirection,
    pub index: usize,
    pub size: usize,
}

impl TensorIndex {
    /// The index with role `direction`, position `index` and size `size`.
    pub fn new(direction: IndexDirection, index: usize, size: usize) -> (r: TensorIndex)
        ensures
            r == (TensorIndex { direction, index, size }),
    {
        TensorIndex { direction, index, size }
    }

    /// The role of this index.
    pub fn direction(&self) -> (r: IndexDirection)
        ensures
            r == self.direction,
    {
        self.direction
    }

    /// The size of this index.
    pub fn index_size(&self) -> (r: usize)
        ensures
            r == self.size,
    {
        self.size
    }
}

/// The shape of the numeric array that an expression evaluates to.
#[derive(Clone, Copy, Debug, PartialEq, Eq, Structural)]
pub enum GenerationShape {
    Vector(usize),
    Matrix(usize, usize),
    Tensor3D(usize, usize, usize),
}

/// The sizes of the indices `s`, in order.
pub open spec fn sizes(s: Seq<TensorIndex>) -> Seq<usize> {
    s.map_values(|i: TensorIndex| i.size)
}

/// The sizes of those of the indices `s` that have role `d`, in order.
pub open spec fn dir_sizes(s: Seq<TensorIndex>, d: IndexDirection) -> Seq<usize>
    decreases s.len(),
{
    if s.len() == 0 {
        Seq::empty()
    } else if s.last().direction == d {
        dir_sizes(s.drop_last(), d).push(s.last().size)
    } else {
        dir_sizes(s.drop_last(), d)
    }
}

/// Some index of `s` has role `d`.
pub open spec fn has_dir(s: Seq<TensorIndex>, d: IndexDirection) -> bool {
    exists|k: int| 0 <= k < s.len() && (#[trigger] s[k]).direction == d
}

/// The model of a [`NamedExpression`].
pub struct NamedModel {
    pub name: Seq<char>,
    pub variables: Seq<Seq<char>>,
    pub body: Seq<(Expr, Expr)>,
}

/// A named list of complex entries over named variables.
pub struct NamedExpression {
    name: String,
    variables: Vec<String>,
    body: Vec<ComplexExpression>,
}

impl View for NamedExpression {
    type V = NamedModel;

    closed spec fn view(&self) -> NamedModel {
        NamedModel { name: self.name@, variables: names(self.variables@), body: cmodels(self.body@) }
    }
}

impl NamedExpression {
    /// The expression named `name` with the given variables and entries.
    pub fn new(name: String, variables: Vec<String>, body: Vec<ComplexExpression>) -> (r: NamedExpression)
        ensures
            r@ == (NamedModel { name: name@, variables: names(variables@), body: cmodels(body@) }),
            r.body_len() == body@.len(),
    {
        NamedExpression { name, variables, body }
    }

    /// The number of entries.
    pub closed spec fn body_len(&self) -> nat {
        self.body@.len()
    }

    /// The number of entries.
    pub fn len(&self) -> (r: usize)
        ensures
            r == self.body_len(),
            r == self@.body.len(),
    {
        self.body.len()
    }

    /// The parts of this expression: its name, its variables and its entries.
    pub fn into_parts(self) -> (r: (String, Vec<String>, Vec<ComplexExpression>))
        ensures
            r.0@ == self@.name,
            names(r.1@) == self@.variables,
            cmodels(r.2@) == self@.body,
            r.2@.len() == self.body_len(),
    {
        (self.name, self.variables, self.body)
    }
}

/// The model of a [`TensorExpression`].
pub struct TensorModel {
    pub indices: Seq<TensorIndex>,
    pub name: Seq<char>,
    pub variables: Seq<Seq<char>>,
    pub body: Seq<(Expr, Expr)>,
}

/// A named expression whose entries are laid out along the given indices:
/// every index has size at least one, and there is one entry for each
/// combination of index values.
pub struct TensorExpression {
    indices: Vec<TensorIndex>,
    inner: NamedExpression,
}

impl View for TensorExpression {
    type V = TensorModel;

    closed spec fn view(&self) -> TensorModel {
        TensorModel {
            indices: self.indices@,
            name: self.inner@.name,
            variables: self.inner@.variables,
            body: self.inner@.body,
        }
    }
}

impl TensorExpression {
    #[verifier::type_invariant]
    closed spec fn well_formed(self) -> bool {
        &&& all_positive(sizes(self.indices@))
        &&& self.inner.body_len() == product(sizes(self.indices@))
    }

    /// The tensor with the given indices and named body; every index must
    /// have size at least one and the body one entry for each combination
    /// of index values.
    pub fn from_raw(indices: Vec<TensorIndex>, inner: NamedExpression) -> (r: TensorExpression)
        requires
            all_positive(sizes(indices@)),
            inner@.body.len() == product(sizes(indices@)),
        ensures
            r@ == (TensorModel {
                indices: indices@,
                name: inner@.name,
                variables: inner@.variables,
                body: inner@.body,
            }),
    {
        TensorExpression { indices, inner }
    }

    /// The indices of this tensor.
    pub fn indices(&self) -> (r: &Vec<TensorIndex>)
        ensures
            r@ == self@.indices,
    {
        &self.indices
    }

    /// The indices and the named body of this tensor; the body holds one
    /// entry for each combination of index values.
    pub fn into_parts(self) -> (r: (Vec<TensorIndex>, NamedExpression))
        ensures
            r.0@ == self@.indices,
            r.1@ == (NamedModel { name: self@.name, variables: self@.variables, body: self@.body }),
            r.1.body_len() == product(sizes(self@.indices)),
            all_positive(sizes(self@.indices)),
    {
        proof {
            use_type_invariant(&self);
        }
        (self.indices, self.inner)
    }
}

/// The product of a sequence with one more entry.
pub proof fn lemma_product_push(s: Seq<usize>, x: usize)
    ensures
        product(s.push(x)) == product(s) * x,
{
    assert(s.push(x).drop_last() =~= s);
}

/// Whether two lists of sizes are equal.
pub(crate) fn same_sizes(a: &Vec<usize>, b: &Vec<usize>) -> (r: bool)
    ensures
        r == (a@ == b@),
{
    if a.len() != b.len() {
        return false;
    }
    let mut i: usize = 0;
    while i < a.len()
        invariant
            a@.len() == b@.len(),
            i <= a@.len(),
            forall|k: int| 0 <= k < i ==> a@[k] == b@[k],
        decreases a@.len() - i,
    {
        if a[i] != b[i] {
            return false;
        }
        i = i + 1;
    }
    assert(a@ =~= b@);
    true
}

/// The unitary that the tensor `t` denotes, or the message of the error:
/// a tensor with a batch index is refused, and so is one whose input
/// sizes differ from its output sizes.
pub open spec fn unitary_from_tensor(t: TensorModel) -> Result<UnitaryModel, Seq<char>> {
    if has_dir(t.indices, IndexDirection::Batch) {
        Err("Cannot convert a tensor with non-input, non-output indices to an isometry."@)
    } else if dir_sizes(t.indices, IndexDirection::Input) != dir_sizes(t.indices, IndexDirection::Output) {
        Err("Non-square matrix tensor cannot be converted to a unitary."@)
    } else {
        Ok(
            UnitaryModel {
                name: t.name,
                variables: t.variables,
                body: t.body,
                radices: dir_sizes(t.indices, IndexDirection::Input),
            },
        )
    }
}

/// The indices of a unitary on `radices`: an output index for each radix,
/// then an input index for each radix, numbered in that order.
pub open spec fn unitary_indices(radices: Seq<usize>) -> Seq<TensorIndex> {
    Seq::new(
        2 * radices.len(),
        |k: int|
            if k < radices.len() {
                TensorIndex { direction: IndexDirection::Output, index: k as usize, size: radices[k] }
            } else {
                TensorIndex {
                    direction: IndexDirection::Input,
                    index: k as usize,
                    size: radices[k - radices.len()],
                }
            },
    )
}

impl UnitaryExpression {
    /// The unitary that a tensor denotes, as [`unitary_from_tensor`] says.
    pub fn try_from_tensor(value: TensorExpression) -> (r: Result<UnitaryExpression, String>)
        ensures
            match r {
                Ok(u) => unitary_from_tensor(value@) == Ok::<UnitaryModel, Seq<char>>(u@),
                Err(m) => unitary_from_tensor(value@) == Err::<UnitaryModel, Seq<char>>(m@),
            },
    {
        let ghost t = value@;
        let (indices, inner) = value.into_parts();
        let ghost s = indices@;
        let mut input: Vec<usize> = Vec::new();
        let mut output: Vec<usize> = Vec::new();
        let mut i: usize = 0;
        assert(s.take(0) =~= Seq::<TensorIndex>::empty());
        assert(sizes(s.take(0)) =~= Seq::<usize>::empty());
        assert(product(input@) == 1);
        assert(product(output@) == 1);
        assert(product(sizes(s.take(0))) == 1);
        while i < indices.len()
            invariant
                t == value@,
                s == indices@,
                s == t.indices,
                all_positive(sizes(s)),
                i <= s.len(),
                input@ == dir_sizes(s.take(i as int), IndexDirection::Input),
                output@ == dir_sizes(s.take(i as int), IndexDirection::Output),
                !has_dir(s.take(i as int), IndexDirection::Batch),
                product(sizes(s.take(i as int))) == product(input@) * product(output@),
            decreases s.len() - i,
        {
            let idx = indices[i];
            let ghost before = s.take(i as int);
            let ghost next = s.take(i + 1);
            assert(next.drop_last() =~= before);
            assert(next.last() == idx);
            assert(sizes(next) =~= sizes(before).push(idx.size));
            proof {
                lemma_product_push(sizes(before), idx.size);
            }
            match idx.direction() {
                IndexDirection::Input => {
                    proof {
                        lemma_product_push(input@, idx.size);
                        let pi = product(input@);
                        let po = product(output@);
                        let x = idx.size as int;
                        assert(pi * po * x == (pi * x) * po) by (nonlinear_arith);
                    }
                    input.push(idx.index_size());
                },
                IndexDirection::Output => {
                    proof {
                        lemma_product_push(output@, idx.size);
                        let pi = product(input@);
                        let po = product(output@);
                        let x = idx.size as int;
                        assert(pi * po * x == pi * (po * x)) by (nonlinear_arith);
                    }
                    output.push(idx.index_size());
                },
                IndexDirection::Batch => {
                    assert(s[i as int].direction == IndexDirection::Batch);
                    assert(has_dir(t.indices, IndexDirection::Batch));

                    return Err(
                        "Cannot convert a tensor with non-input, non-output indices to an isometry.".to_owned(),
                    );
                },
            }
            proof {
                assert forall|k: int| 0 <= k < next.len() implies (#[trigger] next[k]).direction
                    != IndexDirection::Batch by {
                    if k < i {
                        assert(next[k] == before[k]);
                    }
                }
            }
            i = i + 1;
        }
        assert(s.take(i as int) =~= s);
        if !same_sizes(&input, &output) {
            return Err("Non-square matrix tensor cannot be converted to a unitary.".to_owned());
        }
        proof {
            assert forall|k: int| 0 <= k < input@.len() implies #[trigger] input@[k] >= 1 by {
                lemma_dir_sizes_positive(s, IndexDirection::Input, k);
            }
        }
        let (name, variables, body) = inner.into_parts();
        Ok(UnitaryExpression::from_parts(name, variables, body, Radices::new(input)))
    }

    /// The tensor of this unitary, with the indices of [`unitary_indices`].
    pub fn into_tensor(self) -> (r: TensorExpression)
        requires
            2 * self@.radices.len() <= usize::MAX,
        ensures
            r@ == (TensorModel {
                indices: unitary_indices(self@.radices),
                name: self@.name,
                variables: self@.variables,
                body: self@.body,
            }),
    {
        let d = self.dimension();
        let radices = self.radices().to_vec();
        let ghost rs = radices@;
        let n = radices.len();
        let mut indices: Vec<TensorIndex> = Vec::new();
        let mut k: usize = 0;
        while k < n
            invariant
                n == rs.len(),
                rs == radices@,
                k <= n,
                indices@ =~= unitary_indices(rs).take(k as int),
            decreases n - k,
        {
            indices.push(TensorIndex::new(IndexDirection::Output, k, radices[k]));
            k = k + 1;
        }
        let mut k: usize = 0;
        while k < n
            invariant
                n == rs.len(),
                2 * n <= usize::MAX,
                rs == radices@,
                k <= n,
                indices@ =~= unitary_indices(rs).take(n + k),
            decreases n - k,
        {
            indices.push(TensorIndex::new(IndexDirection::Input, n + k, radices[k]));
            k = k + 1;
        }
        assert(indices@ =~= unitary_indices(rs));
        proof {
            lemma_unitary_sizes(rs);
            lemma_product_concat(rs, rs);
        }
        let name = self.name().to_owned();
        let variables = crate::unitary::clone_names(self.variables());
        let body = crate::unitary::clone_elements(self.elements());
        TensorExpression::from_raw(indices, NamedExpression::new(name, variables, body))
    }
}

/// The sizes of the indices of a unitary on `rs` are `rs` twice over.
proof fn lemma_unitary_sizes(rs: Seq<usize>)
    ensures
        sizes(unitary_indices(rs)) =~= rs + rs,
{
}

/// The sizes of the indices with one role are sizes of indices.
pub(crate) proof fn lemma_dir_sizes_positive(s: Seq<TensorIndex>, d: IndexDirection, k: int)
    requires
        all_positive(sizes(s)),
        0 <= k < dir_sizes(s, d).len(),
    ensures
        dir_sizes(s, d)[k] >= 1,
    decreases s.len(),
{
    let t = s.drop_last();
    assert(sizes(t) =~= sizes(s).drop_last());
    assert forall|j: int| 0 <= j < sizes(t).len() implies #[trigger] sizes(t)[j] >= 1 by {
        assert(sizes(s)[j] >= 1);
    }
    if s.last().direction == d && k == dir_sizes(t, d).len() {
        assert(sizes(s)[s.len() - 1] >= 1);
    } else {
        lemma_dir_sizes_positive(t, d, k);
    }
}

/// The roles of the indices of a unitary on `rs`, counted over a prefix.
proof fn lemma_unitary_dir_sizes(rs: Seq<usize>, k: int)
    requires
        0 <= k <= 2 * rs.len(),
    ensures
        dir_sizes(unitary_indices(rs).take(k), IndexDirection::Output) =~= rs.take(
            if k < rs.len() {
                k
            } else {
                rs.len() as int
            },
        ),
        dir_sizes(unitary_indices(rs).take(k), IndexDirection::Input) =~= rs.take(
            if k < rs.len() {
                0
            } else {
                k - rs.len()
            },
        ),
        !has_dir(unitary_indices(rs).take(k), IndexDirection::Batch),
    decreases k,
{
    let u = unitary_indices(rs);
    if k > 0 {
        lemma_unitary_dir_sizes(rs, k - 1);
        assert(u.take(k).drop_last() =~= u.take(k - 1));
        assert(u.take(k).last() == u[k - 1]);
        if k - 1 < rs.len() {
            assert(rs.take(k - 1).push(rs[k - 1]) =~= rs.take(k));
        } else {
            assert(rs.take(k - 1 - rs.len()).push(rs[k - 1 - rs.len()]) =~= rs.take(k - rs.len()));
        }
        assert forall|j: int| 0 <= j < u.take(k).len() implies (#[trigger] u.take(k)[j]).direction
            != IndexDirection::Batch by {
            assert(u.take(k)[j] == u[j]);
        }
    } else {
        assert(u.take(0) =~= Seq::<TensorIndex>::empty());
    }
}

/// Converting a unitary to its tensor and back gives the same unitary.
pub proof fn law_unitary_tensor_round_trip(m: UnitaryModel)
    ensures
        unitary_from_tensor(
            TensorModel {
                indices: unitary_indices(m.radices),
                name: m.name,
                variables: m.variables,
                body: m.body,
            },
        ) == Ok::<UnitaryModel, Seq<char>>(m),
{
    let u = unitary_indices(m.radices);
    lemma_unitary_dir_sizes(m.radices, 2 * m.radices.len() as int);
    assert(u.take(2 * m.radices.len() as int) =~= u);
    assert(m.radices.take(m.radices.len() as int) =~= m.radices);
}

} // verus!
