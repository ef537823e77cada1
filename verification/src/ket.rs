//! Symbolic kets: column vectors over a qudit system.

use crate::complex::ComplexExpression;
use crate::expression::{one_expr, zero_expr, Expr};
use crate::radices::{all_positive, product, Radices};
use crate::tensor::{
    lemma_product_push, sizes, GenerationShape, IndexDirection, NamedExpression, TensorExpression, TensorIndex,
    TensorModel,
};
use crate::unitary::cmodels;
use crate::variables::names;
use vstd::prelude::*;

verus! {

/// The model of a [`KetExpression`].
pub struct KetModel {
    pub name: Seq<char>,
    pub variables: Seq<Seq<char>>,
    pub body: Seq<(Expr, Expr)>,
    pub radices: Seq<usize>,
}

/// The `k`-th entry of the basis vector for the all-zero state.
pub open spec fn zero_state_entry(k: int) -> (Expr, Expr) {
    if k == 0 {
        (one_expr(), zero_expr())
    } else {
        (zero_expr(), zero_expr())
    }
}

/// A column vector whose entries are symbolic complex expressions over
/// named variables, on a qudit system with the given radices.
pub struct KetExpression {
    name: String,
    variables: Vec<String>,
    body: Vec<ComplexExpression>,
    radices: Radices,
}

impl View for KetExpression {
    type V = KetModel;

    closed spec fn view(&self) -> KetModel {
        KetModel {
            name: self.name@,
            variables: names(self.variables@),
            body: cmodels(self.body@),
            radices: self.radices@,
        }
    }
}

/// The vector of length `d` whose first entry is one and all others zero.
fn zero_state_body(d: usize) -> (r: Vec<ComplexExpression>)
    ensures
        r@.len() == d,
        forall|k: int| 0 <= k < d ==> #[trigger] cmodels(r@)[k] == zero_state_entry(k),
{
    let mut out: Vec<ComplexExpression> = Vec::new();
    let mut k: usize = 0;
    while k < d
        invariant
            k <= d,
            out@.len() == k,
            forall|q: int| 0 <= q < k ==> #[trigger] out@[q]@ == zero_state_entry(q),
        decreases d - k,
    {
        if k == 0 {
            out.push(ComplexExpression::one());
        } else {
            out.push(ComplexExpression::zero());
        }
        k = k + 1;
    }
    out
}

impl KetExpression {
    #[verifier::type_invariant]
    closed spec fn well_formed(self) -> bool {
        &&& all_positive(self.radices@)
        &&& self.body@.len() == product(self.radices@)
    }

    /// The ket of the all-zero basis state on a system with the given
    /// radices, named `zero` and without variables.
    pub fn zero(radices: Radices) -> (r: KetExpression)
        requires
            all_positive(radices@),
            product(radices@) <= usize::MAX,
        ensures
            r@.name == "zero"@,
            r@.variables == Seq::<Seq<char>>::empty(),
            r@.radices == radices@,
            r@.body.len() == product(radices@),
            forall|k: int| 0 <= k < r@.body.len() ==> #[trigger] r@.body[k] == zero_state_entry(k),
    {
        let d = radices.dimension();
        let body = zero_state_body(d);
        let r = KetExpression { name: "zero".to_owned(), variables: Vec::new(), body, radices };
        assert(names(r.variables@) =~= Seq::<Seq<char>>::empty());
        r
    }

    /// The name of this expression.
    pub fn name(&self) -> (r: &str)
        ensures
            r@ == self@.name,
    {
        self.name.as_str()
    }

    /// The names of the variables, in parameter order.
    pub fn variables(&self) -> (r: &Vec<String>)
        ensures
            names(r@) == self@.variables,
    {
        &self.variables
    }

    /// The entries, in order.
    pub fn elements(&self) -> (r: &Vec<ComplexExpression>)
        ensures
            cmodels(r@) == self@.body,
            r@.len() == product(self@.radices),
    {
        proof {
            use_type_invariant(self);
        }
        &self.body
    }

    /// The radices of the system.
    pub fn radices(&self) -> (r: Radices)
        ensures
            r@ == self@.radices,
            all_positive(r@),
    {
        proof {
            use_type_invariant(self);
        }
        self.radices.clone()
    }

    /// The number of qudits of the system.
    pub fn num_qudits(&self) -> (r: usize)
        ensures
            r == self@.radices.len(),
    {
        self.radices.num_qudits()
    }

    /// The shape of the evaluated vector: a column of the dimension.
    pub fn generation_shape(&self) -> (r: GenerationShape)
        ensures
            r == GenerationShape::Matrix(product(self@.radices) as usize, 1),
    {
        proof {
            use_type_invariant(self);
        }
        // The length of the body, a `usize`, bounds the dimensions.
        let _body_len = self.body.len();
        GenerationShape::Matrix(self.radices.dimension(), 1)
    }
}

/// The sizes above one of the indices `s`, in order.
pub open spec fn big_sizes(s: Seq<TensorIndex>) -> Seq<usize>
    decreases s.len(),
{
    if s.len() == 0 {
        Seq::empty()
    } else if s.last().size > 1 {
        big_sizes(s.drop_last()).push(s.last().size)
    } else {
        big_sizes(s.drop_last())
    }
}

/// Some index of `s` is not an output index and has a size other than one.
pub open spec fn has_non_output(s: Seq<TensorIndex>) -> bool {
    exists|k: int|
        0 <= k < s.len() && (#[trigger] s[k]).direction != IndexDirection::Output && s[k].size != 1
}

/// The ket that the tensor `t` denotes, or the message of the error: a
/// tensor with an index of size other than one that is not an output index
/// is refused. The radices are the index sizes above one.
pub open spec fn ket_from_tensor(t: TensorModel) -> Result<KetModel, Seq<char>> {
    if has_non_output(t.indices) {
        Err("Cannot convert a tensor with non-output indices to a ket."@)
    } else {
        Ok(KetModel { name: t.name, variables: t.variables, body: t.body, radices: big_sizes(t.indices) })
    }
}

/// The indices of a ket on `radices`: an output index for each radix.
pub open spec fn ket_indices(radices: Seq<usize>) -> Seq<TensorIndex> {
    Seq::new(
        radices.len(),
        |k: int| TensorIndex { direction: IndexDirection::Output, index: k as usize, size: radices[k] },
    )
}

impl KetExpression {
    /// The ket that a tensor denotes, as [`ket_from_tensor`] says.
    pub fn try_from_tensor(value: TensorExpression) -> (r: Result<KetExpression, String>)
        ensures
            match r {
                Ok(k) => ket_from_tensor(value@) == Ok::<KetModel, Seq<char>>(k@),
                Err(m) => ket_from_tensor(value@) == Err::<KetModel, Seq<char>>(m@),
            },
    {
        let ghost t = value@;
        let (indices, inner) = value.into_parts();
        let ghost s = indices@;
        let mut i: usize = 0;
        while i < indices.len()
            invariant
                t == value@,
                s == indices@,
                s == t.indices,
                i <= s.len(),
                forall|k: int|
                    0 <= k < i ==> (#[trigger] s[k]).direction == IndexDirection::Output || s[k].size == 1,
            decreases s.len() - i,
        {
            if indices[i].direction() != IndexDirection::Output && indices[i].index_size() != 1 {
                assert(has_non_output(s) && s[i as int].size != 1);
                return Err("Cannot convert a tensor with non-output indices to a ket.".to_owned());
            }
            i = i + 1;
        }
        let mut radices: Vec<usize> = Vec::new();
        let mut i: usize = 0;
        assert(s.take(0) =~= Seq::<TensorIndex>::empty());
        assert(sizes(s.take(0)) =~= Seq::<usize>::empty());
        assert(product(radices@) == 1);
        assert(product(sizes(s.take(0))) == 1);
        while i < indices.len()
            invariant
                s == indices@,
                all_positive(sizes(s)),
                i <= s.len(),
                radices@ == big_sizes(s.take(i as int)),
                all_positive(radices@),
                product(sizes(s.take(i as int))) == product(radices@),
            decreases s.len() - i,
        {
            let idx = indices[i];
            let ghost before = s.take(i as int);
            let ghost next = s.take(i + 1);
            assert(next.drop_last() =~= before);
            assert(next.last() == idx);
            assert(sizes(next) =~= sizes(before).push(idx.size));
            assert(sizes(s)[i as int] >= 1);
            proof {
                lemma_product_push(sizes(before), idx.size);
                if idx.size <= 1 {
                    assert(idx.size == 1);
                    assert(product(sizes(before)) * 1 == product(sizes(before)));
                }
            }
            if idx.index_size() > 1 {
                proof {
                    lemma_product_push(radices@, idx.size);
                }
                radices.push(idx.index_size());
            }
            i = i + 1;
        }
        assert(s.take(i as int) =~= s);
        let (name, variables, body) = inner.into_parts();
        Ok(KetExpression { name, variables, body, radices: Radices::new(radices) })
    }

    /// The tensor of this ket, with the indices of [`ket_indices`].
    pub fn into_tensor(self) -> (r: TensorExpression)
        ensures
            r@ == (TensorModel {
                indices: ket_indices(self@.radices),
                name: self@.name,
                variables: self@.variables,
                body: self@.body,
            }),
    {
        proof {
            use_type_invariant(&self);
        }
        let radices = self.radices.to_vec();
        let ghost rs = radices@;
        let mut indices: Vec<TensorIndex> = Vec::new();
        let mut k: usize = 0;
        while k < radices.len()
            invariant
                rs == radices@,
                k <= rs.len(),
                indices@ =~= ket_indices(rs).take(k as int),
            decreases rs.len() - k,
        {
            indices.push(TensorIndex::new(IndexDirection::Output, k, radices[k]));
            k = k + 1;
        }
        assert(indices@ =~= ket_indices(rs));
        assert(sizes(indices@) =~= rs);
        let KetExpression { name, variables, body, radices: _ } = self;
        TensorExpression::from_raw(indices, NamedExpression::new(name, variables, body))
    }
}

/// The sizes above one of the indices of a ket on `rs`, over a prefix.
proof fn lemma_ket_big_sizes(rs: Seq<usize>, k: int)
    requires
        0 <= k <= rs.len(),
        forall|j: int| 0 <= j < rs.len() ==> #[trigger] rs[j] >= 2,
    ensures
        big_sizes(ket_indices(rs).take(k)) =~= rs.take(k),
    decreases k,
{
    let u = ket_indices(rs);
    if k > 0 {
        lemma_ket_big_sizes(rs, k - 1);
        assert(u.take(k).drop_last() =~= u.take(k - 1));
        assert(rs.take(k - 1).push(rs[k - 1]) =~= rs.take(k));
    } else {
        assert(u.take(0) =~= Seq::<TensorIndex>::empty());
    }
}

/// Converting a ket whose radices are all at least two to its tensor and
/// back gives the same ket.
pub proof fn law_ket_tensor_round_trip(m: KetModel)
    requires
        forall|j: int| 0 <= j < m.radices.len() ==> #[trigger] m.radices[j] >= 2,
    ensures
        ket_from_tensor(
            TensorModel { indices: ket_indices(m.radices), name: m.name, variables: m.variables, body: m.body },
        ) == Ok::<KetModel, Seq<char>>(m),
{
    let u = ket_indices(m.radices);
    lemma_ket_big_sizes(m.radices, m.radices.len() as int);
    assert(u.take(m.radices.len() as int) =~= u);
    assert(m.radices.take(m.radices.len() as int) =~= m.radices);
    assert(!has_non_output(u));
}

/// The ket of the zero state of one qudit with radix `radix`, named `Zero`
/// and without variables.
#[allow(non_snake_case)]
pub fn ZeroState(radix: usize) -> (r: KetExpression)
    requires
        radix >= 1,
    ensures
        r@.name == "Zero"@,
        r@.variables == Seq::<Seq<char>>::empty(),
        r@.radices == seq![radix],
        r@.body.len() == radix,
        forall|k: int| 0 <= k < radix ==> #[trigger] r@.body[k] == zero_state_entry(k),
{
    let mut v: Vec<usize> = Vec::new();
    v.push(radix);
    assert(v@ =~= seq![radix]);
    let radices = Radices::new(v);
    let body = zero_state_body(radix);
    proof {
        assert(radices@ == seq![radix]);
        assert(seq![radix].drop_last() =~= Seq::<usize>::empty());
        assert(seq![radix].last() == radix);
        assert(product(Seq::<usize>::empty()) == 1);
        assert(product(seq![radix]) == 1 * radix);
    }
    let r = KetExpression { name: "Zero".to_owned(), variables: Vec::new(), body, radices };
    assert(names(r.variables@) =~= Seq::<Seq<char>>::empty());
    r
}

} // verus!
