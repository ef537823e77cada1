//! Symbolic sets of Kraus operators.

use crate::complex::ComplexExpression;
use crate::expression::Expr;
use crate::radices::{all_positive, lemma_product_prefix, product, Radices};
use crate::products::lemma_product_concat;
use crate::tensor::{
    dir_sizes, lemma_dir_sizes_positive, lemma_product_push, sizes, GenerationShape, IndexDirection, NamedExpression,
    TensorExpression, TensorIndex, TensorModel,
};
use crate::unitary::cmodels;
use crate::variables::names;
use vstd::prelude::*;

verus! {

/// The model of a [`KrausOperatorsExpression`].
pub struct KrausModel {
    pub name: Seq<char>,
    pub variables: Seq<Seq<char>>,
    pub body: Seq<(Expr, Expr)>,
    pub input_radices: Seq<usize>,
    pub output_radices: Seq<usize>,
    pub num_operators: nat,
}

/// A set of `num_operators` operators from a system with the input radices
/// to one with the output radices, their entries one operator after
/// another.
pub struct KrausOperatorsExpression {
    name: String,
    variables: Vec<String>,
    body: Vec<ComplexExpression>,
    input_radices: Radices,
    output_radices: Radices,
    num_operators: usize,
}

impl View for KrausOperatorsExpression {
    type V = KrausModel;

    closed spec fn view(&self) -> KrausModel {
        KrausModel {
            name: self.name@,
            variables: names(self.variables@),
            body: cmodels(self.body@),
            input_radices: self.input_radices@,
            output_radices: self.output_radices@,
            num_operators: self.num_operators as nat,
        }
    }
}

/// The Kraus operators that the tensor `t` denotes: the batch sizes
/// multiply to the number of operators, and the input and output sizes are
/// the radices.
pub open spec fn kraus_from_tensor(t: TensorModel) -> KrausModel {
    KrausModel {
        name: t.name,
        variables: t.variables,
        body: t.body,
        input_radices: dir_sizes(t.indices, IndexDirection::Input),
        output_radices: dir_sizes(t.indices, IndexDirection::Output),
        num_operators: product(dir_sizes(t.indices, IndexDirection::Batch)),
    }
}

/// The indices of `n` operators from `input` to `output` radices: a batch
/// index of size `n`, an output index for each output radix, then an input
/// index for each input radix.
pub open spec fn kraus_indices(n: nat, output: Seq<usize>, input: Seq<usize>) -> Seq<TensorIndex> {
    Seq::new(
        1 + output.len() + input.len(),
        |k: int|
            if k == 0 {
                TensorIndex { direction: IndexDirection::Batch, index: 0, size: n as usize }
            } else if k <= output.len() {
                TensorIndex { direction: IndexDirection::Output, index: k as usize, size: output[k - 1] }
            } else {
                TensorIndex {
                    direction: IndexDirection::Input,
                    index: k as usize,
                    size: input[k - 1 - output.len()],
                }
            },
    )
}

/// The product of positive numbers is positive.
proof fn lemma_positive_product(s: Seq<usize>)
    requires
        all_positive(s),
    ensures
        product(s) >= 1,
{
    lemma_product_prefix(s, s.len() as int);
    assert(s.take(s.len() as int) =~= s);
}

/// The sizes with one role of positive sizes are positive.
proof fn lemma_dir_all_positive(s: Seq<TensorIndex>, d: IndexDirection)
    requires
        all_positive(sizes(s)),
    ensures
        all_positive(dir_sizes(s, d)),
{
    assert forall|k: int| 0 <= k < dir_sizes(s, d).len() implies #[trigger] dir_sizes(s, d)[k] >= 1 by {
        lemma_dir_sizes_positive(s, d, k);
    }
}

impl KrausOperatorsExpression {
    #[verifier::type_invariant]
    closed spec fn well_formed(self) -> bool {
        &&& all_positive(self.input_radices@)
        &&& all_positive(self.output_radices@)
        &&& self.num_operators >= 1
        &&& self.body@.len() == self.num_operators * product(self.output_radices@) * product(
            self.input_radices@,
        )
    }

    /// The Kraus operators that a tensor denotes, as
    /// [`kraus_from_tensor`] says; every tensor is accepted.
    pub fn try_from_tensor(value: TensorExpression) -> (r: Result<KrausOperatorsExpression, String>)
        ensures
            r matches Ok(k) && k@ == kraus_from_tensor(value@),
    {
        let ghost t = value@;
        let (indices, inner) = value.into_parts();
        let total = inner.len();
        let ghost s = indices@;
        let mut num_operators: Option<usize> = None;
        let mut input: Vec<usize> = Vec::new();
        let mut output: Vec<usize> = Vec::new();
        let mut i: usize = 0;
        assert(s.take(0) =~= Seq::<TensorIndex>::empty());
        assert(sizes(s.take(0)) =~= Seq::<usize>::empty());
        assert(product(Seq::<usize>::empty()) == 1);
        while i < indices.len()
            invariant
                s == indices@,
                all_positive(sizes(s)),
                product(sizes(s)) == total,
                i <= s.len(),
                input@ == dir_sizes(s.take(i as int), IndexDirection::Input),
                output@ == dir_sizes(s.take(i as int), IndexDirection::Output),
                match num_operators {
                    Some(n) => n == product(dir_sizes(s.take(i as int), IndexDirection::Batch)),
                    None => dir_sizes(s.take(i as int), IndexDirection::Batch).len() == 0,
                },
                product(sizes(s.take(i as int))) == product(dir_sizes(s.take(i as int), IndexDirection::Batch))
                    * product(output@) * product(input@),
            decreases s.len() - i,
        {
            let idx = indices[i];
            let ghost before = s.take(i as int);
            let ghost next = s.take(i + 1);
            let ghost pb = product(dir_sizes(before, IndexDirection::Batch));
            let ghost po = product(output@);
            let ghost pi = product(input@);
            let ghost x = idx.size as int;
            assert(next.drop_last() =~= before);
            assert(next.last() == idx);
            assert(sizes(next) =~= sizes(before).push(idx.size));
            proof {
                lemma_product_push(sizes(before), idx.size);
                lemma_product_prefix(sizes(s), i + 1);
                assert(sizes(s).take(i + 1) =~= sizes(next));
                assert forall|k: int| 0 <= k < sizes(s.take(i as int)).len() implies #[trigger] sizes(
                    s.take(i as int),
                )[k] >= 1 by {
                    assert(sizes(s)[k] >= 1);
                }
                lemma_dir_all_positive(s.take(i as int), IndexDirection::Input);
                lemma_dir_all_positive(s.take(i as int), IndexDirection::Output);
                lemma_positive_product(input@);
                lemma_positive_product(output@);
            }
            match idx.direction() {
                IndexDirection::Batch => {
                    proof {
                        lemma_product_push(dir_sizes(before, IndexDirection::Batch), idx.size);
                        assert(pb * po * pi * x == (pb * x) * po * pi) by (nonlinear_arith);
                        assert(pb * x <= pb * x * po * pi) by (nonlinear_arith)
                            requires
                                po >= 1,
                                pi >= 1,
                                pb * x >= 0,
                        ;
                    }
                    num_operators = match num_operators {
                        Some(n) => Some(n * idx.index_size()),
                        None => {
                            assert(dir_sizes(before, IndexDirection::Batch) =~= Seq::<usize>::empty());
                            Some(idx.index_size())
                        },
                    };
                },
                IndexDirection::Input => {
                    proof {
                        lemma_product_push(input@, idx.size);
                        assert(pb * po * pi * x == pb * po * (pi * x)) by (nonlinear_arith);
                    }
                    input.push(idx.index_size());
                },
                IndexDirection::Output => {
                    proof {
                        lemma_product_push(output@, idx.size);
                        assert(pb * po * pi * x == pb * (po * x) * pi) by (nonlinear_arith);
                    }
                    output.push(idx.index_size());
                },
            }
            i = i + 1;
        }
        assert(s.take(i as int) =~= s);
        let n = match num_operators {
            Some(n) => n,
            None => 1,
        };
        proof {
            lemma_dir_all_positive(s, IndexDirection::Batch);
            lemma_dir_all_positive(s, IndexDirection::Input);
            lemma_dir_all_positive(s, IndexDirection::Output);
            lemma_positive_product(dir_sizes(s, IndexDirection::Batch));
            if num_operators is None {
                assert(dir_sizes(s, IndexDirection::Batch) =~= Seq::<usize>::empty());
            }
        }
        let (name, variables, body) = inner.into_parts();
        Ok(
            KrausOperatorsExpression {
                name,
                variables,
                body,
                input_radices: Radices::new(input),
                output_radices: Radices::new(output),
                num_operators: n,
            },
        )
    }

    /// The tensor of these operators, with the indices of [`kraus_indices`].
    pub fn into_tensor(self) -> (r: TensorExpression)
        requires
            1 + self@.output_radices.len() + self@.input_radices.len() <= usize::MAX,
        ensures
            r@ == (TensorModel {
                indices: kraus_indices(self@.num_operators, self@.output_radices, self@.input_radices),
                name: self@.name,
                variables: self@.variables,
                body: self@.body,
            }),
    {
        proof {
            use_type_invariant(&self);
        }
        let output = self.output_radices.to_vec();
        let input = self.input_radices.to_vec();
        let ghost os = output@;
        let ghost is = input@;
        let ghost n = self.num_operators as nat;
        let ghost u = kraus_indices(n, os, is);
        let mut indices: Vec<TensorIndex> = Vec::new();
        indices.push(TensorIndex::new(IndexDirection::Batch, 0, self.num_operators));
        let mut k: usize = 0;
        while k < output.len()
            invariant
                os == output@,
                is == input@,
                u == kraus_indices(n, os, is),
                1 + os.len() + is.len() <= usize::MAX,
                k <= os.len(),
                indices@ =~= u.take(k + 1),
            decreases os.len() - k,
        {
            indices.push(TensorIndex::new(IndexDirection::Output, k + 1, output[k]));
            k = k + 1;
        }
        let m = output.len();
        let mut k: usize = 0;
        while k < input.len()
            invariant
                os == output@,
                is == input@,
                m == os.len(),
                u == kraus_indices(n, os, is),
                1 + os.len() + is.len() <= usize::MAX,
                k <= is.len(),
                indices@ =~= u.take(1 + m + k),
            decreases is.len() - k,
        {
            indices.push(TensorIndex::new(IndexDirection::Input, 1 + m + k, input[k]));
            k = k + 1;
        }
        assert(indices@ =~= u);
        assert(sizes(indices@) =~= seq![self.num_operators].add(os).add(is));
        proof {
            lemma_product_concat(seq![self.num_operators], os);
            lemma_product_concat(seq![self.num_operators].add(os), is);
            assert(seq![self.num_operators].drop_last() =~= Seq::<usize>::empty());
            assert(seq![self.num_operators].last() == self.num_operators);
            assert(product(Seq::<usize>::empty()) == 1);
            assert(product(seq![self.num_operators]) == 1 * self.num_operators);
        }
        let KrausOperatorsExpression { name, variables, body, .. } = self;
        TensorExpression::from_raw(indices, NamedExpression::new(name, variables, body))
    }

    /// The name of this expression.
    pub fn name(&self) -> (r: &str)
        ensures
            r@ == self@.name,
    {
        self.name.as_str()
    }

    /// The entries of all operators, one after another.
    pub fn elements(&self) -> (r: &Vec<ComplexExpression>)
        ensures
            cmodels(r@) == self@.body,
            r@.len() == self@.num_operators * product(self@.output_radices) * product(self@.input_radices),
    {
        proof {
            use_type_invariant(self);
        }
        &self.body
    }

    /// The number of operators.
    pub fn num_operators(&self) -> (r: usize)
        ensures
            r == self@.num_operators,
    {
        self.num_operators
    }

    /// The shape of the evaluated operators: the number of operators, the
    /// output dimension, the input dimension.
    pub fn generation_shape(&self) -> (r: GenerationShape)
        ensures
            r == GenerationShape::Tensor3D(
                self@.num_operators as usize,
                product(self@.output_radices) as usize,
                product(self@.input_radices) as usize,
            ),
    {
        proof {
            use_type_invariant(self);
            lemma_positive_product(self.input_radices@);
            lemma_positive_product(self.output_radices@);
            let po = product(self.output_radices@);
            let pi = product(self.input_radices@);
            let k = self.num_operators as int;
            assert(po <= k * po * pi && pi <= k * po * pi) by (nonlinear_arith)
                requires
                    k >= 1,
                    po >= 1,
                    pi >= 1,
            ;
        }
        // The length of the body, a `usize`, bounds the dimensions.
        let _body_len = self.body.len();
        GenerationShape::Tensor3D(self.num_operators, self.output_radices.dimension(), self.input_radices.dimension())
    }

    /// The number of qudits the operators act on; the input and output
    /// radices must agree.
    pub fn num_qudits(&self) -> (r: usize)
        requires
            self@.input_radices == self@.output_radices,
        ensures
            r == self@.input_radices.len(),
    {
        self.input_radices.num_qudits()
    }
}

/// The roles of the indices of a set of Kraus operators, counted over a
/// prefix.
proof fn lemma_kraus_dir_sizes(n: nat, os: Seq<usize>, is: Seq<usize>, k: int)
    requires
        1 <= k <= 1 + os.len() + is.len(),
    ensures
        dir_sizes(kraus_indices(n, os, is).take(k), IndexDirection::Batch) =~= seq![n as usize],
        dir_sizes(kraus_indices(n, os, is).take(k), IndexDirection::Output) =~= os.take(
            if k - 1 < os.len() {
                k - 1
            } else {
                os.len() as int
            },
        ),
        dir_sizes(kraus_indices(n, os, is).take(k), IndexDirection::Input) =~= is.take(
            if k - 1 < os.len() {
                0
            } else {
                k - 1 - os.len()
            },
        ),
    decreases k,
{
    let u = kraus_indices(n, os, is);
    assert(u.take(k).drop_last() =~= u.take(k - 1));
    assert(u.take(k).last() == u[k - 1]);
    if k > 1 {
        lemma_kraus_dir_sizes(n, os, is, k - 1);
        if k - 2 < os.len() {
            assert(os.take(k - 2).push(os[k - 2]) =~= os.take(k - 1));
        } else {
            assert(is.take(k - 2 - os.len()).push(is[k - 2 - os.len()]) =~= is.take(k - 1 - os.len()));
        }
    } else {
        assert(u.take(0) =~= Seq::<TensorIndex>::empty());
        assert(dir_sizes(u.take(0), IndexDirection::Batch) =~= Seq::<usize>::empty());
        assert(dir_sizes(u.take(0), IndexDirection::Output) =~= Seq::<usize>::empty());
        assert(dir_sizes(u.take(0), IndexDirection::Input) =~= Seq::<usize>::empty());
        assert(Seq::<usize>::empty().push(n as usize) =~= seq![n as usize]);
        assert(os.take(0) =~= Seq::<usize>::empty());
        assert(is.take(0) =~= Seq::<usize>::empty());
    }
}

/// Converting a set of Kraus operators to its tensor and back gives the
/// same set.
pub proof fn law_kraus_tensor_round_trip(m: KrausModel)
    requires
        1 <= m.num_operators <= usize::MAX,
    ensures
        kraus_from_tensor(
            TensorModel {
                indices: kraus_indices(m.num_operators, m.output_radices, m.input_radices),
                name: m.name,
                variables: m.variables,
                body: m.body,
            },
        ) == m,
{
    let os = m.output_radices;
    let is = m.input_radices;
    let u = kraus_indices(m.num_operators, os, is);
    let k = (1 + os.len() + is.len()) as int;
    lemma_kraus_dir_sizes(m.num_operators, os, is, k);
    assert(u.take(k) =~= u);
    assert(os.take(os.len() as int) =~= os);
    assert(is.take(is.len() as int) =~= is);
    assert(seq![m.num_operators as usize].drop_last() =~= Seq::<usize>::empty());
    assert(seq![m.num_operators as usize].last() == m.num_operators as usize);
    assert(product(Seq::<usize>::empty()) == 1);
    assert(product(seq![m.num_operators as usize]) == 1 * (m.num_operators as usize));
}

} // verus!
