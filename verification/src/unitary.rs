//! Symbolic unitary matrices over a qudit system.

use crate::complex::ComplexExpression;
use crate::expression::{one_expr, zero_expr, Expr};
use crate::radices::{all_positive, product, Radices};
use crate::tensor::GenerationShape;
use crate::variables::{merge_names, merge_unique, names};
use vstd::prelude::*;

verus! {

/// The models of a sequence of complex expressions.
pub open spec fn cmodels(s: Seq<ComplexExpression>) -> Seq<(Expr, Expr)> {
    s.map_values(|c: ComplexExpression| c@)
}

/// The entry in row `i` and column `j` of the row-major `d`-column matrix `s`.
pub open spec fn entry<T>(s: Seq<T>, d: int, i: int, j: int) -> T {
    s[i * d + j]
}

/// The entry in row `i` and column `j` of an identity matrix.
pub open spec fn identity_entry(i: int, j: int) -> (Expr, Expr) {
    if i == j {
        (one_expr(), zero_expr())
    } else {
        (zero_expr(), zero_expr())
    }
}

/// The complex conjugate of the model `c`: its imaginary part negated.
pub open spec fn cconj(c: (Expr, Expr)) -> (Expr, Expr) {
    (c.0, Expr::Neg(Box::new(c.1)))
}

/// The model of a [`UnitaryExpression`].
pub struct UnitaryModel {
    pub name: Seq<char>,
    pub variables: Seq<Seq<char>>,
    pub body: Seq<(Expr, Expr)>,
    pub radices: Seq<usize>,
}

/// The dimension of the system that the model `m` acts on.
pub open spec fn dim(m: UnitaryModel) -> int {
    product(m.radices) as int
}

/// Index arithmetic of a row-major square matrix: a cell lies inside it.
pub proof fn lemma_flat_bound(d: int, i: int, j: int)
    requires
        0 <= i < d,
        0 <= j < d,
    ensures
        0 <= i * d + j < d * d,
        0 <= i * d <= i * d + j,
{
    assert(0 <= i * d + j < d * d) by (nonlinear_arith)
        requires
            0 <= i < d,
            0 <= j < d,
    ;
}

/// Index arithmetic of a row-major matrix: cells come in row order.
pub proof fn lemma_flat_order(d: int, p: int, q: int, i: int, j: int)
    requires
        0 <= q < d,
        0 <= p,
        0 <= j,
        p < i || (p == i && q < j),
    ensures
        p * d + q < i * d + j,
{
    assert(p * d + q < i * d + j) by (nonlinear_arith)
        requires
            0 <= q < d,
            0 <= p,
            0 <= j,
            p < i || (p == i && q < j),
    ;
}

/// Index arithmetic of a row-major matrix: the next row starts `d` later.
pub proof fn lemma_next_row(d: int, i: int)
    ensures
        (i + 1) * d == i * d + d,
{
    assert((i + 1) * d == i * d + d) by (nonlinear_arith);
}

/// `after` is the transpose of `before`: the same name, variables and
/// radices, and the entry in row `i` and column `j` of `after` is the entry
/// in row `j` and column `i` of `before`.
pub open spec fn is_transpose(before: UnitaryModel, after: UnitaryModel) -> bool {
    &&& after.name == before.name
    &&& after.variables == before.variables
    &&& after.radices == before.radices
    &&& after.body.len() == before.body.len()
    &&& forall|i: int, j: int|
        0 <= i < dim(before) && 0 <= j < dim(before) ==> #[trigger] entry(after.body, dim(before), i, j)
            == entry(before.body, dim(before), j, i)
}

/// Transposing twice gives back the matrix: if `b` is the transpose of `a`
/// and `c` is the transpose of `b`, then `c` is `a`.
pub proof fn law_transpose_twice(a: UnitaryModel, b: UnitaryModel, c: UnitaryModel)
    requires
        a.body.len() == dim(a) * dim(a),
        is_transpose(a, b),
        is_transpose(b, c),
    ensures
        c == a,
{
    let d = dim(a);
    assert(dim(b) == d);
    assert forall|k: int| 0 <= k < a.body.len() implies c.body[k] == a.body[k] by {
        let i = k / d;
        let j = k % d;
        assert(d > 0) by (nonlinear_arith)
            requires
                0 <= k < d * d,
                d >= 0,
        ;
        vstd::arithmetic::div_mod::lemma_fundamental_div_mod(k, d);
        assert(0 <= i < d) by (nonlinear_arith)
            requires
                0 <= k < d * d,
                d > 0,
                i == k / d,
        ;
        assert(0 <= j < d);
        assert(k == i * d + j) by (nonlinear_arith)
            requires
                k == d * (k / d) + k % d,
                i == k / d,
                j == k % d,
        ;
        assert(entry(c.body, d, i, j) == entry(b.body, d, j, i));
        assert(entry(b.body, d, j, i) == entry(a.body, d, i, j));
    }
    assert(c.body =~= a.body);
}

/// The entry in row `i` and column `j` after a `sd`-dimensional matrix
/// `sub` is written over the `d`-dimensional matrix `m` with its top left
/// corner at row `r` and column `c`.
pub open spec fn embedded_entry(
    m: Seq<(Expr, Expr)>,
    d: int,
    sub: Seq<(Expr, Expr)>,
    sd: int,
    r: int,
    c: int,
    i: int,
    j: int,
) -> (Expr, Expr) {
    if r <= i < r + sd && c <= j < c + sd {
        entry(sub, sd, i - r, j - c)
    } else {
        entry(m, d, i, j)
    }
}

/// The identity matrix is its own transpose.
pub proof fn law_identity_is_symmetric(a: UnitaryModel, b: UnitaryModel)
    requires
        a.body.len() == dim(a) * dim(a),
        forall|i: int, j: int|
            0 <= i < dim(a) && 0 <= j < dim(a) ==> #[trigger] entry(a.body, dim(a), i, j)
                == identity_entry(i, j),
        is_transpose(a, b),
    ensures
        b == a,
{
    let d = dim(a);
    assert forall|k: int| 0 <= k < a.body.len() implies b.body[k] == a.body[k] by {
        let i = k / d;
        let j = k % d;
        assert(d > 0) by (nonlinear_arith)
            requires
                0 <= k < d * d,
                d >= 0,
        ;
        vstd::arithmetic::div_mod::lemma_fundamental_div_mod(k, d);
        assert(0 <= i < d) by (nonlinear_arith)
            requires
                0 <= k < d * d,
                d > 0,
                i == k / d,
        ;
        assert(k == i * d + j) by (nonlinear_arith)
            requires
                k == d * (k / d) + k % d,
                i == k / d,
                j == k % d,
        ;
        assert(entry(b.body, d, i, j) == entry(a.body, d, j, i));
        assert(entry(a.body, d, j, i) == identity_entry(j, i));
        assert(entry(a.body, d, i, j) == identity_entry(i, j));
    }
    assert(b.body =~= a.body);
}

/// After an embedding, the variables are those of both matrices, and each
/// occurs once if each occurred once in the matrix embedded into.
pub proof fn law_embed_variables(before: Seq<Seq<char>>, sub: Seq<Seq<char>>)
    ensures
        forall|x: Seq<char>|
            #[trigger] merge_unique(before, sub).contains(x) <==> before.contains(x) || sub.contains(x),
        before.no_duplicates() ==> merge_unique(before, sub).no_duplicates(),
{
    crate::variables::lemma_merge_unique(before, sub);
}

/// A square matrix whose entries are symbolic complex expressions over
/// named variables, acting on a qudit system with the given radices. The
/// body holds the entries in row-major order.
pub struct UnitaryExpression {
    name: String,
    variables: Vec<String>,
    body: Vec<ComplexExpression>,
    radices: Radices,
}

impl View for UnitaryExpression {
    type V = UnitaryModel;

    closed spec fn view(&self) -> UnitaryModel {
        UnitaryModel {
            name: self.name@,
            variables: names(self.variables@),
            body: cmodels(self.body@),
            radices: self.radices@,
        }
    }
}

/// A copy of a list of names.
pub(crate) fn clone_names(v: &Vec<String>) -> (r: Vec<String>)
    ensures
        names(r@) == names(v@),
{
    let mut r: Vec<String> = Vec::new();
    let mut i: usize = 0;
    while i < v.len()
        invariant
            i <= v@.len(),
            r@.len() == i,
            forall|k: int| 0 <= k < i ==> #[trigger] r@[k]@ == v@[k]@,
        decreases v@.len() - i,
    {
        r.push(v[i].clone());
        i = i + 1;
    }
    assert(names(r@) =~= names(v@));
    r
}

/// A copy of a list of complex expressions.
pub(crate) fn clone_elements(v: &Vec<ComplexExpression>) -> (r: Vec<ComplexExpression>)
    ensures
        cmodels(r@) == cmodels(v@),
        r@.len() == v@.len(),
{
    let mut r: Vec<ComplexExpression> = Vec::new();
    let mut i: usize = 0;
    while i < v.len()
        invariant
            i <= v@.len(),
            r@.len() == i,
            forall|k: int| 0 <= k < i ==> #[trigger] r@[k]@ == v@[k]@,
        decreases v@.len() - i,
    {
        r.push(v[i].clone());
        i = i + 1;
    }
    assert(cmodels(r@) =~= cmodels(v@));
    r
}

impl UnitaryExpression {
    #[verifier::type_invariant]
    closed spec fn well_formed(self) -> bool {
        &&& all_positive(self.radices@)
        &&& self.body@.len() == product(self.radices@) * product(self.radices@)
    }

    /// The matrix with the given parts; the body must hold the square of the
    /// dimension of `radices` entries.
    pub(crate) fn from_parts(
        name: String,
        variables: Vec<String>,
        body: Vec<ComplexExpression>,
        radices: Radices,
    ) -> (r: UnitaryExpression)
        requires
            all_positive(radices@),
            body@.len() == product(radices@) * product(radices@),
        ensures
            r@ == (UnitaryModel {
                name: name@,
                variables: names(variables@),
                body: cmodels(body@),
                radices: radices@,
            }),
    {
        UnitaryExpression { name, variables, body, radices }
    }

    /// The identity matrix on a system with the given radices, named `name`
    /// and without variables.
    pub fn identity(name: String, radices: Radices) -> (r: UnitaryExpression)
        requires
            all_positive(radices@),
            product(radices@) * product(radices@) <= usize::MAX,
        ensures
            r@.name == name@,
            r@.variables == Seq::<Seq<char>>::empty(),
            r@.radices == radices@,
            r@.body.len() == dim(r@) * dim(r@),
            forall|i: int, j: int|
                0 <= i < dim(r@) && 0 <= j < dim(r@) ==> #[trigger] entry(r@.body, dim(r@), i, j)
                    == identity_entry(i, j),
    {
        let ghost p = product(radices@);
        assert(p <= p * p) by (nonlinear_arith)
            requires
                p * p <= usize::MAX,
        ;
        let dim = radices.dimension();
        let body = identity_body(dim);
        let r = UnitaryExpression { name, variables: Vec::new(), body, radices };
        assert(names(r.variables@) =~= Seq::<Seq<char>>::empty());
        r
    }

    /// The name of this expression.
    pub fn name(&self) -> (r: &str)
        ensures
            r@ == self@.name,
    {
        self.name.as_str()
    }

    /// The names of the variables, in parameter order.
    pub fn variables(&self) -> (r: &Vec<String>)
        ensures
            names(r@) == self@.variables,
    {
        &self.variables
    }

    /// The entries, in row-major order.
    pub fn elements(&self) -> (r: &Vec<ComplexExpression>)
        ensures
            cmodels(r@) == self@.body,
            r@.len() == dim(self@) * dim(self@),
    {
        proof {
            use_type_invariant(self);
        }
        &self.body
    }

    /// The number of parameters: the number of variables.
    pub fn num_params(&self) -> (r: usize)
        ensures
            r == self@.variables.len(),
    {
        self.variables.len()
    }

    /// The radices of the system this matrix acts on.
    pub fn radices(&self) -> (r: Radices)
        ensures
            r@ == self@.radices,
            all_positive(r@),
    {
        proof {
            use_type_invariant(self);
        }
        self.radices.clone()
    }

    /// The number of qudits this matrix acts on.
    pub fn num_qudits(&self) -> (r: usize)
        ensures
            r == self@.radices.len(),
    {
        self.radices.num_qudits()
    }

    /// The dimension of the system: the number of rows, and of columns.
    pub fn dimension(&self) -> (r: usize)
        ensures
            r == dim(self@),
            r >= 1,
            self@.body.len() == r * r,
            r * r <= usize::MAX,
    {
        // The length of the body, a `usize`, bounds the dimension.
        let _body_len = self.body.len();
        proof {
            use_type_invariant(self);
            let p = product(self.radices@);
            lemma_product_positive(self.radices@);
            assert(p <= p * p) by (nonlinear_arith)
                requires
                    p >= 1,
            ;
        }
        self.radices.dimension()
    }

    /// The shape of the evaluated matrix: the dimension by the dimension.
    pub fn generation_shape(&self) -> (r: GenerationShape)
        ensures
            r == GenerationShape::Matrix(dim(self@) as usize, dim(self@) as usize),
    {
        let d = self.dimension();
        GenerationShape::Matrix(d, d)
    }

    /// Replaces the radices by others of the same dimension.
    pub fn set_radices(&mut self, new_radices: Radices)
        requires
            all_positive(new_radices@),
            product(new_radices@) == dim(old(self)@),
        ensures
            final(self)@ == (UnitaryModel { radices: new_radices@, ..old(self)@ }),
    {
        proof {
            use_type_invariant(&*self);
        }
        self.radices = new_radices;
    }

    /// Replaces each entry by its complex conjugate.
    pub fn conjugate(&mut self)
        ensures
            final(self)@.name == old(self)@.name,
            final(self)@.variables == old(self)@.variables,
            final(self)@.radices == old(self)@.radices,
            final(self)@.body.len() == old(self)@.body.len(),
            forall|k: int|
                0 <= k < old(self)@.body.len() ==> #[trigger] final(self)@.body[k] == cconj(
                    old(self)@.body[k],
                ),
    {
        proof {
            use_type_invariant(&*self);
        }
        let ghost before = cmodels(self.body@);
        let mut out: Vec<ComplexExpression> = Vec::new();
        let mut i: usize = 0;
        while i < self.body.len()
            invariant
                i <= self.body@.len(),
                cmodels(self.body@) == before,
                out@.len() == i,
                forall|k: int| 0 <= k < i ==> #[trigger] out@[k]@ == cconj(before[k]),
            decreases self.body@.len() - i,
        {
            out.push(self.body[i].conjugate());
            i = i + 1;
        }
        self.body = out;
    }

    /// Transposes the matrix.
    pub fn transpose(&mut self)
        ensures
            is_transpose(old(self)@, final(self)@),
    {
        let d = self.dimension();
        proof {
            use_type_invariant(&*self);
        }
        let ghost before = cmodels(self.body@);
        let mut out: Vec<ComplexExpression> = Vec::new();
        let mut i: usize = 0;
        while i < d
            invariant
                i <= d,
                d >= 1,
                d * d <= usize::MAX,
                cmodels(self.body@) == before,
                before.len() == d * d,
                out@.len() == i * d,
                forall|p: int, q: int|
                    0 <= p < i && 0 <= q < d ==> #[trigger] entry(cmodels(out@), d as int, p, q)
                        == entry(before, d as int, q, p),
            decreases d - i,
        {
            let mut j: usize = 0;
            while j < d
                invariant
                    i < d,
                    j <= d,
                    d >= 1,
                    d * d <= usize::MAX,
                    cmodels(self.body@) == before,
                    before.len() == d * d,
                    out@.len() == i * d + j,
                    forall|p: int, q: int|
                        (0 <= p < i && 0 <= q < d) || (p == i && 0 <= q < j) ==> #[trigger] entry(
                            cmodels(out@),
                            d as int,
                            p,
                            q,
                        ) == entry(before, d as int, q, p),
                decreases d - j,
            {
                proof {
                    lemma_flat_bound(d as int, j as int, i as int);
                }
                let ghost prev = out@;
                out.push(self.body[j * d + i].clone());
                proof {
                    assert forall|p: int, q: int|
                        (0 <= p < i && 0 <= q < d) || (p == i && 0 <= q < j + 1) implies #[trigger] entry(
                        cmodels(out@),
                        d as int,
                        p,
                        q,
                    ) == entry(before, d as int, q, p) by {
                        if p == i && q == j {
                        } else {
                            lemma_flat_order(d as int, p, q, i as int, j as int);
                            assert(entry(cmodels(prev), d as int, p, q) == entry(before, d as int, q, p));
                        }
                    }
                }
                j = j + 1;
            }
            proof {
                lemma_next_row(d as int, i as int);
            }
            i = i + 1;
        }
        self.body = out;
    }

    /// The conjugate transpose: conjugates, then transposes.
    pub fn dagger(&mut self)
        ensures
            final(self)@.name == old(self)@.name,
            final(self)@.variables == old(self)@.variables,
            final(self)@.radices == old(self)@.radices,
            final(self)@.body.len() == old(self)@.body.len(),
            forall|i: int, j: int|
                0 <= i < dim(old(self)@) && 0 <= j < dim(old(self)@) ==> #[trigger] entry(
                    final(self)@.body,
                    dim(old(self)@),
                    i,
                    j,
                ) == cconj(entry(old(self)@.body, dim(old(self)@), j, i)),
    {
        let d = self.dimension();
        let ghost before = self@.body;
        self.conjugate();
        let ghost mid = self@.body;
        assert(dim(self@) == d);
        self.transpose();
        assert(dim(self@) == d);
        proof {
            assert forall|i: int, j: int| 0 <= i < d && 0 <= j < d implies #[trigger] entry(
                self@.body,
                d as int,
                i,
                j,
            ) == cconj(entry(before, d as int, j, i)) by {
                lemma_flat_bound(d as int, j, i);
                assert(entry(self@.body, d as int, i, j) == entry(mid, d as int, j, i));
                assert(mid[j * d + i] == cconj(before[j * d + i]));
            }
        }
    }

    /// Writes `sub_matrix` over this matrix with its top left corner at row
    /// `top_left_row_idx` and column `top_left_col_idx`, and appends to the
    /// variables those of `sub_matrix` that are not among them yet. The
    /// sub-matrix must fit inside this matrix.
    pub fn embed(&mut self, sub_matrix: UnitaryExpression, top_left_row_idx: usize, top_left_col_idx: usize)
        requires
            top_left_row_idx + dim(sub_matrix@) <= dim(old(self)@),
            top_left_col_idx + dim(sub_matrix@) <= dim(old(self)@),
        ensures
            final(self)@.name == old(self)@.name,
            final(self)@.radices == old(self)@.radices,
            final(self)@.variables == merge_unique(old(self)@.variables, sub_matrix@.variables),
            final(self)@.body.len() == old(self)@.body.len(),
            forall|i: int, j: int|
                0 <= i < dim(old(self)@) && 0 <= j < dim(old(self)@) ==> #[trigger] entry(
                    final(self)@.body,
                    dim(old(self)@),
                    i,
                    j,
                ) == embedded_entry(
                    old(self)@.body,
                    dim(old(self)@),
                    sub_matrix@.body,
                    dim(sub_matrix@),
                    top_left_row_idx as int,
                    top_left_col_idx as int,
                    i,
                    j,
                ),
    {
        let d = self.dimension();
        let sd = sub_matrix.dimension();
        let r = top_left_row_idx;
        let c = top_left_col_idx;
        let ghost before = self@.body;
        let ghost sub = sub_matrix@.body;
        let mut out: Vec<ComplexExpression> = Vec::new();
        let mut i: usize = 0;
        while i < d
            invariant
                d == dim(old(self)@),
                sd == dim(sub_matrix@),
                self@ == old(self)@,
                before == self@.body,
                sub == sub_matrix@.body,
                d * d <= usize::MAX,
                sd * sd <= usize::MAX,
                before.len() == d * d,
                sub.len() == sd * sd,
                r + sd <= d,
                c + sd <= d,
                i <= d,
                out@.len() == i * d,
                forall|p: int, q: int|
                    0 <= p < i && 0 <= q < d ==> #[trigger] entry(cmodels(out@), d as int, p, q)
                        == embedded_entry(before, d as int, sub, sd as int, r as int, c as int, p, q),
            decreases d - i,
        {
            let mut j: usize = 0;
            while j < d
                invariant
                    d == dim(old(self)@),
                    sd == dim(sub_matrix@),
                    self@ == old(self)@,
                    before == self@.body,
                    sub == sub_matrix@.body,
                    d * d <= usize::MAX,
                    sd * sd <= usize::MAX,
                    before.len() == d * d,
                    sub.len() == sd * sd,
                    r + sd <= d,
                    c + sd <= d,
                    i < d,
                    j <= d,
                    out@.len() == i * d + j,
                    forall|p: int, q: int|
                        (0 <= p < i && 0 <= q < d) || (p == i && 0 <= q < j) ==> #[trigger] entry(
                            cmodels(out@),
                            d as int,
                            p,
                            q,
                        ) == embedded_entry(before, d as int, sub, sd as int, r as int, c as int, p, q),
                decreases d - j,
            {
                let ghost prev = out@;
                if r <= i && i < r + sd && c <= j && j < c + sd {
                    proof {
                        lemma_flat_bound(sd as int, (i - r) as int, (j - c) as int);
                    }
                    out.push(sub_matrix.body[(i - r) * sd + (j - c)].clone());
                } else {
                    proof {
                        lemma_flat_bound(d as int, i as int, j as int);
                    }
                    out.push(self.body[i * d + j].clone());
                }
                proof {
                    assert forall|p: int, q: int|
                        (0 <= p < i && 0 <= q < d) || (p == i && 0 <= q < j + 1) implies #[trigger] entry(
                        cmodels(out@),
                        d as int,
                        p,
                        q,
                    ) == embedded_entry(before, d as int, sub, sd as int, r as int, c as int, p, q) by {
                        if p == i && q == j {
                        } else {
                            lemma_flat_order(d as int, p, q, i as int, j as int);
                            assert(entry(cmodels(prev), d as int, p, q) == embedded_entry(
                                before,
                                d as int,
                                sub,
                                sd as int,
                                r as int,
                                c as int,
                                p,
                                q,
                            ));
                        }
                    }
                }
                j = j + 1;
            }
            proof {
                lemma_next_row(d as int, i as int);
            }
            i = i + 1;
        }
        proof {
            use_type_invariant(&*self);
        }
        self.body = out;
        let mut vars = clone_names(&self.variables);
        merge_names(&mut vars, &sub_matrix.variables);
        self.variables = vars;
    }
}

impl Clone for UnitaryExpression {
    fn clone(&self) -> (r: Self)
        ensures
            r@ == self@,
    {
        proof {
            use_type_invariant(self);
        }
        UnitaryExpression {
            name: self.name.clone(),
            variables: clone_names(&self.variables),
            body: clone_elements(&self.body),
            radices: self.radices.clone(),
        }
    }
}

/// The product of positive radices is positive.
pub proof fn lemma_product_positive(s: Seq<usize>)
    requires
        all_positive(s),
    ensures
        product(s) >= 1,
{
    crate::radices::lemma_product_prefix(s, s.len() as int);
    assert(s.take(s.len() as int) =~= s);
}

/// The body of a `d`-dimensional identity matrix.
pub(crate) fn identity_body(d: usize) -> (r: Vec<ComplexExpression>)
    requires
        d * d <= usize::MAX,
    ensures
        r@.len() == d * d,
        forall|i: int, j: int|
            0 <= i < d && 0 <= j < d ==> #[trigger] entry(cmodels(r@), d as int, i, j)
                == identity_entry(i, j),
{
    let mut out: Vec<ComplexExpression> = Vec::new();
    let mut i: usize = 0;
    while i < d
        invariant
            i <= d,
            d * d <= usize::MAX,
            out@.len() == i * d,
            forall|p: int, q: int|
                0 <= p < i && 0 <= q < d ==> #[trigger] entry(cmodels(out@), d as int, p, q)
                    == identity_entry(p, q),
        decreases d - i,
    {
        let mut j: usize = 0;
        while j < d
            invariant
                i < d,
                j <= d,
                out@.len() == i * d + j,
                forall|p: int, q: int|
                    (0 <= p < i && 0 <= q < d) || (p == i && 0 <= q < j) ==> #[trigger] entry(
                        cmodels(out@),
                        d as int,
                        p,
                        q,
                    ) == identity_entry(p, q),
            decreases d - j,
        {
            let ghost prev = out@;
            if i == j {
                out.push(ComplexExpression::one());
            } else {
                out.push(ComplexExpression::zero());
            }
            proof {
                assert forall|p: int, q: int|
                    (0 <= p < i && 0 <= q < d) || (p == i && 0 <= q < j + 1) implies #[trigger] entry(
                    cmodels(out@),
                    d as int,
                    p,
                    q,
                ) == identity_entry(p, q) by {
                    if p == i && q == j {
                    } else {
                        lemma_flat_order(d as int, p, q, i as int, j as int);
                        assert(entry(cmodels(prev), d as int, p, q) == identity_entry(p, q));
                    }
                }
            }
            j = j + 1;
        }
        proof {
            lemma_next_row(d as int, i as int);
        }
        i = i + 1;
    }
    out
}

} // verus!
