//! Systems of unitaries: a batch of square matrices of one dimension,
//! selected by a classical register.

use crate::complex::ComplexExpression;
use crate::expression::Expr;
use crate::products::{fresh_names, index_variables, indexed_map, map_c};
use crate::radices::{all_positive, lemma_product_prefix, product, Radices};
use crate::text::text_is;
use crate::unitary::{
    clone_names, cmodels, dim, entry, identity_body, identity_entry, lemma_flat_bound, lemma_flat_order,
    lemma_next_row, UnitaryExpression, UnitaryModel,
};
use crate::variables::names;
use vstd::prelude::*;
use vstd::string::StringExecFns;

verus! {

/// The model of a [`UnitarySystemExpression`].
pub struct UnitarySystemModel {
    pub name: Seq<char>,
    pub variables: Seq<Seq<char>>,
    pub body: Seq<(Expr, Expr)>,
    pub batch: Seq<usize>,
    pub radices: Seq<usize>,
}

/// The entry in row `i` and column `j` of the `t`-th `d`-dimensional matrix
/// of the stack `s`.
pub open spec fn block_at<T>(s: Seq<T>, d: int, t: int, i: int, j: int) -> T {
    s[t * (d * d) + (i * d + j)]
}

/// The `k`-th element of the `t`-th block of `dd` elements of `s`.
spec fn stack_at<T>(s: Seq<T>, dd: int, t: int, k: int) -> T {
    s[t * dd + k]
}

/// No value occurs twice in `s`.
pub open spec fn no_duplicates(s: Seq<usize>) -> bool {
    forall|a: int, b: int| 0 <= a < s.len() && 0 <= b < s.len() && a != b ==> s[a] != s[b]
}

/// The number of variables of the first `t` unitaries of `es`.
pub open spec fn var_offset(es: Seq<UnitaryModel>, t: int) -> nat
    decreases t,
{
    if t <= 0 {
        0
    } else {
        var_offset(es, t - 1) + es[t - 1].variables.len()
    }
}

/// The models of the unitaries `s`.
pub open spec fn unitary_models(s: Seq<&UnitaryExpression>) -> Seq<UnitaryModel> {
    s.map_values(|e: &UnitaryExpression| e@)
}

/// The names of the unitaries `es`.
pub open spec fn unitary_names(es: Seq<UnitaryModel>) -> Seq<Seq<char>> {
    es.map_values(|m: UnitaryModel| m.name)
}

/// Offsets grow with the number of unitaries counted.
proof fn lemma_var_offset_mono(es: Seq<UnitaryModel>, s: int, t: int)
    requires
        0 <= s <= t,
    ensures
        var_offset(es, s) <= var_offset(es, t),
    decreases t,
{
    if s < t {
        lemma_var_offset_mono(es, s, t - 1);
    }
}

/// The names `ns` joined by `sep`.
pub open spec fn join_names(ns: Seq<Seq<char>>, sep: Seq<char>) -> Seq<char>
    decreases ns.len(),
{
    if ns.len() == 0 {
        Seq::empty()
    } else if ns.len() == 1 {
        ns[0]
    } else {
        join_names(ns.drop_last(), sep) + sep + ns.last()
    }
}

/// The name of a multiplexor of unitaries named `ns`: `Multiplexed_` and
/// the common name if all are the same, else the names joined by `_`.
pub open spec fn multiplex_name(ns: Seq<Seq<char>>) -> Seq<char> {
    if forall|k: int| 0 <= k < ns.len() ==> #[trigger] ns[k] == ns[0] {
        "Multiplexed_"@ + ns[0]
    } else {
        "Multiplexed_"@ + join_names(ns, "_"@)
    }
}

/// A stack of square matrices of one dimension over named variables: the
/// matrix that applies is chosen by a classical register with the batch
/// radices. The body holds the matrices one after another, each in
/// row-major order.
pub struct UnitarySystemExpression {
    name: String,
    variables: Vec<String>,
    body: Vec<ComplexExpression>,
    batch: Vec<usize>,
    radices: Radices,
}

impl View for UnitarySystemExpression {
    type V = UnitarySystemModel;

    closed spec fn view(&self) -> UnitarySystemModel {
        UnitarySystemModel {
            name: self.name@,
            variables: names(self.variables@),
            body: cmodels(self.body@),
            batch: self.batch@,
            radices: self.radices@,
        }
    }
}

/// A zero entry makes the whole product zero.
proof fn lemma_product_zero(s: Seq<usize>, i: int)
    requires
        0 <= i < s.len(),
        s[i] == 0,
    ensures
        product(s) == 0,
    decreases s.len(),
{
    let p = product(s.drop_last());
    let l = s.last() as nat;
    assert(product(s) == p * l);
    if i < s.len() - 1 {
        lemma_product_zero(s.drop_last(), i);
        assert(p * l == 0) by (nonlinear_arith)
            requires
                p == 0,
        ;
    } else {
        assert(p * l == 0) by (nonlinear_arith)
            requires
                l == 0,
        ;
    }
}

/// The product of the entries of `s`, which must fit in a `usize`.
fn slice_product(s: &[usize]) -> (r: usize)
    requires
        product(s@) <= usize::MAX,
    ensures
        r == product(s@),
{
    let mut z: usize = 0;
    while z < s.len()
        invariant
            z <= s@.len(),
            forall|k: int| 0 <= k < z ==> s@[k] >= 1,
        decreases s@.len() - z,
    {
        if s[z] == 0 {
            proof {
                lemma_product_zero(s@, z as int);
            }
            return 0;
        }
        z = z + 1;
    }
    assert(all_positive(s@));
    let mut acc: usize = 1;
    let mut i: usize = 0;
    assert(s@.take(0) =~= Seq::<usize>::empty());
    while i < s.len()
        invariant
            all_positive(s@),
            product(s@) <= usize::MAX,
            i <= s@.len(),
            acc == product(s@.take(i as int)),
        decreases s@.len() - i,
    {
        proof {
            lemma_product_prefix(s@, i + 1);
            assert(s@.take(i + 1).drop_last() =~= s@.take(i as int));
        }
        acc = acc * s[i];
        i = i + 1;
    }
    assert(s@.take(i as int) =~= s@);
    acc
}

/// Whether `x` occurs in `s`.
fn slice_contains(s: &[usize], x: usize) -> (r: bool)
    ensures
        r == s@.contains(x),
{
    let mut i: usize = 0;
    while i < s.len()
        invariant
            i <= s@.len(),
            forall|k: int| 0 <= k < i ==> s@[k] != x,
        decreases s@.len() - i,
    {
        if s[i] == x {
            assert(s@[i as int] == x);
            return true;
        }
        i = i + 1;
    }
    false
}

/// A copy of the entries of `s`.
fn slice_to_vec(s: &[usize]) -> (r: Vec<usize>)
    ensures
        r@ == s@,
{
    let mut r: Vec<usize> = Vec::new();
    let mut i: usize = 0;
    while i < s.len()
        invariant
            i <= s@.len(),
            r@ == s@.take(i as int),
        decreases s@.len() - i,
    {
        r.push(s[i]);
        i = i + 1;
        assert(r@ =~= s@.take(i as int));
    }
    assert(s@.take(i as int) =~= s@);
    r
}

impl UnitarySystemExpression {
    #[verifier::type_invariant]
    closed spec fn well_formed(self) -> bool {
        &&& all_positive(self.radices@)
        &&& self.body@.len() == product(self.batch@) * (product(self.radices@) * product(self.radices@))
    }

    /// The name of this system.
    pub fn name(&self) -> (r: &str)
        ensures
            r@ == self@.name,
    {
        self.name.as_str()
    }

    /// The names of the variables, in parameter order.
    pub fn variables(&self) -> (r: &Vec<String>)
        ensures
            names(r@) == self@.variables,
    {
        &self.variables
    }

    /// The entries of all matrices, one matrix after another.
    pub fn elements(&self) -> (r: &Vec<ComplexExpression>)
        ensures
            cmodels(r@) == self@.body,
            r@.len() == product(self@.batch) * (product(self@.radices) * product(self@.radices)),
    {
        proof {
            use_type_invariant(self);
        }
        &self.body
    }

    /// The radices of the classical register that selects the matrix.
    pub fn batch_radices(&self) -> (r: Vec<usize>)
        ensures
            r@ == self@.batch,
    {
        self.batch.clone()
    }

    /// The radices of the system each matrix acts on.
    pub fn radices(&self) -> (r: Radices)
        ensures
            r@ == self@.radices,
    {
        self.radices.clone()
    }
}

/// The name of a multiplexor of `expressions`, as [`multiplex_name`] says.
fn multiplexed_name(expressions: &[&UnitaryExpression]) -> (r: String)
    requires
        expressions@.len() > 0,
    ensures
        r@ == multiplex_name(unitary_names(unitary_models(expressions@))),
{
    let ghost ns = unitary_names(unitary_models(expressions@));
    let first = expressions[0].name().to_owned();
    let mut same = true;
    let mut t: usize = 0;
    while t < expressions.len()
        invariant
            ns == unitary_names(unitary_models(expressions@)),
            t <= expressions@.len(),
            first@ == ns[0],
            same <==> forall|k: int| 0 <= k < t ==> #[trigger] ns[k] == ns[0],
        decreases expressions@.len() - t,
    {
        assert(ns[t as int] == expressions@[t as int]@.name);
        if !text_is(&first, expressions[t].name()) {
            same = false;
        }
        proof {
            if same {
                assert forall|k: int| 0 <= k < t + 1 implies #[trigger] ns[k] == ns[0] by {
                    if k < t {
                        assert(ns[k] == ns[0]);
                    }
                }
            }
        }
        t = t + 1;
    }
    let mut name = "Multiplexed_".to_owned();
    if same {
        name.append(&first);
    } else {
        let mut joined = first;
        let mut t: usize = 1;
        assert(ns.take(1) =~= seq![ns[0]]);
        while t < expressions.len()
            invariant
                ns == unitary_names(unitary_models(expressions@)),
                1 <= t <= expressions@.len(),
                joined@ == join_names(ns.take(t as int), "_"@),
            decreases expressions@.len() - t,
        {
            joined.append("_");
            joined.append(expressions[t].name());
            assert(ns.take(t + 1).drop_last() =~= ns.take(t as int));
            t = t + 1;
        }
        assert(ns.take(t as int) =~= ns);
        name.append(&joined);
    }
    name
}

impl UnitaryExpression {
    /// The system that applies this matrix where the classical register,
    /// with radices `new_dim_radices`, holds one of `positions`, and the
    /// identity elsewhere. It is named `Stacked_` and this name, and keeps
    /// the variables. The positions must be distinct and no more than the
    /// register's values.
    pub fn classically_control(&self, positions: &[usize], new_dim_radices: &[usize]) -> (r:
        UnitarySystemExpression)
        requires
            product(new_dim_radices@) * (dim(self@) * dim(self@)) <= usize::MAX,
            positions@.len() <= product(new_dim_radices@),
            no_duplicates(positions@),
        ensures
            r@.name == "Stacked_"@ + self@.name,
            r@.variables == self@.variables,
            r@.batch == new_dim_radices@,
            r@.radices == self@.radices,
            r@.body.len() == product(new_dim_radices@) * (dim(self@) * dim(self@)),
            forall|t: int, i: int, j: int|
                0 <= t < product(new_dim_radices@) && 0 <= i < dim(self@) && 0 <= j < dim(self@)
                    ==> #[trigger] block_at(r@.body, dim(self@), t, i, j) == if positions@.contains(
                    t as usize,
                ) {
                    entry(self@.body, dim(self@), i, j)
                } else {
                    identity_entry(i, j)
                },
    {
        let d = self.dimension();
        let ghost gp = product(new_dim_radices@);
        assert(gp <= gp * (d * d)) by (nonlinear_arith)
            requires
                d >= 1,
                gp >= 0,
        ;
        let n = slice_product(new_dim_radices);
        let dd = d * d;
        let identity = identity_body(d);
        let sb = self.elements();
        let ghost a = cmodels(sb@);
        let ghost idb = cmodels(identity@);
        let mut out: Vec<ComplexExpression> = Vec::new();
        let mut t: usize = 0;
        assert(0 * dd == 0);
        while t < n
            invariant
                n == gp,
                dd == d * d,
                n * dd <= usize::MAX,
                a == cmodels(sb@),
                idb == cmodels(identity@),
                sb@.len() == dd,
                identity@.len() == dd,
                t <= n,
                out@.len() == t * dd,
                forall|p: int, k: int|
                    0 <= p < t && 0 <= k < dd ==> #[trigger] stack_at(cmodels(out@), dd as int, p, k)
                        == if positions@.contains(p as usize) {
                        a[k]
                    } else {
                        idb[k]
                    },
            decreases n - t,
        {
            let here = slice_contains(positions, t);
            let mut k: usize = 0;
            assert(t * dd + 0 == t * dd);
            while k < dd
                invariant
                    n == gp,
                    dd == d * d,
                    n * dd <= usize::MAX,
                    a == cmodels(sb@),
                    idb == cmodels(identity@),
                    sb@.len() == dd,
                    identity@.len() == dd,
                    t < n,
                    k <= dd,
                    here == positions@.contains(t as usize),
                    out@.len() == t * dd + k,
                    forall|p: int, q: int|
                        (0 <= p < t && 0 <= q < dd) || (p == t && 0 <= q < k) ==> #[trigger] stack_at(
                            cmodels(out@),
                            dd as int,
                            p,
                            q,
                        ) == if positions@.contains(p as usize) {
                            a[q]
                        } else {
                            idb[q]
                        },
                decreases dd - k,
            {
                let ghost prev = cmodels(out@);
                if here {
                    out.push(sb[k].clone());
                } else {
                    out.push(identity[k].clone());
                }
                proof {
                    assert forall|p: int, q: int|
                        (0 <= p < t && 0 <= q < dd) || (p == t && 0 <= q < k + 1) implies #[trigger] stack_at(
                        cmodels(out@),
                        dd as int,
                        p,
                        q,
                    ) == if positions@.contains(p as usize) {
                        a[q]
                    } else {
                        idb[q]
                    } by {
                        if p == t && q == k {
                        } else {
                            lemma_flat_order(dd as int, p, q, t as int, k as int);
                            assert(stack_at(prev, dd as int, p, q) == if positions@.contains(p as usize) {
                                a[q]
                            } else {
                                idb[q]
                            });
                        }
                    }
                }
                k = k + 1;
            }
            proof {
                lemma_next_row(dd as int, t as int);
            }
            t = t + 1;
        }
        let mut name = "Stacked_".to_owned();
        name.append(self.name());
        let r = UnitarySystemExpression {
            name,
            variables: clone_names(self.variables()),
            body: out,
            batch: slice_to_vec(new_dim_radices),
            radices: self.radices(),
        };
        proof {
            assert forall|t: int, i: int, j: int|
                0 <= t < gp && 0 <= i < d && 0 <= j < d implies #[trigger] block_at(
                r@.body,
                d as int,
                t,
                i,
                j,
            ) == if positions@.contains(t as usize) {
                entry(self@.body, d as int, i, j)
            } else {
                identity_entry(i, j)
            } by {
                lemma_flat_bound(d as int, i, j);
                assert(stack_at(r@.body, dd as int, t, i * d + j) == if positions@.contains(t as usize) {
                    a[i * d + j]
                } else {
                    idb[i * d + j]
                });
                assert(entry(idb, d as int, i, j) == identity_entry(i, j));
            }
        }
        r
    }

    /// The system that applies the `t`-th of `expressions` where the
    /// classical register, with radices `new_dim_radices`, holds `t`. The
    /// variables of the `t`-th matrix are renamed to `alpha_k`, numbered on
    /// from those of the matrices before it; the name is
    /// [`multiplex_name`] of their names. There must be as many matrices as
    /// register values, at least one, all with the same radices.
    pub fn classically_multiplex(expressions: &[&UnitaryExpression], new_dim_radices: &[usize]) -> (r:
        UnitarySystemExpression)
        requires
            expressions@.len() == product(new_dim_radices@),
            expressions@.len() > 0,
            forall|t: int|
                0 <= t < expressions@.len() ==> (#[trigger] expressions@[t])@.radices
                    == expressions@[0]@.radices,
            product(new_dim_radices@) * (dim(expressions@[0]@) * dim(expressions@[0]@)) <= usize::MAX,
            var_offset(unitary_models(expressions@), expressions@.len() as int) <= usize::MAX,
        ensures
            r@.name == multiplex_name(unitary_names(unitary_models(expressions@))),
            r@.variables == fresh_names(
                "alpha_"@,
                var_offset(unitary_models(expressions@), expressions@.len() as int),
            ),
            r@.batch == new_dim_radices@,
            r@.radices == expressions@[0]@.radices,
            r@.body.len() == product(new_dim_radices@) * (dim(expressions@[0]@) * dim(
                expressions@[0]@,
            )),
            forall|t: int, i: int, j: int|
                0 <= t < expressions@.len() && 0 <= i < dim(expressions@[0]@) && 0 <= j < dim(
                    expressions@[0]@,
                ) ==> #[trigger] block_at(r@.body, dim(expressions@[0]@), t, i, j) == map_c(
                    entry(expressions@[t]@.body, dim(expressions@[0]@), i, j),
                    indexed_map(
                        expressions@[t]@.variables,
                        "alpha_"@,
                        var_offset(unitary_models(expressions@), t),
                    ),
                ),
    {
        let ghost es = unitary_models(expressions@);
        let d = expressions[0].dimension();
        let ghost gp = product(new_dim_radices@);
        assert(gp <= gp * (d * d)) by (nonlinear_arith)
            requires
                d >= 1,
                gp >= 0,
        ;
        let n = slice_product(new_dim_radices);
        let dd = d * d;
        let mut out: Vec<ComplexExpression> = Vec::new();
        let mut variables: Vec<String> = Vec::new();
        let mut offset: usize = 0;
        let mut t: usize = 0;
        assert(names(variables@) =~= fresh_names("alpha_"@, 0));
        assert(0 * dd == 0);
        while t < n
            invariant
                n == gp,
                n == expressions@.len(),
                es == unitary_models(expressions@),
                d == dim(expressions@[0]@),
                dd == d * d,
                n * dd <= usize::MAX,
                forall|s: int|
                    0 <= s < expressions@.len() ==> (#[trigger] expressions@[s])@.radices
                        == expressions@[0]@.radices,
                var_offset(es, n as int) <= usize::MAX,
                t <= n,
                offset == var_offset(es, t as int),
                names(variables@) == fresh_names("alpha_"@, offset as nat),
                out@.len() == t * dd,
                forall|p: int, k: int|
                    0 <= p < t && 0 <= k < dd ==> #[trigger] stack_at(cmodels(out@), dd as int, p, k)
                        == map_c(
                        es[p].body[k],
                        indexed_map(es[p].variables, "alpha_"@, var_offset(es, p)),
                    ),
            decreases n - t,
        {
            let e = expressions[t];
            let de = e.dimension();
            assert(e@ == es[t as int]);
            assert(e@.radices == expressions@[0]@.radices);
            proof {
                lemma_var_offset_mono(es, t + 1, n as int);
            }
            let m = index_variables(e.variables(), "alpha_", offset, &mut variables);
            let ghost gm = m@;
            let eb = e.elements();
            let mut k: usize = 0;
            assert(t * dd + 0 == t * dd);
            while k < dd
                invariant
                    n == gp,
                    n == expressions@.len(),
                    es == unitary_models(expressions@),
                    dd == d * d,
                    n * dd <= usize::MAX,
                    t < n,
                    k <= dd,
                    e@ == es[t as int],
                    cmodels(eb@) == es[t as int].body,
                    eb@.len() == dd,
                    gm == m@,
                    gm == indexed_map(es[t as int].variables, "alpha_"@, var_offset(es, t as int)),
                    out@.len() == t * dd + k,
                    forall|p: int, q: int|
                        (0 <= p < t && 0 <= q < dd) || (p == t && 0 <= q < k) ==> #[trigger] stack_at(
                            cmodels(out@),
                            dd as int,
                            p,
                            q,
                        ) == map_c(
                            es[p].body[q],
                            indexed_map(es[p].variables, "alpha_"@, var_offset(es, p)),
                        ),
                decreases dd - k,
            {
                let ghost prev = cmodels(out@);
                out.push(eb[k].map_var_names(&m));
                proof {
                    assert forall|p: int, q: int|
                        (0 <= p < t && 0 <= q < dd) || (p == t && 0 <= q < k + 1) implies #[trigger] stack_at(
                        cmodels(out@),
                        dd as int,
                        p,
                        q,
                    ) == map_c(
                        es[p].body[q],
                        indexed_map(es[p].variables, "alpha_"@, var_offset(es, p)),
                    ) by {
                        if p == t && q == k {
                        } else {
                            lemma_flat_order(dd as int, p, q, t as int, k as int);
                            assert(stack_at(prev, dd as int, p, q) == map_c(
                                es[p].body[q],
                                indexed_map(es[p].variables, "alpha_"@, var_offset(es, p)),
                            ));
                        }
                    }
                }
                k = k + 1;
            }
            proof {
                lemma_next_row(dd as int, t as int);
            }
            offset = offset + e.num_params();
            t = t + 1;
        }
        let name = multiplexed_name(expressions);
        let r = UnitarySystemExpression {
            name,
            variables,
            body: out,
            batch: slice_to_vec(new_dim_radices),
            radices: expressions[0].radices(),
        };
        proof {
            assert forall|t: int, i: int, j: int|
                0 <= t < n && 0 <= i < d && 0 <= j < d implies #[trigger] block_at(
                r@.body,
                d as int,
                t,
                i,
                j,
            ) == map_c(
                entry(expressions@[t]@.body, d as int, i, j),
                indexed_map(expressions@[t]@.variables, "alpha_"@, var_offset(es, t)),
            ) by {
                lemma_flat_bound(d as int, i, j);
                assert(stack_at(r@.body, dd as int, t, i * d + j) == map_c(
                    es[t].body[i * d + j],
                    indexed_map(es[t].variables, "alpha_"@, var_offset(es, t)),
                ));
            }
        }
        r
    }
}

} // verus!
