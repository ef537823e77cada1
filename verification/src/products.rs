//! Tensor and matrix products of unitary expressions. Both rename the
//! variables of the two factors to `x0`, `x1`, ... in order, the left
//! factor's first.

use crate::complex::{cadd, cmul, ComplexExpression};
use crate::constant::{coprime, divides, reduced, reduced_form};
use crate::expression::{add_expr, map_names, mul_expr, one_expr, sub_expr, zero_expr, Expr};
use crate::unitary::identity_entry;
use crate::radices::{all_positive, product, Radices};
use crate::text::{decimal, indexed_name};
use crate::unitary::{cmodels, dim, entry, lemma_flat_bound, lemma_flat_order, lemma_next_row, UnitaryExpression, UnitaryModel};
use crate::variables::names;
use crate::varmap::VarMap;
use vstd::prelude::*;
use vstd::string::StringExecFns;

verus! {

/// Both parts of `c` with their variables renamed by `m`.
pub open spec fn map_c(c: (Expr, Expr), m: Map<Seq<char>, Seq<char>>) -> (Expr, Expr) {
    (map_names(c.0, m), map_names(c.1, m))
}

/// The generated name with index `k`: `prefix` and the numeral of `k`.
pub open spec fn fresh_name(prefix: Seq<char>, k: nat) -> Seq<char> {
    prefix + decimal(k)
}

/// The first `n` generated names with `prefix`.
pub open spec fn fresh_names(prefix: Seq<char>, n: nat) -> Seq<Seq<char>> {
    Seq::new(n, |k: int| fresh_name(prefix, k as nat))
}

/// The renaming that maps each of `vars` to the generated name of its
/// position counted from `offset`; of names that occur twice, the later
/// occurrence wins.
pub open spec fn indexed_map(vars: Seq<Seq<char>>, prefix: Seq<char>, offset: nat) -> Map<
    Seq<char>,
    Seq<char>,
>
    decreases vars.len(),
{
    if vars.len() == 0 {
        Map::empty()
    } else {
        indexed_map(vars.drop_last(), prefix, offset).insert(
            vars.last(),
            fresh_name(prefix, (offset + vars.len() - 1) as nat),
        )
    }
}

/// The entry in row `i * rd + j` and column `k * rd + l` of the Kronecker
/// product of an `ld`- and an `rd`-dimensional matrix, stored in `s`.
pub open spec fn kron_at(s: Seq<(Expr, Expr)>, ld: int, rd: int, i: int, j: int, k: int, l: int) -> (
    Expr,
    Expr,
) {
    entry(s, ld * rd, i * rd + j, k * rd + l)
}

/// The value of that entry: the product of entry `(i, k)` of `a` and entry
/// `(j, l)` of `b`, each renamed.
pub open spec fn kron_value(
    a: Seq<(Expr, Expr)>,
    b: Seq<(Expr, Expr)>,
    ld: int,
    rd: int,
    ma: Map<Seq<char>, Seq<char>>,
    mb: Map<Seq<char>, Seq<char>>,
    i: int,
    j: int,
    k: int,
    l: int,
) -> (Expr, Expr) {
    cmul(map_c(entry(a, ld, i, k), ma), map_c(entry(b, rd, j, l), mb))
}

/// The sum over `t` from `0` to `k` of entry `(i, t)` of `a` times entry
/// `(t, j)` of `b`, each renamed, added from the left.
pub open spec fn dot_sum(
    a: Seq<(Expr, Expr)>,
    b: Seq<(Expr, Expr)>,
    d: int,
    ma: Map<Seq<char>, Seq<char>>,
    mb: Map<Seq<char>, Seq<char>>,
    i: int,
    j: int,
    k: nat,
) -> (Expr, Expr)
    decreases k,
{
    let term = cmul(map_c(entry(a, d, i, k as int), ma), map_c(entry(b, d, k as int, j), mb));
    if k == 0 {
        term
    } else {
        cadd(dot_sum(a, b, d, ma, mb, i, j, (k - 1) as nat), term)
    }
}

/// The position at which the entry for `(i, j, k, l)` is pushed.
spec fn flat4(ld: int, rd: int, i: int, j: int, k: int, l: int) -> int {
    ((i * rd + j) * ld + k) * rd + l
}

/// `(p, q, s, t)` comes before `(i, j, k, l)` in lexicographic order.
spec fn lex_lt(p: int, q: int, s: int, t: int, i: int, j: int, k: int, l: int) -> bool {
    p < i || (p == i && (q < j || (q == j && (s < k || (s == k && t < l)))))
}

/// Every entry before `(i, j, k, l)` holds its Kronecker value.
spec fn kron_done(
    out: Seq<(Expr, Expr)>,
    a: Seq<(Expr, Expr)>,
    b: Seq<(Expr, Expr)>,
    ld: int,
    rd: int,
    ma: Map<Seq<char>, Seq<char>>,
    mb: Map<Seq<char>, Seq<char>>,
    i: int,
    j: int,
    k: int,
    l: int,
) -> bool {
    forall|p: int, q: int, s: int, t: int|
        0 <= p < ld && 0 <= q < rd && 0 <= s < ld && 0 <= t < rd && lex_lt(p, q, s, t, i, j, k, l)
            ==> #[trigger] kron_at(out, ld, rd, p, q, s, t) == kron_value(a, b, ld, rd, ma, mb, p, q, s, t)
}

proof fn lemma_kron_index(ld: int, rd: int, i: int, j: int, k: int, l: int)
    ensures
        (i * rd + j) * (ld * rd) + (k * rd + l) == flat4(ld, rd, i, j, k, l),
{
    assert((i * rd + j) * (ld * rd) + (k * rd + l) == ((i * rd + j) * ld + k) * rd + l)
        by (nonlinear_arith);
}

proof fn lemma_flat4_order(ld: int, rd: int, p: int, q: int, s: int, t: int, i: int, j: int, k: int, l: int)
    requires
        0 <= p < ld && 0 <= q < rd && 0 <= s < ld && 0 <= t < rd,
        0 <= i && 0 <= j < rd && 0 <= k && 0 <= l,
        lex_lt(p, q, s, t, i, j, k, l),
    ensures
        flat4(ld, rd, p, q, s, t) < flat4(ld, rd, i, j, k, l),
{
    let a1 = p * rd + q;
    let a2 = i * rd + j;
    assert(0 <= a1) by (nonlinear_arith)
        requires
            p >= 0,
            q >= 0,
            rd >= 0,
            a1 == p * rd + q,
    ;
    assert(0 <= a2) by (nonlinear_arith)
        requires
            i >= 0,
            j >= 0,
            rd >= 0,
            a2 == i * rd + j,
    ;
    if p < i || (p == i && q < j) {
        lemma_flat_order(rd, p, q, i, j);
        lemma_flat_order(ld, a1, s, a2, k);
        let b1 = a1 * ld + s;
        let b2 = a2 * ld + k;
        assert(0 <= b1) by (nonlinear_arith)
            requires
                a1 >= 0,
                s >= 0,
                ld >= 0,
                b1 == a1 * ld + s,
        ;
        lemma_flat_order(rd, b1, t, b2, l);
    } else {
        let b1 = a1 * ld + s;
        let b2 = a2 * ld + k;
        assert(0 <= b1) by (nonlinear_arith)
            requires
                a1 >= 0,
                s >= 0,
                ld >= 0,
                b1 == a1 * ld + s,
        ;
        if s < k {
            lemma_flat_order(ld, a1, s, a2, k);
        }
        lemma_flat_order(rd, b1, t, b2, l);
    }
}

/// The product of the concatenation is the product of the products.
pub proof fn lemma_product_concat(a: Seq<usize>, b: Seq<usize>)
    ensures
        product(a + b) == product(a) * product(b),
    decreases b.len(),
{
    if b.len() == 0 {
        assert(a + b =~= a);
        assert(product(b) == 1);
        assert(product(a) * 1 == product(a));
    } else {
        lemma_product_concat(a, b.drop_last());
        assert((a + b).drop_last() =~= a + b.drop_last());
        assert((a + b).last() == b.last());
        let pa = product(a);
        let pb = product(b.drop_last());
        let x = b.last() as nat;
        assert(product(a + b) == product(a + b.drop_last()) * x);
        assert(product(b) == pb * x);
        assert(pa * pb * x == pa * (pb * x)) by (nonlinear_arith);
        assert(product(a + b) == pa * pb * x);
    }
}

/// Appends the generated names of `vars`, counted from `offset`, to `out`,
/// and returns the renaming of `vars` to those names.
pub(crate) fn index_variables(vars: &Vec<String>, prefix: &str, offset: usize, out: &mut Vec<String>) -> (m:
    VarMap)
    requires
        offset + vars@.len() <= usize::MAX,
        names(old(out)@) == fresh_names(prefix@, offset as nat),
    ensures
        m@ == indexed_map(names(vars@), prefix@, offset as nat),
        names(final(out)@) == fresh_names(prefix@, (offset + vars@.len()) as nat),
{
    let mut m = VarMap::new();
    let mut i: usize = 0;
    assert(names(vars@).take(0) =~= Seq::<Seq<char>>::empty());
    while i < vars.len()
        invariant
            offset + vars@.len() <= usize::MAX,
            i <= vars@.len(),
            m@ == indexed_map(names(vars@).take(i as int), prefix@, offset as nat),
            names(out@) == fresh_names(prefix@, (offset + i) as nat),
        decreases vars@.len() - i,
    {
        let nm = indexed_name(prefix, offset + i);
        let ghost before = out@;
        out.push(nm.clone());
        assert(names(out@) =~= fresh_names(prefix@, (offset + i + 1) as nat)) by {
            assert(names(out@) =~= names(before).push(nm@));
        }
        let ghost t = names(vars@).take(i + 1);
        assert(t.drop_last() =~= names(vars@).take(i as int));
        m.insert(vars[i].clone(), nm);
        i = i + 1;
    }
    assert(names(vars@).take(i as int) =~= names(vars@));
    m
}

/// The lowest-terms form of a fraction equal to one is `1 / 1`.
proof fn lemma_reduced_one(d: int)
    requires
        d > 0,
    ensures
        reduced_form(d, d) == (1int, 1int),
{
    assert forall|k: int| 1 < k implies !(#[trigger] divides(k, 1) && divides(k, 1)) by {
        vstd::arithmetic::div_mod::lemma_small_mod(1, k as nat);
    }
    let w = (1int, 1int);
    assert(reduced(w.0, w.1) && w.0 * d == d * w.1);
    let r = reduced_form(d, d);
    assert(r.0 * d == d * r.1);
    assert(r.0 == r.1) by (nonlinear_arith)
        requires
            r.0 * d == d * r.1,
            d > 0,
    ;
    if r.1 > 1 {
        vstd::arithmetic::div_mod::lemma_mod_self_0(r.1);
        assert(divides(r.1, r.0) && divides(r.1, r.1));
        assert(!coprime(r.0, r.1));
    }
}

/// The lowest-terms form of a fraction equal to zero is `0 / 1`.
pub(crate) proof fn lemma_reduced_zero_canonical(d: int)
    requires
        d > 0,
    ensures
        reduced_form(0, d) == (0int, 1int),
{
    assert forall|k: int| 1 < k implies !(#[trigger] divides(k, 0) && divides(k, 1)) by {
        vstd::arithmetic::div_mod::lemma_small_mod(1, k as nat);
    }
    let w = (0int, 1int);
    assert(reduced(w.0, w.1) && w.0 * d == 0 * w.1);
    let r = reduced_form(0, d);
    assert(r.0 * d == 0 * r.1);
    assert(r.0 == 0) by (nonlinear_arith)
        requires
            r.0 * d == 0,
            d > 0,
    ;
    if r.1 > 1 {
        vstd::arithmetic::div_mod::lemma_mod_self_0(r.1);
        assert(divides(r.1, 0) && divides(r.1, r.1));
        assert(!coprime(r.0, r.1));
    }
}

/// The product of two identity entries is the identity entry of the pair.
proof fn lemma_identity_entry_product(
    i: int,
    k: int,
    j: int,
    l: int,
    ma: Map<Seq<char>, Seq<char>>,
    mb: Map<Seq<char>, Seq<char>>,
)
    ensures
        cmul(map_c(identity_entry(i, k), ma), map_c(identity_entry(j, l), mb)) == identity_entry(
            if i == k && j == l {
                0int
            } else {
                1int
            },
            0,
        ),
{
    reveal(mul_expr);
    reveal(sub_expr);
    reveal(add_expr);
    lemma_reduced_one(1);
    lemma_reduced_zero_canonical(1);
    let a = map_c(identity_entry(i, k), ma);
    let b = map_c(identity_entry(j, l), mb);
    assert(a == identity_entry(i, k));
    assert(b == identity_entry(j, l));
    assert(zero_expr() == Expr::Const((0int, 1int)));
    assert(one_expr() == Expr::Const((1int, 1int)));
}

/// The tensor product of two identity matrices is an identity matrix.
pub proof fn law_identity_otimes_identity(
    a: UnitaryModel,
    b: UnitaryModel,
    c: UnitaryModel,
    ma: Map<Seq<char>, Seq<char>>,
    mb: Map<Seq<char>, Seq<char>>,
)
    requires
        forall|i: int, j: int|
            0 <= i < dim(a) && 0 <= j < dim(a) ==> #[trigger] entry(a.body, dim(a), i, j)
                == identity_entry(i, j),
        forall|i: int, j: int|
            0 <= i < dim(b) && 0 <= j < dim(b) ==> #[trigger] entry(b.body, dim(b), i, j)
                == identity_entry(i, j),
        forall|i: int, j: int, k: int, l: int|
            0 <= i < dim(a) && 0 <= j < dim(b) && 0 <= k < dim(a) && 0 <= l < dim(b)
                ==> #[trigger] kron_at(c.body, dim(a), dim(b), i, j, k, l) == kron_value(
                a.body,
                b.body,
                dim(a),
                dim(b),
                ma,
                mb,
                i,
                j,
                k,
                l,
            ),
    ensures
        forall|p: int, q: int|
            0 <= p < dim(a) * dim(b) && 0 <= q < dim(a) * dim(b) ==> #[trigger] entry(
                c.body,
                dim(a) * dim(b),
                p,
                q,
            ) == identity_entry(p, q),
{
    let ld = dim(a);
    let rd = dim(b);
    assert forall|p: int, q: int|
        0 <= p < ld * rd && 0 <= q < ld * rd implies #[trigger] entry(c.body, ld * rd, p, q)
        == identity_entry(p, q) by {
        assert(rd > 0 && ld > 0) by (nonlinear_arith)
            requires
                0 <= p < ld * rd,
                ld >= 0,
                rd >= 0,
        ;
        let i = p / rd;
        let j = p % rd;
        let k = q / rd;
        let l = q % rd;
        vstd::arithmetic::div_mod::lemma_fundamental_div_mod(p, rd);
        vstd::arithmetic::div_mod::lemma_fundamental_div_mod(q, rd);
        assert(0 <= i < ld && 0 <= k < ld) by (nonlinear_arith)
            requires
                0 <= p < ld * rd,
                0 <= q < ld * rd,
                rd > 0,
                i == p / rd,
                k == q / rd,
        ;
        assert(p == i * rd + j && q == k * rd + l) by (nonlinear_arith)
            requires
                p == rd * (p / rd) + p % rd,
                q == rd * (q / rd) + q % rd,
                i == p / rd,
                j == p % rd,
                k == q / rd,
                l == q % rd,
        ;
        assert(kron_at(c.body, ld, rd, i, j, k, l) == kron_value(a.body, b.body, ld, rd, ma, mb, i, j, k, l));
        assert(entry(a.body, ld, i, k) == identity_entry(i, k));
        assert(entry(b.body, rd, j, l) == identity_entry(j, l));
        lemma_identity_entry_product(i, k, j, l, ma, mb);
        if p == q {
            vstd::arithmetic::div_mod::lemma_fundamental_div_mod_converse(p, rd, i, j);
        } else if i == k && j == l {
            assert(p == q);
        }
    }
}

/// Over an identity matrix, the running sum of a row times a column is one
/// exactly when the diagonal term has been added.
proof fn lemma_identity_dot_sum(
    a: Seq<(Expr, Expr)>,
    b: Seq<(Expr, Expr)>,
    d: int,
    ma: Map<Seq<char>, Seq<char>>,
    mb: Map<Seq<char>, Seq<char>>,
    i: int,
    j: int,
    k: nat,
)
    requires
        0 <= i < d,
        0 <= j < d,
        k < d,
        forall|p: int, q: int| 0 <= p < d && 0 <= q < d ==> #[trigger] entry(a, d, p, q) == identity_entry(p, q),
        forall|p: int, q: int| 0 <= p < d && 0 <= q < d ==> #[trigger] entry(b, d, p, q) == identity_entry(p, q),
    ensures
        dot_sum(a, b, d, ma, mb, i, j, k) == identity_entry(
            if i == j && i <= k {
                0int
            } else {
                1int
            },
            0,
        ),
    decreases k,
{
    assert(entry(a, d, i, k as int) == identity_entry(i, k as int));
    assert(entry(b, d, k as int, j) == identity_entry(k as int, j));
    lemma_identity_entry_product(i, k as int, k as int, j, ma, mb);
    if k > 0 {
        lemma_identity_dot_sum(a, b, d, ma, mb, i, j, (k - 1) as nat);
        reveal(add_expr);
        lemma_reduced_one(1);
        lemma_reduced_zero_canonical(1);
        assert(zero_expr() == Expr::Const((0int, 1int)));
        assert(one_expr() == Expr::Const((1int, 1int)));
    }
}

/// The product of two identity matrices is an identity matrix.
pub proof fn law_identity_dot_identity(
    a: UnitaryModel,
    b: UnitaryModel,
    c: UnitaryModel,
    ma: Map<Seq<char>, Seq<char>>,
    mb: Map<Seq<char>, Seq<char>>,
)
    requires
        dim(a) == dim(b),
        forall|i: int, j: int|
            0 <= i < dim(a) && 0 <= j < dim(a) ==> #[trigger] entry(a.body, dim(a), i, j)
                == identity_entry(i, j),
        forall|i: int, j: int|
            0 <= i < dim(b) && 0 <= j < dim(b) ==> #[trigger] entry(b.body, dim(b), i, j)
                == identity_entry(i, j),
        forall|i: int, j: int|
            0 <= i < dim(a) && 0 <= j < dim(a) ==> #[trigger] entry(c.body, dim(a), i, j) == dot_sum(
                a.body,
                b.body,
                dim(a),
                ma,
                mb,
                i,
                j,
                (dim(a) - 1) as nat,
            ),
    ensures
        forall|i: int, j: int|
            0 <= i < dim(a) && 0 <= j < dim(a) ==> #[trigger] entry(c.body, dim(a), i, j)
                == identity_entry(i, j),
{
    let d = dim(a);
    assert forall|i: int, j: int| 0 <= i < d && 0 <= j < d implies #[trigger] entry(c.body, d, i, j)
        == identity_entry(i, j) by {
        lemma_identity_dot_sum(a.body, b.body, d, ma, mb, i, j, (d - 1) as nat);
    }
}

impl UnitaryExpression {
    /// The tensor (Kronecker) product with `other`, named `A ⊗ B`, over the
    /// radices of `self` followed by those of `other`. The variables are
    /// renamed to `x0`, `x1`, ..., those of `self` first.
    pub fn otimes(&self, other: &UnitaryExpression) -> (r: UnitaryExpression)
        requires
            (dim(self@) * dim(other@)) * (dim(self@) * dim(other@)) <= usize::MAX,
            self@.variables.len() + other@.variables.len() <= usize::MAX,
        ensures
            r@.name == self@.name + " ⊗ "@ + other@.name,
            r@.variables == fresh_names("x"@, self@.variables.len() + other@.variables.len()),
            r@.radices == self@.radices + other@.radices,
            r@.body.len() == dim(r@) * dim(r@),
            dim(r@) == dim(self@) * dim(other@),
            forall|i: int, j: int, k: int, l: int|
                0 <= i < dim(self@) && 0 <= j < dim(other@) && 0 <= k < dim(self@) && 0 <= l < dim(
                    other@,
                ) ==> #[trigger] kron_at(r@.body, dim(self@), dim(other@), i, j, k, l) == kron_value(
                    self@.body,
                    other@.body,
                    dim(self@),
                    dim(other@),
                    indexed_map(self@.variables, "x"@, 0),
                    indexed_map(other@.variables, "x"@, self@.variables.len()),
                    i,
                    j,
                    k,
                    l,
                ),
    {
        let mut variables: Vec<String> = Vec::new();
        assert(names(variables@) =~= fresh_names("x"@, 0));
        let ms = index_variables(self.variables(), "x", 0, &mut variables);
        let mo = index_variables(other.variables(), "x", self.variables().len(), &mut variables);
        let ld = self.dimension();
        let rd = other.dimension();
        let ghost a = self@.body;
        let ghost b = other@.body;
        let ghost gms = ms@;
        let ghost gmo = mo@;
        let sb = self.elements();
        let ob = other.elements();
        proof {
            assert(ld * rd >= 1) by (nonlinear_arith)
                requires
                    ld >= 1,
                    rd >= 1,
            ;
            assert(ld * rd <= (ld * rd) * (ld * rd)) by (nonlinear_arith)
                requires
                    ld * rd >= 1,
            ;
        }
        let mut out: Vec<ComplexExpression> = Vec::new();
        let mut i: usize = 0;
        assert(flat4(ld as int, rd as int, 0, 0, 0, 0) == 0) by (nonlinear_arith);
        while i < ld
            invariant
                ld >= 1,
                rd >= 1,
                (ld * rd) * (ld * rd) <= usize::MAX,
                ld * ld <= usize::MAX,
                rd * rd <= usize::MAX,
                a == cmodels(sb@),
                b == cmodels(ob@),
                sb@.len() == ld * ld,
                ob@.len() == rd * rd,
                gms == ms@,
                gmo == mo@,
                i <= ld,
                out@.len() == flat4(ld as int, rd as int, i as int, 0, 0, 0),
                kron_done(cmodels(out@), a, b, ld as int, rd as int, gms, gmo, i as int, 0, 0, 0),
            decreases ld - i,
        {
            let mut j: usize = 0;
            while j < rd
                invariant
                    ld >= 1,
                    rd >= 1,
                    (ld * rd) * (ld * rd) <= usize::MAX,
                    ld * ld <= usize::MAX,
                    rd * rd <= usize::MAX,
                ld * ld <= usize::MAX,
                rd * rd <= usize::MAX,
                    a == cmodels(sb@),
                    b == cmodels(ob@),
                    sb@.len() == ld * ld,
                    ob@.len() == rd * rd,
                    gms == ms@,
                    gmo == mo@,
                    i < ld,
                    j <= rd,
                    out@.len() == flat4(ld as int, rd as int, i as int, j as int, 0, 0),
                    kron_done(cmodels(out@), a, b, ld as int, rd as int, gms, gmo, i as int, j as int, 0, 0),
                decreases rd - j,
            {
                let mut k: usize = 0;
                while k < ld
                    invariant
                        ld >= 1,
                        rd >= 1,
                        (ld * rd) * (ld * rd) <= usize::MAX,
                        ld * ld <= usize::MAX,
                        rd * rd <= usize::MAX,
                    ld * ld <= usize::MAX,
                    rd * rd <= usize::MAX,
                ld * ld <= usize::MAX,
                rd * rd <= usize::MAX,
                        a == cmodels(sb@),
                        b == cmodels(ob@),
                        sb@.len() == ld * ld,
                        ob@.len() == rd * rd,
                        gms == ms@,
                        gmo == mo@,
                        i < ld,
                        j < rd,
                        k <= ld,
                        out@.len() == flat4(ld as int, rd as int, i as int, j as int, k as int, 0),
                        kron_done(
                            cmodels(out@),
                            a,
                            b,
                            ld as int,
                            rd as int,
                            gms,
                            gmo,
                            i as int,
                            j as int,
                            k as int,
                            0,
                        ),
                    decreases ld - k,
                {
                    let mut l: usize = 0;
                    while l < rd
                        invariant
                            ld >= 1,
                            rd >= 1,
                            (ld * rd) * (ld * rd) <= usize::MAX,
                            ld * ld <= usize::MAX,
                            rd * rd <= usize::MAX,
                        ld * ld <= usize::MAX,
                        rd * rd <= usize::MAX,
                    ld * ld <= usize::MAX,
                    rd * rd <= usize::MAX,
                ld * ld <= usize::MAX,
                rd * rd <= usize::MAX,
                            a == cmodels(sb@),
                            b == cmodels(ob@),
                            sb@.len() == ld * ld,
                            ob@.len() == rd * rd,
                            gms == ms@,
                            gmo == mo@,
                            i < ld,
                            j < rd,
                            k < ld,
                            l <= rd,
                            out@.len() == flat4(ld as int, rd as int, i as int, j as int, k as int, l as int),
                            kron_done(
                                cmodels(out@),
                                a,
                                b,
                                ld as int,
                                rd as int,
                                gms,
                                gmo,
                                i as int,
                                j as int,
                                k as int,
                                l as int,
                            ),
                        decreases rd - l,
                    {
                        proof {
                            lemma_flat_bound(ld as int, i as int, k as int);
                            lemma_flat_bound(rd as int, j as int, l as int);
                        }
                        let x = sb[i * ld + k].map_var_names(&ms);
                        let y = ob[j * rd + l].map_var_names(&mo);
                        let ghost prev = cmodels(out@);
                        out.push(x.mul(&y));
                        proof {
                            let n = flat4(ld as int, rd as int, i as int, j as int, k as int, l as int);
                            assert forall|p: int, q: int, s: int, t: int|
                                0 <= p < ld && 0 <= q < rd && 0 <= s < ld && 0 <= t < rd && lex_lt(
                                    p,
                                    q,
                                    s,
                                    t,
                                    i as int,
                                    j as int,
                                    k as int,
                                    l + 1,
                                ) implies #[trigger] kron_at(cmodels(out@), ld as int, rd as int, p, q, s, t)
                                == kron_value(a, b, ld as int, rd as int, gms, gmo, p, q, s, t) by {
                                lemma_kron_index(ld as int, rd as int, p, q, s, t);
                                if p == i && q == j && s == k && t == l {
                                } else {
                                    lemma_flat4_order(
                                        ld as int,
                                        rd as int,
                                        p,
                                        q,
                                        s,
                                        t,
                                        i as int,
                                        j as int,
                                        k as int,
                                        l as int,
                                    );
                                    assert(kron_at(prev, ld as int, rd as int, p, q, s, t) == kron_value(
                                        a,
                                        b,
                                        ld as int,
                                        rd as int,
                                        gms,
                                        gmo,
                                        p,
                                        q,
                                        s,
                                        t,
                                    ));
                                }
                            }
                        }
                        l = l + 1;
                    }
                    proof {
                        let b0 = (i * rd + j) * ld + k;
                        lemma_next_row(rd as int, b0 as int);
                    }
                    k = k + 1;
                }
                proof {
                    let a0 = i * rd + j;
                    lemma_next_row(ld as int, a0 as int);
                    assert(flat4(ld as int, rd as int, i as int, j as int, ld as int, 0) == flat4(
                        ld as int,
                        rd as int,
                        i as int,
                        j + 1,
                        0,
                        0,
                    )) by (nonlinear_arith);
                }
                j = j + 1;
            }
            proof {
                assert(flat4(ld as int, rd as int, i as int, rd as int, 0, 0) == flat4(
                    ld as int,
                    rd as int,
                    i + 1,
                    0,
                    0,
                    0,
                )) by (nonlinear_arith);
            }
            i = i + 1;
        }
        proof {
            assert(flat4(ld as int, rd as int, ld as int, 0, 0, 0) == (ld * rd) * (ld * rd))
                by (nonlinear_arith);
        }
        let mut name = self.name().to_owned();
        name.append(" ⊗ ");
        name.append(other.name());
        let radices = self.radices().concat(&other.radices());
        proof {
            lemma_product_concat(self@.radices, other@.radices);
            assert forall|t: int| 0 <= t < radices@.len() implies #[trigger] radices@[t] >= 1 by {
                if t < self@.radices.len() {
                    assert(self@.radices[t] >= 1);
                } else {
                    assert(other@.radices[t - self@.radices.len()] >= 1);
                }
            }
        }
        UnitaryExpression::from_parts(name, variables, out, radices)
    }

    /// The matrix product with `other`, which must have the same dimension,
    /// named `A ⋅ B`, over the radices of `self`. The variables are renamed
    /// to `x0`, `x1`, ..., those of `self` first. Each entry is the sum of
    /// its products added from the left, as [`dot_sum`] says.
    pub fn dot(&self, other: &UnitaryExpression) -> (r: UnitaryExpression)
        requires
            dim(self@) == dim(other@),
            self@.variables.len() + other@.variables.len() <= usize::MAX,
        ensures
            r@.name == self@.name + " ⋅ "@ + other@.name,
            r@.variables == fresh_names("x"@, self@.variables.len() + other@.variables.len()),
            r@.radices == self@.radices,
            r@.body.len() == dim(self@) * dim(self@),
            forall|i: int, j: int|
                0 <= i < dim(self@) && 0 <= j < dim(self@) ==> #[trigger] entry(r@.body, dim(self@), i, j)
                    == dot_sum(
                    self@.body,
                    other@.body,
                    dim(self@),
                    indexed_map(self@.variables, "x"@, 0),
                    indexed_map(other@.variables, "x"@, self@.variables.len()),
                    i,
                    j,
                    (dim(self@) - 1) as nat,
                ),
    {
        let mut variables: Vec<String> = Vec::new();
        assert(names(variables@) =~= fresh_names("x"@, 0));
        let ms = index_variables(self.variables(), "x", 0, &mut variables);
        let mo = index_variables(other.variables(), "x", self.variables().len(), &mut variables);
        let d = self.dimension();
        let od = other.dimension();
        let ghost a = self@.body;
        let ghost b = other@.body;
        let ghost gms = ms@;
        let ghost gmo = mo@;
        let sb = self.elements();
        let ob = other.elements();
        let mut out: Vec<ComplexExpression> = Vec::new();
        let mut i: usize = 0;
        while i < d
            invariant
                d >= 1,
                d == od,
                d * d <= usize::MAX,
                a == cmodels(sb@),
                b == cmodels(ob@),
                sb@.len() == d * d,
                ob@.len() == d * d,
                gms == ms@,
                gmo == mo@,
                i <= d,
                out@.len() == i * d,
                forall|p: int, q: int|
                    0 <= p < i && 0 <= q < d ==> #[trigger] entry(cmodels(out@), d as int, p, q)
                        == dot_sum(a, b, d as int, gms, gmo, p, q, (d - 1) as nat),
            decreases d - i,
        {
            let mut j: usize = 0;
            while j < d
                invariant
                    d >= 1,
                    d == od,
                    d * d <= usize::MAX,
                    a == cmodels(sb@),
                    b == cmodels(ob@),
                    sb@.len() == d * d,
                    ob@.len() == d * d,
                    gms == ms@,
                    gmo == mo@,
                    i < d,
                    j <= d,
                    out@.len() == i * d + j,
                    forall|p: int, q: int|
                        (0 <= p < i && 0 <= q < d) || (p == i && 0 <= q < j) ==> #[trigger] entry(
                            cmodels(out@),
                            d as int,
                            p,
                            q,
                        ) == dot_sum(a, b, d as int, gms, gmo, p, q, (d - 1) as nat),
                decreases d - j,
            {
                proof {
                    lemma_flat_bound(d as int, i as int, 0);
                    lemma_flat_bound(d as int, 0, j as int);
                }
                let mut sum = sb[i * d].map_var_names(&ms).mul(&ob[j].map_var_names(&mo));
                let mut k: usize = 1;
                while k < d
                    invariant
                        d >= 1,
                        d * d <= usize::MAX,
                        a == cmodels(sb@),
                        b == cmodels(ob@),
                        sb@.len() == d * d,
                        ob@.len() == d * d,
                        gms == ms@,
                        gmo == mo@,
                        i < d,
                        j < d,
                        1 <= k <= d,
                        sum@ == dot_sum(a, b, d as int, gms, gmo, i as int, j as int, (k - 1) as nat),
                    decreases d - k,
                {
                    proof {
                        lemma_flat_bound(d as int, i as int, k as int);
                        lemma_flat_bound(d as int, k as int, j as int);
                    }
                    let term = sb[i * d + k].map_var_names(&ms).mul(&ob[k * d + j].map_var_names(&mo));
                    sum.add_assign(&term);
                    k = k + 1;
                }
                let ghost prev = cmodels(out@);
                out.push(sum);
                proof {
                    assert forall|p: int, q: int|
                        (0 <= p < i && 0 <= q < d) || (p == i && 0 <= q < j + 1) implies #[trigger] entry(
                        cmodels(out@),
                        d as int,
                        p,
                        q,
                    ) == dot_sum(a, b, d as int, gms, gmo, p, q, (d - 1) as nat) by {
                        if p == i && q == j {
                        } else {
                            lemma_flat_order(d as int, p, q, i as int, j as int);
                            assert(entry(prev, d as int, p, q) == dot_sum(
                                a,
                                b,
                                d as int,
                                gms,
                                gmo,
                                p,
                                q,
                                (d - 1) as nat,
                            ));
                        }
                    }
                }
                j = j + 1;
            }
            proof {
                lemma_next_row(d as int, i as int);
            }
            i = i + 1;
        }
        let mut name = self.name().to_owned();
        name.append(" ⋅ ");
        name.append(other.name());
        UnitaryExpression::from_parts(name, variables, out, self.radices())
    }
}

} // verus!
