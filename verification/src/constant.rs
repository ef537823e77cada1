//! Exact rational constants.
//!
//! A [`Constant`] stores its numerator and denominator as two's-complement,
//! little-endian byte strings. All arithmetic on them is carried out by the
//! `num` crate's `Ratio<BigInt>`; the library only states, and relies on,
//! what that arithmetic computes.

use num::bigint::BigInt;
use num::rational::Ratio;
use vstd::prelude::*;

verus! {

/// The value of a little-endian, unsigned, base-256 digit string.
pub open spec fn unsigned_le(s: Seq<u8>) -> nat
    decreases s.len(),
{
    if s.len() == 0 {
        0
    } else {
        s[0] as nat + 256 * unsigned_le(s.drop_first())
    }
}

/// `256` raised to the power `n`.
pub open spec fn pow256(n: nat) -> nat
    decreases n,
{
    if n == 0 {
        1
    } else {
        256 * pow256((n - 1) as nat)
    }
}

/// The value of a little-endian two's-complement byte string; the empty
/// string stands for zero.
pub open spec fn twos_le(s: Seq<u8>) -> int {
    if s.len() > 0 && s.last() >= 128 {
        unsigned_le(s) - pow256(s.len())
    } else {
        unsigned_le(s) as int
    }
}

/// `k` divides `a`.
pub open spec fn divides(k: int, a: int) -> bool {
    a % k == 0
}

/// No integer greater than one divides both `a` and `b`.
pub open spec fn coprime(a: int, b: int) -> bool {
    forall|k: int| 1 < k ==> !(#[trigger] divides(k, a) && divides(k, b))
}

/// `(n, d)` is a fraction in lowest terms with a positive denominator.
pub open spec fn reduced(n: int, d: int) -> bool {
    d > 0 && coprime(n, d)
}

/// The lowest-terms form of the fraction `n / d` (for `d != 0`): the
/// reduced pair whose value is `n / d`. It is unique, so the choice is
/// determined.
pub open spec fn reduced_form(n: int, d: int) -> (int, int) {
    choose|r: (int, int)| reduced(r.0, r.1) && r.0 * d == n * r.1
}

/// The exact sum of two fractions, in lowest terms.
pub open spec fn rat_add(a: (int, int), b: (int, int)) -> (int, int) {
    reduced_form(a.0 * b.1 + b.0 * a.1, a.1 * b.1)
}

/// The exact difference of two fractions, in lowest terms.
pub open spec fn rat_sub(a: (int, int), b: (int, int)) -> (int, int) {
    reduced_form(a.0 * b.1 - b.0 * a.1, a.1 * b.1)
}

/// The exact product of two fractions, in lowest terms.
pub open spec fn rat_mul(a: (int, int), b: (int, int)) -> (int, int) {
    reduced_form(a.0 * b.0, a.1 * b.1)
}

/// The exact quotient of two fractions, in lowest terms.
pub open spec fn rat_div(a: (int, int), b: (int, int)) -> (int, int) {
    reduced_form(a.0 * b.1, a.1 * b.0)
}

/// Two fractions with non-zero denominators denote the same number.
pub open spec fn rat_eq(a: (int, int), b: (int, int)) -> bool {
    a.0 * b.1 == b.0 * a.1
}

/// Sums and products of constants do not depend on the order of the
/// operands.
pub proof fn law_constant_arithmetic_commutes(a: (int, int), b: (int, int))
    ensures
        rat_add(a, b) == rat_add(b, a),
        rat_mul(a, b) == rat_mul(b, a),
        rat_eq(a, b) == rat_eq(b, a),
{
    assert(a.0 * b.1 + b.0 * a.1 == b.0 * a.1 + a.0 * b.1);
    assert(a.1 * b.1 == b.1 * a.1) by (nonlinear_arith);
    assert(a.0 * b.0 == b.0 * a.0) by (nonlinear_arith);
}

/// A multiple of a positive `k` leaves no remainder.
proof fn lemma_multiple_mod(k: int, q: int)
    requires
        k > 0,
    ensures
        (k * q) % k == 0,
{
    vstd::arithmetic::div_mod::lemma_mod_multiples_basic(q, k);
    assert(q * k == k * q) by (nonlinear_arith);
}

/// For `a` coprime to a positive `b`, no `m` strictly between zero and `b`
/// makes `a * m` a multiple of `b`.
proof fn lemma_no_small_multiple(a: int, b: int, m: int)
    requires
        b > 0,
        coprime(a, b),
        0 < m < b,
    ensures
        (a * m) % b != 0,
    decreases m,
{
    vstd::arithmetic::div_mod::lemma_fundamental_div_mod(b, m);
    vstd::arithmetic::div_mod::lemma_fundamental_div_mod(a * m, b);
    let q = b / m;
    let r = b % m;
    let k = (a * m) / b;
    if (a * m) % b == 0 {
        assert(a * m == b * k);
        if r == 0 {
            assert(b == m * q);
            assert(q > 1) by (nonlinear_arith)
                requires
                    b == m * q,
                    0 < m < b,
            ;
            assert(a == q * k) by (nonlinear_arith)
                requires
                    a * m == b * k,
                    b == m * q,
                    m > 0,
            ;
            lemma_multiple_mod(q, k);
            lemma_multiple_mod(q, m);
            assert(q * m == m * q) by (nonlinear_arith);
            assert(divides(q, a) && divides(q, b));
        } else {
            assert(a * r == b * (a - k * q)) by (nonlinear_arith)
                requires
                    b == m * q + r,
                    a * m == b * k,
            ;
            lemma_multiple_mod(b, a - k * q);
            lemma_no_small_multiple(a, b, r);
        }
    }
}

/// Euclid's lemma: for `a` coprime to a positive `b`, if `b` divides
/// `a * m` then `b` divides `m`.
proof fn lemma_euclid(a: int, b: int, m: int)
    requires
        b > 0,
        coprime(a, b),
        (a * m) % b == 0,
    ensures
        m % b == 0,
{
    vstd::arithmetic::div_mod::lemma_fundamental_div_mod(m, b);
    vstd::arithmetic::div_mod::lemma_fundamental_div_mod(a * m, b);
    let t = m / b;
    let s = m % b;
    let k = (a * m) / b;
    if s != 0 {
        assert(a * s == b * (k - a * t)) by (nonlinear_arith)
            requires
                m == b * t + s,
                a * m == b * k,
        ;
        lemma_multiple_mod(b, k - a * t);
        lemma_no_small_multiple(a, b, s);
    }
}

/// Two fractions in lowest terms with the same value are the same pair.
pub proof fn law_lowest_terms_unique(a: int, b: int, c: int, d: int)
    requires
        reduced(a, b),
        reduced(c, d),
        a * d == c * b,
    ensures
        a == c,
        b == d,
{
    assert(a * d == b * c) by (nonlinear_arith)
        requires
            a * d == c * b,
    ;
    lemma_multiple_mod(b, c);
    lemma_euclid(a, b, d);
    assert(c * b == d * a) by (nonlinear_arith)
        requires
            a * d == c * b,
    ;
    lemma_multiple_mod(d, a);
    lemma_euclid(c, d, b);
    vstd::arithmetic::div_mod::lemma_fundamental_div_mod(d, b);
    vstd::arithmetic::div_mod::lemma_fundamental_div_mod(b, d);
    assert(b == d) by (nonlinear_arith)
        requires
            b > 0,
            d > 0,
            d == b * (d / b),
            b == d * (b / d),
    ;
    assert(a == c) by (nonlinear_arith)
        requires
            a * d == c * b,
            b == d,
            d > 0,
    ;
}

/// The lowest-terms form of `n / d` is the one reduced pair with that
/// value.
pub proof fn law_reduced_form_unique(n: int, d: int, a: int, b: int)
    requires
        d != 0,
        reduced(a, b),
        a * d == n * b,
    ensures
        reduced_form(n, d) == (a, b),
{
    let w = (a, b);
    assert(reduced(w.0, w.1) && w.0 * d == n * w.1);
    let r = reduced_form(n, d);
    assert(reduced(r.0, r.1) && r.0 * d == n * r.1);
    assert(r.0 * b == a * r.1) by (nonlinear_arith)
        requires
            r.0 * d == n * r.1,
            a * d == n * b,
            d != 0,
    ;
    law_lowest_terms_unique(r.0, r.1, a, b);
}

/// Every fraction with a positive denominator has a form in lowest terms.
proof fn lemma_lowest_terms_exist(n: int, d: int)
    requires
        d > 0,
    ensures
        exists|r: (int, int)| reduced(r.0, r.1) && r.0 * d == n * r.1,
    decreases d,
{
    if coprime(n, d) {
        let w = (n, d);
        assert(reduced(w.0, w.1) && w.0 * d == n * w.1);
    } else {
        let k = choose|k: int| 1 < k && #[trigger] divides(k, n) && divides(k, d);
        vstd::arithmetic::div_mod::lemma_fundamental_div_mod(n, k);
        vstd::arithmetic::div_mod::lemma_fundamental_div_mod(d, k);
        let n1 = n / k;
        let d1 = d / k;
        assert(n == k * n1 && d == k * d1);
        assert(0 < d1 < d) by (nonlinear_arith)
            requires
                d == k * d1,
                d > 0,
                k > 1,
        ;
        lemma_lowest_terms_exist(n1, d1);
        let r = choose|r: (int, int)| reduced(r.0, r.1) && r.0 * d1 == n1 * r.1;
        assert(r.0 * d == n * r.1) by (nonlinear_arith)
            requires
                r.0 * d1 == n1 * r.1,
                n == k * n1,
                d == k * d1,
        ;
    }
}

/// The lowest-terms form of a fraction with a non-zero denominator is in
/// lowest terms and has the fraction's value.
pub proof fn law_reduced_form_value(n: int, d: int)
    requires
        d != 0,
    ensures
        reduced(reduced_form(n, d).0, reduced_form(n, d).1),
        reduced_form(n, d).0 * d == n * reduced_form(n, d).1,
{
    if d > 0 {
        lemma_lowest_terms_exist(n, d);
    } else {
        lemma_lowest_terms_exist(-n, -d);
        let r = choose|r: (int, int)| reduced(r.0, r.1) && r.0 * (-d) == (-n) * r.1;
        assert(r.0 * d == n * r.1) by (nonlinear_arith)
            requires
                r.0 * (-d) == (-n) * r.1,
        ;
    }
}

/// An exact rational number, always kept in lowest terms with a positive
/// denominator.
pub struct Constant {
    numer: Vec<u8>,
    denom: Vec<u8>,
}

impl View for Constant {
    type V = (int, int);

    /// The pair `(numerator, denominator)`.
    closed spec fn view(&self) -> (int, int) {
        (twos_le(self.numer@), twos_le(self.denom@))
    }
}

impl Constant {
    #[verifier::type_invariant]
    closed spec fn lowest_terms(self) -> bool {
        reduced(self@.0, self@.1)
    }

    /// The integer `n`, as the fraction `n / 1`.
    pub fn from_int(n: i64) -> (r: Constant)
        ensures
            r@ == (n as int, 1int),
    {
        ratio_from_integer(n)
    }

    /// The constant zero.
    pub fn zero() -> (r: Constant)
        ensures
            r@ == (0int, 1int),
    {
        ratio_from_integer(0)
    }

    /// The constant one.
    pub fn one() -> (r: Constant)
        ensures
            r@ == (1int, 1int),
    {
        ratio_from_integer(1)
    }

    /// Builds the constant `numer / denom` from two's-complement,
    /// little-endian byte strings, reducing it to lowest terms. Returns
    /// `None` exactly when the denominator is zero.
    pub fn from_parts(numer: Vec<u8>, denom: Vec<u8>) -> (r: Option<Constant>)
        ensures
            twos_le(denom@) == 0 <==> r is None,
            r matches Some(c) ==> c@ == reduced_form(twos_le(numer@), twos_le(denom@)),
    {
        if bytes_are_zero(&denom) {
            None
        } else {
            Some(ratio_new(numer, denom))
        }
    }

    /// The numerator, as a two's-complement little-endian byte string.
    pub fn numer_bytes(&self) -> (r: Vec<u8>)
        ensures
            twos_le(r@) == self@.0,
    {
        copy_bytes(&self.numer)
    }

    /// The denominator, as a two's-complement little-endian byte string.
    pub fn denom_bytes(&self) -> (r: Vec<u8>)
        ensures
            twos_le(r@) == self@.1,
    {
        copy_bytes(&self.denom)
    }

    /// Whether the numerator is zero, that is, whether the constant is zero.
    pub fn numer_is_zero(&self) -> (r: bool)
        ensures
            r == (self@.0 == 0),
    {
        bytes_are_zero(&self.numer)
    }

    /// Whether the numerator equals the denominator, that is, whether the
    /// constant is one.
    pub fn numer_eq_denom(&self) -> (r: bool)
        ensures
            r == (self@.0 == self@.1),
    {
        ratio_numer_eq_denom(self)
    }

    /// Shows the verifier that this constant is in lowest terms with a
    /// positive denominator, as every constant is; it computes nothing.
    pub fn in_lowest_terms(&self)
        ensures
            reduced(self@.0, self@.1),
    {
        proof {
            use_type_invariant(self);
        }
    }

    /// Whether two constants denote the same number.
    pub fn equals(&self, other: &Constant) -> (r: bool)
        ensures
            r == rat_eq(self@, other@),
    {
        proof {
            use_type_invariant(self);
            use_type_invariant(other);
        }
        ratio_eq(self, other)
    }

    /// The exact sum.
    pub fn plus(&self, other: &Constant) -> (r: Constant)
        ensures
            r@ == rat_add(self@, other@),
    {
        proof {
            use_type_invariant(self);
            use_type_invariant(other);
        }
        ratio_add(self, other)
    }

    /// The exact difference.
    pub fn minus(&self, other: &Constant) -> (r: Constant)
        ensures
            r@ == rat_sub(self@, other@),
    {
        proof {
            use_type_invariant(self);
            use_type_invariant(other);
        }
        ratio_sub(self, other)
    }

    /// The exact product.
    pub fn times(&self, other: &Constant) -> (r: Constant)
        ensures
            r@ == rat_mul(self@, other@),
    {
        proof {
            use_type_invariant(self);
            use_type_invariant(other);
        }
        ratio_mul(self, other)
    }

    /// The exact quotient; the divisor must not be zero.
    pub fn divided_by(&self, other: &Constant) -> (r: Constant)
        requires
            other@.0 != 0,
        ensures
            r@ == rat_div(self@, other@),
    {
        proof {
            use_type_invariant(self);
            use_type_invariant(other);
        }
        ratio_div(self, other)
    }
}

impl Clone for Constant {
    fn clone(&self) -> (r: Self)
        ensures
            r@ == self@,
    {
        proof {
            use_type_invariant(self);
        }
        Constant { numer: copy_bytes(&self.numer), denom: copy_bytes(&self.denom) }
    }
}

/// A copy of a byte string.
fn copy_bytes(v: &Vec<u8>) -> (r: Vec<u8>)
    ensures
        r@ == v@,
{
    let mut r: Vec<u8> = Vec::new();
    let mut i: usize = 0;
    while i < v.len()
        invariant
            i <= v.len(),
            r@ == v@.subrange(0, i as int),
        decreases v.len() - i,
    {
        r.push(v[i]);
        i = i + 1;
    }
    assert(v@.subrange(0, v.len() as int) == v@);
    r
}

/// Calls `Ratio::<BigInt>::new(BigInt::from(n), BigInt::from(1))`; as the
/// crate documents, `Ratio::new` reduces, so the result is `n / 1`.
#[verifier::external_body]
fn ratio_from_integer(n: i64) -> (r: Constant)
    ensures
        r@ == (n as int, 1int),
{
    let q = Ratio::new(BigInt::from(n), BigInt::from(1));
    Constant { numer: q.numer().to_signed_bytes_le(), denom: q.denom().to_signed_bytes_le() }
}

/// Calls `Ratio::<BigInt>::new` on the two decoded integers. The crate's
/// `new` divides both by their greatest common divisor and makes the
/// denominator positive; it panics on a zero denominator, which `requires`
/// excludes.
#[verifier::external_body]
fn ratio_new(numer: Vec<u8>, denom: Vec<u8>) -> (r: Constant)
    requires
        twos_le(denom@) != 0,
    ensures
        r@ == reduced_form(twos_le(numer@), twos_le(denom@)),
{
    let q = Ratio::new(BigInt::from_signed_bytes_le(&numer), BigInt::from_signed_bytes_le(&denom));
    Constant { numer: q.numer().to_signed_bytes_le(), denom: q.denom().to_signed_bytes_le() }
}

/// An unsigned digit string is zero exactly when every digit is, and its
/// value is below `256` to the power of its length.
proof fn lemma_unsigned_le(s: Seq<u8>)
    ensures
        (unsigned_le(s) == 0) == (forall|k: int| 0 <= k < s.len() ==> s[k] == 0),
        unsigned_le(s) < pow256(s.len()),
    decreases s.len(),
{
    if s.len() > 0 {
        let rest = s.drop_first();
        lemma_unsigned_le(rest);
        assert(pow256(s.len()) == 256 * pow256(rest.len()));
        if unsigned_le(s) == 0 {
            assert forall|k: int| 0 <= k < s.len() implies s[k] == 0 by {
                if k > 0 {
                    assert(rest[k - 1] == s[k]);
                }
            }
        }
        if forall|k: int| 0 <= k < s.len() ==> s[k] == 0 {
            assert forall|k: int| 0 <= k < rest.len() implies rest[k] == 0 by {
                assert(rest[k] == s[k + 1]);
            }
        }
    }
}

/// Whether the two's-complement byte string denotes zero: whether every
/// byte is zero.
fn bytes_are_zero(bytes: &Vec<u8>) -> (r: bool)
    ensures
        r == (twos_le(bytes@) == 0),
{
    let mut i: usize = 0;
    while i < bytes.len()
        invariant
            i <= bytes@.len(),
            forall|k: int| 0 <= k < i ==> bytes@[k] == 0,
        decreases bytes@.len() - i,
    {
        if bytes[i] != 0 {
            proof {
                lemma_unsigned_le(bytes@);
            }
            assert(bytes@[i as int] != 0);
            return false;
        }
        i = i + 1;
    }
    proof {
        lemma_unsigned_le(bytes@);
    }
    true
}

/// Compares `Ratio::numer()` with `Ratio::denom()`.
#[verifier::external_body]
fn ratio_numer_eq_denom(c: &Constant) -> (r: bool)
    ensures
        r == (c@.0 == c@.1),
{
    let q = Ratio::new_raw(BigInt::from_signed_bytes_le(&c.numer), BigInt::from_signed_bytes_le(&c.denom));
    *q.numer() == *q.denom()
}

/// Calls `<Ratio<BigInt> as PartialEq>::eq`, which compares the two values
/// as numbers (the crate compares `a/b` and `c/d` as `a*d` against `c*b`).
#[verifier::external_body]
fn ratio_eq(a: &Constant, b: &Constant) -> (r: bool)
    requires
        a@.1 != 0,
        b@.1 != 0,
    ensures
        r == rat_eq(a@, b@),
{
    let x = Ratio::new_raw(BigInt::from_signed_bytes_le(&a.numer), BigInt::from_signed_bytes_le(&a.denom));
    let y = Ratio::new_raw(BigInt::from_signed_bytes_le(&b.numer), BigInt::from_signed_bytes_le(&b.denom));
    x == y
}

/// Calls `<Ratio<BigInt> as Add>::add`; the crate builds the result with
/// `Ratio::new`, so it is the exact sum in lowest terms.
#[verifier::external_body]
fn ratio_add(a: &Constant, b: &Constant) -> (r: Constant)
    requires
        a@.1 != 0,
        b@.1 != 0,
    ensures
        r@ == rat_add(a@, b@),
{
    let x = Ratio::new_raw(BigInt::from_signed_bytes_le(&a.numer), BigInt::from_signed_bytes_le(&a.denom));
    let y = Ratio::new_raw(BigInt::from_signed_bytes_le(&b.numer), BigInt::from_signed_bytes_le(&b.denom));
    let q = x + y;
    Constant { numer: q.numer().to_signed_bytes_le(), denom: q.denom().to_signed_bytes_le() }
}

/// Calls `<Ratio<BigInt> as Sub>::sub`; the crate builds the result with
/// `Ratio::new`, so it is the exact difference in lowest terms.
#[verifier::external_body]
fn ratio_sub(a: &Constant, b: &Constant) -> (r: Constant)
    requires
        a@.1 != 0,
        b@.1 != 0,
    ensures
        r@ == rat_sub(a@, b@),
{
    let x = Ratio::new_raw(BigInt::from_signed_bytes_le(&a.numer), BigInt::from_signed_bytes_le(&a.denom));
    let y = Ratio::new_raw(BigInt::from_signed_bytes_le(&b.numer), BigInt::from_signed_bytes_le(&b.denom));
    let q = x - y;
    Constant { numer: q.numer().to_signed_bytes_le(), denom: q.denom().to_signed_bytes_le() }
}

/// Calls `<Ratio<BigInt> as Mul>::mul`; the crate builds the result with
/// `Ratio::new`, so it is the exact product in lowest terms.
#[verifier::external_body]
fn ratio_mul(a: &Constant, b: &Constant) -> (r: Constant)
    requires
        a@.1 != 0,
        b@.1 != 0,
    ensures
        r@ == rat_mul(a@, b@),
{
    let x = Ratio::new_raw(BigInt::from_signed_bytes_le(&a.numer), BigInt::from_signed_bytes_le(&a.denom));
    let y = Ratio::new_raw(BigInt::from_signed_bytes_le(&b.numer), BigInt::from_signed_bytes_le(&b.denom));
    let q = x * y;
    Constant { numer: q.numer().to_signed_bytes_le(), denom: q.denom().to_signed_bytes_le() }
}

/// Calls `<Ratio<BigInt> as Div>::div`; the crate builds the result with
/// `Ratio::new`, so it is the exact quotient in lowest terms. A zero
/// divisor makes the crate panic, and `requires` excludes it.
#[verifier::external_body]
fn ratio_div(a: &Constant, b: &Constant) -> (r: Constant)
    requires
        a@.1 != 0,
        b@.1 != 0,
        b@.0 != 0,
    ensures
        r@ == rat_div(a@, b@),
{
    let x = Ratio::new_raw(BigInt::from_signed_bytes_le(&a.numer), BigInt::from_signed_bytes_le(&a.denom));
    let y = Ratio::new_raw(BigInt::from_signed_bytes_le(&b.numer), BigInt::from_signed_bytes_le(&b.denom));
    let q = x / y;
    Constant { numer: q.numer().to_signed_bytes_le(), denom: q.denom().to_signed_bytes_le() }
}

} // verus!
