//! The radices of a qudit system: the dimension of each qudit.

use vstd::prelude::*;

verus! {

/// The product of the entries of `s`; the empty product is one.
pub open spec fn product(s: Seq<usize>) -> nat
    decreases s.len(),
{
    if s.len() == 0 {
        1
    } else {
        product(s.drop_last()) * (s.last() as nat)
    }
}

/// Every entry of `s` is at least one.
pub open spec fn all_positive(s: Seq<usize>) -> bool {
    forall|i: int| 0 <= i < s.len() ==> #[trigger] s[i] >= 1
}

/// The product of a prefix of positive entries is positive and at most the
/// product of the whole sequence.
pub proof fn lemma_product_prefix(s: Seq<usize>, i: int)
    requires
        all_positive(s),
        0 <= i <= s.len(),
    ensures
        1 <= product(s.take(i)) <= product(s),
    decreases s.len(),
{
    if i == s.len() {
        assert(s.take(i) =~= s);
        if s.len() > 0 {
            lemma_product_prefix(s.drop_last(), i - 1);
            assert(s.drop_last().take(i - 1) =~= s.drop_last());
            let p = product(s.drop_last());
            let l = s.last() as nat;
            assert(s[s.len() - 1] >= 1);
            assert(p * l >= 1) by (nonlinear_arith)
                requires
                    p >= 1,
                    l >= 1,
            ;
        }
    } else {
        let t = s.drop_last();
        assert(t.take(i) =~= s.take(i));
        assert forall|k: int| 0 <= k < t.len() implies #[trigger] t[k] >= 1 by {
            assert(s[k] >= 1);
        }
        lemma_product_prefix(t, i);
        let p = product(t);
        let l = s.last() as nat;
        assert(s[s.len() - 1] >= 1);
        assert(p <= p * l) by (nonlinear_arith)
            requires
                p >= 1,
                l >= 1,
        ;
    }
}

/// The radices of a qudit system: the dimension of each qudit, in order.
/// [`Radices::new`] accepts only radices of at least one.
pub struct Radices {
    radices: Vec<usize>,
}

impl View for Radices {
    type V = Seq<usize>;

    closed spec fn view(&self) -> Seq<usize> {
        self.radices@
    }
}

impl Radices {
    /// The radices `radices`; each must be at least one.
    pub fn new(radices: Vec<usize>) -> (r: Radices)
        requires
            all_positive(radices@),
        ensures
            r@ == radices@,
    {
        Radices { radices }
    }

    /// The radices as a vector.
    pub fn to_vec(&self) -> (r: Vec<usize>)
        ensures
            r@ == self@,
    {
        self.radices.clone()
    }

    /// The number of qudits.
    pub fn num_qudits(&self) -> (r: usize)
        ensures
            r == self@.len(),
    {
        self.radices.len()
    }

    /// The dimension of the system: the product of the radices.
    pub fn dimension(&self) -> (r: usize)
        requires
            all_positive(self@),
            product(self@) <= usize::MAX,
        ensures
            r == product(self@),
    {
        let ghost s = self.radices@;
        let mut acc: usize = 1;
        let mut i: usize = 0;
        assert(s.take(0) =~= Seq::<usize>::empty());
        while i < self.radices.len()
            invariant
                s == self.radices@,
                all_positive(s),
                product(s) <= usize::MAX,
                i <= s.len(),
                acc == product(s.take(i as int)),
            decreases s.len() - i,
        {
            proof {
                lemma_product_prefix(s, i + 1);
                assert(s.take(i + 1).drop_last() =~= s.take(i as int));
            }
            acc = acc * self.radices[i];
            i = i + 1;
        }
        assert(s.take(i as int) =~= s);
        acc
    }

    /// The radices of `self` followed by those of `other`.
    pub fn concat(&self, other: &Radices) -> (r: Radices)
        ensures
            r@ == self@ + other@,
    {
        let mut v = self.radices.clone();
        let mut i: usize = 0;
        while i < other.radices.len()
            invariant
                i <= other@.len(),
                v@ == self@ + other@.take(i as int),
            decreases other@.len() - i,
        {
            v.push(other.radices[i]);
            i = i + 1;
            assert(v@ =~= self@ + other@.take(i as int));
        }
        assert(other@.take(i as int) =~= other@);
        Radices { radices: v }
    }
}

impl Clone for Radices {
    fn clone(&self) -> (r: Self)
        ensures
            r@ == self@,
    {
        Radices { radices: self.radices.clone() }
    }
}

} // verus!
