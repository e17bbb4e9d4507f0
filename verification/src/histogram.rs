//! Per-meta-block symbol statistics: fixed-alphabet frequency tables with a
//! cached total, rebuilt fresh for every meta-block. The invariant that the
//! counts sum to the number of tokens added is part of the type.

use vstd::prelude::*;

verus! {

/// Sum of a count table.
pub open spec fn sum_counts(s: Seq<u32>) -> int
    decreases s.len(),
{
    if s.len() == 0 {
        0
    } else {
        sum_counts(s.drop_last()) + s.last()
    }
}

pub proof fn lemma_sum_nonneg(s: Seq<u32>)
    ensures
        sum_counts(s) >= 0,
    decreases s.len(),
{
    if s.len() > 0 {
        lemma_sum_nonneg(s.drop_last());
    }
}

pub proof fn lemma_elem_le_sum(s: Seq<u32>, i: int)
    requires
        0 <= i < s.len(),
    ensures
        s[i] <= sum_counts(s),
    decreases s.len(),
{
    if i == s.len() - 1 {
        lemma_sum_nonneg(s.drop_last());
    } else {
        lemma_elem_le_sum(s.drop_last(), i);
    }
}

pub proof fn lemma_sum_update(s: Seq<u32>, i: int, v: u32)
    requires
        0 <= i < s.len(),
    ensures
        sum_counts(s.update(i, v)) == sum_counts(s) - s[i] + v,
    decreases s.len(),
{
    if i == s.len() - 1 {
        assert(s.update(i, v).drop_last() =~= s.drop_last());
        assert(s.update(i, v).last() == v);
    } else {
        assert(s.update(i, v).drop_last() =~= s.drop_last().update(i, v));
        assert(s.update(i, v).last() == s.last());
        lemma_sum_update(s.drop_last(), i, v);
    }
}

/// Histogram accounting: the counts of a well-formed histogram sum to
/// exactly the number of tokens recorded in it.
pub proof fn lemma_histogram_accounting(h: &Histogram)
    requires
        h.wf(),
    ensures
        sum_counts(h.counts@) == h.total,
{
}

/// Frequency table over one token-class alphabet plus its cached total.
pub struct Histogram {
    pub counts: Vec<u32>,
    pub total: u64,
}

impl Histogram {
    /// The cached total always equals the sum of the counts.
    pub open spec fn wf(&self) -> bool {
        &&& self.total == sum_counts(self.counts@)
        &&& self.total <= 0xffff_ffff
    }

    pub fn new(n: usize) -> (h: Histogram)
        ensures
            h.wf(),
            h.counts.len() == n,
            h.total == 0,
    {
        let mut counts: Vec<u32> = Vec::new();
        let mut i: usize = 0;
        while i < n
            invariant
                counts.len() == i,
                i <= n,
                sum_counts(counts@) == 0,
            decreases n - i,
        {
            proof {
                assert(counts@.push(0u32).drop_last() =~= counts@);
            }
            counts.push(0);
            i = i + 1;
        }
        Histogram { counts, total: 0 }
    }

    /// Record one token of class `sym`.
    pub fn add(&mut self, sym: usize)
        requires
            old(self).wf(),
            sym < old(self).counts.len(),
            old(self).total < 0xffff_ffff,
        ensures
            final(self).wf(),
            final(self).counts.len() == old(self).counts.len(),
            final(self).total == old(self).total + 1,
            final(self).counts@ == old(self).counts@.update(
                sym as int,
                (old(self).counts@[sym as int] + 1) as u32,
            ),
    {
        proof {
            lemma_elem_le_sum(self.counts@, sym as int);
            lemma_sum_update(self.counts@, sym as int, (self.counts@[sym as int] + 1) as u32);
        }
        let c = self.counts[sym];
        self.counts.set(sym, c + 1);
        self.total = self.total + 1;
    }
}

/// Literal context id of the mode the serialiser announces (the low six
/// bits of the previous output byte), matching bit for bit the function an
/// independent reader uses to route literals, since only the context-to-
/// table map is transmitted, never the context itself.
pub fn literal_context(p1: u8, p2: u8) -> (c: u8)
    ensures
        c == p1 % 64,
        c < 64,
{
    let _ = p2;
    p1 % 64
}

/// Distance context of a copy: short copies get their own statistics.
pub fn distance_context(copy_len: u32) -> (c: u8)
    ensures
        c <= 3,
        copy_len >= 2 ==> c == (if copy_len > 4 { 3int } else { copy_len - 2 }),
{
    if copy_len > 4 {
        3
    } else if copy_len >= 2 {
        (copy_len - 2) as u8
    } else {
        0
    }
}

} // verus!
