//! Block splitting and histogram clustering: a greedy boundary search over
//! the byte stream compares the entropy cost of one table against two, and
//! a greedy bottom-up merge folds statistically similar neighbours into a
//! bounded number of shared code tables.

use vstd::prelude::*;
use crate::prefixcode::{pot2, lemma_pot2_64};

verus! {

/// Number of bits in the binary representation of `x`.
pub open spec fn spec_bitlen(x: int) -> int
    decreases x,
{
    if x <= 0 {
        0
    } else {
        1 + spec_bitlen(x / 2)
    }
}

pub proof fn lemma_bitlen_nonneg(x: int)
    ensures
        spec_bitlen(x) >= 0,
    decreases x,
{
    if x > 0 {
        lemma_bitlen_nonneg(x / 2);
    }
}

pub proof fn lemma_bitlen_le(x: int, k: int)
    requires
        0 <= k,
        0 <= x < pot2(k),
    ensures
        spec_bitlen(x) <= k,
    decreases k,
{
    if k > 0 && x > 0 {
        lemma_bitlen_le(x / 2, k - 1);
    }
}

/// The format never allows more than this many distinct code tables for
/// one token class in one meta-block.
pub const MAX_TABLES: usize = 256;

/// Cost charged for describing one extra code table.
pub const TABLE_OVERHEAD: u64 = 480;

/// Bit length of `x`: the integer part of its base-two logarithm plus one.
fn bit_length(x: u64) -> (r: u32)
    ensures
        r <= 64,
        r == spec_bitlen(x as int),
{
    proof {
        lemma_pot2_64();
        lemma_bitlen_le(x as int, 64);
    }
    let mut n: u32 = 0;
    let mut t: u64 = x;
    while t > 0
        invariant
            spec_bitlen(x as int) == n + spec_bitlen(t as int),
            n + spec_bitlen(t as int) <= 64,
        decreases t,
    {
        proof {
            assert(spec_bitlen(t as int) == 1 + spec_bitlen(t as int / 2));
            lemma_bitlen_nonneg(t as int / 2);
        }
        t = t / 2;
        n = if n < 64 {
            n + 1
        } else {
            n
        };
    }
    n
}

/// Token total of a count table, saturating at the cost ceiling.
pub open spec fn spec_sat_total(counts: Seq<u64>) -> int
    decreases counts.len(),
{
    if counts.len() == 0 {
        0
    } else {
        let rest = spec_sat_total(counts.drop_last());
        if counts.last() <= 0x4000_0000_0000_0000 - rest {
            rest + counts.last()
        } else {
            0x4000_0000_0000_0000
        }
    }
}

/// The entropy estimate: a token of a symbol counted `c` times out of a
/// total with bit length `lt` costs about `lt - bitlen(c)` bits, one at
/// least; sums saturate at the ceiling.
pub open spec fn spec_cost_sum(counts: Seq<u64>, lt: int) -> int
    decreases counts.len(),
{
    if counts.len() == 0 {
        0
    } else {
        let rest = spec_cost_sum(counts.drop_last(), lt);
        let c = counts.last() as int;
        if c > 0 {
            let lc = spec_bitlen(c);
            let per: int = if lt > lc {
                lt - lc
            } else {
                1
            };
            let add: int = if c <= 0x0000_ffff_ffff_ffff && per <= 65 {
                c * per
            } else {
                0x4000_0000_0000_0000
            };
            if add <= 0x4000_0000_0000_0000 - rest {
                rest + add
            } else {
                0x4000_0000_0000_0000
            }
        } else {
            rest
        }
    }
}

/// The splitter's and clusterer's cost oracle, as a function of the counts.
pub open spec fn spec_histogram_cost(counts: Seq<u64>) -> int {
    spec_cost_sum(counts, spec_bitlen(spec_sat_total(counts)))
}

/// Approximate bits to code the tokens counted in `counts` under their own
/// optimal table: each token of a symbol with count `c` costs about
/// `log2(total) - log2(c)` bits. This is the pure cost oracle the splitter
/// and clusterer steer by; no tree is materialised.
pub fn histogram_cost(counts: &Vec<u64>) -> (cost: u64)
    ensures
        cost <= 0x4000_0000_0000_0000,
        cost == spec_histogram_cost(counts@),
{
    let mut total: u64 = 0;
    let mut i: usize = 0;
    proof {
        assert(counts@.take(0) =~= Seq::<u64>::empty());
    }
    while i < counts.len()
        invariant
            i <= counts.len(),
            total <= 0x4000_0000_0000_0000,
            total == spec_sat_total(counts@.take(i as int)),
        decreases counts.len() - i,
    {
        proof {
            assert(counts@.take(i + 1).drop_last() =~= counts@.take(i as int));
            assert(counts@.take(i + 1).last() == counts@[i as int]);
        }
        let c = counts[i];
        total = if c <= 0x4000_0000_0000_0000 - total {
            total + c
        } else {
            0x4000_0000_0000_0000
        };
        i = i + 1;
    }
    proof {
        assert(counts@.take(counts@.len() as int) =~= counts@);
    }
    let lt = bit_length(total);
    let mut cost: u64 = 0;
    let mut j: usize = 0;
    proof {
        assert(counts@.take(0) =~= Seq::<u64>::empty());
    }
    while j < counts.len()
        invariant
            j <= counts.len(),
            lt <= 64,
            lt == spec_bitlen(spec_sat_total(counts@)),
            cost <= 0x4000_0000_0000_0000,
            cost == spec_cost_sum(counts@.take(j as int), lt as int),
        decreases counts.len() - j,
    {
        proof {
            assert(counts@.take(j + 1).drop_last() =~= counts@.take(j as int));
            assert(counts@.take(j + 1).last() == counts@[j as int]);
        }
        let c = counts[j];
        if c > 0 {
            let lc = bit_length(c);
            let per: u64 = if lt > lc {
                (lt - lc) as u64
            } else {
                1
            };
            let add: u64 = if c <= 0x0000_ffff_ffff_ffff && per <= 65 {
                proof {
                    assert(c * per <= 0x0000_ffff_ffff_ffff * 65) by (nonlinear_arith)
                        requires
                            c <= 0x0000_ffff_ffff_ffff,
                            per <= 65,
                    ;
                }
                c * per
            } else {
                0x4000_0000_0000_0000
            };
            cost = if add <= 0x4000_0000_0000_0000 - cost {
                cost + add
            } else {
                0x4000_0000_0000_0000
            };
        }
        j = j + 1;
    }
    proof {
        assert(counts@.take(counts@.len() as int) =~= counts@);
    }
    cost
}

/// Occurrences of byte `b` in `s[from .. to]`.
pub open spec fn count_byte(s: Seq<u8>, from: int, to: int, b: u8) -> int
    decreases to - from,
{
    if from >= to {
        0
    } else {
        count_byte(s, from, to - 1, b) + if s[to - 1] == b {
            1int
        } else {
            0int
        }
    }
}

pub proof fn lemma_count_byte_le(s: Seq<u8>, from: int, to: int, b: u8)
    requires
        from <= to,
    ensures
        0 <= count_byte(s, from, to, b) <= to - from,
    decreases to - from,
{
    if from < to {
        lemma_count_byte_le(s, from, to - 1, b);
    }
}

/// The byte statistics of a range, as a function of the data.
pub open spec fn spec_byte_hist(data: Seq<u8>, start: int, end: int) -> Seq<u64> {
    Seq::new(256, |b: int| count_byte(data, start, end, b as u8) as u64)
}

/// Byte histogram of `data[start .. end]`: entry `b` is exactly the
/// number of occurrences of byte `b` in the range.
pub fn byte_histogram(data: &Vec<u8>, start: usize, end: usize) -> (h: Vec<u64>)
    requires
        start <= end <= data.len(),
        end - start <= 0x0100_0000,
    ensures
        h.len() == 256,
        forall|b: int|
            0 <= b < 256 ==> #[trigger] h@[b] == count_byte(
                data@,
                start as int,
                end as int,
                b as u8,
            ),
        h@ == spec_byte_hist(data@, start as int, end as int),
{
    let mut h: Vec<u64> = Vec::new();
    let mut i: usize = 0;
    while i < 256
        invariant
            h.len() == i,
            i <= 256,
            forall|q: int| 0 <= q < h.len() ==> #[trigger] h@[q] == 0,
        decreases 256 - i,
    {
        h.push(0);
        i = i + 1;
    }
    let mut p: usize = start;
    proof {
        assert forall|b: int| 0 <= b < 256 implies #[trigger] h@[b] == count_byte(
            data@,
            start as int,
            start as int,
            b as u8,
        ) by {}
    }
    while p < end
        invariant
            start <= p <= end,
            end <= data.len(),
            h.len() == 256,
            end - start <= 0x0100_0000,
            forall|b: int|
                0 <= b < 256 ==> #[trigger] h@[b] == count_byte(
                    data@,
                    start as int,
                    p as int,
                    b as u8,
                ),
        decreases end - p,
    {
        let b = data[p] as usize;
        proof {
            lemma_count_byte_le(data@, start as int, p as int, data@[p as int]);
        }
        let c = h[b];
        let ghost hpre = h@;
        h.set(b, c + 1);
        proof {
            assert forall|bb: int| 0 <= bb < 256 implies #[trigger] h@[bb] == count_byte(
                data@,
                start as int,
                p + 1,
                bb as u8,
            ) by {
                assert(count_byte(data@, start as int, p + 1, bb as u8) == count_byte(
                    data@,
                    start as int,
                    p as int,
                    bb as u8,
                ) + if data@[p as int] == bb as u8 {
                    1int
                } else {
                    0int
                });
                if bb != b {
                    assert(h@[bb] == hpre[bb]);
                }
            }
        }
        p = p + 1;
    }
    proof {
        assert forall|b: int| 0 <= b < 256 implies h@[b] == spec_byte_hist(
            data@,
            start as int,
            end as int,
        )[b] by {
            lemma_count_byte_le(data@, start as int, end as int, b as u8);
        }
        assert(h@ =~= spec_byte_hist(data@, start as int, end as int));
    }
    h
}

/// Greedy block boundary: the candidate cut of `data[start .. end]` where
/// coding the halves separately (one extra table included) undercuts one
/// shared table, if any; `end` means no worthwhile boundary. Short ranges
/// collapse to a single block. A returned cut strictly beats the
/// one-table cost under the entropy oracle.
pub fn best_split(data: &Vec<u8>, start: usize, end: usize) -> (s: usize)
    requires
        start <= end <= data.len(),
        end <= 0x0400_0000,
        end - start <= 0x0100_0000,
    ensures
        start <= s <= end,
        s == end || (start < s && s < end),
        s < end ==> spec_histogram_cost(spec_byte_hist(data@, start as int, s as int))
            + spec_histogram_cost(spec_byte_hist(data@, s as int, end as int)) + TABLE_OVERHEAD
            < spec_histogram_cost(spec_byte_hist(data@, start as int, end as int)),
{
    let len = end - start;
    if len < 128 {
        // Below the minimum block length nothing is split.
        return end;
    }
    let whole = histogram_cost(&byte_histogram(data, start, end));
    let mut best: usize = end;
    let mut best_cost: u64 = whole;
    // Try a handful of evenly spaced candidate boundaries.
    let step: usize = if len / 8 > 256 {
        len / 8
    } else {
        256
    };
    let mut cut: usize = start + step;
    while cut < end
        invariant
            start < cut,
            256 <= step <= 0x0100_0000,
            start <= end <= data.len(),
            end <= 0x0400_0000,
            end - start <= 0x0100_0000,
            best == end || (start < best && best < end),
            whole == spec_histogram_cost(spec_byte_hist(data@, start as int, end as int)),
            whole <= 0x4000_0000_0000_0000,
            best_cost <= whole,
            best < end ==> best_cost == spec_histogram_cost(
                spec_byte_hist(data@, start as int, best as int),
            ) + spec_histogram_cost(spec_byte_hist(data@, best as int, end as int))
                + TABLE_OVERHEAD && best_cost < whole,
        decreases end - cut,
    {
        let left = histogram_cost(&byte_histogram(data, start, cut));
        let right = histogram_cost(&byte_histogram(data, cut, end));
        let two: u64 = if left <= u64::MAX - right {
            left + right
        } else {
            u64::MAX
        };
        let two_t: u64 = if two <= u64::MAX - TABLE_OVERHEAD {
            two + TABLE_OVERHEAD
        } else {
            u64::MAX
        };
        if two_t < best_cost {
            best_cost = two_t;
            best = cut;
        }
        if cut + step >= end {
            break ;
        }
        cut = cut + step;
    }
    best
}

/// Greedy bottom-up clustering: merge the pair of histograms whose shared
/// table costs the least extra, while profitable or while over the cap.
/// The result maps every input block to one of at most `cap` tables —
/// the format's ceiling on distinct code tables is never exceeded.
pub fn cluster_histograms(hs: &Vec<Vec<u64>>, cap: usize) -> (r: (Vec<Vec<u64>>, Vec<usize>))
    requires
        1 <= cap,
        hs.len() >= 1,
    ensures
        1 <= r.0.len() <= cap,
        r.1.len() == hs.len(),
        forall|i: int| 0 <= i < r.1.len() ==> #[trigger] r.1@[i] < r.0.len(),
{
    // Start with one cluster per block.
    let mut clusters: Vec<Vec<u64>> = Vec::new();
    let mut map: Vec<usize> = Vec::new();
    let mut i: usize = 0;
    while i < hs.len()
        invariant
            i <= hs.len(),
            clusters.len() == i,
            map.len() == i,
            forall|q: int| 0 <= q < map.len() ==> #[trigger] map@[q] < clusters.len(),
        decreases hs.len() - i,
    {
        clusters.push(hs[i].clone());
        map.push(i);
        i = i + 1;
    }
    loop
        invariant
            1 <= clusters.len() <= hs.len(),
            1 <= cap,
            map.len() == hs.len(),
            forall|q: int| 0 <= q < map.len() ==> #[trigger] map@[q] < clusters.len(),
        ensures
            1 <= clusters.len() <= cap,
            map.len() == hs.len(),
            forall|q: int| 0 <= q < map.len() ==> #[trigger] map@[q] < clusters.len(),
        decreases clusters.len(),
    {
        if clusters.len() <= 1 {
            break ;
        }
        // Find the cheapest merge.
        let mut bi: usize = 0;
        let mut bj: usize = 1;
        let mut bdelta: u64 = u64::MAX;
        let mut a: usize = 0;
        while a < clusters.len()
            invariant
                clusters.len() >= 2,
                bi < bj,
                bj < clusters.len(),
                a <= clusters.len(),
            decreases clusters.len() - a,
        {
            let ca = histogram_cost(&clusters[a]);
            let mut b: usize = a + 1;
            while b < clusters.len()
                invariant
                    a < clusters.len(),
                    clusters.len() >= 2,
                    bi < bj,
                    bj < clusters.len(),
                    a + 1 <= b,
                decreases clusters.len() - b,
            {
                let merged = merge_counts(&clusters[a], &clusters[b]);
                let cm = histogram_cost(&merged);
                let cb = histogram_cost(&clusters[b]);
                let apart: u64 = if ca <= u64::MAX - cb {
                    ca + cb
                } else {
                    u64::MAX
                };
                let delta: u64 = if cm > apart {
                    cm - apart
                } else {
                    0
                };
                if delta < bdelta {
                    bdelta = delta;
                    bi = a;
                    bj = b;
                }
                b = b + 1;
            }
            a = a + 1;
        }
        let over_cap = clusters.len() > cap;
        let profitable = bdelta <= TABLE_OVERHEAD;
        if !over_cap && !profitable {
            break ;
        }
        // Merge bj into bi and renumber the map.
        let merged = merge_counts(&clusters[bi], &clusters[bj]);
        clusters.set(bi, merged);
        let _gone = clusters.remove(bj);
        let mut m: usize = 0;
        while m < map.len()
            invariant
                m <= map.len(),
                map.len() == hs.len(),
                bi < bj,
                bj <= clusters.len(),
                clusters.len() >= 1,
                forall|q: int| 0 <= q < m ==> #[trigger] map@[q] < clusters.len(),
                forall|q: int| m <= q < map.len() ==> #[trigger] map@[q] < clusters.len() + 1,
            decreases map.len() - m,
        {
            let v = map[m];
            if v == bj {
                map.set(m, bi);
            } else if v > bj {
                map.set(m, v - 1);
            }
            m = m + 1;
        }
    }
    (clusters, map)
}

/// Element-wise sum of two count tables (the shared-table statistics),
/// saturating at the counter ceiling.
fn merge_counts(a: &Vec<u64>, b: &Vec<u64>) -> (m: Vec<u64>)
    ensures
        m.len() == a.len(),
        forall|i: int|
            0 <= i < m.len() ==> #[trigger] m@[i] == {
                let bv: int = if i < b.len() {
                    b@[i] as int
                } else {
                    0
                };
                if a@[i] + bv <= u64::MAX {
                    a@[i] + bv
                } else {
                    u64::MAX as int
                }
            },
{
    let mut m: Vec<u64> = Vec::new();
    let mut i: usize = 0;
    while i < a.len()
        invariant
            i <= a.len(),
            m.len() == i,
            forall|q: int|
                0 <= q < m.len() ==> #[trigger] m@[q] == {
                    let bv: int = if q < b.len() {
                        b@[q] as int
                    } else {
                        0
                    };
                    if a@[q] + bv <= u64::MAX {
                        a@[q] + bv
                    } else {
                        u64::MAX as int
                    }
                },
        decreases a.len() - i,
    {
        let x = a[i];
        let y = if i < b.len() {
            b[i]
        } else {
            0
        };
        let s: u64 = if x <= u64::MAX - y {
            x + y
        } else {
            u64::MAX
        };
        m.push(s);
        i = i + 1;
    }
    m
}

} // verus!
