//! Entropy-code construction: canonical, length-limited prefix codes built
//! from a histogram by iterative two-smallest-weight merges over a flat
//! indexed node arena, with a balanced-code fallback that guarantees the
//! depth limit on pathological inputs.

use vstd::prelude::*;
use crate::prefixcode::{pot2, lemma_pot2_25_26, lemma_pot2_mono};

verus! {

/// Number of strictly positive entries in a count table.
pub open spec fn num_positive(s: Seq<u32>) -> int
    decreases s.len(),
{
    if s.len() == 0 {
        0
    } else {
        num_positive(s.drop_last()) + if s.last() > 0 {
            1int
        } else {
            0int
        }
    }
}

/// Code lengths are well formed for a count table: within the depth limit,
/// and a symbol has a code exactly when it occurs.
pub open spec fn lengths_fit(counts: Seq<u32>, lens: Seq<u8>, limit: int) -> bool {
    &&& lens.len() == counts.len()
    &&& forall|i: int| 0 <= i < lens.len() ==> #[trigger] lens[i] <= limit
    &&& forall|i: int| 0 <= i < lens.len() ==> ((lens[i] > 0) <==> (counts[i] > 0))
}

/// One node of the flat code-tree arena: a leaf carries a symbol, an
/// internal node carries the indices of its two children.
struct TreeNode {
    weight: u64,
    leaf: bool,
    symbol: usize,
    left: usize,
    right: usize,
}

pub fn count_positive(counts: &Vec<u32>) -> (n: usize)
    ensures
        n == num_positive(counts@),
        n <= counts.len(),
{
    let mut n: usize = 0;
    let mut i: usize = 0;
    while i < counts.len()
        invariant
            i <= counts.len(),
            n == num_positive(counts@.take(i as int)),
            n <= i,
        decreases counts.len() - i,
    {
        proof {
            assert(counts@.take(i + 1).drop_last() =~= counts@.take(i as int));
            assert(counts@.take(i + 1).last() == counts@[i as int]);
        }
        if counts[i] > 0 {
            n = n + 1;
        }
        i = i + 1;
    }
    proof {
        assert(counts@.take(counts@.len() as int) =~= counts@);
    }
    n
}

/// Balanced complete code over the occurring symbols: with `n` symbols and
/// `k` the smallest exponent with `n <= 2^k`, the first `2^k - n` of them
/// get depth `k - 1` and the rest depth `k`.
fn flat_lengths(counts: &Vec<u32>, limit: usize) -> (lens: Vec<u8>)
    requires
        2 <= num_positive(counts@),
        counts.len() <= 1024,
        10 <= limit <= 15 || (5 <= limit && num_positive(counts@) <= 18),
    ensures
        lengths_fit(counts@, lens@, limit as int),
{
    let n: usize = count_positive(counts);
    let kmax: usize = if limit >= 10 {
        10
    } else {
        5
    };
    let mut k: usize = 1;
    let mut cap: usize = 2;
    while cap < n && k < kmax
        invariant
            1 <= k <= kmax,
            kmax <= limit,
            kmax <= 10,
            2 <= cap <= 2048,
            n <= 1024,
        decreases kmax - k,
    {
        k = k + 1;
        cap = cap * 2;
    }
    // 2^k >= n > 2^(k-1); the first (2^k - n) used symbols get k - 1.
    let shallow: usize = if cap >= n {
        cap - n
    } else {
        0
    };
    let mut lens: Vec<u8> = Vec::new();
    let mut used: usize = 0;
    let mut i: usize = 0;
    while i < counts.len()
        invariant
            i <= counts.len(),
            lens.len() == i,
            used <= i,
            1 <= k <= 10,
            k <= limit,
            forall|j: int| 0 <= j < i ==> #[trigger] lens@[j] <= k,
            forall|j: int| 0 <= j < i ==> ((lens@[j] > 0) <==> (counts@[j] > 0)),
        decreases counts.len() - i,
    {
        if counts[i] > 0 {
            if used < shallow && k > 1 {
                lens.push((k - 1) as u8);
            } else {
                lens.push(k as u8);
            }
            used = used + 1;
        } else {
            lens.push(0);
        }
        i = i + 1;
    }
    lens
}

/// One bottom-up two-smallest-weight merge pass. The result has one entry
/// per symbol; the caller validates depth bounds and occupancy.
fn try_build(weights: &Vec<u64>, nsyms: usize) -> (lens: Vec<u8>)
    requires
        nsyms == weights.len(),
        nsyms <= 1024,
    ensures
        lens.len() == nsyms,
{
    let mut nodes: Vec<TreeNode> = Vec::new();
    let mut active: Vec<usize> = Vec::new();
    let mut i: usize = 0;
    while i < nsyms
        invariant
            i <= nsyms,
            nsyms == weights.len(),
            nodes.len() <= i,
            active.len() <= nodes.len(),
            forall|m: int| 0 <= m < active.len() ==> #[trigger] active@[m] < nodes.len(),
            forall|m: int| 0 <= m < nodes.len() ==> (#[trigger] nodes@[m].leaf || (
            nodes@[m].left < m && nodes@[m].right < m)),
        decreases nsyms - i,
    {
        if weights[i] > 0 {
            active.push(nodes.len());
            nodes.push(TreeNode { weight: weights[i], leaf: true, symbol: i, left: 0, right: 0 });
        }
        i = i + 1;
    }
    while active.len() >= 2
        invariant
            nodes.len() <= 4096,
            active.len() <= nodes.len(),
            forall|m: int| 0 <= m < active.len() ==> #[trigger] active@[m] < nodes.len(),
            forall|m: int| 0 <= m < nodes.len() ==> (#[trigger] nodes@[m].leaf || (
            nodes@[m].left < m && nodes@[m].right < m)),
        decreases active.len(),
    {
        // Find the two smallest weights; ties go to the lower index.
        let mut a: usize = 0;
        let mut b: usize = 1;
        if nodes[active[b]].weight < nodes[active[a]].weight {
            a = 1;
            b = 0;
        }
        let mut m: usize = 2;
        while m < active.len()
            invariant
                a < m,
                b < m,
                a != b,
                2 <= m <= active.len(),
                active.len() <= nodes.len(),
                forall|q: int| 0 <= q < active.len() ==> #[trigger] active@[q] < nodes.len(),
            decreases active.len() - m,
        {
            let wm = nodes[active[m]].weight;
            if wm < nodes[active[a]].weight {
                b = a;
                a = m;
            } else if wm < nodes[active[b]].weight {
                b = m;
            }
            m = m + 1;
        }
        if nodes.len() >= 4095 {
            // Arena budget exhausted; cannot happen with <= 1024 symbols,
            // but gives the loop an unconditional exit.
            break ;
        }
        let ia: usize = active[a];
        let ib: usize = active[b];
        let wa: u64 = nodes[ia].weight;
        let wb: u64 = nodes[ib].weight;
        let wsum: u64 = if wa <= u64::MAX / 2 && wb <= u64::MAX / 2 {
            wa + wb
        } else {
            u64::MAX / 2
        };
        // Remove the two merged entries; remove the larger position first.
        let (hi, lo): (usize, usize) = if a > b {
            (a, b)
        } else {
            (b, a)
        };
        active.swap_remove(hi);
        active.swap_remove(lo);
        active.push(nodes.len());
        nodes.push(TreeNode { weight: wsum, leaf: false, symbol: 0, left: ia, right: ib });
    }
    // Depths: children were created before parents, so one descending pass
    // pushes each node's depth to its children.
    let mut depth: Vec<u16> = Vec::new();
    let mut d: usize = 0;
    while d < nodes.len()
        invariant
            depth.len() == d,
            d <= nodes.len(),
            forall|q: int| 0 <= q < d ==> #[trigger] depth@[q] == 0,
        decreases nodes.len() - d,
    {
        depth.push(0);
        d = d + 1;
    }
    let mut idx: usize = nodes.len();
    while idx > 0
        invariant
            idx <= nodes.len(),
            depth.len() == nodes.len(),
            forall|q: int| 0 <= q < depth.len() ==> #[trigger] depth@[q] <= 10000,
            forall|m: int| 0 <= m < nodes.len() ==> (#[trigger] nodes@[m].leaf || (
            nodes@[m].left < m && nodes@[m].right < m)),
        decreases idx,
    {
        idx = idx - 1;
        if !nodes[idx].leaf {
            let dd: u16 = if depth[idx] >= 10000 {
                10000
            } else {
                depth[idx] + 1
            };
            let l: usize = nodes[idx].left;
            let r: usize = nodes[idx].right;
            depth.set(l, dd);
            depth.set(r, dd);
        }
    }
    let mut lens: Vec<u8> = Vec::new();
    let mut s: usize = 0;
    while s < nsyms
        invariant
            s <= nsyms,
            lens.len() == s,
        decreases nsyms - s,
    {
        lens.push(0);
        s = s + 1;
    }
    let mut t: usize = 0;
    while t < nodes.len()
        invariant
            t <= nodes.len(),
            lens.len() == nsyms,
            depth.len() == nodes.len(),
        decreases nodes.len() - t,
    {
        if nodes[t].leaf {
            let sym: usize = nodes[t].symbol;
            if sym < nsyms {
                let dv: u16 = depth[t];
                let dv8: u8 = if dv > 255 {
                    255
                } else {
                    dv as u8
                };
                lens.set(sym, dv8);
            }
        }
        t = t + 1;
    }
    lens
}

/// Whether a candidate length table is well formed for the counts.
pub fn validate(counts: &Vec<u32>, lens: &Vec<u8>, limit: usize) -> (ok: bool)
    ensures
        ok ==> lengths_fit(counts@, lens@, limit as int),
{
    if lens.len() != counts.len() {
        return false;
    }
    let mut i: usize = 0;
    while i < counts.len()
        invariant
            i <= counts.len(),
            lens.len() == counts.len(),
            forall|j: int| 0 <= j < i ==> #[trigger] lens@[j] <= limit,
            forall|j: int| 0 <= j < i ==> ((lens@[j] > 0) <==> (counts@[j] > 0)),
        decreases counts.len() - i,
    {
        if lens[i] as usize > limit {
            return false;
        }
        if (lens[i] > 0) != (counts[i] > 0) {
            return false;
        }
        i = i + 1;
    }
    true
}

/// Code lengths for a histogram: optimal two-smallest merge, retried on
/// halved weights when the depth limit is exceeded, with the balanced code
/// as last resort.
pub fn build_code_lengths(counts: &Vec<u32>, limit: usize) -> (lens: Vec<u8>)
    requires
        2 <= num_positive(counts@),
        counts.len() <= 1024,
        10 <= limit <= 15 || (5 <= limit && num_positive(counts@) <= 18),
    ensures
        lengths_fit(counts@, lens@, limit as int),
{
    let mut weights: Vec<u64> = Vec::new();
    let mut i: usize = 0;
    while i < counts.len()
        invariant
            i <= counts.len(),
            weights.len() == i,
        decreases counts.len() - i,
    {
        weights.push(counts[i] as u64);
        i = i + 1;
    }
    let mut tries: usize = 0;
    while tries < 16
        invariant
            weights.len() == counts.len(),
            counts.len() <= 1024,
        decreases 16 - tries,
    {
        let cand = try_build(&weights, counts.len());
        if validate(counts, &cand, limit) {
            return cand;
        }
        // Halve the weights (keeping occurring symbols nonzero) and retry;
        // flatter weights give shallower optimal trees.
        let mut j: usize = 0;
        while j < weights.len()
            invariant
                j <= weights.len(),
                weights.len() == counts.len(),
            decreases weights.len() - j,
        {
            let w = weights[j];
            if w > 1 {
                weights.set(j, w / 2 + w % 2);
            }
            j = j + 1;
        }
        tries = tries + 1;
    }
    flat_lengths(counts, limit)
}

/// Canonical code values from code lengths, per the fixed `(length, symbol)`
/// ordering rule; only lengths need transmission. Values are masked to 15
/// bits; for a complete length table the mask is the identity.
pub fn canonical_codes(lens: &Vec<u8>) -> (codes: Vec<u32>)
    requires
        forall|i: int| 0 <= i < lens.len() ==> #[trigger] lens@[i] <= 15,
    ensures
        codes.len() == lens.len(),
        forall|i: int| 0 <= i < codes.len() ==> #[trigger] codes@[i] < 0x8000,
{
    let mut bl_count: Vec<u32> = Vec::new();
    let mut i: usize = 0;
    while i < 16
        invariant
            bl_count.len() == i,
            i <= 16,
        decreases 16 - i,
    {
        bl_count.push(0);
        i = i + 1;
    }
    let mut j: usize = 0;
    while j < lens.len()
        invariant
            j <= lens.len(),
            bl_count.len() == 16,
            forall|q: int| 0 <= q < lens.len() ==> #[trigger] lens@[q] <= 15,
        decreases lens.len() - j,
    {
        let l = lens[j] as usize;
        if l > 0 {
            let c = bl_count[l];
            if c < u32::MAX {
                bl_count.set(l, c + 1);
            }
        }
        j = j + 1;
    }
    let mut next_code: Vec<u32> = Vec::new();
    let mut code: u32 = 0;
    next_code.push(0);
    let mut l: usize = 1;
    while l < 16
        invariant
            1 <= l <= 16,
            next_code.len() == l,
            bl_count.len() == 16,
            code < 0x4000_0000,
            forall|q: int| 0 <= q < next_code.len() ==> #[trigger] next_code@[q] < 0x4000_0000,
        decreases 16 - l,
    {
        let prev: u32 = if l >= 2 {
            bl_count[l - 1]
        } else {
            0
        };
        let sum: u32 = if code <= 0x1fff_ffff && prev <= 0x1fff_ffff {
            (code + prev) * 2
        } else {
            0
        };
        code = if sum < 0x4000_0000 {
            sum
        } else {
            0
        };
        next_code.push(code);
        l = l + 1;
    }
    let mut codes: Vec<u32> = Vec::new();
    let mut s: usize = 0;
    while s < lens.len()
        invariant
            s <= lens.len(),
            codes.len() == s,
            next_code.len() == 16,
            forall|q: int| 0 <= q < lens.len() ==> #[trigger] lens@[q] <= 15,
            forall|q: int| 0 <= q < next_code.len() ==> #[trigger] next_code@[q] < 0x4000_0000,
            forall|q: int| 0 <= q < s ==> #[trigger] codes@[q] < 0x8000,
        decreases lens.len() - s,
    {
        let ln = lens[s] as usize;
        if ln > 0 {
            let c = next_code[ln];
            proof {
                assert(c & 0x7fff < 0x8000) by (bit_vector);
            }
            codes.push(c & 0x7fff);
            next_code.set(ln, if c < 0x3fff_ffff {
                c + 1
            } else {
                c
            });
        } else {
            codes.push(0);
        }
        s = s + 1;
    }
    codes
}

/// The value of the low `len` bits of `code` read in reverse order: bit
/// `len-1` highest, bit `0` lowest.
pub open spec fn rev_bits_val(code: u32, len: nat) -> int
    decreases len,
{
    if len == 0 {
        0
    } else {
        2 * rev_bits_val(code, (len - 1) as nat) + if (code >> (((len - 1) as u32))) & 1 == 1 {
            1int
        } else {
            0int
        }
    }
}

/// The bit pattern of `code` (a canonical code of `len` bits) reversed, so
/// that writing it least-significant-bit first presents the code most
/// significant branch first, as prefix-code readers consume it.
pub fn reverse_bits(code: u32, len: usize) -> (r: u64)
    requires
        len <= 16,
    ensures
        r < 0x1_0000,
        r == rev_bits_val(code, len as nat),
{
    let mut r: u32 = 0;
    let mut k: usize = 0;
    while k < len
        invariant
            k <= len,
            len <= 16,
            r == rev_bits_val(code, k as nat),
            r < pot2(k as int),
        decreases len - k,
    {
        proof {
            lemma_pot2_25_26();
            lemma_pot2_mono(k as int, 15);
            assert(pot2(k as int + 1) == 2 * pot2(k as int));
        }
        let bit: u32 = (code >> (k as u32)) & 1;
        proof {
            let kv = k as u32;
            assert((code >> kv) & 1 <= 1) by (bit_vector);
        }
        let nr: u32 = ((r << 1u32) | bit) & 0xffff;
        proof {
            assert(((r << 1u32) | bit) & 0xffff == 2 * r + bit) by (bit_vector)
                requires
                    r < 0x8000u32,
                    bit <= 1u32,
            ;
        }
        r = nr;
        k = k + 1;
    }
    proof {
        lemma_pot2_25_26();
        lemma_pot2_mono(len as int, 16);
    }
    r as u64
}

} // verus!
