//! Serialisation of one prefix code: the simple form for up to four
//! symbols, else the complex form whose code lengths are themselves coded
//! with the format's fixed code-length code, zero runs run-length coded.

use vstd::prelude::*;
use crate::bitwriter::{BitWriter, bits_of, lemma_prefix_append, lemma_prefix_refl,
    lemma_prefix_trans};
use crate::huffman::{
    build_code_lengths, canonical_codes, count_positive, lengths_fit, num_positive, reverse_bits,
    validate,
};

verus! {

/// `2^e` as a mathematical value.
pub open spec fn pot2(e: int) -> int
    decreases e,
{
    if e <= 0 {
        1
    } else {
        2 * pot2(e - 1)
    }
}

pub proof fn lemma_pot2_pos(e: int)
    ensures
        pot2(e) >= 1,
    decreases e,
{
    if e > 0 {
        lemma_pot2_pos(e - 1);
    }
}

pub proof fn lemma_pot2_mono(a: int, b: int)
    requires
        a <= b,
    ensures
        pot2(a) <= pot2(b),
    decreases b - a,
{
    if a < b {
        lemma_pot2_mono(a, b - 1);
        lemma_pot2_pos(b - 1);
    }
}

/// Concrete powers the bit-level coders' bounds rest on.
pub proof fn lemma_pot2_25_26()
    ensures
        pot2(15) == 0x8000,
        pot2(16) == 0x1_0000,
        pot2(25) == 0x0200_0000,
        pot2(26) == 0x0400_0000,
{
    assert(pot2(0) == 1);
    assert(pot2(1) == 2);
    assert(pot2(2) == 4);
    assert(pot2(3) == 8);
    assert(pot2(4) == 16);
    assert(pot2(5) == 32);
    assert(pot2(6) == 64);
    assert(pot2(7) == 128);
    assert(pot2(8) == 256);
    assert(pot2(9) == 512);
    assert(pot2(10) == 1024);
    assert(pot2(11) == 2048);
    assert(pot2(12) == 4096);
    assert(pot2(13) == 8192);
    assert(pot2(14) == 16384);
    assert(pot2(15) == 32768);
    assert(pot2(16) == 65536);
    assert(pot2(17) == 131072);
    assert(pot2(18) == 262144);
    assert(pot2(19) == 524288);
    assert(pot2(20) == 1048576);
    assert(pot2(21) == 2097152);
    assert(pot2(22) == 4194304);
    assert(pot2(23) == 8388608);
    assert(pot2(24) == 16777216);
    assert(pot2(25) == 33554432);
    assert(pot2(26) == 67108864);
}


/// `2^64` exceeds every 64-bit value.
pub proof fn lemma_pot2_64()
    ensures
        pot2(64) == 0x1_0000_0000_0000_0000,
{
    assert(pot2(0) == 0x1);
    assert(pot2(1) == 0x2);
    assert(pot2(2) == 0x4);
    assert(pot2(3) == 0x8);
    assert(pot2(4) == 0x10);
    assert(pot2(5) == 0x20);
    assert(pot2(6) == 0x40);
    assert(pot2(7) == 0x80);
    assert(pot2(8) == 0x100);
    assert(pot2(9) == 0x200);
    assert(pot2(10) == 0x400);
    assert(pot2(11) == 0x800);
    assert(pot2(12) == 0x1000);
    assert(pot2(13) == 0x2000);
    assert(pot2(14) == 0x4000);
    assert(pot2(15) == 0x8000);
    assert(pot2(16) == 0x10000);
    assert(pot2(17) == 0x20000);
    assert(pot2(18) == 0x40000);
    assert(pot2(19) == 0x80000);
    assert(pot2(20) == 0x100000);
    assert(pot2(21) == 0x200000);
    assert(pot2(22) == 0x400000);
    assert(pot2(23) == 0x800000);
    assert(pot2(24) == 0x1000000);
    assert(pot2(25) == 0x2000000);
    assert(pot2(26) == 0x4000000);
    assert(pot2(27) == 0x8000000);
    assert(pot2(28) == 0x10000000);
    assert(pot2(29) == 0x20000000);
    assert(pot2(30) == 0x40000000);
    assert(pot2(31) == 0x80000000);
    assert(pot2(32) == 0x100000000);
    assert(pot2(33) == 0x200000000);
    assert(pot2(34) == 0x400000000);
    assert(pot2(35) == 0x800000000);
    assert(pot2(36) == 0x1000000000);
    assert(pot2(37) == 0x2000000000);
    assert(pot2(38) == 0x4000000000);
    assert(pot2(39) == 0x8000000000);
    assert(pot2(40) == 0x10000000000);
    assert(pot2(41) == 0x20000000000);
    assert(pot2(42) == 0x40000000000);
    assert(pot2(43) == 0x80000000000);
    assert(pot2(44) == 0x100000000000);
    assert(pot2(45) == 0x200000000000);
    assert(pot2(46) == 0x400000000000);
    assert(pot2(47) == 0x800000000000);
    assert(pot2(48) == 0x1000000000000);
    assert(pot2(49) == 0x2000000000000);
    assert(pot2(50) == 0x4000000000000);
    assert(pot2(51) == 0x8000000000000);
    assert(pot2(52) == 0x10000000000000);
    assert(pot2(53) == 0x20000000000000);
    assert(pot2(54) == 0x40000000000000);
    assert(pot2(55) == 0x80000000000000);
    assert(pot2(56) == 0x100000000000000);
    assert(pot2(57) == 0x200000000000000);
    assert(pot2(58) == 0x400000000000000);
    assert(pot2(59) == 0x800000000000000);
    assert(pot2(60) == 0x1000000000000000);
    assert(pot2(61) == 0x2000000000000000);
    assert(pot2(62) == 0x4000000000000000);
    assert(pot2(63) == 0x8000000000000000);
    assert(pot2(64) == 0x10000000000000000);
}

/// The Kraft sum of a length table in units of `2^-unit`: a prefix code
/// over these lengths is complete exactly when the sum is `2^unit`.
pub open spec fn kraft_scaled(lens: Seq<u8>, unit: int) -> int
    decreases lens.len(),
{
    if lens.len() == 0 {
        0
    } else {
        kraft_scaled(lens.drop_last(), unit) + if lens.last() > 0 {
            pot2(unit - lens.last())
        } else {
            0
        }
    }
}

/// `2^e` for small exponents.
fn pow2_small(e: u32) -> (r: u64)
    requires
        e <= 15,
    ensures
        1 <= r <= 32768,
        r == pot2(e as int),
{
    proof {
        assert(pot2(0) == 1);
        assert(pot2(1) == 2);
        assert(pot2(2) == 4);
        assert(pot2(3) == 8);
        assert(pot2(4) == 16);
        assert(pot2(5) == 32);
        assert(pot2(6) == 64);
        assert(pot2(7) == 128);
        assert(pot2(8) == 256);
        assert(pot2(9) == 512);
        assert(pot2(10) == 1024);
        assert(pot2(11) == 2048);
        assert(pot2(12) == 4096);
        assert(pot2(13) == 8192);
        assert(pot2(14) == 16384);
        assert(pot2(15) == 32768);
    }
    if e == 0 {
        1
    } else if e == 1 {
        2
    } else if e == 2 {
        4
    } else if e == 3 {
        8
    } else if e == 4 {
        16
    } else if e == 5 {
        32
    } else if e == 6 {
        64
    } else if e == 7 {
        128
    } else if e == 8 {
        256
    } else if e == 9 {
        512
    } else if e == 10 {
        1024
    } else if e == 11 {
        2048
    } else if e == 12 {
        4096
    } else if e == 13 {
        8192
    } else if e == 14 {
        16384
    } else {
        32768
    }
}

/// The Kraft sum of a length table in units of `2^-unit`; a complete code
/// sums to exactly `2^unit`.
fn kraft_sum(lens: &Vec<u8>, unit: u32) -> (s: u64)
    requires
        unit <= 15,
        forall|i: int| 0 <= i < lens.len() ==> #[trigger] lens@[i] <= unit,
        lens.len() <= 1024,
    ensures
        s == kraft_scaled(lens@, unit as int),
{
    let mut s: u64 = 0;
    let mut i: usize = 0;
    proof {
        assert(lens@.take(0) =~= Seq::<u8>::empty());
    }
    while i < lens.len()
        invariant
            i <= lens.len(),
            lens.len() <= 1024,
            s <= 32768 * i,
            s == kraft_scaled(lens@.take(i as int), unit as int),
            unit <= 15,
            forall|q: int| 0 <= q < lens.len() ==> #[trigger] lens@[q] <= unit,
        decreases lens.len() - i,
    {
        proof {
            assert(lens@.take(i + 1).drop_last() =~= lens@.take(i as int));
            assert(lens@.take(i + 1).last() == lens@[i as int]);
        }
        let l = lens[i];
        if l > 0 {
            s = s + pow2_small(unit - l as u32);
        }
        i = i + 1;
    }
    proof {
        assert(lens@.take(lens@.len() as int) =~= lens@);
    }
    s
}

/// The fixed order in which code-length code lengths are transmitted.
fn cl_order(i: usize) -> (s: usize)
    requires
        i < 18,
    ensures
        s < 18,
{
    if i == 0 {
        1
    } else if i == 1 {
        2
    } else if i == 2 {
        3
    } else if i == 3 {
        4
    } else if i == 4 {
        0
    } else if i == 5 {
        5
    } else if i == 6 {
        17
    } else if i == 7 {
        6
    } else if i == 8 {
        16
    } else if i == 9 {
        7
    } else {
        i - 2
    }
}

/// Write one code-length code length with the format's static code.
fn write_cl_len(w: &mut BitWriter, v: u8)
    requires
        v <= 5,
    ensures
        old(w)@.is_prefix_of(final(w)@),
{
    let ghost w0 = w@;
    if v == 0 {
        w.write_bits(0, 2);
    } else if v == 1 {
        w.write_bits(7, 4);
    } else if v == 2 {
        w.write_bits(3, 3);
    } else if v == 3 {
        w.write_bits(2, 2);
    } else if v == 4 {
        w.write_bits(1, 2);
    } else {
        w.write_bits(15, 4);
    }
    proof {
        assert(w0 =~= w@.subrange(0, w0.len() as int));
    }
}

/// The run-length coded stream of symbol code lengths: literal lengths,
/// and zero runs of three or more folded into repeat-zero items (broken by
/// single zeros so repeat counts never accumulate).
fn build_cl_stream(lens: &Vec<u8>) -> (items: Vec<(u8, u8)>)
    requires
        forall|i: int| 0 <= i < lens.len() ==> #[trigger] lens@[i] <= 15,
        lens.len() <= 1024,
    ensures
        forall|i: int| 0 <= i < items.len() ==> (#[trigger] items@[i]).0 <= 17,
        forall|i: int| 0 <= i < items.len() ==> (#[trigger] items@[i]).1 <= 7,
{
    let n = lens.len();
    let mut last_nz: usize = 0;
    let mut i: usize = 0;
    while i < n
        invariant
            i <= n,
            n == lens.len(),
            last_nz < n || last_nz == 0,
        decreases n - i,
    {
        if lens[i] > 0 {
            last_nz = i;
        }
        i = i + 1;
    }
    let mut items: Vec<(u8, u8)> = Vec::new();
    let mut p: usize = 0;
    while p <= last_nz && p < n
        invariant
            n == lens.len(),
            n <= 1024,
            forall|q: int| 0 <= q < lens.len() ==> #[trigger] lens@[q] <= 15,
            forall|q: int| 0 <= q < items.len() ==> (#[trigger] items@[q]).0 <= 17,
            forall|q: int| 0 <= q < items.len() ==> (#[trigger] items@[q]).1 <= 7,
        decreases n - p,
    {
        let v = lens[p];
        if v > 0 {
            items.push((v, 0));
            p = p + 1;
        } else {
            // Measure the zero run (not past the last occurring symbol).
            let mut zrun: usize = 0;
            while p + zrun < n && p + zrun <= last_nz && lens[p + zrun] == 0
                invariant
                    n == lens.len(),
                    p + zrun <= n,
                decreases n - p - zrun,
            {
                zrun = zrun + 1;
            }
            let zstart: usize = p;
            let mut left: usize = zrun;
            while left > 0
                invariant
                    left <= zrun,
                    zrun <= n,
                    forall|q: int| 0 <= q < items.len() ==> (#[trigger] items@[q]).0 <= 17,
                    forall|q: int| 0 <= q < items.len() ==> (#[trigger] items@[q]).1 <= 7,
                decreases left,
            {
                if left >= 3 {
                    let take: usize = if left > 10 {
                        10
                    } else {
                        left
                    };
                    items.push((17, (take - 3) as u8));
                    left = left - take;
                    if left > 0 {
                        items.push((0, 0));
                        left = left - 1;
                    }
                } else {
                    items.push((0, 0));
                    left = left - 1;
                }
            }
            p = zstart + if zrun == 0 {
                1
            } else {
                zrun
            };
        }
    }
    items
}

/// Build a canonical code over `counts`, write its description, and return
/// per-symbol code lengths and write-ready (bit-reversed) code values.
/// `sym_bits` is the width of a raw symbol in the simple form. A `false`
/// result means the description was not written and the caller must fall
/// back to an uncompressed meta-block.
pub fn build_and_write_code(w: &mut BitWriter, counts: &Vec<u32>, sym_bits: u32) -> (r: (Vec<u8>,
    Vec<u64>, bool))
    requires
        1 <= counts.len() <= 1024,
        sym_bits <= 10,
    ensures
        r.0.len() == counts.len(),
        r.1.len() == counts.len(),
        forall|i: int| 0 <= i < r.0.len() ==> #[trigger] r.0@[i] <= 15,
        old(w)@.is_prefix_of(final(w)@),
        r.2 && num_positive(counts@) >= 2 ==> lengths_fit(counts@, r.0@, 15),
        r.2 && num_positive(counts@) >= 2 ==> kraft_scaled(r.0@, 15) == 32768,
{
    let ghost w0 = w@;
    let n = counts.len();
    let mut lens: Vec<u8> = Vec::new();
    let mut ready: Vec<u64> = Vec::new();
    let mut zi: usize = 0;
    while zi < n
        invariant
            lens.len() == zi,
            ready.len() == zi,
            zi <= n,
            forall|q: int| 0 <= q < lens.len() ==> #[trigger] lens@[q] <= 15,
        decreases n - zi,
    {
        lens.push(0);
        ready.push(0);
        zi = zi + 1;
    }
    let used = count_positive(counts);
    if used <= 4 {
        // Simple form: up to four raw symbols, lengths fixed by their count.
        let mut syms: Vec<usize> = Vec::new();
        let mut si: usize = 0;
        while si < n
            invariant
                si <= n,
                n == counts.len(),
                syms.len() <= si,
                forall|q: int| 0 <= q < syms.len() ==> #[trigger] syms@[q] < n,
            decreases n - si,
        {
            if counts[si] > 0 {
                syms.push(si);
            }
            si = si + 1;
        }
        if syms.len() == 0 {
            // The class never occurs; announce a one-symbol code anyway.
            syms.push(0);
        }
        if syms.len() > 4 {
            // Cannot happen (used <= 4); keep the entry count in range.
            proof {
                lemma_prefix_refl(w@);
            }
            return (lens, ready, false);
        }
        let nsym = syms.len();
        w.write_bits(1, 2);
        w.write_bits((nsym - 1) as u64, 2);
        proof {
            assert(w0 =~= w@.subrange(0, w0.len() as int));
        }
        let mut wi: usize = 0;
        while wi < nsym
            invariant
                wi <= nsym,
                nsym == syms.len(),
                sym_bits <= 10,
                forall|q: int| 0 <= q < syms.len() ==> #[trigger] syms@[q] < n,
                n <= 1024,
                w0 == old(w)@,
                w0.is_prefix_of(w@),
            decreases nsym - wi,
        {
            let ghost before = w@;
            w.write_bits(syms[wi] as u64, sym_bits as usize);
            proof {
                lemma_prefix_append(before, bits_of(syms@[wi as int] as u64, sym_bits as nat));
                lemma_prefix_trans(w0, before, w@);
            }
            wi = wi + 1;
        }
        if nsym == 4 {
            // Flat shape: all four symbols two bits deep.
            let ghost before = w@;
            w.write_bits(0, 1);
            proof {
                lemma_prefix_append(before, bits_of(0, 1));
                lemma_prefix_trans(w0, before, w@);
            }
        }
        if nsym == 1 {
            lens.set(syms[0], 0);
            ready.set(syms[0], 0);
        } else if nsym == 2 {
            lens.set(syms[0], 1);
            ready.set(syms[0], 0);
            lens.set(syms[1], 1);
            ready.set(syms[1], 1);
        } else if nsym == 3 {
            lens.set(syms[0], 1);
            ready.set(syms[0], 0);
            lens.set(syms[1], 2);
            ready.set(syms[1], 1);
            lens.set(syms[2], 2);
            ready.set(syms[2], 3);
        } else {
            lens.set(syms[0], 2);
            ready.set(syms[0], 0);
            lens.set(syms[1], 2);
            ready.set(syms[1], 2);
            lens.set(syms[2], 2);
            ready.set(syms[2], 1);
            lens.set(syms[3], 2);
            ready.set(syms[3], 3);
        }
        if used >= 2 {
            // The fixed simple shapes are well formed and complete; the
            // checks carry that into the contract.
            if !validate(counts, &lens, 15) {
                return (lens, ready, false);
            }
            if kraft_sum(&lens, 15) != 32768 {
                return (lens, ready, false);
            }
        }
        return (lens, ready, true);
    }
    // Complex form.
    let mut slens = build_code_lengths(counts, 15);
    let mut items = build_cl_stream(&slens);
    // The code-length code needs at least two distinct symbols; a uniform
    // complete code over a power-of-two alphabet is rebalanced.
    let mut seen: Vec<bool> = Vec::new();
    let mut vi: usize = 0;
    while vi < 18
        invariant
            seen.len() == vi,
            vi <= 18,
        decreases 18 - vi,
    {
        seen.push(false);
        vi = vi + 1;
    }
    let mut ii: usize = 0;
    while ii < items.len()
        invariant
            ii <= items.len(),
            seen.len() == 18,
            forall|q: int| 0 <= q < items.len() ==> (#[trigger] items@[q]).0 <= 17,
        decreases items.len() - ii,
    {
        let sy = items[ii].0;
        seen.set(sy as usize, true);
        ii = ii + 1;
    }
    let mut distinct: usize = 0;
    let mut di: usize = 0;
    while di < 18
        invariant
            di <= 18,
            seen.len() == 18,
            distinct <= di,
        decreases 18 - di,
    {
        if seen[di] {
            distinct = distinct + 1;
        }
        di = di + 1;
    }
    if distinct < 2 {
        // All occurring symbols share one depth `k` over a full power-of-two
        // alphabet: move one symbol up and two down to keep the code
        // complete while using two further depths.
        let mut first: usize = 0;
        let mut found: usize = 0;
        let mut fi: usize = 0;
        while fi < n
            invariant
                fi <= n,
                n == slens.len(),
                n == counts.len(),
                first < n || first == 0,
                found <= fi,
                forall|q: int| 0 <= q < slens.len() ==> #[trigger] slens@[q] <= 15,
            decreases n - fi,
        {
            if slens[fi] > 0 {
                if found == 0 {
                    first = fi;
                }
                found = found + 1;
            }
            fi = fi + 1;
        }
        if found < 3 || first + 2 >= n {
            proof {
                lemma_prefix_refl(w@);
            }
            return (lens, ready, false);
        }
        let k = slens[first];
        if k < 2 || k > 14 {
            proof {
                lemma_prefix_refl(w@);
            }
            return (lens, ready, false);
        }
        // The occurring symbols are contiguous when only one depth occurs.
        if slens[first + 1] == 0 || slens[first + 2] == 0 {
            proof {
                lemma_prefix_refl(w@);
            }
            return (lens, ready, false);
        }
        slens.set(first, k - 1);
        slens.set(first + 1, k + 1);
        slens.set(first + 2, k + 1);
        items = build_cl_stream(&slens);
    }
    if kraft_sum(&slens, 15) != 32768 {
        proof {
            lemma_prefix_refl(w@);
        }
        return (lens, ready, false);
    }
    // Histogram of the code-length alphabet.
    let mut clc: Vec<u32> = Vec::new();
    let mut ci: usize = 0;
    while ci < 18
        invariant
            clc.len() == ci,
            ci <= 18,
        decreases 18 - ci,
    {
        clc.push(0);
        ci = ci + 1;
    }
    let mut hi: usize = 0;
    while hi < items.len()
        invariant
            hi <= items.len(),
            clc.len() == 18,
            forall|q: int| 0 <= q < items.len() ==> (#[trigger] items@[q]).0 <= 17,
        decreases items.len() - hi,
    {
        let sy = items[hi].0 as usize;
        let c = clc[sy];
        if c < u32::MAX {
            clc.set(sy, c + 1);
        }
        hi = hi + 1;
    }
    let used_cl = count_positive(&clc);
    if used_cl < 2 {
        proof {
            lemma_prefix_refl(w@);
        }
        return (lens, ready, false);
    }
    let cl_lens = build_code_lengths(&clc, 5);
    if kraft_sum(&cl_lens, 5) != 32 {
        proof {
            lemma_prefix_refl(w@);
        }
        return (lens, ready, false);
    }
    let cl_canon = canonical_codes(&cl_lens);
    let mut cl_ready: Vec<u64> = Vec::new();
    let mut ri: usize = 0;
    while ri < 18
        invariant
            ri <= 18,
            cl_ready.len() == ri,
            cl_lens.len() == 18,
            cl_canon.len() == 18,
            forall|q: int| 0 <= q < cl_lens.len() ==> #[trigger] cl_lens@[q] <= 5,
        decreases 18 - ri,
    {
        cl_ready.push(reverse_bits(cl_canon[ri], cl_lens[ri] as usize));
        ri = ri + 1;
    }
    // Emit: no skipped entries, the code-length code lengths in the fixed
    // order until its Kraft space closes, then the run-length coded stream.
    w.write_bits(0, 2);
    proof {
        assert(w0 =~= w@.subrange(0, w0.len() as int));
    }
    let mut space: u32 = 32;
    let mut oi: usize = 0;
    while oi < 18
        invariant
            oi <= 18,
            cl_lens.len() == 18,
            lens.len() == counts.len(),
            ready.len() == counts.len(),
            forall|q: int| 0 <= q < lens.len() ==> #[trigger] lens@[q] <= 15,
            forall|q: int| 0 <= q < cl_lens.len() ==> #[trigger] cl_lens@[q] <= 5,
            w0 == old(w)@,
            w0.is_prefix_of(w@),
        decreases 18 - oi,
    {
        let sym = cl_order(oi);
        let v = cl_lens[sym];
        let ghost before = w@;
        write_cl_len(w, v);
        proof {
            lemma_prefix_trans(w0, before, w@);
        }
        if v > 0 {
            let dec: u32 = if v >= 6 {
                1
            } else {
                32u32 >> (v as u32)
            };
            if dec > space {
                return (lens, ready, false);
            }
            space = space - dec;
            if space == 0 {
                break ;
            }
        }
        oi = oi + 1;
    }
    if space != 0 {
        return (lens, ready, false);
    }
    let mut wi: usize = 0;
    while wi < items.len()
        invariant
            wi <= items.len(),
            cl_lens.len() == 18,
            cl_ready.len() == 18,
            forall|q: int| 0 <= q < items.len() ==> (#[trigger] items@[q]).0 <= 17,
            forall|q: int| 0 <= q < items.len() ==> (#[trigger] items@[q]).1 <= 7,
            forall|q: int| 0 <= q < cl_lens.len() ==> #[trigger] cl_lens@[q] <= 5,
            w0 == old(w)@,
            w0.is_prefix_of(w@),
        decreases items.len() - wi,
    {
        let (sy, ex) = items[wi];
        let syi = sy as usize;
        let ghost before = w@;
        w.write_bits(cl_ready[syi], cl_lens[syi] as usize);
        if sy == 17 {
            w.write_bits(ex as u64, 3);
        }
        proof {
            assert(before =~= w@.subrange(0, before.len() as int));
            lemma_prefix_trans(w0, before, w@);
        }
        wi = wi + 1;
    }
    // The (possibly rebalanced) lengths still fit the counts and form a
    // complete code; the checks carry that into the contract.
    if !validate(counts, &slens, 15) {
        return (lens, ready, false);
    }
    if kraft_sum(&slens, 15) != 32768 {
        return (lens, ready, false);
    }
    // Write-ready canonical codes for the symbol alphabet.
    let canon = canonical_codes(&slens);
    let mut fi2: usize = 0;
    let mut out_ready: Vec<u64> = Vec::new();
    while fi2 < n
        invariant
            fi2 <= n,
            out_ready.len() == fi2,
            n == slens.len(),
            n == canon.len(),
            forall|q: int| 0 <= q < slens.len() ==> #[trigger] slens@[q] <= 15,
        decreases n - fi2,
    {
        out_ready.push(reverse_bits(canon[fi2], slens[fi2] as usize));
        fi2 = fi2 + 1;
    }
    (slens, out_ready, true)
}

} // verus!
