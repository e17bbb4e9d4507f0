//! LZ77-style tokens and their wire-level code mappings: bucketed insert
//! and copy length codes, the combined insert-and-copy symbol, and the
//! distance symbol with its extra bits.

use vstd::prelude::*;
use crate::prefixcode::pot2;

verus! {

/// One token: a run of literals followed by an optional back-reference
/// copy. A pure literal run has `copy_len == 0`.
#[derive(Clone, Copy)]
pub struct Command {
    pub insert_len: u32,
    pub copy_len: u32,
    pub distance: u32,
}

/// The commands exactly cover `full[pos .. end]`: literal runs take their
/// bytes in place, every copy points at most `maxdist` back (and never
/// before the start of `full`), matches the bytes it covers, and a pure
/// literal run closes the range. This is the decoder's view: replaying the
/// commands over the prior bytes reproduces `full[pos .. end]`.
pub open spec fn cmds_exact(
    full: Seq<u8>,
    pos: int,
    end: int,
    maxdist: int,
    cmds: Seq<Command>,
) -> bool
    decreases cmds.len(),
{
    if cmds.len() == 0 {
        pos == end
    } else {
        let c = cmds[0];
        let p2 = pos + c.insert_len;
        &&& 0 <= pos
        &&& p2 + c.copy_len <= end <= full.len()
        &&& (c.copy_len == 0 ==> p2 == end)
        &&& (c.copy_len > 0 ==> {
            &&& c.copy_len >= 2
            &&& 1 <= c.distance <= p2
            &&& c.distance <= maxdist
            &&& forall|i: int|
                0 <= i < c.copy_len ==> #[trigger] full[p2 + i] == full[p2 + i - c.distance]
        })
        &&& cmds_exact(full, p2 + c.copy_len, end, maxdist, cmds.skip(1))
    }
}

/// One command covering `full[mid .. end]` on its own.
pub open spec fn cmd_ok(full: Seq<u8>, mid: int, end: int, maxdist: int, c: Command) -> bool {
    let p2 = mid + c.insert_len;
    &&& 0 <= mid <= p2
    &&& p2 + c.copy_len == end <= full.len()
    &&& (c.copy_len > 0 ==> {
        &&& c.copy_len >= 2
        &&& 1 <= c.distance <= p2
        &&& c.distance <= maxdist
        &&& forall|i: int| 0 <= i < c.copy_len ==> #[trigger] full[p2 + i] == full[p2 + i
            - c.distance]
    })
}

/// Appending one fitting command extends exact coverage.
pub proof fn lemma_cmds_exact_push(
    full: Seq<u8>,
    pos: int,
    mid: int,
    end: int,
    maxdist: int,
    cmds: Seq<Command>,
    c: Command,
)
    requires
        cmds_exact(full, pos, mid, maxdist, cmds),
        cmd_ok(full, mid, end, maxdist, c),
        c.copy_len == 0 ==> mid + c.insert_len == end,
        forall|k: int| 0 <= k < cmds.len() ==> (#[trigger] cmds[k]).copy_len > 0,
    ensures
        cmds_exact(full, pos, end, maxdist, cmds.push(c)),
    decreases cmds.len(),
{
    if cmds.len() == 0 {
        assert(cmds.push(c)[0] == c);
        assert(cmds.push(c).skip(1) =~= Seq::<Command>::empty());
        assert(cmds_exact(full, mid + c.insert_len + c.copy_len, end, maxdist,
            Seq::<Command>::empty()));
        if c.copy_len > 0 {
            assert forall|i: int| 0 <= i < c.copy_len implies #[trigger] full[pos + c.insert_len
                + i] == full[pos + c.insert_len + i - c.distance] by {
                assert(full[mid + c.insert_len + i] == full[mid + c.insert_len + i - c.distance]);
            }
        }
    } else {
        assert(cmds.push(c)[0] == cmds[0]);
        assert(cmds.push(c).skip(1) =~= cmds.skip(1).push(c));
        assert forall|k: int| 0 <= k < cmds.skip(1).len() implies (#[trigger] cmds.skip(1)[
            k]).copy_len > 0 by {
            assert(cmds.skip(1)[k] == cmds[k + 1]);
        }
        let p2 = pos + cmds[0].insert_len;
        lemma_cmds_exact_push(full, p2 + cmds[0].copy_len, mid, end, maxdist, cmds.skip(1), c);
    }
}

/// Total number of input bytes a command sequence covers.
pub open spec fn cmds_covered(cmds: Seq<Command>) -> int
    decreases cmds.len(),
{
    if cmds.len() == 0 {
        0
    } else {
        cmds[0].insert_len + cmds[0].copy_len + cmds_covered(cmds.skip(1))
    }
}

/// Total number of literal bytes in a command sequence.
pub open spec fn cmds_literals(cmds: Seq<Command>) -> int
    decreases cmds.len(),
{
    if cmds.len() == 0 {
        0
    } else {
        cmds[0].insert_len + cmds_literals(cmds.skip(1))
    }
}

pub proof fn lemma_literals_take_zero(s: Seq<Command>)
    ensures
        cmds_literals(s.take(0)) == 0,
{
    assert(s.take(0) =~= Seq::<Command>::empty());
}

pub proof fn lemma_literals_take_succ(s: Seq<Command>, i: int)
    requires
        0 <= i < s.len(),
    ensures
        cmds_literals(s.take(i + 1)) == cmds_literals(s.take(i)) + s[i].insert_len,
    decreases i,
{
    if i == 0 {
        assert(s.take(1)[0] == s[0]);
        assert(s.take(1).skip(1) =~= Seq::<Command>::empty());
        assert(s.take(0) =~= Seq::<Command>::empty());
    } else {
        assert(s.take(i + 1)[0] == s[0]);
        assert(s.take(i)[0] == s[0]);
        assert(s.take(i + 1).skip(1) =~= s.skip(1).take(i));
        assert(s.take(i).skip(1) =~= s.skip(1).take(i - 1));
        lemma_literals_take_succ(s.skip(1), i - 1);
        assert(s.skip(1)[i - 1] == s[i]);
    }
}

/// Exact coverage pins the covered byte count to the range length.
pub proof fn lemma_cmds_exact_covered(
    full: Seq<u8>,
    pos: int,
    end: int,
    maxdist: int,
    cmds: Seq<Command>,
)
    requires
        cmds_exact(full, pos, end, maxdist, cmds),
    ensures
        cmds_covered(cmds) == end - pos,
        cmds_literals(cmds) <= end - pos,
    decreases cmds.len(),
{
    if cmds.len() > 0 {
        let p2 = pos + cmds[0].insert_len;
        lemma_cmds_exact_covered(full, p2 + cmds[0].copy_len, end, maxdist, cmds.skip(1));
    }
}

/// The insert length base table, as the format fixes it.
pub open spec fn spec_ins_base(code: int) -> int {
    if code < 6 {
        code
    } else if code == 6 {
        6
    } else if code == 7 {
        8
    } else if code == 8 {
        10
    } else if code == 9 {
        14
    } else if code == 10 {
        18
    } else if code == 11 {
        26
    } else if code == 12 {
        34
    } else if code == 13 {
        50
    } else if code == 14 {
        66
    } else if code == 15 {
        98
    } else if code == 16 {
        130
    } else if code == 17 {
        194
    } else if code == 18 {
        322
    } else if code == 19 {
        578
    } else if code == 20 {
        1090
    } else if code == 21 {
        2114
    } else if code == 22 {
        6210
    } else {
        22594
    }
}

/// The insert length extra-bit table, as the format fixes it.
pub open spec fn spec_ins_extra(code: int) -> int {
    if code < 6 {
        0
    } else if code < 8 {
        1
    } else if code < 10 {
        2
    } else if code < 12 {
        3
    } else if code < 14 {
        4
    } else if code < 16 {
        5
    } else if code == 16 {
        6
    } else if code == 17 {
        7
    } else if code == 18 {
        8
    } else if code == 19 {
        9
    } else if code == 20 {
        10
    } else if code == 21 {
        12
    } else if code == 22 {
        14
    } else {
        24
    }
}

/// The copy length base table, as the format fixes it.
pub open spec fn spec_copy_base(code: int) -> int {
    if code < 8 {
        code + 2
    } else if code == 8 {
        10
    } else if code == 9 {
        12
    } else if code == 10 {
        14
    } else if code == 11 {
        18
    } else if code == 12 {
        22
    } else if code == 13 {
        30
    } else if code == 14 {
        38
    } else if code == 15 {
        54
    } else if code == 16 {
        70
    } else if code == 17 {
        102
    } else if code == 18 {
        134
    } else if code == 19 {
        198
    } else if code == 20 {
        326
    } else if code == 21 {
        582
    } else if code == 22 {
        1094
    } else {
        2118
    }
}

/// The copy length extra-bit table, as the format fixes it.
pub open spec fn spec_copy_extra(code: int) -> int {
    if code < 8 {
        0
    } else if code < 10 {
        1
    } else if code < 12 {
        2
    } else if code < 14 {
        3
    } else if code < 16 {
        4
    } else if code < 18 {
        5
    } else if code == 18 {
        6
    } else if code == 19 {
        7
    } else if code == 20 {
        8
    } else if code == 21 {
        9
    } else if code == 22 {
        10
    } else {
        24
    }
}

/// The combined insert-and-copy symbol of the format's fixed cell layout.
pub open spec fn spec_combine(inscode: int, copycode: int, use_last_distance: bool) -> int {
    let low = copycode % 8 + 8 * (inscode % 8);
    if use_last_distance && inscode < 8 && copycode < 16 {
        if copycode < 8 {
            low
        } else {
            low + 64
        }
    } else {
        let j = copycode / 8 + 3 * (inscode / 8);
        let corr: int = if j == 0 {
            64
        } else if j == 1 {
            64
        } else if j == 2 {
            192
        } else if j == 3 {
            0
        } else if j == 4 {
            0
        } else if j == 5 {
            128
        } else if j == 6 {
            0
        } else if j == 7 {
            64
        } else {
            64
        };
        64 * j + 64 + corr + low
    }
}

/// Base value of each bucketed insert length code.
pub fn ins_base(code: u32) -> (b: u32)
    requires
        code < 24,
    ensures
        b == spec_ins_base(code as int),
{
    if code < 6 {
        code
    } else if code == 6 {
        6
    } else if code == 7 {
        8
    } else if code == 8 {
        10
    } else if code == 9 {
        14
    } else if code == 10 {
        18
    } else if code == 11 {
        26
    } else if code == 12 {
        34
    } else if code == 13 {
        50
    } else if code == 14 {
        66
    } else if code == 15 {
        98
    } else if code == 16 {
        130
    } else if code == 17 {
        194
    } else if code == 18 {
        322
    } else if code == 19 {
        578
    } else if code == 20 {
        1090
    } else if code == 21 {
        2114
    } else if code == 22 {
        6210
    } else {
        22594
    }
}

/// Extra-bit count of each bucketed insert length code.
pub fn ins_extra(code: u32) -> (e: u32)
    requires
        code < 24,
    ensures
        e == spec_ins_extra(code as int),
        e <= 24,
{
    if code < 6 {
        0
    } else if code < 8 {
        1
    } else if code < 10 {
        2
    } else if code < 12 {
        3
    } else if code < 14 {
        4
    } else if code < 16 {
        5
    } else if code == 16 {
        6
    } else if code == 17 {
        7
    } else if code == 18 {
        8
    } else if code == 19 {
        9
    } else if code == 20 {
        10
    } else if code == 21 {
        12
    } else if code == 22 {
        14
    } else {
        24
    }
}

/// Base value of each bucketed copy length code.
pub fn copy_base(code: u32) -> (b: u32)
    requires
        code < 24,
    ensures
        b == spec_copy_base(code as int),
{
    if code < 8 {
        code + 2
    } else if code == 8 {
        10
    } else if code == 9 {
        12
    } else if code == 10 {
        14
    } else if code == 11 {
        18
    } else if code == 12 {
        22
    } else if code == 13 {
        30
    } else if code == 14 {
        38
    } else if code == 15 {
        54
    } else if code == 16 {
        70
    } else if code == 17 {
        102
    } else if code == 18 {
        134
    } else if code == 19 {
        198
    } else if code == 20 {
        326
    } else if code == 21 {
        582
    } else if code == 22 {
        1094
    } else {
        2118
    }
}

/// Extra-bit count of each bucketed copy length code.
pub fn copy_extra(code: u32) -> (e: u32)
    requires
        code < 24,
    ensures
        e == spec_copy_extra(code as int),
        e <= 24,
{
    if code < 8 {
        0
    } else if code < 10 {
        1
    } else if code < 12 {
        2
    } else if code < 14 {
        3
    } else if code < 16 {
        4
    } else if code < 18 {
        5
    } else if code == 18 {
        6
    } else if code == 19 {
        7
    } else if code == 20 {
        8
    } else if code == 21 {
        9
    } else if code == 22 {
        10
    } else {
        24
    }
}

/// Bucket an insert length: the largest code whose base does not exceed
/// it, with the leftover as the code's extra-bit value.
pub fn insert_length_code(ilen: u32) -> (r: (u32, u32, u32))
    ensures
        r.0 < 24,
        r.1 <= 24,
        r.1 == spec_ins_extra(r.0 as int),
        spec_ins_base(r.0 as int) <= ilen,
        r.0 < 23 ==> ilen < spec_ins_base(r.0 as int + 1),
        r.2 == ilen - spec_ins_base(r.0 as int),
{
    let mut code: u32 = 23;
    while code > 0 && ins_base(code) > ilen
        invariant
            code < 24,
            forall|c: int| code < c < 24 ==> spec_ins_base(c) > ilen,
        decreases code,
    {
        code = code - 1;
    }
    let base = ins_base(code);
    (code, ins_extra(code), ilen - base)
}

/// Bucket a copy length: the largest code whose base does not exceed it,
/// with the leftover as the code's extra-bit value.
pub fn copy_length_code(clen: u32) -> (r: (u32, u32, u32))
    requires
        clen >= 2,
    ensures
        r.0 < 24,
        r.1 <= 24,
        r.1 == spec_copy_extra(r.0 as int),
        spec_copy_base(r.0 as int) <= clen,
        r.0 < 23 ==> clen < spec_copy_base(r.0 as int + 1),
        r.2 == clen - spec_copy_base(r.0 as int),
{
    let mut code: u32 = 23;
    while code > 0 && copy_base(code) > clen
        invariant
            code < 24,
            forall|c: int| code < c < 24 ==> spec_copy_base(c) > clen,
        decreases code,
    {
        code = code - 1;
    }
    let base = copy_base(code);
    (code, copy_extra(code), clen - base)
}

/// The combined insert-and-copy symbol of the format's fixed cell layout;
/// commands that reuse the last distance draw from the implicit-distance
/// cells when their length codes allow it.
pub fn combine_length_codes(inscode: u32, copycode: u32, use_last_distance: bool) -> (sym: u64)
    requires
        inscode < 24,
        copycode < 24,
    ensures
        sym == spec_combine(inscode as int, copycode as int, use_last_distance),
        sym < 704,
        use_last_distance && inscode < 8 && copycode < 16 ==> sym < 128,
{
    let low: u32 = (copycode % 8) + 8 * (inscode % 8);
    if use_last_distance && inscode < 8 && copycode < 16 {
        let s: u32 = if copycode < 8 {
            low
        } else {
            low + 64
        };
        s as u64
    } else {
        let icell: u32 = inscode / 8;
        let ccell: u32 = copycode / 8;
        let j: u32 = ccell + 3 * icell;
        let corr: u32 = if j == 0 {
            64
        } else if j == 1 {
            64
        } else if j == 2 {
            192
        } else if j == 3 {
            0
        } else if j == 4 {
            0
        } else if j == 5 {
            128
        } else if j == 6 {
            0
        } else if j == 7 {
            64
        } else {
            64
        };
        let s: u32 = 64 * j + 64 + corr + low;
        s as u64
    }
}

/// The explicit distance symbol (postfix 0, no direct codes): the code,
/// its extra-bit count and its extra-bit value, related to the distance
/// exactly as a reader reconstructs it — `d` equals
/// `(2 + (code-16) % 2) * 2^nbits - 4 + extra + 1`.
pub fn distance_symbol(d: u32) -> (r: (u32, u32, u32))
    requires
        1 <= d,
        d <= 0x03ff_fff0,
    ensures
        16 <= r.0 < 64,
        1 <= r.1 <= 24,
        r.1 == 1 + (r.0 - 16) as int / 2,
        r.2 < pot2(r.1 as int),
        (2 + (r.0 - 16) as int % 2) * pot2(r.1 as int) - 4 + r.2 + 1 == d,
{
    let dv: u32 = d + 3;  // 4 ..= 0x03ff_fff3
    let mut n: u32 = 0;
    let mut m: u32 = 1;
    proof {
        assert(pot2(0) == 1);
    }
    while m <= dv / 2
        invariant
            m == pot2(n as int),
            1 <= m <= dv,
            dv == d + 3,
            4 <= dv < 0x0400_0000,
            n <= 25,
        decreases dv - m,
    {
        proof {
            assert(pot2(n as int + 1) == 2 * pot2(n as int));
            crate::prefixcode::lemma_pot2_25_26();
            if n as int >= 25 {
                crate::prefixcode::lemma_pot2_mono(25, n as int);
                assert(false);
            }
        }
        m = m * 2;
        n = n + 1;
    }
    // m == 2^n and m <= dv < 2*m, so n is the bit position of dv's top bit.
    proof {
        if n < 2 {
            assert(pot2(1) == 2);
            assert(m <= 2);
            assert(false);
        }
        assert(pot2(n as int) == 2 * pot2(n as int - 1));
    }
    let mh: u32 = m / 2;  // 2^(n-1)
    let q: u32 = dv / mh;
    proof {
        assert(q >= 2) by (nonlinear_arith)
            requires
                dv >= 2 * mh,
                mh >= 1,
                q == dv / mh,
        ;
        assert(q <= 3) by (nonlinear_arith)
            requires
                dv < 4 * mh,
                mh >= 2,
                q == dv / mh,
        ;
    }
    let h: u32 = q - 2;
    let extra: u32 = dv % mh;
    let nbits: u32 = n - 1;
    let code: u32 = 16 + 2 * (nbits - 1) + h;
    proof {
        assert(q * mh + extra == dv) by (nonlinear_arith)
            requires
                mh >= 1,
                q == dv / mh,
                extra == dv % mh,
        ;
        assert((code - 16) as int % 2 == h);
        assert((code - 16) as int / 2 == nbits - 1);
    }
    (code, nbits, extra)
}

} // verus!
