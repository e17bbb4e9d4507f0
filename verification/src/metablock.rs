//! Meta-block serialisation: headers, code tables and the token stream,
//! bit-packed in wire order; plus the uncompressed escape, the stream
//! header, the flush-alignment empty block and the closing empty block.

use vstd::prelude::*;
use crate::bitwriter::{BitWriter, bits_of, zero_bits, lemma_prefix_append, lemma_prefix_trans};
use crate::command::{
    Command, cmds_exact, cmds_literals, insert_length_code, copy_length_code,
    combine_length_codes, distance_symbol,
};
use crate::histogram::Histogram;
use crate::prefixcode::build_and_write_code;

verus! {

/// Number of bits in the header of an uncompressed meta-block, padding and
/// trailing alignment included.
pub const UNCOMP_HEADER_BITS: usize = 46;

/// Zero bits needed to reach the next byte boundary from bit position `n`.
pub open spec fn pad_len(n: int) -> int {
    (8 - n % 8) % 8
}

/// The meta-block length header: a two-bit nibble count, then the length
/// minus one in four, five or six nibbles, the fewest that fit.
pub open spec fn mlen_bits(mlen: int) -> Seq<bool>
    recommends
        1 <= mlen <= 0x0100_0000,
{
    if mlen - 1 < 65536 {
        bits_of(0, 2) + bits_of((mlen - 1) as u64, 16)
    } else if mlen - 1 < 1048576 {
        bits_of(1, 2) + bits_of((mlen - 1) as u64, 20)
    } else {
        bits_of(2, 2) + bits_of((mlen - 1) as u64, 24)
    }
}

/// The stream header's encoding of the sliding-window size.
pub open spec fn wbits_bits(lgwin: int) -> Seq<bool>
    recommends
        10 <= lgwin <= 24,
{
    if lgwin == 16 {
        bits_of(0, 1)
    } else if lgwin == 17 {
        bits_of(1, 7)
    } else if lgwin >= 18 {
        bits_of(1, 1) + bits_of((lgwin - 17) as u64, 3)
    } else {
        bits_of(1, 1) + bits_of(0, 3) + bits_of((lgwin - 8) as u64, 3)
    }
}

/// The bytes `s[from .. to]` spelled out as bits, each byte least
/// significant bit first.
pub open spec fn byte_bits(s: Seq<u8>, from: int, to: int) -> Seq<bool>
    decreases to - from,
{
    if from >= to {
        Seq::<bool>::empty()
    } else {
        byte_bits(s, from, to - 1) + bits_of(s[to - 1] as u64, 8)
    }
}

/// The low bits of zero are all clear.
pub proof fn lemma_zero_bits_of(n: nat)
    ensures
        bits_of(0, n) == zero_bits(n),
{
    assert forall|i: int| 0 <= i < n implies bits_of(0, n)[i] == zero_bits(n)[i] by {
        let iv = i as u64;
        assert((0u64 >> iv) & 1 == 0) by (bit_vector);
    }
    assert(bits_of(0, n) =~= zero_bits(n));
}

/// One command resolved to wire symbols.
pub struct EncCmd {
    pub sym: usize,
    pub ins_nbits: u32,
    pub ins_extra: u32,
    pub cpy_nbits: u32,
    pub cpy_extra: u32,
    pub has_dist: bool,
    pub dist_sym: usize,
    pub dist_nbits: u32,
    pub dist_extra: u32,
}

pub open spec fn enc_wf(e: EncCmd) -> bool {
    &&& e.sym < 704
    &&& e.ins_nbits <= 24
    &&& e.cpy_nbits <= 24
    &&& e.dist_sym < 64
    &&& e.dist_nbits <= 24
}

/// Resolve commands to wire symbols and collect the three histograms.
/// The literal histogram counts exactly the literal bytes, the command
/// histogram exactly one symbol per token.
fn resolve_commands(
    hist: &Vec<u8>,
    bstart: usize,
    bend: usize,
    cmds: &Vec<Command>,
    md: usize,
    last_dist_in: u32,
) -> (r: (Vec<EncCmd>, Histogram, Histogram, Histogram, u32))
    requires
        bstart <= bend <= hist.len(),
        hist.len() <= 0x0400_0000,
        md <= 0x03ff_fff0,
        cmds_exact(hist@, bstart as int, bend as int, md as int, cmds@),
        cmds.len() <= 0x0400_0000,
        1 <= last_dist_in <= 0x0fff_fff0,
    ensures
        r.0.len() == cmds.len(),
        forall|i: int| 0 <= i < r.0.len() ==> enc_wf(#[trigger] r.0@[i]),
        r.1.wf() && r.1.counts.len() == 256 && r.1.total == cmds_literals(cmds@),
        r.2.wf() && r.2.counts.len() == 704 && r.2.total == cmds.len(),
        r.3.wf() && r.3.counts.len() == 64,
        1 <= r.4 <= 0x0fff_fff0,
{
    let n = bend;
    let mut lit_h = Histogram::new(256);
    let mut cmd_h = Histogram::new(704);
    let mut dist_h = Histogram::new(64);
    let mut enc: Vec<EncCmd> = Vec::new();
    let mut last: u32 = last_dist_in;
    let mut p: usize = bstart;
    let mut i: usize = 0;
    proof {
        crate::command::lemma_literals_take_zero(cmds@);
        assert(cmds@.skip(0) =~= cmds@);
    }
    while i < cmds.len()
        invariant
            i <= cmds.len(),
            cmds.len() <= 0x0400_0000,
            n == bend,
            bend <= hist.len(),
            hist.len() <= 0x0400_0000,
            md <= 0x03ff_fff0,
            bstart <= p <= n,
            cmds_exact(hist@, p as int, n as int, md as int, cmds@.skip(i as int)),
            enc.len() == i,
            forall|q: int| 0 <= q < enc.len() ==> enc_wf(#[trigger] enc@[q]),
            lit_h.wf() && lit_h.counts.len() == 256,
            lit_h.total == cmds_literals(cmds@.take(i as int)),
            lit_h.total <= p - bstart,
            cmd_h.wf() && cmd_h.counts.len() == 704 && cmd_h.total == i,
            dist_h.wf() && dist_h.counts.len() == 64 && dist_h.total <= i,
            1 <= last <= 0x0fff_fff0,
        decreases cmds.len() - i,
    {
        proof {
            assert(cmds@.skip(i as int)[0] == cmds@[i as int]);
            assert(cmds@.skip(i as int).skip(1) =~= cmds@.skip(i + 1));
            crate::command::lemma_literals_take_succ(cmds@, i as int);
        }
        let c = cmds[i];
        let ilen = c.insert_len as usize;
        // Literals of this token.
        let mut j: usize = 0;
        while j < ilen
            invariant
                j <= ilen,
                p + ilen <= n,
                n == bend,
                bend <= hist.len(),
                hist.len() <= 0x0400_0000,
                lit_h.wf() && lit_h.counts.len() == 256,
                lit_h.total == cmds_literals(cmds@.take(i as int)) + j,
                lit_h.total <= p + j - bstart,
                bstart <= p,
            decreases ilen - j,
        {
            let b = hist[p + j] as usize;
            lit_h.add(b);
            j = j + 1;
        }
        let (icode, ibits, iex) = insert_length_code(c.insert_len);
        let e: EncCmd;
        if c.copy_len == 0 {
            // Trailing literal run: the reader stops at the meta-block
            // length, so the copy half of the symbol is a placeholder.
            let sym = combine_length_codes(icode, 2, true);
            e = EncCmd {
                sym: sym as usize,
                ins_nbits: ibits,
                ins_extra: iex,
                cpy_nbits: 0,
                cpy_extra: 0,
                has_dist: false,
                dist_sym: 0,
                dist_nbits: 0,
                dist_extra: 0,
            };
        } else {
            let (ccode, cbits, cex) = copy_length_code(c.copy_len);
            if c.distance == last && icode < 8 && ccode < 16 {
                let sym = combine_length_codes(icode, ccode, true);
                e = EncCmd {
                    sym: sym as usize,
                    ins_nbits: ibits,
                    ins_extra: iex,
                    cpy_nbits: cbits,
                    cpy_extra: cex,
                    has_dist: false,
                    dist_sym: 0,
                    dist_nbits: 0,
                    dist_extra: 0,
                };
            } else {
                let sym = combine_length_codes(icode, ccode, false);
                if c.distance == last {
                    // Shortest cache reference: code zero, no extra bits,
                    // and the cache is left as it stands.
                    e = EncCmd {
                        sym: sym as usize,
                        ins_nbits: ibits,
                        ins_extra: iex,
                        cpy_nbits: cbits,
                        cpy_extra: cex,
                        has_dist: true,
                        dist_sym: 0,
                        dist_nbits: 0,
                        dist_extra: 0,
                    };
                } else {
                    let (ds, dn, dex) = distance_symbol(c.distance);
                    e = EncCmd {
                        sym: sym as usize,
                        ins_nbits: ibits,
                        ins_extra: iex,
                        cpy_nbits: cbits,
                        cpy_extra: cex,
                        has_dist: true,
                        dist_sym: ds as usize,
                        dist_nbits: dn,
                        dist_extra: dex,
                    };
                    last = c.distance;
                }
            }
        }
        cmd_h.add(e.sym);
        if e.has_dist {
            dist_h.add(e.dist_sym);
        }
        enc.push(e);
        p = p + ilen + c.copy_len as usize;
        i = i + 1;
    }
    proof {
        assert(cmds@.take(cmds@.len() as int) =~= cmds@);
    }
    (enc, lit_h, cmd_h, dist_h, last)
}

/// Write the meta-block length header: nibble count and length nibbles.
fn write_mlen(w: &mut BitWriter, mlen: usize)
    requires
        1 <= mlen <= 0x0100_0000,
    ensures
        final(w)@ == old(w)@ + mlen_bits(mlen as int),
        old(w)@.is_prefix_of(final(w)@),
        old(w)@.len() + 18 <= final(w)@.len() <= old(w)@.len() + 26,
{
    let ghost w0 = w@;
    let v: u64 = (mlen - 1) as u64;
    if v < 65536 {
        w.write_bits(0, 2);
        w.write_bits(v, 16);
    } else if v < 1048576 {
        w.write_bits(1, 2);
        w.write_bits(v, 20);
    } else {
        w.write_bits(2, 2);
        w.write_bits(v, 24);
    }
    proof {
        assert(w@ =~= w0 + mlen_bits(mlen as int));
        assert(w0 =~= w@.subrange(0, w0.len() as int));
    }
}

/// Serialise one compressed meta-block (never the last one) into a fresh
/// writer: the fixed header (not last, the length, compressed, one block
/// type and one code table per class, no postfix or direct distance
/// codes), then the three table descriptions and the token stream. A
/// `false` result means no usable code table description exists for these
/// statistics and nothing may be appended.
pub fn write_compressed_metablock(
    w: &mut BitWriter,
    hist: &Vec<u8>,
    bstart: usize,
    bend: usize,
    cmds: &Vec<Command>,
    md: usize,
    last_dist_in: u32,
) -> (r: (bool, u32))
    requires
        old(w)@.len() == 0,
        bstart < bend <= hist.len(),
        hist.len() <= 0x0400_0000,
        bend - bstart <= 0x0100_0000,
        md <= 0x03ff_fff0,
        cmds_exact(hist@, bstart as int, bend as int, md as int, cmds@),
        cmds.len() <= 0x0400_0000,
        1 <= last_dist_in <= 0x0fff_fff0,
    ensures
        1 <= r.1 <= 0x0fff_fff0,
        r.0 ==> (bits_of(0, 1) + mlen_bits((bend - bstart) as int) + zero_bits(14)).is_prefix_of(
            final(w)@,
        ),
{
    let n = bend;
    let mlen = n - bstart;
    let (enc, lit_h, cmd_h, dist_h, last_out) = resolve_commands(
        hist,
        bstart,
        bend,
        cmds,
        md,
        last_dist_in,
    );
    // Header: not last; length; compressed; one block type per class; no
    // postfix or direct distance codes; one context mode; one literal and
    // one distance code table (context maps omitted, all zero).
    w.write_bits(0, 1);
    write_mlen(w, mlen);
    w.write_bits(0, 1);
    w.write_bits(0, 1);
    w.write_bits(0, 1);
    w.write_bits(0, 1);
    w.write_bits(0, 6);
    w.write_bits(0, 2);
    w.write_bits(0, 1);
    w.write_bits(0, 1);
    let ghost hdr = bits_of(0, 1) + mlen_bits(mlen as int) + zero_bits(14);
    proof {
        lemma_zero_bits_of(1);
        lemma_zero_bits_of(2);
        lemma_zero_bits_of(6);
        assert(w@ =~= hdr);
        assert(hdr =~= w@.subrange(0, hdr.len() as int));
    }
    let (lit_lens, lit_ready, ok_l) = build_and_write_code(w, &lit_h.counts, 8);
    proof {
        assert(hdr.is_prefix_of(w@));
    }
    if !ok_l {
        return (false, last_dist_in);
    }
    let ghost wa = w@;
    let (cmd_lens, cmd_ready, ok_c) = build_and_write_code(w, &cmd_h.counts, 10);
    proof {
        lemma_prefix_trans(hdr, wa, w@);
    }
    if !ok_c {
        return (false, last_dist_in);
    }
    let ghost wb = w@;
    let (dist_lens, dist_ready, ok_d) = build_and_write_code(w, &dist_h.counts, 6);
    proof {
        lemma_prefix_trans(hdr, wb, w@);
    }
    if !ok_d {
        return (false, last_dist_in);
    }
    // Token stream.
    let mut p: usize = bstart;
    let mut i: usize = 0;
    proof {
        assert(cmds@.skip(0) =~= cmds@);
    }
    while i < enc.len()
        invariant
            i <= enc.len(),
            enc.len() == cmds.len(),
            cmds.len() <= 0x0400_0000,
            n == bend,
            bend <= hist.len(),
            hist.len() <= 0x0400_0000,
            md <= 0x03ff_fff0,
            bstart <= p <= n,
            cmds_exact(hist@, p as int, n as int, md as int, cmds@.skip(i as int)),
            forall|q: int| 0 <= q < enc.len() ==> enc_wf(#[trigger] enc@[q]),
            lit_lens.len() == 256,
            lit_ready.len() == 256,
            cmd_lens.len() == 704,
            cmd_ready.len() == 704,
            dist_lens.len() == 64,
            dist_ready.len() == 64,
            forall|q: int| 0 <= q < lit_lens.len() ==> #[trigger] lit_lens@[q] <= 15,
            forall|q: int| 0 <= q < cmd_lens.len() ==> #[trigger] cmd_lens@[q] <= 15,
            forall|q: int| 0 <= q < dist_lens.len() ==> #[trigger] dist_lens@[q] <= 15,
            hdr.is_prefix_of(w@),
        decreases enc.len() - i,
    {
        proof {
            assert(cmds@.skip(i as int)[0] == cmds@[i as int]);
            assert(cmds@.skip(i as int).skip(1) =~= cmds@.skip(i + 1));
        }
        let c = cmds[i];
        let e = &enc[i];
        let ghost before = w@;
        w.write_bits(cmd_ready[e.sym], cmd_lens[e.sym] as usize);
        w.write_bits(e.ins_extra as u64, e.ins_nbits as usize);
        if c.copy_len > 0 {
            w.write_bits(e.cpy_extra as u64, e.cpy_nbits as usize);
        }
        proof {
            assert(before =~= w@.subrange(0, before.len() as int));
            lemma_prefix_trans(hdr, before, w@);
        }
        let ilen = c.insert_len as usize;
        let mut j: usize = 0;
        while j < ilen
            invariant
                j <= ilen,
                p + ilen <= n,
                n == bend,
                bend <= hist.len(),
                lit_lens.len() == 256,
                lit_ready.len() == 256,
                forall|q: int| 0 <= q < lit_lens.len() ==> #[trigger] lit_lens@[q] <= 15,
                hdr.is_prefix_of(w@),
            decreases ilen - j,
        {
            let b = hist[p + j] as usize;
            let ghost before_l = w@;
            w.write_bits(lit_ready[b], lit_lens[b] as usize);
            proof {
                lemma_prefix_append(
                    before_l,
                    bits_of(lit_ready@[b as int], lit_lens@[b as int] as nat),
                );
                lemma_prefix_trans(hdr, before_l, w@);
            }
            j = j + 1;
        }
        if c.copy_len > 0 && e.has_dist {
            let ghost before_d = w@;
            w.write_bits(dist_ready[e.dist_sym], dist_lens[e.dist_sym] as usize);
            w.write_bits(e.dist_extra as u64, e.dist_nbits as usize);
            proof {
                assert(before_d =~= w@.subrange(0, before_d.len() as int));
                lemma_prefix_trans(hdr, before_d, w@);
            }
        }
        p = p + ilen + c.copy_len as usize;
        i = i + 1;
    }
    (true, last_out)
}

/// Append one uncompressed meta-block (never the last one): the exact
/// bits are the not-last flag, the length header, the uncompressed flag,
/// zero padding to the byte boundary, then the bytes as they stand.
pub fn write_uncompressed_metablock(w: &mut BitWriter, hist: &Vec<u8>, bstart: usize, bend: usize)
    requires
        bstart < bend <= hist.len(),
        hist.len() <= 0x0400_0000,
        bend - bstart <= 0x0100_0000,
    ensures
        final(w)@ == old(w)@ + bits_of(0, 1) + mlen_bits((bend - bstart) as int) + bits_of(1, 1)
            + zero_bits(
            pad_len((old(w)@.len() + 2 + mlen_bits((bend - bstart) as int).len()) as int) as nat,
        ) + byte_bits(hist@, bstart as int, bend as int),
        final(w)@.len() % 8 == 0,
        final(w)@.len() <= old(w)@.len() + UNCOMP_HEADER_BITS + 8 * (bend - bstart),
        old(w)@.len() <= final(w)@.len(),
        old(w)@.is_prefix_of(final(w)@),
{
    let ghost w0 = w@;
    let n = bend;
    let mlen = n - bstart;
    w.write_bits(0, 1);
    write_mlen(w, mlen);
    w.write_bits(1, 1);
    w.align_to_byte();
    let ghost hdr = w0 + bits_of(0, 1) + mlen_bits(mlen as int) + bits_of(1, 1) + zero_bits(
        pad_len((w0.len() + 2 + mlen_bits(mlen as int).len()) as int) as nat,
    );
    proof {
        assert(w@ =~= hdr);
        assert(w@.take(w0.len() as int) =~= w0);
        assert(w@.len() <= w0.len() + 38);
        assert(byte_bits(hist@, bstart as int, bstart as int) =~= Seq::<bool>::empty());
        assert(w@ =~= hdr + byte_bits(hist@, bstart as int, bstart as int));
    }
    let mut j: usize = 0;
    while j < mlen
        invariant
            j <= mlen,
            mlen == n - bstart,
            bstart < n,
            n == bend,
            bend <= hist.len(),
            w@.len() % 8 == 0,
            w@.len() <= w0.len() + UNCOMP_HEADER_BITS + 8 * j,
            w0.len() == old(w)@.len(),
            w0 == old(w)@,
            w0.len() <= w@.len(),
            w0.is_prefix_of(w@),
            w@ == hdr + byte_bits(hist@, bstart as int, (bstart + j) as int),
        decreases mlen - j,
    {
        let ghost before = w@;
        w.write_bits(hist[bstart + j] as u64, 8);
        proof {
            assert(byte_bits(hist@, bstart as int, bstart + j + 1) == byte_bits(
                hist@,
                bstart as int,
                (bstart + j) as int,
            ) + bits_of(hist@[bstart + j] as u64, 8));
            assert(w@ =~= hdr + byte_bits(hist@, bstart as int, bstart + j + 1));
            lemma_prefix_append(before, bits_of(hist@[bstart + j] as u64, 8));
            lemma_prefix_trans(w0, before, w@);
        }
        j = j + 1;
    }
}

/// The stream header: the sliding-window size, in its one- to seven-bit
/// encoding, stated exactly for every window.
pub fn write_stream_header(w: &mut BitWriter, lgwin: u32)
    requires
        10 <= lgwin <= 24,
    ensures
        final(w)@ == old(w)@ + wbits_bits(lgwin as int),
        old(w)@.is_prefix_of(final(w)@),
        old(w)@.len() + 1 <= final(w)@.len() <= old(w)@.len() + 7,
{
    let ghost w0 = w@;
    if lgwin == 16 {
        w.write_bits(0, 1);
    } else if lgwin == 17 {
        w.write_bits(1, 7);
    } else if lgwin >= 18 {
        w.write_bits(1, 1);
        w.write_bits((lgwin - 17) as u64, 3);
    } else {
        // 10 ..= 15
        w.write_bits(1, 1);
        w.write_bits(0, 3);
        w.write_bits((lgwin - 8) as u64, 3);
    }
    proof {
        assert(w@ =~= w0 + wbits_bits(lgwin as int));
        assert(w@.take(w0.len() as int) =~= w0);
    }
}

/// An empty non-last meta-block that only realigns the stream to a byte
/// boundary, so a flush makes everything written so far decodable.
pub fn write_alignment_metablock(w: &mut BitWriter)
    ensures
        final(w)@ == old(w)@ + bits_of(6, 6) + zero_bits(
            pad_len((old(w)@.len() + 6) as int) as nat,
        ),
        old(w)@.is_prefix_of(final(w)@),
        final(w)@.len() % 8 == 0,
        final(w)@.len() <= old(w)@.len() + 13,
{
    let ghost w0 = w@;
    // Not last; the reserved empty shape; zero skipped bytes; realign.
    w.write_bits(6, 6);
    w.align_to_byte();
    proof {
        assert(w@ =~= w0 + bits_of(6, 6) + zero_bits(pad_len((w0.len() + 6) as int) as nat));
        assert(w@.take(w0.len() as int) =~= w0);
    }
}

/// The closing empty meta-block: last, empty, then padding to the byte
/// boundary. Its two content bits and the padding are stated exactly.
pub fn write_final_metablock(w: &mut BitWriter)
    ensures
        final(w)@ == old(w)@ + bits_of(3, 2) + zero_bits(
            ((8 - (old(w)@.len() + 2) % 8) % 8) as nat,
        ),
        final(w)@.len() % 8 == 0,
        old(w)@.is_prefix_of(final(w)@),
        final(w)@.len() <= old(w)@.len() + 9,
{
    let ghost w0 = w@;
    w.write_bits(3, 2);
    w.align_to_byte();
    proof {
        assert(w@ =~= w0 + bits_of(3, 2) + zero_bits(((8 - (w0.len() + 2) % 8) % 8) as nat));
        assert(w@.take(w0.len() as int) =~= w0);
    }
}

} // verus!
