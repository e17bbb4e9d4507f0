//! Match finder: hash-bucketed search over the sliding window for the
//! longest match at the cheapest distance, with one-step lookahead (lazy
//! matching) and a minimum economic match length. Its result provably
//! covers the new bytes exactly, every copy matching earlier data.

use vstd::prelude::*;
use crate::command::{Command, cmds_exact, cmd_ok, lemma_cmds_exact_push};

verus! {

pub const HASH_BUCKETS: usize = 32768;

pub const HASH_SLOTS: usize = 4;

pub const MIN_MATCH: usize = 4;

/// Rolling 4-byte hash bucket index.
fn hash4(hist: &Vec<u8>, p: usize) -> (h: usize)
    requires
        p + 4 <= hist.len(),
    ensures
        h < HASH_BUCKETS,
{
    let v: u64 = (hist[p] as u64) + 256 * (hist[p + 1] as u64) + 65536 * (hist[p + 2] as u64)
        + 16777216 * (hist[p + 3] as u64);
    (((v * 0x1E35A7BD) >> 17) % 32768) as usize
}

/// Record position `p` in its hash bucket, keeping the most recent entries.
fn insert_pos(table: &mut Vec<usize>, hist: &Vec<u8>, p: usize)
    requires
        old(table).len() == HASH_BUCKETS * HASH_SLOTS,
        p + 4 <= hist.len(),
    ensures
        final(table).len() == HASH_BUCKETS * HASH_SLOTS,
{
    let h = hash4(hist, p);
    let b = h * 4;
    let t2 = table[b + 2];
    table.set(b + 3, t2);
    let t1 = table[b + 1];
    table.set(b + 2, t1);
    let t0 = table[b];
    table.set(b + 1, t0);
    table.set(b, p);
}

/// Length of the common run of `hist` at `q` and at `pos` (self-overlap
/// allowed, as a back-reference copy may run into its own output).
fn match_len(hist: &Vec<u8>, q: usize, pos: usize, bend: usize) -> (l: usize)
    requires
        q < pos,
        pos <= bend <= hist.len(),
    ensures
        pos + l <= bend,
        forall|i: int| 0 <= i < l ==> hist@[q + i] == #[trigger] hist@[pos + i],
{
    let n = bend;
    let mut l: usize = 0;
    while pos + l < n && hist[q + l] == hist[pos + l]
        invariant
            q < pos <= n,
            pos + l <= n,
            n == bend,
            bend <= hist.len(),
            forall|i: int| 0 <= i < l ==> hist@[q + i] == #[trigger] hist@[pos + i],
        decreases n - pos - l,
    {
        l = l + 1;
    }
    l
}

/// Best window match at `pos` among the bucket's recent positions: longest
/// wins, and among equal lengths the shorter distance wins.
fn best_match(
    hist: &Vec<u8>,
    table: &Vec<usize>,
    pos: usize,
    bend: usize,
    maxdist: usize,
    depth: usize,
) -> (r: (usize, usize))
    requires
        table.len() == HASH_BUCKETS * HASH_SLOTS,
        pos <= bend <= hist.len(),
        hist.len() <= 0x0400_0000,
        depth <= HASH_SLOTS,
    ensures
        r.0 == 0 || {
            &&& MIN_MATCH <= r.0
            &&& pos + r.0 <= bend
            &&& 1 <= r.1 <= pos
            &&& r.1 <= maxdist
            &&& forall|i: int|
                0 <= i < r.0 ==> hist@[pos - r.1 + i] == #[trigger] hist@[pos + i]
        },
{
    if pos + 4 > bend {
        return (0, 0);
    }
    let h = hash4(hist, pos);
    let b = h * 4;
    let mut best_len: usize = 0;
    let mut best_dist: usize = 0;
    let mut s: usize = 0;
    while s < depth
        invariant
            s <= depth,
            depth <= HASH_SLOTS,
            b + 4 <= table.len(),
            pos <= bend <= hist.len(),
            best_len == 0 || {
                &&& MIN_MATCH <= best_len
                &&& pos + best_len <= bend
                &&& 1 <= best_dist <= pos
                &&& best_dist <= maxdist
                &&& forall|i: int|
                    0 <= i < best_len ==> hist@[pos - best_dist + i] == #[trigger] hist@[pos + i]
            },
        decreases depth - s,
    {
        let q = table[b + s];
        if q < pos {
            let d = pos - q;
            if 1 <= d && d <= maxdist {
                let l = match_len(hist, q, pos, bend);
                if l >= MIN_MATCH && (l > best_len || (l == best_len && d < best_dist)) {
                    best_len = l;
                    best_dist = d;
                }
            }
        }
        s = s + 1;
    }
    (best_len, best_dist)
}

/// Scan `hist[bstart..]` and emit commands that exactly cover it, matching
/// against the window before each position. `depth` buckets are probed per
/// position (search effort grows with quality).
pub fn find_commands(hist: &Vec<u8>, bstart: usize, bend: usize, maxdist: usize, depth: usize) -> (
    cmds: Vec<Command>)
    requires
        bstart <= bend <= hist.len(),
        hist.len() <= 0x0400_0000,
        1 <= maxdist,
        1 <= depth <= HASH_SLOTS,
    ensures
        cmds_exact(hist@, bstart as int, bend as int, maxdist as int, cmds@),
        cmds@.len() <= bend + 1,
{
    let n = bend;
    let mut table: Vec<usize> = Vec::new();
    let mut ti: usize = 0;
    while ti < HASH_BUCKETS * HASH_SLOTS
        invariant
            table.len() == ti,
            ti <= HASH_BUCKETS * HASH_SLOTS,
        decreases HASH_BUCKETS * HASH_SLOTS - ti,
    {
        table.push(usize::MAX);
        ti = ti + 1;
    }
    // Seed the table with window positions just before the block, so early
    // block bytes can still match prior data.
    let seed_lo: usize = if bstart > 65536 {
        bstart - 65536
    } else {
        0
    };
    let mut sp: usize = seed_lo;
    while sp < bstart
        invariant
            table.len() == HASH_BUCKETS * HASH_SLOTS,
            sp <= bstart,
            bstart <= n,
            n == bend,
            n <= hist.len(),
            hist.len() <= 0x0400_0000,
        decreases bstart - sp,
    {
        if sp + 4 <= hist.len() {
            insert_pos(&mut table, hist, sp);
        }
        sp = sp + 1;
    }
    let mut cmds: Vec<Command> = Vec::new();
    let mut lit_start: usize = bstart;
    let mut pos: usize = bstart;
    while pos < n
        invariant
            bstart <= lit_start <= pos <= n,
            n == bend,
            bend <= hist.len(),
            hist.len() <= 0x0400_0000,
            1 <= maxdist,
            1 <= depth <= HASH_SLOTS,
            table.len() == HASH_BUCKETS * HASH_SLOTS,
            cmds_exact(hist@, bstart as int, lit_start as int, maxdist as int, cmds@),
            cmds@.len() <= pos,
            forall|k: int| 0 <= k < cmds.len() ==> (#[trigger] cmds@[k]).copy_len > 0,
        decreases n - pos,
    {
        let (mlen, mdist) = best_match(hist, &table, pos, bend, maxdist, depth);
        let mut take: bool = mlen > 0;
        if take && pos + 1 < n {
            // One-step lookahead: prefer a strictly better match one byte on.
            let (nlen, _ndist) = best_match(hist, &table, pos + 1, bend, maxdist, depth);
            if nlen > mlen {
                take = false;
            }
        }
        if take {
            let c = Command {
                insert_len: (pos - lit_start) as u32,
                copy_len: mlen as u32,
                distance: mdist as u32,
            };
            proof {
                assert(cmd_ok(
                    hist@,
                    lit_start as int,
                    (pos + mlen) as int,
                    maxdist as int,
                    c,
                ));
                lemma_cmds_exact_push(
                    hist@,
                    bstart as int,
                    lit_start as int,
                    (pos + mlen) as int,
                    maxdist as int,
                    cmds@,
                    c,
                );
            }
            cmds.push(c);
            // Enter the covered positions so later bytes can match them.
            let stop: usize = pos + mlen;
            let mut ip: usize = pos;
            while ip < stop
                invariant
                    table.len() == HASH_BUCKETS * HASH_SLOTS,
                    ip <= stop,
                    stop <= n,
                    n == bend,
                    bend <= hist.len(),
                    hist.len() <= 0x0400_0000,
                decreases stop - ip,
            {
                if ip + 4 <= hist.len() {
                    insert_pos(&mut table, hist, ip);
                }
                ip = ip + 1;
            }
            pos = stop;
            lit_start = pos;
        } else {
            if pos + 4 <= hist.len() {
                insert_pos(&mut table, hist, pos);
            }
            pos = pos + 1;
        }
    }
    if lit_start < n {
        let c = Command {
            insert_len: (n - lit_start) as u32,
            copy_len: 0,
            distance: 0,
        };
        proof {
            assert(cmd_ok(hist@, lit_start as int, n as int, maxdist as int, c));
            lemma_cmds_exact_push(
                hist@,
                bstart as int,
                lit_start as int,
                n as int,
                maxdist as int,
                cmds@,
                c,
            );
        }
        cmds.push(c);
    }
    cmds
}

} // verus!
