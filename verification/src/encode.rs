//! Stream driver: a resumable state machine that carries one compression
//! session across repeated calls with caller-sized buffers. Parameters
//! freeze at the first compress call; produced byte totals only grow and
//! stay within a fixed multiple of the consumed total.

use vstd::prelude::*;
use crate::bitwriter::BitWriter;
use crate::matchfind::find_commands;
use crate::splitcluster::{best_split, byte_histogram, cluster_histograms, MAX_TABLES};
use crate::metablock::{
    write_compressed_metablock, write_uncompressed_metablock, write_stream_header,
    write_alignment_metablock, write_final_metablock, UNCOMP_HEADER_BITS,
};

verus! {

/// What a compress call should work towards.
pub enum BrotliEncoderOperation {
    Process,
    Flush,
    Finish,
}

/// What the session can fail with. Collaborator failures (allocation, the
/// caller's reader or writer) belong to the embedding, not the pipeline.
#[derive(Debug, PartialEq, Eq)]
pub enum EncoderError {
    ConfigurationError,
    NoProgress,
}

/// A recognised tuning option: search effort, sliding-window size, and
/// the input kind (generic, text or font). With one shared code table per
/// token class the kind changes no emitted bit, but it is validated and
/// frozen like the others.
pub enum BrotliEncoderParameter {
    Quality,
    LgWin,
    Mode,
}

/// One call's outcome.
pub struct StreamResult {
    pub consumed: usize,
    pub output: Vec<u8>,
    pub is_finished: bool,
}

/// Pending bytes accumulate to this size before a meta-block is cut.
pub const BLOCK_TARGET: usize = 65536;

/// History kept for back-references after trimming.
pub const WINDOW_KEEP: usize = 16777216;

/// Session state: totals, the window and pending bytes, the bit cursor and
/// the undelivered output queue.
pub struct BrotliEncoder {
    quality: u32,
    lgwin: u32,
    mode: u32,
    params_frozen: bool,
    started: bool,
    finished: bool,
    hist: Vec<u8>,
    pend_start: usize,
    writer: BitWriter,
    outq: Vec<u8>,
    outq_pos: usize,
    total_in: u64,
    total_out: u64,
    last_dist: u32,
}

/// The whole stream a fresh session produces for empty input and a
/// window of `lgwin` bits: the window header, the closing empty
/// meta-block, and zero padding — one or two bytes.
pub open spec fn empty_session_bytes(lgwin: int) -> Seq<u8> {
    let bits = crate::metablock::wbits_bits(lgwin) + crate::bitwriter::bits_of(3, 2);
    crate::bitwriter::packed(
        bits + crate::bitwriter::zero_bits(crate::metablock::pad_len(bits.len() as int) as nat),
    )
}

/// The empty-input stream is minimal: at most two bytes, never none.
pub proof fn lemma_empty_session_bytes_len(lgwin: int)
    requires
        10 <= lgwin <= 24,
    ensures
        1 <= empty_session_bytes(lgwin).len() <= 2,
{
    let wb = crate::metablock::wbits_bits(lgwin);
    assert(1 <= wb.len() <= 7);
    let bits = wb + crate::bitwriter::bits_of(3, 2);
    let padded = bits + crate::bitwriter::zero_bits(
        crate::metablock::pad_len(bits.len() as int) as nat,
    );
    assert(padded.len() % 8 == 0);
    assert(8 <= padded.len() <= 16);
}

/// Monotone output stays within a small multiple of the input: sixteen
/// bytes per consumed byte plus a fixed session overhead.
pub proof fn lemma_output_bounded(e: &BrotliEncoder)
    requires
        e.wf(),
    ensures
        e.spec_total_out() <= 16 * e.spec_total_in() + 8,
{
}

impl BrotliEncoder {
    pub closed spec fn spec_quality(&self) -> u32 {
        self.quality
    }

    pub closed spec fn spec_lgwin(&self) -> u32 {
        self.lgwin
    }

    pub closed spec fn spec_mode(&self) -> u32 {
        self.mode
    }

    pub closed spec fn spec_frozen(&self) -> bool {
        self.params_frozen
    }

    pub closed spec fn spec_finished(&self) -> bool {
        self.finished
    }

    pub closed spec fn spec_total_in(&self) -> u64 {
        self.total_in
    }

    pub closed spec fn spec_total_out(&self) -> u64 {
        self.total_out
    }

    /// Bytes already produced but not yet handed to the caller.
    pub closed spec fn spec_backlog(&self) -> int {
        self.outq.len() - self.outq_pos + self.writer@.len() / 8
    }

    /// Consumed bytes not yet cut into a meta-block.
    pub closed spec fn spec_pending(&self) -> int {
        self.hist.len() - self.pend_start
    }

    /// Bits written past the last byte boundary.
    pub closed spec fn spec_partial_bits(&self) -> int {
        self.writer@.len() as int % 8
    }

    /// Session invariant: cursor and window bounds, and the output budget —
    /// everything produced or still buffered stays within sixteen bytes
    /// per consumed byte plus a fixed session overhead.
    pub closed spec fn wf(&self) -> bool {
        &&& 10 <= self.lgwin <= 24
        &&& self.quality <= 11
        &&& self.mode <= 2
        &&& self.pend_start <= self.hist.len()
        &&& self.pend_start <= 0x0101_0000
        &&& self.hist@.len() <= self.pend_start + BLOCK_TARGET
        &&& self.outq_pos <= self.outq.len()
        &&& 1 <= self.last_dist <= 0x0fff_fff0
        &&& self.total_in <= 0x0100_0000_0000_0000
        &&& 8 * self.total_out + 8 * (self.outq.len() - self.outq_pos) + self.writer@.len() + (
        if self.writer@.len() % 8 == 0 {
            0int
        } else {
            16int
        }) + 128 * (self.hist.len() - self.pend_start) <= 128 * self.total_in + (
        if self.finished {
            64int
        } else {
            48int
        })
        &&& (self.started ==> self.params_frozen)
        &&& (self.started ==> 8 * self.total_out + 8 * (self.outq.len() - self.outq_pos)
            + self.writer@.len() >= 1)
        &&& (self.finished ==> 8 * self.total_out + 8 * (self.outq.len() - self.outq_pos)
            + self.writer@.len() >= 8)
        &&& (!self.started ==> self.total_in == 0 && self.total_out == 0 && self.writer@.len()
            == 0 && self.outq.len() == 0 && self.outq_pos == 0 && self.hist@.len() == 0
            && self.pend_start == 0 && !self.finished)
        &&& (self.finished ==> self.pend_start == self.hist.len() && self.writer@.len() % 8
            == 0)
    }

    /// A fresh session with the format defaults.
    pub fn new() -> (e: BrotliEncoder)
        ensures
            e.wf(),
            !e.spec_frozen(),
            !e.spec_finished(),
            e.spec_quality() == 9,
            e.spec_lgwin() == 22,
            e.spec_mode() == 0,
            e.spec_total_in() == 0,
            e.spec_total_out() == 0,
    {
        BrotliEncoder {
            quality: 9,
            lgwin: 22,
            mode: 0,
            params_frozen: false,
            started: false,
            finished: false,
            hist: Vec::new(),
            pend_start: 0,
            writer: BitWriter::new(),
            outq: Vec::new(),
            outq_pos: 0,
            total_in: 0,
            total_out: 0,
            last_dist: 4,
        }
    }

    /// Set one parameter. Rejected once the session is frozen or when the
    /// value is out of its documented range; the last accepted value wins.
    pub fn set_parameter(&mut self, p: BrotliEncoderParameter, value: u32) -> (r: Result<
        (),
        EncoderError,
    >)
        requires
            old(self).wf(),
        ensures
            final(self).wf(),
            old(self).spec_frozen() ==> r is Err && *final(self) == *old(self),
            !old(self).spec_frozen() ==> match p {
                BrotliEncoderParameter::Quality => {
                    if value <= 11 {
                        &&& r is Ok
                        &&& final(self).spec_quality() == value
                        &&& final(self).spec_lgwin() == old(self).spec_lgwin()
                        &&& final(self).spec_mode() == old(self).spec_mode()
                    } else {
                        r is Err && *final(self) == *old(self)
                    }
                },
                BrotliEncoderParameter::LgWin => {
                    if 10 <= value && value <= 24 {
                        &&& r is Ok
                        &&& final(self).spec_lgwin() == value
                        &&& final(self).spec_quality() == old(self).spec_quality()
                        &&& final(self).spec_mode() == old(self).spec_mode()
                    } else {
                        r is Err && *final(self) == *old(self)
                    }
                },
                BrotliEncoderParameter::Mode => {
                    if value <= 2 {
                        &&& r is Ok
                        &&& final(self).spec_mode() == value
                        &&& final(self).spec_quality() == old(self).spec_quality()
                        &&& final(self).spec_lgwin() == old(self).spec_lgwin()
                    } else {
                        r is Err && *final(self) == *old(self)
                    }
                },
            },
            !old(self).spec_frozen() ==> !final(self).spec_frozen(),
            final(self).spec_total_in() == old(self).spec_total_in(),
            final(self).spec_total_out() == old(self).spec_total_out(),
            final(self).spec_finished() == old(self).spec_finished(),
            final(self).spec_frozen() == old(self).spec_frozen(),
    {
        if self.params_frozen {
            return Err(EncoderError::ConfigurationError);
        }
        match p {
            BrotliEncoderParameter::Quality => {
                if value <= 11 {
                    self.quality = value;
                    Ok(())
                } else {
                    Err(EncoderError::ConfigurationError)
                }
            },
            BrotliEncoderParameter::LgWin => {
                if 10 <= value && value <= 24 {
                    self.lgwin = value;
                    Ok(())
                } else {
                    Err(EncoderError::ConfigurationError)
                }
            },
            BrotliEncoderParameter::Mode => {
                if value <= 2 {
                    self.mode = value;
                    Ok(())
                } else {
                    Err(EncoderError::ConfigurationError)
                }
            },
        }
    }

    pub fn quality(&self) -> (q: u32)
        ensures
            q == self.spec_quality(),
    {
        self.quality
    }

    pub fn window_bits(&self) -> (q: u32)
        ensures
            q == self.spec_lgwin(),
    {
        self.lgwin
    }

    pub fn mode(&self) -> (q: u32)
        ensures
            q == self.spec_mode(),
    {
        self.mode
    }

    pub fn total_in(&self) -> (n: u64)
        ensures
            n == self.spec_total_in(),
    {
        self.total_in
    }

    pub fn total_out(&self) -> (n: u64)
        ensures
            n == self.spec_total_out(),
    {
        self.total_out
    }

    /// True only once everything consumed has been emitted, the closing
    /// meta-block was written, and no produced byte awaits the caller.
    pub fn is_finished(&self) -> (r: bool)
        requires
            self.wf(),
        ensures
            r == (self.spec_finished() && self.spec_backlog() == 0),
    {
        self.finished && self.outq.len() - self.outq_pos == 0 && self.writer.bit_len() / 8 == 0
    }

    /// Serialise `hist[pend_start .. end]` as one meta-block: the token
    /// pipeline when its tables fit in fewer bits, else the uncompressed
    /// escape; then trim the window once everything pending is out.
    #[verifier::loop_isolation(false)]
    fn emit_range(&mut self, end: usize)
        requires
            10 <= old(self).lgwin <= 24,
            old(self).quality <= 11,
            old(self).mode <= 2,
            old(self).pend_start < end <= old(self).hist.len(),
            old(self).pend_start <= 0x0101_0000,
            old(self).hist@.len() <= old(self).pend_start + BLOCK_TARGET + 1,
            end - old(self).pend_start <= BLOCK_TARGET + 1,
            old(self).hist@.len() - end <= BLOCK_TARGET,
            end <= 0x0101_0000 || end == old(self).hist@.len(),
            old(self).outq_pos <= old(self).outq.len(),
            1 <= old(self).last_dist <= 0x0fff_fff0,
            old(self).total_in <= 0x0100_0000_0000_0000,
            old(self).started,
            old(self).params_frozen,
            8 * old(self).total_out + 8 * (old(self).outq.len() - old(self).outq_pos)
                + old(self).writer@.len() + (if old(self).writer@.len() % 8 == 0 {
                0int
            } else {
                16int
            }) + 128 * (old(self).hist.len() - old(self).pend_start) <= 128 * old(self).total_in
                + 48,
            !old(self).finished,
        ensures
            final(self).wf(),
            final(self).hist@.len() - final(self).pend_start == old(self).hist@.len() - end,
            end < old(self).hist@.len() ==> final(self).hist == old(self).hist
                && final(self).pend_start == end,
            end == old(self).hist@.len() ==> final(self).pend_start == final(self).hist.len(),
            final(self).quality == old(self).quality,
            final(self).lgwin == old(self).lgwin,
            final(self).mode == old(self).mode,
            final(self).params_frozen == old(self).params_frozen,
            final(self).started == old(self).started,
            final(self).finished == old(self).finished,
            final(self).total_in == old(self).total_in,
            final(self).total_out == old(self).total_out,
            final(self).outq == old(self).outq,
            final(self).outq_pos == old(self).outq_pos,
    {
        let lg: usize = self.lgwin as usize;
        proof {
            assert(1024 <= (1usize << lg) && (1usize << lg) <= 16777216) by (bit_vector)
                requires
                    10 <= lg && lg <= 24,
            ;
        }
        let maxdist_w: usize = (1usize << lg) - 16;
        let depth: usize = if self.quality <= 4 {
            1
        } else if self.quality <= 9 {
            2
        } else {
            4
        };
        let cmds = find_commands(&self.hist, self.pend_start, end, maxdist_w, depth);
        let mlen = end - self.pend_start;
        let mut cand = BitWriter::new();
        let (ok, newlast) = write_compressed_metablock(
            &mut cand,
            &self.hist,
            self.pend_start,
            end,
            &cmds,
            maxdist_w,
            self.last_dist,
        );
        let uncomp_bits: usize = UNCOMP_HEADER_BITS + 8 * mlen;
        if ok && cand.bit_len() <= uncomp_bits {
            self.writer.append(&cand);
            self.last_dist = newlast;
        } else {
            write_uncompressed_metablock(&mut self.writer, &self.hist, self.pend_start, end);
        }
        self.pend_start = end;
        // Trim the window so the session's memory stays bounded.
        if self.pend_start == self.hist.len() && self.hist.len() > 0x0101_0000 {
            let cut = self.hist.len() - WINDOW_KEEP;
            let mut kept: Vec<u8> = Vec::new();
            let mut i: usize = cut;
            while i < self.hist.len()
                invariant
                    cut <= i <= self.hist@.len(),
                    kept.len() == i - cut,
                decreases self.hist@.len() - i,
            {
                kept.push(self.hist[i]);
                i = i + 1;
            }
            self.hist = kept;
            self.pend_start = self.hist.len();
        }
    }

    /// Cut everything pending into meta-blocks. The block splitter
    /// proposes a boundary where the statistics change; the clusterer
    /// keeps it only if the two sides' histograms do not fold back into
    /// one shared table.
    #[verifier::loop_isolation(false)]
    fn emit_pending(&mut self)
        requires
            10 <= old(self).lgwin <= 24,
            old(self).quality <= 11,
            old(self).mode <= 2,
            old(self).pend_start < old(self).hist.len(),
            old(self).pend_start <= 0x0101_0000,
            old(self).hist@.len() <= old(self).pend_start + BLOCK_TARGET + 1,
            old(self).outq_pos <= old(self).outq.len(),
            1 <= old(self).last_dist <= 0x0fff_fff0,
            old(self).total_in <= 0x0100_0000_0000_0000,
            old(self).started,
            old(self).params_frozen,
            8 * old(self).total_out + 8 * (old(self).outq.len() - old(self).outq_pos)
                + old(self).writer@.len() + (if old(self).writer@.len() % 8 == 0 {
                0int
            } else {
                16int
            }) + 128 * (old(self).hist.len() - old(self).pend_start) <= 128 * old(self).total_in
                + 48,
            !old(self).finished,
        ensures
            final(self).wf(),
            final(self).pend_start == final(self).hist.len(),
            final(self).quality == old(self).quality,
            final(self).lgwin == old(self).lgwin,
            final(self).mode == old(self).mode,
            final(self).params_frozen == old(self).params_frozen,
            final(self).started == old(self).started,
            final(self).finished == old(self).finished,
            final(self).total_in == old(self).total_in,
            final(self).total_out == old(self).total_out,
            final(self).outq == old(self).outq,
            final(self).outq_pos == old(self).outq_pos,
    {
        let n = self.hist.len();
        if n <= 0x0101_0000 && n - self.pend_start >= 256 {
            let s = best_split(&self.hist, self.pend_start, n);
            if self.pend_start < s && s < n {
                let mut hs: Vec<Vec<u64>> = Vec::new();
                hs.push(byte_histogram(&self.hist, self.pend_start, s));
                hs.push(byte_histogram(&self.hist, s, n));
                let (_tables, map) = cluster_histograms(&hs, MAX_TABLES);
                if map[0] != map[1] {
                    self.emit_range(s);
                }
            }
        }
        if self.pend_start < self.hist.len() {
            let e = self.hist.len();
            self.emit_range(e);
        }
    }

    /// Hand out up to `limit` queued bytes.
    #[verifier::loop_isolation(false)]
    fn drain(&mut self, limit: usize) -> (out: Vec<u8>)
        requires
            old(self).wf(),
        ensures
            final(self).wf(),
            out.len() <= limit,
            out@ == old(self).outq@.subrange(
                old(self).outq_pos as int,
                old(self).outq_pos + out.len(),
            ),
            limit >= old(self).outq.len() - old(self).outq_pos ==> out.len() == old(
                self,
            ).outq.len() - old(self).outq_pos,
            final(self).total_out == old(self).total_out + out.len(),
            final(self).spec_backlog() == old(self).spec_backlog() - out.len(),
            final(self).quality == old(self).quality,
            final(self).lgwin == old(self).lgwin,
            final(self).mode == old(self).mode,
            final(self).params_frozen == old(self).params_frozen,
            final(self).started == old(self).started,
            final(self).finished == old(self).finished,
            final(self).total_in == old(self).total_in,
            final(self).hist == old(self).hist,
            final(self).pend_start == old(self).pend_start,
            final(self).writer@ == old(self).writer@,
    {
        let avail = self.outq.len() - self.outq_pos;
        let take = if limit < avail {
            limit
        } else {
            avail
        };
        let mut out: Vec<u8> = Vec::new();
        let mut i: usize = 0;
        while i < take
            invariant
                i <= take,
                take <= self.outq@.len() - self.outq_pos,
                self.outq_pos <= self.outq@.len(),
                out.len() == i,
                out@ == self.outq@.subrange(self.outq_pos as int, self.outq_pos + i),
            decreases take - i,
        {
            proof {
                assert(self.outq@.subrange(self.outq_pos as int, self.outq_pos + i + 1)
                    =~= self.outq@.subrange(self.outq_pos as int, self.outq_pos + i).push(
                    self.outq@[self.outq_pos + i],
                ));
            }
            out.push(self.outq[self.outq_pos + i]);
            i = i + 1;
        }
        self.outq_pos = self.outq_pos + take;
        proof {
            // The budget moves take bytes from the backlog to the total.
        }
        self.total_out = self.total_out + take as u64;
        out
    }

    /// Move whole bytes from the bit cursor into the output queue.
    #[verifier::loop_isolation(false)]
    fn collect_bytes(&mut self)
        requires
            old(self).wf(),
        ensures
            final(self).wf(),
            final(self).spec_backlog() == old(self).spec_backlog(),
            final(self).outq@ == old(self).outq@ + crate::bitwriter::packed(old(self).writer@),
            final(self).outq_pos == old(self).outq_pos,
            final(self).writer@.len() == old(self).writer@.len() % 8,
            final(self).quality == old(self).quality,
            final(self).lgwin == old(self).lgwin,
            final(self).mode == old(self).mode,
            final(self).params_frozen == old(self).params_frozen,
            final(self).started == old(self).started,
            final(self).finished == old(self).finished,
            final(self).total_in == old(self).total_in,
            final(self).total_out == old(self).total_out,
            final(self).hist == old(self).hist,
            final(self).pend_start == old(self).pend_start,
    {
        let bytes = self.writer.extract_bytes();
        let mut i: usize = 0;
        while i < bytes.len()
            invariant
                i <= bytes@.len(),
                bytes@ == crate::bitwriter::packed(old(self).writer@),
                self.outq@ == old(self).outq@ + bytes@.take(i as int),
                self.outq@.len() == old(self).outq@.len() + i,
                self.outq_pos == old(self).outq_pos,
                self.outq_pos <= self.outq@.len(),
                self.writer@ == old(self).writer@.skip(8 * (old(self).writer@.len() / 8) as int),
                self.quality == old(self).quality,
                self.lgwin == old(self).lgwin,
                self.mode == old(self).mode,
                self.params_frozen == old(self).params_frozen,
                self.started == old(self).started,
                self.finished == old(self).finished,
                self.total_in == old(self).total_in,
                self.total_out == old(self).total_out,
                self.hist == old(self).hist,
                self.pend_start == old(self).pend_start,
                self.last_dist == old(self).last_dist,
            decreases bytes@.len() - i,
        {
            proof {
                assert(old(self).outq@ + bytes@.take(i + 1) =~= (old(self).outq@
                    + bytes@.take(i as int)).push(bytes@[i as int]));
            }
            self.outq.push(bytes[i]);
            i = i + 1;
        }
        proof {
            assert(self.outq@ =~= old(self).outq@ + bytes@);
        }
    }

    /// Drive the session: consume what fits, emit meta-blocks as they fill
    /// or as the operation demands, and hand back up to `out_limit` bytes.
    /// The first call freezes the parameters. After the closing meta-block
    /// only draining calls are accepted: offering more input is the one
    /// no-progress misuse.
    #[verifier::loop_isolation(false)]
    #[verifier::rlimit(80)]
    pub fn compress_stream(
        &mut self,
        op: BrotliEncoderOperation,
        input: &Vec<u8>,
        out_limit: usize,
    ) -> (r: Result<StreamResult, EncoderError>)
        requires
            old(self).wf(),
            old(self).spec_total_in() + input.len() <= 0x0100_0000_0000_0000,
        ensures
            final(self).wf(),
            final(self).spec_quality() == old(self).spec_quality(),
            final(self).spec_lgwin() == old(self).spec_lgwin(),
            final(self).spec_mode() == old(self).spec_mode(),
            final(self).spec_total_out() >= old(self).spec_total_out(),
            match r {
                Ok(res) => {
                    &&& final(self).spec_frozen()
                    &&& res.consumed <= input.len()
                    &&& res.output.len() <= out_limit
                    &&& final(self).spec_total_in() == old(self).spec_total_in() + res.consumed
                    &&& final(self).spec_total_out() == old(self).spec_total_out()
                        + res.output.len()
                    &&& (!old(self).spec_finished() ==> res.consumed == input.len())
                    &&& (op is Finish ==> final(self).spec_finished())
                    &&& (op is Flush || op is Finish) ==> (final(self).spec_pending() == 0
                        && final(self).spec_partial_bits() == 0)
                    &&& (op is Finish ==> final(self).spec_total_out()
                        + final(self).spec_backlog() >= 1)
                    &&& res.is_finished == (final(self).spec_finished()
                        && final(self).spec_backlog() == 0)
                    &&& (!old(self).spec_frozen() && input.len() == 0 && op is Finish
                        && out_limit >= 2) ==> res.output@ == empty_session_bytes(
                        old(self).spec_lgwin() as int,
                    )
                },
                Err(e) => {
                    &&& e is NoProgress
                    &&& old(self).spec_finished()
                    &&& input.len() > 0
                    &&& *final(self) == *old(self)
                },
            },
    {
        if self.finished {
            if input.len() > 0 {
                return Err(EncoderError::NoProgress);
            }
            let out = self.drain(out_limit);
            let fin = self.is_finished();
            return Ok(StreamResult { consumed: 0, output: out, is_finished: fin });
        }
        let ghost was_fresh = !self.started;
        if !self.started {
            self.started = true;
            self.params_frozen = true;
            write_stream_header(&mut self.writer, self.lgwin);
            proof {
                assert(self.writer@ =~= crate::metablock::wbits_bits(self.lgwin as int));
            }
        }
        self.params_frozen = true;
        let ghost snap = *self;
        let mut ci: usize = 0;
        while ci < input.len()
            invariant
                ci <= input.len(),
                input.len() == 0 ==> *self == snap,
                self.wf(),
                !self.finished,
                self.started,
                self.params_frozen,
                self.total_in == old(self).total_in + ci,
                self.total_in + input.len() - ci <= 0x0100_0000_0000_0000,
                self.total_out == old(self).total_out,
                self.outq@.len() - self.outq_pos >= old(self).outq@.len() - old(self).outq_pos,
                self.quality == old(self).quality,
                self.lgwin == old(self).lgwin,
                self.mode == old(self).mode,
                self.total_out >= old(self).total_out,
            decreases input.len() - ci,
        {
            self.hist.push(input[ci]);
            self.total_in = self.total_in + 1;
            ci = ci + 1;
            if self.hist.len() - self.pend_start >= BLOCK_TARGET {
                self.emit_pending();
            }
        }
        match op {
            BrotliEncoderOperation::Process => {},
            BrotliEncoderOperation::Flush => {
                if self.pend_start < self.hist.len() {
                    self.emit_pending();
                }
                if self.writer.bit_len() % 8 != 0 {
                    write_alignment_metablock(&mut self.writer);
                }
            },
            BrotliEncoderOperation::Finish => {
                if self.pend_start < self.hist.len() {
                    self.emit_pending();
                }
                write_final_metablock(&mut self.writer);
                self.finished = true;
            },
        }
        let ghost special = was_fresh && input.len() == 0 && (op is Finish) && out_limit >= 2;
        let ghost goal = empty_session_bytes(snap.lgwin as int);
        proof {
            if special {
                let wb = crate::metablock::wbits_bits(snap.lgwin as int);
                let bits = wb + crate::bitwriter::bits_of(3, 2);
                assert(self.writer@ =~= bits + crate::bitwriter::zero_bits(
                    crate::metablock::pad_len(bits.len() as int) as nat,
                ));
                assert(crate::bitwriter::packed(self.writer@) == goal);
                lemma_empty_session_bytes_len(snap.lgwin as int);
            }
        }
        self.collect_bytes();
        proof {
            if special {
                assert(self.outq@ =~= goal);
            }
        }
        let out = self.drain(out_limit);
        proof {
            if special {
                assert(out@ =~= goal);
            }
        }
        let fin = self.is_finished();
        Ok(StreamResult { consumed: input.len(), output: out, is_finished: fin })
    }
}

} // verus!
