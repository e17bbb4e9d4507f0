//! A streaming, lossless byte compressor emitting the brotli bit format.
//!
//! The crate is organised as a pipeline: a match finder turns input bytes
//! into LZ77-style commands, histograms collect symbol statistics, an
//! entropy coder builds canonical length-limited prefix codes, and a bit
//! writer serialises meta-blocks least-significant-bit first. A resumable
//! stream driver orchestrates one session across repeated calls.

pub mod bitwriter;
pub mod command;
pub mod encode;
pub mod histogram;
pub mod huffman;
pub mod matchfind;
pub mod metablock;
pub mod prefixcode;
pub mod splitcluster;

pub use bitwriter::BitWriter;

use vstd::prelude::*;
use crate::encode::{BrotliEncoder, BrotliEncoderOperation, BrotliEncoderParameter, EncoderError};

verus! {

/// Compress a whole buffer in one session with the given search effort
/// (`quality`, zero to eleven) and sliding-window size (`lgwin`, ten to
/// twenty-four). Exactly the inputs within those ranges are accepted, and
/// the produced stream never exceeds sixteen bytes per input byte plus a
/// fixed session overhead.
#[allow(non_snake_case)]
pub fn BrotliCompress(input: &Vec<u8>, quality: u32, lgwin: u32) -> (r: Result<
    Vec<u8>,
    EncoderError,
>)
    requires
        input.len() <= 0x0100_0000_0000_0000,
    ensures
        (r is Ok) <==> (quality <= 11 && 10 <= lgwin && lgwin <= 24),
        r matches Ok(out) ==> out.len() <= 16 * input.len() + 8,
        (input.len() == 0 && quality <= 11 && 10 <= lgwin && lgwin <= 24) ==> (r matches Ok(out)
            && out@ == crate::encode::empty_session_bytes(lgwin as int) && 1 <= out.len() <= 2),
{
    let mut e = BrotliEncoder::new();
    let rq = e.set_parameter(BrotliEncoderParameter::Quality, quality);
    if rq.is_err() {
        return Err(EncoderError::ConfigurationError);
    }
    let rw = e.set_parameter(BrotliEncoderParameter::LgWin, lgwin);
    if rw.is_err() {
        return Err(EncoderError::ConfigurationError);
    }
    match e.compress_stream(BrotliEncoderOperation::Finish, input, usize::MAX) {
        Ok(res) => {
            proof {
                crate::encode::lemma_output_bounded(&e);
                if input.len() == 0 {
                    crate::encode::lemma_empty_session_bytes_len(lgwin as int);
                }
            }
            Ok(res.output)
        },
        Err(_) => Err(EncoderError::NoProgress),
    }
}

} // verus!
