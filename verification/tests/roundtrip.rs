use brotli_enc::BrotliCompress;
use std::io::Write;
use brotli_enc::encode::{BrotliEncoder, BrotliEncoderOperation, BrotliEncoderParameter};

fn decode(data: &[u8]) -> Vec<u8> {
    let mut out: Vec<u8> = Vec::new();
    let mut reader = std::io::Cursor::new(data.to_vec());
    brotli_decompressor::BrotliDecompress(&mut reader, &mut out).expect("stream must decode");
    out
}

fn roundtrip(input: &[u8], quality: u32, lgwin: u32) -> Vec<u8> {
    let compressed = BrotliCompress(&input.to_vec(), quality, lgwin).expect("compress");
    assert_eq!(decode(&compressed), input.to_vec());
    compressed
}

#[test]
fn empty_input_minimal_stream() {
    let out = BrotliCompress(&Vec::new(), 9, 16).expect("compress");
    assert_eq!(out, vec![6u8]);
    assert_eq!(decode(&out), Vec::<u8>::new());
}

#[test]
fn empty_input_other_windows() {
    for lgwin in 10..=24u32 {
        let out = BrotliCompress(&Vec::new(), 5, lgwin).expect("compress");
        assert!(out.len() <= 2);
        assert_eq!(decode(&out), Vec::<u8>::new());
    }
}

#[test]
fn roundtrip_short_text() {
    roundtrip(b"hello hello hello, world!", 9, 22);
}

#[test]
fn roundtrip_single_byte() {
    roundtrip(b"x", 9, 22);
}

#[test]
fn roundtrip_text_all_qualities() {
    let text: Vec<u8> = b"The quick brown fox jumps over the lazy dog. \
                          The quick brown fox jumps over the lazy dog again."
        .to_vec();
    for q in 0..=11u32 {
        roundtrip(&text, q, 22);
    }
}

#[test]
fn roundtrip_all_windows() {
    let data: Vec<u8> = (0..2000u32).map(|i| (i * 7 + i / 13) as u8).collect();
    for lgwin in 10..=24u32 {
        roundtrip(&data, 9, lgwin);
    }
}

#[test]
fn roundtrip_high_entropy() {
    // A deterministic pseudo-random buffer defeats matching, forcing the
    // uncompressed escape path.
    let mut state: u64 = 0x2545F4914F6CDD1D;
    let data: Vec<u8> = (0..5000)
        .map(|_| {
            state = state.wrapping_mul(6364136223846793005).wrapping_add(1442695040888963407);
            (state >> 33) as u8
        })
        .collect();
    let out = roundtrip(&data, 9, 22);
    assert!(out.len() <= data.len() + 100);
}

#[test]
fn roundtrip_all_byte_values() {
    let data: Vec<u8> = (0..=255u8).collect();
    roundtrip(&data, 9, 22);
}

#[test]
fn roundtrip_long_zero_run() {
    let data = vec![0u8; 100_000];
    let out = roundtrip(&data, 9, 22);
    assert!(out.len() < 200);
}

#[test]
fn ab_repeat_collapses_to_copy() {
    // Ten thousand repetitions of a two-byte pattern should shrink to a
    // handful of bytes: one long copy command plus the fixed headers.
    let mut data: Vec<u8> = Vec::new();
    for _ in 0..10_000 {
        data.extend_from_slice(b"ab");
    }
    let out = roundtrip(&data, 11, 22);
    assert!(out.len() < 48, "expected a handful of bytes, got {}", out.len());
}

#[test]
fn roundtrip_spanning_multiple_metablocks() {
    // Longer than one pending block, so several meta-blocks are cut.
    let data: Vec<u8> = (0..200_000u32)
        .map(|i| ((i / 300) % 251) as u8)
        .collect();
    roundtrip(&data, 9, 22);
}

#[test]
fn chunked_with_flush_decodes_the_same() {
    let data: Vec<u8> = (0..400u32).map(|i| ((i * 31) % 253) as u8).collect();
    let whole = BrotliCompress(&data, 9, 22).expect("compress");

    let mut e = BrotliEncoder::new();
    e.set_parameter(BrotliEncoderParameter::Quality, 9).unwrap();
    e.set_parameter(BrotliEncoderParameter::LgWin, 22).unwrap();
    let mut chunked: Vec<u8> = Vec::new();
    for b in &data {
        let res = e
            .compress_stream(BrotliEncoderOperation::Flush, &vec![*b], usize::MAX)
            .expect("flush");
        chunked.extend_from_slice(&res.output);
    }
    let res = e
        .compress_stream(BrotliEncoderOperation::Finish, &Vec::new(), usize::MAX)
        .expect("finish");
    chunked.extend_from_slice(&res.output);
    assert!(e.is_finished());

    assert_eq!(decode(&whole), data);
    assert_eq!(decode(&chunked), data);
}

#[test]
fn flush_makes_prefix_decodable() {
    let mut e = BrotliEncoder::new();
    let first: Vec<u8> = b"first part ".to_vec();
    let res = e
        .compress_stream(BrotliEncoderOperation::Flush, &first, usize::MAX)
        .expect("flush");
    // After a flush the bytes so far decode to everything consumed so far.
    let mut decoder = brotli_decompressor::DecompressorWriter::new(Vec::new(), 4096);
    decoder.write_all(&res.output).expect("feed");
    decoder.flush().expect("flush decoder");
    let seen = decoder.get_ref().clone();
    assert_eq!(seen, first);
}

#[test]
fn totals_monotonic_across_calls() {
    let mut e = BrotliEncoder::new();
    let mut last_out: u64 = 0;
    for round in 0..50u32 {
        let chunk: Vec<u8> = (0..137u32).map(|i| ((i + round) % 256) as u8).collect();
        e.compress_stream(BrotliEncoderOperation::Process, &chunk, usize::MAX)
            .expect("process");
        assert!(e.total_out() >= last_out);
        last_out = e.total_out();
    }
    e.compress_stream(BrotliEncoderOperation::Finish, &Vec::new(), usize::MAX)
        .expect("finish");
    assert!(e.total_out() >= last_out);
    assert!(e.total_out() <= 16 * e.total_in() + 8);
}

#[test]
fn output_respects_limit_and_resumes() {
    let data: Vec<u8> = (0..3000u32).map(|i| (i % 256) as u8).collect();
    let mut e = BrotliEncoder::new();
    let res = e
        .compress_stream(BrotliEncoderOperation::Finish, &data, 4)
        .expect("finish");
    assert!(res.output.len() <= 4);
    assert!(!res.is_finished);
    let mut all = res.output;
    loop {
        let more = e
            .compress_stream(BrotliEncoderOperation::Finish, &Vec::new(), 7)
            .expect("drain");
        all.extend_from_slice(&more.output);
        if more.is_finished {
            break;
        }
    }
    assert!(e.is_finished());
    assert_eq!(decode(&all), data);
}

#[test]
fn parameters_freeze_at_first_compress() {
    let mut e = BrotliEncoder::new();
    e.set_parameter(BrotliEncoderParameter::Quality, 3).unwrap();
    e.set_parameter(BrotliEncoderParameter::Quality, 7).unwrap();
    assert_eq!(e.quality(), 7); // the last value before freezing wins
    e.compress_stream(BrotliEncoderOperation::Process, &b"abc".to_vec(), usize::MAX)
        .unwrap();
    assert!(e.set_parameter(BrotliEncoderParameter::Quality, 1).is_err());
    assert_eq!(e.quality(), 7);
    assert!(e.set_parameter(BrotliEncoderParameter::LgWin, 11).is_err());
    e.compress_stream(BrotliEncoderOperation::Finish, &Vec::new(), usize::MAX)
        .unwrap();
}

#[test]
fn configuration_errors() {
    assert!(BrotliCompress(&b"x".to_vec(), 12, 22).is_err());
    assert!(BrotliCompress(&b"x".to_vec(), 9, 9).is_err());
    assert!(BrotliCompress(&b"x".to_vec(), 9, 25).is_err());
    let mut e = BrotliEncoder::new();
    assert!(e.set_parameter(BrotliEncoderParameter::Mode, 3).is_err());
    assert!(e.set_parameter(BrotliEncoderParameter::Mode, 2).is_ok());
}

#[test]
fn no_progress_after_finish() {
    let mut e = BrotliEncoder::new();
    e.compress_stream(BrotliEncoderOperation::Finish, &b"data".to_vec(), usize::MAX)
        .unwrap();
    assert!(e.compress_stream(BrotliEncoderOperation::Process, &b"more".to_vec(), usize::MAX)
        .is_err());
    // Draining with no input stays fine.
    assert!(e.compress_stream(BrotliEncoderOperation::Finish, &Vec::new(), usize::MAX)
        .is_ok());
}

#[test]
fn roundtrip_two_statistical_regimes() {
    // Text-like bytes followed by a different alphabet: the splitter cuts
    // a boundary and two compressed meta-blocks are emitted.
    let mut data: Vec<u8> = Vec::new();
    for i in 0..6000u32 {
        data.push(b'a' + (i % 7) as u8);
    }
    for i in 0..6000u32 {
        data.push(200u8.wrapping_add((i % 41) as u8));
    }
    roundtrip(&data, 9, 22);
}

#[test]
fn roundtrip_skewed_literals_compresses() {
    // Aperiodic bytes with a skewed distribution over more than four
    // symbols: the meta-block must travel through the full code-table
    // description and still come out smaller than the input.
    let mut x: u32 = 12345;
    let mut data: Vec<u8> = Vec::new();
    for _ in 0..4000 {
        x = x.wrapping_mul(1103515245).wrapping_add(12345);
        let r = (x >> 16) & 0xff;
        let b = if r < 128 {
            b'e'
        } else if r < 192 {
            b't'
        } else if r < 224 {
            b'a'
        } else {
            b'a' + (r % 16) as u8
        };
        data.push(b);
    }
    let out = roundtrip(&data, 9, 22);
    assert!(out.len() < data.len());
}
