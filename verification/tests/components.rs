use brotli_enc::BitWriter;
use brotli_enc::histogram::{Histogram, literal_context, distance_context};

#[test]
fn bitwriter_packs_lsb_first() {
    let mut w = BitWriter::new();
    w.write_bits(0b0, 1);
    w.write_bits(0b11, 2);
    w.align_to_byte();
    let bytes = w.extract_bytes();
    assert_eq!(bytes, vec![0b0000_0110u8]);
    assert_eq!(w.bit_len(), 0);
}

#[test]
fn bitwriter_keeps_partial_byte() {
    let mut w = BitWriter::new();
    w.write_bits(0x5a, 8);
    w.write_bits(0b101, 3);
    let bytes = w.extract_bytes();
    assert_eq!(bytes, vec![0x5au8]);
    assert_eq!(w.bit_len(), 3);
    w.align_to_byte();
    let rest = w.extract_bytes();
    assert_eq!(rest, vec![0b0000_0101u8]);
}

#[test]
fn histogram_counts_sum_to_tokens() {
    let mut h = Histogram::new(256);
    for sym in [3usize, 3, 7, 250, 3] {
        h.add(sym);
    }
    assert_eq!(h.total, 5);
    assert_eq!(h.counts[3], 3);
    assert_eq!(h.counts[7], 1);
    assert_eq!(h.counts[250], 1);
    let sum: u64 = h.counts.iter().map(|c| *c as u64).sum();
    assert_eq!(sum, h.total);
}

#[test]
fn literal_context_is_low_six_bits() {
    assert_eq!(literal_context(0xff, 0), 0x3f);
    assert_eq!(literal_context(0x40, 9), 0);
    assert_eq!(literal_context(b'a', 0), b'a' & 0x3f);
}

#[test]
fn distance_context_buckets_short_copies() {
    assert_eq!(distance_context(2), 0);
    assert_eq!(distance_context(3), 1);
    assert_eq!(distance_context(4), 2);
    assert_eq!(distance_context(5), 3);
    assert_eq!(distance_context(1000), 3);
}

#[test]
fn cluster_cap_never_exceeded() {
    // Forty blocks drawn from four statistical shapes, capped at three
    // tables: the clusterer must come back with at most three.
    let mut hs: Vec<Vec<u64>> = Vec::new();
    for i in 0..40usize {
        let mut h = vec![0u64; 16];
        h[i % 4] = 100;
        h[(i % 4) + 8] = 50 + (i as u64 % 3);
        hs.push(h);
    }
    let (tables, map) = brotli_enc::splitcluster::cluster_histograms(&hs, 3);
    assert!(tables.len() >= 1 && tables.len() <= 3);
    assert_eq!(map.len(), 40);
    for m in &map {
        assert!(*m < tables.len());
    }
}

#[test]
fn cluster_folds_identical_blocks() {
    let a = vec![10u64, 0, 5, 0, 20, 0, 0, 1];
    let hs = vec![a.clone(), a.clone(), a];
    let (tables, map) = brotli_enc::splitcluster::cluster_histograms(&hs, 256);
    assert_eq!(tables.len(), 1);
    assert_eq!(map, vec![0, 0, 0]);
}

#[test]
fn splitter_finds_statistics_boundary() {
    // First half one letter, second half a spread of values: the cheapest
    // segmentation puts a boundary strictly inside.
    let mut data = vec![b'a'; 4096];
    for i in 0..4096u32 {
        data.push((i * 37 % 256) as u8);
    }
    let s = brotli_enc::splitcluster::best_split(&data, 0, data.len());
    assert!(s > 0 && s < data.len());
}

#[test]
fn splitter_keeps_uniform_data_whole() {
    let data = vec![b'z'; 4096];
    let s = brotli_enc::splitcluster::best_split(&data, 0, data.len());
    assert_eq!(s, data.len());
}
