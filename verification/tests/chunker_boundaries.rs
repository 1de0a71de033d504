//! The gear chunker: span well-formedness, mask sensitivity, and the
//! locality of boundaries under a one-byte insertion.
use diar::chunker::{chunk_spans, ChunkConfig};
use diar::content_hash::ContentHash;

struct Lcg(u64);

impl Lcg {
    fn next(&mut self) -> u64 {
        self.0 = self.0.wrapping_mul(6364136223846793005).wrapping_add(1442695040888963407);
        self.0
    }

    fn bytes(&mut self, n: usize) -> Vec<u8> {
        let mut out = Vec::with_capacity(n);
        while out.len() < n {
            out.extend_from_slice(&self.next().to_le_bytes());
        }
        out.truncate(n);
        out
    }
}

#[test]
fn spans_stay_in_bounds_and_in_order() {
    let cfg = ChunkConfig::new(0x8835, 16, 256);
    let mut rng = Lcg(3);
    let data = rng.bytes(10_000);
    let spans = chunk_spans(cfg, &data);
    assert!(!spans.is_empty());
    let mut cursor = 0usize;
    for &(off, len) in &spans {
        assert!(off >= cursor);
        assert!(16 <= len && len <= 256);
        assert!(off + len <= data.len());
        cursor = off + len;
    }
}

#[test]
fn an_all_matching_mask_cuts_after_every_byte() {
    // With a mask of zero the rolling hash always matches, so every chunk
    // is a single byte.
    let cfg = ChunkConfig::new(0, 1, 100);
    let data = vec![7u8; 50];
    let spans = chunk_spans(cfg, &data);
    assert_eq!(spans.len(), 50);
    for (i, &(off, len)) in spans.iter().enumerate() {
        assert_eq!(off, i);
        assert_eq!(len, 1);
    }
}

#[test]
fn an_unmatchable_mask_cuts_at_the_maximum() {
    // The gear hash's low bit after one shift is even only half the time;
    // an all-ones mask practically never matches, so chunks run to the
    // maximum length.
    let cfg = ChunkConfig::new(u64::MAX, 1, 64);
    let mut rng = Lcg(9);
    let data = rng.bytes(640);
    let spans = chunk_spans(cfg, &data);
    assert_eq!(spans.len(), 10);
    for (i, &(off, len)) in spans.iter().enumerate() {
        assert_eq!((off, len), (i * 64, 64));
    }
}

#[test]
fn one_inserted_byte_only_moves_boundaries_near_the_edit() {
    let cfg = ChunkConfig::new(0x3F, 16, 512);
    let mut rng = Lcg(77);
    let data = rng.bytes(20_000);
    let p = 10_000usize;
    let mut edited = data.clone();
    edited.insert(p, 0xAB);

    let ends_before: Vec<usize> =
        chunk_spans(cfg, &data).iter().map(|&(o, l)| o + l).collect();
    let ends_after: Vec<usize> =
        chunk_spans(cfg, &edited).iter().map(|&(o, l)| o + l).collect();

    // Boundaries well before the edit are untouched.
    let stable_before: Vec<usize> =
        ends_before.iter().copied().filter(|&e| e < p).collect();
    let still_before: Vec<usize> = ends_after.iter().copied().filter(|&e| e < p).collect();
    assert_eq!(stable_before, still_before);

    // Boundaries past the edit by more than two maximal chunks appear
    // again, shifted by exactly the one inserted byte.
    let window = p + 2 * 512;
    let far_before: Vec<usize> =
        ends_before.iter().copied().filter(|&e| e > window).collect();
    let far_after: Vec<usize> =
        ends_after.iter().copied().filter(|&e| e > window + 1).collect();
    let shifted: Vec<usize> = far_before.iter().map(|&e| e + 1).collect();
    assert_eq!(shifted, far_after);
}

#[test]
fn high_entropy_chunks_leave_no_fingerprint() {
    // A purely random file's chunks are all high-entropy and are skipped,
    // so its fingerprint stays all zero, like the empty file's.
    let mut rng = Lcg(1234);
    let noise = rng.bytes(64 * 1024);
    let h = ContentHash::calculate(&noise);
    let empty = ContentHash::calculate(&[]);
    assert_eq!(h.distance(&empty), 0);
}
