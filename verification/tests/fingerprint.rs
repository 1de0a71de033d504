//! The content fingerprint: distance laws on concrete data, the scenarios
//! over identical and nearly identical files, and the branch-target passes.
use diar::content_hash::{bcj_arm_code, bcj_arm_thumb_code, ContentHash};

/// A fixed-seed linear congruential generator, so the data is the same on
/// every run.
struct Lcg(u64);

impl Lcg {
    fn next(&mut self) -> u64 {
        self.0 = self.0.wrapping_mul(6364136223846793005).wrapping_add(1442695040888963407);
        self.0
    }

    fn bytes(&mut self, n: usize) -> Vec<u8> {
        let mut out = Vec::with_capacity(n);
        while out.len() < n {
            let w = self.next();
            for b in w.to_le_bytes() {
                if out.len() < n {
                    out.push(b);
                }
            }
        }
        out
    }
}

#[test]
fn distance_to_itself_is_zero() {
    let mut rng = Lcg(7);
    let data = rng.bytes(50_000);
    let h = ContentHash::calculate(&data);
    assert_eq!(h.distance(&h), 0);
}

#[test]
fn distance_is_symmetric_and_bounded() {
    let mut rng = Lcg(11);
    let a = ContentHash::calculate(&rng.bytes(40_000));
    let b = ContentHash::calculate(&rng.bytes(40_000));
    assert_eq!(a.distance(&b), b.distance(&a));
    assert!(a.distance(&b) <= 4096);
}

#[test]
fn identical_concatenations_have_distance_zero() {
    // Two 128-KiB files, each the same concatenation of 8 distinct 16-KiB
    // blocks.
    let mut rng = Lcg(99);
    let mut file = Vec::new();
    for _ in 0..8 {
        file.extend(rng.bytes(16 * 1024));
    }
    let a = ContentHash::calculate(&file);
    let b = ContentHash::calculate(&file.clone());
    assert_eq!(a.distance(&b), 0);
}

#[test]
fn one_changed_block_moves_the_distance_by_at_most_four() {
    let mut rng = Lcg(123);
    let mut blocks: Vec<Vec<u8>> = Vec::new();
    for _ in 0..8 {
        blocks.push(rng.bytes(16 * 1024));
    }
    let file_a: Vec<u8> = blocks.concat();
    let mut other = blocks.clone();
    other[3] = rng.bytes(16 * 1024);
    let file_b: Vec<u8> = other.concat();
    let a = ContentHash::calculate(&file_a);
    let b = ContentHash::calculate(&file_b);
    assert!(a.distance(&b) <= 4, "distance {}", a.distance(&b));
}

#[test]
fn low_entropy_data_sets_fingerprint_bits() {
    // A compressible file must contribute chunks: the fingerprint differs
    // from the empty file's all-zero fingerprint.
    let mut text = Vec::new();
    for i in 0..4096u32 {
        text.extend_from_slice(format!("line {}: the quick brown fox\n", i).as_bytes());
    }
    let h = ContentHash::calculate(&text);
    let empty = ContentHash::calculate(&[]);
    assert!(h.distance(&empty) > 0);
}

#[test]
fn different_texts_have_different_fingerprints() {
    let a: Vec<u8> = b"alpha beta gamma delta ".repeat(1000);
    let b: Vec<u8> = b"omega psi chi phi upsilon ".repeat(800);
    let ha = ContentHash::calculate(&a);
    let hb = ContentHash::calculate(&b);
    assert!(ha.distance(&hb) > 0);
}

#[test]
fn arm_pass_zeroes_branch_immediates() {
    // One aligned word whose top byte marks a branch: low three bytes go to
    // zero; the next word is untouched.
    let mut buf = vec![0x11, 0x22, 0x33, 0xEB, 0x44, 0x55, 0x66, 0x77];
    bcj_arm_code(&mut buf);
    assert_eq!(buf, vec![0x00, 0x00, 0x00, 0xEB, 0x44, 0x55, 0x66, 0x77]);
}

#[test]
fn arm_pass_leaves_short_buffers_alone() {
    let mut buf = vec![0x11, 0x22, 0xEB];
    bcj_arm_code(&mut buf);
    assert_eq!(buf, vec![0x11, 0x22, 0xEB]);
}

#[test]
fn thumb_pass_zeroes_bl_displacements() {
    // A halfword pair matching the Thumb BL pattern is canonicalized.
    let mut buf = vec![0x12, 0xF3, 0x34, 0xFA, 0x56, 0x78, 0x9A, 0xBC];
    bcj_arm_thumb_code(&mut buf);
    assert_eq!(buf[0], 0x00);
    assert_eq!(buf[1], 0xF0);
    assert_eq!(buf[2], 0x00);
    assert_eq!(buf[3], 0xF8);
    assert_eq!(&buf[4..], &[0x56, 0x78, 0x9A, 0xBC]);
}

#[test]
fn thumb_pass_skips_non_matching_pairs() {
    let mut buf = vec![0x12, 0x34, 0x56, 0x78, 0x9A, 0xBC, 0xDE, 0x0F];
    let before = buf.clone();
    bcj_arm_thumb_code(&mut buf);
    assert_eq!(buf, before);
}
