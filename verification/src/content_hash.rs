//! The content fingerprint: a 4096-bit locality-sensitive similarity hash.
//!
//! A buffer is first normalized by two branch-target passes, then split by a
//! content-defined chunker; every low-entropy chunk flips one bit of a
//! 64-word accumulator, chosen by the chunk's hash. Re-occurring chunks
//! cancel, so the fingerprint captures odd-count set membership, and two
//! files' distance is the popcount of the XOR of their fingerprints.
use crate::hashes::xxh3_64;
use vstd::prelude::*;

verus! {

/// The number of 64-bit words in a fingerprint.
pub const HASH_COUNT: usize = 64;

/// The chunker's minimum chunk size.
pub const FINGERPRINT_MIN_CHUNK: u32 = 1024;

/// The chunker's average chunk size.
pub const FINGERPRINT_AVG_CHUNK: u32 = 16384;

/// The chunker's maximum chunk size.
pub const FINGERPRINT_MAX_CHUNK: u32 = 32768;

/// One byte of the ARM branch-target pass: the low three bytes of every
/// aligned word whose top byte is `0xEB` are zeroed.
pub open spec fn bcj_arm_byte(s: Seq<u8>, j: int) -> u8 {
    let w = 4 * (j / 4);
    if j % 4 != 3 && w + 3 < s.len() && s[w + 3] == 0xEB {
        0
    } else {
        s[j]
    }
}

/// The ARM branch-target pass over a whole buffer.
pub open spec fn bcj_arm(s: Seq<u8>) -> Seq<u8> {
    Seq::new(s.len(), |j: int| bcj_arm_byte(s, j))
}

/// True when the halfword pair at `i` matches the Thumb BL pattern.
pub open spec fn thumb_match(s: Seq<u8>, i: int) -> bool {
    (s[i + 3] & 0xF8) == 0xF8 && (s[i + 1] & 0xF8) == 0xF0
}

/// The ARM-Thumb branch-target pass from position `i` on: every halfword
/// pair matching the Thumb BL pattern has its embedded displacement zeroed,
/// and the pass steps over the whole rewritten word.
pub open spec fn bcj_thumb(s: Seq<u8>, i: nat) -> Seq<u8>
    decreases s.len() - i
        when i <= s.len()
{
    if s.len() < 4 || i > s.len() - 4 {
        s
    } else if thumb_match(s, i as int) {
        bcj_thumb(
            s.update(i as int, 0).update(i as int + 1, 0xF0).update(i as int + 2, 0).update(i as int + 3, 0xF8),
            i + 4,
        )
    } else {
        bcj_thumb(s, i + 2)
    }
}

/// Zeroes the low 24 bits of every 4-byte aligned word whose top byte is
/// `0xEB`, neutralizing ARM branch-target immediates.
pub fn bcj_arm_code(buf: &mut Vec<u8>)
    ensures
        final(buf)@ == bcj_arm(old(buf)@),
{
    let len = buf.len();
    if len < 4 {
        proof {
            assert(final(buf)@ =~= bcj_arm(old(buf)@));
        }
        return;
    }
    let end = len - 4;
    let mut i: usize = 0;
    while i <= end
        invariant
            4 <= len == buf@.len() == old(buf)@.len(),
            end == len - 4,
            i % 4 == 0,
            i <= len,
            forall|j: int| 0 <= j < i ==> buf@[j] == bcj_arm_byte(old(buf)@, j),
            forall|j: int| i <= j < len ==> buf@[j] == old(buf)@[j],
        decreases end + 4 - i,
    {
        let b3 = buf[i + 3];
        if b3 == 0xEB {
            buf.set(i, 0);
            buf.set(i + 1, 0);
            buf.set(i + 2, 0);
        }
        proof {
            assert forall|j: int| i <= j < i + 4 implies buf@[j] == bcj_arm_byte(
                old(buf)@,
                j,
            ) by {
                assert(4 * (j / 4) == i);
            }
        }
        i = i + 4;
    }
    proof {
        assert forall|j: int| 0 <= j < len implies buf@[j] == bcj_arm_byte(old(buf)@, j) by {
            if j >= i {
                assert(4 * (j / 4) > end);
            }
        }
        assert(buf@ =~= bcj_arm(old(buf)@));
    }
}

/// Zeroes the 22-bit displacement of every 4-byte aligned halfword pair
/// matching the Thumb BL pattern, neutralizing ARM-Thumb branch targets.
pub fn bcj_arm_thumb_code(buf: &mut Vec<u8>)
    ensures
        final(buf)@ == bcj_thumb(old(buf)@, 0),
{
    let len = buf.len();
    if len < 4 {
        return;
    }
    let end = len - 4;
    let mut i: usize = 0;
    while i <= end
        invariant
            4 <= len == buf@.len() == old(buf)@.len(),
            end == len - 4,
            i <= len,
            bcj_thumb(old(buf)@, 0) == bcj_thumb(buf@, i as nat),
        decreases end + 4 - i,
    {
        let b1 = buf[i + 1];
        let b3 = buf[i + 3];
        if (b3 & 0xF8) == 0xF8 && (b1 & 0xF8) == 0xF0 {
            let ghost before = buf@;
            buf.set(i, 0);
            buf.set(i + 1, 0xF0);
            buf.set(i + 2, 0);
            buf.set(i + 3, 0xF8);
            proof {
                assert(buf@ =~= before.update(i as int, 0u8).update(i + 1, 0xF0u8).update(
                    i + 2,
                    0u8,
                ).update(i + 3, 0xF8u8));
            }
            i = i + 4;
        } else {
            i = i + 2;
        }
    }
}

/// The IEEE-754 bit pattern of a block's Shannon entropy in bits per byte,
/// a function of the bytes alone.
pub uninterp spec fn entropy_bits(block: Seq<u8>) -> u32;

/// Relies on entropy::shannon_entropy: the block's Shannon entropy, a pure,
/// non-negative, finite function of the bytes, handed on unjudged as its
/// IEEE-754 bit pattern.
#[verifier::external_body]
fn shannon_entropy_bits(block: &[u8]) -> (r: u32)
    ensures
        r == entropy_bits(block@),
{
    entropy::shannon_entropy(block).to_bits()
}

/// Whether a block's entropy exceeds seven bits per byte. The bit patterns
/// of non-negative finite IEEE-754 values order numerically, so the test
/// compares against the bit pattern of seven.
pub open spec fn is_high_entropy(block: Seq<u8>) -> bool {
    entropy_bits(block) > 0x40E0_0000
}

/// Reports whether a block's entropy exceeds seven bits per byte.
fn high_entropy(block: &[u8]) -> (r: bool)
    ensures
        r == is_high_entropy(block@),
{
    shannon_entropy_bits(block) > 0x40E0_0000
}

/// The spans `(offset, length)` that the content-defined chunker cuts a
/// buffer into, a function of the bytes and the size bounds alone.
pub uninterp spec fn cdc_chunk_spans(data: Seq<u8>, min: u32, avg: u32, max: u32) -> Seq<
    (usize, usize),
>;

/// True when the spans tile the whole of a buffer of length `len`: they
/// start at 0, follow on from each other, stay in bounds, and each is
/// between 1 and `max` bytes.
pub open spec fn spans_tile(spans: Seq<(usize, usize)>, len: nat, max: u32) -> bool {
    &&& forall|i: int|
        0 <= i < spans.len() ==> 1 <= (#[trigger] spans[i]).1 <= max && spans[i].0 + spans[i].1
            <= len
    &&& forall|i: int|
        0 < i < spans.len() ==> (#[trigger] spans[i]).0 == spans[i - 1].0 + spans[i - 1].1
    &&& (spans.len() == 0 <==> len == 0)
    &&& (spans.len() > 0 ==> spans[0].0 == 0 && spans.last().0 + spans.last().1 == len)
}

/// Relies on fastcdc::v2020::FastCDC: the chunker walks the buffer from the
/// front, each cut point lands after at least one and at most `max` bytes
/// of the remainder, and iteration stops only once the buffer is consumed,
/// so the chunks tile the buffer. The size bounds must lie in the ranges
/// the chunker accepts.
#[verifier::external_body]
fn cdc_chunks(data: &[u8], min: u32, avg: u32, max: u32) -> (r: Vec<(usize, usize)>)
    requires
        64 <= min <= 1048576,
        256 <= avg <= 4194304,
        1024 <= max <= 16777216,
    ensures
        r@ == cdc_chunk_spans(data@, min, avg, max),
        spans_tile(r@, data@.len(), max),
{
    fastcdc::v2020::FastCDC::new(data, min, avg, max).map(|c| (c.offset, c.length)).collect()
}

/// The number of set bits of a number.
pub open spec fn popcount(x: nat) -> nat
    decreases x,
{
    if x == 0 {
        0
    } else {
        x % 2 + popcount(x / 2)
    }
}

/// `2^k`.
pub open spec fn pow2k(k: nat) -> nat
    decreases k,
{
    if k == 0 {
        1
    } else {
        2 * pow2k((k - 1) as nat)
    }
}

/// A number below `2^k` has at most `k` set bits.
pub proof fn lemma_popcount_bound(x: nat, k: nat)
    requires
        x < pow2k(k),
    ensures
        popcount(x) <= k,
    decreases k,
{
    if x > 0 {
        assert(k >= 1);
        assert(pow2k(k) == 2 * pow2k((k - 1) as nat));
        lemma_popcount_bound(x / 2, (k - 1) as nat);
    }
}

/// Every 64-bit word has at most 64 set bits.
pub proof fn lemma_popcount_u64(x: u64)
    ensures
        popcount(x as nat) <= 64,
{
    assert(pow2k(64) == 0x1_0000_0000_0000_0000) by {
        reveal_with_fuel(pow2k, 65);
    }
    lemma_popcount_bound(x as nat, 64);
}

/// Counts the set bits of a word.
pub fn popcount64(x: u64) -> (r: u32)
    ensures
        r as nat == popcount(x as nat),
        r <= 64,
{
    proof {
        lemma_popcount_u64(x);
    }
    let mut v: u64 = x;
    let mut r: u32 = 0;
    while v != 0
        invariant
            r as nat + popcount(v as nat) == popcount(x as nat),
            popcount(x as nat) <= 64,
        decreases v,
    {
        r = r + (v % 2) as u32;
        v = v / 2;
    }
    r
}

/// The sum, over the first `n` words, of the popcount of the XOR.
pub open spec fn xor_popcount_sum(a: Seq<u64>, b: Seq<u64>, n: int) -> nat
    decreases n,
{
    if n <= 0 {
        0
    } else {
        xor_popcount_sum(a, b, n - 1) + popcount((a[n - 1] ^ b[n - 1]) as nat)
    }
}

/// The distance of two fingerprints: the popcount of the XOR of their words.
pub open spec fn spec_distance(a: Seq<u64>, b: Seq<u64>) -> nat {
    xor_popcount_sum(a, b, HASH_COUNT as int)
}

/// Distance is symmetric over the first `n` words.
proof fn lemma_xor_sum_symmetric(a: Seq<u64>, b: Seq<u64>, n: int)
    ensures
        xor_popcount_sum(a, b, n) == xor_popcount_sum(b, a, n),
    decreases n,
{
    if n > 0 {
        lemma_xor_sum_symmetric(a, b, n - 1);
        let x = a[n - 1];
        let y = b[n - 1];
        assert(x ^ y == y ^ x) by (bit_vector);
    }
}

/// A fingerprint's distance to itself is zero over the first `n` words.
proof fn lemma_xor_sum_self(a: Seq<u64>, n: int)
    ensures
        xor_popcount_sum(a, a, n) == 0,
    decreases n,
{
    if n > 0 {
        lemma_xor_sum_self(a, n - 1);
        let x = a[n - 1];
        assert(x ^ x == 0) by (bit_vector);
    }
}

/// The sum over the first `n` words is at most `64 * n`.
proof fn lemma_xor_sum_bound(a: Seq<u64>, b: Seq<u64>, n: int)
    ensures
        xor_popcount_sum(a, b, n) <= if n <= 0 {
            0int
        } else {
            64 * n
        },
    decreases n,
{
    if n > 0 {
        lemma_xor_sum_bound(a, b, n - 1);
        lemma_popcount_u64(a[n - 1] ^ b[n - 1]);
    }
}

/// Distance is symmetric.
pub proof fn lemma_distance_symmetric(a: Seq<u64>, b: Seq<u64>)
    ensures
        spec_distance(a, b) == spec_distance(b, a),
{
    lemma_xor_sum_symmetric(a, b, HASH_COUNT as int);
}

/// The distance of a fingerprint to itself is zero.
pub proof fn lemma_distance_self_zero(a: Seq<u64>)
    ensures
        spec_distance(a, a) == 0,
{
    lemma_xor_sum_self(a, HASH_COUNT as int);
}

/// No two fingerprints are further apart than the bit width, 4096.
pub proof fn lemma_distance_bound(a: Seq<u64>, b: Seq<u64>)
    ensures
        spec_distance(a, b) <= 4096,
{
    lemma_xor_sum_bound(a, b, HASH_COUNT as int);
}

/// A 4096-bit similarity fingerprint: 64 words of 64 bits.
pub struct ContentHash {
    /// The accumulator words.
    pub data: Vec<u64>,
}

/// One chunk's effect on the accumulator words: a high-entropy chunk is
/// skipped; any other flips the bit chosen by its hash.
pub open spec fn apply_chunk(words: Seq<u64>, block: Seq<u8>) -> Seq<u64> {
    if is_high_entropy(block) {
        words
    } else {
        let h = xxh3_64(0, block);
        let idx = (h % 64) as int;
        words.update(idx, words[idx] ^ (1u64 << ((h >> 32) % 64)))
    }
}

/// The accumulator words after the chunks at the given spans, in order.
pub open spec fn words_after(words: Seq<u64>, data: Seq<u8>, spans: Seq<(usize, usize)>) -> Seq<
    u64,
>
    decreases spans.len(),
{
    if spans.len() == 0 {
        words
    } else {
        apply_chunk(
            words_after(words, data, spans.drop_last()),
            data.subrange(
                spans.last().0 as int,
                spans.last().0 as int + spans.last().1 as int,
            ),
        )
    }
}

/// The all-zero accumulator.
pub open spec fn zero_words() -> Seq<u64> {
    Seq::new(HASH_COUNT as nat, |i: int| 0u64)
}

/// The fingerprint words of a buffer: both branch-target passes, then every
/// chunk of the content-defined chunking folded into the accumulator.
pub open spec fn fingerprint_words(data: Seq<u8>) -> Seq<u64> {
    let filtered = bcj_thumb(bcj_arm(data), 0);
    words_after(
        zero_words(),
        filtered,
        cdc_chunk_spans(
            filtered,
            FINGERPRINT_MIN_CHUNK,
            FINGERPRINT_AVG_CHUNK,
            FINGERPRINT_MAX_CHUNK,
        ),
    )
}

impl ContentHash {
    /// A fingerprint always holds exactly 64 words.
    pub open spec fn wf(self) -> bool {
        self.data@.len() == HASH_COUNT
    }

    /// Folds the chunks at the given spans into a fresh accumulator. The
    /// spans must lie inside the buffer.
    pub fn hash_from_chunks(data: &[u8], spans: &Vec<(usize, usize)>) -> (r: ContentHash)
        requires
            forall|i: int|
                0 <= i < spans@.len() ==> (#[trigger] spans@[i]).0 + spans@[i].1 <= data@.len(),
        ensures
            r.wf(),
            r.data@ == words_after(zero_words(), data@, spans@),
    {
        let mut words: Vec<u64> = Vec::new();
        let mut k: usize = 0;
        while k < HASH_COUNT
            invariant
                words@.len() == k <= HASH_COUNT,
                forall|i: int| 0 <= i < k ==> words@[i] == 0u64,
            decreases HASH_COUNT - k,
        {
            words.push(0);
            k = k + 1;
        }
        proof {
            assert(words@ =~= zero_words());
        }
        let mut i: usize = 0;
        while i < spans.len()
            invariant
                i <= spans@.len(),
                forall|t: int|
                    0 <= t < spans@.len() ==> (#[trigger] spans@[t]).0 + spans@[t].1
                        <= data@.len(),
                words@.len() == HASH_COUNT,
                words@ == words_after(zero_words(), data@, spans@.take(i as int)),
            decreases spans@.len() - i,
        {
            let dlen: usize = data.len();
            let (off, len) = spans[i];
            proof {
                assert((off, len) == spans@[i as int]);
                assert(spans@[i as int].0 + spans@[i as int].1 <= dlen);
            }
            let block: &[u8] = vstd::slice::slice_subrange(data, off, off + len);
            if !high_entropy(block) {
                let h: u64 = crate::hashes::xxh3(block, 0);
                let idx: usize = (h % 64) as usize;
                let cur: u64 = words[idx];
                words.set(idx, cur ^ (1u64 << ((h >> 32) % 64)));
            }
            proof {
                assert(spans@.take(i + 1).drop_last() =~= spans@.take(i as int));
                assert(spans@.take(i + 1).last() == spans@[i as int]);
                assert(words@ =~= words_after(zero_words(), data@, spans@.take(i + 1)));
            }
            i = i + 1;
        }
        proof {
            assert(spans@.take(spans@.len() as int) =~= spans@);
        }
        ContentHash { data: words }
    }

    /// Computes the fingerprint of a buffer: the two branch-target passes,
    /// then the content-defined chunking folded into the accumulator.
    pub fn calculate(data: &[u8]) -> (r: ContentHash)
        ensures
            r.wf(),
            r.data@ == fingerprint_words(data@),
    {
        let mut work: Vec<u8> = vstd::slice::slice_to_vec(data);
        bcj_arm_code(&mut work);
        bcj_arm_thumb_code(&mut work);
        let spans = cdc_chunks(
            work.as_slice(),
            FINGERPRINT_MIN_CHUNK,
            FINGERPRINT_AVG_CHUNK,
            FINGERPRINT_MAX_CHUNK,
        );
        ContentHash::hash_from_chunks(work.as_slice(), &spans)
    }

    /// The distance of two fingerprints: the popcount of the XOR of the two
    /// bit arrays. It is symmetric, zero on equal fingerprints, and at most
    /// 4096.
    pub fn distance(&self, other: &ContentHash) -> (r: u32)
        requires
            self.wf(),
            other.wf(),
        ensures
            r as nat == spec_distance(self.data@, other.data@),
            r <= 4096,
    {
        proof {
            lemma_distance_bound(self.data@, other.data@);
        }
        let mut differences: u32 = 0;
        let mut i: usize = 0;
        while i < HASH_COUNT
            invariant
                i <= HASH_COUNT,
                self.wf(),
                other.wf(),
                differences as nat == xor_popcount_sum(self.data@, other.data@, i as int),
                spec_distance(self.data@, other.data@) <= 4096,
        decreases HASH_COUNT - i,
        {
            proof {
                lemma_xor_sum_prefix_le(self.data@, other.data@, i as int + 1, HASH_COUNT as int);
            }
            differences = differences + popcount64(self.data[i] ^ other.data[i]);
            i = i + 1;
        }
        differences
    }
}

/// The sum over a prefix never exceeds the sum over the whole.
proof fn lemma_xor_sum_prefix_le(a: Seq<u64>, b: Seq<u64>, m: int, n: int)
    requires
        m <= n,
    ensures
        xor_popcount_sum(a, b, m) <= xor_popcount_sum(a, b, n),
    decreases n - m,
{
    if m < n {
        lemma_xor_sum_prefix_le(a, b, m, n - 1);
    }
}

} // verus!
