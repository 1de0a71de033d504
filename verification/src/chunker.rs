//! The gear chunker: rolling-hash content-defined chunking over a byte
//! buffer. A chunk ends where the rolling hash matches the mask or where it
//! reaches the maximum length; chunks shorter than the minimum are skipped,
//! not merged. The rolling state is a plain 64-bit word, threaded through
//! here, so the chunking is a function of the buffer and the parameters.
//! The hash rolls over the outside crate's built-in table: no table is part
//! of the archive format, only the boundaries the chunking yields.
use vstd::prelude::*;

verus! {

/// The chunker's parameters: the boundary mask and the size bounds.
#[derive(Clone, Copy, PartialEq, Eq, Structural, Debug)]
pub struct ChunkConfig {
    /// A chunk boundary falls where the rolling hash ANDed with this is 0.
    pub mask: u64,
    /// Chunks shorter than this are skipped.
    pub min: usize,
    /// No chunk is longer than this.
    pub max: usize,
}

impl ChunkConfig {
    /// Bundles the chunker's parameters.
    pub fn new(mask: u64, min: usize, max: usize) -> (r: ChunkConfig)
        ensures
            r == (ChunkConfig { mask, min, max }),
    {
        ChunkConfig { mask, min, max }
    }
}

/// One step of the outside rolling hash over a window: the count of bytes
/// consumed up to the first mask match, if one falls inside the window, and
/// the hash state after the consumed stretch. A function of the starting
/// state, the window and the mask alone.
pub uninterp spec fn gear_next(state: u64, window: Seq<u8>, mask: u64) -> (Option<usize>, u64);

/// Relies on gearhash::Hasher::{set_hash, next_match, get_hash} over the
/// crate's built-in table: the rolling hash is a pure function of the
/// starting state and the bytes, and a reported match consumed between 1
/// and the window's length bytes.
#[verifier::external_body]
fn gear_next_match(state: u64, window: &[u8], mask: u64) -> (r: (Option<usize>, u64))
    ensures
        r == gear_next(state, window@, mask),
        r.0 matches Some(i) ==> 1 <= i <= window@.len(),
{
    let mut h = gearhash::Hasher::default();
    h.set_hash(state);
    let m = h.next_match(window, mask);
    (m, h.get_hash())
}

/// How many bytes one step consumes: up to the match, or the whole window
/// when no boundary falls inside it (an out-of-range report, which the
/// rolling hash never gives, reads as the whole window, keeping the
/// chunking well-defined).
pub open spec fn gear_consumed(state: u64, window: Seq<u8>, mask: u64) -> nat {
    match gear_next(state, window, mask).0 {
        Some(x) => if 1 <= x <= window.len() {
            x as nat
        } else {
            window.len()
        },
        None => window.len(),
    }
}

/// The spans the chunker cuts from `start` on, with the rolling hash in the
/// given state: each window runs to the next boundary or to `cfg.max`
/// bytes, and only stretches of at least `cfg.min` bytes are kept.
pub open spec fn gear_spans_from(data: Seq<u8>, cfg: ChunkConfig, start: nat, state: u64) -> Seq<
    (usize, usize),
>
    decreases data.len() - start
        when start <= data.len() && cfg.max >= 1
{
    if start >= data.len() {
        Seq::empty()
    } else {
        let max_count: nat = if data.len() - start < cfg.max {
            (data.len() - start) as nat
        } else {
            cfg.max as nat
        };
        let window = data.subrange(start as int, start + max_count as int);
        let consumed = gear_consumed(state, window, cfg.mask);
        let next_state = gear_next(state, window, cfg.mask).1;
        if consumed >= cfg.min {
            seq![(start as usize, consumed as usize)] + gear_spans_from(
                data,
                cfg,
                start + consumed,
                next_state,
            )
        } else {
            gear_spans_from(data, cfg, start + consumed, next_state)
        }
    }
}

/// The content-defined chunking of a whole buffer: the gear hash starts at
/// zero and rolls across the buffer.
pub open spec fn spec_chunk_spans(data: Seq<u8>, cfg: ChunkConfig) -> Seq<(usize, usize)> {
    gear_spans_from(data, cfg, 0, 0)
}

/// True when the spans are the chunking of a buffer of length `len` under
/// `cfg`: each chunk is in bounds and between the minimum and maximum
/// lengths, and they appear in order without overlap.
pub open spec fn chunks_wf(spans: Seq<(usize, usize)>, len: nat, cfg: ChunkConfig) -> bool {
    &&& forall|i: int|
        0 <= i < spans.len() ==> cfg.min <= (#[trigger] spans[i]).1 <= cfg.max && spans[i].0
            + spans[i].1 <= len
    &&& forall|i: int|
        0 < i < spans.len() ==> (#[trigger] spans[i]).0 >= spans[i - 1].0 + spans[i - 1].1
}

/// Splits a buffer into content-defined chunks: a chunk ends where the
/// rolling hash matches the mask or after `cfg.max` bytes, and chunks
/// shorter than `cfg.min` are skipped. Returns exactly the `(offset,
/// length)` spans of the kept chunks, in order.
pub fn chunk_spans(cfg: ChunkConfig, data: &[u8]) -> (r: Vec<(usize, usize)>)
    requires
        cfg.max >= 1,
    ensures
        r@ == spec_chunk_spans(data@, cfg),
        chunks_wf(r@, data@.len(), cfg),
{
    let mut spans: Vec<(usize, usize)> = Vec::new();
    let mut state: u64 = 0;
    let mut start: usize = 0;
    let len: usize = data.len();
    while start < len
        invariant
            start <= len == data@.len(),
            cfg.max >= 1,
            chunks_wf(spans@, data@.len(), cfg),
            forall|i: int| 0 <= i < spans@.len() ==> (#[trigger] spans@[i]).0 + spans@[i].1 <= start,
            spec_chunk_spans(data@, cfg) == spans@ + gear_spans_from(
                data@,
                cfg,
                start as nat,
                state,
            ),
        decreases len - start,
    {
        let max_count: usize = if len - start < cfg.max {
            len - start
        } else {
            cfg.max
        };
        let window: &[u8] = vstd::slice::slice_subrange(data, start, start + max_count);
        proof {
            assert(window@ =~= data@.subrange(start as int, start + max_count as nat));
        }
        let step: (Option<usize>, u64) = gear_next_match(state, window, cfg.mask);
        let end: usize = match step.0 {
            Some(x) => start + x,
            None => start + max_count,
        };
        let size: usize = end - start;
        proof {
            assert(size as nat == gear_consumed(state, window@, cfg.mask));
        }
        let ghost rest = gear_spans_from(data@, cfg, end as nat, step.1);
        if size >= cfg.min {
            let ghost pre = spans@;
            spans.push((start, size));
            proof {
                assert(spans@.drop_last() =~= pre);
                assert(gear_spans_from(data@, cfg, start as nat, state) =~= seq![
                    (start, size),
                ] + rest);
                assert(spans@ + rest =~= pre + gear_spans_from(data@, cfg, start as nat, state));
            }
        } else {
            proof {
                assert(gear_spans_from(data@, cfg, start as nat, state) =~= rest);
            }
        }
        start = end;
        state = step.1;
    }
    proof {
        assert(gear_spans_from(data@, cfg, start as nat, state) =~= Seq::empty());
        assert(spans@ + Seq::<(usize, usize)>::empty() =~= spans@);
    }
    spans
}

} // verus!
