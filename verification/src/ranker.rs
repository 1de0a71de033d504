//! The chunk ranker: a count-min sketch over three hashes paired with a
//! bounded double-ended priority queue, retaining the chunks that cover the
//! greatest byte-weighted number of contexts within a fixed memory budget.
use crate::chunker::ChunkConfig;
use crate::hashes::xxh3_64;
use std::collections::hash_map::DefaultHasher;
use std::collections::hash_map::RandomState;
use std::collections::HashMap;
use std::hash::Hasher;
use vstd::bytes::{spec_u64_to_le_bytes, u64_to_le_bytes};
use vstd::prelude::*;
use vstd::std_specs::hash::DefaultHasherAdditionalSpecFns;

verus! {

broadcast use {vstd::std_specs::hash::group_hash_axioms, vstd::set::group_set_axioms};

/// The double-ended priority queue of the outside crate, opaque here; its
/// contents are modeled as a map from item to priority.
#[verifier::external_type_specification]
#[verifier::external_body]
#[verifier::reject_recursive_types(I)]
#[verifier::reject_recursive_types(P)]
#[verifier::reject_recursive_types(H)]
pub struct ExDoublePriorityQueue<I, P, H>(priority_queue::DoublePriorityQueue<I, P, H>);

/// The contents of a queue that holds nothing.
pub open spec fn no_chunks() -> Map<u64, u64> {
    Map::empty()
}

/// What a queue of hashes with byte-count priorities holds: each queued
/// hash, mapped to its priority.
pub uninterp spec fn dpq_contents(
    q: priority_queue::DoublePriorityQueue<u64, u64, RandomState>,
) -> Map<u64, u64>;

/// Relies on priority_queue::DoublePriorityQueue::new: a fresh queue holds
/// nothing.
#[verifier::external_body]
fn dpq_new() -> (r: priority_queue::DoublePriorityQueue<u64, u64, RandomState>)
    ensures
        dpq_contents(r) == no_chunks(),
{
    priority_queue::DoublePriorityQueue::new()
}

/// Relies on priority_queue::DoublePriorityQueue::get: whether the item is
/// queued.
#[verifier::external_body]
fn dpq_contains(
    q: &priority_queue::DoublePriorityQueue<u64, u64, RandomState>,
    item: u64,
) -> (r: bool)
    ensures
        r == dpq_contents(*q).contains_key(item),
{
    q.get(&item).is_some()
}

/// Relies on priority_queue::DoublePriorityQueue::push: the item is queued
/// under the given priority, replacing any old priority it had.
#[verifier::external_body]
fn dpq_push(
    q: &mut priority_queue::DoublePriorityQueue<u64, u64, RandomState>,
    item: u64,
    prio: u64,
)
    ensures
        dpq_contents(*final(q)) == dpq_contents(*old(q)).insert(item, prio),
{
    let _ = q.push(item, prio);
}

/// Relies on priority_queue::DoublePriorityQueue::change_priority: a queued
/// item's priority is replaced; an unqueued item is left alone.
#[verifier::external_body]
fn dpq_change_priority(
    q: &mut priority_queue::DoublePriorityQueue<u64, u64, RandomState>,
    item: u64,
    prio: u64,
)
    ensures
        dpq_contents(*old(q)).contains_key(item) ==> dpq_contents(*final(q)) == dpq_contents(
            *old(q),
        ).insert(item, prio),
        !dpq_contents(*old(q)).contains_key(item) ==> dpq_contents(*final(q)) == dpq_contents(
            *old(q),
        ),
{
    let _ = q.change_priority(&item, prio);
}

/// Relies on priority_queue::DoublePriorityQueue::peek_min: on a non-empty
/// queue it reports a queued pair whose priority no queued priority goes
/// below; on an empty queue, nothing.
#[verifier::external_body]
fn dpq_peek_min(q: &priority_queue::DoublePriorityQueue<u64, u64, RandomState>) -> (r: Option<
    (u64, u64),
>)
    ensures
        match r {
            None => forall|k: u64| !dpq_contents(*q).contains_key(k),
            Some((item, prio)) => dpq_contents(*q).contains_key(item) && dpq_contents(*q)[item]
                == prio && forall|k: u64|
                dpq_contents(*q).contains_key(k) ==> prio <= #[trigger] dpq_contents(*q)[k],
        },
{
    q.peek_min().map(|(i, p)| (*i, *p))
}

/// Relies on priority_queue::DoublePriorityQueue::pop_min: on a non-empty
/// queue it removes and returns a queued pair whose priority no queued
/// priority goes below; on an empty queue, nothing.
#[verifier::external_body]
fn dpq_pop_min(q: &mut priority_queue::DoublePriorityQueue<u64, u64, RandomState>) -> (r: Option<
    (u64, u64),
>)
    ensures
        match r {
            None => dpq_contents(*final(q)) == dpq_contents(*old(q)) && forall|k: u64|
                !dpq_contents(*old(q)).contains_key(k),
            Some((item, prio)) => dpq_contents(*old(q)).contains_key(item) && dpq_contents(
                *old(q),
            )[item] == prio && (forall|k: u64|
                dpq_contents(*old(q)).contains_key(k) ==> prio <= #[trigger] dpq_contents(
                    *old(q),
                )[k]) && dpq_contents(*final(q)) == dpq_contents(*old(q)).remove(item),
        },
{
    q.pop_min()
}

/// Relies on priority_queue::DoublePriorityQueue::pop_max: on a non-empty
/// queue it removes and returns a queued pair whose priority no queued
/// priority goes above; on an empty queue, nothing.
#[verifier::external_body]
fn dpq_pop_max(q: &mut priority_queue::DoublePriorityQueue<u64, u64, RandomState>) -> (r: Option<
    (u64, u64),
>)
    ensures
        match r {
            None => dpq_contents(*final(q)) == dpq_contents(*old(q)) && forall|k: u64|
                !dpq_contents(*old(q)).contains_key(k),
            Some((item, prio)) => dpq_contents(*old(q)).contains_key(item) && dpq_contents(
                *old(q),
            )[item] == prio && (forall|k: u64|
                dpq_contents(*old(q)).contains_key(k) ==> prio >= #[trigger] dpq_contents(
                    *old(q),
                )[k]) && dpq_contents(*final(q)) == dpq_contents(*old(q)).remove(item),
        },
{
    q.pop_max()
}

/// The seed the ranker hashes chunks under: the boundary mask spread by a
/// fixed odd factor.
pub open spec fn ranker_seed(mask: u64) -> u64 {
    mask.wrapping_mul(0x092887b6049aa1fd)
}

/// The scrambling of one 64-bit word: the standard library's default
/// hasher, fresh, fed the word's little-endian bytes.
pub open spec fn spec_scramble(x: u64) -> u64 {
    DefaultHasher::spec_finish(seq![spec_u64_to_le_bytes(x)])
}

/// Scrambles one 64-bit word with a fresh default hasher.
pub fn scramble(x: u64) -> (r: u64)
    ensures
        r == spec_scramble(x),
{
    let mut h = DefaultHasher::new();
    let bytes = u64_to_le_bytes(x);
    h.write(bytes.as_slice());
    h.finish()
}

/// The first of the three sketch hashes of a chunk.
pub open spec fn hash_a(mask: u64, chunk: Seq<u8>) -> u64 {
    xxh3_64(ranker_seed(mask), chunk)
}

/// The second of the three sketch hashes.
pub open spec fn hash_b(mask: u64, chunk: Seq<u8>) -> u64 {
    spec_scramble(hash_a(mask, chunk) ^ 0x13b75835cec06997)
}

/// The third of the three sketch hashes.
pub open spec fn hash_c(mask: u64, chunk: Seq<u8>) -> u64 {
    spec_scramble(hash_a(mask, chunk) ^ 0x907c1340fc4f2ba7)
}

/// One sketch counter bumped by the chunk's byte count, saturating.
pub open spec fn sketch_bump(s: Seq<u64>, h: u64, w: u64) -> Seq<u64>
    recommends
        s.len() > 0,
{
    let i = h as int % s.len() as int;
    s.update(i, s[i].saturating_add(w))
}

/// The sketch after one chunk: all three counters bumped in turn.
pub open spec fn sketch_after(s: Seq<u64>, mask: u64, chunk: Seq<u8>) -> Seq<u64> {
    let w = chunk.len() as u64;
    sketch_bump(
        sketch_bump(sketch_bump(s, hash_a(mask, chunk), w), hash_b(mask, chunk), w),
        hash_c(mask, chunk),
        w,
    )
}

/// The byte-weighted count-min estimate read back while inserting a chunk:
/// the least of the three counters, each read just after its own bump.
pub open spec fn sketch_count(s: Seq<u64>, mask: u64, chunk: Seq<u8>) -> u64 {
    let w = chunk.len() as u64;
    let s1 = sketch_bump(s, hash_a(mask, chunk), w);
    let s2 = sketch_bump(s1, hash_b(mask, chunk), w);
    let s3 = sketch_bump(s2, hash_c(mask, chunk), w);
    let ca = s1[hash_a(mask, chunk) as int % s.len() as int];
    let cb = s2[hash_b(mask, chunk) as int % s.len() as int];
    let cc = s3[hash_c(mask, chunk) as int % s.len() as int];
    if ca <= cb && ca <= cc {
        ca
    } else if cb <= cc {
        cb
    } else {
        cc
    }
}

/// True when the queue already holds only priorities at or above `c`, and
/// is not empty: a new chunk with estimate `c` is then discarded.
pub open spec fn min_blocked(m: Map<u64, u64>, c: u64) -> bool {
    (exists|k: u64| m.contains_key(k)) && (forall|k: u64|
        m.contains_key(k) ==> c <= #[trigger] m[k])
}

/// How one chunk moves the queue: an already-queued chunk has its estimate
/// refreshed; a new one is dropped when every queued priority already
/// reaches its estimate, and otherwise queued, evicting one least-priority
/// chunk when no cell is free (or dropped when the pool has no cells at
/// all).
pub open spec fn queue_step(
    m0: Map<u64, u64>,
    m1: Map<u64, u64>,
    s0: Seq<u64>,
    mask: u64,
    chunk: Seq<u8>,
    cap: nat,
) -> bool {
    let ha = hash_a(mask, chunk);
    let count = sketch_count(s0, mask, chunk);
    if m0.contains_key(ha) {
        m1 == m0.insert(ha, count)
    } else if min_blocked(m0, count) {
        m1 == m0
    } else {
        ||| m1 == m0.insert(ha, count)
        ||| (exists|k: u64|
            #[trigger] m0.contains_key(k) && (forall|j: u64|
                m0.contains_key(j) ==> m0[k] <= #[trigger] m0[j]) && m1 == m0.remove(k).insert(
                ha,
                count,
            ))
        ||| (cap == 0 && m1 == m0)
    }
}

/// The bytes of the chunk a span points at.
pub open spec fn chunk_at(data: Seq<u8>, span: (usize, usize)) -> Seq<u8> {
    data.subrange(span.0 as int, span.0 + span.1 as int)
}

/// The sketch after every chunk of a file, folded in span order.
pub open spec fn sketch_after_spans(
    s: Seq<u64>,
    mask: u64,
    data: Seq<u8>,
    spans: Seq<(usize, usize)>,
) -> Seq<u64>
    decreases spans.len(),
{
    if spans.len() == 0 {
        s
    } else {
        sketch_after(
            sketch_after_spans(s, mask, data, spans.drop_last()),
            mask,
            chunk_at(data, spans.last()),
        )
    }
}

/// A chain of queue states across a file's chunks: the state at `t` steps
/// to the state at `t + 1` on the `t`th of the first `n` chunks, against
/// the sketch as it stood after the chunks before it.
pub open spec fn queue_chain(
    ms: Seq<Map<u64, u64>>,
    s0: Seq<u64>,
    mask: u64,
    data: Seq<u8>,
    spans: Seq<(usize, usize)>,
    n: int,
    cap: nat,
) -> bool {
    &&& ms.len() == n + 1
    &&& 0 <= n <= spans.len()
    &&& forall|t: int|
        0 <= t < n ==> #[trigger] queue_step(
            ms[t],
            ms[t + 1],
            sketch_after_spans(s0, mask, data, spans.take(t)),
            mask,
            chunk_at(data, spans[t]),
            cap,
        )
}

/// The payload of one retained chunk: its bytes, truncated to the chunker's
/// maximum and padded with zeroes up to it. The padding is kept on
/// emission, deliberately.
pub open spec fn padded_chunk(chunk: Seq<u8>, max: nat) -> Seq<u8> {
    if chunk.len() >= max {
        chunk.take(max as int)
    } else {
        chunk + Seq::new((max - chunk.len()) as nat, |i: int| 0u8)
    }
}

/// A sequence cut to at most `n` elements.
pub open spec fn clip<T>(s: Seq<T>, n: nat) -> Seq<T> {
    if s.len() <= n {
        s
    } else {
        s.take(n as int)
    }
}

/// True when `order` lists every key of `m` exactly once, in non-increasing
/// order of priority.
pub open spec fn desc_enumeration(m: Map<u64, u64>, order: Seq<u64>) -> bool {
    &&& order.len() == m.dom().len()
    &&& forall|i: int| 0 <= i < order.len() ==> m.contains_key(#[trigger] order[i])
    &&& forall|i: int, j: int|
        0 <= i < j < order.len() ==> #[trigger] order[i] != #[trigger] order[j]
    &&& forall|i: int, j: int|
        0 <= i < j < order.len() ==> m[#[trigger] order[i]] >= m[#[trigger] order[j]]
}

/// A retained chunk: its sketch hash, its payload buffer (always the
/// chunker's maximum long), and how much of the buffer is chunk bytes.
pub struct PriorityCell {
    /// The chunk's first sketch hash, the queue key.
    pub hash: u64,
    /// The payload, padded to the chunker's maximum length.
    pub data: Vec<u8>,
    /// The count of payload bytes that came from the chunk.
    pub data_size: usize,
}

/// The chunk ranker: a count-min sketch, a bounded priority queue keyed by
/// chunk hash, and a fixed pool of payload cells.
pub struct ChunkBuilder {
    queue: priority_queue::DoublePriorityQueue<u64, u64, RandomState>,
    cells: Vec<PriorityCell>,
    free: Vec<usize>,
    index: HashMap<u64, usize>,
    hash_count: Vec<u64>,
    chunker: ChunkConfig,
}

impl ChunkBuilder {
    /// The sketch counters.
    pub closed spec fn sketch(self) -> Seq<u64> {
        self.hash_count@
    }

    /// The queued chunks: each hash with its latest estimate.
    pub closed spec fn queued(self) -> Map<u64, u64> {
        dpq_contents(self.queue)
    }

    /// The chunker parameters the ranker was built for.
    pub closed spec fn config(self) -> ChunkConfig {
        self.chunker
    }

    /// The number of payload cells, the queue's capacity.
    pub closed spec fn capacity(self) -> nat {
        self.cells@.len()
    }

    /// The payload retained for a queued hash.
    pub closed spec fn payload_of(self, h: u64) -> Seq<u8>
        recommends
            self.queued().contains_key(h),
    {
        self.cells@[self.index@[h] as int].data@
    }

    /// The ranker's well-formedness: the queue, the hash index and the cell
    /// pool agree; every queued hash owns one cell, no two share one, and
    /// the free cells are exactly the unowned ones.
    pub closed spec fn wf(self) -> bool {
        &&& self.hash_count@.len() > 0
        &&& self.index@.dom() =~= self.queued().dom()
        &&& self.queued().dom().finite()
        &&& forall|h: u64|
            self.index@.dom().contains(h) ==> (#[trigger] self.index@[h]) < self.cells@.len()
        &&& forall|h1: u64, h2: u64|
            self.index@.dom().contains(h1) && self.index@.dom().contains(h2) && h1 != h2
                ==> #[trigger] self.index@[h1] != #[trigger] self.index@[h2]
        &&& forall|i: int| 0 <= i < self.free@.len() ==> (#[trigger] self.free@[i]) < self.cells@.len()
        &&& forall|i: int, j: int|
            0 <= i < j < self.free@.len() ==> #[trigger] self.free@[i] != #[trigger] self.free@[j]
        &&& forall|i: int, h: u64|
            0 <= i < self.free@.len() && self.index@.dom().contains(h) ==> #[trigger] self.free@[i]
                != #[trigger] self.index@[h]
        &&& self.free@.len() + self.index@.dom().len() == self.cells@.len()
        &&& forall|h: u64|
            self.index@.dom().contains(h) ==> (#[trigger] self.cells@[self.index@[h] as int]).hash
                == h
        &&& forall|i: int|
            0 <= i < self.cells@.len() ==> (#[trigger] self.cells@[i]).data@.len()
                == self.chunker.max
        &&& vstd::std_specs::hash::obeys_key_model::<u64>()
        &&& vstd::std_specs::hash::builds_valid_hashers::<RandomState>()
    }

    /// Builds an empty ranker: a zeroed sketch of `sketch_size` counters
    /// and `cell_count` free payload cells of the chunker's maximum size.
    pub fn new(chunker: ChunkConfig, sketch_size: usize, cell_count: usize) -> (r: ChunkBuilder)
        requires
            sketch_size >= 1,
        ensures
            r.wf(),
            r.config() == chunker,
            r.capacity() == cell_count,
            r.sketch().len() == sketch_size,
            forall|i: int| 0 <= i < sketch_size ==> (#[trigger] r.sketch()[i]) == 0,
            r.queued() == no_chunks(),
    {
        let mut hash_count: Vec<u64> = Vec::new();
        let mut i: usize = 0;
        while i < sketch_size
            invariant
                hash_count@.len() == i <= sketch_size,
                forall|k: int| 0 <= k < i ==> (#[trigger] hash_count@[k]) == 0,
            decreases sketch_size - i,
        {
            hash_count.push(0);
            i = i + 1;
        }
        let mut cells: Vec<PriorityCell> = Vec::new();
        let mut free: Vec<usize> = Vec::new();
        let mut c: usize = 0;
        while c < cell_count
            invariant
                cells@.len() == c <= cell_count,
                free@.len() == c,
                forall|k: int| 0 <= k < c ==> (#[trigger] free@[k]) == k,
                forall|k: int|
                    0 <= k < c ==> (#[trigger] cells@[k]).data@.len() == chunker.max,
            decreases cell_count - c,
        {
            let mut data: Vec<u8> = Vec::new();
            let mut b: usize = 0;
            while b < chunker.max
                invariant
                    data@.len() == b <= chunker.max,
                decreases chunker.max - b,
            {
                data.push(0);
                b = b + 1;
            }
            cells.push(PriorityCell { hash: 0, data, data_size: 0 });
            free.push(c);
            c = c + 1;
        }
        let queue = dpq_new();
        let index: HashMap<u64, usize> = HashMap::new();
        proof {
            assert(index@.dom() =~= dpq_contents(queue).dom());
        }
        ChunkBuilder { queue, cells, free, index, hash_count, chunker }
    }

    /// Feeds one chunk to the ranker. The three sketch counters it hashes
    /// to are bumped by the chunk's byte count, saturating, and the least of
    /// them becomes the chunk's estimate. An already-queued chunk has its
    /// priority replaced by the estimate; a new one is queued unless every
    /// queued priority already reaches the estimate, evicting one
    /// least-priority chunk when no cell is free.
    pub fn push_chunk(&mut self, mask: u64, chunk: &[u8])
        requires
            old(self).wf(),
        ensures
            final(self).wf(),
            final(self).config() == old(self).config(),
            final(self).capacity() == old(self).capacity(),
            final(self).sketch() == sketch_after(old(self).sketch(), mask, chunk@),
            final(self).sketch().len() == old(self).sketch().len(),
            forall|i: int|
                0 <= i < old(self).sketch().len()
                    ==> (#[trigger] final(self).sketch()[i]) >= old(self).sketch()[i],
            queue_step(
                old(self).queued(),
                final(self).queued(),
                old(self).sketch(),
                mask,
                chunk@,
                old(self).capacity(),
            ),
            ({
                let m0 = old(self).queued();
                let ha = hash_a(mask, chunk@);
                let count = sketch_count(old(self).sketch(), mask, chunk@);
                if m0.contains_key(ha) || min_blocked(m0, count) {
                    forall|k: u64|
                        m0.contains_key(k) ==> #[trigger] final(self).payload_of(k) == old(
                            self,
                        ).payload_of(k)
                } else {
                    &&& (final(self).queued().contains_key(ha) ==> final(self).payload_of(ha)
                        == padded_chunk(chunk@, old(self).config().max as nat))
                    &&& (forall|k: u64|
                        final(self).queued().contains_key(k) && k != ha
                            ==> #[trigger] final(self).payload_of(k) == old(self).payload_of(k))
                }
            }),
    {
        let w: u64 = chunk.len() as u64;
        let ha: u64 = crate::hashes::xxh3(chunk, mask.wrapping_mul(0x092887b6049aa1fd));
        let hb: u64 = scramble(ha ^ 0x13b75835cec06997);
        let hc: u64 = scramble(ha ^ 0x907c1340fc4f2ba7);
        proof {
            assert(ha == hash_a(mask, chunk@));
            assert(hb == hash_b(mask, chunk@));
            assert(hc == hash_c(mask, chunk@));
        }
        let ct_a = self.bump(ha, w);
        let ct_b = self.bump(hb, w);
        let ct_c = self.bump(hc, w);
        let count: u64 = if ct_a <= ct_b && ct_a <= ct_c {
            ct_a
        } else if ct_b <= ct_c {
            ct_b
        } else {
            ct_c
        };
        proof {
            assert(self.sketch() =~= sketch_after(old(self).sketch(), mask, chunk@));
            assert(count == sketch_count(old(self).sketch(), mask, chunk@));
            lemma_sketch_after_monotonic(old(self).sketch(), mask, chunk@);
        }
        // An already-queued chunk only has its estimate refreshed.
        if dpq_contains(&self.queue, ha) {
            dpq_change_priority(&mut self.queue, ha, count);
            proof {
                assert(self.index@.dom() =~= self.queued().dom());
            }
            return;
        }
        // Discard the chunk if every queued one already ranks at or above it.
        match dpq_peek_min(&self.queue) {
            Some((_, min_prio)) => {
                if count <= min_prio {
                    proof {
                        assert(min_blocked(old(self).queued(), count));
                    }
                    return;
                }
            },
            None => {},
        }
        // Claim a free cell, or evict the current minimum and reuse its cell.
        let idx: usize = match self.free.pop() {
            Some(x) => x,
            None => {
                let evicted: u64 = match dpq_pop_min(&mut self.queue) {
                    Some((k, _)) => k,
                    None => {
                        // No free cell and an empty queue: the pool was built
                        // with no cells at all, so the chunk cannot be kept.
                        proof {
                            assert(self.queued().dom() =~= Set::<u64>::empty());
                            assert(self.queued().dom().len() == 0);
                            assert(old(self).capacity() == 0);
                        }
                        return;
                    },
                };
                let slot: usize = match self.index.get(&evicted) {
                    Some(s) => *s,
                    None => {
                        proof {
                            assert(false);
                        }
                        0
                    },
                };
                self.index.remove(&evicted);
                slot
            },
        };
        // Fill the cell with the chunk's bytes, padded to the maximum.
        let copy_len: usize = if chunk.len() < self.chunker.max {
            chunk.len()
        } else {
            self.chunker.max
        };
        let mut data: Vec<u8> = Vec::new();
        let mut b: usize = 0;
        while b < copy_len
            invariant
                b <= copy_len <= chunk@.len(),
                data@ == chunk@.take(b as int),
            decreases copy_len - b,
        {
            let byte: u8 = chunk[b];
            data.push(byte);
            proof {
                assert(chunk@.take(b + 1) =~= chunk@.take(b as int) + seq![byte]);
            }
            b = b + 1;
        }
        while b < self.chunker.max
            invariant
                copy_len <= b <= self.chunker.max,
                data@.len() == b,
                data@.take(copy_len as int) == chunk@.take(copy_len as int),
                forall|t: int| copy_len <= t < b ==> data@[t] == 0u8,
            decreases self.chunker.max - b,
        {
            data.push(0);
            proof {
                assert(data@.take(copy_len as int) =~= chunk@.take(copy_len as int));
            }
            b = b + 1;
        }
        proof {
            let padded = padded_chunk(chunk@, self.chunker.max as nat);
            assert(data@.len() == padded.len());
            assert forall|t: int| 0 <= t < data@.len() implies data@[t] == padded[t] by {
                if t < copy_len {
                    assert(data@.take(copy_len as int)[t] == chunk@.take(copy_len as int)[t]);
                }
            }
            assert(data@ =~= padded);
        }
        self.cells.set(idx, PriorityCell { hash: ha, data, data_size: copy_len });
        self.index.insert(ha, idx);
        dpq_push(&mut self.queue, ha, count);
        proof {
            assert(self.index@.dom() =~= self.queued().dom());
            assert(self.cells@[self.index@[ha] as int].data@ == padded_chunk(
                chunk@,
                self.chunker.max as nat,
            ));
        }
    }

    /// Bumps the sketch counter that `h` points at by `w`, saturating, and
    /// reads it back.
    fn bump(&mut self, h: u64, w: u64) -> (r: u64)
        requires
            old(self).wf(),
        ensures
            final(self).wf(),
            *final(self) == (ChunkBuilder { hash_count: final(self).hash_count, ..*old(self) }),
            final(self).hash_count@ == sketch_bump(old(self).hash_count@, h, w),
            r == final(self).hash_count@[h as int % old(self).hash_count@.len() as int],
    {
        let n: usize = self.hash_count.len();
        let i: usize = (h % (n as u64)) as usize;
        let cur: u64 = self.hash_count[i];
        let bumped: u64 = cur.saturating_add(w);
        self.hash_count.set(i, bumped);
        proof {
            assert(i as int == h as int % n as int);
        }
        bumped
    }

    /// Feeds every content-defined chunk of one file to the ranker, in
    /// order. No sketch counter comes out lower than it went in.
    pub fn push_file(&mut self, data: &[u8])
        requires
            old(self).wf(),
            old(self).config().max >= 1,
        ensures
            final(self).wf(),
            final(self).config() == old(self).config(),
            final(self).capacity() == old(self).capacity(),
            final(self).sketch() == sketch_after_spans(
                old(self).sketch(),
                old(self).config().mask,
                data@,
                crate::chunker::spec_chunk_spans(data@, old(self).config()),
            ),
            final(self).sketch().len() == old(self).sketch().len(),
            forall|i: int|
                0 <= i < old(self).sketch().len()
                    ==> (#[trigger] final(self).sketch()[i]) >= old(self).sketch()[i],
            exists|ms: Seq<Map<u64, u64>>|
                {
                    &&& #[trigger] queue_chain(
                        ms,
                        old(self).sketch(),
                        old(self).config().mask,
                        data@,
                        crate::chunker::spec_chunk_spans(data@, old(self).config()),
                        crate::chunker::spec_chunk_spans(data@, old(self).config()).len() as int,
                        old(self).capacity(),
                    )
                    &&& ms.first() == old(self).queued()
                    &&& ms.last() == final(self).queued()
                },
    {
        let mask: u64 = self.chunker.mask;
        let spans = crate::chunker::chunk_spans(self.chunker, data);
        let ghost s0 = old(self).sketch();
        let ghost m0 = old(self).queued();
        let ghost cap = old(self).capacity();
        let ghost mut chain: Seq<Map<u64, u64>> = seq![m0];
        let dlen: usize = data.len();
        let mut i: usize = 0;
        while i < spans.len()
            invariant
                i <= spans@.len(),
                dlen == data@.len(),
                spans@ == crate::chunker::spec_chunk_spans(data@, old(self).config()),
                crate::chunker::chunks_wf(spans@, data@.len(), old(self).config()),
                mask == old(self).config().mask,
                s0 == old(self).sketch(),
                m0 == old(self).queued(),
                cap == old(self).capacity(),
                self.wf(),
                self.config() == old(self).config(),
                self.capacity() == old(self).capacity(),
                self.sketch() == sketch_after_spans(s0, mask, data@, spans@.take(i as int)),
                self.sketch().len() == old(self).sketch().len(),
                forall|t: int|
                    0 <= t < old(self).sketch().len()
                        ==> (#[trigger] self.sketch()[t]) >= old(self).sketch()[t],
                chain.len() == i + 1,
                chain.first() == m0,
                chain.last() == self.queued(),
                queue_chain(chain, s0, mask, data@, spans@, i as int, cap),
            decreases spans@.len() - i,
        {
            let (off, len) = spans[i];
            proof {
                assert((off, len) == spans@[i as int]);
                assert(spans@[i as int].0 + spans@[i as int].1 <= dlen);
            }
            let ghost mid = self.queued();
            let ghost s_mid = self.sketch();
            let block: &[u8] = vstd::slice::slice_subrange(data, off, off + len);
            proof {
                assert(block@ =~= chunk_at(data@, spans@[i as int]));
            }
            self.push_chunk(mask, block);
            proof {
                assert(spans@.take(i + 1).drop_last() =~= spans@.take(i as int));
                assert(self.sketch() =~= sketch_after_spans(s0, mask, data@, spans@.take(i + 1)));
                assert(queue_step(
                    mid,
                    self.queued(),
                    sketch_after_spans(s0, mask, data@, spans@.take(i as int)),
                    mask,
                    chunk_at(data@, spans@[i as int]),
                    cap,
                ));
                let prev = chain;
                chain = chain.push(self.queued());
                assert(chain.last() == self.queued());
                assert(chain.first() == m0);
                assert forall|t: int|
                    0 <= t < i + 1 implies #[trigger] queue_step(
                    chain[t],
                    chain[t + 1],
                    sketch_after_spans(s0, mask, data@, spans@.take(t)),
                    mask,
                    chunk_at(data@, spans@[t]),
                    cap,
                ) by {
                    if t < i {
                        assert(chain[t] == prev[t]);
                        assert(chain[t + 1] == prev[t + 1]);
                    } else {
                        assert(chain[t] == mid);
                        assert(chain[t + 1] == self.queued());
                    }
                }
            }
            i = i + 1;
        }
        proof {
            assert(spans@.take(spans@.len() as int) =~= spans@);
            assert(queue_chain(chain, s0, mask, data@, spans@, spans@.len() as int, cap));
        }
    }

    /// Emits the dictionary: the retained payloads, whole buffers padding
    /// included, in descending order of estimate, cut off at `max_size`
    /// bytes. The result never exceeds `max_size`.
    pub fn build_dictionary(self, max_size: usize) -> (r: Vec<u8>)
        requires
            self.wf(),
        ensures
            r@.len() <= max_size,
            r@.len() == if max_size <= self.queued().dom().len() * self.config().max {
                max_size as int
            } else {
                self.queued().dom().len() * self.config().max
            },
            exists|order: Seq<u64>|
                #[trigger] desc_enumeration(self.queued(), order) && r@ == clip(
                    concat_payloads(self, order),
                    max_size as nat,
                ),
    {
        let ChunkBuilder { mut queue, cells, free: _, mut index, hash_count: _, chunker } = self;
        let mut dictionary: Vec<u8> = Vec::new();
        let ghost mut order: Seq<u64> = Seq::empty();
        loop
            invariant
                self.wf(),
                cells@ == self.cells@,
                chunker == self.config(),
                dpq_contents(queue).dom().finite(),
                index@.dom() =~= dpq_contents(queue).dom(),
                forall|k: u64|
                    #[trigger] dpq_contents(queue).contains_key(k)
                        ==> self.queued().contains_key(k),
                forall|k: u64|
                    dpq_contents(queue).contains_key(k) ==> #[trigger] dpq_contents(queue)[k]
                        == self.queued()[k],
                forall|k: u64|
                    #[trigger] dpq_contents(queue).contains_key(k) ==> index@[k]
                        == self.index@[k],
                order.len() + dpq_contents(queue).dom().len() == self.queued().dom().len(),
                forall|i: int|
                    0 <= i < order.len() ==> self.queued().contains_key(#[trigger] order[i]),
                forall|i: int|
                    0 <= i < order.len() ==> !dpq_contents(queue).contains_key(
                        #[trigger] order[i],
                    ),
                forall|i: int, j: int|
                    0 <= i < j < order.len() ==> #[trigger] order[i] != #[trigger] order[j],
                forall|i: int, j: int|
                    0 <= i < j < order.len() ==> self.queued()[#[trigger] order[i]]
                        >= self.queued()[#[trigger] order[j]],
                forall|i: int, k: u64|
                    0 <= i < order.len() && #[trigger] dpq_contents(queue).contains_key(k)
                        ==> self.queued()[#[trigger] order[i]] >= self.queued()[k],
                dictionary@ == concat_payloads(self, order),
                vstd::std_specs::hash::obeys_key_model::<u64>(),
                vstd::std_specs::hash::builds_valid_hashers::<RandomState>(),
            ensures
                dictionary@ == concat_payloads(self, order),
                desc_enumeration(self.queued(), order),
            decreases dpq_contents(queue).dom().len(),
        {
            let ghost mq0 = dpq_contents(queue);
            let popped = dpq_pop_max(&mut queue);
            let hash: u64 = match popped {
                Some((h, _)) => h,
                None => {
                    proof {
                        assert(mq0.dom() =~= Set::<u64>::empty());
                        assert(desc_enumeration(self.queued(), order));
                    }
                    break;
                },
            };
            proof {
                assert(dpq_contents(queue) == mq0.remove(hash));
                assert forall|k: u64| dpq_contents(queue).contains_key(k) implies
                    self.queued().contains_key(k) && #[trigger] dpq_contents(queue)[k]
                    == self.queued()[k] && index@[k] == self.index@[k] by {
                    assert(mq0.contains_key(k));
                    assert(mq0[k] == self.queued()[k]);
                }
            }
            let idx: usize = match index.get(&hash) {
                Some(s) => *s,
                None => {
                    proof {
                        assert(false);
                    }
                    0
                },
            };
            let ghost ix0 = index@;
            index.remove(&hash);
            proof {
                assert(index@ == ix0.remove(hash));
                assert forall|k: u64| dpq_contents(queue).contains_key(k) implies
                    self.queued().contains_key(k) && #[trigger] dpq_contents(queue)[k]
                    == self.queued()[k] && index@[k] == self.index@[k] by {
                    assert(k != hash);
                    assert(mq0.contains_key(k));
                    let trig = mq0[k];
                    assert(ix0[k] == self.index@[k]);
                }
                let ghost prev_prio = mq0[hash];
                assert forall|i: int, k: u64|
                    0 <= i < order.len() + 1 && #[trigger] dpq_contents(queue).contains_key(k)
                        implies self.queued()[#[trigger] order.push(hash)[i]]
                    >= self.queued()[k] by {
                    assert(mq0.contains_key(k));
                    if i < order.len() {
                        assert(order.push(hash)[i] == order[i]);
                    } else {
                        assert(order.push(hash)[i] == hash);
                        assert(prev_prio >= mq0[k]);
                    }
                }
            }
            let cell = &cells[idx];
            append_bytes(&mut dictionary, &cell.data);
            proof {
                assert(cells@[idx as int].data@ == self.payload_of(hash));
                let prev_order = order;
                order = order.push(hash);
                assert(order.drop_last() =~= prev_order);
                assert(order.last() == hash);
                assert(dictionary@ =~= concat_payloads(self, order));
            }
        }
        proof {
            assert(order.len() == self.queued().dom().len());
            assert(desc_enumeration(self.queued(), order));
            assert forall|i: int|
                0 <= i < order.len() implies self.payload_of(#[trigger] order[i]).len()
                == self.config().max by {
                assert(self.queued().contains_key(order[i]));
            }
            lemma_concat_payloads_len(self, order);
        }
        dictionary.truncate(max_size);
        proof {
            assert(dictionary@ =~= clip(concat_payloads(self, order), max_size as nat));
        }
        dictionary
    }
}

/// Appends a whole buffer to the output.
pub(crate) fn append_bytes(out: &mut Vec<u8>, data: &Vec<u8>)
    ensures
        final(out)@ == old(out)@ + data@,
{
    let mut b: usize = 0;
    while b < data.len()
        invariant
            b <= data@.len(),
            out@ == old(out)@ + data@.take(b as int),
        decreases data@.len() - b,
    {
        let byte: u8 = data[b];
        out.push(byte);
        proof {
            assert(data@.take(b + 1) =~= data@.take(b as int) + seq![byte]);
        }
        b = b + 1;
    }
    proof {
        assert(data@.take(data@.len() as int) =~= data@);
    }
}

/// The retained payloads of the given hashes, concatenated in order.
pub open spec fn concat_payloads(b: ChunkBuilder, order: Seq<u64>) -> Seq<u8>
    decreases order.len(),
{
    if order.len() == 0 {
        Seq::empty()
    } else {
        concat_payloads(b, order.drop_last()) + b.payload_of(order.last())
    }
}

/// Payloads of the chunker's maximum length concatenate to exactly that
/// many bytes per entry.
proof fn lemma_concat_payloads_len(b: ChunkBuilder, order: Seq<u64>)
    requires
        forall|i: int|
            0 <= i < order.len() ==> b.payload_of(#[trigger] order[i]).len() == b.config().max,
    ensures
        concat_payloads(b, order).len() == order.len() * b.config().max,
    decreases order.len(),
{
    if order.len() > 0 {
        lemma_concat_payloads_len(b, order.drop_last());
        assert((order.len() - 1) * b.config().max + b.config().max == order.len()
            * b.config().max) by (nonlinear_arith);
    }
}

/// The sketch-min estimate of a chunk: the least of the three counters it
/// hashes to, read without bumping.
pub open spec fn sketch_min(s: Seq<u64>, mask: u64, chunk: Seq<u8>) -> u64
    recommends
        s.len() > 0,
{
    let ca = s[hash_a(mask, chunk) as int % s.len() as int];
    let cb = s[hash_b(mask, chunk) as int % s.len() as int];
    let cc = s[hash_c(mask, chunk) as int % s.len() as int];
    if ca <= cb && ca <= cc {
        ca
    } else if cb <= cc {
        cb
    } else {
        cc
    }
}

/// Feeding more chunks to the sketch never lowers any counter, so it never
/// lowers any chunk's sketch-min estimate: under a pointwise-larger sketch,
/// every chunk's estimate is at least what it was.
pub proof fn lemma_sketch_min_monotonic(s1: Seq<u64>, s2: Seq<u64>, mask: u64, chunk: Seq<u8>)
    requires
        s1.len() == s2.len(),
        s1.len() > 0,
        forall|i: int| 0 <= i < s1.len() ==> #[trigger] s2[i] >= s1[i],
    ensures
        sketch_min(s2, mask, chunk) >= sketch_min(s1, mask, chunk),
{
}

/// Bumping a sketch counter never lowers any counter.
proof fn lemma_sketch_bump_monotonic(s: Seq<u64>, h: u64, w: u64)
    requires
        s.len() > 0,
    ensures
        sketch_bump(s, h, w).len() == s.len(),
        forall|i: int| 0 <= i < s.len() ==> #[trigger] sketch_bump(s, h, w)[i] >= s[i],
{
}

/// A chunk insertion never lowers any sketch counter.
pub proof fn lemma_sketch_after_monotonic(s: Seq<u64>, mask: u64, chunk: Seq<u8>)
    requires
        s.len() > 0,
    ensures
        sketch_after(s, mask, chunk).len() == s.len(),
        forall|i: int| 0 <= i < s.len() ==> #[trigger] sketch_after(s, mask, chunk)[i] >= s[i],
{
    let w = chunk.len() as u64;
    let s1 = sketch_bump(s, hash_a(mask, chunk), w);
    let s2 = sketch_bump(s1, hash_b(mask, chunk), w);
    lemma_sketch_bump_monotonic(s, hash_a(mask, chunk), w);
    lemma_sketch_bump_monotonic(s1, hash_b(mask, chunk), w);
    lemma_sketch_bump_monotonic(s2, hash_c(mask, chunk), w);
}

} // verus!
