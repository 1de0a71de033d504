//! The dictionary miner: every file feeds both the reservoir sampler and
//! the chunk ranker, and the final dictionary is the trainer's short seed
//! followed by the ranker's top chunks, cut to the configured size.
use crate::chunker::{spec_chunk_spans, ChunkConfig};
use crate::dir_tree::{DirNode, DirNodeData};
use crate::errors::Error;
use crate::ranker::{
    clip, concat_payloads, desc_enumeration, queue_chain, sketch_after_spans, ChunkBuilder,
};
use crate::sampler::{sample_prefix, trained_dictionary, SamplesBuilder};
use vstd::prelude::*;

verus! {

/// The miner's parameters.
#[derive(Clone, Copy, PartialEq, Eq, Structural, Debug)]
pub struct BuildSamplesConfiguration {
    /// The size the emitted dictionary is cut to.
    pub dictionary_size: usize,
    /// How many times more chunk cells than the dictionary strictly needs.
    pub excess_samples_factor: usize,
    /// The number of count-min sketch counters.
    pub hash_table_size: usize,
    /// The content-defined chunker's parameters.
    pub chunker: ChunkConfig,
    /// How many file prefixes the reservoir sampler keeps.
    pub basic_dict_samples_count: usize,
    /// The longest file prefix the reservoir sampler keeps.
    pub basic_dict_samples_max_size: usize,
}

impl BuildSamplesConfiguration {
    /// What a usable configuration needs: a non-degenerate chunker, at
    /// least one sketch counter, and a cell pool that fits in memory.
    pub open spec fn wf(self) -> bool {
        &&& self.chunker.min >= 1
        &&& self.chunker.max >= 1
        &&& self.hash_table_size >= 1
        &&& (self.dictionary_size as int / self.chunker.min as int)
            * self.excess_samples_factor as int <= usize::MAX as int
    }
}

impl Default for BuildSamplesConfiguration {
    /// The stock configuration: a 512 KiB dictionary, twofold cell excess,
    /// a 64 Mi-counter sketch, a 16-to-256-byte chunker cutting on a mask
    /// with an average run of 64, and a reservoir of 128 prefixes of at
    /// most 32 KiB.
    fn default() -> (r: BuildSamplesConfiguration)
        ensures
            r == (BuildSamplesConfiguration {
                dictionary_size: 0x80000,
                excess_samples_factor: 2,
                hash_table_size: 0x4000000,
                chunker: ChunkConfig { mask: 0x8835, min: 16, max: 256 },
                basic_dict_samples_count: 128,
                basic_dict_samples_max_size: 0x8000,
            }),
            r.wf(),
    {
        BuildSamplesConfiguration {
            dictionary_size: 0x80000,
            excess_samples_factor: 2,
            hash_table_size: 0x4000000,
            chunker: ChunkConfig { mask: 0x8835, min: 16, max: 256 },
            basic_dict_samples_count: 128,
            basic_dict_samples_max_size: 0x8000,
        }
    }
}

/// The byte budget the trainer's seed dictionary is asked for.
pub const SEED_TARGET: usize = 256;

/// What the trainer's seed contributes: the trained dictionary, or nothing
/// where the trainer refuses the sample set.
pub open spec fn seed_of(samples: Seq<Seq<u8>>) -> Seq<u8> {
    match trained_dictionary(samples, SEED_TARGET) {
        Some(d) => d,
        None => Seq::empty(),
    }
}

/// The byte budget left for the ranker's chunks after the seed.
pub open spec fn ranker_budget(target: nat) -> nat {
    if target > SEED_TARGET {
        (target - SEED_TARGET) as nat
    } else {
        0
    }
}

/// True when every file in the tree carries its bytes in memory, so the
/// miner can read it without I/O.
pub open spec fn all_in_memory(node: DirNode) -> bool
    decreases node,
{
    match node.data {
        DirNodeData::FileNode { contents } => contents is Data,
        DirNodeData::DirNode { contents } => entries_in_memory(contents@),
    }
}

/// True when every file under every entry carries its bytes in memory.
pub open spec fn entries_in_memory(entries: Seq<(String, DirNode)>) -> bool
    decreases entries,
{
    forall|i: int| 0 <= i < entries.len() ==> all_in_memory((#[trigger] entries[i]).1)
}

/// The dictionary miner: the reservoir sampler and the chunk ranker, fed
/// together, and the size the result is cut to.
pub struct BuildSamples {
    chunk_builder: ChunkBuilder,
    samples_builder: SamplesBuilder,
    target_size: usize,
}

impl BuildSamples {
    /// The size the emitted dictionary is cut to.
    pub closed spec fn target(self) -> nat {
        self.target_size as nat
    }

    /// The count-min sketch counters.
    pub closed spec fn sketch(self) -> Seq<u64> {
        self.chunk_builder.sketch()
    }

    /// The chunker parameters the miner was built for.
    pub closed spec fn config(self) -> ChunkConfig {
        self.chunk_builder.config()
    }

    /// The ranker's queued chunks: each hash with its latest estimate.
    pub closed spec fn queued(self) -> Map<u64, u64> {
        self.chunk_builder.queued()
    }

    /// The payload the ranker retains for a queued hash.
    pub closed spec fn payload_of(self, h: u64) -> Seq<u8> {
        self.chunk_builder.payload_of(h)
    }

    /// The ranker's cell count, the queue's capacity.
    pub closed spec fn capacity(self) -> nat {
        self.chunk_builder.capacity()
    }

    /// The reservoir's stored samples.
    pub closed spec fn samples(self) -> Seq<Seq<u8>> {
        self.samples_builder.samples()
    }

    /// The retained payloads of the given hashes, concatenated in order.
    pub open spec fn concat_retained(self, order: Seq<u64>) -> Seq<u8>
        decreases order.len(),
    {
        if order.len() == 0 {
            Seq::empty()
        } else {
            self.concat_retained(order.drop_last()) + self.payload_of(order.last())
        }
    }

    /// The most samples the reservoir will hold.
    pub closed spec fn sample_count_bound(self) -> nat {
        self.samples_builder.count_bound()
    }

    /// The longest file prefix the reservoir stores.
    pub closed spec fn sample_size_bound(self) -> nat {
        self.samples_builder.size_bound()
    }

    /// The miner's well-formedness: both halves well-formed, with a usable
    /// chunker.
    pub closed spec fn wf(self) -> bool {
        &&& self.chunk_builder.wf()
        &&& self.samples_builder.wf()
        &&& self.chunk_builder.config().max >= 1
    }

    /// Builds a miner for the given configuration.
    pub fn new(cfg: &BuildSamplesConfiguration) -> (r: BuildSamples)
        requires
            cfg.wf(),
        ensures
            r.wf(),
            r.target() == cfg.dictionary_size,
            r.sketch().len() == cfg.hash_table_size,
            forall|i: int| 0 <= i < cfg.hash_table_size ==> (#[trigger] r.sketch()[i]) == 0,
    {
        let needed_samples: usize = cfg.dictionary_size / cfg.chunker.min;
        let cell_count: usize = needed_samples * cfg.excess_samples_factor;
        BuildSamples {
            chunk_builder: ChunkBuilder::new(cfg.chunker, cfg.hash_table_size, cell_count),
            samples_builder: SamplesBuilder::new(
                cfg.basic_dict_samples_count,
                cfg.basic_dict_samples_max_size,
            ),
            target_size: cfg.dictionary_size,
        }
    }

    /// Feeds one file to both the ranker and the sampler: the sketch is
    /// bumped for every content-defined chunk of the file in order, the
    /// queue steps through those chunks, and the reservoir is offered the
    /// file's prefix. No sketch counter comes out lower than it went in.
    pub fn push_file(&mut self, data: &[u8])
        requires
            old(self).wf(),
        ensures
            final(self).wf(),
            final(self).target() == old(self).target(),
            final(self).config() == old(self).config(),
            final(self).capacity() == old(self).capacity(),
            final(self).sample_count_bound() == old(self).sample_count_bound(),
            final(self).sample_size_bound() == old(self).sample_size_bound(),
            final(self).sketch() == sketch_after_spans(
                old(self).sketch(),
                old(self).config().mask,
                data@,
                spec_chunk_spans(data@, old(self).config()),
            ),
            final(self).sketch().len() == old(self).sketch().len(),
            forall|i: int|
                0 <= i < old(self).sketch().len()
                    ==> (#[trigger] final(self).sketch()[i]) >= old(self).sketch()[i],
            exists|ms: Seq<Map<u64, u64>>|
                {
                    &&& #[trigger] queue_chain(
                        ms,
                        old(self).sketch(),
                        old(self).config().mask,
                        data@,
                        spec_chunk_spans(data@, old(self).config()),
                        spec_chunk_spans(data@, old(self).config()).len() as int,
                        old(self).capacity(),
                    )
                    &&& ms.first() == old(self).queued()
                    &&& ms.last() == final(self).queued()
                },
            ({
                let stored = sample_prefix(data@, old(self).sample_size_bound());
                if old(self).samples().len() < old(self).sample_count_bound() {
                    final(self).samples() == old(self).samples().push(stored)
                } else {
                    final(self).samples() == old(self).samples() || exists|i: int|
                        0 <= i < old(self).samples().len() && final(self).samples() == old(
                            self,
                        ).samples().update(i, stored)
                }
            }),
    {
        let ghost cb0 = self.chunk_builder;
        self.chunk_builder.push_file(data);
        proof {
            let spans = spec_chunk_spans(data@, cb0.config());
            let ms0 = choose|ms: Seq<Map<u64, u64>>|
                {
                    &&& #[trigger] queue_chain(
                        ms,
                        cb0.sketch(),
                        cb0.config().mask,
                        data@,
                        spec_chunk_spans(data@, cb0.config()),
                        spec_chunk_spans(data@, cb0.config()).len() as int,
                        cb0.capacity(),
                    )
                    &&& ms.first() == cb0.queued()
                    &&& ms.last() == self.chunk_builder.queued()
                };
            assert(queue_chain(
                ms0,
                old(self).sketch(),
                old(self).config().mask,
                data@,
                spec_chunk_spans(data@, old(self).config()),
                spec_chunk_spans(data@, old(self).config()).len() as int,
                old(self).capacity(),
            ));
            assert(ms0.first() == old(self).queued());
        }
        let ghost sb0 = self.samples_builder;
        self.samples_builder.push_sample(data);
        proof {
            assert(self.queued() == self.chunk_builder.queued());
            let stored = sample_prefix(data@, sb0.size_bound());
            if sb0.samples().len() >= sb0.count_bound() && self.samples_builder.samples()
                != sb0.samples() {
                let i = choose|i: int|
                    0 <= i < sb0.samples().len() && self.samples_builder.samples()
                        == sb0.samples().update(i, stored);
                assert(self.samples() == old(self).samples().update(i, stored));
                assert(exists|k: int|
                    0 <= k < old(self).samples().len() && self.samples() == old(
                        self,
                    ).samples().update(k, stored));
            }
        }
    }

    /// Feeds every file under the node to the miner, depth first in entry
    /// order. Succeeds exactly when every file's bytes are in memory; a
    /// path-backed file stops the walk with the error. No sketch counter
    /// comes out lower than it went in.
    pub fn add_nodes(&mut self, node: &DirNode) -> (r: Result<(), Error>)
        requires
            old(self).wf(),
        ensures
            final(self).wf(),
            final(self).target() == old(self).target(),
            final(self).sketch().len() == old(self).sketch().len(),
            forall|i: int|
                0 <= i < old(self).sketch().len()
                    ==> (#[trigger] final(self).sketch()[i]) >= old(self).sketch()[i],
            r is Ok <==> all_in_memory(*node),
            r matches Err(e) ==> e.0 is Kind,
        decreases *node,
    {
        match &node.data {
            DirNodeData::FileNode { contents } => {
                let mut data: Vec<u8> = Vec::new();
                match contents.push_to_vec(&mut data) {
                    Ok(()) => {},
                    Err(e) => {
                        return Err(e);
                    },
                }
                self.push_file(data.as_slice());
                Ok(())
            },
            DirNodeData::DirNode { contents } => {
                let mut i: usize = 0;
                while i < contents.len()
                    invariant
                        i <= contents@.len(),
                        node.data == (DirNodeData::DirNode { contents: *contents }),
                        self.wf(),
                        self.target() == old(self).target(),
                        self.sketch().len() == old(self).sketch().len(),
                        forall|t: int|
                            0 <= t < old(self).sketch().len()
                                ==> (#[trigger] self.sketch()[t]) >= old(self).sketch()[t],
                        forall|k: int| 0 <= k < i ==> all_in_memory((#[trigger] contents@[k]).1),
                    decreases contents@.len() - i,
                {
                    let child: &DirNode = &contents[i].1;
                    proof {
                        assert(node.data == (DirNodeData::DirNode { contents: *contents }));
                        assert(decreases_to!(*node => node.data));
                        assert(decreases_to!(node.data => node.data->DirNode_contents));
                        assert(node.data->DirNode_contents == *contents);
                        assert(decreases_to!(*contents => contents@));
                        assert(decreases_to!(contents@ => contents@[i as int]));
                        assert(decreases_to!(contents@[i as int] => contents@[i as int].1));
                    }
                    match self.add_nodes(child) {
                        Ok(()) => {},
                        Err(e) => {
                            proof {
                                assert(!entries_in_memory(contents@)) by {
                                    if entries_in_memory(contents@) {
                                        assert(all_in_memory((contents@[i as int]).1));
                                    }
                                }
                            }
                            return Err(e);
                        },
                    }
                    i = i + 1;
                }
                proof {
                    assert(entries_in_memory(contents@));
                }
                Ok(())
            },
        }
    }

    /// Emits the dictionary: the trainer's seed from the reservoir samples,
    /// then the ranker's top chunks under the remaining budget, cut to the
    /// configured size. A corpus the trainer refuses as too small or too
    /// uniform gets an empty seed and the ranker's chunks alone. The result
    /// is exactly the clipped concatenation and never exceeds the
    /// configured dictionary size.
    pub fn build_dictionary(self) -> (r: Result<Vec<u8>, Error>)
        requires
            self.wf(),
        ensures
            r is Ok,
            r matches Ok(d) ==> d@.len() <= self.target(),
            r matches Ok(d) ==> exists|order: Seq<u64>|
                #[trigger] desc_enumeration(self.queued(), order) && d@ == clip(
                    seed_of(self.samples()) + clip(
                        self.concat_retained(order),
                        ranker_budget(self.target()),
                    ),
                    self.target() as nat,
                ),
    {
        let BuildSamples { chunk_builder, samples_builder, target_size } = self;
        let mut new_dict: Vec<u8> = match samples_builder.build_dictionary(SEED_TARGET) {
            Ok(d) => d,
            Err(_) => Vec::new(),
        };
        proof {
            assert(new_dict@ =~= seed_of(self.samples()));
        }
        let ghost seed = new_dict@;
        let budget: usize = if target_size > SEED_TARGET {
            target_size - SEED_TARGET
        } else {
            0
        };
        let ranked: Vec<u8> = chunk_builder.build_dictionary(budget);
        let ghost order = choose|order: Seq<u64>|
            #[trigger] desc_enumeration(chunk_builder.queued(), order) && ranked@ == clip(
                concat_payloads(chunk_builder, order),
                budget as nat,
            );
        proof {
            lemma_concat_retained_matches(self, order);
            assert(desc_enumeration(self.queued(), order));
            assert(ranked@ == clip(self.concat_retained(order), ranker_budget(self.target())));
        }
        crate::ranker::append_bytes(&mut new_dict, &ranked);
        new_dict.truncate(target_size);
        proof {
            assert(new_dict@ =~= clip(
                seed + clip(self.concat_retained(order), ranker_budget(self.target())),
                self.target() as nat,
            ));
        }
        Ok(new_dict)
    }
}

/// The miner's concatenation of retained payloads is the ranker's.
proof fn lemma_concat_retained_matches(m: BuildSamples, order: Seq<u64>)
    ensures
        m.concat_retained(order) == concat_payloads(m.chunk_builder, order),
    decreases order.len(),
{
    if order.len() > 0 {
        lemma_concat_retained_matches(m, order.drop_last());
    }
}

} // verus!
