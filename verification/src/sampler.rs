//! The reservoir sampler: up to a fixed number of file prefixes, kept with
//! decaying probability as files stream past, and handed at the end to the
//! codec library's native dictionary trainer for a short seed dictionary.
use crate::errors::{Error, ErrorContents, ErrorKind};
use vstd::prelude::*;

verus! {

/// The streaming hash state of the outside hashing crate, opaque here; the
/// sampler uses it only as a pseudo-random source.
#[verifier::external_type_specification]
#[verifier::external_body]
pub struct ExStreamingXxh3(twox_hash::xxh3::Hash64);

/// Relies on twox_hash::xxh3::Hash64::with_seed: a fresh streaming hash
/// state.
#[verifier::external_body]
fn xxh3_stream_with_seed(seed: u64) -> twox_hash::xxh3::Hash64 {
    twox_hash::xxh3::Hash64::with_seed(seed)
}

/// Relies on std::hash::Hasher::write for twox_hash::xxh3::Hash64: feeds
/// bytes into the streaming state.
#[verifier::external_body]
fn xxh3_stream_write(h: &mut twox_hash::xxh3::Hash64, bytes: &[u8]) {
    std::hash::Hasher::write(h, bytes)
}

/// Relies on std::hash::Hasher::finish for twox_hash::xxh3::Hash64: the
/// hash of everything written so far. The sampler treats the value as
/// arbitrary, so nothing is assumed of it.
#[verifier::external_body]
fn xxh3_stream_finish(h: &twox_hash::xxh3::Hash64) -> u64 {
    std::hash::Hasher::finish(h)
}

/// What the codec library's trainer makes of the given samples under the
/// given size bound, a function of those alone: the dictionary bytes, or
/// nothing where the trainer refuses the sample set.
pub uninterp spec fn trained_dictionary(samples: Seq<Seq<u8>>, max_size: usize) -> Option<Seq<u8>>;

/// Relies on zstd::dict::from_samples: the trainer, including its refusal
/// of sample sets it considers too small or too uniform, is deterministic
/// in the samples and the bound, and writes into a buffer of at most
/// `max_size` bytes. A refusal is carried as a message.
#[verifier::external_body]
fn zstd_train(samples: &Vec<Vec<u8>>, max_size: usize) -> (r: Result<Vec<u8>, Error>)
    ensures
        r is Ok <==> trained_dictionary(samples.deep_view(), max_size) is Some,
        r matches Ok(d) ==> Some(d@) == trained_dictionary(samples.deep_view(), max_size)
            && d@.len() <= max_size,
        r matches Err(e) ==> e.0 is Kind,
{
    match zstd::dict::from_samples(samples, max_size) {
        Ok(d) => Ok(d),
        Err(e) => Err(Error(ErrorContents::Kind(ErrorKind::IoError(e.to_string())))),
    }
}

/// The prefix of a file that the reservoir stores: at most `max` bytes.
pub open spec fn sample_prefix(data: Seq<u8>, max: nat) -> Seq<u8> {
    if data.len() <= max {
        data
    } else {
        data.take(max as int)
    }
}

/// The reservoir sampler.
pub struct SamplesBuilder {
    samples: Vec<Vec<u8>>,
    hash: twox_hash::xxh3::Hash64,
    processed: usize,
    samples_count: usize,
    samples_max_size: usize,
}

impl SamplesBuilder {
    /// The stored samples.
    pub closed spec fn samples(self) -> Seq<Seq<u8>> {
        self.samples.deep_view()
    }

    /// How many files have been offered so far.
    pub closed spec fn processed(self) -> nat {
        self.processed as nat
    }

    /// The most samples the reservoir will hold.
    pub closed spec fn count_bound(self) -> nat {
        self.samples_count as nat
    }

    /// The longest prefix of a file the reservoir stores.
    pub closed spec fn size_bound(self) -> nat {
        self.samples_max_size as nat
    }

    /// The reservoir never exceeds its bounds: no more than `count_bound`
    /// samples, none longer than `size_bound`.
    pub closed spec fn wf(self) -> bool {
        &&& self.samples@.len() <= self.samples_count
        &&& forall|i: int|
            0 <= i < self.samples@.len() ==> (#[trigger] self.samples@[i])@.len()
                <= self.samples_max_size
    }

    /// A fresh reservoir for up to `samples_count` prefixes of at most
    /// `samples_max_size` bytes, with the pseudo-random source seeded
    /// fixedly.
    pub fn new(samples_count: usize, samples_max_size: usize) -> (r: SamplesBuilder)
        ensures
            r.wf(),
            r.samples() =~= Seq::<Seq<u8>>::empty(),
            r.processed() == 0,
            r.count_bound() == samples_count,
            r.size_bound() == samples_max_size,
    {
        SamplesBuilder {
            samples: Vec::new(),
            hash: xxh3_stream_with_seed(1234),
            processed: 0,
            samples_count,
            samples_max_size,
        }
    }

    /// Offers one file to the reservoir. Until the reservoir is full every
    /// file's prefix is stored; after that, the file either displaces one
    /// stored sample or leaves the reservoir unchanged, at the whim of the
    /// pseudo-random source.
    pub fn push_sample(&mut self, data: &[u8])
        requires
            old(self).wf(),
        ensures
            final(self).wf(),
            final(self).count_bound() == old(self).count_bound(),
            final(self).size_bound() == old(self).size_bound(),
            final(self).processed() == if old(self).processed() < usize::MAX {
                old(self).processed() + 1
            } else {
                old(self).processed()
            },
            ({
                let stored = sample_prefix(data@, old(self).size_bound());
                if old(self).samples().len() < old(self).count_bound() {
                    final(self).samples() == old(self).samples().push(stored)
                } else {
                    final(self).samples() == old(self).samples() || exists|i: int|
                        0 <= i < old(self).samples().len() && final(self).samples() == old(
                            self,
                        ).samples().update(i, stored)
                }
            }),
    {
        let probe_len: usize = if data.len() < 1024 {
            data.len()
        } else {
            1024
        };
        let probe: &[u8] = vstd::slice::slice_subrange(data, 0, probe_len);
        xxh3_stream_write(&mut self.hash, probe);
        let keep_len: usize = if data.len() < self.samples_max_size {
            data.len()
        } else {
            self.samples_max_size
        };
        if self.samples.len() < self.samples_count {
            let new_data: Vec<u8> = copy_prefix(data, keep_len);
            proof {
                assert(new_data@ =~= sample_prefix(data@, old(self).size_bound()));
            }
            let ghost pre = self.samples.deep_view();
            self.samples.push(new_data);
            proof {
                assert(self.samples.deep_view() =~~= pre.push(
                    sample_prefix(data@, old(self).size_bound()),
                ));
            }
        } else if self.processed > 0 && self.samples.len() > 0 {
            let draw: u64 = xxh3_stream_finish(&self.hash);
            if (draw as usize) % self.processed < self.samples_count {
                let new_data: Vec<u8> = copy_prefix(data, keep_len);
                let idx: usize = ((draw >> 32) as usize) % self.samples.len();
                let ghost pre = self.samples.deep_view();
                self.samples.set(idx, new_data);
                proof {
                    assert(self.samples.deep_view() =~~= pre.update(
                        idx as int,
                        sample_prefix(data@, old(self).size_bound()),
                    ));
                }
            }
        }
        if self.processed < usize::MAX {
            self.processed = self.processed + 1;
        }
    }

    /// Trains the seed dictionary from the stored samples: at most
    /// `max_size` bytes, a function of the samples alone. Succeeds exactly
    /// when the trainer accepts the sample set.
    pub fn build_dictionary(self, max_size: usize) -> (r: Result<Vec<u8>, Error>)
        ensures
            r is Ok <==> trained_dictionary(self.samples(), max_size) is Some,
            r matches Ok(d) ==> Some(d@) == trained_dictionary(self.samples(), max_size)
                && d@.len() <= max_size,
            r matches Err(e) ==> e.0 is Kind,
    {
        zstd_train(&self.samples, max_size)
    }
}

/// Copies the first `n` bytes of a buffer.
fn copy_prefix(data: &[u8], n: usize) -> (r: Vec<u8>)
    requires
        n <= data@.len(),
    ensures
        r@ == data@.take(n as int),
{
    let mut out: Vec<u8> = Vec::new();
    let mut i: usize = 0;
    while i < n
        invariant
            i <= n <= data@.len(),
            out@ == data@.take(i as int),
        decreases n - i,
    {
        let b: u8 = data[i];
        out.push(b);
        proof {
            assert(data@.take(i + 1) =~= data@.take(i as int) + seq![b]);
        }
        i = i + 1;
    }
    out
}

} // verus!
