//! The concurrent embedding pipeline, as a verified state machine.
//!
//! The pipeline owes its caller an ordered list of `(chunk text, vector)`
//! pairs for a document.  A cached document is served as-is: no chunking
//! and no provider calls.  Otherwise [`start`] chunks the text and hands
//! back an [`EmbeddingRun`], which the surrounding driver advances by
//! events: it asks for work with [`EmbeddingRun::next_request`], performs
//! each embedding call (in any order, concurrently), and reports every
//! outcome back.  The run enforces the concurrency cap -- never more than
//! `max_concurrent` requests outstanding -- and the fail-fast policy: after
//! the first reported failure no further work is handed out.  Results are
//! keyed by chunk index, so completion order never matters.
//!
//! [`EmbeddingRun::finish`] settles the run against the store: on full
//! success it writes the whole batch and returns the pairs in chunk-index
//! order; on failure it returns the first error and writes nothing at all,
//! so the store never holds a partial document.

use vstd::prelude::*;

use crate::cache::MemoryCache;
use crate::chunk::{chunk_text, spec_chunk_text};
use crate::client::EmbedError;
use crate::rank::{chunks_wf, ChunkEmbedding};
use crate::vector::{vec_wf, Embedding};

verus! {

/// The pipeline's tuning: chunking bound and concurrency cap.
pub struct PipelineConfig {
    /// Largest chunk handed to the embedding provider, in characters;
    /// chosen below the provider's payload ceiling with a safety margin.
    pub max_chunk_chars: usize,
    /// Most embedding calls allowed in flight at once; a fixed pool, not
    /// per-document scaling.
    pub max_concurrent: usize,
}

impl PipelineConfig {
    pub open spec fn wf(&self) -> bool {
        self.max_chunk_chars >= 1 && self.max_concurrent >= 1
    }

    /// Accepts a configuration if and only if both bounds are positive.
    pub fn new(max_chunk_chars: usize, max_concurrent: usize) -> (r: Option<PipelineConfig>)
        ensures
            r is Some <==> (max_chunk_chars >= 1 && max_concurrent >= 1),
            r matches Some(c) ==> c.max_chunk_chars == max_chunk_chars && c.max_concurrent
                == max_concurrent && c.wf(),
    {
        if max_chunk_chars >= 1 && max_concurrent >= 1 {
            Some(PipelineConfig { max_chunk_chars, max_concurrent })
        } else {
            None
        }
    }
}

/// The first embedding failure of a run: which chunk, and why.
#[derive(Debug)]
pub struct ChunkFailure {
    pub chunk_index: usize,
    pub error: EmbedError,
}

/// Why a pipeline run failed as a whole.
#[derive(Debug)]
pub enum PipelineError {
    /// A chunk's embedding call failed; the run was aborted fail-fast.
    Embed { chunk_index: usize, error: EmbedError },
    /// The store could not be read.  The in-memory store never raises
    /// this; a persistent store behind the same contract reports through
    /// it, and the request is aborted.
    CacheRead { detail: String },
    /// The store could not be written; the request is aborted.
    CacheWrite { detail: String },
}

enum SlotState {
    Waiting,
    InFlight,
    Done(Embedding),
    Failed,
}

spec fn count_in_flight(s: Seq<SlotState>) -> int
    decreases s.len(),
{
    if s.len() == 0 {
        0
    } else {
        count_in_flight(s.drop_last()) + if s.last() is InFlight {
            1int
        } else {
            0int
        }
    }
}

proof fn lemma_count_nonneg(s: Seq<SlotState>)
    ensures
        count_in_flight(s) >= 0,
    decreases s.len(),
{
    if s.len() > 0 {
        lemma_count_nonneg(s.drop_last());
    }
}

proof fn lemma_count_zero(s: Seq<SlotState>)
    requires
        count_in_flight(s) == 0,
    ensures
        forall|i: int| 0 <= i < s.len() ==> !((#[trigger] s[i]) is InFlight),
    decreases s.len(),
{
    if s.len() > 0 {
        let d = s.drop_last();
        lemma_count_nonneg(d);
        lemma_count_zero(d);
        assert(forall|i: int| 0 <= i < d.len() ==> d[i] == s[i]);
    }
}

proof fn lemma_count_update(s: Seq<SlotState>, i: int, v: SlotState)
    requires
        0 <= i < s.len(),
    ensures
        count_in_flight(s.update(i, v)) == count_in_flight(s) - (if s[i] is InFlight {
            1int
        } else {
            0int
        }) + (if v is InFlight {
            1int
        } else {
            0int
        }),
    decreases s.len(),
{
    let t = s.update(i, v);
    if i == s.len() - 1 {
        assert(t.drop_last() =~= s.drop_last());
        assert(t.last() == v);
        assert(s.last() == s[i]);
    } else {
        assert(t.drop_last() =~= s.drop_last().update(i, v));
        lemma_count_update(s.drop_last(), i, v);
        assert(t.last() == s.last());
        assert(s.drop_last()[i] == s[i]);
    }
}

/// One document's embedding work in progress.  Advanced purely by events;
/// performs no call itself.
pub struct EmbeddingRun {
    identity: String,
    chunks: Vec<String>,
    slots: Vec<SlotState>,
    next_index: usize,
    in_flight: usize,
    failure: Option<ChunkFailure>,
    max_concurrent: usize,
}

impl EmbeddingRun {
    /// The run's invariant: slots mirror chunks; exactly the slots before
    /// the dispatch frontier have been handed out; the in-flight counter
    /// counts the outstanding slots and respects the cap; a failed slot
    /// exists exactly when a first failure is recorded; every completed
    /// vector is within the library's bounds.
    pub closed spec fn inv(&self) -> bool {
        &&& self.slots@.len() == self.chunks@.len()
        &&& self.next_index <= self.slots@.len()
        &&& forall|i: int|
            self.next_index <= i < self.slots@.len() ==> (#[trigger] self.slots@[i]) is Waiting
        &&& forall|i: int| 0 <= i < self.next_index ==> !((#[trigger] self.slots@[i]) is Waiting)
        &&& self.in_flight as int == count_in_flight(self.slots@)
        &&& self.in_flight <= self.max_concurrent
        &&& self.max_concurrent >= 1
        &&& (self.failure is None ==> forall|i: int|
            0 <= i < self.slots@.len() ==> !((#[trigger] self.slots@[i]) is Failed))
        &&& (self.failure matches Some(f) ==> f.chunk_index < self.slots@.len()
            && self.slots@[f.chunk_index as int] is Failed)
        &&& forall|i: int|
            0 <= i < self.slots@.len() ==> ((#[trigger] self.slots@[i]) matches SlotState::Done(e)
                ==> vec_wf(e@))
    }

    /// The document identity the run belongs to.
    pub closed spec fn identity_view(&self) -> Seq<char> {
        self.identity@
    }

    /// The chunk texts, in document order.
    pub closed spec fn chunk_texts(&self) -> Seq<Seq<char>> {
        self.chunks.deep_view()
    }

    pub open spec fn chunk_count(&self) -> int {
        self.chunk_texts().len() as int
    }

    /// How many chunks have been handed out so far.
    pub closed spec fn dispatched(&self) -> int {
        self.next_index as int
    }

    /// How many embedding calls are outstanding right now.
    pub closed spec fn in_flight_count(&self) -> int {
        self.in_flight as int
    }

    /// The concurrency cap the run was started with.
    pub closed spec fn max_in_flight(&self) -> int {
        self.max_concurrent as int
    }

    /// Whether some chunk's embedding has been reported failed.
    pub closed spec fn has_failed(&self) -> bool {
        self.failure is Some
    }

    /// The first failure reported, kept for the caller.
    pub closed spec fn first_failure(&self) -> ChunkFailure
        recommends
            self.has_failed(),
    {
        self.failure.unwrap()
    }

    /// The vector reported for chunk `i`, if any yet.
    pub closed spec fn result_at(&self, i: int) -> Option<Seq<i64>> {
        if 0 <= i < self.slots@.len() {
            match self.slots@[i] {
                SlotState::Done(e) => Some(e@),
                _ => None,
            }
        } else {
            None
        }
    }

    /// Whether chunk `i` is outstanding: handed out, not yet reported.
    pub closed spec fn slot_in_flight(&self, i: int) -> bool {
        0 <= i < self.slots@.len() && self.slots@[i] is InFlight
    }

    /// A run is settled when nothing is outstanding and either a failure
    /// was recorded or every chunk has been handed out.
    pub open spec fn settled(&self) -> bool {
        self.in_flight_count() == 0 && (self.has_failed() || self.dispatched()
            == self.chunk_count())
    }

    /// Hands out the next chunk to embed, keyed by its index, unless the
    /// run has failed (fail-fast), every chunk is already out, or the
    /// concurrency cap is reached.
    pub fn next_request(&mut self) -> (r: Option<(usize, String)>)
        requires
            old(self).inv(),
        ensures
            final(self).inv(),
            final(self).identity_view() == old(self).identity_view(),
            final(self).chunk_texts() == old(self).chunk_texts(),
            final(self).max_in_flight() == old(self).max_in_flight(),
            final(self).has_failed() == old(self).has_failed(),
            final(self).failure_model() == old(self).failure_model(),
            forall|i: int| final(self).result_at(i) == old(self).result_at(i),
            r is Some <==> (!old(self).has_failed() && old(self).dispatched()
                < old(self).chunk_count() && old(self).in_flight_count()
                < old(self).max_in_flight()),
            r matches Some(p) ==> p.0 as int == old(self).dispatched()
                && p.1@ == old(self).chunk_texts()[p.0 as int]
                && final(self).dispatched() == old(self).dispatched() + 1
                && final(self).in_flight_count() == old(self).in_flight_count() + 1
                && final(self).slot_in_flight(p.0 as int),
            r is None ==> *final(self) == *old(self),
    {
        if self.failure.is_some() {
            return None;
        }
        if self.next_index >= self.chunks.len() {
            return None;
        }
        if self.in_flight >= self.max_concurrent {
            return None;
        }
        let i = self.next_index;
        let text = self.chunks[i].clone();
        proof {
            lemma_count_update(self.slots@, i as int, SlotState::InFlight);
            assert(self.chunks.deep_view()[i as int] == self.chunks@[i as int]@);
        }
        self.slots.set(i, SlotState::InFlight);
        self.next_index = i + 1;
        self.in_flight = self.in_flight + 1;
        Some((i, text))
    }

    /// The recorded first failure, or nothing: the part of the state that
    /// reporting success never changes.
    pub closed spec fn failure_model(&self) -> Option<ChunkFailure> {
        self.failure
    }

    /// Records a successful embedding for an outstanding chunk.  A report
    /// for a chunk that is not outstanding is ignored and the run is
    /// unchanged.
    pub fn report_success(&mut self, chunk_index: usize, vector: Embedding) -> (r: bool)
        requires
            old(self).inv(),
            vector.wf(),
        ensures
            final(self).inv(),
            final(self).identity_view() == old(self).identity_view(),
            final(self).chunk_texts() == old(self).chunk_texts(),
            final(self).max_in_flight() == old(self).max_in_flight(),
            final(self).dispatched() == old(self).dispatched(),
            final(self).has_failed() == old(self).has_failed(),
            final(self).failure_model() == old(self).failure_model(),
            r == old(self).slot_in_flight(chunk_index as int),
            r ==> final(self).result_at(chunk_index as int) == Some(vector@)
                && final(self).in_flight_count() == old(self).in_flight_count() - 1 && forall|
                i: int,
            |
                i != chunk_index as int ==> final(self).result_at(i) == old(self).result_at(i),
            !r ==> *final(self) == *old(self),
    {
        if chunk_index >= self.slots.len() {
            return false;
        }
        let outstanding = match &self.slots[chunk_index] {
            SlotState::InFlight => true,
            _ => false,
        };
        if !outstanding {
            return false;
        }
        proof {
            lemma_count_update(self.slots@, chunk_index as int, SlotState::Done(vector));
            lemma_count_nonneg(self.slots@.update(chunk_index as int, SlotState::Done(vector)));
        }
        self.slots.set(chunk_index, SlotState::Done(vector));
        self.in_flight = self.in_flight - 1;
        true
    }

    /// Records a failed embedding for an outstanding chunk.  The first
    /// failure is kept (its index and error surface from [`finish`]); any
    /// later ones only settle their slots.  A report for a chunk that is
    /// not outstanding is ignored.
    pub fn report_failure(&mut self, chunk_index: usize, error: EmbedError) -> (r: bool)
        requires
            old(self).inv(),
        ensures
            final(self).inv(),
            final(self).identity_view() == old(self).identity_view(),
            final(self).chunk_texts() == old(self).chunk_texts(),
            final(self).max_in_flight() == old(self).max_in_flight(),
            final(self).dispatched() == old(self).dispatched(),
            r == old(self).slot_in_flight(chunk_index as int),
            r ==> final(self).has_failed() && final(self).in_flight_count()
                == old(self).in_flight_count() - 1 && final(self).failure_model() == (
            if old(self).has_failed() {
                old(self).failure_model()
            } else {
                Some(ChunkFailure { chunk_index, error })
            }) && forall|i: int|
                i != chunk_index as int ==> final(self).result_at(i) == old(self).result_at(i),
            !r ==> *final(self) == *old(self),
    {
        if chunk_index >= self.slots.len() {
            return false;
        }
        let outstanding = match &self.slots[chunk_index] {
            SlotState::InFlight => true,
            _ => false,
        };
        if !outstanding {
            return false;
        }
        proof {
            lemma_count_update(self.slots@, chunk_index as int, SlotState::Failed);
            lemma_count_nonneg(self.slots@.update(chunk_index as int, SlotState::Failed));
        }
        self.slots.set(chunk_index, SlotState::Failed);
        self.in_flight = self.in_flight - 1;
        if self.failure.is_none() {
            self.failure = Some(ChunkFailure { chunk_index, error });
        }
        true
    }

    /// Whether the run is settled: nothing outstanding, and either failed
    /// or fully dispatched.
    pub fn is_settled(&self) -> (r: bool)
        requires
            self.inv(),
        ensures
            r == self.settled(),
    {
        self.in_flight == 0 && (self.failure.is_some() || self.next_index == self.chunks.len())
    }

    /// Settles the run against the store.  On full success the whole batch
    /// is persisted as a unit and the `(chunk text, vector)` pairs come
    /// back in chunk-index order.  On failure the first error is surfaced
    /// and the store is left exactly as it was: no partial batch is ever
    /// written.
    pub fn finish(self, cache: &mut MemoryCache) -> (r: Result<Vec<ChunkEmbedding>, PipelineError>)
        requires
            self.inv(),
            self.settled(),
            old(cache).inv(),
        ensures
            final(cache).inv(),
            self.has_failed() ==> (r matches Err(e) && (e matches PipelineError::Embed {
                chunk_index,
                error,
            } && chunk_index == self.first_failure().chunk_index && error
                == self.first_failure().error)) && final(cache)@ == old(cache)@,
            !self.has_failed() ==> (r matches Ok(v) && v.deep_view().len() == self.chunk_count()
                && (forall|i: int|
                0 <= i < self.chunk_count() ==> (#[trigger] v.deep_view()[i]).text
                    == self.chunk_texts()[i] && Some(v.deep_view()[i].vector) == self.result_at(
                    i,
                )) && chunks_wf(v.deep_view()) && final(cache)@ == old(cache)@.insert(
                self.identity_view(),
                v.deep_view(),
            )),
    {
        let EmbeddingRun { identity, chunks, slots, next_index: _, in_flight: _, failure, max_concurrent: _ } =
            self;
        match failure {
            Some(f) => Err(PipelineError::Embed { chunk_index: f.chunk_index, error: f.error }),
            None => {
                proof {
                    lemma_count_zero(slots@);
                }
                let mut out: Vec<ChunkEmbedding> = Vec::new();
                let mut i: usize = 0;
                while i < chunks.len()
                    invariant
                        0 <= i <= chunks@.len(),
                        chunks@.len() == slots@.len(),
                        forall|k: int| 0 <= k < slots@.len() ==> (#[trigger] slots@[k]) is Done,
                        forall|k: int|
                            0 <= k < slots@.len() ==> ((#[trigger] slots@[k]) matches
                                SlotState::Done(e) ==> vec_wf(e@)),
                        out.deep_view().len() == i as int,
                        forall|k: int|
                            0 <= k < i ==> (#[trigger] out.deep_view()[k]).text
                                == chunks.deep_view()[k],
                        forall|k: int|
                            0 <= k < i ==> (slots@[k] matches SlotState::Done(e) && (
                            #[trigger] out.deep_view()[k]).vector == e@),
                    decreases chunks@.len() - i,
                {
                    match &slots[i] {
                        SlotState::Done(e) => {
                            let ghost pre = out.deep_view();
                            let ce = ChunkEmbedding::new(chunks[i].clone(), e.clone_vector());
                            let ghost cv = ce@;
                            out.push(ce);
                            proof {
                                assert(out.deep_view() =~= pre.push(cv));
                                assert(chunks.deep_view()[i as int] == chunks@[i as int]@);
                            }
                        },
                        _ => {
                            // a settled, failure-free run has a completed
                            // vector in every slot
                            proof {
                                assert(false);
                            }
                            return vstd::pervasive::unreached();
                        },
                    }
                    i = i + 1;
                }
                proof {
                    assert(chunks_wf(out.deep_view()));
                }
                cache.put_batch(identity.as_str(), &out);
                Ok(out)
            },
        }
    }
}

/// How a retrieval run for one document begins.
pub enum PipelineStart {
    /// The store already holds the document's complete batch: it is served
    /// directly, with no chunking and no provider calls.
    Cached(Vec<ChunkEmbedding>),
    /// The document is new: its chunks await embedding.
    NeedsEmbedding(EmbeddingRun),
}

/// Starts a retrieval run for `identity`, given what the store holds for
/// it.  A cached batch is returned untouched; otherwise the text is
/// chunked under `config` and an idle run is handed back, with no call
/// made yet.
pub fn start(identity: &str, text: &str, cached: Option<Vec<ChunkEmbedding>>, config: &PipelineConfig)
    -> (r: PipelineStart)
    requires
        config.wf(),
    ensures
        cached matches Some(recs) ==> (r matches PipelineStart::Cached(out) && out == recs),
        cached is None ==> (r matches PipelineStart::NeedsEmbedding(run) && run.inv()
            && run.identity_view() == identity@ && run.chunk_texts() == spec_chunk_text(
            text@,
            config.max_chunk_chars as nat,
        ) && run.dispatched() == 0 && run.in_flight_count() == 0 && !run.has_failed()
            && run.max_in_flight() == config.max_concurrent as int),
{
    match cached {
        Some(recs) => PipelineStart::Cached(recs),
        None => {
            let chunks = chunk_text(text, config.max_chunk_chars);
            let mut slots: Vec<SlotState> = Vec::new();
            let mut i: usize = 0;
            proof {
                assert(count_in_flight(slots@) == 0);
            }
            while i < chunks.len()
                invariant
                    0 <= i <= chunks@.len(),
                    slots@.len() == i as int,
                    forall|k: int| 0 <= k < i ==> (#[trigger] slots@[k]) is Waiting,
                    count_in_flight(slots@) == 0,
                decreases chunks@.len() - i,
            {
                let ghost pre = slots@;
                slots.push(SlotState::Waiting);
                proof {
                    assert(slots@.drop_last() =~= pre);
                    assert(slots@.last() is Waiting);
                }
                i = i + 1;
            }
            PipelineStart::NeedsEmbedding(
                EmbeddingRun {
                    identity: identity.to_owned(),
                    chunks,
                    slots,
                    next_index: 0,
                    in_flight: 0,
                    failure: None,
                    max_concurrent: config.max_concurrent,
                },
            )
        },
    }
}

} // verus!
