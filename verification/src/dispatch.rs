use vstd::prelude::*;
use crate::aggregate::{agg_spec, aggregate_batch, empty_slots, retag};
use crate::chunk::seqs_of;
use crate::embedding::{Embedding, EmbeddingError};
use crate::one_or_many::OneOrMany;
use crate::pipeline::{fragments_of, pair, WorkUnit};

verus! {

/// How many batch calls may be in flight at once for a given batch-size
/// limit: max(1, 1024 / limit), a heuristic that caps total fan-out while
/// still parallelizing many small batches.
pub open spec fn concurrency_bound_spec(max_batch_size: int) -> int {
    let m = if max_batch_size <= 0 {
        1
    } else {
        max_batch_size
    };
    vstd::math::max(1int, 1024int / m)
}

/// Compute the concurrency bound; a reported limit of zero is read as one.
pub fn concurrency_bound(max_batch_size: usize) -> (c: usize)
    ensures
        c == concurrency_bound_spec(max_batch_size as int),
        c >= 1,
{
    let m: usize = if max_batch_size == 0 {
        1
    } else {
        max_batch_size
    };
    let c: usize = 1024 / m;
    if c == 0 {
        1
    } else {
        c
    }
}

/// Bounded-concurrency fan-out over a fixed list of batches, for a driver
/// that runs the batch calls itself (for instance asynchronously): the
/// driver asks for the next batch to start, reports each completion, and
/// the dispatcher keeps the number of outstanding calls within the bound,
/// folds results into per-document slots whatever order they arrive in,
/// and latches the first failure.
pub struct Dispatcher {
    chunks: Vec<Vec<WorkUnit>>,
    bound: usize,
    started: usize,
    in_flight: usize,
    slots: Vec<Vec<Embedding>>,
    failed: Option<EmbeddingError>,
}

impl Dispatcher {
    /// Outstanding calls never exceed the bound, and only started batches
    /// can be outstanding.
    #[verifier::type_invariant]
    spec fn wf(&self) -> bool {
        &&& self.bound >= 1
        &&& self.in_flight <= self.bound
        &&& self.in_flight <= self.started
        &&& self.started <= self.chunks@.len()
    }

    /// The batches handed over at creation, in submission order.
    pub closed spec fn batches(&self) -> Seq<Seq<WorkUnit>> {
        seqs_of(self.chunks@)
    }

    /// The concurrency bound fixed at creation.
    pub closed spec fn bound_spec(&self) -> int {
        self.bound as int
    }

    /// How many batches have been handed out to the driver so far.
    pub closed spec fn started_spec(&self) -> int {
        self.started as int
    }

    /// How many handed-out batches have not completed yet.
    pub closed spec fn in_flight_spec(&self) -> int {
        self.in_flight as int
    }

    /// The per-document slots folded so far.
    pub closed spec fn slot_views(&self) -> Seq<Seq<Embedding>> {
        seqs_of(self.slots@)
    }

    /// The first failure reported, if any.
    pub closed spec fn failure(&self) -> Option<EmbeddingError> {
        self.failed
    }

    /// Every unit of every batch names a document slot.
    pub open spec fn ids_in_range(&self) -> bool {
        forall|i: int, k: int|
            0 <= i < self.batches().len() && 0 <= k < self.batches()[i].len()
                ==> (#[trigger] self.batches()[i][k]).doc_id < self.slot_views().len()
    }

    /// Set up a dispatch over the given batches for `document_count`
    /// documents, with the bound derived from the model's batch-size limit.
    pub fn new(chunks: Vec<Vec<WorkUnit>>, document_count: usize, max_batch_size: usize) -> (r:
        Self)
        ensures
            r.batches() == seqs_of(chunks@),
            r.bound_spec() == concurrency_bound_spec(max_batch_size as int),
            r.started_spec() == 0,
            r.in_flight_spec() == 0,
            r.slot_views() == empty_slots(document_count as nat),
            r.failure() is None,
    {
        let bound = concurrency_bound(max_batch_size);
        let mut slots: Vec<Vec<Embedding>> = Vec::new();
        while slots.len() < document_count
            invariant
                slots@.len() <= document_count,
                forall|i: int| 0 <= i < slots@.len() ==> (#[trigger] slots@[i])@.len() == 0,
            decreases document_count - slots@.len(),
        {
            slots.push(Vec::new());
        }
        proof {
            assert(seqs_of(slots@) =~~= empty_slots(document_count as nat));
        }
        Dispatcher { chunks, bound, started: 0, in_flight: 0, slots, failed: None }
    }

    /// Outstanding calls at this instant; never above the bound.
    pub fn in_flight(&self) -> (r: usize)
        ensures
            r == self.in_flight_spec(),
            r <= self.bound_spec(),
    {
        proof {
            use_type_invariant(self);
        }
        self.in_flight
    }

    /// Hand out the next batch's fragments if a slot is free: nothing is
    /// started once a failure is latched, while the bound is reached, or
    /// when no batch remains. The started batch is `old(self).started_spec()`,
    /// and the outstanding count stays within the bound.
    pub fn try_start(&mut self) -> (r: Option<Vec<String>>)
        ensures
            final(self).batches() == old(self).batches(),
            final(self).bound_spec() == old(self).bound_spec(),
            final(self).slot_views() == old(self).slot_views(),
            final(self).failure() == old(self).failure(),
            final(self).in_flight_spec() <= final(self).bound_spec(),
            r matches Some(frags) ==> {
                &&& old(self).failure() is None
                &&& old(self).in_flight_spec() < old(self).bound_spec()
                &&& old(self).started_spec() < old(self).batches().len()
                &&& final(self).started_spec() == old(self).started_spec() + 1
                &&& final(self).in_flight_spec() == old(self).in_flight_spec() + 1
                &&& frags@.len() == old(self).batches()[old(self).started_spec()].len()
                &&& forall|k: int|
                    0 <= k < frags@.len() ==> frags@[k] == (#[trigger] old(self).batches()[old(
                        self,
                    ).started_spec()][k]).fragment
            },
            r is None ==> *final(self) == *old(self) && (old(self).failure() is Some || old(
                self,
            ).in_flight_spec() == old(self).bound_spec() || old(self).started_spec() == old(
                self,
            ).batches().len()),
    {
        proof {
            use_type_invariant(&*self);
        }
        if self.failed.is_some() {
            return None;
        }
        if self.in_flight >= self.bound {
            return None;
        }
        if self.started >= self.chunks.len() {
            return None;
        }
        let frags = fragments_of(&self.chunks[self.started]);
        self.started = self.started + 1;
        self.in_flight = self.in_flight + 1;
        Some(frags)
    }

    /// Fold a completed batch's embeddings into the slots, whatever order
    /// batches complete in: the embedding at position `k` is appended to
    /// the slot of the unit at position `k` of the named batch.
    pub fn complete_success(&mut self, batch: usize, embeddings: Vec<Embedding>)
        requires
            old(self).ids_in_range(),
            old(self).in_flight_spec() >= 1,
            batch < old(self).batches().len(),
            embeddings@.len() == old(self).batches()[batch as int].len(),
        ensures
            final(self).batches() == old(self).batches(),
            final(self).bound_spec() == old(self).bound_spec(),
            final(self).started_spec() == old(self).started_spec(),
            final(self).failure() == old(self).failure(),
            final(self).in_flight_spec() == old(self).in_flight_spec() - 1,
            final(self).slot_views() == agg_spec(
                old(self).slot_views(),
                retag(old(self).batches()[batch as int], embeddings@),
            ),
    {
        proof {
            use_type_invariant(&*self);
        }
        self.in_flight = self.in_flight - 1;
        let mut slots: Vec<Vec<Embedding>> = Vec::new();
        core::mem::swap(&mut slots, &mut self.slots);
        aggregate_batch(&mut slots, &self.chunks[batch], embeddings);
        self.slots = slots;
    }

    /// Record a failed batch call: the first failure is latched and later
    /// ones are discarded, as are any results still in flight.
    pub fn complete_failure(&mut self, error: EmbeddingError)
        requires
            old(self).in_flight_spec() >= 1,
        ensures
            final(self).batches() == old(self).batches(),
            final(self).bound_spec() == old(self).bound_spec(),
            final(self).started_spec() == old(self).started_spec(),
            final(self).slot_views() == old(self).slot_views(),
            final(self).in_flight_spec() == old(self).in_flight_spec() - 1,
            final(self).failure() is Some,
            old(self).failure() is None ==> final(self).failure() == Some(error),
            old(self).failure() is Some ==> final(self).failure() == old(self).failure(),
    {
        proof {
            use_type_invariant(&*self);
        }
        self.in_flight = self.in_flight - 1;
        if self.failed.is_none() {
            self.failed = Some(error);
        }
    }

    /// Whether the dispatch is over: a failure was observed, or every batch
    /// has been started and completed.
    pub fn is_done(&self) -> (r: bool)
        ensures
            r == (self.failure() is Some || (self.started_spec() == self.batches().len()
                && self.in_flight_spec() == 0)),
    {
        self.failed.is_some() || (self.started == self.chunks.len() && self.in_flight == 0)
    }

    /// Whether a failure has been latched.
    pub fn has_failed(&self) -> (r: bool)
        ensures
            r == (self.failure() is Some),
    {
        self.failed.is_some()
    }

    /// Whether every document slot has received at least one embedding.
    pub fn slots_filled(&self) -> (r: bool)
        ensures
            r == forall|i: int|
                0 <= i < self.slot_views().len() ==> (#[trigger] self.slot_views()[i]).len() >= 1,
    {
        let n = self.slots.len();
        let mut i: usize = 0;
        while i < n
            invariant
                n == self.slots@.len(),
                i <= n,
                forall|j: int| 0 <= j < i ==> (#[trigger] self.slot_views()[j]).len() >= 1,
        decreases n - i,
        {
            if self.slots[i].len() == 0 {
                proof {
                    assert(self.slot_views()[i as int] == self.slots@[i as int]@);
                }
                return false;
            }
            i = i + 1;
        }
        true
    }

    /// Close the dispatch: a latched failure is the sole outcome; otherwise
    /// every document is paired with its slot, in document-list order.
    pub fn finish<D>(self, documents: Vec<(D, OneOrMany<String>)>) -> (r: Result<
        Vec<(D, OneOrMany<Embedding>)>,
        EmbeddingError,
    >)
        requires
            documents@.len() == self.slot_views().len(),
            self.failure() is None ==> forall|i: int|
                0 <= i < self.slot_views().len() ==> (#[trigger] self.slot_views()[i]).len() >= 1,
        ensures
            self.failure() matches Some(e) ==> (r matches Err(e2) && e2 == e),
            self.failure() is None ==> (r matches Ok(out) && {
                &&& out@.len() == documents@.len()
                &&& forall|i: int|
                    0 <= i < out@.len() ==> (#[trigger] out@[i]).0 == documents@[i].0 && out@[
                        i
                    ].1@ == self.slot_views()[i]
            }),
    {
        let Dispatcher { slots, failed, .. } = self;
        proof {
            if failed is None {
                assert forall|i: int| 0 <= i < slots@.len() implies (#[trigger] slots@[i])@.len()
                    >= 1 by {
                    assert(self.slot_views()[i] == slots@[i]@);
                }
            }
        }
        match failed {
            Some(e) => Err(e),
            None => Ok(pair(documents, slots)),
        }
    }
}

} // verus!
