use vstd::prelude::*;
use crate::aggregate::{
    agg_spec, aggregate_batch, empty_slots, lemma_agg_spec_concat, lemma_agg_spec_per_id,
    lemma_mirrors_per_id, mirrors, retag,
};
use crate::chunk::{chunk, chunk_spec, lemma_chunk_spec_concat, lemma_flatten_elem, seqs_of};
use crate::embedding::{Embeddable, Embedding, EmbeddingError, EmbeddingModel};
use crate::one_or_many::OneOrMany;
use crate::pipeline::{flatten, flatten_spec, fragments_of, lemma_flatten_spec_ids,
    lemma_flatten_spec_per_id, pair, WorkUnit};

verus! {

/// Accumulates documents together with their extracted fragments and, on
/// `build`, turns them into one collection of embeddings per document
/// through the embedding model it was created with.
pub struct EmbeddingsBuilder<M: EmbeddingModel, D: Embeddable> {
    model: M,
    documents: Vec<(D, OneOrMany<String>)>,
}

/// `after` extends `before` by the first `j` of the objects `objs`, each
/// paired with a non-empty fragment list.
pub open spec fn extended_with<D>(
    before: Seq<(D, OneOrMany<String>)>,
    after: Seq<(D, OneOrMany<String>)>,
    objs: Seq<D>,
    j: int,
) -> bool {
    &&& after.len() == before.len() + j
    &&& after.take(before.len() as int) == before
    &&& forall|i: int|
        0 <= i < j ==> (#[trigger] after[before.len() + i]).0 == objs[i] && after[before.len()
            + i].1@.len() >= 1
}

impl<M: EmbeddingModel, D: Embeddable> EmbeddingsBuilder<M, D> {
    /// Every accumulated document owns at least one fragment.
    #[verifier::type_invariant]
    spec fn wf(&self) -> bool {
        forall|i: int|
            0 <= i < self.documents@.len() ==> (#[trigger] self.documents@[i]).1@.len() >= 1
    }

    /// The accumulated document list: each document with its fragments, in
    /// insertion order.
    pub closed spec fn docs(&self) -> Seq<(D, OneOrMany<String>)> {
        self.documents@
    }

    /// Create a builder with an empty document list over the given
    /// embedding model.
    pub fn new(model: M) -> (r: Self)
        ensures
            r.docs().len() == 0,
    {
        EmbeddingsBuilder { model, documents: Vec::new() }
    }

    /// Number of documents accumulated so far.
    pub fn len(&self) -> (n: usize)
        ensures
            n == self.docs().len(),
    {
        self.documents.len()
    }

    /// Add one document: extract its fragments and append the pair. On
    /// extraction failure the error is returned and the document list is
    /// left unchanged.
    pub fn document(&mut self, document: D) -> (r: Result<(), D::Error>)
        ensures
            r matches Ok(_) ==> {
                &&& final(self).docs().len() == old(self).docs().len() + 1
                &&& final(self).docs().drop_last() == old(self).docs()
                &&& final(self).docs().last().0 == document
                &&& final(self).docs().last().1@.len() >= 1
            },
            r matches Err(_) ==> final(self).docs() == old(self).docs(),
    {
        proof {
            use_type_invariant(&*self);
        }
        let targets = match document.embeddable() {
            Ok(t) => t,
            Err(e) => {
                return Err(e);
            },
        };
        proof {
            use_type_invariant(&targets);
            targets.lemma_non_empty();
        }
        let mut docs: Vec<(D, OneOrMany<String>)> = Vec::new();
        core::mem::swap(&mut docs, &mut self.documents);
        docs.push((document, targets));
        self.documents = docs;
        proof {
            assert(self.documents@.drop_last() =~= old(self).documents@);
        }
        Ok(())
    }

    /// Add many documents in order, stopping at the first extraction
    /// failure: documents added before the failing one remain in the
    /// builder, and the error is propagated.
    pub fn documents(&mut self, documents: Vec<D>) -> (r: Result<(), D::Error>)
        ensures
            r matches Ok(_) ==> extended_with(
                old(self).docs(),
                final(self).docs(),
                documents@,
                documents@.len() as int,
            ),
            r matches Err(_) ==> exists|j: int|
                0 <= j < documents@.len() && extended_with(
                    old(self).docs(),
                    final(self).docs(),
                    documents@,
                    j,
                ),
    {
        let ghost base = self.docs();
        let ghost objs0 = documents@;
        let mut objs = documents;
        let n = objs.len();
        let mut i: usize = 0;
        proof {
            assert(self.docs().take(base.len() as int) =~= base);
        }
        while i < n
            invariant
                n == objs0.len(),
                i <= n,
                objs0 == documents@,
                objs@ == objs0.skip(i as int),
                base == old(self).docs(),
                extended_with(base, self.docs(), objs0, i as int),
            decreases n - i,
        {
            let ghost before = self.docs();
            let d = objs.remove(0);
            proof {
                assert(objs0.skip(i as int)[0] == objs0[i as int]);
                assert(objs0.skip(i as int).remove(0) =~= objs0.skip(i + 1));
            }
            match self.document(d) {
                Ok(_) => {},
                Err(e) => {
                    proof {
                        assert(extended_with(base, self.docs(), objs0, i as int));
                    }
                    return Err(e);
                },
            }
            proof {
                assert(self.docs().drop_last() == before);
                assert(self.docs().take(base.len() as int) =~= before.take(base.len() as int));
                assert forall|i2: int| 0 <= i2 < i + 1 implies (#[trigger] self.docs()[base.len()
                    + i2]).0 == objs0[i2] && self.docs()[base.len() + i2].1@.len() >= 1 by {
                    if i2 < i {
                        assert(self.docs()[base.len() + i2] == before[base.len() + i2]);
                    } else {
                        assert(self.docs()[base.len() + i2] == self.docs().last());
                    }
                }
            }
            i = i + 1;
        }
        Ok(())
    }

    /// Run the pipeline over a snapshot of the accumulated document list:
    /// flatten the fragments into tagged work units, batch them within the
    /// model's limit, embed every batch, fold the results back by document
    /// id, and join them onto the documents. All-or-nothing: on the first
    /// failing batch call that error is the sole outcome; on success every
    /// document is paired with exactly one embedding per fragment, each
    /// computed from the matching fragment, in fragment order.
    pub fn build(self) -> (r: Result<Vec<(D, OneOrMany<Embedding>)>, EmbeddingError>)
        ensures
            r matches Ok(out) ==> {
                &&& out@.len() == self.docs().len()
                &&& forall|i: int|
                    0 <= i < out@.len() ==> (#[trigger] out@[i]).0 == self.docs()[i].0 && out@[
                        i
                    ].1@.len() == self.docs()[i].1@.len()
                &&& forall|i: int, k: int|
                    0 <= i < out@.len() && 0 <= k < out@[i].1@.len() ==> (#[trigger] out@[
                        i
                    ].1@[k]).document@ == self.docs()[i].1@[k]@
            },
            self.docs().len() == 0 ==> (r matches Ok(out) && out@.len() == 0),
    {
        proof {
            use_type_invariant(&self);
        }
        let EmbeddingsBuilder { model, documents } = self;
        let ghost docs_s = documents@;
        let m0 = model.max_batch_size();
        let max_batch: usize = if m0 == 0 {
            1
        } else {
            m0
        };
        let work = flatten(&documents);
        let ghost work_s = work@;
        let n = documents.len();
        let mut slots: Vec<Vec<Embedding>> = Vec::new();
        while slots.len() < n
            invariant
                slots@.len() <= n,
                forall|i: int| 0 <= i < slots@.len() ==> (#[trigger] slots@[i])@.len() == 0,
            decreases n - slots@.len(),
        {
            slots.push(Vec::new());
        }
        proof {
            assert(seqs_of(slots@) =~~= empty_slots(n as nat));
            lemma_chunk_spec_concat(work_s, max_batch as int);
            lemma_flatten_spec_ids(docs_s);
        }
        let chunks = chunk(work, max_batch);
        let n_chunks = chunks.len();
        let mut ci: usize = 0;
        let ghost mut all_pairs: Seq<(usize, Embedding)> = Seq::empty();
        let ghost mut done_units: Seq<WorkUnit> = Seq::empty();
        while ci < n_chunks
            invariant
                n_chunks == chunks@.len(),
                ci <= n_chunks,
                n == docs_s.len(),
                docs_s == self.docs(),
                slots@.len() == n,
                max_batch >= 1,
                work_s == flatten_spec(docs_s),
                seqs_of(chunks@) == chunk_spec(work_s, max_batch as int),
                seqs_of(chunks@).flatten() == work_s,
                forall|k: int| 0 <= k < work_s.len() ==> (#[trigger] work_s[k]).doc_id < n,
                done_units == seqs_of(chunks@).take(ci as int).flatten(),
                mirrors(all_pairs, done_units),
                seqs_of(slots@) == agg_spec(empty_slots(n as nat), all_pairs),
            decreases n_chunks - ci,
        {
            let batch = &chunks[ci];
            let frags = fragments_of(batch);
            match model.embed_batch(frags) {
                Err(e) => {
                    proof {
                        if n == 0 {
                            assert(work_s =~= Seq::<WorkUnit>::empty());
                            assert(chunk_spec(work_s, max_batch as int) =~= Seq::<
                                Seq<WorkUnit>,
                            >::empty());
                        }
                    }
                    return Err(e);
                },
                Ok(embeddings) => {
                    proof {
                        assert forall|k: int|
                            0 <= k < batch@.len() implies (#[trigger] batch@[k]).doc_id
                            < slots@.len() by {
                            assert(seqs_of(chunks@)[ci as int] == batch@);
                            lemma_flatten_elem(seqs_of(chunks@), ci as int, k);
                        }
                    }
                    let ghost new_pairs = retag(batch@, embeddings@);
                    aggregate_batch(&mut slots, batch, embeddings);
                    proof {
                        lemma_agg_spec_concat(empty_slots(n as nat), all_pairs, new_pairs);
                        assert(mirrors(new_pairs, batch@));
                        assert(mirrors(all_pairs + new_pairs, done_units + batch@)) by {
                            assert forall|k: int|
                                0 <= k < (done_units + batch@).len() implies (#[trigger] (all_pairs
                                + new_pairs)[k]).0 == (done_units + batch@)[k].doc_id && (all_pairs
                                + new_pairs)[k].1.document@ == (done_units + batch@)[k].fragment@ by {
                                if k < done_units.len() {
                                    assert((all_pairs + new_pairs)[k] == all_pairs[k]);
                                    assert((done_units + batch@)[k] == done_units[k]);
                                } else {
                                    assert((all_pairs + new_pairs)[k] == new_pairs[k
                                        - done_units.len()]);
                                    assert((done_units + batch@)[k] == batch@[k
                                        - done_units.len()]);
                                }
                            }
                        }
                        all_pairs = all_pairs + new_pairs;
                        done_units = done_units + batch@;
                        assert(seqs_of(chunks@).take(ci + 1) =~= seqs_of(chunks@).take(
                            ci as int,
                        ).push(seqs_of(chunks@)[ci as int]));
                        seqs_of(chunks@).take(ci as int).lemma_flatten_push(batch@);
                        assert(done_units =~= seqs_of(chunks@).take(ci + 1).flatten());
                    }
                },
            }
            ci = ci + 1;
        }
        proof {
            assert(seqs_of(chunks@).take(n_chunks as int) =~= seqs_of(chunks@));
            assert(done_units == work_s);
            lemma_agg_spec_per_id(empty_slots(n as nat), all_pairs);
            assert forall|i: int|
                0 <= i < n implies (#[trigger] slots@[i])@.len() == docs_s[i].1@.len()
                && (forall|k: int|
                    0 <= k < slots@[i]@.len() ==> (#[trigger] slots@[i]@[k]).document@
                        == docs_s[i].1@[k]@) by {
                lemma_mirrors_per_id(all_pairs, work_s, i as usize);
                lemma_flatten_spec_per_id(docs_s, i as usize);
                assert(seqs_of(slots@)[i] == empty_slots(n as nat)[i] + crate::aggregate::embeddings_for(
                    all_pairs,
                    i as usize,
                ));
                assert(seqs_of(slots@)[i] =~= crate::aggregate::embeddings_for(
                    all_pairs,
                    i as usize,
                ));
            }
        }
        let out = pair(documents, slots);
        Ok(out)
    }
}

} // verus!
