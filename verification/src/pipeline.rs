use vstd::prelude::*;
use crate::one_or_many::OneOrMany;

verus! {

/// The flattened unit of work: one fragment tagged with the positional
/// identifier of the document it came from.
#[derive(Debug)]
pub struct WorkUnit {
    /// Position of the owning document in the builder's document list.
    pub doc_id: usize,
    /// The fragment to embed.
    pub fragment: String,
}

/// The fragments of one document, each tagged with that document's id.
pub open spec fn tag_fragments(frags: Seq<String>, id: usize) -> Seq<WorkUnit> {
    Seq::new(frags.len(), |k: int| WorkUnit { doc_id: id, fragment: frags[k] })
}

/// The flattened work list of a document list: for each document in list
/// order, its fragments tagged with the document's position.
pub open spec fn flatten_spec<D>(docs: Seq<(D, OneOrMany<String>)>) -> Seq<WorkUnit>
    decreases docs.len(),
{
    if docs.len() == 0 {
        Seq::empty()
    } else {
        flatten_spec(docs.drop_last()) + tag_fragments(docs.last().1@, (docs.len() - 1) as usize)
    }
}

/// The fragments that the units tagged `id` carry, in list order.
pub open spec fn fragments_for(units: Seq<WorkUnit>, id: usize) -> Seq<String>
    decreases units.len(),
{
    if units.len() == 0 {
        Seq::empty()
    } else {
        let head = if units[0].doc_id == id {
            seq![units[0].fragment]
        } else {
            Seq::<String>::empty()
        };
        head + fragments_for(units.drop_first(), id)
    }
}

/// `fragments_for` distributes over concatenation of work lists.
pub proof fn lemma_fragments_for_concat(a: Seq<WorkUnit>, b: Seq<WorkUnit>, id: usize)
    ensures
        fragments_for(a + b, id) == fragments_for(a, id) + fragments_for(b, id),
    decreases a.len(),
{
    if a.len() == 0 {
        assert(a + b =~= b);
        assert(fragments_for(a, id) + fragments_for(b, id) =~= fragments_for(b, id));
    } else {
        assert((a + b).drop_first() =~= a.drop_first() + b);
        lemma_fragments_for_concat(a.drop_first(), b, id);
        assert(fragments_for(a + b, id) =~= fragments_for(a, id) + fragments_for(b, id));
    }
}

/// Tagged fragments answer for their own id with the whole fragment list,
/// and for any other id with nothing.
pub proof fn lemma_fragments_for_tag(frags: Seq<String>, tid: usize, id: usize)
    ensures
        fragments_for(tag_fragments(frags, tid), id) == if id == tid {
            frags
        } else {
            Seq::<String>::empty()
        },
    decreases frags.len(),
{
    let tagged = tag_fragments(frags, tid);
    if frags.len() == 0 {
        assert(fragments_for(tagged, id) =~= Seq::<String>::empty());
    } else {
        lemma_fragments_for_tag(frags.drop_first(), tid, id);
        assert(tagged.drop_first() =~= tag_fragments(frags.drop_first(), tid));
        if id == tid {
            assert(fragments_for(tagged, id) =~= frags);
        } else {
            assert(fragments_for(tagged, id) =~= Seq::<String>::empty());
        }
    }
}

/// In the flattened work list of a document list, the units tagged with a
/// document's position carry exactly that document's fragments, in order;
/// ids past the list carry nothing.
pub proof fn lemma_flatten_spec_per_id<D>(docs: Seq<(D, OneOrMany<String>)>, id: usize)
    requires
        docs.len() <= usize::MAX,
    ensures
        id < docs.len() ==> fragments_for(flatten_spec(docs), id) == docs[id as int].1@,
        id >= docs.len() ==> fragments_for(flatten_spec(docs), id) == Seq::<String>::empty(),
    decreases docs.len(),
{
    if docs.len() == 0 {
    } else {
        let tid = (docs.len() - 1) as usize;
        lemma_flatten_spec_per_id(docs.drop_last(), id);
        lemma_fragments_for_concat(
            flatten_spec(docs.drop_last()),
            tag_fragments(docs.last().1@, tid),
            id,
        );
        lemma_fragments_for_tag(docs.last().1@, tid, id);
        if id < docs.len() {
            if id == tid {
                assert(fragments_for(flatten_spec(docs), id) =~= docs[id as int].1@);
            } else {
                assert(fragments_for(flatten_spec(docs), id) =~= docs[id as int].1@);
            }
        } else {
            assert(fragments_for(flatten_spec(docs), id) =~= Seq::<String>::empty());
        }
    }
}

/// Every unit of the flattened work list is tagged with a position inside
/// the document list.
pub proof fn lemma_flatten_spec_ids<D>(docs: Seq<(D, OneOrMany<String>)>)
    ensures
        forall|k: int|
            0 <= k < flatten_spec(docs).len() ==> (#[trigger] flatten_spec(docs)[k]).doc_id
                < docs.len(),
    decreases docs.len(),
{
    if docs.len() > 0 {
        lemma_flatten_spec_ids(docs.drop_last());
        let pre = flatten_spec(docs.drop_last());
        let tg = tag_fragments(docs.last().1@, (docs.len() - 1) as usize);
        assert forall|k: int|
            0 <= k < flatten_spec(docs).len() implies (#[trigger] flatten_spec(docs)[k]).doc_id
            < docs.len() by {
            if k < pre.len() {
                assert(flatten_spec(docs)[k] == pre[k]);
            } else {
                assert(flatten_spec(docs)[k] == tg[k - pre.len()]);
            }
        }
    }
}

/// Flatten a document list into its ordered work list.
pub fn flatten<D>(documents: &Vec<(D, OneOrMany<String>)>) -> (r: Vec<WorkUnit>)
    ensures
        r@ == flatten_spec(documents@),
{
    let mut out: Vec<WorkUnit> = Vec::new();
    let n = documents.len();
    let mut i: usize = 0;
    while i < n
        invariant
            n == documents@.len(),
            i <= n,
            out@ == flatten_spec(documents@.take(i as int)),
        decreases n - i,
    {
        let frags = &documents[i].1;
        let m = frags.len();
        let mut j: usize = 0;
        while j < m
            invariant
                n == documents@.len(),
                i < n,
                m == frags@.len(),
                frags == &documents@[i as int].1,
                j <= m,
                out@ == flatten_spec(documents@.take(i as int)) + tag_fragments(
                    frags@.take(j as int),
                    i,
                ),
            decreases m - j,
        {
            let fragment = frags.get(j).clone();
            out.push(WorkUnit { doc_id: i, fragment });
            proof {
                assert(tag_fragments(frags@.take(j + 1), i) =~= tag_fragments(
                    frags@.take(j as int),
                    i,
                ).push(WorkUnit { doc_id: i, fragment: frags@[j as int] }));
                assert(out@ =~= flatten_spec(documents@.take(i as int)) + tag_fragments(
                    frags@.take(j + 1),
                    i,
                ));
            }
            j = j + 1;
        }
        proof {
            assert(frags@.take(m as int) =~= documents@[i as int].1@);
            assert(documents@.take(i + 1).drop_last() =~= documents@.take(i as int));
            assert(documents@.take(i + 1).last() == documents@[i as int]);
            assert(out@ =~= flatten_spec(documents@.take(i + 1)));
        }
        i = i + 1;
    }
    proof {
        assert(documents@.take(n as int) =~= documents@);
    }
    out
}

/// The fragments a batch of work units carries, in batch order: what one
/// embedding call is handed.
pub fn fragments_of(units: &Vec<WorkUnit>) -> (r: Vec<String>)
    ensures
        r@.len() == units@.len(),
        forall|k: int| 0 <= k < units@.len() ==> r@[k] == (#[trigger] units@[k]).fragment,
{
    let mut out: Vec<String> = Vec::new();
    let n = units.len();
    let mut j: usize = 0;
    while j < n
        invariant
            n == units@.len(),
            j <= n,
            out@.len() == j,
            forall|k: int| 0 <= k < j ==> out@[k] == (#[trigger] units@[k]).fragment,
        decreases n - j,
    {
        out.push(units[j].fragment.clone());
        j = j + 1;
    }
    out
}

/// Join the aggregated per-document slots back onto the documents: emit one
/// `(document, embeddings)` pair per document, in document-list order.
pub fn pair<D>(
    documents: Vec<(D, OneOrMany<String>)>,
    slots: Vec<Vec<crate::embedding::Embedding>>,
) -> (r: Vec<(D, OneOrMany<crate::embedding::Embedding>)>)
    requires
        slots@.len() == documents@.len(),
        forall|i: int| 0 <= i < slots@.len() ==> (#[trigger] slots@[i])@.len() >= 1,
    ensures
        r@.len() == documents@.len(),
        forall|i: int|
            0 <= i < r@.len() ==> (#[trigger] r@[i]).0 == documents@[i].0 && r@[i].1@ == slots@[
                i
            ]@,
{
    let ghost docs0 = documents@;
    let ghost slots0 = slots@;
    let mut docs = documents;
    let mut sl = slots;
    let mut out: Vec<(D, OneOrMany<crate::embedding::Embedding>)> = Vec::new();
    while docs.len() > 0
        invariant
            slots0.len() == docs0.len(),
            forall|i: int| 0 <= i < slots0.len() ==> (#[trigger] slots0[i])@.len() >= 1,
            out@.len() <= docs0.len(),
            docs@ == docs0.skip(out@.len() as int),
            sl@ == slots0.skip(out@.len() as int),
            forall|i: int|
                0 <= i < out@.len() ==> (#[trigger] out@[i]).0 == docs0[i].0 && out@[i].1@
                    == slots0[i]@,
        decreases docs@.len(),
    {
        let ghost done = out@.len() as int;
        let d = docs.remove(0);
        let s = sl.remove(0);
        proof {
            assert(docs0.skip(done)[0] == docs0[done]);
            assert(slots0.skip(done)[0] == slots0[done]);
            assert(docs0.skip(done).remove(0) =~= docs0.skip(done + 1));
            assert(slots0.skip(done).remove(0) =~= slots0.skip(done + 1));
        }
        match OneOrMany::many(s) {
            Ok(o) => {
                out.push((d.0, o));
            },
            Err(_) => {
                proof {
                    assert(false);
                }
            },
        }
    }
    proof {
        assert(out@.len() == docs0.len());
    }
    out
}

} // verus!
