use vstd::prelude::*;
use crate::chunk::seqs_of;
use crate::embedding::Embedding;
use crate::pipeline::WorkUnit;

verus! {

/// Pair each returned embedding with the document id of the work unit it
/// answers, positionally within the batch.
pub open spec fn retag(units: Seq<WorkUnit>, embs: Seq<Embedding>) -> Seq<(usize, Embedding)> {
    Seq::new(units.len(), |k: int| (units[k].doc_id, embs[k]))
}

/// Fold tagged embeddings into per-document slots: each pair appends its
/// embedding to the slot its id names. A pair whose id lies outside the
/// slots is dropped (the verified callers rule such pairs out).
pub open spec fn agg_spec(slots: Seq<Seq<Embedding>>, pairs: Seq<(usize, Embedding)>) -> Seq<
    Seq<Embedding>,
>
    decreases pairs.len(),
{
    if pairs.len() == 0 {
        slots
    } else {
        let id = pairs[0].0 as int;
        let stepped = if 0 <= id < slots.len() {
            slots.update(id, slots[id].push(pairs[0].1))
        } else {
            slots
        };
        agg_spec(stepped, pairs.drop_first())
    }
}

/// The embeddings that the pairs tagged `id` carry, in list order.
pub open spec fn embeddings_for(pairs: Seq<(usize, Embedding)>, id: usize) -> Seq<Embedding>
    decreases pairs.len(),
{
    if pairs.len() == 0 {
        Seq::empty()
    } else {
        let head = if pairs[0].0 == id {
            seq![pairs[0].1]
        } else {
            Seq::<Embedding>::empty()
        };
        head + embeddings_for(pairs.drop_first(), id)
    }
}

/// `embeddings_for` distributes over concatenation of pair lists.
pub proof fn lemma_embeddings_for_concat(
    a: Seq<(usize, Embedding)>,
    b: Seq<(usize, Embedding)>,
    id: usize,
)
    ensures
        embeddings_for(a + b, id) == embeddings_for(a, id) + embeddings_for(b, id),
    decreases a.len(),
{
    if a.len() == 0 {
        assert(a + b =~= b);
        assert(embeddings_for(a, id) + embeddings_for(b, id) =~= embeddings_for(b, id));
    } else {
        assert((a + b).drop_first() =~= a.drop_first() + b);
        lemma_embeddings_for_concat(a.drop_first(), b, id);
        assert(embeddings_for(a + b, id) =~= embeddings_for(a, id) + embeddings_for(b, id));
    }
}

/// Folding a single pair appends its embedding to the slot its id names.
pub proof fn lemma_agg_spec_singleton(slots: Seq<Seq<Embedding>>, p: (usize, Embedding))
    requires
        p.0 < slots.len(),
    ensures
        agg_spec(slots, seq![p]) == slots.update(p.0 as int, slots[p.0 as int].push(p.1)),
{
    reveal_with_fuel(agg_spec, 2);
    assert(seq![p].drop_first() =~= Seq::<(usize, Embedding)>::empty());
    assert(seq![p][0] == p);
}

/// Folding a concatenation of pair lists equals folding them one after the
/// other.
pub proof fn lemma_agg_spec_concat(
    slots: Seq<Seq<Embedding>>,
    a: Seq<(usize, Embedding)>,
    b: Seq<(usize, Embedding)>,
)
    ensures
        agg_spec(slots, a + b) == agg_spec(agg_spec(slots, a), b),
    decreases a.len(),
{
    if a.len() == 0 {
        assert(a + b =~= b);
    } else {
        assert((a + b).drop_first() =~= a.drop_first() + b);
        let id = a[0].0 as int;
        let stepped = if 0 <= id < slots.len() {
            slots.update(id, slots[id].push(a[0].1))
        } else {
            slots
        };
        lemma_agg_spec_concat(stepped, a.drop_first(), b);
    }
}

/// What the fold leaves in each slot: what was there before, followed by
/// exactly the embeddings tagged with that slot's id, in pair-list order.
pub proof fn lemma_agg_spec_per_id(slots: Seq<Seq<Embedding>>, pairs: Seq<(usize, Embedding)>)
    ensures
        agg_spec(slots, pairs).len() == slots.len(),
        forall|id: usize|
            id < slots.len() ==> #[trigger] agg_spec(slots, pairs)[id as int] == slots[id as int]
                + embeddings_for(pairs, id),
    decreases pairs.len(),
{
    if pairs.len() == 0 {
        assert forall|id: usize| id < slots.len() implies #[trigger] agg_spec(slots, pairs)[id as int] == slots[id as int] + embeddings_for(pairs, id) by {
            assert(slots[id as int] + Seq::<Embedding>::empty() =~= slots[id as int]);
        }
    } else {
        let p = pairs[0];
        let id0 = p.0 as int;
        let stepped = if 0 <= id0 < slots.len() {
            slots.update(id0, slots[id0].push(p.1))
        } else {
            slots
        };
        lemma_agg_spec_per_id(stepped, pairs.drop_first());
        assert forall|id: usize| id < slots.len() implies #[trigger] agg_spec(slots, pairs)[id as int] == slots[id as int] + embeddings_for(pairs, id) by {
            assert(agg_spec(slots, pairs)[id as int] == stepped[id as int] + embeddings_for(
                pairs.drop_first(),
                id,
            ));
            if id == p.0 {
                assert(stepped[id as int] =~= slots[id as int] + seq![p.1]);
                assert(slots[id as int] + seq![p.1] + embeddings_for(pairs.drop_first(), id)
                    =~= slots[id as int] + embeddings_for(pairs, id));
            } else {
                assert(stepped[id as int] == slots[id as int]);
                assert(slots[id as int] + embeddings_for(pairs.drop_first(), id) =~= slots[id as int] + embeddings_for(pairs, id));
            }
        }
    }
}

/// Aggregation does not depend on the order in which batches arrive: folding
/// two pair lists in either order leaves every slot with the same embeddings
/// (as a multiset; within one slot only their relative order may differ).
pub proof fn lemma_agg_order_independent(
    slots: Seq<Seq<Embedding>>,
    a: Seq<(usize, Embedding)>,
    b: Seq<(usize, Embedding)>,
)
    ensures
        agg_spec(slots, a + b).len() == agg_spec(slots, b + a).len(),
        forall|id: usize|
            id < slots.len() ==> (#[trigger] agg_spec(slots, a + b)[id as int]).to_multiset()
                == agg_spec(slots, b + a)[id as int].to_multiset(),
{
    lemma_agg_spec_per_id(slots, a + b);
    lemma_agg_spec_per_id(slots, b + a);
    assert forall|id: usize| id < slots.len() implies (#[trigger] agg_spec(slots, a + b)[id as int]).to_multiset() == agg_spec(slots, b + a)[id as int].to_multiset() by {
        lemma_embeddings_for_concat(a, b, id);
        lemma_embeddings_for_concat(b, a, id);
        let sl = slots[id as int];
        let ea = embeddings_for(a, id);
        let eb = embeddings_for(b, id);
        vstd::seq_lib::lemma_multiset_commutative(sl, ea + eb);
        vstd::seq_lib::lemma_multiset_commutative(sl, eb + ea);
        vstd::seq_lib::lemma_multiset_commutative(ea, eb);
        vstd::seq_lib::lemma_multiset_commutative(eb, ea);
        assert(ea.to_multiset().add(eb.to_multiset()) =~= eb.to_multiset().add(ea.to_multiset()));
    }
}

/// The per-document slots before any batch has been folded: one empty slot
/// per document.
pub open spec fn empty_slots(n: nat) -> Seq<Seq<Embedding>> {
    Seq::new(n, |i: int| Seq::<Embedding>::empty())
}

/// A pair list answers a work list positionally: same length, same ids, and
/// each embedding carries the fragment of its unit.
pub open spec fn mirrors(pairs: Seq<(usize, Embedding)>, units: Seq<WorkUnit>) -> bool {
    &&& pairs.len() == units.len()
    &&& forall|k: int|
        0 <= k < units.len() ==> (#[trigger] pairs[k]).0 == units[k].doc_id && pairs[k].1.document@
            == units[k].fragment@
}

/// When a pair list mirrors a work list, the embeddings attributed to an id
/// answer exactly that id's fragments, in order.
pub proof fn lemma_mirrors_per_id(pairs: Seq<(usize, Embedding)>, units: Seq<WorkUnit>, id: usize)
    requires
        mirrors(pairs, units),
    ensures
        embeddings_for(pairs, id).len() == crate::pipeline::fragments_for(units, id).len(),
        forall|k: int|
            0 <= k < embeddings_for(pairs, id).len() ==> (#[trigger] embeddings_for(pairs, id)[k]).document@
                == crate::pipeline::fragments_for(units, id)[k]@,
    decreases units.len(),
{
    let frs = crate::pipeline::fragments_for(units, id);
    let ems = embeddings_for(pairs, id);
    if units.len() == 0 {
    } else {
        assert(mirrors(pairs.drop_first(), units.drop_first()));
        lemma_mirrors_per_id(pairs.drop_first(), units.drop_first(), id);
        let frs1 = crate::pipeline::fragments_for(units.drop_first(), id);
        let ems1 = embeddings_for(pairs.drop_first(), id);
        if units[0].doc_id == id {
            assert(frs =~= seq![units[0].fragment] + frs1);
            assert(ems =~= seq![pairs[0].1] + ems1);
        } else {
            assert(frs =~= frs1);
            assert(ems =~= ems1);
        }
    }
}

/// Fold one batch's embeddings into the per-document slots: the embedding
/// at position `k` is appended to the slot of the unit at position `k`.
pub fn aggregate_batch(
    acc: &mut Vec<Vec<Embedding>>,
    units: &Vec<WorkUnit>,
    embeddings: Vec<Embedding>,
)
    requires
        embeddings@.len() == units@.len(),
        forall|k: int| 0 <= k < units@.len() ==> (#[trigger] units@[k]).doc_id < old(acc)@.len(),
    ensures
        seqs_of(final(acc)@) == agg_spec(seqs_of(old(acc)@), retag(units@, embeddings@)),
        final(acc)@.len() == old(acc)@.len(),
{
    let ghost pairs = retag(units@, embeddings@);
    let ghost slots0 = seqs_of(acc@);
    let mut embs = embeddings;
    let n = units.len();
    let mut j: usize = 0;
    while j < n
        invariant
            n == units@.len(),
            embeddings@.len() == n,
            j <= n,
            embs@ == embeddings@.skip(j as int),
            acc@.len() == old(acc)@.len(),
            pairs == retag(units@, embeddings@),
            slots0 == seqs_of(old(acc)@),
            forall|k: int| 0 <= k < units@.len() ==> (#[trigger] units@[k]).doc_id < acc@.len(),
            seqs_of(acc@) == agg_spec(slots0, pairs.take(j as int)),
        decreases n - j,
    {
        let e = embs.remove(0);
        let id = units[j].doc_id;
        let ghost before = seqs_of(acc@);
        acc[id].push(e);
        proof {
            assert(embeddings@.skip(j as int).remove(0) =~= embeddings@.skip(j + 1));
            assert(embeddings@.skip(j as int)[0] == embeddings@[j as int]);
            assert(seqs_of(acc@) =~= before.update(id as int, before[id as int].push(e)));
            assert(pairs.take(j + 1) =~= pairs.take(j as int) + seq![pairs[j as int]]);
            lemma_agg_spec_concat(slots0, pairs.take(j as int), seq![pairs[j as int]]);
            let p = pairs[j as int];
            assert(p.0 == units@[j as int].doc_id && p.1 == embeddings@[j as int]);
            assert(before.len() == acc@.len());
            assert(0 <= p.0 < before.len());
            lemma_agg_spec_singleton(before, p);
            assert(agg_spec(before, seq![p]) == seqs_of(acc@));
        }
        j = j + 1;
    }
    proof {
        assert(pairs.take(n as int) =~= pairs);
    }
}

} // verus!
