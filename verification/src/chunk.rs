use vstd::prelude::*;

verus! {

/// The views of a vector of vectors.
pub open spec fn seqs_of<T>(vs: Seq<Vec<T>>) -> Seq<Seq<T>> {
    vs.map_values(|v: Vec<T>| v@)
}

/// Partition of a sequence into consecutive pieces of at most `m` elements:
/// full pieces, with only the last one possibly smaller.
pub open spec fn chunk_spec<T>(s: Seq<T>, m: int) -> Seq<Seq<T>>
    decreases s.len() when m >= 1
{
    if s.len() == 0 {
        Seq::empty()
    } else {
        let k = vstd::math::min(m, s.len() as int);
        seq![s.take(k)] + chunk_spec(s.skip(k), m)
    }
}

/// Chunking is a lossless partition: concatenating the chunks in order
/// gives back the chunked sequence exactly.
pub proof fn lemma_chunk_spec_concat<T>(s: Seq<T>, m: int)
    requires
        m >= 1,
    ensures
        chunk_spec(s, m).flatten() == s,
    decreases s.len(),
{
    if s.len() == 0 {
        assert(chunk_spec(s, m).flatten() =~= s);
    } else {
        let k = vstd::math::min(m, s.len() as int);
        let rest = chunk_spec(s.skip(k), m);
        lemma_chunk_spec_concat(s.skip(k), m);
        assert((seq![s.take(k)] + rest).drop_first() =~= rest);
        assert(chunk_spec(s, m).flatten() =~= s.take(k) + s.skip(k));
        assert(s.take(k) + s.skip(k) =~= s);
    }
}

/// Every chunk is sized within the limit and is never empty; every chunk
/// but the last is exactly at the limit.
pub proof fn lemma_chunk_spec_sizes<T>(s: Seq<T>, m: int)
    requires
        m >= 1,
    ensures
        forall|i: int|
            0 <= i < chunk_spec(s, m).len() ==> 1 <= (#[trigger] chunk_spec(s, m)[i]).len() <= m,
        forall|i: int|
            0 <= i < chunk_spec(s, m).len() - 1 ==> (#[trigger] chunk_spec(s, m)[i]).len() == m,
    decreases s.len(),
{
    if s.len() > 0 {
        let k = vstd::math::min(m, s.len() as int);
        let rest = chunk_spec(s.skip(k), m);
        lemma_chunk_spec_sizes(s.skip(k), m);
        assert forall|i: int|
            0 <= i < chunk_spec(s, m).len() implies 1 <= (#[trigger] chunk_spec(s, m)[i]).len()
            <= m by {
            if i > 0 {
                assert(chunk_spec(s, m)[i] == rest[i - 1]);
            }
        }
        assert forall|i: int|
            0 <= i < chunk_spec(s, m).len() - 1 implies (#[trigger] chunk_spec(s, m)[i]).len()
            == m by {
            if i > 0 {
                assert(chunk_spec(s, m)[i] == rest[i - 1]);
            } else {
                assert(s.skip(k).len() > 0);
            }
        }
    }
}

/// Every element of a piece of a partition stands somewhere in the
/// concatenation of the pieces.
pub proof fn lemma_flatten_elem<T>(ss: Seq<Seq<T>>, i: int, k: int)
    requires
        0 <= i < ss.len(),
        0 <= k < ss[i].len(),
    ensures
        exists|j: int|
            0 <= j < ss.flatten().len() && #[trigger] ss.flatten()[j] == ss[i][k],
    decreases ss.len(),
{
    if i == 0 {
        assert(ss.flatten()[k] == ss[0][k]);
    } else {
        lemma_flatten_elem(ss.drop_first(), i - 1, k);
        let j0 = choose|j: int|
            0 <= j < ss.drop_first().flatten().len() && #[trigger] ss.drop_first().flatten()[j]
                == ss.drop_first()[i - 1][k];
        assert(ss.flatten()[ss[0].len() + j0] == ss.drop_first().flatten()[j0]);
    }
}

/// Partition a list into consecutive batches of at most `max_size`
/// elements, preserving relative order; only the last batch may be smaller.
pub fn chunk<T>(items: Vec<T>, max_size: usize) -> (r: Vec<Vec<T>>)
    requires
        max_size >= 1,
    ensures
        seqs_of(r@) == chunk_spec(items@, max_size as int),
{
    let ghost orig = items@;
    let mut rest = items;
    let mut chunks: Vec<Vec<T>> = Vec::new();
    while rest.len() > 0
        invariant
            max_size >= 1,
            seqs_of(chunks@) + chunk_spec(rest@, max_size as int) == chunk_spec(
                orig,
                max_size as int,
            ),
        decreases rest@.len(),
    {
        let k = if max_size < rest.len() {
            max_size
        } else {
            rest.len()
        };
        let ghost before = rest@;
        let mut cur: Vec<T> = Vec::new();
        while cur.len() < k
            invariant
                k == vstd::math::min(max_size as int, before.len() as int),
                cur@.len() <= k,
                cur@ == before.take(cur@.len() as int),
                rest@ == before.skip(cur@.len() as int),
            decreases k - cur@.len(),
        {
            let ghost done = cur@.len() as int;
            let item = rest.remove(0);
            cur.push(item);
            proof {
                assert(before.skip(done)[0] == before[done]);
                assert(cur@ =~= before.take(done + 1));
                assert(before.skip(done).remove(0) =~= before.skip(done + 1));
            }
        }
        chunks.push(cur);
        proof {
            let m = max_size as int;
            assert(chunk_spec(before, m) == seq![before.take(k as int)] + chunk_spec(
                before.skip(k as int),
                m,
            ));
            assert(seqs_of(chunks@) =~= seqs_of(chunks@.drop_last()) + seq![before.take(k as int)]);
            assert(seqs_of(chunks@) + chunk_spec(rest@, m) =~= chunk_spec(orig, m));
        }
    }
    proof {
        assert(seqs_of(chunks@) + chunk_spec(rest@, max_size as int) =~= seqs_of(chunks@));
    }
    chunks
}

} // verus!
