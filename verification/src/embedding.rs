use vstd::prelude::*;
use crate::one_or_many::OneOrMany;

verus! {

/// One embedding: a vector together with the text fragment it was computed
/// from.
#[derive(Debug)]
pub struct Embedding {
    /// The source fragment the vector was computed from.
    pub document: String,
    /// The vector's components.
    pub vec: Vec<i64>,
}

/// Error reported when a batch call to the embedding capability fails.
/// `build` propagates it as its sole outcome: no partial result accompanies
/// it.
#[derive(Debug)]
pub struct EmbeddingError {
    /// What the embedding capability reported.
    pub message: String,
}

/// The extraction capability: a type that can yield the text fragments to
/// embed for one of its values. Implementors return at least one fragment
/// (`OneOrMany` cannot be empty) or their own extraction error.
pub trait Embeddable: Sized {
    /// The implementor's extraction error.
    type Error;

    /// Extract the embeddable fragments of `self`.
    fn embeddable(&self) -> Result<OneOrMany<String>, Self::Error>;
}

/// The embedding capability: turns a batch of fragments into one vector per
/// fragment, order-preserving, or fails with no partial results.
pub trait EmbeddingModel {
    /// The largest batch one call may carry, as the provider reports it.
    /// A reported limit of zero is normalized to one by the pipeline.
    fn max_batch_size(&self) -> usize;

    /// Embed one batch. On success the result holds exactly one embedding
    /// per fragment, positionally: the embedding at `k` was computed from
    /// the fragment at `k`. On failure nothing is returned.
    fn embed_batch(&self, fragments: Vec<String>) -> (r: Result<
        Vec<Embedding>,
        EmbeddingError,
    >)
        ensures
            (r matches Ok(embeddings) ==> {
                &&& embeddings@.len() == fragments@.len()
                &&& forall|k: int|
                    0 <= k < embeddings@.len() ==> embeddings@[k].document@ == fragments@[k]@
            }),
    ;
}

} // verus!
