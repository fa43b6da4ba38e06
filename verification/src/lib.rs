//! Verified core of an embeddings pipeline: a builder accumulates documents
//! together with their extracted text fragments, and turns them into
//! per-document collections of embeddings by flattening the fragments into
//! tagged work units, chunking them to the embedding model's batch-size
//! limit, dispatching the batches, and folding the results back onto the
//! documents they came from.

pub mod aggregate;
pub mod builder;
pub mod chunk;
pub mod dispatch;
pub mod embedding;
pub mod one_or_many;
pub mod pipeline;
