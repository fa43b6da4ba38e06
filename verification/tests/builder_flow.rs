use std::cell::RefCell;
use std::rc::Rc;

use rig_core::builder::EmbeddingsBuilder;
use rig_core::embedding::{Embeddable, Embedding, EmbeddingError, EmbeddingModel};
use rig_core::one_or_many::{EmptyListError, OneOrMany};

#[derive(Clone, Debug, PartialEq, Eq)]
struct Doc {
    name: String,
    fragments: Vec<String>,
}

impl Doc {
    fn new(name: &str, fragments: &[&str]) -> Doc {
        Doc {
            name: name.to_string(),
            fragments: fragments.iter().map(|f| f.to_string()).collect(),
        }
    }
}

impl Embeddable for Doc {
    type Error = EmptyListError;

    fn embeddable(&self) -> Result<OneOrMany<String>, EmptyListError> {
        OneOrMany::many(self.fragments.clone())
    }
}

/// A model that embeds every fragment as its length, and records each
/// batch's size in a log shared with the test.
struct MockModel {
    max: usize,
    batch_sizes: Rc<RefCell<Vec<usize>>>,
}

impl MockModel {
    fn new(max: usize) -> MockModel {
        MockModel {
            max,
            batch_sizes: Rc::new(RefCell::new(Vec::new())),
        }
    }

    fn log(&self) -> Rc<RefCell<Vec<usize>>> {
        Rc::clone(&self.batch_sizes)
    }
}

impl EmbeddingModel for MockModel {
    fn max_batch_size(&self) -> usize {
        self.max
    }

    fn embed_batch(&self, fragments: Vec<String>) -> Result<Vec<Embedding>, EmbeddingError> {
        self.batch_sizes.borrow_mut().push(fragments.len());
        Ok(fragments
            .into_iter()
            .map(|f| Embedding {
                vec: vec![f.len() as i64],
                document: f,
            })
            .collect())
    }
}

/// A model that fails on the `fail_at`-th call (counting from 1).
struct FailingModel {
    max: usize,
    fail_at: usize,
    calls: RefCell<usize>,
}

impl EmbeddingModel for FailingModel {
    fn max_batch_size(&self) -> usize {
        self.max
    }

    fn embed_batch(&self, fragments: Vec<String>) -> Result<Vec<Embedding>, EmbeddingError> {
        let mut calls = self.calls.borrow_mut();
        *calls += 1;
        if *calls == self.fail_at {
            return Err(EmbeddingError {
                message: "provider rejected the batch".to_string(),
            });
        }
        Ok(fragments
            .into_iter()
            .map(|f| Embedding {
                vec: vec![0],
                document: f,
            })
            .collect())
    }
}

fn fragment_texts(embeddings: &OneOrMany<Embedding>) -> Vec<String> {
    let mut out = Vec::new();
    for k in 0..embeddings.len() {
        out.push(embeddings.get(k).document.clone());
    }
    out
}

#[test]
fn three_documents_two_fragments_each() {
    // 3 documents x 2 fragments with a batch limit of 4: 6 work units,
    // batches of sizes [4, 2], 2 embedding calls, and 3 result entries with
    // exactly 2 embeddings each.
    let model = MockModel::new(4);
    let log = model.log();
    let mut builder = EmbeddingsBuilder::new(model);
    builder
        .documents(vec![
            Doc::new("flurbo", &["a green alien", "a fictional currency"]),
            Doc::new("glarb-glarb", &["an ancient tool", "a swamp creature"]),
            Doc::new("linglingdong", &["a word for humans", "a mystical instrument"]),
        ])
        .unwrap();
    assert_eq!(builder.len(), 3);

    let out = builder.build().unwrap();

    assert_eq!(out.len(), 3);
    assert_eq!(out[0].0.name, "flurbo");
    assert_eq!(out[1].0.name, "glarb-glarb");
    assert_eq!(out[2].0.name, "linglingdong");
    for (doc, embeddings) in &out {
        assert_eq!(embeddings.len(), 2);
        assert_eq!(fragment_texts(embeddings), doc.fragments);
    }
    // The embedding of each fragment came from that fragment.
    assert_eq!(out[0].1.get(0).vec, vec![13]);
    // 6 work units were batched as [4, 2]: two embedding calls.
    assert_eq!(*log.borrow(), vec![4, 2]);
}

#[test]
fn batch_sizes_respect_the_limit() {
    // With a limit of 2 and 5 fragments, every batch holds at most 2 and
    // only the final one is smaller.
    let model = MockModel::new(2);
    let log = model.log();
    let mut builder = EmbeddingsBuilder::new(model);
    builder
        .documents(vec![
            Doc::new("d0", &["f0", "f1", "f2"]),
            Doc::new("d1", &["f3", "f4"]),
        ])
        .unwrap();
    let out = builder.build().unwrap();
    assert_eq!(out.len(), 2);
    assert_eq!(*log.borrow(), vec![2, 2, 1]);
}

#[test]
fn attributes_one_embedding_per_fragment() {
    let model = MockModel::new(3);
    let mut builder = EmbeddingsBuilder::new(model);
    builder
        .document(Doc::new("one", &["only fragment"]))
        .unwrap();
    builder
        .document(Doc::new("many", &["first", "second", "third", "fourth"]))
        .unwrap();
    let out = builder.build().unwrap();
    assert_eq!(out.len(), 2);
    assert_eq!(out[0].1.len(), 1);
    assert_eq!(out[1].1.len(), 4);
    assert_eq!(
        fragment_texts(&out[1].1),
        vec!["first", "second", "third", "fourth"]
    );
}

#[test]
fn empty_builder_builds_empty_result() {
    let model = MockModel::new(8);
    let builder: EmbeddingsBuilder<MockModel, Doc> = EmbeddingsBuilder::new(model);
    let out = builder.build().unwrap();
    assert!(out.is_empty());
}

#[test]
fn failing_batch_call_fails_the_whole_build() {
    let model = FailingModel {
        max: 2,
        fail_at: 2,
        calls: RefCell::new(0),
    };
    let mut builder = EmbeddingsBuilder::new(model);
    builder
        .documents(vec![
            Doc::new("d0", &["f0", "f1"]),
            Doc::new("d1", &["f2", "f3"]),
        ])
        .unwrap();
    let err = builder.build().unwrap_err();
    assert_eq!(err.message, "provider rejected the batch");
}

#[test]
fn extraction_failure_leaves_the_document_list_unchanged() {
    let model = MockModel::new(4);
    let mut builder = EmbeddingsBuilder::new(model);
    builder.document(Doc::new("ok", &["fragment"])).unwrap();
    assert_eq!(builder.len(), 1);

    // An object that extracts to zero fragments is refused.
    let err = builder.document(Doc::new("empty", &[]));
    assert!(err.is_err());
    assert_eq!(builder.len(), 1);
}

#[test]
fn multi_add_stops_at_the_first_failure_without_rollback() {
    let model = MockModel::new(4);
    let mut builder = EmbeddingsBuilder::new(model);
    let result = builder.documents(vec![
        Doc::new("kept", &["fragment"]),
        Doc::new("refused", &[]),
        Doc::new("never added", &["fragment"]),
    ]);
    assert!(result.is_err());
    // The document added before the failing one remains.
    assert_eq!(builder.len(), 1);
}

#[test]
fn zero_batch_limit_is_read_as_one() {
    let model = MockModel::new(0);
    let mut builder = EmbeddingsBuilder::new(model);
    builder
        .document(Doc::new("d", &["f0", "f1", "f2"]))
        .unwrap();
    let out = builder.build().unwrap();
    assert_eq!(out.len(), 1);
    assert_eq!(out[0].1.len(), 3);
}
