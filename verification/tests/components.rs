use rig_core::chunk::chunk;
use rig_core::dispatch::{concurrency_bound, Dispatcher};
use rig_core::embedding::{Embedding, EmbeddingError};
use rig_core::one_or_many::OneOrMany;
use rig_core::pipeline::{flatten, fragments_of, WorkUnit};

fn unit(doc_id: usize, fragment: &str) -> WorkUnit {
    WorkUnit {
        doc_id,
        fragment: fragment.to_string(),
    }
}

fn embedding_of(fragment: &str) -> Embedding {
    Embedding {
        vec: vec![fragment.len() as i64],
        document: fragment.to_string(),
    }
}

fn embed_all(fragments: &[String]) -> Vec<Embedding> {
    fragments.iter().map(|f| embedding_of(f)).collect()
}

fn frags(texts: &[&str]) -> OneOrMany<String> {
    OneOrMany::many(texts.iter().map(|t| t.to_string()).collect()).unwrap()
}

#[test]
fn one_or_many_is_never_empty() {
    let one = OneOrMany::one(7u32);
    assert_eq!(one.len(), 1);
    assert_eq!(*one.get(0), 7);

    let empty: Vec<u32> = Vec::new();
    assert!(OneOrMany::many(empty).is_err());

    let many = OneOrMany::many(vec![1u32, 2]).unwrap();
    let many = many.push(3);
    assert_eq!(many.len(), 3);
    assert_eq!(many.into_vec(), vec![1, 2, 3]);
}

#[test]
fn flatten_tags_fragments_with_document_positions() {
    let docs: Vec<(String, OneOrMany<String>)> = vec![
        ("d0".to_string(), frags(&["a", "b"])),
        ("d1".to_string(), frags(&["c"])),
    ];
    let work = flatten(&docs);
    let tags: Vec<(usize, String)> = work
        .iter()
        .map(|u| (u.doc_id, u.fragment.clone()))
        .collect();
    assert_eq!(
        tags,
        vec![
            (0, "a".to_string()),
            (0, "b".to_string()),
            (1, "c".to_string())
        ]
    );
}

#[test]
fn chunking_is_a_lossless_partition() {
    let items: Vec<u32> = (0..10).collect();
    let chunks = chunk(items.clone(), 4);
    let sizes: Vec<usize> = chunks.iter().map(|c| c.len()).collect();
    assert_eq!(sizes, vec![4, 4, 2]);
    let rejoined: Vec<u32> = chunks.into_iter().flatten().collect();
    assert_eq!(rejoined, items);
}

#[test]
fn chunking_exact_multiple_has_no_small_tail() {
    let chunks = chunk(vec![1u8, 2, 3, 4], 2);
    let sizes: Vec<usize> = chunks.iter().map(|c| c.len()).collect();
    assert_eq!(sizes, vec![2, 2]);
}

#[test]
fn concurrency_bound_values() {
    assert_eq!(concurrency_bound(4), 256);
    assert_eq!(concurrency_bound(512), 2);
    assert_eq!(concurrency_bound(1024), 1);
    assert_eq!(concurrency_bound(2000), 1);
    // A reported limit of zero is read as one.
    assert_eq!(concurrency_bound(0), 1024);
}

#[test]
fn dispatcher_keeps_outstanding_calls_within_the_bound() {
    // max_batch_size 512 gives a bound of 2.
    let chunks = vec![
        vec![unit(0, "a")],
        vec![unit(1, "b")],
        vec![unit(2, "c")],
    ];
    let mut dispatcher = Dispatcher::new(chunks, 3, 512);
    assert_eq!(dispatcher.in_flight(), 0);

    let first = dispatcher.try_start().unwrap();
    let second = dispatcher.try_start().unwrap();
    assert_eq!(dispatcher.in_flight(), 2);
    // The bound is reached: the third batch has to wait for a free slot.
    assert!(dispatcher.try_start().is_none());

    dispatcher.complete_success(0, embed_all(&first));
    assert_eq!(dispatcher.in_flight(), 1);
    let third = dispatcher.try_start().unwrap();
    assert_eq!(dispatcher.in_flight(), 2);

    dispatcher.complete_success(1, embed_all(&second));
    dispatcher.complete_success(2, embed_all(&third));
    assert!(dispatcher.is_done());
    assert!(dispatcher.slots_filled());
}

#[test]
fn out_of_order_completion_attributes_embeddings_correctly() {
    // Two batches; the second completes before the first. Aggregation is
    // keyed by document id, so every embedding still lands on its own
    // document.
    let chunks = vec![
        vec![unit(0, "a"), unit(1, "b")],
        vec![unit(1, "c"), unit(2, "d")],
    ];
    let mut dispatcher = Dispatcher::new(chunks, 3, 512);
    let first = dispatcher.try_start().unwrap();
    let second = dispatcher.try_start().unwrap();

    dispatcher.complete_success(1, embed_all(&second));
    dispatcher.complete_success(0, embed_all(&first));
    assert!(dispatcher.is_done());
    assert!(dispatcher.slots_filled());

    let documents: Vec<(String, OneOrMany<String>)> = vec![
        ("d0".to_string(), frags(&["a"])),
        ("d1".to_string(), frags(&["b", "c"])),
        ("d2".to_string(), frags(&["d"])),
    ];
    let out = dispatcher.finish(documents).unwrap();
    assert_eq!(out.len(), 3);

    let texts_of = |o: &OneOrMany<Embedding>| -> Vec<String> {
        let mut texts = Vec::new();
        for k in 0..o.len() {
            texts.push(o.get(k).document.clone());
        }
        texts.sort();
        texts
    };
    assert_eq!(out[0].0, "d0");
    assert_eq!(texts_of(&out[0].1), vec!["a"]);
    assert_eq!(out[1].0, "d1");
    // Both of d1's embeddings, whichever order the batches completed in.
    assert_eq!(texts_of(&out[1].1), vec!["b", "c"]);
    assert_eq!(out[2].0, "d2");
    assert_eq!(texts_of(&out[2].1), vec!["d"]);
}

#[test]
fn dispatcher_latches_the_first_failure() {
    let chunks = vec![vec![unit(0, "a")], vec![unit(1, "b")]];
    let mut dispatcher = Dispatcher::new(chunks, 2, 512);
    let _first = dispatcher.try_start().unwrap();
    let _second = dispatcher.try_start().unwrap();

    dispatcher.complete_failure(EmbeddingError {
        message: "first failure".to_string(),
    });
    assert!(dispatcher.is_done());
    // Nothing more is started once a failure is latched.
    assert!(dispatcher.try_start().is_none());
    dispatcher.complete_failure(EmbeddingError {
        message: "second failure".to_string(),
    });

    let documents: Vec<(String, OneOrMany<String>)> = vec![
        ("d0".to_string(), frags(&["a"])),
        ("d1".to_string(), frags(&["b"])),
    ];
    let err = dispatcher.finish(documents).unwrap_err();
    assert_eq!(err.message, "first failure");
}

#[test]
fn fragments_of_reads_the_batch_in_order() {
    let batch = vec![unit(3, "x"), unit(1, "y")];
    let texts = fragments_of(&batch);
    assert_eq!(texts, vec!["x".to_string(), "y".to_string()]);
}
