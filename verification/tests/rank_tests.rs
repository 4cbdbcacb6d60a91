use retrieval::rank::{rank, ChunkEmbedding, Threshold};
use retrieval::vector::Embedding;

fn chunk(text: &str, comps: Vec<i64>) -> ChunkEmbedding {
    ChunkEmbedding::new(text.to_string(), Embedding::from_components(comps).unwrap())
}

fn query() -> Embedding {
    Embedding::from_components(vec![1, 0]).unwrap()
}

/// Chunks with exact cosines 0.96, 0.8, 0.6, 0.28 against the query (1, 0).
fn graded_chunks() -> Vec<ChunkEmbedding> {
    vec![
        chunk("c96", vec![24, 7]),
        chunk("c80", vec![4, 3]),
        chunk("c60", vec![3, 4]),
        chunk("c28", vec![7, 24]),
    ]
}

#[test]
fn top_n_and_threshold_keep_the_best_two() {
    // Similarities 0.96, 0.8, 0.6, 0.28; top 2, threshold 0.7: exactly the
    // 0.96 and 0.8 chunks, in that order.
    let t = Threshold::new(7, 10).unwrap();
    let r = rank(&query(), &graded_chunks(), 2, &t);
    assert_eq!(r, vec!["c96".to_string(), "c80".to_string()]);
}

#[test]
fn threshold_filters_after_the_cap() {
    let t = Threshold::new(7, 10).unwrap();
    let r = rank(&query(), &graded_chunks(), 3, &t);
    assert_eq!(r, vec!["c96".to_string(), "c80".to_string()]);
}

#[test]
fn cap_applies_before_the_threshold() {
    // 0.6 is above the 0.5 threshold but outside the top 2.
    let t = Threshold::new(5, 10).unwrap();
    let r = rank(&query(), &graded_chunks(), 2, &t);
    assert_eq!(r, vec!["c96".to_string(), "c80".to_string()]);
}

#[test]
fn results_come_in_descending_order_regardless_of_input_order() {
    let t = Threshold::new(1, 10).unwrap();
    let shuffled = vec![
        chunk("c28", vec![7, 24]),
        chunk("c60", vec![3, 4]),
        chunk("c96", vec![24, 7]),
        chunk("c80", vec![4, 3]),
    ];
    let r = rank(&query(), &shuffled, 10, &t);
    assert_eq!(
        r,
        vec!["c96".to_string(), "c80".to_string(), "c60".to_string(), "c28".to_string()]
    );
}

#[test]
fn ties_break_by_original_chunk_index() {
    let t = Threshold::new(1, 10).unwrap();
    let twins = vec![chunk("first", vec![3, 4]), chunk("second", vec![3, 4])];
    let r = rank(&query(), &twins, 10, &t);
    assert_eq!(r, vec!["first".to_string(), "second".to_string()]);
}

#[test]
fn ranking_is_deterministic() {
    let t = Threshold::new(6, 10).unwrap();
    let a = rank(&query(), &graded_chunks(), 3, &t);
    let b = rank(&query(), &graded_chunks(), 3, &t);
    assert_eq!(a, b);
}

#[test]
fn strictly_greater_than_threshold_is_required() {
    // cosine of c60 is exactly 0.6; a 0.6 threshold excludes it.
    let t = Threshold::new(6, 10).unwrap();
    let r = rank(&query(), &graded_chunks(), 4, &t);
    assert_eq!(r, vec!["c96".to_string(), "c80".to_string()]);
}

#[test]
fn no_chunks_gives_no_results() {
    let t = Threshold::new(6, 10).unwrap();
    let r = rank(&query(), &Vec::new(), 5, &t);
    assert!(r.is_empty());
}

#[test]
fn zero_query_scores_everything_zero() {
    let zero = Embedding::from_components(vec![0, 0]).unwrap();
    let t = Threshold::new(0, 10).unwrap();
    // similarity 0 is not strictly above a 0 threshold.
    let r = rank(&zero, &graded_chunks(), 10, &t);
    assert!(r.is_empty());
    // but a negative threshold lets everything through, in index order.
    let loose = Threshold::new(-1, 10).unwrap();
    let r2 = rank(&zero, &graded_chunks(), 10, &loose);
    assert_eq!(
        r2,
        vec!["c96".to_string(), "c80".to_string(), "c60".to_string(), "c28".to_string()]
    );
}

#[test]
fn mismatched_dimensions_rank_as_zero_not_error() {
    let t = Threshold::new(1, 10).unwrap();
    let mixed = vec![chunk("good", vec![4, 3]), chunk("odd", vec![1, 2, 3])];
    let r = rank(&query(), &mixed, 10, &t);
    assert_eq!(r, vec!["good".to_string()]);
}

#[test]
fn threshold_outside_bounds_is_rejected() {
    assert!(Threshold::new(11, 10).is_none());
    assert!(Threshold::new(-11, 10).is_none());
    assert!(Threshold::new(1, 0).is_none());
    assert!(Threshold::new(1, 1000001).is_none());
    assert!(Threshold::new(6, 10).is_some());
}
