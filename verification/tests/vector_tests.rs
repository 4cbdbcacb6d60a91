use retrieval::vector::{cosine_permille, Embedding, COMPONENT_LIMIT, DIMENSION_LIMIT};

fn emb(comps: Vec<i64>) -> Embedding {
    Embedding::from_components(comps).unwrap()
}

#[test]
fn cosine_of_a_vector_with_itself_is_one() {
    let v = emb(vec![3, 4]);
    assert_eq!(cosine_permille(&v, &v), 1000);
    let w = emb(vec![-7, 2, 9]);
    assert_eq!(cosine_permille(&w, &w), 1000);
}

#[test]
fn cosine_of_three_four_five_triangle() {
    let q = emb(vec![1, 0]);
    let c = emb(vec![3, 4]);
    // dot = 3, |q| = 1, |c| = 5: cosine = 0.6 exactly.
    assert_eq!(cosine_permille(&q, &c), 600);
}

#[test]
fn cosine_of_orthogonal_vectors_is_zero() {
    let a = emb(vec![1, 0]);
    let b = emb(vec![0, 1]);
    assert_eq!(cosine_permille(&a, &b), 0);
}

#[test]
fn cosine_of_opposite_vectors_is_minus_one() {
    let a = emb(vec![1, 0]);
    let b = emb(vec![-1, 0]);
    assert_eq!(cosine_permille(&a, &b), -1000);
}

#[test]
fn zero_vector_gives_similarity_zero() {
    let a = emb(vec![0, 0]);
    let b = emb(vec![1, 2]);
    assert_eq!(cosine_permille(&a, &b), 0);
    assert_eq!(cosine_permille(&b, &a), 0);
}

#[test]
fn dimension_mismatch_gives_similarity_zero_not_an_error() {
    let a = emb(vec![1]);
    let b = emb(vec![1, 2]);
    assert_eq!(cosine_permille(&a, &b), 0);
}

#[test]
fn cosine_stays_within_bounds() {
    let vectors = [
        vec![1, 2, 3],
        vec![-5, 0, 17],
        vec![32768, -32768, 32768],
        vec![1, 1, 1],
    ];
    for a in &vectors {
        for b in &vectors {
            let r = cosine_permille(&emb(a.clone()), &emb(b.clone()));
            assert!(-1000 <= r && r <= 1000);
        }
    }
}

#[test]
fn components_out_of_range_are_rejected() {
    assert!(Embedding::from_components(vec![COMPONENT_LIMIT + 1]).is_none());
    assert!(Embedding::from_components(vec![-(COMPONENT_LIMIT + 1)]).is_none());
    assert!(Embedding::from_components(vec![COMPONENT_LIMIT, -COMPONENT_LIMIT]).is_some());
}

#[test]
fn oversized_dimension_is_rejected() {
    let v = vec![1i64; DIMENSION_LIMIT + 1];
    assert!(Embedding::from_components(v).is_none());
    let w = vec![1i64; DIMENSION_LIMIT];
    assert!(Embedding::from_components(w).is_some());
}
