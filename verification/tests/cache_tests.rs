use retrieval::cache::{EmbeddingRecord, MemoryCache};
use retrieval::rank::ChunkEmbedding;
use retrieval::vector::Embedding;

fn chunk(text: &str, comps: Vec<i64>) -> ChunkEmbedding {
    ChunkEmbedding::new(text.to_string(), Embedding::from_components(comps).unwrap())
}

#[test]
fn fresh_cache_holds_nothing() {
    let cache = MemoryCache::new();
    assert!(!cache.embeddings_exist("doc"));
    assert!(cache.get_all("doc").is_none());
}

#[test]
fn put_batch_then_read_back_in_order() {
    let mut cache = MemoryCache::new();
    let records = vec![chunk("first", vec![1, 0]), chunk("second", vec![0, 1])];
    cache.put_batch("doc", &records);
    assert!(cache.embeddings_exist("doc"));
    let got = cache.get_all("doc").unwrap();
    assert_eq!(got.len(), 2);
    assert_eq!(got[0].text, "first");
    assert_eq!(got[1].text, "second");
    assert_eq!(got[0].vector.comps, vec![1, 0]);
    assert_eq!(got[1].vector.comps, vec![0, 1]);
}

#[test]
fn writing_the_same_batch_twice_changes_nothing() {
    let mut cache = MemoryCache::new();
    let records = vec![chunk("a", vec![1])];
    cache.put_batch("doc", &records);
    cache.put_batch("doc", &records);
    let got = cache.get_all("doc").unwrap();
    assert_eq!(got.len(), 1);
    assert_eq!(got[0].text, "a");
}

#[test]
fn rewriting_replaces_the_whole_batch() {
    let mut cache = MemoryCache::new();
    cache.put_batch("doc", &vec![chunk("old", vec![1]), chunk("older", vec![2])]);
    cache.put_batch("doc", &vec![chunk("new", vec![3])]);
    let got = cache.get_all("doc").unwrap();
    assert_eq!(got.len(), 1);
    assert_eq!(got[0].text, "new");
}

#[test]
fn documents_are_independent() {
    let mut cache = MemoryCache::new();
    cache.put_batch("one", &vec![chunk("a", vec![1])]);
    cache.put_batch("two", &vec![chunk("b", vec![2])]);
    assert_eq!(cache.get_all("one").unwrap()[0].text, "a");
    assert_eq!(cache.get_all("two").unwrap()[0].text, "b");
    assert!(!cache.embeddings_exist("three"));
}

#[test]
fn record_constructor_keeps_its_fields() {
    let r = EmbeddingRecord::new(
        "doc".to_string(),
        "body".to_string(),
        3,
        Embedding::from_components(vec![5, 6]).unwrap(),
    );
    assert_eq!(r.identity, "doc");
    assert_eq!(r.chunk_text, "body");
    assert_eq!(r.chunk_index, 3);
    assert_eq!(r.vector.comps, vec![5, 6]);
}
