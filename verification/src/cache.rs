//! The embedding cache: a durable key-value store from document identity to
//! the complete, ordered list of that document's chunk embeddings.
//!
//! The store is modelled as a map from identity to the whole record batch.
//! A batch is written as a unit ([`MemoryCache::put_batch`] is an atomic,
//! idempotent upsert), so `exists` can never observe a partial write, and
//! `get_all` hands back records in chunk-index order, which is the order
//! they are stored in.
//!
//! This in-memory store is the verified reference implementation, meant to
//! be passed in where a store handle is expected; a persistent store behind
//! the same contract lives outside the library.

use vstd::prelude::*;

use crate::rank::{chunks_wf, ChunkEmbedding, ChunkModel};
use crate::text::str_eq;

verus! {

/// The persisted form of one chunk embedding, keyed by
/// `(identity, chunk_index)`; the text is stored too, so a future query
/// need not re-derive it from the source document.
pub struct EmbeddingRecord {
    pub identity: String,
    pub chunk_text: String,
    pub chunk_index: usize,
    pub vector: crate::vector::Embedding,
}

impl EmbeddingRecord {
    pub fn new(
        identity: String,
        chunk_text: String,
        chunk_index: usize,
        vector: crate::vector::Embedding,
    ) -> (r: EmbeddingRecord)
        ensures
            r.identity@ == identity@,
            r.chunk_text@ == chunk_text@,
            r.chunk_index == chunk_index,
            r.vector@ == vector@,
    {
        EmbeddingRecord { identity, chunk_text, chunk_index, vector }
    }
}

struct CacheEntry {
    identity: String,
    records: Vec<ChunkEmbedding>,
}

/// A fresh copy of a record batch, with the same content.
pub fn clone_chunks(records: &Vec<ChunkEmbedding>) -> (r: Vec<ChunkEmbedding>)
    ensures
        r.deep_view() == records.deep_view(),
{
    let mut out: Vec<ChunkEmbedding> = Vec::new();
    let mut k: usize = 0;
    while k < records.len()
        invariant
            0 <= k <= records@.len(),
            out.deep_view() =~= records.deep_view().take(k as int),
        decreases records@.len() - k,
    {
        let ghost pre = out.deep_view();
        out.push(records[k].clone_chunk());
        proof {
            assert(out.deep_view() =~= pre.push(records.deep_view()[k as int]));
            assert(records.deep_view().take(k + 1 as int) =~= records.deep_view().take(
                k as int,
            ).push(records.deep_view()[k as int]));
        }
        k = k + 1;
    }
    proof {
        assert(records.deep_view().take(records@.len() as int) =~= records.deep_view());
    }
    out
}

/// An in-memory embedding store: one complete record batch per document
/// identity.
pub struct MemoryCache {
    entries: Vec<CacheEntry>,
}

/// The map held by a list of entries, later entries winning (the invariant
/// keeps identities unique, so nothing is ever shadowed).
spec fn entries_map(s: Seq<CacheEntry>) -> Map<Seq<char>, Seq<ChunkModel>>
    decreases s.len(),
{
    if s.len() == 0 {
        Map::empty()
    } else {
        entries_map(s.drop_last()).insert(s.last().identity@, s.last().records.deep_view())
    }
}

spec fn unique_identities(s: Seq<CacheEntry>) -> bool {
    forall|i: int, j: int|
        0 <= i < j < s.len() ==> (#[trigger] s[i]).identity@ != (#[trigger] s[j]).identity@
}

impl View for MemoryCache {
    type V = Map<Seq<char>, Seq<ChunkModel>>;

    closed spec fn view(&self) -> Map<Seq<char>, Seq<ChunkModel>> {
        entries_map(self.entries@)
    }
}

/// If no entry carries identity `k`, the map has no key `k`.
proof fn lemma_entries_map_absent(s: Seq<CacheEntry>, k: Seq<char>)
    requires
        forall|i: int| 0 <= i < s.len() ==> (#[trigger] s[i]).identity@ != k,
    ensures
        !entries_map(s).contains_key(k),
    decreases s.len(),
{
    if s.len() > 0 {
        assert(s.last() == s[s.len() - 1]);
        lemma_entries_map_absent(s.drop_last(), k);
    }
}

/// The entry carrying identity `k` supplies the map's value at `k`.
proof fn lemma_entries_map_found(s: Seq<CacheEntry>, i: int)
    requires
        unique_identities(s),
        0 <= i < s.len(),
    ensures
        entries_map(s).contains_key(s[i].identity@),
        entries_map(s)[s[i].identity@] == s[i].records.deep_view(),
    decreases s.len(),
{
    if i == s.len() - 1 {
        assert(s.last() == s[i]);
    } else {
        let d = s.drop_last();
        assert(d[i] == s[i]);
        assert(unique_identities(d)) by {
            assert(forall|a: int| 0 <= a < d.len() ==> d[a] == s[a]);
        }
        lemma_entries_map_found(d, i);
        assert(s.last().identity@ != s[i].identity@);
    }
}

/// Replacing the entry that carries key `k` updates the map at `k` alone.
proof fn lemma_entries_map_update(s: Seq<CacheEntry>, i: int, e: CacheEntry)
    requires
        unique_identities(s),
        0 <= i < s.len(),
        e.identity@ == s[i].identity@,
    ensures
        entries_map(s.update(i, e)) =~= entries_map(s).insert(e.identity@, e.records.deep_view()),
        unique_identities(s.update(i, e)),
    decreases s.len(),
{
    let t = s.update(i, e);
    assert(unique_identities(t)) by {
        assert(forall|a: int|
            0 <= a < t.len() ==> (#[trigger] t[a]).identity@ == if a == i {
                e.identity@
            } else {
                s[a].identity@
            });
    }
    if i == s.len() - 1 {
        assert(t.drop_last() =~= s.drop_last());
        assert(t.last() == e);
    } else {
        let d = s.drop_last();
        assert(d[i] == s[i]);
        assert(unique_identities(d)) by {
            assert(forall|a: int| 0 <= a < d.len() ==> d[a] == s[a]);
        }
        assert(t.drop_last() =~= d.update(i, e));
        lemma_entries_map_update(d, i, e);
        assert(t.last() == s.last());
        assert(s.last().identity@ != e.identity@);
    }
}

impl MemoryCache {
    /// The store's invariant: one entry per identity, every stored vector
    /// within the library's bounds.
    pub closed spec fn inv(&self) -> bool {
        &&& unique_identities(self.entries@)
        &&& forall|i: int|
            0 <= i < self.entries@.len() ==> chunks_wf(
                (#[trigger] self.entries@[i]).records.deep_view(),
            )
    }

    /// An empty store.
    pub fn new() -> (r: MemoryCache)
        ensures
            r.inv(),
            r@ == Map::<Seq<char>, Seq<ChunkModel>>::empty(),
    {
        let r = MemoryCache { entries: Vec::new() };
        proof {
            assert(r.entries@.len() == 0);
        }
        r
    }

    /// The position of the entry carrying `identity`, if any.
    fn find(&self, identity: &str) -> (r: Option<usize>)
        ensures
            match r {
                Some(i) => i < self.entries@.len() && self.entries@[i as int].identity@
                    == identity@,
                None => forall|i: int|
                    0 <= i < self.entries@.len() ==> (#[trigger] self.entries@[i]).identity@
                        != identity@,
            },
    {
        let mut i: usize = 0;
        while i < self.entries.len()
            invariant
                0 <= i <= self.entries@.len(),
                forall|k: int|
                    0 <= k < i ==> (#[trigger] self.entries@[k]).identity@ != identity@,
            decreases self.entries@.len() - i,
        {
            if str_eq(self.entries[i].identity.as_str(), identity) {
                return Some(i);
            }
            i = i + 1;
        }
        None
    }

    /// True if and only if a (complete) batch is stored for `identity`.
    pub fn embeddings_exist(&self, identity: &str) -> (r: bool)
        requires
            self.inv(),
        ensures
            r == self@.contains_key(identity@),
    {
        match self.find(identity) {
            Some(i) => {
                proof {
                    lemma_entries_map_found(self.entries@, i as int);
                }
                true
            },
            None => {
                proof {
                    lemma_entries_map_absent(self.entries@, identity@);
                }
                false
            },
        }
    }

    /// The stored batch for `identity`, in chunk-index order; `None` when
    /// the document has never been written.
    pub fn get_all(&self, identity: &str) -> (r: Option<Vec<ChunkEmbedding>>)
        requires
            self.inv(),
        ensures
            r is Some <==> self@.contains_key(identity@),
            r matches Some(v) ==> v.deep_view() == self@[identity@] && chunks_wf(v.deep_view()),
    {
        match self.find(identity) {
            Some(i) => {
                proof {
                    lemma_entries_map_found(self.entries@, i as int);
                }
                Some(clone_chunks(&self.entries[i].records))
            },
            None => {
                proof {
                    lemma_entries_map_absent(self.entries@, identity@);
                }
                None
            },
        }
    }

    /// Writes the whole batch for `identity` as a unit: an idempotent
    /// upsert that replaces any previous batch and never leaves a partial
    /// one behind.
    pub fn put_batch(&mut self, identity: &str, records: &Vec<ChunkEmbedding>)
        requires
            old(self).inv(),
            chunks_wf(records.deep_view()),
        ensures
            final(self).inv(),
            final(self)@ == old(self)@.insert(identity@, records.deep_view()),
    {
        let key = identity.to_owned();
        let stored = clone_chunks(records);
        match self.find(identity) {
            Some(i) => {
                let ghost s = self.entries@;
                let entry = CacheEntry { identity: key, records: stored };
                proof {
                    lemma_entries_map_update(s, i as int, entry);
                }
                self.entries.set(i, entry);
            },
            None => {
                let ghost s = self.entries@;
                let entry = CacheEntry { identity: key, records: stored };
                self.entries.push(entry);
                proof {
                    assert(self.entries@.drop_last() =~= s);
                    assert(self.entries@.last() == entry);
                    assert(unique_identities(self.entries@)) by {
                        assert(forall|a: int| 0 <= a < s.len() ==> self.entries@[a] == s[a]);
                        assert(forall|a: int|
                            0 <= a < s.len() ==> (#[trigger] s[a]).identity@ != identity@);
                    }
                }
            },
        }
    }
}

/// Writing the same batch twice leaves the store exactly as one write does:
/// the upsert is idempotent.
pub proof fn law_put_batch_idempotent(
    m: Map<Seq<char>, Seq<ChunkModel>>,
    k: Seq<char>,
    v: Seq<ChunkModel>,
)
    ensures
        m.insert(k, v).insert(k, v) == m.insert(k, v),
{
    assert(m.insert(k, v).insert(k, v) =~= m.insert(k, v));
}

/// After a batch is written, every reader sees exactly that complete batch
/// under its identity.
pub proof fn law_write_then_read(
    m: Map<Seq<char>, Seq<ChunkModel>>,
    k: Seq<char>,
    v: Seq<ChunkModel>,
)
    ensures
        m.insert(k, v).contains_key(k),
        m.insert(k, v)[k] == v,
{
}

} // verus!
