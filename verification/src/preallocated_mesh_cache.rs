//! A size-bounded cache of chunk meshes per level of detail, with
//! least-recently-used eviction.
use vstd::prelude::*;
use crate::mesh_optimizer::MeshLod;
use crate::world::ChunkPos;

verus! {

/// Bytes in a mebibyte, the unit of the cache's capacity.
pub const BYTES_PER_MB: usize = 1048576;

/// One cached mesh with its key, its last access stamp and its size.
pub struct CacheEntry<M> {
    pub chunk_pos: ChunkPos,
    pub lod: MeshLod,
    pub mesh: M,
    pub last_access: u64,
    pub size_bytes: usize,
}

/// Entry count, bytes in use and capacity in bytes.
#[derive(Debug, Clone, Copy, PartialEq, Eq, Structural)]
pub struct CacheStats {
    pub entries: usize,
    pub size_bytes: usize,
    pub capacity_bytes: usize,
}

/// The cache as its contracts speak of it: the entries in the order they were
/// first stored, the bytes counted as in use, the capacity and the access
/// counter that stamps every hit and every store.
pub struct MeshCacheModel<M> {
    pub entries: Seq<CacheEntry<M>>,
    pub current_size: nat,
    pub max_size: nat,
    pub counter: nat,
}

/// The entry is the one cached for this chunk and level of detail.
pub open spec fn has_key<M>(e: CacheEntry<M>, chunk_pos: ChunkPos, lod: MeshLod) -> bool {
    e.chunk_pos == chunk_pos && e.lod == lod
}

/// Sum of the entries' sizes.
pub open spec fn size_sum<M>(s: Seq<CacheEntry<M>>) -> nat
    decreases s.len(),
{
    if s.len() == 0 {
        0
    } else {
        size_sum(s.drop_last()) + s.last().size_bytes as nat
    }
}

/// Position of the least recently used entry (the first one if stamps tie).
pub open spec fn oldest_index<M>(s: Seq<CacheEntry<M>>) -> int
    decreases s.len(),
{
    if s.len() <= 1 {
        0
    } else {
        let i = oldest_index(s.drop_last());
        if s.last().last_access < s[i].last_access {
            s.len() - 1
        } else {
            i
        }
    }
}

/// The entries left after removing least recently used ones, one at a time,
/// until at least `needed` bytes (counting `freed` already) are freed or none
/// is left.
pub open spec fn evict_lru<M>(s: Seq<CacheEntry<M>>, needed: nat, freed: nat) -> Seq<CacheEntry<M>>
    decreases s.len(),
{
    if freed >= needed || s.len() == 0 {
        s
    } else {
        let i = oldest_index(s);
        proof {
            lemma_oldest_index_in_range(s);
        }
        evict_lru(s.remove(i), needed, freed + s[i].size_bytes as nat)
    }
}

/// The entries left to store a mesh of `size_bytes`: when it would take the
/// cache over its capacity, least recently used entries are evicted until
/// `size_bytes` are freed.
pub open spec fn room_for<M>(m: MeshCacheModel<M>, size_bytes: nat) -> Seq<CacheEntry<M>> {
    if m.current_size + size_bytes > m.max_size {
        evict_lru(m.entries, size_bytes, 0)
    } else {
        m.entries
    }
}

/// Size-bounded mesh cache keyed by chunk position and level of detail.
pub struct PreallocatedMeshCache<M> {
    entries: Vec<CacheEntry<M>>,
    current_size_bytes: usize,
    max_size_bytes: usize,
    access_counter: u64,
}

impl<M> View for PreallocatedMeshCache<M> {
    type V = MeshCacheModel<M>;

    closed spec fn view(&self) -> MeshCacheModel<M> {
        MeshCacheModel {
            entries: self.entries@,
            current_size: self.current_size_bytes as nat,
            max_size: self.max_size_bytes as nat,
            counter: self.access_counter as nat,
        }
    }
}

/// Keys are distinct, stamps are distinct and at most the counter, and the bytes
/// in use are the entries' sizes.
pub open spec fn cache_ok<M>(m: MeshCacheModel<M>) -> bool {
    &&& forall|i: int, j: int|
        0 <= i < m.entries.len() && 0 <= j < m.entries.len() && i != j ==> !has_key(
            #[trigger] m.entries[i],
            (#[trigger] m.entries[j]).chunk_pos,
            m.entries[j].lod,
        )
    &&& forall|i: int, j: int|
        0 <= i < m.entries.len() && 0 <= j < m.entries.len() && i != j ==> (#[trigger] m.entries[i]).last_access
            != (#[trigger] m.entries[j]).last_access
    &&& forall|i: int| 0 <= i < m.entries.len() ==> (#[trigger] m.entries[i]).last_access <= m.counter
    &&& m.current_size == size_sum(m.entries)
}

proof fn lemma_size_sum_remove<M>(s: Seq<CacheEntry<M>>, i: int)
    requires
        0 <= i < s.len(),
    ensures
        size_sum(s.remove(i)) + s[i].size_bytes == size_sum(s),
    decreases s.len(),
{
    if i < s.len() - 1 {
        lemma_size_sum_remove(s.drop_last(), i);
        assert(s.remove(i).drop_last() =~= s.drop_last().remove(i));
    } else {
        assert(s.remove(i) =~= s.drop_last());
    }
}

proof fn lemma_size_sum_update<M>(s: Seq<CacheEntry<M>>, i: int, e: CacheEntry<M>)
    requires
        0 <= i < s.len(),
    ensures
        size_sum(s.update(i, e)) + s[i].size_bytes == size_sum(s) + e.size_bytes,
    decreases s.len(),
{
    if i < s.len() - 1 {
        lemma_size_sum_update(s.drop_last(), i, e);
        assert(s.update(i, e).drop_last() =~= s.drop_last().update(i, e));
    } else {
        assert(s.update(i, e).drop_last() =~= s.drop_last());
    }
}

/// The least recently used entry of a non-empty list is one of its entries.
pub proof fn lemma_oldest_index_in_range<M>(s: Seq<CacheEntry<M>>)
    requires
        s.len() > 0,
    ensures
        0 <= oldest_index(s) < s.len(),
    decreases s.len(),
{
    if s.len() > 1 {
        lemma_oldest_index_in_range(s.drop_last());
    }
}

impl<M> PreallocatedMeshCache<M> {
    /// The cache's invariant, on its model.
    pub closed spec fn wf(&self) -> bool {
        cache_ok(self@)
    }

    /// An empty cache that holds up to `max_size_mb` mebibytes.
    pub fn new(max_size_mb: usize) -> (cache: Self)
        requires
            max_size_mb * BYTES_PER_MB <= usize::MAX,
        ensures
            cache.wf(),
            cache@.entries.len() == 0,
            cache@.current_size == 0,
            cache@.max_size == max_size_mb * BYTES_PER_MB,
            cache@.counter == 0,
    {
        PreallocatedMeshCache {
            entries: Vec::new(),
            current_size_bytes: 0,
            max_size_bytes: max_size_mb * BYTES_PER_MB,
            access_counter: 0,
        }
    }

    /// Position of the entry for this chunk and level of detail.
    fn find(&self, chunk_pos: ChunkPos, lod: MeshLod) -> (found: Option<usize>)
        ensures
            match found {
                Some(i) => i < self@.entries.len() && has_key(self@.entries[i as int], chunk_pos, lod),
                None => forall|i: int| 0 <= i < self@.entries.len() ==> !has_key(#[trigger] self@.entries[i], chunk_pos, lod),
            },
    {
        let mut i: usize = 0;
        while i < self.entries.len()
            invariant
                i <= self@.entries.len(),
                forall|j: int| 0 <= j < i ==> !has_key(#[trigger] self@.entries[j], chunk_pos, lod),
            decreases self@.entries.len() - i,
        {
            if self.entries[i].chunk_pos == chunk_pos && self.entries[i].lod == lod {
                return Some(i);
            }
            i = i + 1;
        }
        None
    }

    /// Position of the least recently used entry.
    fn find_oldest(&self) -> (i: usize)
        requires
            self@.entries.len() > 0,
        ensures
            i == oldest_index(self@.entries),
    {
        let ghost s = self@.entries;
        let mut best: usize = 0;
        let mut i: usize = 1;
        proof {
            assert(s.subrange(0, 1).len() == 1);
        }
        while i < self.entries.len()
            invariant
                s == self@.entries,
                1 <= i <= s.len(),
                best < i,
                best == oldest_index(s.subrange(0, i as int)),
            decreases s.len() - i,
        {
            proof {
                let sub = s.subrange(0, i + 1);
                assert(sub.drop_last() =~= s.subrange(0, i as int));
                assert(sub[best as int] == s[best as int]);
            }
            if self.entries[i].last_access < self.entries[best].last_access {
                best = i;
            }
            i = i + 1;
        }
        proof {
            assert(s.subrange(0, s.len() as int) =~= s);
        }
        best
    }

    /// The mesh cached for this chunk and level of detail, cloned; a hit stamps
    /// the entry with the next access count.
    pub fn get(&mut self, chunk_pos: ChunkPos, lod: MeshLod) -> (mesh: Option<M>)
        where
            M: Clone,
        requires
            old(self).wf(),
            old(self)@.counter < u64::MAX,
        ensures
            final(self).wf(),
            final(self)@.max_size == old(self)@.max_size,
            final(self)@.current_size == old(self)@.current_size,
            match mesh {
                Some(m) => exists|i: int|
                    0 <= i < old(self)@.entries.len() && has_key(#[trigger] old(self)@.entries[i], chunk_pos, lod)
                        && cloned(old(self)@.entries[i].mesh, m) && final(self)@.counter == old(self)@.counter + 1
                        && final(self)@.entries == old(self)@.entries.update(
                        i,
                        CacheEntry { last_access: (old(self)@.counter + 1) as u64, ..old(self)@.entries[i] },
                    ),
                None => (forall|i: int|
                    0 <= i < old(self)@.entries.len() ==> !has_key(#[trigger] old(self)@.entries[i], chunk_pos, lod))
                    && final(self)@ == old(self)@,
            },
    {
        match self.find(chunk_pos, lod) {
            Some(i) => {
                let ghost before = self@.entries;
                self.access_counter = self.access_counter + 1;
                let mesh = self.entries[i].mesh.clone();
                self.entries[i].last_access = self.access_counter;
                proof {
                    let e = CacheEntry { last_access: self.access_counter, ..before[i as int] };
                    assert(self@.entries =~= before.update(i as int, e));
                    lemma_size_sum_update(before, i as int, e);
                }
                Some(mesh)
            },
            None => None,
        }
    }

    /// Stores a mesh of `size_bytes` for this chunk and level of detail. When it
    /// would take the cache over its capacity, least recently used entries are
    /// evicted first until `size_bytes` are freed; the mesh is stored anyway,
    /// replacing an entry with the same key, stamped with the next access count.
    pub fn insert(&mut self, chunk_pos: ChunkPos, lod: MeshLod, mesh: M, size_bytes: usize)
        requires
            old(self).wf(),
            old(self)@.counter < u64::MAX,
            old(self)@.current_size + size_bytes <= usize::MAX,
        ensures
            final(self).wf(),
            final(self)@.max_size == old(self)@.max_size,
            final(self)@.counter == old(self)@.counter + 1,
            ({
                let kept = room_for(old(self)@, size_bytes as nat);
                let stored = CacheEntry {
                    chunk_pos,
                    lod,
                    mesh,
                    last_access: (old(self)@.counter + 1) as u64,
                    size_bytes,
                };
                ||| exists|i: int|
                    0 <= i < kept.len() && has_key(#[trigger] kept[i], chunk_pos, lod) && final(self)@.entries
                        == kept.update(i, stored)
                ||| (forall|i: int| 0 <= i < kept.len() ==> !has_key(#[trigger] kept[i], chunk_pos, lod))
                    && final(self)@.entries == kept.push(stored)
            }),
    {
        if self.current_size_bytes + size_bytes > self.max_size_bytes {
            self.evict(size_bytes);
        }
        let ghost kept = self@.entries;
        assert(kept == room_for(old(self)@, size_bytes as nat));
        self.access_counter = self.access_counter + 1;
        let stamp = self.access_counter;
        match self.find(chunk_pos, lod) {
            Some(i) => {
                let old_size = self.entries[i].size_bytes;
                proof {
                    lemma_size_sum_remove(kept, i as int);
                    lemma_size_sum_update(
                        kept,
                        i as int,
                        CacheEntry { chunk_pos, lod, mesh, last_access: stamp, size_bytes },
                    );
                }
                self.current_size_bytes = self.current_size_bytes - old_size + size_bytes;
                self.entries.set(i, CacheEntry { chunk_pos, lod, mesh, last_access: stamp, size_bytes });
                proof {
                    let es = self@.entries;
                    assert forall|a: int, b: int| 0 <= a < es.len() && 0 <= b < es.len() && a != b implies !has_key(
                        #[trigger] es[a],
                        (#[trigger] es[b]).chunk_pos,
                        es[b].lod,
                    ) by {
                        assert(!has_key(kept[a], kept[b].chunk_pos, kept[b].lod));
                    }
                    assert(has_key(kept[i as int], chunk_pos, lod));
                    let stored = CacheEntry { chunk_pos, lod, mesh, last_access: stamp, size_bytes };
                    assert(self@.entries == kept.update(i as int, stored));
                    assert(exists|j: int|
                        0 <= j < kept.len() && has_key(#[trigger] kept[j], chunk_pos, lod) && self@.entries
                            == kept.update(j, stored));
                }
            },
            None => {
                self.current_size_bytes = self.current_size_bytes + size_bytes;
                self.entries.push(CacheEntry { chunk_pos, lod, mesh, last_access: stamp, size_bytes });
                proof {
                    let es = self@.entries;
                    assert(es.drop_last() =~= kept);
                    assert forall|a: int, b: int| 0 <= a < es.len() && 0 <= b < es.len() && a != b implies !has_key(
                        #[trigger] es[a],
                        (#[trigger] es[b]).chunk_pos,
                        es[b].lod,
                    ) by {
                        if a < kept.len() && b < kept.len() {
                            assert(!has_key(kept[a], kept[b].chunk_pos, kept[b].lod));
                        } else if a < kept.len() {
                            assert(!has_key(kept[a], chunk_pos, lod));
                        } else {
                            assert(!has_key(kept[b], chunk_pos, lod));
                        }
                    }
                    assert(es == kept.push(CacheEntry { chunk_pos, lod, mesh, last_access: stamp, size_bytes }));
                }
            },
        }
    }

    /// Evicts least recently used entries until `needed` bytes are freed or the
    /// cache is empty.
    fn evict(&mut self, needed: usize)
        requires
            old(self).wf(),
        ensures
            final(self).wf(),
            final(self)@.entries == evict_lru(old(self)@.entries, needed as nat, 0),
            final(self)@.current_size <= old(self)@.current_size,
            final(self)@.max_size == old(self)@.max_size,
            final(self)@.counter == old(self)@.counter,
    {
        let mut freed: usize = 0;
        while freed < needed && self.entries.len() > 0
            invariant
                self.wf(),
                self@.current_size + freed <= old(self)@.current_size,
                self@.max_size == old(self)@.max_size,
                self@.counter == old(self)@.counter,
                evict_lru(self@.entries, needed as nat, freed as nat) == evict_lru(old(self)@.entries, needed as nat, 0),
            decreases self@.entries.len(),
        {
            let i = self.find_oldest();
            proof {
                lemma_oldest_index_in_range(self@.entries);
                lemma_size_sum_remove(self@.entries, i as int);
            }
            let size = self.entries[i].size_bytes;
            self.current_size_bytes = self.current_size_bytes - size;
            freed = freed + size;
            self.entries.remove(i);
        }
    }

    /// Removes every entry; the access counter keeps counting.
    pub fn clear(&mut self)
        requires
            old(self).wf(),
        ensures
            final(self).wf(),
            final(self)@.entries.len() == 0,
            final(self)@.current_size == 0,
            final(self)@.max_size == old(self)@.max_size,
            final(self)@.counter == old(self)@.counter,
    {
        self.entries.clear();
        self.current_size_bytes = 0;
    }

    /// The access counter: hits and stores so far.
    pub fn access_counter(&self) -> (c: u64)
        ensures
            c == self@.counter,
    {
        self.access_counter
    }

    /// Entry count, bytes in use and capacity.
    pub fn stats(&self) -> (stats: CacheStats)
        ensures
            stats.entries == self@.entries.len(),
            stats.size_bytes == self@.current_size,
            stats.capacity_bytes == self@.max_size,
    {
        CacheStats {
            entries: self.entries.len(),
            size_bytes: self.current_size_bytes,
            capacity_bytes: self.max_size_bytes,
        }
    }
}

/// The cache's accounting holds after any sequence of its operations: keys are
/// distinct, access stamps are distinct and never ahead of the counter, and the
/// bytes in use are the sum of the cached meshes' sizes.
pub proof fn lemma_cache_accounting<M>(cache: &PreallocatedMeshCache<M>)
    requires
        cache.wf(),
    ensures
        cache_ok(cache@),
{
}

/// A read gives back what was stored: after storing a mesh for a chunk and
/// level of detail, exactly one entry has that key, and it holds that mesh
/// and its size with the newest stamp; so the next `get` returns a clone of
/// it.
pub proof fn lemma_read_after_store<M>(
    before: MeshCacheModel<M>,
    after: MeshCacheModel<M>,
    chunk_pos: ChunkPos,
    lod: MeshLod,
    mesh: M,
    size_bytes: usize,
)
    requires
        cache_ok(after),
        before.counter < u64::MAX,
        after.counter == before.counter + 1,
        ({
            let kept = room_for(before, size_bytes as nat);
            let stored = CacheEntry {
                chunk_pos,
                lod,
                mesh,
                last_access: (before.counter + 1) as u64,
                size_bytes,
            };
            ||| exists|i: int| 0 <= i < kept.len() && has_key(#[trigger] kept[i], chunk_pos, lod) && after.entries == kept.update(i, stored)
            ||| (forall|i: int| 0 <= i < kept.len() ==> !has_key(#[trigger] kept[i], chunk_pos, lod)) && after.entries == kept.push(stored)
        }),
    ensures
        exists|i: int|
            0 <= i < after.entries.len() && has_key(#[trigger] after.entries[i], chunk_pos, lod) && after.entries[i].mesh
                == mesh && after.entries[i].size_bytes == size_bytes && after.entries[i].last_access == after.counter
                && forall|j: int| 0 <= j < after.entries.len() && has_key(#[trigger] after.entries[j], chunk_pos, lod) ==> j == i,
{
    let kept = room_for(before, size_bytes as nat);
    let stored = CacheEntry { chunk_pos, lod, mesh, last_access: (before.counter + 1) as u64, size_bytes };
    let e = after.entries;
    let i = if exists|i: int| 0 <= i < kept.len() && has_key(#[trigger] kept[i], chunk_pos, lod) && e == kept.update(i, stored) {
        choose|i: int| 0 <= i < kept.len() && has_key(#[trigger] kept[i], chunk_pos, lod) && e == kept.update(i, stored)
    } else {
        kept.len() as int
    };
    assert(e[i] == stored);
    assert(0 <= i < e.len() && has_key(e[i], chunk_pos, lod));
    assert forall|j: int| 0 <= j < e.len() && has_key(#[trigger] e[j], chunk_pos, lod) implies j == i by {
        if j != i {
            assert(!has_key(e[j], e[i].chunk_pos, e[i].lod));
        }
    }
}

} // verus!
