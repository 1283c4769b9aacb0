use hearth_engine::mesh_optimizer::MeshLod;
use hearth_engine::preallocated_mesh_cache::{PreallocatedMeshCache, BYTES_PER_MB};
use hearth_engine::world::ChunkPos;

fn pos(x: i32) -> ChunkPos {
    ChunkPos { x, y: 0, z: 0 }
}

#[test]
fn stored_mesh_is_read_back() {
    let mut cache: PreallocatedMeshCache<Vec<u32>> = PreallocatedMeshCache::new(1);
    cache.insert(pos(1), MeshLod::Lod0, vec![1, 2, 3], 100);
    assert_eq!(cache.get(pos(1), MeshLod::Lod0), Some(vec![1, 2, 3]));
    assert_eq!(cache.get(pos(1), MeshLod::Lod1), None);
    assert_eq!(cache.get(pos(2), MeshLod::Lod0), None);
    let stats = cache.stats();
    assert_eq!(stats.entries, 1);
    assert_eq!(stats.size_bytes, 100);
    assert_eq!(stats.capacity_bytes, BYTES_PER_MB);
}

#[test]
fn storing_again_replaces_the_entry() {
    let mut cache: PreallocatedMeshCache<Vec<u32>> = PreallocatedMeshCache::new(1);
    cache.insert(pos(1), MeshLod::Lod2, vec![1], 100);
    cache.insert(pos(1), MeshLod::Lod2, vec![9, 9], 50);
    assert_eq!(cache.get(pos(1), MeshLod::Lod2), Some(vec![9, 9]));
    assert_eq!(cache.stats().entries, 1);
    assert_eq!(cache.stats().size_bytes, 50);
}

#[test]
fn least_recently_used_mesh_is_evicted() {
    let mut cache: PreallocatedMeshCache<u32> = PreallocatedMeshCache::new(1);
    cache.insert(pos(1), MeshLod::Lod0, 1, 400_000);
    cache.insert(pos(2), MeshLod::Lod0, 2, 400_000);
    // Reading the first makes the second the least recently used.
    assert_eq!(cache.get(pos(1), MeshLod::Lod0), Some(1));
    cache.insert(pos(3), MeshLod::Lod0, 3, 400_000);
    assert_eq!(cache.get(pos(2), MeshLod::Lod0), None);
    assert_eq!(cache.get(pos(1), MeshLod::Lod0), Some(1));
    assert_eq!(cache.get(pos(3), MeshLod::Lod0), Some(3));
    assert_eq!(cache.stats().size_bytes, 800_000);
}

#[test]
fn eviction_frees_at_least_the_new_size() {
    let mut cache: PreallocatedMeshCache<u32> = PreallocatedMeshCache::new(1);
    cache.insert(pos(1), MeshLod::Lod0, 1, 300_000);
    cache.insert(pos(2), MeshLod::Lod0, 2, 300_000);
    cache.insert(pos(3), MeshLod::Lod0, 3, 300_000);
    // 900 000 + 500 000 exceeds the capacity: the two oldest go.
    cache.insert(pos(4), MeshLod::Lod0, 4, 500_000);
    assert_eq!(cache.get(pos(1), MeshLod::Lod0), None);
    assert_eq!(cache.get(pos(2), MeshLod::Lod0), None);
    assert_eq!(cache.get(pos(3), MeshLod::Lod0), Some(3));
    assert_eq!(cache.get(pos(4), MeshLod::Lod0), Some(4));
    assert_eq!(cache.stats().size_bytes, 800_000);
}

#[test]
fn oversized_mesh_is_stored_anyway() {
    let mut cache: PreallocatedMeshCache<u32> = PreallocatedMeshCache::new(1);
    cache.insert(pos(1), MeshLod::Lod0, 1, 2 * BYTES_PER_MB);
    assert_eq!(cache.get(pos(1), MeshLod::Lod0), Some(1));
    assert_eq!(cache.stats().size_bytes, 2 * BYTES_PER_MB);
}

#[test]
fn clear_empties_the_cache() {
    let mut cache: PreallocatedMeshCache<u32> = PreallocatedMeshCache::new(4);
    cache.insert(pos(1), MeshLod::Lod0, 1, 10);
    cache.insert(pos(1), MeshLod::Lod3, 2, 10);
    cache.clear();
    assert_eq!(cache.stats().entries, 0);
    assert_eq!(cache.stats().size_bytes, 0);
    assert_eq!(cache.get(pos(1), MeshLod::Lod0), None);
}
