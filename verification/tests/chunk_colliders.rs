use prototype_voxel_template::chunk_colliders::{
    collect_solid_voxel_coordinates, collider_action, collider_coordinates, full_chunk_coordinates,
    ChunkColliderCache, ChunkVoxels, ColliderAction, CHUNK_COLLIDER_CACHE_MAX_ENTRIES,
};
use prototype_voxel_template::voxel::WorldVoxel;

/// Stands for a physics collider: the half-extents of a cuboid.
type Cuboid = [f32; 3];

fn cuboid(x: f32, y: f32, z: f32) -> Cuboid {
    [x, y, z]
}

#[test]
fn cache_evicts_oldest_when_capacity_is_reached() {
    let mut cache = ChunkColliderCache::<Cuboid>::default();
    let collider = cuboid(1.0, 1.0, 1.0);

    cache.insert_with_capacity(1, collider.clone(), 2);
    cache.insert_with_capacity(2, collider.clone(), 2);
    cache.insert_with_capacity(3, collider, 2);

    assert!(cache.get(1).is_none());
    assert!(cache.get(2).is_some());
    assert!(cache.get(3).is_some());
}

#[test]
fn cache_updates_duplicate_key_and_preserves_single_entry() {
    let mut cache = ChunkColliderCache::<Cuboid>::default();
    let collider_a = cuboid(1.0, 1.0, 1.0);
    let collider_b = cuboid(2.0, 2.0, 2.0);

    cache.insert_with_capacity(1, collider_a, 2);
    cache.insert_with_capacity(1, collider_b, 2);

    assert_eq!(cache.len(), 1);
    assert_eq!(cache.access_order_len(), 1);
    assert!(cache.get(1).is_some());
}

#[test]
fn cache_replacement_keeps_the_newer_collider() {
    let mut cache = ChunkColliderCache::<Cuboid>::default();
    cache.insert_with_capacity(1, cuboid(1.0, 1.0, 1.0), 2);
    cache.insert_with_capacity(1, cuboid(2.0, 2.0, 2.0), 2);
    assert_eq!(cache.get(1), Some(cuboid(2.0, 2.0, 2.0)));
}

#[test]
fn cache_get_refreshes_recency() {
    let mut cache = ChunkColliderCache::<Cuboid>::default();
    cache.insert_with_capacity(1, cuboid(1.0, 1.0, 1.0), 2);
    cache.insert_with_capacity(2, cuboid(2.0, 2.0, 2.0), 2);
    // Using key 1 makes key 2 the least recently used one.
    assert!(cache.get(1).is_some());
    cache.insert_with_capacity(3, cuboid(3.0, 3.0, 3.0), 2);
    assert!(cache.get(2).is_none());
    assert_eq!(cache.get(1), Some(cuboid(1.0, 1.0, 1.0)));
    assert_eq!(cache.get(3), Some(cuboid(3.0, 3.0, 3.0)));
    assert_eq!(cache.len(), 2);
    assert_eq!(cache.access_order_len(), 2);
}

#[test]
fn cache_with_zero_capacity_stores_nothing() {
    let mut cache = ChunkColliderCache::<Cuboid>::default();
    cache.insert_with_capacity(7, cuboid(1.0, 1.0, 1.0), 0);
    assert_eq!(cache.len(), 0);
    assert!(cache.get(7).is_none());
}

#[test]
fn cache_miss_changes_nothing() {
    let mut cache = ChunkColliderCache::<Cuboid>::default();
    cache.insert_with_capacity(1, cuboid(1.0, 1.0, 1.0), 4);
    assert!(cache.get(9).is_none());
    assert_eq!(cache.len(), 1);
    assert_eq!(cache.access_order_len(), 1);
}

#[test]
fn cache_default_capacity_holds_up_to_its_limit() {
    let mut cache = ChunkColliderCache::<u64>::default();
    for key in 0..(CHUNK_COLLIDER_CACHE_MAX_ENTRIES as u64 + 3) {
        cache.insert(key, key * 10);
    }
    assert_eq!(cache.len(), CHUNK_COLLIDER_CACHE_MAX_ENTRIES);
    assert!(cache.get(0).is_none());
    assert!(cache.get(2).is_none());
    assert_eq!(cache.get(3), Some(30));
    assert_eq!(cache.get(CHUNK_COLLIDER_CACHE_MAX_ENTRIES as u64 + 2), Some(5140));
}

fn chunk(sx: u32, sy: u32, sz: u32, solid: impl Fn(u32, u32, u32) -> bool) -> Vec<WorldVoxel> {
    let mut voxels = Vec::new();
    for z in 0..sz {
        for y in 0..sy {
            for x in 0..sx {
                voxels.push(if solid(x, y, z) { WorldVoxel::Solid(2) } else { WorldVoxel::Air });
            }
        }
    }
    voxels
}

#[test]
fn solid_coordinates_skip_the_border_and_empty_voxels() {
    let voxels = chunk(4, 4, 4, |x, y, z| (x + y + z) % 2 == 0);
    let coords = collect_solid_voxel_coordinates(&voxels, 4, 4, 4);
    assert_eq!(coords, vec![(2, 1, 1), (1, 2, 1), (1, 1, 2), (2, 2, 2)]);
}

#[test]
fn full_chunk_coordinates_list_every_inner_voxel() {
    let coords = full_chunk_coordinates(4, 3, 5);
    assert_eq!(coords, vec![(1, 1, 1), (2, 1, 1), (1, 1, 2), (2, 1, 2), (1, 1, 3), (2, 1, 3)]);
    assert_eq!(full_chunk_coordinates(34, 34, 34).len(), 32 * 32 * 32);
    assert!(full_chunk_coordinates(2, 9, 9).is_empty());
}

#[test]
fn all_solid_chunk_matches_full_chunk() {
    let voxels = chunk(5, 6, 4, |_, _, _| true);
    assert_eq!(collect_solid_voxel_coordinates(&voxels, 5, 6, 4), full_chunk_coordinates(5, 6, 4));
}

#[test]
fn collider_action_follows_detail_and_data() {
    assert_eq!(collider_action(1, true, false), ColliderAction::Clear);
    assert_eq!(collider_action(0, false, false), ColliderAction::Wait);
    assert_eq!(collider_action(0, true, true), ColliderAction::Clear);
    assert_eq!(collider_action(0, true, false), ColliderAction::Build);
}

#[test]
fn collider_coordinates_cover_each_kind_of_chunk() {
    assert_eq!(collider_coordinates(&ChunkVoxels::Full, [2, 5, 5]), None);
    assert_eq!(collider_coordinates(&ChunkVoxels::Unavailable, [5, 5, 5]), None);
    assert_eq!(collider_coordinates(&ChunkVoxels::Full, [3, 3, 4]), Some(vec![(1, 1, 1), (1, 1, 2)]));
    let empty = chunk(4, 4, 4, |_, _, _| false);
    assert_eq!(collider_coordinates(&ChunkVoxels::Voxels(empty), [4, 4, 4]), None);
    let one = chunk(3, 3, 3, |x, y, z| (x, y, z) == (1, 1, 1));
    assert_eq!(collider_coordinates(&ChunkVoxels::Voxels(one), [3, 3, 3]), Some(vec![(1, 1, 1)]));
}
