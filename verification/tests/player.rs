use prototype_voxel_template::player::{adjacent_chunk_neighbours, needs_voxel_update, chunk_position, is_replaceable, is_sprinting, HeldJumpFilter};
use prototype_voxel_template::voxel::WorldVoxel;

#[test]
fn sprinting_needs_shift_and_forward_only() {
    assert!(is_sprinting(true, false, true, false, false, false));
    assert!(is_sprinting(false, true, true, false, false, false));
    assert!(!is_sprinting(false, false, true, false, false, false));
    assert!(!is_sprinting(true, false, false, false, false, false));
    assert!(!is_sprinting(true, false, true, true, false, false));
    assert!(!is_sprinting(true, false, true, false, true, false));
    assert!(!is_sprinting(true, false, true, false, false, true));
}

#[test]
fn held_jump_is_dropped_on_landing() {
    let mut filter = HeldJumpFilter::default();
    // Jump held in the air, then landing with it still held.
    assert!(!filter.update(true, false));
    assert!(filter.update(true, true));
    // Still held on the ground: the jump goes through.
    assert!(!filter.update(true, true));
    // Released on the ground, pressed again on the ground.
    assert!(!filter.update(false, true));
    assert!(!filter.update(true, true));
    // Released in the air, pressed on landing: dropped.
    assert!(!filter.update(false, false));
    assert!(filter.update(true, true));
}

#[test]
fn only_empty_cells_take_new_voxels() {
    assert!(is_replaceable(WorldVoxel::Air));
    assert!(is_replaceable(WorldVoxel::Unset));
    assert!(!is_replaceable(WorldVoxel::Solid(0)));
}

#[test]
fn edits_on_chunk_faces_mark_neighbours() {
    assert_eq!(adjacent_chunk_neighbours((5, 6, 7)), vec![]);
    assert_eq!(adjacent_chunk_neighbours((0, 6, 31)), vec![(-1, 6, 31), (0, 6, 32)]);
    assert_eq!(
        adjacent_chunk_neighbours((-32, -1, 64)),
        vec![(-33, -1, 64), (-32, 0, 64), (-32, -1, 63)]
    );
    assert_eq!(adjacent_chunk_neighbours((31, 32, -33)), vec![(32, 32, -33), (31, 31, -33), (31, 32, -32)]);
}

#[test]
fn chunk_position_floors() {
    assert_eq!(chunk_position((0, 31, 32)), (0, 0, 1));
    assert_eq!(chunk_position((-1, -32, -33)), (-1, -1, -2));
    assert_eq!(chunk_position((i32::MIN, i32::MAX, 64)), (-67108864, 67108863, 2));
}

#[test]
fn voxel_update_only_on_change() {
    assert!(!needs_voxel_update(WorldVoxel::Air, WorldVoxel::Air));
    assert!(needs_voxel_update(WorldVoxel::Unset, WorldVoxel::Air));
    assert!(needs_voxel_update(WorldVoxel::Solid(0), WorldVoxel::Solid(1)));
    assert!(!needs_voxel_update(WorldVoxel::Solid(3), WorldVoxel::Solid(3)));
}
