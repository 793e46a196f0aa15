use prototype_voxel_template::terrain::{
    chunk_fill, terrain_voxel, texture_layers, ChunkFill, MATERIAL_DIRT, MATERIAL_GRASS, MATERIAL_SAND,
    MATERIAL_STONE,
};
use prototype_voxel_template::terrain_noise::{column_from_noise, TerrainColumn, MAX_SURFACE_Y};
use prototype_voxel_template::voxel::WorldVoxel;

#[test]
fn max_surface_is_base_plus_both_amplitudes() {
    assert_eq!(MAX_SURFACE_Y, 10 + 18 + 5);
}

#[test]
fn column_from_noise_adds_terms_and_clamps_soil() {
    let column = column_from_noise(7, -2, 1);
    assert_eq!(column, TerrainColumn { surface_y: 15, soil_depth: 4 });
    assert_eq!(column_from_noise(-18, -5, -2).soil_depth, 2);
    assert_eq!(column_from_noise(0, 0, -9).soil_depth, 2);
    assert_eq!(column_from_noise(0, 0, 2).soil_depth, 5);
    assert_eq!(column_from_noise(0, 0, 40).soil_depth, 6);
    assert_eq!(column_from_noise(18, 5, 0).surface_y, MAX_SURFACE_Y);
}

#[test]
fn column_layers_grass_dirt_stone() {
    let column = TerrainColumn { surface_y: 12, soil_depth: 3 };
    assert_eq!(terrain_voxel(13, column), WorldVoxel::Air);
    assert_eq!(terrain_voxel(12, column), WorldVoxel::Solid(MATERIAL_GRASS));
    assert_eq!(terrain_voxel(11, column), WorldVoxel::Solid(MATERIAL_DIRT));
    assert_eq!(terrain_voxel(9, column), WorldVoxel::Solid(MATERIAL_DIRT));
    assert_eq!(terrain_voxel(8, column), WorldVoxel::Solid(MATERIAL_STONE));
    assert_eq!(terrain_voxel(-24, column), WorldVoxel::Solid(MATERIAL_STONE));
}

#[test]
fn low_columns_are_sand() {
    let column = TerrainColumn { surface_y: 2, soil_depth: 2 };
    assert_eq!(terrain_voxel(2, column), WorldVoxel::Solid(MATERIAL_SAND));
    assert_eq!(terrain_voxel(0, column), WorldVoxel::Solid(MATERIAL_SAND));
    assert_eq!(terrain_voxel(-1, column), WorldVoxel::Solid(MATERIAL_STONE));
    let above = TerrainColumn { surface_y: 3, soil_depth: 2 };
    assert_eq!(terrain_voxel(3, above), WorldVoxel::Solid(MATERIAL_GRASS));
}

#[test]
fn bedrock_is_stone_even_above_a_deep_surface() {
    let column = TerrainColumn { surface_y: -40, soil_depth: 3 };
    assert_eq!(terrain_voxel(-24, column), WorldVoxel::Solid(MATERIAL_STONE));
    assert_eq!(terrain_voxel(-30, column), WorldVoxel::Solid(MATERIAL_STONE));
    assert_eq!(terrain_voxel(-23, column), WorldVoxel::Air);
}

#[test]
fn chunk_fill_by_height() {
    // Chunk -1 spans -32..=-1: it reaches above the floor.
    assert_eq!(chunk_fill(-1), ChunkFill::Terrain);
    // Chunk -2 spans -64..=-33: entirely below the floor.
    assert_eq!(chunk_fill(-2), ChunkFill::Stone);
    // Chunk 1 spans 32..=63: it starts below MAX_SURFACE_Y + 1.
    assert_eq!(chunk_fill(1), ChunkFill::Terrain);
    // Chunk 2 spans 64..=95: entirely above any surface.
    assert_eq!(chunk_fill(2), ChunkFill::Air);
    assert_eq!(chunk_fill(0), ChunkFill::Terrain);
}

#[test]
fn texture_layers_by_material() {
    assert_eq!(texture_layers(MATERIAL_GRASS), [3, 3, 3]);
    assert_eq!(texture_layers(MATERIAL_DIRT), [2, 2, 2]);
    assert_eq!(texture_layers(MATERIAL_STONE), [1, 1, 1]);
    assert_eq!(texture_layers(MATERIAL_SAND), [0, 0, 0]);
    assert_eq!(texture_layers(200), [1, 1, 1]);
}
