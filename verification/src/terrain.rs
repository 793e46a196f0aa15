//! Terrain rules: which material each voxel of a column gets, which chunks
//! can be filled without sampling noise, and how materials map to texture
//! layers.

use vstd::prelude::*;
use crate::terrain_noise::{BEDROCK_FLOOR_Y, MAX_SURFACE_Y, TerrainColumn};
use crate::voxel::WorldVoxel;

verus! {

pub const MATERIAL_GRASS: u8 = 0;
pub const MATERIAL_DIRT: u8 = 1;
pub const MATERIAL_STONE: u8 = 2;
pub const MATERIAL_SAND: u8 = 3;

/// Columns whose surface is at or below this height are sand down to their
/// soil depth.
pub const WATERLINE_Y: i32 = 2;
/// How many chunks around the camera the world keeps spawned.
pub const SPAWNING_DISTANCE: u32 = 10;
/// Chunks closer than this are never despawned.
pub const MIN_DESPAWN_DISTANCE: u32 = 2;
/// Voxels along each edge of a chunk.
pub const CHUNK_SIZE: i32 = 32;

/// The texture layers of a material, one per face group: grass uses layer 3,
/// dirt 2, stone 1, sand 0, and any other material the stone layer.
pub open spec fn spec_texture_layers(material: u8) -> Seq<u32> {
    let layer: u32 = if material == MATERIAL_GRASS {
        3
    } else if material == MATERIAL_DIRT {
        2
    } else if material == MATERIAL_STONE {
        1
    } else if material == MATERIAL_SAND {
        0
    } else {
        1
    };
    seq![layer, layer, layer]
}

/// The texture layers of a material.
pub fn texture_layers(material: u8) -> (layers: [u32; 3])
    ensures
        layers@ == spec_texture_layers(material),
{
    let layers = match material {
        MATERIAL_GRASS => [3, 3, 3],
        MATERIAL_DIRT => [2, 2, 2],
        MATERIAL_STONE => [1, 1, 1],
        MATERIAL_SAND => [0, 0, 0],
        _ => [1, 1, 1],
    };
    assert(layers@ =~= spec_texture_layers(material));
    layers
}

/// How a chunk's voxels are produced.
#[derive(Clone, Copy, Debug, PartialEq, Eq, Structural)]
pub enum ChunkFill {
    /// The whole chunk lies below the bedrock floor: all stone.
    Stone,
    /// The whole chunk lies above any possible surface: all air.
    Air,
    /// Each voxel comes from its terrain column.
    Terrain,
}

/// Lowest voxel height of the chunk at chunk height `chunk_y`.
pub open spec fn chunk_min_y(chunk_y: i32) -> int {
    chunk_y * CHUNK_SIZE
}

/// Highest voxel height of the chunk at chunk height `chunk_y`.
pub open spec fn chunk_max_y(chunk_y: i32) -> int {
    chunk_y * CHUNK_SIZE + CHUNK_SIZE - 1
}

/// The chunk's lowest and highest voxel heights fit in `i32`.
pub open spec fn chunk_heights_fit(chunk_y: i32) -> bool {
    i32::MIN <= chunk_min_y(chunk_y) && chunk_min_y(chunk_y) + CHUNK_SIZE <= i32::MAX
}

/// How the chunk at chunk height `chunk_y` is filled.
pub open spec fn spec_chunk_fill(chunk_y: i32) -> ChunkFill {
    if chunk_max_y(chunk_y) < BEDROCK_FLOOR_Y {
        ChunkFill::Stone
    } else if chunk_min_y(chunk_y) > MAX_SURFACE_Y + 1 {
        ChunkFill::Air
    } else {
        ChunkFill::Terrain
    }
}

/// How the chunk at chunk height `chunk_y` is filled.
pub fn chunk_fill(chunk_y: i32) -> (fill: ChunkFill)
    requires
        chunk_heights_fit(chunk_y),
    ensures
        fill == spec_chunk_fill(chunk_y),
{
    let chunk_min_y = chunk_y * CHUNK_SIZE;
    let chunk_max_y = chunk_min_y + CHUNK_SIZE - 1;

    if chunk_max_y < BEDROCK_FLOOR_Y {
        return ChunkFill::Stone;
    }
    if chunk_min_y > MAX_SURFACE_Y + 1 {
        return ChunkFill::Air;
    }
    ChunkFill::Terrain
}

/// The voxel at height `y` of `column`: stone at and below the bedrock floor,
/// air above the surface; the top voxel is grass, the soil below it dirt,
/// both sand in columns whose surface is at or below the waterline; stone
/// below the soil.
pub open spec fn spec_terrain_voxel(y: i32, column: TerrainColumn) -> WorldVoxel {
    if y <= BEDROCK_FLOOR_Y {
        WorldVoxel::Solid(MATERIAL_STONE)
    } else if y > column.surface_y {
        WorldVoxel::Air
    } else {
        let depth = column.surface_y - y;
        let material = if depth == 0 {
            if column.surface_y <= WATERLINE_Y { MATERIAL_SAND } else { MATERIAL_GRASS }
        } else if depth <= column.soil_depth {
            if column.surface_y <= WATERLINE_Y { MATERIAL_SAND } else { MATERIAL_DIRT }
        } else {
            MATERIAL_STONE
        };
        WorldVoxel::Solid(material)
    }
}

/// The depth below the surface of a voxel between the floor and the surface
/// fits in `i32`.
pub open spec fn terrain_depth_fits(y: i32, column: TerrainColumn) -> bool {
    y <= BEDROCK_FLOOR_Y || y > column.surface_y || column.surface_y - y <= i32::MAX
}

/// The voxel at height `y` of `column`.
pub fn terrain_voxel(y: i32, column: TerrainColumn) -> (voxel: WorldVoxel)
    requires
        terrain_depth_fits(y, column),
    ensures
        voxel == spec_terrain_voxel(y, column),
{
    if y <= BEDROCK_FLOOR_Y {
        return WorldVoxel::Solid(MATERIAL_STONE);
    }

    if y > column.surface_y {
        return WorldVoxel::Air;
    }

    let depth = column.surface_y - y;
    let material = if depth == 0 {
        if column.surface_y <= WATERLINE_Y {
            MATERIAL_SAND
        } else {
            MATERIAL_GRASS
        }
    } else if depth <= column.soil_depth {
        if column.surface_y <= WATERLINE_Y {
            MATERIAL_SAND
        } else {
            MATERIAL_DIRT
        }
    } else {
        MATERIAL_STONE
    };

    WorldVoxel::Solid(material)
}

/// Filling a chunk without sampling noise gives the voxels that the column
/// rules would give: a stone chunk holds only stone, and an air chunk holds
/// only air for every column whose surface is no higher than
/// `MAX_SURFACE_Y`.
pub proof fn lemma_chunk_fill_agrees_with_columns(chunk_y: i32, y: i32, column: TerrainColumn)
    requires
        chunk_min_y(chunk_y) <= y <= chunk_max_y(chunk_y),
        column.surface_y <= MAX_SURFACE_Y,
    ensures
        spec_chunk_fill(chunk_y) == ChunkFill::Stone ==> spec_terrain_voxel(y, column) == WorldVoxel::Solid(MATERIAL_STONE),
        spec_chunk_fill(chunk_y) == ChunkFill::Air ==> spec_terrain_voxel(y, column) == WorldVoxel::Air,
{
}

/// Which material each voxel of a column gets, by where it lies: the top
/// voxel of a column above the waterline is grass; the `soil_depth` voxels
/// under it are dirt; in a column at or below the waterline both are sand;
/// everything else between the bedrock floor and the surface is stone. In
/// particular a column whose surface is above the waterline holds no sand,
/// whatever height its voxels are at.
pub proof fn lemma_column_materials(y: i32, column: TerrainColumn)
    requires
        y > BEDROCK_FLOOR_Y,
        y <= column.surface_y,
    ensures
        spec_terrain_voxel(y, column) == WorldVoxel::Solid(MATERIAL_GRASS)
            <==> (y == column.surface_y && column.surface_y > WATERLINE_Y),
        spec_terrain_voxel(y, column) == WorldVoxel::Solid(MATERIAL_DIRT)
            <==> (0 < column.surface_y - y <= column.soil_depth && column.surface_y > WATERLINE_Y),
        spec_terrain_voxel(y, column) == WorldVoxel::Solid(MATERIAL_SAND)
            <==> ((y == column.surface_y || column.surface_y - y <= column.soil_depth) && column.surface_y <= WATERLINE_Y),
        spec_terrain_voxel(y, column) == WorldVoxel::Solid(MATERIAL_STONE)
            <==> (column.surface_y - y > 0 && column.surface_y - y > column.soil_depth),
        column.surface_y > WATERLINE_Y ==> spec_terrain_voxel(y, column) != WorldVoxel::Solid(MATERIAL_SAND),
{
}

/// Every column is solid up to and including its surface and empty above it,
/// so its top solid voxel is at `surface_y`.
pub proof fn lemma_column_is_solid_up_to_surface(y: i32, column: TerrainColumn)
    requires
        column.surface_y > BEDROCK_FLOOR_Y,
    ensures
        spec_terrain_voxel(y, column) is Solid <==> y <= column.surface_y,
{
}

} // verus!
