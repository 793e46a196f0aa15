//! The integer side of terrain height sampling: how rounded noise terms make
//! a terrain column.

use vstd::prelude::*;

verus! {

/// Height at and below which the world is solid stone.
pub const BEDROCK_FLOOR_Y: i32 = -24;
/// Surface height where both hill noises are zero.
pub const SURFACE_BASE_HEIGHT: i32 = 10;
/// Largest height, in voxels, that the broad hills add to the base height.
pub const LARGE_HILL_AMPLITUDE: i32 = 18;
/// Largest height, in voxels, that the detail hills add to the base height.
pub const DETAIL_HILL_AMPLITUDE: i32 = 5;
/// Soil depth where the soil noise is zero.
pub const SOIL_DEPTH_BASE: i32 = 3;
/// Largest change, in voxels, that the soil noise makes to the soil depth.
pub const SOIL_DEPTH_VARIATION: i32 = 2;
/// Soil is never shallower than this.
pub const MIN_SOIL_DEPTH: i32 = 2;
/// Soil is never deeper than this.
pub const MAX_SOIL_DEPTH: i32 = 6;
/// Highest surface that the hill noises can produce.
pub const MAX_SURFACE_Y: i32 = SURFACE_BASE_HEIGHT + LARGE_HILL_AMPLITUDE + DETAIL_HILL_AMPLITUDE;

/// One terrain column: the height of its top voxel and how deep its soil is.
#[derive(Clone, Copy, Debug, PartialEq, Eq, Structural)]
pub struct TerrainColumn {
    pub surface_y: i32,
    pub soil_depth: i32,
}

/// The column made from rounded noise terms: the surface is the base height
/// plus both hill terms; the soil depth is the base depth plus the soil term,
/// clamped to `MIN_SOIL_DEPTH..=MAX_SOIL_DEPTH`.
pub open spec fn noise_column(broad_term: i32, detail_term: i32, soil_term: i32) -> TerrainColumn {
    let unclamped = SOIL_DEPTH_BASE + soil_term;
    TerrainColumn {
        surface_y: (SURFACE_BASE_HEIGHT + broad_term + detail_term) as i32,
        soil_depth: if unclamped < MIN_SOIL_DEPTH {
            MIN_SOIL_DEPTH
        } else if unclamped > MAX_SOIL_DEPTH {
            MAX_SOIL_DEPTH
        } else {
            unclamped as i32
        },
    }
}

/// The rounded noise terms make a column that `column_from_noise` can
/// represent without overflow.
pub open spec fn noise_terms_fit(broad_term: i32, detail_term: i32, soil_term: i32) -> bool {
    &&& i32::MIN <= SURFACE_BASE_HEIGHT + broad_term
    &&& SURFACE_BASE_HEIGHT + broad_term <= i32::MAX
    &&& i32::MIN <= SURFACE_BASE_HEIGHT + broad_term + detail_term <= i32::MAX
    &&& SOIL_DEPTH_BASE + soil_term <= i32::MAX
}

/// The column made from the rounded noise terms: `broad_term` is the broad
/// hill noise times `LARGE_HILL_AMPLITUDE`, `detail_term` the detail noise
/// times `DETAIL_HILL_AMPLITUDE` and `soil_term` the soil noise times
/// `SOIL_DEPTH_VARIATION`, each rounded to the nearest integer.
pub fn column_from_noise(broad_term: i32, detail_term: i32, soil_term: i32) -> (column: TerrainColumn)
    requires
        noise_terms_fit(broad_term, detail_term, soil_term),
    ensures
        column == noise_column(broad_term, detail_term, soil_term),
        column.surface_y == SURFACE_BASE_HEIGHT + broad_term + detail_term,
{
    let surface_y = SURFACE_BASE_HEIGHT + broad_term + detail_term;
    let unclamped = SOIL_DEPTH_BASE + soil_term;
    let soil_depth = if unclamped < MIN_SOIL_DEPTH {
        MIN_SOIL_DEPTH
    } else if unclamped > MAX_SOIL_DEPTH {
        MAX_SOIL_DEPTH
    } else {
        unclamped
    };
    TerrainColumn { surface_y, soil_depth }
}

/// Hill terms within their amplitudes give a surface no higher than
/// `MAX_SURFACE_Y`, and every column's soil is 2 to 6 voxels deep.
pub proof fn lemma_column_bounds(broad_term: i32, detail_term: i32, soil_term: i32)
    requires
        noise_terms_fit(broad_term, detail_term, soil_term),
        broad_term <= LARGE_HILL_AMPLITUDE,
        detail_term <= DETAIL_HILL_AMPLITUDE,
    ensures
        noise_column(broad_term, detail_term, soil_term).surface_y <= MAX_SURFACE_Y,
        MIN_SOIL_DEPTH <= noise_column(broad_term, detail_term, soil_term).soil_depth <= MAX_SOIL_DEPTH,
{
}

} // verus!
