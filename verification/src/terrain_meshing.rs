//! The integer side of chunk meshing: per-vertex ambient occlusion of a quad,
//! material lookup with a per-mesh cache, and nearest-neighbour resampling of
//! a voxel array to another shape.

use vstd::prelude::*;
use crate::ambient_occlusion::{ao_for_mask, ring_bit, ring_direction, ring_step, vertex_ao_level};
use crate::face::{AxisOrder, BlockFace, axis_indices, block_face_signed_normal, signed_normal_at, unit};
use crate::grid::{grid, grid_layer, grid_row};
use crate::shape::{linear_index, linearize};
use crate::voxel::WorldVoxel;

verus! {

/// AO level of a vertex from its two edge neighbours and its corner
/// neighbour: 0 when both edges are opaque, 1 when an edge and the corner
/// are, 3 when none is, 2 otherwise.
pub fn ao_value(side1: bool, corner: bool, side2: bool) -> (ao: u32)
    ensures
        ao == match (side1, corner, side2) {
            (true, _, true) => 0u32,
            (true, true, false) | (false, true, true) => 1,
            (false, false, false) => 3,
            _ => 2,
        },
{
    match (side1, corner, side2) {
        (true, _, true) => 0,
        (true, true, false) | (false, true, true) => 1,
        (false, false, false) => 3,
        _ => 2,
    }
}

/// `ao_value` and `vertex_ao` agree on every input.
pub proof fn lemma_ao_value_is_vertex_ao(side1: bool, corner: bool, side2: bool)
    ensures
        (match (side1, corner, side2) {
            (true, _, true) => 0u32,
            (true, true, false) | (false, true, true) => 1,
            (false, false, false) => 3,
            _ => 2,
        }) == vertex_ao_level(side1, corner, side2) as u32,
{
}

/// The four vertex AO levels of a face from the opacity of its eight ring
/// neighbours (ring order of `ao_for_mask`).
pub open spec fn ring_aos(opaque: Seq<bool>) -> Seq<u32> {
    seq![
        vertex_ao_level(opaque[0], opaque[1], opaque[2]) as u32,
        vertex_ao_level(opaque[2], opaque[3], opaque[4]) as u32,
        vertex_ao_level(opaque[6], opaque[7], opaque[0]) as u32,
        vertex_ao_level(opaque[4], opaque[5], opaque[6]) as u32,
    ]
}

/// Sign along U of quad vertex `i` (minU/minV, maxU/minV, minU/maxV,
/// maxU/maxV order): -1 on the minU side, +1 on the maxU side.
pub open spec fn vertex_u_side(i: int) -> int {
    if i == 1 || i == 3 { 1 } else { -1 }
}

/// Sign along V of quad vertex `i`: -1 on the minV side, +1 on the maxV side.
pub open spec fn vertex_v_side(i: int) -> int {
    if i >= 2 { 1 } else { -1 }
}

/// Each vertex of a face is occluded by exactly the three ring neighbours
/// that touch it: the edge neighbour on its U side, the corner neighbour on
/// its U and V sides, and the edge neighbour on its V side. For every ring,
/// vertex `i`'s level is `vertex_ao_level` of the ring positions whose steps
/// are `(su, 0)`, `(su, sv)` and `(0, sv)`, with `(su, sv)` the vertex's
/// sides.
pub proof fn lemma_ring_aos_uses_touching_neighbours(opaque: Seq<bool>, i: int, k: int, l: int, m: int)
    requires
        opaque.len() == 8,
        0 <= i < 4,
        0 <= k < 8,
        0 <= l < 8,
        0 <= m < 8,
        ring_step(k) == (vertex_u_side(i), 0int),
        ring_step(l) == (vertex_u_side(i), vertex_v_side(i)),
        ring_step(m) == (0int, vertex_v_side(i)),
    ensures
        ring_aos(opaque)[i] == vertex_ao_level(opaque[k], opaque[l], opaque[m]) as u32,
{
}

/// The AO levels computed while meshing agree with the ambient-occlusion
/// lookup table: for every ring and every mask whose bit `k` is the opacity
/// of ring position `k`, `ring_aos` is the table's entry for that mask.
pub proof fn lemma_ring_aos_matches_lookup(opaque: Seq<bool>, mask: usize)
    requires
        opaque.len() == 8,
        forall|k: usize| k < 8 ==> #[trigger] ring_bit(mask, k) == opaque[k as int],
    ensures
        ring_aos(opaque) == ao_for_mask(mask).map_values(|level: u8| level as u32),
{
    assert(ring_bit(mask, 0usize) == opaque[0]);
    assert(ring_bit(mask, 1usize) == opaque[1]);
    assert(ring_bit(mask, 2usize) == opaque[2]);
    assert(ring_bit(mask, 3usize) == opaque[3]);
    assert(ring_bit(mask, 4usize) == opaque[4]);
    assert(ring_bit(mask, 5usize) == opaque[5]);
    assert(ring_bit(mask, 6usize) == opaque[6]);
    assert(ring_bit(mask, 7usize) == opaque[7]);
    assert(ring_aos(opaque) =~= ao_for_mask(mask).map_values(|level: u8| level as u32));
}

/// The four vertex AO levels of a face from its eight ring neighbours.
pub fn side_aos(neighbours: [WorldVoxel; 8]) -> (aos: [u32; 4])
    ensures
        aos@ == ring_aos(neighbours@.map_values(|v: WorldVoxel| v.is_opaque())),
{
    let opaque = [
        neighbours[0].is_opaque(),
        neighbours[1].is_opaque(),
        neighbours[2].is_opaque(),
        neighbours[3].is_opaque(),
        neighbours[4].is_opaque(),
        neighbours[5].is_opaque(),
        neighbours[6].is_opaque(),
        neighbours[7].is_opaque(),
    ];
    proof {
        lemma_ao_value_is_vertex_ao(opaque[0], opaque[1], opaque[2]);
        lemma_ao_value_is_vertex_ao(opaque[2], opaque[3], opaque[4]);
        lemma_ao_value_is_vertex_ao(opaque[6], opaque[7], opaque[0]);
        lemma_ao_value_is_vertex_ao(opaque[4], opaque[5], opaque[6]);
    }
    let aos = [
        ao_value(opaque[0], opaque[1], opaque[2]),
        ao_value(opaque[2], opaque[3], opaque[4]),
        ao_value(opaque[6], opaque[7], opaque[0]),
        ao_value(opaque[4], opaque[5], opaque[6]),
    ];
    assert(aos@ =~= ring_aos(neighbours@.map_values(|v: WorldVoxel| v.is_opaque())));
    aos
}

/// The in-plane U and V axes that `face_aos` pairs with a normal axis: Z and
/// Y around X, Z and X around Y, X and Y around Z.
pub open spec fn plane_axes(normal_axis: int) -> (int, int) {
    if normal_axis == 0 {
        (2, 1)
    } else if normal_axis == 1 {
        (2, 0)
    } else {
        (0, 1)
    }
}

/// Component `i` of ring neighbour `k` of the face of the voxel at `minimum`:
/// one step along the signed normal, then the ring step in the plane.
pub open spec fn face_ring_coord(face: BlockFace, minimum: Seq<u32>, k: int, i: int) -> int {
    let axes = plane_axes(axis_indices(face.permutation).0);
    minimum[i] + signed_normal_at(face, i) + ring_step(k).0 * unit(axes.0, i) + ring_step(k).1 * unit(axes.1, i)
}

/// Ring neighbour `k` as a coordinate sequence.
pub open spec fn face_ring_point(face: BlockFace, minimum: Seq<u32>, k: int) -> Seq<int> {
    seq![face_ring_coord(face, minimum, k, 0), face_ring_coord(face, minimum, k, 1), face_ring_coord(face, minimum, k, 2)]
}

/// The face has a unit normal, and all eight ring neighbours of the voxel at
/// `minimum` lie inside the array of extents `dims` and of `len` voxels.
pub open spec fn face_ring_readable(face: BlockFace, minimum: Seq<u32>, dims: Seq<u32>, len: int) -> bool {
    &&& face.n_sign == 1 || face.n_sign == -1
    &&& dims[0] * dims[1] * dims[2] <= u32::MAX
    &&& forall|k: int, i: int| 0 <= k < 8 && 0 <= i < 3 ==> 0 <= #[trigger] face_ring_coord(face, minimum, k, i) < dims[i]
    &&& forall|k: int| 0 <= k < 8 ==> #[trigger] linear_index(dims, face_ring_point(face, minimum, k)) < len
}

/// Opacity of the eight ring neighbours of the face of the voxel at `minimum`.
pub open spec fn face_ring_opacity(face: BlockFace, minimum: Seq<u32>, voxels: Seq<WorldVoxel>, dims: Seq<u32>) -> Seq<bool> {
    Seq::new(8, |k: int| voxels[linear_index(dims, face_ring_point(face, minimum, k))].is_opaque())
}

proof fn lemma_linear_index_below_size(dims: Seq<u32>, p: Seq<int>)
    requires
        dims.len() == 3,
        p.len() == 3,
        forall|i: int| 0 <= i < 3 ==> 0 <= #[trigger] p[i] < dims[i],
    ensures
        0 <= linear_index(dims, p) < dims[0] * dims[1] * dims[2],
        0 <= dims[0] * dims[1] <= dims[0] * dims[1] * dims[2],
{
    let (a, b, c) = (dims[0] as int, dims[1] as int, dims[2] as int);
    let (x, y, z) = (p[0], p[1], p[2]);
    assert(0 <= x + a * y + a * b * z < a * b * c && 0 <= a * b <= a * b * c) by (nonlinear_arith)
        requires 0 <= x < a, 0 <= y < b, 0 <= z < c;
}

/// The four vertex AO levels of the face of the voxel at `minimum`, from the
/// opacity of the eight voxels around it in the plane one step along the
/// face's normal.
pub fn face_aos(face: BlockFace, minimum: [u32; 3], voxels: &[WorldVoxel], dims: [u32; 3]) -> (aos: [u32; 4])
    requires
        face_ring_readable(face, minimum@, dims@, voxels@.len() as int),
    ensures
        aos@ == ring_aos(face_ring_opacity(face, minimum@, voxels@, dims@)),
{
    let normal = block_face_signed_normal(face);
    let (u_axis, v_axis): (usize, usize) = if normal[0] != 0 {
        (2, 1)
    } else if normal[1] != 0 {
        (2, 0)
    } else {
        (0, 1)
    };
    proof {
        assert(axis_indices(face.permutation).0 == 0 ==> normal[0] != 0);
        assert(axis_indices(face.permutation).0 == 1 ==> normal[1] != 0 && normal[0] == 0);
        assert(axis_indices(face.permutation).0 == 2 ==> normal[0] == 0 && normal[1] == 0);
        assert((u_axis as int, v_axis as int) == plane_axes(axis_indices(face.permutation).0));
    }
    let mut neighbours = [WorldVoxel::Unset; 8];
    let mut k: usize = 0;
    while k < 8
        invariant
            k <= 8,
            face_ring_readable(face, minimum@, dims@, voxels@.len() as int),
            (u_axis as int, v_axis as int) == plane_axes(axis_indices(face.permutation).0),
            forall|i: int| 0 <= i < 3 ==> #[trigger] normal[i] == signed_normal_at(face, i),
            forall|j: int| 0 <= j < k ==> #[trigger] neighbours[j]
                == voxels@[linear_index(dims@, face_ring_point(face, minimum@, j))],
        decreases 8 - k,
    {
        let (du, dv): (i64, i64) = if k == 0 { (-1, 0) }
            else if k == 1 { (-1, -1) }
            else if k == 2 { (0, -1) }
            else if k == 3 { (1, -1) }
            else if k == 4 { (1, 0) }
            else if k == 5 { (1, 1) }
            else if k == 6 { (0, 1) }
            else { (-1, 1) };
        let mut point = [0u32; 3];
        let mut i: usize = 0;
        while i < 3
            invariant
                i <= 3,
                k < 8,
                face_ring_readable(face, minimum@, dims@, voxels@.len() as int),
                (u_axis as int, v_axis as int) == plane_axes(axis_indices(face.permutation).0),
                forall|c: int| 0 <= c < 3 ==> #[trigger] normal[c] == signed_normal_at(face, c),
                (du as int, dv as int) == ring_step(k as int),
                forall|c: int| 0 <= c < i ==> #[trigger] point[c] == face_ring_coord(face, minimum@, k as int, c),
            decreases 3 - i,
        {
            let du_here: i64 = if i == u_axis { du } else { 0 };
            let dv_here: i64 = if i == v_axis { dv } else { 0 };
            assert(normal[i as int] == signed_normal_at(face, i as int));
            assert(0 <= face_ring_coord(face, minimum@, k as int, i as int) < dims[i as int]);
            assert(face.n_sign * unit(axis_indices(face.permutation).0, i as int) == 0
                || face.n_sign * unit(axis_indices(face.permutation).0, i as int) == face.n_sign);
            point[i] = (minimum[i] as i64 + normal[i] as i64 + du_here + dv_here) as u32;
            i += 1;
        }
        proof {
            assert(point@ =~= seq![point[0], point[1], point[2]]);
            lemma_linear_index_below_size(dims@, face_ring_point(face, minimum@, k as int));
            assert(seq![point[0] as int, point[1] as int, point[2] as int] =~= face_ring_point(face, minimum@, k as int));
        }
        let index = linearize(dims, point);
        neighbours[k] = voxels[index as usize];
        k += 1;
    }
    let aos = side_aos(neighbours);
    assert(neighbours@.map_values(|v: WorldVoxel| v.is_opaque()) =~= face_ring_opacity(face, minimum@, voxels@, dims@));
    aos
}

/// `face_aos` where the face's ring lies inside the array, `None` where it
/// does not.
pub fn try_face_aos(face: BlockFace, minimum: [u32; 3], voxels: &[WorldVoxel], dims: [u32; 3]) -> (aos: Option<[u32; 4]>)
    ensures
        aos is Some <==> face_ring_readable(face, minimum@, dims@, voxels@.len() as int),
        aos matches Some(a) ==> a@ == ring_aos(face_ring_opacity(face, minimum@, voxels@, dims@)),
{
    if !(face.n_sign == 1 || face.n_sign == -1) {
        return None;
    }
    assert(dims[0] as u64 * dims[1] as u64 <= u64::MAX) by (nonlinear_arith)
        requires dims[0] <= u32::MAX, dims[1] <= u32::MAX;
    let size = dims[0] as u64 * dims[1] as u64;
    if size > u32::MAX as u64 {
        proof {
            if dims[2] == 0 {
                assert(!(0 <= face_ring_coord(face, minimum@, 0, 2) < dims[2]));
            } else {
                assert(dims[0] * dims[1] * dims[2] >= dims[0] * dims[1]) by (nonlinear_arith)
                    requires dims[2] >= 1;
            }
        }
        return None;
    }
    assert(size * dims[2] as u64 <= u64::MAX) by (nonlinear_arith)
        requires size <= u32::MAX, dims[2] <= u32::MAX;
    let size = size * dims[2] as u64;
    if size > u32::MAX as u64 {
        return None;
    }
    let normal = block_face_signed_normal(face);
    let (u_axis, v_axis): (usize, usize) = if normal[0] != 0 {
        (2, 1)
    } else if normal[1] != 0 {
        (2, 0)
    } else {
        (0, 1)
    };
    assert((u_axis as int, v_axis as int) == plane_axes(axis_indices(face.permutation).0));
    let mut k: usize = 0;
    while k < 8
        invariant
            k <= 8,
            face.n_sign == 1 || face.n_sign == -1,
            size == dims[0] * dims[1] * dims[2],
            size <= u32::MAX,
            (u_axis as int, v_axis as int) == plane_axes(axis_indices(face.permutation).0),
            forall|i: int| 0 <= i < 3 ==> #[trigger] normal[i] == signed_normal_at(face, i),
            forall|j: int, i: int| 0 <= j < k && 0 <= i < 3 ==> 0 <= #[trigger] face_ring_coord(face, minimum@, j, i) < dims[i],
            forall|j: int| 0 <= j < k ==> #[trigger] linear_index(dims@, face_ring_point(face, minimum@, j)) < voxels@.len(),
        decreases 8 - k,
    {
        let (du, dv): (i64, i64) = if k == 0 { (-1, 0) }
            else if k == 1 { (-1, -1) }
            else if k == 2 { (0, -1) }
            else if k == 3 { (1, -1) }
            else if k == 4 { (1, 0) }
            else if k == 5 { (1, 1) }
            else if k == 6 { (0, 1) }
            else { (-1, 1) };
        let mut point = [0i64; 3];
        let mut i: usize = 0;
        while i < 3
            invariant
                i <= 3,
                k < 8,
                face.n_sign == 1 || face.n_sign == -1,
                (u_axis as int, v_axis as int) == plane_axes(axis_indices(face.permutation).0),
                forall|c: int| 0 <= c < 3 ==> #[trigger] normal[c] == signed_normal_at(face, c),
                (du as int, dv as int) == ring_step(k as int),
                forall|c: int| 0 <= c < i ==> #[trigger] point[c] == face_ring_coord(face, minimum@, k as int, c),
            decreases 3 - i,
        {
            let du_here: i64 = if i == u_axis { du } else { 0 };
            let dv_here: i64 = if i == v_axis { dv } else { 0 };
            assert(normal[i as int] == signed_normal_at(face, i as int));
            assert(face.n_sign * unit(axis_indices(face.permutation).0, i as int) == 0
                || face.n_sign * unit(axis_indices(face.permutation).0, i as int) == face.n_sign);
            point[i] = minimum[i] as i64 + normal[i] as i64 + du_here + dv_here;
            i += 1;
        }
        if point[0] < 0 || point[0] >= dims[0] as i64 || point[1] < 0 || point[1] >= dims[1] as i64
            || point[2] < 0 || point[2] >= dims[2] as i64 {
            return None;
        }
        proof {
            lemma_linear_index_below_size(dims@, face_ring_point(face, minimum@, k as int));
        }
        let index = point[0] as u64 + dims[0] as u64 * point[1] as u64 + dims[0] as u64 * dims[1] as u64 * point[2] as u64;
        assert(index == linear_index(dims@, face_ring_point(face, minimum@, k as int)));
        if index >= voxels.len() as u64 {
            return None;
        }
        k += 1;
    }
    Some(face_aos(face, minimum, voxels, dims))
}

/// For the faces of a right-handed, Y-up configuration (axis orders Xzy,
/// Yzx and Zxy), `face_aos` reads the same ring of neighbours, in the same
/// order, as `FaceAoSampler`.
pub proof fn lemma_face_aos_ring_matches_sampler(face: BlockFace, minimum: Seq<u32>, k: int, i: int)
    requires
        face.permutation == AxisOrder::Xzy || face.permutation == AxisOrder::Yzx || face.permutation == AxisOrder::Zxy,
        0 <= k < 8,
        0 <= i < 3,
    ensures
        face_ring_coord(face, minimum, k, i) == minimum[i] + ring_direction(face, k, i),
{
}

/// The number of inner voxels along an extent that has a one-voxel border on
/// both sides, never less than 1.
pub fn inner_extent(extent: u32) -> (inner: u32)
    ensures
        inner == if extent >= 3 { extent - 2 } else { 1 },
{
    let inner = extent.saturating_sub(2);
    if inner > 1 { inner } else { 1 }
}

/// Every cached material is one that the mapper hands out for its index.
pub open spec fn material_cache_consistent<F: Fn(u8) -> [u32; 3]>(mapper: F, cache: Seq<Option<[u32; 3]>>) -> bool {
    forall|m: u8| #![trigger cache[m as int]] cache[m as int] matches Some(mapped) ==> call_ensures(mapper, (m,), mapped)
}

/// The texture layers of the material of a quad's voxel. Solid voxels map
/// their material index through `texture_index_mapper`, once per mesh: the
/// first lookup fills `material_cache`, later ones read it. Other voxels get
/// layer 0.
pub fn quad_material<F: Fn(u8) -> [u32; 3]>(
    voxel: WorldVoxel,
    texture_index_mapper: &F,
    material_cache: &mut [Option<[u32; 3]>; 256],
) -> (material: [u32; 3])
    requires
        forall|m: u8| texture_index_mapper.requires((m,)),
    ensures
        match voxel {
            WorldVoxel::Solid(m) => match old(material_cache)@[m as int] {
                Some(mapped) => material == mapped && final(material_cache)@ == old(material_cache)@,
                None => call_ensures(*texture_index_mapper, (m,), material)
                    && final(material_cache)@ == old(material_cache)@.update(m as int, Some(material)),
            },
            _ => material@ == seq![0u32, 0, 0] && final(material_cache)@ == old(material_cache)@,
        },
        material_cache_consistent(*texture_index_mapper, old(material_cache)@)
            ==> material_cache_consistent(*texture_index_mapper, final(material_cache)@),
        material_cache_consistent(*texture_index_mapper, old(material_cache)@) ==> (
            voxel matches WorldVoxel::Solid(m) ==> call_ensures(*texture_index_mapper, (m,), material)),
{
    match voxel {
        WorldVoxel::Solid(material) => {
            let cached = material_cache[material as usize];
            if let Some(mapped) = cached {
                mapped
            } else {
                let mapped = texture_index_mapper(material);
                material_cache[material as usize] = Some(mapped);
                proof {
                    if material_cache_consistent(*texture_index_mapper, old(material_cache)@) {
                        assert forall|m: u8| #![trigger material_cache@[m as int]]
                            material_cache@[m as int] is Some implies call_ensures(*texture_index_mapper, (m,), material_cache@[m as int]->0) by {
                            if m != material {
                                assert(material_cache@[m as int] == old(material_cache)@[m as int]);
                            }
                        }
                    }
                }
                mapped
            }
        }
        _ => [0, 0, 0],
    }
}

/// Each mesh voxel takes the data voxel that the three coordinate maps pick
/// for it.
pub open spec fn resample_cell(
    data: Seq<WorldVoxel>,
    data_dims: Seq<u32>,
    x_map: Seq<u32>,
    y_map: Seq<u32>,
    z_map: Seq<u32>,
) -> spec_fn(int, int, int) -> Seq<WorldVoxel> {
    |x: int, y: int, z: int| seq![data[linear_index(data_dims, seq![x_map[x] as int, y_map[y] as int, z_map[z] as int])]]
}

/// Every map entry lies inside the data extents, and every picked voxel
/// inside the data array.
pub open spec fn resample_maps_valid(
    data_len: int,
    data_dims: Seq<u32>,
    x_map: Seq<u32>,
    y_map: Seq<u32>,
    z_map: Seq<u32>,
) -> bool {
    &&& data_dims[0] * data_dims[1] * data_dims[2] <= u32::MAX
    &&& forall|x: int| 0 <= x < x_map.len() ==> #[trigger] x_map[x] < data_dims[0]
    &&& forall|y: int| 0 <= y < y_map.len() ==> #[trigger] y_map[y] < data_dims[1]
    &&& forall|z: int| 0 <= z < z_map.len() ==> #[trigger] z_map[z] < data_dims[2]
    &&& forall|x: int, y: int, z: int| #![trigger x_map[x], y_map[y], z_map[z]]
        0 <= x < x_map.len() && 0 <= y < y_map.len() && 0 <= z < z_map.len()
        ==> linear_index(data_dims, seq![x_map[x] as int, y_map[y] as int, z_map[z] as int]) < data_len
}

/// Resamples a voxel array to the mesh shape whose per-axis nearest data
/// coordinates are `x_map`, `y_map` and `z_map`: mesh voxel `(x, y, z)`
/// takes data voxel `(x_map[x], y_map[y], z_map[z])`, X fastest.
pub fn resample_voxels(
    data_voxels: &[WorldVoxel],
    data_dims: [u32; 3],
    x_map: &[u32],
    y_map: &[u32],
    z_map: &[u32],
) -> (out: Vec<WorldVoxel>)
    requires
        resample_maps_valid(data_voxels@.len() as int, data_dims@, x_map@, y_map@, z_map@),
    ensures
        out@ == grid(resample_cell(data_voxels@, data_dims@, x_map@, y_map@, z_map@), 0, x_map@.len() as int, 0, y_map@.len() as int, 0, z_map@.len() as int),
{
    let ghost cell = resample_cell(data_voxels@, data_dims@, x_map@, y_map@, z_map@);
    let ghost (mx, my) = (x_map@.len() as int, y_map@.len() as int);
    let mut out: Vec<WorldVoxel> = Vec::new();
    let mut k: usize = 0;
    while k < z_map.len()
        invariant
            resample_maps_valid(data_voxels@.len() as int, data_dims@, x_map@, y_map@, z_map@),
            cell == resample_cell(data_voxels@, data_dims@, x_map@, y_map@, z_map@),
            mx == x_map@.len(),
            my == y_map@.len(),
            k <= z_map@.len(),
            out@ == grid(cell, 0, mx, 0, my, 0, k as int),
        decreases z_map@.len() - k,
    {
        let mut j: usize = 0;
        while j < y_map.len()
            invariant
                resample_maps_valid(data_voxels@.len() as int, data_dims@, x_map@, y_map@, z_map@),
                cell == resample_cell(data_voxels@, data_dims@, x_map@, y_map@, z_map@),
                mx == x_map@.len(),
                my == y_map@.len(),
                k < z_map@.len(),
                j <= y_map@.len(),
                out@ == grid(cell, 0, mx, 0, my, 0, k as int) + grid_layer(cell, k as int, 0, mx, 0, j as int),
            decreases y_map@.len() - j,
        {
            let mut i: usize = 0;
            while i < x_map.len()
                invariant
                    resample_maps_valid(data_voxels@.len() as int, data_dims@, x_map@, y_map@, z_map@),
                    cell == resample_cell(data_voxels@, data_dims@, x_map@, y_map@, z_map@),
                    mx == x_map@.len(),
                    my == y_map@.len(),
                    k < z_map@.len(),
                    j < y_map@.len(),
                    i <= x_map@.len(),
                    out@ == grid(cell, 0, mx, 0, my, 0, k as int)
                        + grid_layer(cell, k as int, 0, mx, 0, j as int)
                        + grid_row(cell, j as int, k as int, 0, i as int),
                decreases x_map@.len() - i,
            {
                let point = [x_map[i], y_map[j], z_map[k]];
                proof {
                    let p = seq![point[0] as int, point[1] as int, point[2] as int];
                    assert(p =~= seq![x_map@[i as int] as int, y_map@[j as int] as int, z_map@[k as int] as int]);
                    assert(x_map@[i as int] < data_dims[0]);
                    assert(y_map@[j as int] < data_dims[1]);
                    assert(z_map@[k as int] < data_dims[2]);
                    lemma_linear_index_below_size(data_dims@, p);
                    assert(linear_index(data_dims@, p) < data_voxels@.len());
                }
                let src_lin = linearize(data_dims, point);
                out.push(data_voxels[src_lin as usize]);
                proof {
                    let a = grid(cell, 0, mx, 0, my, 0, k as int);
                    let b = grid_layer(cell, k as int, 0, mx, 0, j as int);
                    let r = grid_row(cell, j as int, k as int, 0, i as int);
                    assert(grid_row(cell, j as int, k as int, 0, i + 1) == r + cell(i as int, j as int, k as int));
                    assert(out@ =~= a + b + (r + cell(i as int, j as int, k as int)));
                }
                i += 1;
            }
            proof {
                let a = grid(cell, 0, mx, 0, my, 0, k as int);
                let b = grid_layer(cell, k as int, 0, mx, 0, j as int);
                let r = grid_row(cell, j as int, k as int, 0, mx);
                assert(grid_layer(cell, k as int, 0, mx, 0, j + 1) == b + r);
                assert(out@ =~= a + (b + r));
            }
            j += 1;
        }
        proof {
            let a = grid(cell, 0, mx, 0, my, 0, k as int);
            let b = grid_layer(cell, k as int, 0, mx, 0, my);
            assert(grid(cell, 0, mx, 0, my, 0, k + 1) == a + b);
        }
        k += 1;
    }
    out
}

/// Map `i` to itself for `i < n`.
pub open spec fn is_identity_map(map: Seq<u32>, n: int) -> bool {
    map.len() == n && forall|i: int| 0 <= i < n ==> #[trigger] map[i] == i
}

proof fn lemma_identity_row(
    data: Seq<WorldVoxel>, dims: Seq<u32>, xm: Seq<u32>, ym: Seq<u32>, zm: Seq<u32>, y: int, z: int, x_end: int,
)
    requires
        dims.len() == 3,
        is_identity_map(xm, dims[0] as int),
        is_identity_map(ym, dims[1] as int),
        is_identity_map(zm, dims[2] as int),
        data.len() == dims[0] * dims[1] * dims[2],
        0 <= y < dims[1],
        0 <= z < dims[2],
        0 <= x_end <= dims[0],
    ensures
        grid_row(resample_cell(data, dims, xm, ym, zm), y, z, 0, x_end)
            == data.subrange(dims[0] * y + dims[0] * dims[1] * z, dims[0] * y + dims[0] * dims[1] * z + x_end),
    decreases x_end,
{
    let base = dims[0] * y + dims[0] * dims[1] * z;
    let (a, b, c) = (dims[0] as int, dims[1] as int, dims[2] as int);
    assert(0 <= a * y + a * b * z && a * y + a * b * z + a <= a * b * c) by (nonlinear_arith)
        requires 0 <= y < b, 0 <= z < c, a >= 0;
    if x_end > 0 {
        lemma_identity_row(data, dims, xm, ym, zm, y, z, x_end - 1);
        let x = x_end - 1;
        assert(linear_index(dims, seq![xm[x] as int, ym[y] as int, zm[z] as int]) == base + x);
        assert(data.subrange(base, base + x_end) =~= data.subrange(base, base + x) + seq![data[base + x]]);
    } else {
        assert(data.subrange(base, base) =~= Seq::<WorldVoxel>::empty());
    }
}

proof fn lemma_identity_layer(
    data: Seq<WorldVoxel>, dims: Seq<u32>, xm: Seq<u32>, ym: Seq<u32>, zm: Seq<u32>, z: int, y_end: int,
)
    requires
        dims.len() == 3,
        is_identity_map(xm, dims[0] as int),
        is_identity_map(ym, dims[1] as int),
        is_identity_map(zm, dims[2] as int),
        data.len() == dims[0] * dims[1] * dims[2],
        0 <= z < dims[2],
        0 <= y_end <= dims[1],
    ensures
        grid_layer(resample_cell(data, dims, xm, ym, zm), z, 0, dims[0] as int, 0, y_end)
            == data.subrange(dims[0] * dims[1] * z, dims[0] * dims[1] * z + dims[0] * y_end),
    decreases y_end,
{
    let (a, b, c) = (dims[0] as int, dims[1] as int, dims[2] as int);
    assert(0 <= a * b * z && a * b * z + a * y_end <= a * b * c && 0 <= a * y_end) by (nonlinear_arith)
        requires 0 <= y_end <= b, 0 <= z < c, a >= 0;
    if y_end > 0 {
        let y = y_end - 1;
        lemma_identity_layer(data, dims, xm, ym, zm, z, y);
        lemma_identity_row(data, dims, xm, ym, zm, y, z, a);
        assert(a * y_end == a * y + a) by (nonlinear_arith) requires y == y_end - 1;
        let start = a * b * z;
        assert(data.subrange(start, start + a * y_end) =~= data.subrange(start, start + a * y)
            + data.subrange(a * y + start, a * y + start + a));
    } else {
        assert(a * y_end == 0) by (nonlinear_arith) requires y_end == 0;
        assert(data.subrange(a * b * z, a * b * z) =~= Seq::<WorldVoxel>::empty());
    }
}

proof fn lemma_identity_grid(
    data: Seq<WorldVoxel>, dims: Seq<u32>, xm: Seq<u32>, ym: Seq<u32>, zm: Seq<u32>, z_end: int,
)
    requires
        dims.len() == 3,
        is_identity_map(xm, dims[0] as int),
        is_identity_map(ym, dims[1] as int),
        is_identity_map(zm, dims[2] as int),
        data.len() == dims[0] * dims[1] * dims[2],
        0 <= z_end <= dims[2],
    ensures
        grid(resample_cell(data, dims, xm, ym, zm), 0, dims[0] as int, 0, dims[1] as int, 0, z_end)
            == data.subrange(0, dims[0] * dims[1] * z_end),
    decreases z_end,
{
    let (a, b, c) = (dims[0] as int, dims[1] as int, dims[2] as int);
    assert(0 <= a * b * z_end <= a * b * c) by (nonlinear_arith)
        requires 0 <= z_end <= c, a >= 0, b >= 0;
    if z_end > 0 {
        let z = z_end - 1;
        lemma_identity_grid(data, dims, xm, ym, zm, z);
        lemma_identity_layer(data, dims, xm, ym, zm, z, b);
        assert(a * b * z_end == a * b * z + a * b) by (nonlinear_arith) requires z == z_end - 1;
        assert(data.subrange(0, a * b * z_end) =~= data.subrange(0, a * b * z) + data.subrange(a * b * z, a * b * z + a * b));
    } else {
        assert(a * b * z_end == 0) by (nonlinear_arith) requires z_end == 0;
        assert(data.subrange(0, 0) =~= Seq::<WorldVoxel>::empty());
    }
}

/// Resampling with maps that send every coordinate to itself, to the data's
/// own shape, gives the data back unchanged.
pub proof fn lemma_identity_resample(data: Seq<WorldVoxel>, dims: Seq<u32>, x_map: Seq<u32>, y_map: Seq<u32>, z_map: Seq<u32>)
    requires
        dims.len() == 3,
        is_identity_map(x_map, dims[0] as int),
        is_identity_map(y_map, dims[1] as int),
        is_identity_map(z_map, dims[2] as int),
        data.len() == dims[0] * dims[1] * dims[2],
    ensures
        grid(resample_cell(data, dims, x_map, y_map, z_map), 0, x_map.len() as int, 0, y_map.len() as int, 0, z_map.len() as int) == data,
{
    lemma_identity_grid(data, dims, x_map, y_map, z_map, dims[2] as int);
    assert(data.subrange(0, data.len() as int) =~= data);
}

/// Extent along each axis of a chunk's voxel array when none is given: the
/// chunk's voxels plus a one-voxel border on both sides.
pub const DEFAULT_SHAPE_EXTENT: u32 = 34;

/// The shapes a chunk mesh is built with.
#[derive(Clone, Copy, Debug)]
pub struct ChunkMeshLayout {
    /// Extents of the chunk's voxel data.
    pub data_shape: [u32; 3],
    /// Extents of the voxel array that is meshed.
    pub mesh_shape: [u32; 3],
    /// The data must be resampled to the mesh shape first.
    pub resample: bool,
    /// Largest voxel coordinate of the meshed array on each axis.
    pub max: [u32; 3],
}

/// A zero shape stands for the default shape.
pub open spec fn effective_shape(shape: Seq<u32>) -> Seq<u32> {
    if shape[0] == 0 && shape[1] == 0 && shape[2] == 0 {
        seq![DEFAULT_SHAPE_EXTENT, DEFAULT_SHAPE_EXTENT, DEFAULT_SHAPE_EXTENT]
    } else {
        shape
    }
}

/// The shapes a chunk mesh is built with: a zero data or mesh shape means
/// the default shape; the data is resampled when the two differ; the mesh
/// covers coordinates up to one less than the mesh shape (0 for an empty
/// axis).
pub fn chunk_mesh_layout(data_shape_in: [u32; 3], mesh_shape_in: [u32; 3]) -> (layout: ChunkMeshLayout)
    ensures
        layout.data_shape@ == effective_shape(data_shape_in@),
        layout.mesh_shape@ == effective_shape(mesh_shape_in@),
        layout.resample == (layout.data_shape@ != layout.mesh_shape@),
        forall|i: int| 0 <= i < 3 ==> #[trigger] layout.max[i] == if layout.mesh_shape[i] == 0 { 0 } else { layout.mesh_shape[i] - 1 },
{
    let default_shape = [DEFAULT_SHAPE_EXTENT; 3];
    let data_shape = if data_shape_in[0] == 0 && data_shape_in[1] == 0 && data_shape_in[2] == 0 {
        default_shape
    } else {
        data_shape_in
    };
    let mesh_shape = if mesh_shape_in[0] == 0 && mesh_shape_in[1] == 0 && mesh_shape_in[2] == 0 {
        default_shape
    } else {
        mesh_shape_in
    };
    assert(default_shape@ =~= seq![DEFAULT_SHAPE_EXTENT, DEFAULT_SHAPE_EXTENT, DEFAULT_SHAPE_EXTENT]);
    let resample = !(data_shape[0] == mesh_shape[0] && data_shape[1] == mesh_shape[1] && data_shape[2] == mesh_shape[2]);
    assert(resample == (data_shape@ != mesh_shape@)) by {
        if !resample {
            assert(data_shape@ =~= mesh_shape@);
        }
    }
    let max = [
        mesh_shape[0].saturating_sub(1),
        mesh_shape[1].saturating_sub(1),
        mesh_shape[2].saturating_sub(1),
    ];
    ChunkMeshLayout { data_shape, mesh_shape, resample, max }
}

} // verus!
