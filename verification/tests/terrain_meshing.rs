use prototype_voxel_template::face::{AxisOrder, BlockFace};
use prototype_voxel_template::terrain_meshing::{ chunk_mesh_layout,
    ao_value, face_aos, inner_extent, quad_material, resample_voxels, side_aos,
};
use prototype_voxel_template::ambient_occlusion::vertex_ao;
use prototype_voxel_template::voxel::WorldVoxel;

const S: WorldVoxel = WorldVoxel::Solid(1);
const A: WorldVoxel = WorldVoxel::Air;
const U: WorldVoxel = WorldVoxel::Unset;

#[test]
fn ao_value_matches_vertex_ao() {
    for bits in 0..8u8 {
        let (a, b, c) = (bits & 1 != 0, bits & 2 != 0, bits & 4 != 0);
        assert_eq!(ao_value(a, b, c), vertex_ao(a, b, c) as u32);
    }
    assert_eq!(ao_value(true, false, true), 0);
    assert_eq!(ao_value(false, true, true), 1);
    assert_eq!(ao_value(false, true, false), 2);
    assert_eq!(ao_value(false, false, false), 3);
}

#[test]
fn side_aos_treats_only_solid_as_opaque() {
    assert_eq!(side_aos([A, U, A, U, A, U, A, U]), [3, 3, 3, 3]);
    assert_eq!(side_aos([S, S, S, S, S, S, S, S]), [0, 0, 0, 0]);
    assert_eq!(side_aos([S, A, A, A, A, A, A, A]), [2, 3, 2, 3]);
    assert_eq!(side_aos([A, A, A, A, A, S, A, A]), [3, 3, 3, 2]);
}

fn grid(n: u32, solid: impl Fn(u32, u32, u32) -> bool) -> Vec<WorldVoxel> {
    let mut voxels = Vec::new();
    for z in 0..n {
        for y in 0..n {
            for x in 0..n {
                voxels.push(if solid(x, y, z) { S } else { A });
            }
        }
    }
    voxels
}

#[test]
fn face_aos_reads_the_plane_beyond_the_face() {
    // Only the voxel at (3, 2, 4) is solid.
    let voxels = grid(5, |x, y, z| (x, y, z) == (3, 2, 4));
    let up = BlockFace { n_sign: 1, permutation: AxisOrder::Yzx };
    let down = BlockFace { n_sign: -1, permutation: AxisOrder::Yzx };
    // Above (2, 1, 3) lies the plane y = 2; (3, 2, 4) is its +Z+X corner.
    assert_eq!(face_aos(up, [2, 1, 3], &voxels, [5, 5, 5]), [3, 3, 3, 2]);
    // Below (2, 3, 3) the plane y = 2 is read the same way.
    assert_eq!(face_aos(down, [2, 3, 3], &voxels, [5, 5, 5]), [3, 3, 3, 2]);
    // A face whose ring does not reach that voxel.
    let east = BlockFace { n_sign: 1, permutation: AxisOrder::Xzy };
    assert_eq!(face_aos(east, [2, 2, 2], &voxels, [5, 5, 5]), [3, 3, 3, 3]);
    // A solid wall at x = 3 occludes every vertex of the +X face at x = 2.
    let wall = grid(5, |x, _, _| x == 3);
    assert_eq!(face_aos(east, [2, 2, 2], &wall, [5, 5, 5]), [0, 0, 0, 0]);
}

#[test]
fn inner_extent_drops_the_border() {
    assert_eq!(inner_extent(34), 32);
    assert_eq!(inner_extent(3), 1);
    assert_eq!(inner_extent(2), 1);
    assert_eq!(inner_extent(0), 1);
}

#[test]
fn quad_material_maps_once_per_material() {
    let calls = std::cell::Cell::new(0);
    let mapper = |material: u8| {
        calls.set(calls.get() + 1);
        [material as u32, 7, 9]
    };
    let mut cache = [None; 256];
    assert_eq!(quad_material(WorldVoxel::Solid(4), &mapper, &mut cache), [4, 7, 9]);
    assert_eq!(quad_material(WorldVoxel::Solid(4), &mapper, &mut cache), [4, 7, 9]);
    assert_eq!(calls.get(), 1);
    assert_eq!(cache[4], Some([4, 7, 9]));
    assert_eq!(quad_material(WorldVoxel::Air, &mapper, &mut cache), [0, 0, 0]);
    assert_eq!(quad_material(WorldVoxel::Unset, &mapper, &mut cache), [0, 0, 0]);
    assert_eq!(calls.get(), 1);
}

#[test]
fn resample_picks_the_mapped_voxels() {
    // A 3x1x1 row: Air, Solid(1), Solid(2).
    let data = vec![A, S, WorldVoxel::Solid(2)];
    let out = resample_voxels(&data, [3, 1, 1], &[0, 2, 2, 1], &[0, 0], &[0]);
    assert_eq!(out, vec![A, WorldVoxel::Solid(2), WorldVoxel::Solid(2), S, A, WorldVoxel::Solid(2), WorldVoxel::Solid(2), S]);
    // Identity maps give back the data.
    let cube = grid(3, |x, y, z| (x + 2 * y + z) % 3 == 0);
    assert_eq!(resample_voxels(&cube, [3, 3, 3], &[0, 1, 2], &[0, 1, 2], &[0, 1, 2]), cube);
}

#[test]
fn chunk_mesh_layout_defaults_and_resamples() {
    let layout = chunk_mesh_layout([0, 0, 0], [0, 0, 0]);
    assert_eq!(layout.data_shape, [34, 34, 34]);
    assert_eq!(layout.mesh_shape, [34, 34, 34]);
    assert!(!layout.resample);
    assert_eq!(layout.max, [33, 33, 33]);
    let lod = chunk_mesh_layout([0, 0, 0], [18, 18, 18]);
    assert!(lod.resample);
    assert_eq!(lod.max, [17, 17, 17]);
    let odd = chunk_mesh_layout([34, 34, 34], [0, 5, 0]);
    assert_eq!(odd.mesh_shape, [0, 5, 0]);
    assert_eq!(odd.max, [0, 4, 0]);
    assert!(odd.resample);
}
