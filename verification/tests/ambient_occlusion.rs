use block_mesh::{AxisPermutation, OrientedBlockFace, SignedAxis, UnorientedQuad};
use prototype_voxel_template::ambient_occlusion::{build_ao_lookup, masked_vertex_ao, vector_offset, vertex_ao, FaceAoSampler};
use prototype_voxel_template::face::{AxisOrder, BlockFace};

const EDGE: usize = 7;
const STRIDES: [usize; 3] = [1, EDGE, EDGE * EDGE];

fn block_mesh_permutation(order: AxisOrder) -> AxisPermutation {
    match order {
        AxisOrder::Xyz => AxisPermutation::Xyz,
        AxisOrder::Zxy => AxisPermutation::Zxy,
        AxisOrder::Yzx => AxisPermutation::Yzx,
        AxisOrder::Zyx => AxisPermutation::Zyx,
        AxisOrder::Xzy => AxisPermutation::Xzy,
        AxisOrder::Yxz => AxisPermutation::Yxz,
    }
}

fn coordinate_reference(face: OrientedBlockFace, minimum: [u32; 3], voxels: &[bool]) -> [u8; 4] {
    let quad = UnorientedQuad { minimum, width: 1, height: 1 };
    let corners = face.quad_corners(&quad);
    let normal = face.signed_normal();
    let u = corners[1].as_ivec3() - corners[0].as_ivec3();
    let v = corners[2].as_ivec3() - corners[0].as_ivec3();
    let center = block_mesh::ilattice::glam::IVec3::from(minimum.map(|value| value as i32)) + normal;
    let coords = [
        center - u,
        center - u - v,
        center - v,
        center + u - v,
        center + u,
        center + u + v,
        center + v,
        center - u + v,
    ];
    let opaque = coords.map(|coord| {
        let [x, y, z] = coord.to_array().map(|value| value as usize);
        voxels[x + y * EDGE + z * EDGE * EDGE]
    });

    [
        vertex_ao(opaque[0], opaque[1], opaque[2]),
        vertex_ao(opaque[2], opaque[3], opaque[4]),
        vertex_ao(opaque[6], opaque[7], opaque[0]),
        vertex_ao(opaque[4], opaque[5], opaque[6]),
    ]
}

#[test]
fn sampler_matches_coordinate_reference_for_every_face_orientation() {
    let voxels: Vec<bool> = (0..EDGE * EDGE * EDGE)
        .map(|index| {
            let x = index % EDGE;
            let y = index / EDGE % EDGE;
            let z = index / (EDGE * EDGE);
            (x * 17 + y * 7 + z * 13) % 5 <= 1
        })
        .collect();
    let minimum = [3, 3, 3];
    // The right-handed, Y-up faces of block_mesh, then the canonical +X, +Y
    // and +Z faces.
    let faces = [
        (BlockFace { n_sign: -1, permutation: AxisOrder::Xzy }, None),
        (BlockFace { n_sign: -1, permutation: AxisOrder::Yzx }, None),
        (BlockFace { n_sign: -1, permutation: AxisOrder::Zxy }, None),
        (BlockFace { n_sign: 1, permutation: AxisOrder::Xzy }, None),
        (BlockFace { n_sign: 1, permutation: AxisOrder::Yzx }, None),
        (BlockFace { n_sign: 1, permutation: AxisOrder::Zxy }, None),
        (BlockFace { n_sign: 1, permutation: AxisOrder::Xyz }, Some(SignedAxis::PosX)),
        (BlockFace { n_sign: 1, permutation: AxisOrder::Yzx }, Some(SignedAxis::PosY)),
        (BlockFace { n_sign: 1, permutation: AxisOrder::Zxy }, Some(SignedAxis::PosZ)),
    ];
    let config = block_mesh::RIGHT_HANDED_Y_UP_CONFIG.faces;

    for (index, (face, canonical)) in faces.into_iter().enumerate() {
        let oriented = match canonical {
            Some(axis) => OrientedBlockFace::canonical(axis),
            None => config[index],
        };
        assert_eq!(oriented, OrientedBlockFace::new(face.n_sign, block_mesh_permutation(face.permutation)));
        let sampler = FaceAoSampler::new(face, STRIDES);
        let actual = sampler.sample(&voxels, minimum, |&opaque: &bool| opaque);
        let expected = coordinate_reference(oriented, minimum, &voxels);
        assert_eq!(actual, expected);
    }
}

#[test]
fn vertex_ao_counts_occluders() {
    assert_eq!(vertex_ao(false, false, false), 3);
    assert_eq!(vertex_ao(true, false, false), 2);
    assert_eq!(vertex_ao(false, true, false), 2);
    assert_eq!(vertex_ao(false, false, true), 2);
    assert_eq!(vertex_ao(true, true, false), 1);
    assert_eq!(vertex_ao(false, true, true), 1);
    assert_eq!(vertex_ao(true, false, true), 0);
    assert_eq!(vertex_ao(true, true, true), 0);
}

#[test]
fn masked_vertex_ao_reads_mask_bits() {
    assert_eq!(masked_vertex_ao(0b0000_0000, 0, 1, 2), 3);
    assert_eq!(masked_vertex_ao(0b0000_0101, 0, 1, 2), 0);
    assert_eq!(masked_vertex_ao(0b0000_0110, 0, 1, 2), 1);
    assert_eq!(masked_vertex_ao(0b1100_0000, 6, 7, 0), 1);
    assert_eq!(masked_vertex_ao(0b0100_0001, 6, 7, 0), 0);
}

#[test]
fn ao_lookup_covers_every_ring() {
    let lookup = build_ao_lookup();
    assert_eq!(lookup[0], [3, 3, 3, 3]);
    assert_eq!(lookup[255], [0, 0, 0, 0]);
    // Only ring position 0 (the -U edge) is opaque: it darkens the two
    // vertices on the minU side.
    assert_eq!(lookup[0b0000_0001], [2, 3, 2, 3]);
    // Only ring position 5 (the +U+V corner) is opaque.
    assert_eq!(lookup[0b0010_0000], [3, 3, 3, 2]);
    for mask in 0..256usize {
        let bit = |i: usize| mask & (1 << i) != 0;
        assert_eq!(
            lookup[mask],
            [
                vertex_ao(bit(0), bit(1), bit(2)),
                vertex_ao(bit(2), bit(3), bit(4)),
                vertex_ao(bit(6), bit(7), bit(0)),
                vertex_ao(bit(4), bit(5), bit(6)),
            ]
        );
    }
}

#[test]
fn vector_offset_is_the_stride_dot_product() {
    assert_eq!(vector_offset([1, 0, 0], STRIDES), 1);
    assert_eq!(vector_offset([0, -1, 0], STRIDES), -7);
    assert_eq!(vector_offset([-1, 1, 1], STRIDES), 55);
    assert_eq!(vector_offset([2, -3, 4], [5, 11, 13]), 10 - 33 + 52);
}

#[test]
fn sampler_reads_only_inside_the_neighbourhood() {
    // Every voxel opaque: every vertex is fully occluded, for each face.
    let voxels = vec![true; EDGE * EDGE * EDGE];
    let face = BlockFace { n_sign: 1, permutation: AxisOrder::Yzx };
    let sampler = FaceAoSampler::new(face, STRIDES);
    assert_eq!(sampler.sample(&voxels, [1, 1, 1], |&o: &bool| o), [0, 0, 0, 0]);
    // No voxel opaque: nothing is occluded.
    let empty = vec![false; EDGE * EDGE * EDGE];
    assert_eq!(sampler.sample(&empty, [5, 5, 5], |&o: &bool| o), [3, 3, 3, 3]);
}

#[test]
fn sampler_uses_the_face_orientation() {
    // A single opaque voxel above (+Y) and to the +Z side of the centre.
    let mut voxels = vec![false; EDGE * EDGE * EDGE];
    voxels[3 + 4 * EDGE + 4 * EDGE * EDGE] = true;
    // For the +Y face (U = +Z, V = +X), that voxel is ring position 4 (+U).
    let up = FaceAoSampler::new(BlockFace { n_sign: 1, permutation: AxisOrder::Yzx }, STRIDES);
    assert_eq!(up.sample(&voxels, [3, 3, 3], |&o: &bool| o), [3, 2, 3, 2]);
    // For the -Y face the ring lies below the voxel and misses it.
    let down = FaceAoSampler::new(BlockFace { n_sign: -1, permutation: AxisOrder::Yzx }, STRIDES);
    assert_eq!(down.sample(&voxels, [3, 3, 3], |&o: &bool| o), [3, 3, 3, 3]);
}
