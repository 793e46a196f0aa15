//! Cube faces in block_mesh's `{N, U, V}` convention, held as plain values.

use vstd::prelude::*;
use block_mesh::{AxisPermutation, OrientedBlockFace, UnorientedQuad};

verus! {

/// One of the six `{N, U, V} --> {X, Y, Z}` axis mappings of block_mesh.
#[derive(Clone, Copy, Debug, PartialEq, Eq, Structural)]
pub enum AxisOrder {
    Xyz,
    Zxy,
    Yzx,
    Zyx,
    Xzy,
    Yxz,
}

/// A cube face: the sign of its normal and its axis mapping, the two values
/// from which block_mesh builds an `OrientedBlockFace`.
#[derive(Clone, Copy, Debug, PartialEq, Eq, Structural)]
pub struct BlockFace {
    pub n_sign: i32,
    pub permutation: AxisOrder,
}

/// Index (0 = X, 1 = Y, 2 = Z) of the normal axis, the U axis and the V axis.
pub open spec fn axis_indices(p: AxisOrder) -> (int, int, int) {
    match p {
        AxisOrder::Xyz => (0, 1, 2),
        AxisOrder::Zxy => (2, 0, 1),
        AxisOrder::Yzx => (1, 2, 0),
        AxisOrder::Zyx => (2, 1, 0),
        AxisOrder::Xzy => (0, 2, 1),
        AxisOrder::Yxz => (1, 0, 2),
    }
}

/// Component `i` of the unit vector along axis `axis`.
pub open spec fn unit(axis: int, i: int) -> int {
    if axis == i { 1 } else { 0 }
}

/// Component `i` of the face's unit normal axis N (unsigned).
pub open spec fn n_axis(face: BlockFace, i: int) -> int {
    unit(axis_indices(face.permutation).0, i)
}

/// Component `i` of the face's U axis.
pub open spec fn u_axis(face: BlockFace, i: int) -> int {
    unit(axis_indices(face.permutation).1, i)
}

/// Component `i` of the face's V axis.
pub open spec fn v_axis(face: BlockFace, i: int) -> int {
    unit(axis_indices(face.permutation).2, i)
}

/// Component `i` of the signed normal: N scaled by the face's sign.
pub open spec fn signed_normal_at(face: BlockFace, i: int) -> int {
    face.n_sign * n_axis(face, i)
}

/// Component `i` of the quad's first corner: its minimum, moved one step
/// along N for a face whose normal points in the positive direction.
pub open spec fn corner_base(face: BlockFace, minimum: Seq<u32>, i: int) -> int {
    minimum[i] + if face.n_sign > 0 { n_axis(face, i) } else { 0 }
}

/// Component `i` of corner `k` (minU/minV, maxU/minV, minU/maxV, maxU/maxV)
/// of a `width` x `height` quad.
pub open spec fn quad_corner(face: BlockFace, minimum: Seq<u32>, width: u32, height: u32, k: int, i: int) -> int {
    corner_base(face, minimum, i)
        + (if k == 1 || k == 3 { width * u_axis(face, i) } else { 0 })
        + (if k == 2 || k == 3 { height * v_axis(face, i) } else { 0 })
}

/// Every corner of the quad fits in `u32`.
pub open spec fn quad_corners_fit(face: BlockFace, minimum: Seq<u32>, width: u32, height: u32) -> bool {
    forall|i: int| 0 <= i < 3 ==> #[trigger] quad_corner(face, minimum, width, height, 3, i) <= u32::MAX
}

/// block_mesh's `OrientedBlockFace::signed_normal`: the unit vector of the
/// first axis of the permutation, multiplied by the face's sign.
#[verifier::external_body]
pub(crate) fn block_face_signed_normal(face: BlockFace) -> (normal: [i32; 3])
    ensures
        forall|i: int| 0 <= i < 3 ==> #[trigger] normal[i] == signed_normal_at(face, i),
{
    let permutation = match face.permutation {
        AxisOrder::Xyz => AxisPermutation::Xyz,
        AxisOrder::Zxy => AxisPermutation::Zxy,
        AxisOrder::Yzx => AxisPermutation::Yzx,
        AxisOrder::Zyx => AxisPermutation::Zyx,
        AxisOrder::Xzy => AxisPermutation::Xzy,
        AxisOrder::Yxz => AxisPermutation::Yxz,
    };
    OrientedBlockFace::new(face.n_sign, permutation).signed_normal().to_array()
}

/// block_mesh's `OrientedBlockFace::quad_corners`: the four corners of a
/// quad, its minimum (moved one voxel along N on a positive face) plus
/// `width` steps along U and `height` steps along V. Its `u32` sums panic on
/// overflow, which `requires` rules out.
#[verifier::external_body]
pub(crate) fn block_face_quad_corners(face: BlockFace, minimum: [u32; 3], width: u32, height: u32) -> (corners: [[u32; 3]; 4])
    requires
        quad_corners_fit(face, minimum@, width, height),
    ensures
        forall|k: int, i: int| 0 <= k < 4 && 0 <= i < 3 ==> #[trigger] corners[k][i] == quad_corner(face, minimum@, width, height, k, i),
{
    let permutation = match face.permutation {
        AxisOrder::Xyz => AxisPermutation::Xyz,
        AxisOrder::Zxy => AxisPermutation::Zxy,
        AxisOrder::Yzx => AxisPermutation::Yzx,
        AxisOrder::Zyx => AxisPermutation::Zyx,
        AxisOrder::Xzy => AxisPermutation::Xzy,
        AxisOrder::Yxz => AxisPermutation::Yxz,
    };
    let quad = UnorientedQuad { minimum, width, height };
    OrientedBlockFace::new(face.n_sign, permutation).quad_corners(&quad).map(|corner| corner.to_array())
}

} // verus!
