use vstd::prelude::*;
use crate::face::{BlockFace, block_face_quad_corners, block_face_signed_normal, signed_normal_at, n_axis, u_axis, v_axis};

verus! {

/// 1 for an opaque neighbour, 0 otherwise.
pub open spec fn occluder_count(opaque: bool) -> int {
    if opaque { 1 } else { 0 }
}

/// Ambient-occlusion level (0 = darkest, 3 = unoccluded) of one quad vertex,
/// from the opacity of its two edge neighbours and of its corner neighbour.
/// Two opaque edge neighbours fully occlude the vertex whatever the corner is.
pub open spec fn vertex_ao_level(side1: bool, corner: bool, side2: bool) -> u8 {
    if side1 && side2 {
        0
    } else {
        (3 - occluder_count(side1) - occluder_count(corner) - occluder_count(side2)) as u8
    }
}

/// Whether bit `i` of a ring mask is set.
pub open spec fn ring_bit(mask: usize, i: usize) -> bool {
    mask & (1usize << i) != 0
}

/// The four vertex AO levels of a face, from the 8-bit opacity ring around it.
///
/// Ring order around the exterior sample plane:
///
/// ```text
///     7 -- 6 -- 5
///     |         |
///     0         4
///     |         |
///     1 -- 2 -- 3
/// ```
///
/// Vertices come in block_mesh's minU/minV, maxU/minV, minU/maxV, maxU/maxV
/// order.
pub open spec fn ao_for_mask(mask: usize) -> Seq<u8> {
    seq![
        vertex_ao_level(ring_bit(mask, 0), ring_bit(mask, 1), ring_bit(mask, 2)),
        vertex_ao_level(ring_bit(mask, 2), ring_bit(mask, 3), ring_bit(mask, 4)),
        vertex_ao_level(ring_bit(mask, 6), ring_bit(mask, 7), ring_bit(mask, 0)),
        vertex_ao_level(ring_bit(mask, 4), ring_bit(mask, 5), ring_bit(mask, 6)),
    ]
}

/// AO level of one vertex from its two edge neighbours and its corner neighbour.
pub fn vertex_ao(side1: bool, corner: bool, side2: bool) -> (ao: u8)
    ensures
        ao == vertex_ao_level(side1, corner, side2),
        ao <= 3,
{
    if side1 && side2 {
        0
    } else {
        3 - side1 as u8 - corner as u8 - side2 as u8
    }
}

/// AO level of one vertex whose three neighbours are bits of an opacity mask.
pub fn masked_vertex_ao(mask: usize, side1: usize, corner: usize, side2: usize) -> (ao: u8)
    requires
        side1 < usize::BITS,
        corner < usize::BITS,
        side2 < usize::BITS,
    ensures
        ao == vertex_ao_level(ring_bit(mask, side1), ring_bit(mask, corner), ring_bit(mask, side2)),
{
    vertex_ao(
        mask & (1 << side1) != 0,
        mask & (1 << corner) != 0,
        mask & (1 << side2) != 0,
    )
}

/// The table of the four vertex AO levels for every 8-bit opacity ring.
pub fn build_ao_lookup() -> (lookup: [[u8; 4]; 256])
    ensures
        forall|mask: int| 0 <= mask < 256 ==> (#[trigger] lookup[mask])@ == ao_for_mask(mask as usize),
{
    let mut lookup = [[0u8; 4]; 256];
    let mut mask: usize = 0;
    while mask < 256
        invariant
            mask <= 256,
            forall|m: int| 0 <= m < mask ==> (#[trigger] lookup[m])@ == ao_for_mask(m as usize),
        decreases 256 - mask,
    {
        let entry = [
            masked_vertex_ao(mask, 0, 1, 2),
            masked_vertex_ao(mask, 2, 3, 4),
            masked_vertex_ao(mask, 6, 7, 0),
            masked_vertex_ao(mask, 4, 5, 6),
        ];
        assert(entry@ =~= ao_for_mask(mask));
        lookup[mask] = entry;
        mask += 1;
    }
    lookup
}

/// `x` fits in `isize`.
pub open spec fn fits_isize(x: int) -> bool {
    isize::MIN <= x <= isize::MAX
}

/// The linear offset of direction `(x, y, z)` in an array with the given strides.
pub open spec fn stride_dot(x: int, y: int, z: int, strides: Seq<usize>) -> int {
    x * strides[0] + y * strides[1] + z * strides[2]
}

/// `vector_offset` succeeds: every stride fits in `isize`, and so does every
/// product and partial sum that it forms.
pub open spec fn vector_offset_defined(x: int, y: int, z: int, strides: Seq<usize>) -> bool {
    &&& strides[0] <= isize::MAX
    &&& strides[1] <= isize::MAX
    &&& strides[2] <= isize::MAX
    &&& fits_isize(x * strides[0])
    &&& fits_isize(y * strides[1])
    &&& fits_isize(z * strides[2])
    &&& fits_isize(x * strides[0] + y * strides[1])
    &&& fits_isize(stride_dot(x, y, z, strides))
}

/// The linear offset of a direction vector in a voxel array with the given
/// strides. The caller guarantees that the offset is representable; outside
/// that range there is no offset to return.
pub fn vector_offset(direction: [i32; 3], strides: [usize; 3]) -> (offset: isize)
    requires
        vector_offset_defined(direction[0] as int, direction[1] as int, direction[2] as int, strides@),
    ensures
        offset == stride_dot(direction[0] as int, direction[1] as int, direction[2] as int, strides@),
{
    let x = direction[0] as isize * strides[0] as isize;
    let y = direction[1] as isize * strides[1] as isize;
    let z = direction[2] as isize * strides[2] as isize;
    x + y + z
}

/// Step along U (first) and V (second) of ring position `k` around the
/// face's exterior sample plane, in the ring order of `ao_for_mask`.
pub open spec fn ring_step(k: int) -> (int, int) {
    if k == 0 { (-1, 0) }
    else if k == 1 { (-1, -1) }
    else if k == 2 { (0, -1) }
    else if k == 3 { (1, -1) }
    else if k == 4 { (1, 0) }
    else if k == 5 { (1, 1) }
    else if k == 6 { (0, 1) }
    else { (-1, 1) }
}

/// Component `i` of the direction from a face's voxel to ring position `k`:
/// one step along the signed normal, then the ring step along U and V.
pub open spec fn ring_direction(face: BlockFace, k: int, i: int) -> int {
    signed_normal_at(face, i) + ring_step(k).0 * u_axis(face, i) + ring_step(k).1 * v_axis(face, i)
}

/// Linear offset of ring position `k` for the given strides.
pub open spec fn ring_offset(face: BlockFace, strides: Seq<usize>, k: int) -> int {
    stride_dot(ring_direction(face, k, 0), ring_direction(face, k, 1), ring_direction(face, k, 2), strides)
}

/// Every ring offset of the face is representable for these strides.
pub open spec fn ring_offsets_defined(face: BlockFace, strides: Seq<usize>) -> bool {
    forall|k: int| 0 <= k < 8 ==> #[trigger] vector_offset_defined(
        ring_direction(face, k, 0), ring_direction(face, k, 1), ring_direction(face, k, 2), strides)
}

proof fn lemma_set_ring_bit(mask: u8, flag: u8, bit: usize, j: usize)
    requires
        bit < 8,
        j < 8,
        flag <= 1,
        !ring_bit(mask as usize, bit),
    ensures
        ring_bit((mask | (flag << bit)) as usize, j) == if j == bit { flag == 1 } else { ring_bit(mask as usize, j) },
{
    assert(ring_bit((mask | (flag << bit)) as usize, j) == if j == bit { flag == 1 } else { ring_bit(mask as usize, j) })
        by (bit_vector)
        requires
            bit < 8,
            j < 8,
            flag <= 1,
            mask as usize & (1usize << bit) == 0;
}

proof fn lemma_unit_step(step: int, component: int)
    requires
        component == 0 || component == 1,
    ensures
        step * component == (if component == 0 { 0 } else { step }),
{
}

/// Precomputed linear offsets for sampling the AO neighborhood of one face.
///
/// Construct one sampler per face group, outside the quad loop. `strides`
/// must describe a dense linear voxel array in X/Y/Z order. Each sampler
/// carries the ring lookup table of `build_ao_lookup`.
#[derive(Clone, Copy, Debug)]
pub struct FaceAoSampler {
    strides: [usize; 3],
    neighbor_offsets: [isize; 8],
    backward_extent: usize,
    forward_extent: usize,
    ao_by_ring: [[u8; 4]; 256],
}

impl FaceAoSampler {
    #[verifier::type_invariant]
    spec fn inv(self) -> bool {
        &&& forall|m: int| 0 <= m < 256 ==> (#[trigger] self.ao_by_ring[m])@ == ao_for_mask(m as usize)
        &&& forall|k: int| 0 <= k < 8 ==>
            -(self.backward_extent as int) <= #[trigger] self.neighbor_offsets[k] <= self.forward_extent as int
    }

    /// The strides the sampler was built for.
    pub closed spec fn strides(self) -> Seq<usize> {
        self.strides@
    }

    /// Linear offset of ring position `k` from the face's voxel.
    pub closed spec fn offset(self, k: int) -> int {
        self.neighbor_offsets[k] as int
    }

    /// How far below a voxel's index the ring reaches.
    pub closed spec fn backward_extent(self) -> int {
        self.backward_extent as int
    }

    /// How far above a voxel's index the ring reaches.
    pub closed spec fn forward_extent(self) -> int {
        self.forward_extent as int
    }

    /// Linear index of the voxel at `minimum`.
    pub open spec fn base_index(self, minimum: Seq<u32>) -> int {
        minimum[0] * self.strides()[0] + minimum[1] * self.strides()[1] + minimum[2] * self.strides()[2]
    }

    /// Linear index that ring position `k` reads for the voxel at `minimum`.
    pub open spec fn sample_index(self, minimum: Seq<u32>, k: int) -> int {
        self.base_index(minimum) + self.offset(k)
    }

    /// The neighborhood of the voxel at `minimum` lies inside an array of
    /// `len` voxels, and its base index fits in `usize`.
    pub open spec fn covers(self, minimum: Seq<u32>, len: int) -> bool {
        &&& minimum[0] * self.strides()[0] <= usize::MAX
        &&& minimum[1] * self.strides()[1] <= usize::MAX
        &&& minimum[2] * self.strides()[2] <= usize::MAX
        &&& minimum[0] * self.strides()[0] + minimum[1] * self.strides()[1] <= usize::MAX
        &&& self.base_index(minimum) <= usize::MAX
        &&& self.base_index(minimum) >= self.backward_extent()
        &&& self.forward_extent() < len
        &&& self.base_index(minimum) < len - self.forward_extent()
    }

    /// The ring read for the voxel at `minimum` produced the opacity bits of
    /// `mask`: bit `k` is what `is_opaque` returned for ring position `k`.
    pub open spec fn ring_observed<T, F: Fn(&T) -> bool>(
        self,
        is_opaque: F,
        voxels: Seq<T>,
        minimum: Seq<u32>,
        mask: usize,
    ) -> bool {
        forall|k: int| 0 <= k < 8 ==> call_ensures(
            is_opaque,
            (&voxels[#[trigger] self.sample_index(minimum, k)],),
            ring_bit(mask, k as usize),
        )
    }

    /// Builds the sampler of `face` for a voxel array with the given strides.
    pub fn new(face: BlockFace, strides: [usize; 3]) -> (sampler: Self)
        requires
            ring_offsets_defined(face, strides@),
        ensures
            sampler.strides() == strides@,
            forall|k: int| 0 <= k < 8 ==> #[trigger] sampler.offset(k) == ring_offset(face, strides@, k),
            sampler.backward_extent() >= 0,
            forall|k: int| 0 <= k < 8 ==> -sampler.backward_extent() <= #[trigger] sampler.offset(k),
            sampler.backward_extent() == 0 || exists|k: int| 0 <= k < 8 && #[trigger] sampler.offset(k) == -sampler.backward_extent(),
            sampler.forward_extent() >= 0,
            forall|k: int| 0 <= k < 8 ==> #[trigger] sampler.offset(k) <= sampler.forward_extent(),
            sampler.forward_extent() == 0 || exists|k: int| 0 <= k < 8 && #[trigger] sampler.offset(k) == sampler.forward_extent(),
    {
        let corners = block_face_quad_corners(face, [0; 3], 1, 1);
        let normal = block_face_signed_normal(face);
        let u = [
            corners[1][0] as i32 - corners[0][0] as i32,
            corners[1][1] as i32 - corners[0][1] as i32,
            corners[1][2] as i32 - corners[0][2] as i32,
        ];
        let v = [
            corners[2][0] as i32 - corners[0][0] as i32,
            corners[2][1] as i32 - corners[0][1] as i32,
            corners[2][2] as i32 - corners[0][2] as i32,
        ];
        assert(forall|i: int| 0 <= i < 3 ==> u[i] == u_axis(face, i) && v[i] == v_axis(face, i));
        assert forall|i: int| 0 <= i < 3 implies (u[i] == 0 || u[i] == 1) && (v[i] == 0 || v[i] == 1)
            && ((u[i] == 0 && v[i] == 0) || normal[i] == 0) by {
            assert(normal[i] == face.n_sign * n_axis(face, i));
            if n_axis(face, i) == 0 {
                assert(face.n_sign * 0 == 0);
            }
        }
        let mut neighbor_offsets = [0isize; 8];
        let mut k: usize = 0;
        while k < 8
            invariant
                k <= 8,
                ring_offsets_defined(face, strides@),
                forall|i: int| 0 <= i < 3 ==> u[i] == u_axis(face, i) && v[i] == v_axis(face, i)
                    && normal[i] == signed_normal_at(face, i),
                forall|i: int| 0 <= i < 3 ==> (u[i] == 0 || u[i] == 1) && (v[i] == 0 || v[i] == 1)
                    && ((u[i] == 0 && v[i] == 0) || normal[i] == 0),
                forall|j: int| 0 <= j < k ==> #[trigger] neighbor_offsets[j] == ring_offset(face, strides@, j),
            decreases 8 - k,
        {
            let (du, dv): (i32, i32) = if k == 0 { (-1, 0) }
                else if k == 1 { (-1, -1) }
                else if k == 2 { (0, -1) }
                else if k == 3 { (1, -1) }
                else if k == 4 { (1, 0) }
                else if k == 5 { (1, 1) }
                else if k == 6 { (0, 1) }
                else { (-1, 1) };
            proof {
                assert forall|i: int| 0 <= i < 3 implies du * u[i] == (if u[i] == 0 { 0 } else { du as int })
                    && dv * v[i] == (if v[i] == 0 { 0 } else { dv as int }) by {
                    lemma_unit_step(du as int, u[i] as int);
                    lemma_unit_step(dv as int, v[i] as int);
                }
            }
            let direction = [
                normal[0] + du * u[0] + dv * v[0],
                normal[1] + du * u[1] + dv * v[1],
                normal[2] + du * u[2] + dv * v[2],
            ];
            assert(vector_offset_defined(
                ring_direction(face, k as int, 0), ring_direction(face, k as int, 1), ring_direction(face, k as int, 2), strides@));
            neighbor_offsets[k] = vector_offset(direction, strides);
            k += 1;
        }

        let mut min_offset = neighbor_offsets[0];
        let mut max_offset = neighbor_offsets[0];
        let mut j: usize = 1;
        while j < 8
            invariant
                1 <= j <= 8,
                forall|i: int| 0 <= i < j ==> min_offset <= #[trigger] neighbor_offsets[i] <= max_offset,
                exists|i: int| 0 <= i < j && #[trigger] neighbor_offsets[i] == min_offset,
                exists|i: int| 0 <= i < j && #[trigger] neighbor_offsets[i] == max_offset,
            decreases 8 - j,
        {
            if neighbor_offsets[j] < min_offset {
                min_offset = neighbor_offsets[j];
            }
            if neighbor_offsets[j] > max_offset {
                max_offset = neighbor_offsets[j];
            }
            j += 1;
        }

        let backward_extent: usize = if min_offset < 0 { (-(min_offset + 1)) as usize + 1 } else { 0 };
        let forward_extent: usize = if max_offset > 0 { max_offset as usize } else { 0 };
        let ghost min_at = choose|i: int| 0 <= i < 8 && #[trigger] neighbor_offsets[i] == min_offset;
        let ghost max_at = choose|i: int| 0 <= i < 8 && #[trigger] neighbor_offsets[i] == max_offset;
        let sampler = FaceAoSampler {
            strides,
            neighbor_offsets,
            backward_extent,
            forward_extent,
            ao_by_ring: build_ao_lookup(),
        };
        assert(sampler.offset(min_at) == min_offset);
        assert(sampler.offset(max_at) == max_offset);
        sampler
    }
    /// Samples the four AO values of the voxel at `minimum`: reads its eight
    /// ring neighbours, packs their opacity into a mask (bit `k` for ring
    /// position `k`) and looks the mask up. The caller guarantees that the
    /// whole neighborhood lies inside `voxels`.
    pub fn sample<T, F: Fn(&T) -> bool>(&self, voxels: &[T], minimum: [u32; 3], is_opaque: F) -> (ao: [u8; 4])
        requires
            self.covers(minimum@, voxels@.len() as int),
            forall|i: int| 0 <= i < voxels@.len() ==> is_opaque.requires((&#[trigger] voxels@[i],)),
        ensures
            exists|mask: usize| mask < 256 && #[trigger] self.ring_observed(is_opaque, voxels@, minimum@, mask)
                && ao@ == ao_for_mask(mask),
    {
        proof {
            use_type_invariant(self);
        }
        let base_index = minimum[0] as usize * self.strides[0]
            + minimum[1] as usize * self.strides[1]
            + minimum[2] as usize * self.strides[2];

        let mut opaque_mask: u8 = 0;
        assert forall|j: usize| 0 <= j < 8 implies !#[trigger] ring_bit(opaque_mask as usize, j) by {
            assert(0usize & (1usize << j) == 0) by (bit_vector);
        }
        let mut bit: usize = 0;
        while bit < 8
            invariant
                bit <= 8,
                base_index == self.base_index(minimum@),
                self.covers(minimum@, voxels@.len() as int),
                forall|i: int| 0 <= i < voxels@.len() ==> is_opaque.requires((&#[trigger] voxels@[i],)),
                forall|j: usize| bit <= j < 8 ==> !#[trigger] ring_bit(opaque_mask as usize, j),
                forall|k: int| 0 <= k < bit ==> call_ensures(
                    is_opaque,
                    (&voxels@[#[trigger] self.sample_index(minimum@, k)],),
                    ring_bit(opaque_mask as usize, k as usize),
                ),
            decreases 8 - bit,
        {
            proof {
                use_type_invariant(self);
            }
            let offset = self.neighbor_offsets[bit];
            assert(-(self.backward_extent as int) <= offset <= self.forward_extent as int);
            assert(voxels@.len() == voxels.len());
            let index = base_index.wrapping_add_signed(offset);
            assert(index == self.sample_index(minimum@, bit as int));
            let opaque = is_opaque(&voxels[index]);
            let flag: u8 = if opaque { 1 } else { 0 };
            let ghost old_mask = opaque_mask;
            opaque_mask = opaque_mask | (flag << bit);
            proof {
                assert forall|j: usize| j < 8 implies #[trigger] ring_bit(opaque_mask as usize, j)
                    == if j == bit { flag == 1 } else { ring_bit(old_mask as usize, j) } by {
                    lemma_set_ring_bit(old_mask, flag, bit, j);
                }
                assert forall|k: int| 0 <= k <= bit implies call_ensures(
                    is_opaque,
                    (&voxels@[#[trigger] self.sample_index(minimum@, k)],),
                    ring_bit(opaque_mask as usize, k as usize),
                ) by {
                    assert(ring_bit(opaque_mask as usize, k as usize)
                        == if k == bit { flag == 1 } else { ring_bit(old_mask as usize, k as usize) });
                }
            }
            bit += 1;
        }
        let ao = self.ao_by_ring[opaque_mask as usize];
        assert(self.ring_observed(is_opaque, voxels@, minimum@, opaque_mask as usize));
        ao
    }
}

/// Linear index, in a dense X/Y/Z array whose rows hold `ex` voxels and whose
/// layers hold `ey` rows, of the voxel at coordinates `(x, y, z)`.
pub open spec fn dense_index(ex: int, ey: int, x: int, y: int, z: int) -> int {
    x + ex * (y + ey * z)
}

/// A sampler built for a dense X/Y/Z array reads, for ring position `k` of
/// the voxel at `minimum`, exactly the voxel at coordinates
/// `minimum + normal + du * U + dv * V`: offset-based sampling agrees with
/// sampling by coordinates, for every face orientation.
pub proof fn lemma_sampler_reads_ring_coordinates(
    sampler: FaceAoSampler,
    face: BlockFace,
    ex: usize,
    ey: usize,
    minimum: Seq<u32>,
    k: int,
)
    requires
        0 <= k < 8,
        ex * ey <= usize::MAX,
        sampler.strides() == seq![1usize, ex, (ex * ey) as usize],
        sampler.offset(k) == ring_offset(face, sampler.strides(), k),
    ensures
        sampler.sample_index(minimum, k) == dense_index(
            ex as int,
            ey as int,
            minimum[0] + ring_direction(face, k, 0),
            minimum[1] + ring_direction(face, k, 1),
            minimum[2] + ring_direction(face, k, 2),
        ),
{
    let s = sampler.strides();
    let d0 = ring_direction(face, k, 0);
    let d1 = ring_direction(face, k, 1);
    let d2 = ring_direction(face, k, 2);
    let m0 = minimum[0] as int;
    let m1 = minimum[1] as int;
    let m2 = minimum[2] as int;
    let a = ex as int;
    let b = ey as int;
    assert(s[0] == 1 && s[1] == a && s[2] == a * b);
    assert(m0 * 1 + m1 * a + m2 * (a * b) + (d0 * 1 + d1 * a + d2 * (a * b))
        == (m0 + d0) + a * ((m1 + d1) + b * (m2 + d2))) by (nonlinear_arith);
}

/// Opacity of ring position `k` of the voxel at `minimum`, read by
/// coordinates in a dense X/Y/Z array.
pub open spec fn coordinate_ring_opacity<T>(
    opaque: spec_fn(T) -> bool,
    voxels: Seq<T>,
    face: BlockFace,
    ex: int,
    ey: int,
    minimum: Seq<u32>,
    k: int,
) -> bool {
    opaque(voxels[dense_index(
        ex,
        ey,
        minimum[0] + ring_direction(face, k, 0),
        minimum[1] + ring_direction(face, k, 1),
        minimum[2] + ring_direction(face, k, 2),
    )])
}

/// The four vertex AO levels of the voxel at `minimum`, computed directly
/// from the opacity of its ring neighbours read by coordinates.
pub open spec fn coordinate_reference_ao<T>(
    opaque: spec_fn(T) -> bool,
    voxels: Seq<T>,
    face: BlockFace,
    ex: int,
    ey: int,
    minimum: Seq<u32>,
) -> Seq<u8> {
    let o = |k: int| coordinate_ring_opacity(opaque, voxels, face, ex, ey, minimum, k);
    seq![
        vertex_ao_level(o(0), o(1), o(2)),
        vertex_ao_level(o(2), o(3), o(4)),
        vertex_ao_level(o(6), o(7), o(0)),
        vertex_ao_level(o(4), o(5), o(6)),
    ]
}

/// For a sampler built for a dense X/Y/Z array and an opacity test that
/// computes `opaque`, the AO levels that `sample` returns (the lookup of the
/// ring mask it observed) equal the levels computed by coordinates, for
/// every face orientation.
pub proof fn lemma_sample_matches_coordinate_reference<T, F: Fn(&T) -> bool>(
    sampler: FaceAoSampler,
    face: BlockFace,
    ex: usize,
    ey: usize,
    voxels: Seq<T>,
    minimum: Seq<u32>,
    is_opaque: F,
    opaque: spec_fn(T) -> bool,
    mask: usize,
)
    requires
        ex * ey <= usize::MAX,
        sampler.strides() == seq![1usize, ex, (ex * ey) as usize],
        forall|k: int| 0 <= k < 8 ==> #[trigger] sampler.offset(k) == ring_offset(face, sampler.strides(), k),
        forall|t: T, b: bool| call_ensures(is_opaque, (&t,), b) ==> b == opaque(t),
        sampler.ring_observed(is_opaque, voxels, minimum, mask),
    ensures
        ao_for_mask(mask) == coordinate_reference_ao(opaque, voxels, face, ex as int, ey as int, minimum),
{
    assert forall|k: int| 0 <= k < 8 implies ring_bit(mask, k as usize)
        == coordinate_ring_opacity(opaque, voxels, face, ex as int, ey as int, minimum, k) by {
        lemma_sampler_reads_ring_coordinates(sampler, face, ex, ey, minimum, k);
        let t = voxels[sampler.sample_index(minimum, k)];
        assert(call_ensures(is_opaque, (&t,), ring_bit(mask, k as usize)));
    }
    assert(ao_for_mask(mask) =~= coordinate_reference_ao(opaque, voxels, face, ex as int, ey as int, minimum));
}

} // verus!
