//! Player rules: when the player sprints, when a held jump is dropped, and
//! which chunks must be remeshed after a voxel edit.

use vstd::prelude::*;
use crate::terrain::CHUNK_SIZE;
use crate::voxel::WorldVoxel;

verus! {

/// The player sprints while holding either shift key together with W, with
/// neither control key held and without crouching.
pub fn is_sprinting(
    shift_left: bool,
    shift_right: bool,
    forward: bool,
    control_left: bool,
    control_right: bool,
    crouching: bool,
) -> (sprinting: bool)
    ensures
        sprinting == ((shift_left || shift_right) && forward && !control_left && !control_right && !crouching),
{
    (shift_left || shift_right) && forward && !control_left && !control_right && !crouching
}

/// Whether the player was grounded the last time the jump key was seen.
#[derive(Clone, Copy, Debug, PartialEq, Eq, Structural)]
pub struct HeldJumpFilter {
    pub was_grounded: bool,
}

/// One step of the held-jump filter: the new `was_grounded` and whether the
/// buffered jump must be dropped. Without the jump key the filter only
/// records whether the player is grounded. With it held in the air the
/// filter forgets the ground. With it held on the ground the jump is dropped
/// unless the player was already grounded, so a jump held through a landing
/// does not fire on touchdown.
pub open spec fn held_jump_step(was_grounded: bool, holding_jump: bool, grounded: bool) -> (bool, bool) {
    if !holding_jump {
        (grounded, false)
    } else if !grounded {
        (false, false)
    } else {
        (true, !was_grounded)
    }
}

impl HeldJumpFilter {
    /// Advances the filter by one frame and says whether the buffered jump
    /// must be dropped.
    pub fn update(&mut self, holding_jump: bool, grounded: bool) -> (drop_jump: bool)
        ensures
            (final(self).was_grounded, drop_jump) == held_jump_step(old(self).was_grounded, holding_jump, grounded),
    {
        if !holding_jump {
            self.was_grounded = grounded;
            return false;
        }

        if !grounded {
            self.was_grounded = false;
            return false;
        }

        let drop_jump = !self.was_grounded;
        self.was_grounded = true;
        drop_jump
    }
}

impl Default for HeldJumpFilter {
    /// A filter that has not seen the ground.
    fn default() -> (filter: Self)
        ensures
            !filter.was_grounded,
    {
        HeldJumpFilter { was_grounded: false }
    }
}

/// A jump key held in the air and still held on landing never jumps on the
/// landing frame, and keeping it held on the ground after that lets the jump
/// through.
pub proof fn lemma_held_jump_through_landing(was_grounded: bool)
    ensures
        ({
            let airborne = held_jump_step(was_grounded, true, false);
            let landing = held_jump_step(airborne.0, true, true);
            let standing = held_jump_step(landing.0, true, true);
            &&& landing.1
            &&& !standing.1
        }),
{
}

/// A frame without the jump key never drops a jump and leaves the filter
/// knowing exactly whether the player is grounded, whatever it knew before;
/// so a jump pressed on the ground right after a grounded frame without the
/// key goes through, and one pressed on the ground right after a frame in
/// the air is dropped.
pub proof fn lemma_released_jump_tracks_ground(was_grounded: bool, other: bool, grounded: bool)
    ensures
        !held_jump_step(was_grounded, false, grounded).1,
        held_jump_step(was_grounded, false, grounded).0 == grounded,
        held_jump_step(was_grounded, false, grounded) == held_jump_step(other, false, grounded),
        !held_jump_step(held_jump_step(was_grounded, false, true).0, true, true).1,
        held_jump_step(held_jump_step(was_grounded, false, false).0, true, true).1,
        held_jump_step(held_jump_step(was_grounded, true, false).0, true, true).1,
{
}

/// The jump is dropped only on a frame where it is held on the ground, and
/// there exactly when the previous frame did not end on the ground.
pub proof fn lemma_drop_only_on_grounded_press(was_grounded: bool, holding_jump: bool, grounded: bool)
    ensures
        held_jump_step(was_grounded, holding_jump, grounded).1 <==> (holding_jump && grounded && !was_grounded),
        holding_jump ==> held_jump_step(was_grounded, holding_jump, grounded).0 == grounded,
{
}

/// Whether an edit may place a voxel into a cell holding `voxel`: only empty
/// (air or unset) cells take a new voxel.
pub fn is_replaceable(voxel: WorldVoxel) -> (replaceable: bool)
    ensures
        replaceable == (voxel is Air || voxel is Unset),
{
    matches!(voxel, WorldVoxel::Air | WorldVoxel::Unset)
}

/// Setting a voxel changes the world only when it differs from what is
/// there.
pub fn needs_voxel_update(current: WorldVoxel, desired: WorldVoxel) -> (update: bool)
    ensures
        update == (current != desired),
{
    current != desired
}

/// Position of a voxel along one axis inside its chunk, `0..CHUNK_SIZE`.
pub open spec fn local_coord(v: i32) -> int {
    (v as int) % (CHUNK_SIZE as int)
}

/// Chunk coordinate of a voxel coordinate along one axis (floor division).
pub open spec fn chunk_coord(v: int) -> int {
    v / (CHUNK_SIZE as int)
}

/// Neighbours of `position` that lie in another chunk, and so whose chunk
/// must be remeshed after `position` changes: the -X and +X neighbours when
/// the voxel is on the low or high X face of its chunk, then the same for Y,
/// then for Z.
pub open spec fn neighbours_across_chunk_faces(position: (i32, i32, i32)) -> Seq<(i32, i32, i32)> {
    let (x, y, z) = position;
    let last = CHUNK_SIZE - 1;
    (if local_coord(x) == 0 { seq![((x - 1) as i32, y, z)] } else { Seq::empty() })
        + (if local_coord(x) == last { seq![((x + 1) as i32, y, z)] } else { Seq::empty() })
        + (if local_coord(y) == 0 { seq![(x, (y - 1) as i32, z)] } else { Seq::empty() })
        + (if local_coord(y) == last { seq![(x, (y + 1) as i32, z)] } else { Seq::empty() })
        + (if local_coord(z) == 0 { seq![(x, y, (z - 1) as i32)] } else { Seq::empty() })
        + (if local_coord(z) == last { seq![(x, y, (z + 1) as i32)] } else { Seq::empty() })
}

/// No component of the position is at the end of the `i32` range.
pub open spec fn position_has_neighbours(position: (i32, i32, i32)) -> bool {
    &&& i32::MIN < position.0 < i32::MAX
    &&& i32::MIN < position.1 < i32::MAX
    &&& i32::MIN < position.2 < i32::MAX
}

fn local_coordinate(v: i32) -> (local: i32)
    ensures
        local == local_coord(v),
        0 <= local < CHUNK_SIZE,
{
    match v.checked_rem_euclid(CHUNK_SIZE) {
        Some(local) => local,
        None => 0,
    }
}

/// The neighbours of an edited voxel whose chunks must be remeshed too.
pub fn adjacent_chunk_neighbours(position: (i32, i32, i32)) -> (marks: Vec<(i32, i32, i32)>)
    requires
        position_has_neighbours(position),
    ensures
        marks@ == neighbours_across_chunk_faces(position),
{
    let (x, y, z) = position;
    let last = CHUNK_SIZE - 1;
    let local_x = local_coordinate(x);
    let local_y = local_coordinate(y);
    let local_z = local_coordinate(z);
    let mut marks: Vec<(i32, i32, i32)> = Vec::new();

    if local_x == 0 {
        marks.push((x - 1, y, z));
    }
    if local_x == last {
        marks.push((x + 1, y, z));
    }
    if local_y == 0 {
        marks.push((x, y - 1, z));
    }
    if local_y == last {
        marks.push((x, y + 1, z));
    }
    if local_z == 0 {
        marks.push((x, y, z - 1));
    }
    if local_z == last {
        marks.push((x, y, z + 1));
    }
    assert(marks@ =~= neighbours_across_chunk_faces(position));
    marks
}

/// The chunk holding a voxel.
pub fn chunk_position(position: (i32, i32, i32)) -> (chunk: (i32, i32, i32))
    ensures
        chunk.0 == chunk_coord(position.0 as int),
        chunk.1 == chunk_coord(position.1 as int),
        chunk.2 == chunk_coord(position.2 as int),
{
    let (x, y, z) = position;
    let cx = match x.checked_div_euclid(CHUNK_SIZE) { Some(c) => c, None => 0 };
    let cy = match y.checked_div_euclid(CHUNK_SIZE) { Some(c) => c, None => 0 };
    let cz = match z.checked_div_euclid(CHUNK_SIZE) { Some(c) => c, None => 0 };
    (cx, cy, cz)
}

/// Along one axis, the step from `v` to `v + step` (one voxel either way)
/// leaves the chunk exactly when `v` is on that face of its chunk.
pub proof fn lemma_step_leaves_chunk(v: i32)
    ensures
        chunk_coord(v - 1) != chunk_coord(v as int) <==> local_coord(v) == 0,
        chunk_coord(v + 1) != chunk_coord(v as int) <==> local_coord(v) == CHUNK_SIZE - 1,
        chunk_coord(v - 1) == chunk_coord(v as int) || chunk_coord(v - 1) == chunk_coord(v as int) - 1,
        chunk_coord(v + 1) == chunk_coord(v as int) || chunk_coord(v + 1) == chunk_coord(v as int) + 1,
{
}

/// The voxels whose chunks get remeshed after an edit are exactly the six
/// axis neighbours that lie in a different chunk than the edited voxel.
pub proof fn lemma_marks_are_neighbours_in_other_chunks(position: (i32, i32, i32))
    requires
        position_has_neighbours(position),
    ensures
        neighbours_across_chunk_faces(position).contains(((position.0 - 1) as i32, position.1, position.2))
            <==> chunk_coord(position.0 - 1) != chunk_coord(position.0 as int),
        neighbours_across_chunk_faces(position).contains(((position.0 + 1) as i32, position.1, position.2))
            <==> chunk_coord(position.0 + 1) != chunk_coord(position.0 as int),
        neighbours_across_chunk_faces(position).contains((position.0, (position.1 - 1) as i32, position.2))
            <==> chunk_coord(position.1 - 1) != chunk_coord(position.1 as int),
        neighbours_across_chunk_faces(position).contains((position.0, (position.1 + 1) as i32, position.2))
            <==> chunk_coord(position.1 + 1) != chunk_coord(position.1 as int),
        neighbours_across_chunk_faces(position).contains((position.0, position.1, (position.2 - 1) as i32))
            <==> chunk_coord(position.2 - 1) != chunk_coord(position.2 as int),
        neighbours_across_chunk_faces(position).contains((position.0, position.1, (position.2 + 1) as i32))
            <==> chunk_coord(position.2 + 1) != chunk_coord(position.2 as int),
{
    let (x, y, z) = position;
    lemma_step_leaves_chunk(x);
    lemma_step_leaves_chunk(y);
    lemma_step_leaves_chunk(z);
    broadcast use vstd::seq_lib::lemma_seq_concat_contains_all_elements;
    assert forall|c: (i32, i32, i32)| #[trigger] seq![c].contains(c) by {
        assert(seq![c][0] == c);
    }
    assert(forall|c: (i32, i32, i32), d: (i32, i32, i32)| #[trigger] seq![c].contains(d) ==> c == d);
    assert(forall|d: (i32, i32, i32)| !Seq::<(i32, i32, i32)>::empty().contains(d));
}

} // verus!
