//! The state of one voxel of the world.

use vstd::prelude::*;

verus! {

/// One voxel: not generated yet, empty, or solid with a material index.
#[derive(Clone, Copy, Debug, PartialEq, Eq, Structural)]
pub enum WorldVoxel {
    Unset,
    Air,
    Solid(u8),
}

impl WorldVoxel {
    /// Only solid voxels hide what is behind them; unset and air voxels are
    /// empty.
    pub open spec fn spec_is_opaque(&self) -> bool {
        self is Solid
    }

    /// Whether the voxel is opaque.
    #[verifier::when_used_as_spec(spec_is_opaque)]
    pub fn is_opaque(&self) -> (opaque: bool)
        ensures
            opaque == self.spec_is_opaque(),
    {
        matches!(self, WorldVoxel::Solid(_))
    }
}

} // verus!
