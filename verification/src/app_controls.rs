//! Cursor and inspector rules: locking the cursor, swallowing the mouse jump
//! that follows a lock, and when a click recaptures the cursor.

use vstd::prelude::*;

verus! {

/// Whether the world inspector is shown.
#[derive(Clone, Copy, Debug, PartialEq, Eq, Structural)]
pub struct InspectorMode {
    pub enabled: bool,
}

impl InspectorMode {
    /// Shows the inspector if it was hidden and hides it if it was shown;
    /// returns whether it is now shown.
    pub fn toggle(&mut self) -> (enabled: bool)
        ensures
            final(self).enabled == !old(self).enabled,
            enabled == final(self).enabled,
    {
        self.enabled = !self.enabled;
        self.enabled
    }
}

impl Default for InspectorMode {
    /// The inspector starts hidden.
    fn default() -> (mode: Self)
        ensures
            !mode.enabled,
    {
        InspectorMode { enabled: false }
    }
}

/// How the window's cursor is grabbed.
#[derive(Clone, Copy, Debug, PartialEq, Eq, Structural)]
pub enum CursorGrab {
    Free,
    Locked,
}

/// What locking or releasing the cursor does to the window: the cursor's
/// visibility and grab mode, and whether the cursor is moved to the centre
/// of the window first.
#[derive(Clone, Copy, Debug, PartialEq, Eq, Structural)]
pub struct CursorPlan {
    pub visible: bool,
    pub grab: CursorGrab,
    pub recenter: bool,
}

/// Whether the next mouse motion is swallowed: moving a locked cursor to the
/// window's centre produces one spurious motion.
#[derive(Clone, Copy, Debug, PartialEq, Eq, Structural)]
pub struct CursorLockState {
    pub ignore_next_motion: bool,
}

/// One frame of motion suppression: the new flag and whether this frame's
/// motion is swallowed. A frame without motion keeps the flag.
pub open spec fn suppress_step(ignore_next_motion: bool, has_motion: bool) -> (bool, bool) {
    if ignore_next_motion && has_motion {
        (false, true)
    } else {
        (ignore_next_motion, false)
    }
}

impl CursorLockState {
    /// Makes the next mouse motion be swallowed.
    pub fn arm_motion_suppression(&mut self)
        ensures
            final(self).ignore_next_motion,
    {
        self.ignore_next_motion = true;
    }

    /// Whether this frame's mouse motion is to be zeroed; `has_motion` says
    /// whether it is non-zero.
    pub fn suppress_motion(&mut self, has_motion: bool) -> (suppress: bool)
        ensures
            (final(self).ignore_next_motion, suppress) == suppress_step(old(self).ignore_next_motion, has_motion),
    {
        if self.ignore_next_motion && has_motion {
            self.ignore_next_motion = false;
            return true;
        }
        false
    }

    /// Locks (centred, hidden, grabbed, next motion swallowed) or releases
    /// (visible, free) the cursor.
    pub fn set_cursor_locked(&mut self, locked: bool) -> (plan: CursorPlan)
        ensures
            locked ==> plan == (CursorPlan { visible: false, grab: CursorGrab::Locked, recenter: true }),
            locked ==> final(self).ignore_next_motion,
            !locked ==> plan == (CursorPlan { visible: true, grab: CursorGrab::Free, recenter: false }),
            !locked ==> *final(self) == *old(self),
    {
        if locked {
            self.arm_motion_suppression();
            CursorPlan { visible: false, grab: CursorGrab::Locked, recenter: true }
        } else {
            CursorPlan { visible: true, grab: CursorGrab::Free, recenter: false }
        }
    }
}

impl Default for CursorLockState {
    /// Nothing is swallowed until the cursor is locked.
    fn default() -> (state: Self)
        ensures
            !state.ignore_next_motion,
    {
        CursorLockState { ignore_next_motion: false }
    }
}

/// Frames without mouse motion neither swallow anything nor change the
/// flag; the first frame with motion after arming is swallowed and disarms
/// the flag, so only one motion is ever swallowed per lock.
pub proof fn lemma_suppression_swallows_one_motion(ignore_next_motion: bool, has_motion: bool)
    ensures
        !has_motion ==> suppress_step(ignore_next_motion, has_motion) == (ignore_next_motion, false),
        has_motion ==> suppress_step(ignore_next_motion, has_motion) == (false, ignore_next_motion),
        !suppress_step(false, has_motion).1,
{
}

/// A click recaptures the cursor only when the inspector is hidden and the
/// cursor is visible.
pub fn should_recapture_cursor(inspector_enabled: bool, cursor_visible: bool) -> (recapture: bool)
    ensures
        recapture == (!inspector_enabled && cursor_visible),
{
    !inspector_enabled && cursor_visible
}

} // verus!
