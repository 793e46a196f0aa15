use prototype_voxel_template::app_controls::{should_recapture_cursor, CursorGrab, CursorLockState, CursorPlan, InspectorMode};

#[test]
fn locking_swallows_one_motion() {
    let mut state = CursorLockState::default();
    assert!(!state.suppress_motion(true));
    let plan = state.set_cursor_locked(true);
    assert_eq!(plan, CursorPlan { visible: false, grab: CursorGrab::Locked, recenter: true });
    assert!(!state.suppress_motion(false));
    assert!(state.suppress_motion(true));
    assert!(!state.suppress_motion(true));
}

#[test]
fn releasing_shows_the_cursor() {
    let mut state = CursorLockState::default();
    let plan = state.set_cursor_locked(false);
    assert_eq!(plan, CursorPlan { visible: true, grab: CursorGrab::Free, recenter: false });
    assert!(!state.ignore_next_motion);
}

#[test]
fn inspector_toggles_and_blocks_recapture() {
    let mut mode = InspectorMode::default();
    assert!(mode.toggle());
    assert!(!should_recapture_cursor(mode.enabled, true));
    assert!(!mode.toggle());
    assert!(should_recapture_cursor(mode.enabled, true));
    assert!(!should_recapture_cursor(mode.enabled, false));
}
