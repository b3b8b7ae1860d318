use codex_beacon::desktop::{
    snap_axis, snap_axis_fits, snapped_stage_fits, snapped_stage_position, IslandMode,
    IslandWindowState,
};

#[test]
fn island_stage_snaps_by_the_visible_island_edges() {
    let stage_width = 820;
    let collapsed = (510, 68);
    let work_area = (0, 0, 1920, 1040);

    assert_eq!(
        snapped_stage_position((-150, 200), stage_width, collapsed, work_area, 16, 12),
        (-143, 200)
    );
    assert_eq!(
        snapped_stage_position((1250, 954), stage_width, collapsed, work_area, 16, 12),
        (1243, 960)
    );
    assert_eq!(
        snapped_stage_position((300, 300), stage_width, collapsed, work_area, 16, 12),
        (300, 300)
    );
    assert_eq!(
        snapped_stage_position(
            (-2070, 200),
            stage_width,
            collapsed,
            (-1920, 0, 1920, 1040),
            16,
            12,
        ),
        (-2063, 200)
    );
}

#[test]
fn snapping_twice_keeps_the_first_position() {
    let work_area = (0, 0, 1920, 1040);
    let once = snapped_stage_position((1250, 954), 820, (510, 68), work_area, 16, 12);
    assert_eq!(snapped_stage_position(once, 820, (510, 68), work_area, 16, 12), once);
    let start = snapped_stage_position((-150, 20), 820, (510, 68), work_area, 16, 12);
    assert_eq!(start, (-143, 12));
    assert_eq!(snapped_stage_position(start, 820, (510, 68), work_area, 16, 12), start);
}

#[test]
fn the_nearer_edge_wins_when_both_are_close() {
    // A work area barely larger than the island: both edges lie within the threshold.
    assert_eq!(snap_axis(10, 0, 100, 0, 130, 16, 12), 12);
    assert_eq!(snap_axis(20, 0, 100, 0, 130, 16, 12), 18);
}

#[test]
fn odd_padding_rounds_toward_zero() {
    // (501 - 510) / 2 rounds toward zero to -4.
    assert_eq!(snapped_stage_position((100, 300), 501, (510, 68), (0, 0, 1920, 1040), 0, 0), (100, 300));
    assert_eq!(snapped_stage_position((15, 300), 501, (510, 68), (0, 0, 1920, 1040), 16, 12), (16, 300));
}

#[test]
fn island_modes_are_read_from_their_names() {
    assert_eq!(IslandMode::from_value("collapsed"), Ok(IslandMode::Collapsed));
    assert_eq!(IslandMode::from_value("expanded"), Ok(IslandMode::Expanded));
    assert_eq!(
        IslandMode::from_value("floating"),
        Err("Unsupported island mode: floating".to_string())
    );
}

#[test]
fn island_starts_collapsed_without_a_task() {
    let state = IslandWindowState::default();
    assert_eq!(state.mode, IslandMode::Collapsed);
    assert!(!state.has_task);
}

#[test]
fn a_far_left_window_stays_in_place() {
    assert!(snap_axis_fits(i32::MIN, 0, 10, -100, 100, 5, 0));
    assert_eq!(snap_axis(i32::MIN, 0, 10, -100, 100, 5, 0), i32::MIN);
    assert!(!snap_axis_fits(i32::MAX, 1, 10, 0, 100, 5, 0));
    assert!(snapped_stage_fits((1250, 954), 820, (510, 68), (0, 0, 1920, 1040), 16, 12));
    assert!(!snapped_stage_fits((0, 0), i32::MIN, (1, 1), (0, 0, 10, 10), 1, 1));
}
