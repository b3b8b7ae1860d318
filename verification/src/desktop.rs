//! The island window's pure decisions: which interaction mode a request names, and
//! where the stage window goes when the visible island is dropped near a screen edge.
use vstd::prelude::*;
use crate::text::{concat_text, str_is};

verus! {

/// How the island is shown.
#[derive(Clone, Copy, Debug, PartialEq, Eq, Structural)]
pub enum IslandMode {
    Collapsed,
    Expanded,
}

/// The interaction state of the island window.
#[derive(Clone, Copy, Debug, PartialEq, Eq, Structural)]
pub struct IslandWindowState {
    pub mode: IslandMode,
    pub has_task: bool,
}

impl Default for IslandWindowState {
    /// A collapsed island with no task.
    fn default() -> (r: Self)
        ensures
            r.mode == IslandMode::Collapsed,
            !r.has_task,
    {
        IslandWindowState { mode: IslandMode::Collapsed, has_task: false }
    }
}

impl IslandMode {
    /// The mode a request names: `collapsed` or `expanded`; any other name is refused.
    pub fn from_value(value: &str) -> (r: Result<IslandMode, String>)
        ensures
            value@ == "collapsed"@ ==> r == Ok::<IslandMode, String>(IslandMode::Collapsed),
            value@ == "expanded"@ ==> r == Ok::<IslandMode, String>(IslandMode::Expanded),
            value@ != "collapsed"@ && value@ != "expanded"@ ==> (r is Err && r->Err_0@
                == "Unsupported island mode: "@ + value@),
    {
        proof {
            reveal_strlit("collapsed");
            reveal_strlit("expanded");
            assert("collapsed"@[0] != "expanded"@[0]);
        }
        if str_is(value, "collapsed") {
            Ok(IslandMode::Collapsed)
        } else if str_is(value, "expanded") {
            Ok(IslandMode::Expanded)
        } else {
            Err(concat_text("Unsupported island mode: ", value))
        }
    }
}

} // verus!

verus! {

/// Whether an integer fits in an `i32`.
pub open spec fn in_i32(x: int) -> bool {
    i32::MIN <= x <= i32::MAX
}

/// Whether the snap along one axis computes without `i32` overflow: the visible edges,
/// the targets and the two differences (whose absolute value is taken, so they must
/// not be `i32::MIN`) fit, and so does the position of the branch taken.
pub open spec fn axis_fits(
    position: int,
    visible_offset: int,
    visible_size: int,
    work_start: int,
    work_size: int,
    threshold: int,
    margin: int,
) -> bool {
    let visible_start = position + visible_offset;
    let visible_end = visible_start + visible_size;
    let target_start = work_start + margin;
    let target_end = work_start + work_size - margin;
    let start_distance = distance(visible_start, target_start);
    let end_distance = distance(visible_end, target_end);
    &&& in_i32(visible_start)
    &&& in_i32(visible_end)
    &&& in_i32(target_start)
    &&& in_i32(work_start + work_size)
    &&& in_i32(target_end)
    &&& i32::MIN < visible_start - target_start <= i32::MAX
    &&& i32::MIN < visible_end - target_end <= i32::MAX
    &&& start_distance <= threshold && start_distance <= end_distance ==> in_i32(
        target_start - visible_offset,
    )
    &&& !(start_distance <= threshold && start_distance <= end_distance) && end_distance
        <= threshold ==> in_i32(target_end - visible_size) && in_i32(
        target_end - visible_size - visible_offset,
    )
}

/// The distance between two integers.
pub open spec fn distance(a: int, b: int) -> int {
    if a >= b {
        a - b
    } else {
        b - a
    }
}

/// Where a window goes along one axis: when the visible part's start edge lies within
/// `threshold` of the work area's start inset by `margin`, and no farther than its end
/// edge from the inset end, the start edge is put on the inset start; else, when the
/// end edge lies within `threshold` of the inset end, the end edge is put there; else
/// the window stays.
pub open spec fn snapped_axis(
    position: int,
    visible_offset: int,
    visible_size: int,
    work_start: int,
    work_size: int,
    threshold: int,
    margin: int,
) -> int {
    let visible_start = position + visible_offset;
    let visible_end = visible_start + visible_size;
    let target_start = work_start + margin;
    let target_end = work_start + work_size - margin;
    let start_distance = distance(visible_start, target_start);
    let end_distance = distance(visible_end, target_end);
    if start_distance <= threshold && start_distance <= end_distance {
        target_start - visible_offset
    } else if end_distance <= threshold {
        target_end - visible_size - visible_offset
    } else {
        position
    }
}

/// The snapped position along one axis, as `snapped_axis` says.
pub fn snap_axis(
    position: i32,
    visible_offset: i32,
    visible_size: i32,
    work_start: i32,
    work_size: i32,
    threshold: i32,
    margin: i32,
) -> (r: i32)
    requires
        axis_fits(
            position as int,
            visible_offset as int,
            visible_size as int,
            work_start as int,
            work_size as int,
            threshold as int,
            margin as int,
        ),
    ensures
        r == snapped_axis(
            position as int,
            visible_offset as int,
            visible_size as int,
            work_start as int,
            work_size as int,
            threshold as int,
            margin as int,
        ),
{
    let visible_start = position + visible_offset;
    let visible_end = visible_start + visible_size;
    let target_start = work_start + margin;
    let target_end = work_start + work_size - margin;
    let start_difference = visible_start - target_start;
    let start_distance = if start_difference >= 0 {
        start_difference
    } else {
        -start_difference
    };
    let end_difference = visible_end - target_end;
    let end_distance = if end_difference >= 0 {
        end_difference
    } else {
        -end_difference
    };
    if start_distance <= threshold && start_distance <= end_distance {
        target_start - visible_offset
    } else if end_distance <= threshold {
        target_end - visible_size - visible_offset
    } else {
        position
    }
}

/// Half of an integer, rounded toward zero, as Rust's `/` rounds.
pub open spec fn half_toward_zero(x: int) -> int {
    if x >= 0 {
        x / 2
    } else {
        -((-x) / 2)
    }
}

/// Where the stage window goes so that the visible island, centred in the stage
/// horizontally and at its top, snaps to the edges of the work area
/// `(x, y, width, height)`.
pub open spec fn snapped_stage(
    position: (i32, i32),
    stage_width: i32,
    island_size: (i32, i32),
    work_area: (i32, i32, i32, i32),
    threshold: i32,
    margin: i32,
) -> (int, int) {
    let side_padding = half_toward_zero(stage_width - island_size.0);
    (
        snapped_axis(
            position.0 as int,
            side_padding,
            island_size.0 as int,
            work_area.0 as int,
            work_area.2 as int,
            threshold as int,
            margin as int,
        ),
        snapped_axis(
            position.1 as int,
            0,
            island_size.1 as int,
            work_area.1 as int,
            work_area.3 as int,
            threshold as int,
            margin as int,
        ),
    )
}

/// The stage position after snapping, as `snapped_stage` says.
pub fn snapped_stage_position(
    position: (i32, i32),
    stage_width: i32,
    island_size: (i32, i32),
    work_area: (i32, i32, i32, i32),
    threshold: i32,
    margin: i32,
) -> (r: (i32, i32))
    requires
        i32::MIN <= stage_width - island_size.0 <= i32::MAX,
        axis_fits(
            position.0 as int,
            half_toward_zero(stage_width - island_size.0),
            island_size.0 as int,
            work_area.0 as int,
            work_area.2 as int,
            threshold as int,
            margin as int,
        ),
        axis_fits(
            position.1 as int,
            0,
            island_size.1 as int,
            work_area.1 as int,
            work_area.3 as int,
            threshold as int,
            margin as int,
        ),
    ensures
        (r.0 as int, r.1 as int) == snapped_stage(
            position,
            stage_width,
            island_size,
            work_area,
            threshold,
            margin,
        ),
{
    let padding_twice = stage_width - island_size.0;
    let side_padding = if padding_twice >= 0 {
        padding_twice / 2
    } else {
        -((-(padding_twice as i64)) / 2) as i32
    };
    (
        snap_axis(
            position.0,
            side_padding,
            island_size.0,
            work_area.0,
            work_area.2,
            threshold,
            margin,
        ),
        snap_axis(position.1, 0, island_size.1, work_area.1, work_area.3, threshold, margin),
    )
}

} // verus!

verus! {

/// Snapping a window that was just snapped leaves it where it is.
pub proof fn lemma_snapped_axis_is_stable(
    position: int,
    visible_offset: int,
    visible_size: int,
    work_start: int,
    work_size: int,
    threshold: int,
    margin: int,
)
    ensures
        ({
            let once = snapped_axis(
                position,
                visible_offset,
                visible_size,
                work_start,
                work_size,
                threshold,
                margin,
            );
            snapped_axis(once, visible_offset, visible_size, work_start, work_size, threshold, margin)
                == once
        }),
{
}

/// Snapping the stage window a second time leaves it where the first snap put it.
pub proof fn lemma_snapped_stage_is_stable(
    position: (i32, i32),
    stage_width: i32,
    island_size: (i32, i32),
    work_area: (i32, i32, i32, i32),
    threshold: i32,
    margin: i32,
)
    requires
        i32::MIN <= snapped_stage(position, stage_width, island_size, work_area, threshold, margin).0 <= i32::MAX,
        i32::MIN <= snapped_stage(position, stage_width, island_size, work_area, threshold, margin).1 <= i32::MAX,
    ensures
        ({
            let once = snapped_stage(position, stage_width, island_size, work_area, threshold, margin);
            snapped_stage(
                (once.0 as i32, once.1 as i32),
                stage_width,
                island_size,
                work_area,
                threshold,
                margin,
            ) == once
        }),
{
    let side_padding = half_toward_zero(stage_width - island_size.0);
    lemma_snapped_axis_is_stable(
        position.0 as int,
        side_padding,
        island_size.0 as int,
        work_area.0 as int,
        work_area.2 as int,
        threshold as int,
        margin as int,
    );
    lemma_snapped_axis_is_stable(
        position.1 as int,
        0,
        island_size.1 as int,
        work_area.1 as int,
        work_area.3 as int,
        threshold as int,
        margin as int,
    );
}

} // verus!

verus! {

/// Whether an `i64` fits in an `i32`.
fn fits_i32(x: i64) -> (r: bool)
    ensures
        r == in_i32(x as int),
{
    -2147483648 <= x && x <= 2147483647
}

/// Whether the snap along one axis computes without overflow, as `axis_fits` says.
pub fn snap_axis_fits(
    position: i32,
    visible_offset: i32,
    visible_size: i32,
    work_start: i32,
    work_size: i32,
    threshold: i32,
    margin: i32,
) -> (r: bool)
    ensures
        r == axis_fits(
            position as int,
            visible_offset as int,
            visible_size as int,
            work_start as int,
            work_size as int,
            threshold as int,
            margin as int,
        ),
{
    let visible_start = position as i64 + visible_offset as i64;
    let visible_end = visible_start + visible_size as i64;
    let target_start = work_start as i64 + margin as i64;
    let work_end = work_start as i64 + work_size as i64;
    let target_end = work_end - margin as i64;
    let start_difference = visible_start - target_start;
    let end_difference = visible_end - target_end;
    let start_distance = if start_difference >= 0 {
        start_difference
    } else {
        -start_difference
    };
    let end_distance = if end_difference >= 0 {
        end_difference
    } else {
        -end_difference
    };
    let starts = start_distance <= threshold as i64 && start_distance <= end_distance;
    let ends = !starts && end_distance <= threshold as i64;
    fits_i32(visible_start) && fits_i32(visible_end) && fits_i32(target_start) && fits_i32(work_end)
        && fits_i32(target_end) && start_difference > -2147483648 && fits_i32(start_difference)
        && end_difference > -2147483648 && fits_i32(end_difference) && (!starts || fits_i32(
        target_start - visible_offset as i64,
    )) && (!ends || (fits_i32(target_end - visible_size as i64) && fits_i32(
        target_end - visible_size as i64 - visible_offset as i64,
    )))
}

/// Whether snapping the stage window computes without overflow: what
/// `snapped_stage_position` requires.
pub fn snapped_stage_fits(
    position: (i32, i32),
    stage_width: i32,
    island_size: (i32, i32),
    work_area: (i32, i32, i32, i32),
    threshold: i32,
    margin: i32,
) -> (r: bool)
    ensures
        r == (in_i32(stage_width - island_size.0) && axis_fits(
            position.0 as int,
            half_toward_zero(stage_width - island_size.0),
            island_size.0 as int,
            work_area.0 as int,
            work_area.2 as int,
            threshold as int,
            margin as int,
        ) && axis_fits(
            position.1 as int,
            0,
            island_size.1 as int,
            work_area.1 as int,
            work_area.3 as int,
            threshold as int,
            margin as int,
        )),
{
    let padding_twice = stage_width as i64 - island_size.0 as i64;
    if !fits_i32(padding_twice) {
        return false;
    }
    let padding_twice = padding_twice as i32;
    let side_padding = if padding_twice >= 0 {
        padding_twice / 2
    } else {
        -((-(padding_twice as i64)) / 2) as i32
    };
    snap_axis_fits(position.0, side_padding, island_size.0, work_area.0, work_area.2, threshold, margin)
        && snap_axis_fits(position.1, 0, island_size.1, work_area.1, work_area.3, threshold, margin)
}

} // verus!
