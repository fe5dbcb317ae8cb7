//! Where a falling light goes next: straight down into an open cell, or diagonally around an
//! obstacle into a cell that its own column cannot refill.

use vstd::prelude::*;

use crate::grid::{
    classic_cells, in_bounds, in_bounds_spec, CellSet, GridLayout, GridPos, GRID_H,
};

verus! {

/// The cell `(x, y)`.
pub open spec fn cell(x: int, y: int) -> (i32, i32) {
    (x as i32, y as i32)
}

/// Whether a falling light can take the cell `c`: it is on the board, no gravity blocker sits
/// there and no other piece occupies it.
pub open spec fn open_cell(
    c: (i32, i32),
    occupied: Set<(i32, i32)>,
    blocked: Set<(i32, i32)>,
    cells: Set<(i32, i32)>,
) -> bool {
    cells.contains(c) && !blocked.contains(c) && !occupied.contains(c)
}

/// Scanning column `x` upwards from row `y` to the top of the board: a gravity blocker comes
/// before any piece, so nothing can fall into the column from above.
pub open spec fn feed_blocked_from(
    x: i32,
    y: int,
    occupied: Set<(i32, i32)>,
    blocked: Set<(i32, i32)>,
) -> bool
    decreases GRID_H - y,
{
    if y >= GRID_H {
        false
    } else if blocked.contains(cell(x as int, y)) {
        true
    } else if occupied.contains(cell(x as int, y)) {
        false
    } else {
        feed_blocked_from(x, y + 1, occupied, blocked)
    }
}

/// Scanning column `x` upwards from row `y` to the top of the board: a piece comes before any
/// gravity blocker, so the column will refill from above.
pub open spec fn feed_present_from(
    x: i32,
    y: int,
    occupied: Set<(i32, i32)>,
    blocked: Set<(i32, i32)>,
) -> bool
    decreases GRID_H - y,
{
    if y >= GRID_H {
        false
    } else if blocked.contains(cell(x as int, y)) {
        false
    } else if occupied.contains(cell(x as int, y)) {
        true
    } else {
        feed_present_from(x, y + 1, occupied, blocked)
    }
}

/// The straight fall of a light at `pos`: one row down when that cell is open, unless the
/// light itself sits on a gravity blocker.
pub open spec fn straight_target_spec(
    pos: GridPos,
    occupied: Set<(i32, i32)>,
    blocked: Set<(i32, i32)>,
    cells: Set<(i32, i32)>,
) -> Option<GridPos> {
    if blocked.contains((pos.x, pos.y)) {
        None
    } else if open_cell(cell(pos.x as int, pos.y - 1), occupied, blocked, cells) {
        Some(GridPos { x: pos.x, y: (pos.y - 1) as i32 })
    } else {
        None
    }
}

/// Whether the diagonal cell `d` is a slide target: open, and its column's feed from above is
/// cut by a gravity blocker.
pub open spec fn diagonal_ok(
    d: (i32, i32),
    occupied: Set<(i32, i32)>,
    blocked: Set<(i32, i32)>,
    cells: Set<(i32, i32)>,
) -> bool {
    open_cell(d, occupied, blocked, cells) && feed_blocked_from(d.0, d.1 + 1, occupied, blocked)
}

/// The diagonal slide of a light at `pos` whose cell below is taken (by a piece or a blocker):
/// down-left if that is a slide target, else down-right, else none.
pub open spec fn diagonal_target_spec(
    pos: GridPos,
    occupied: Set<(i32, i32)>,
    blocked: Set<(i32, i32)>,
    cells: Set<(i32, i32)>,
) -> Option<GridPos> {
    let below = cell(pos.x as int, pos.y - 1);
    let left = cell(pos.x - 1, pos.y - 1);
    let right = cell(pos.x + 1, pos.y - 1);
    if blocked.contains((pos.x, pos.y)) {
        None
    } else if !blocked.contains(below) && !occupied.contains(below) {
        None
    } else if diagonal_ok(left, occupied, blocked, cells) {
        Some(GridPos { x: left.0, y: left.1 })
    } else if diagonal_ok(right, occupied, blocked, cells) {
        Some(GridPos { x: right.0, y: right.1 })
    } else {
        None
    }
}

/// The next cell of a light at `pos` on the classic board: none from a blocker or the bottom
/// row; else straight down if open; else a diagonal slide.
pub open spec fn choose_fall_target_spec(
    pos: GridPos,
    occupied: Set<(i32, i32)>,
    blocked: Set<(i32, i32)>,
) -> Option<GridPos> {
    if blocked.contains((pos.x, pos.y)) || pos.y <= 0 {
        None
    } else {
        match straight_target_spec(pos, occupied, blocked, classic_cells()) {
            Some(t) => Some(t),
            None => diagonal_target_spec(pos, occupied, blocked, classic_cells()),
        }
    }
}

/// The diagonal slide of an ingredient at `pos` on the classic rectangle: like a light's, but a
/// target column qualifies when no piece above it would refill it first.
pub open spec fn ingredient_diagonal_spec(
    pos: GridPos,
    occupied: Set<(i32, i32)>,
    blocked: Set<(i32, i32)>,
) -> Option<GridPos> {
    let below = cell(pos.x as int, pos.y - 1);
    let left = cell(pos.x - 1, pos.y - 1);
    let right = cell(pos.x + 1, pos.y - 1);
    if blocked.contains((pos.x, pos.y)) || pos.y <= 0 {
        None
    } else if !blocked.contains(below) && !occupied.contains(below) {
        None
    } else if ingredient_ok(left, occupied, blocked) {
        Some(GridPos { x: left.0, y: left.1 })
    } else if ingredient_ok(right, occupied, blocked) {
        Some(GridPos { x: right.0, y: right.1 })
    } else {
        None
    }
}

/// Whether the diagonal cell `d` is an ingredient slide target.
pub open spec fn ingredient_ok(d: (i32, i32), occupied: Set<(i32, i32)>, blocked: Set<(i32, i32)>) -> bool {
    in_bounds_spec(d.0 as int, d.1 as int) && !blocked.contains(d) && !occupied.contains(d)
        && !feed_present_from(d.0, d.1 + 1, occupied, blocked)
}

/// Whether the column of `target` is cut from above: scanning up from the row above it, a
/// gravity blocker comes before any piece.
pub fn vertical_feed_blocked_for_target(target: (i32, i32), occupied: &CellSet, blocked: &CellSet) -> (r: bool)
    requires
        target.1 < i32::MAX,
    ensures
        r == feed_blocked_from(target.0, target.1 + 1, occupied@, blocked@),
{
    let (x, y) = target;
    let mut scan_y = y + 1;
    while scan_y < GRID_H
        invariant
            x == target.0,
            y == target.1,
            y < scan_y,
            scan_y <= GRID_H || scan_y == y + 1,
            feed_blocked_from(x, y + 1, occupied@, blocked@) == feed_blocked_from(
                x,
                scan_y as int,
                occupied@,
                blocked@,
            ),
        decreases GRID_H - scan_y,
    {
        if blocked.contains(x, scan_y) {
            return true;
        }
        if occupied.contains(x, scan_y) {
            return false;
        }
        scan_y = scan_y + 1;
    }
    false
}

/// Whether a piece would refill the column of `target` from above: scanning up from the row
/// above it, a piece comes before any gravity blocker.
pub fn target_has_vertical_feed(target: (i32, i32), occupied: &CellSet, blocked: &CellSet) -> (r: bool)
    requires
        target.1 < i32::MAX,
    ensures
        r == feed_present_from(target.0, target.1 + 1, occupied@, blocked@),
{
    let (x, y) = target;
    let mut scan_y = y + 1;
    while scan_y < GRID_H
        invariant
            x == target.0,
            y == target.1,
            y < scan_y,
            scan_y <= GRID_H || scan_y == y + 1,
            feed_present_from(x, y + 1, occupied@, blocked@) == feed_present_from(
                x,
                scan_y as int,
                occupied@,
                blocked@,
            ),
        decreases GRID_H - scan_y,
    {
        if blocked.contains(x, scan_y) {
            return false;
        }
        if occupied.contains(x, scan_y) {
            return true;
        }
        scan_y = scan_y + 1;
    }
    false
}

/// One row straight down from `pos` on `layout`, when that cell is open.
pub fn straight_fall_target_in(
    pos: GridPos,
    occupied: &CellSet,
    blocked: &CellSet,
    layout: &GridLayout,
) -> (r: Option<GridPos>)
    requires
        pos.y > i32::MIN,
    ensures
        r == straight_target_spec(pos, occupied@, blocked@, layout.cells_spec()),
{
    if blocked.contains(pos.x, pos.y) {
        return None;
    }
    let below = GridPos { x: pos.x, y: pos.y - 1 };
    if layout.contains(below) && !blocked.contains(below.x, below.y) && !occupied.contains(below.x, below.y) {
        Some(below)
    } else {
        None
    }
}

/// One row straight down from `pos` on the classic board, when that cell is open.
pub fn straight_fall_target(pos: GridPos, occupied: &CellSet, blocked: &CellSet) -> (r: Option<GridPos>)
    requires
        pos.y > i32::MIN,
    ensures
        r == straight_target_spec(pos, occupied@, blocked@, classic_cells()),
{
    let layout = GridLayout::classic();
    straight_fall_target_in(pos, occupied, blocked, &layout)
}

/// The diagonal slide of a light at `pos` on `layout` (down-left preferred).
pub fn diagonal_fall_target_in(
    pos: GridPos,
    occupied: &CellSet,
    blocked: &CellSet,
    layout: &GridLayout,
) -> (r: Option<GridPos>)
    requires
        pos.y > i32::MIN,
        i32::MIN < pos.x < i32::MAX,
    ensures
        r == diagonal_target_spec(pos, occupied@, blocked@, layout.cells_spec()),
{
    if blocked.contains(pos.x, pos.y) {
        return None;
    }
    let by = pos.y - 1;
    if !blocked.contains(pos.x, by) && !occupied.contains(pos.x, by) {
        return None;
    }
    let left = GridPos { x: pos.x - 1, y: by };
    if layout.contains(left) && !blocked.contains(left.x, by) && !occupied.contains(left.x, by)
        && vertical_feed_blocked_for_target((left.x, by), occupied, blocked) {
        return Some(left);
    }
    let right = GridPos { x: pos.x + 1, y: by };
    if layout.contains(right) && !blocked.contains(right.x, by) && !occupied.contains(right.x, by)
        && vertical_feed_blocked_for_target((right.x, by), occupied, blocked) {
        return Some(right);
    }
    None
}

/// The diagonal slide of a light at `pos` on the classic board (down-left preferred).
pub fn diagonal_fall_target(pos: GridPos, occupied: &CellSet, blocked: &CellSet) -> (r: Option<GridPos>)
    requires
        pos.y > i32::MIN,
        i32::MIN < pos.x < i32::MAX,
    ensures
        r == diagonal_target_spec(pos, occupied@, blocked@, classic_cells()),
{
    let layout = GridLayout::classic();
    diagonal_fall_target_in(pos, occupied, blocked, &layout)
}

/// The next cell of a light at `pos` on the classic board: none from a blocker or the bottom
/// row; else straight down if open; else a diagonal slide.
pub fn choose_fall_target(pos: GridPos, occupied: &CellSet, blocked: &CellSet) -> (r: Option<GridPos>)
    requires
        i32::MIN < pos.x < i32::MAX,
    ensures
        r == choose_fall_target_spec(pos, occupied@, blocked@),
{
    if blocked.contains(pos.x, pos.y) || pos.y <= 0 {
        return None;
    }
    match straight_fall_target(pos, occupied, blocked) {
        Some(t) => Some(t),
        None => diagonal_fall_target(pos, occupied, blocked),
    }
}

/// The diagonal slide of an ingredient at `pos` on the classic rectangle (down-left preferred):
/// a target qualifies when no piece above it would refill its column first.
pub fn ingredient_diagonal_fall_target(pos: GridPos, occupied: &CellSet, blocked: &CellSet) -> (r: Option<
    GridPos,
>)
    requires
        i32::MIN < pos.x < i32::MAX,
    ensures
        r == ingredient_diagonal_spec(pos, occupied@, blocked@),
{
    if blocked.contains(pos.x, pos.y) || pos.y <= 0 {
        return None;
    }
    let by = pos.y - 1;
    if !blocked.contains(pos.x, by) && !occupied.contains(pos.x, by) {
        return None;
    }
    let lx = pos.x - 1;
    if in_bounds(lx, by) && !blocked.contains(lx, by) && !occupied.contains(lx, by)
        && !target_has_vertical_feed((lx, by), occupied, blocked) {
        return Some(GridPos { x: lx, y: by });
    }
    let rx = pos.x + 1;
    if in_bounds(rx, by) && !blocked.contains(rx, by) && !occupied.contains(rx, by)
        && !target_has_vertical_feed((rx, by), occupied, blocked) {
        return Some(GridPos { x: rx, y: by });
    }
    None
}

/// Law: a light never falls off the board nor out of its row band: a fall target is always a
/// cell of the classic board, exactly one row lower, in the same or a neighbouring column, and
/// not taken by a piece or a blocker.
pub proof fn lemma_fall_target_is_open(pos: GridPos, occupied: Set<(i32, i32)>, blocked: Set<(i32, i32)>)
    requires
        i32::MIN < pos.x < i32::MAX,
    ensures
        choose_fall_target_spec(pos, occupied, blocked) matches Some(t) ==> {
            &&& in_bounds_spec(t.x as int, t.y as int)
            &&& t.y == pos.y - 1
            &&& pos.x - 1 <= t.x <= pos.x + 1
            &&& !occupied.contains((t.x, t.y))
            &&& !blocked.contains((t.x, t.y))
        },
{
}

/// Law: the straight fall comes first: whenever the cell below is open, that is the target.
pub proof fn lemma_straight_fall_first(pos: GridPos, occupied: Set<(i32, i32)>, blocked: Set<(i32, i32)>)
    requires
        i32::MIN < pos.x < i32::MAX,
        pos.y > 0,
        !blocked.contains((pos.x, pos.y)),
        open_cell(cell(pos.x as int, pos.y - 1), occupied, blocked, classic_cells()),
    ensures
        choose_fall_target_spec(pos, occupied, blocked) == Some(GridPos { x: pos.x, y: (pos.y - 1) as i32 }),
{
}

} // verus!
