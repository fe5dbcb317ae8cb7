//! One step of gravity over the whole board: pieces are taken from the lowest row up; each
//! settled piece first drains through a fall route or drops straight down, and the pieces that
//! could not are then given a second chance, this time also sliding diagonally.

use vstd::prelude::*;

use crate::falling::{diagonal_fall_target_in, diagonal_target_spec, straight_fall_target_in, straight_target_spec};
use crate::grid::{route_exit, CellSet, GridLayout, GridPos};

verus! {

/// A piece that gravity may move.
#[derive(Clone, Copy, PartialEq, Eq, Debug, Structural)]
pub struct FallingPiece {
    pub pos: GridPos,
    /// The piece's drawn position has caught up with its cell.
    pub settled: bool,
    /// A spark never slides diagonally.
    pub is_spark: bool,
}

/// The parts of a board entity that decide how gravity treats it.
#[derive(Clone, Copy, PartialEq, Eq, Debug, Structural)]
pub struct PieceFlags {
    pub light: bool,
    pub spark: bool,
    pub fall_physics: bool,
    pub movable: bool,
    pub blocks_gravity: bool,
    pub popping: bool,
}

/// How gravity treats an entity.
#[derive(Clone, Copy, PartialEq, Eq, Debug, Structural)]
pub enum GravityRole {
    /// Gravity moves it.
    Falls,
    /// A gravity-locked light: never moved, but its cell is taken.
    Locked,
    /// Gravity ignores it.
    Ignored,
}

/// How gravity treats an entity: it falls when it has fall physics, is movable or a spark, and
/// is not popping; a light that blocks gravity and is neither movable nor a spark is locked in
/// place; anything else is ignored.
pub fn gravity_role(f: PieceFlags) -> (r: GravityRole)
    ensures
        r == if f.fall_physics && (f.movable || f.spark) && !f.popping {
            GravityRole::Falls
        } else if f.light && f.blocks_gravity && !f.movable && !f.spark {
            GravityRole::Locked
        } else {
            GravityRole::Ignored
        },
{
    if f.fall_physics && (f.movable || f.spark) && !f.popping {
        GravityRole::Falls
    } else if f.light && f.blocks_gravity && !f.movable && !f.spark {
        GravityRole::Locked
    } else {
        GravityRole::Ignored
    }
}

/// What gravity did to one piece.
#[derive(Clone, Copy, PartialEq, Eq, Debug, Structural)]
pub enum PieceFall {
    /// Still moving towards its cell: left alone.
    Waiting,
    /// Stays where it is (no longer dropping).
    Resting,
    /// Dropped straight down to the cell.
    Fell(GridPos),
    /// Left through a fall route to the cell.
    Routed(GridPos),
    /// Slid diagonally to the cell.
    Slid(GridPos),
}

/// The result of one gravity step.
pub struct GravityStep {
    /// What happened to each piece, in the order the pieces were given.
    pub falls: Vec<PieceFall>,
    /// The board is settled: nothing moved and every piece had arrived.
    pub settled: bool,
    /// The board has just become settled (the fall is complete).
    pub fall_complete: bool,
}

/// `order` lists the pieces by row, lowest first, keeping the given order within a row.
pub open spec fn by_row(pieces: Seq<FallingPiece>, order: Seq<int>) -> bool {
    &&& order.len() == pieces.len()
    &&& forall|i: int| 0 <= i < order.len() ==> 0 <= #[trigger] order[i] < pieces.len()
    &&& forall|i: int, j: int|
        0 <= i < j < order.len() ==> pieces[#[trigger] order[i]].pos.y < pieces[#[trigger] order[j]].pos.y
            || (pieces[order[i]].pos.y == pieces[order[j]].pos.y && order[i] < order[j])
}

/// The state carried through a gravity step.
pub ghost struct GState {
    pub occupied: Set<(i32, i32)>,
    pub falls: Seq<PieceFall>,
    pub deferred: Seq<int>,
    pub moved: bool,
    pub unsettled: bool,
}

/// A fall route out of `pos` whose exit is free, else the straight drop.
pub open spec fn route_or_straight(
    pos: GridPos,
    occupied: Set<(i32, i32)>,
    blocked: Set<(i32, i32)>,
    cells: Set<(i32, i32)>,
    routes: Seq<(GridPos, GridPos)>,
) -> Option<PieceFall> {
    match route_exit(routes, pos) {
        Some(e) if !occupied.contains((e.x, e.y)) => Some(PieceFall::Routed(e)),
        _ => match straight_target_spec(pos, occupied, blocked, cells) {
            Some(t) => Some(PieceFall::Fell(t)),
            None => None,
        },
    }
}

/// The cell a move goes to.
pub open spec fn fall_cell(f: PieceFall) -> GridPos {
    match f {
        PieceFall::Fell(t) => t,
        PieceFall::Routed(t) => t,
        PieceFall::Slid(t) => t,
        _ => GridPos { x: 0, y: 0 },
    }
}

/// The state after piece `i` moves from `pos` as `f`.
pub open spec fn moved_to(st: GState, i: int, pos: GridPos, f: PieceFall) -> GState {
    GState {
        occupied: st.occupied.remove((pos.x, pos.y)).insert((fall_cell(f).x, fall_cell(f).y)),
        falls: st.falls.update(i, f),
        moved: true,
        ..st
    }
}

/// The first pass for piece `i`: a piece on a blocker rests; an unsettled piece waits; a
/// settled one drains or drops if it can, and is deferred to the second pass otherwise.
pub open spec fn first_pass_step(
    st: GState,
    pieces: Seq<FallingPiece>,
    i: int,
    blocked: Set<(i32, i32)>,
    cells: Set<(i32, i32)>,
    routes: Seq<(GridPos, GridPos)>,
) -> GState {
    let p = pieces[i];
    let st = GState { unsettled: st.unsettled || !p.settled, ..st };
    if blocked.contains((p.pos.x, p.pos.y)) {
        GState { falls: st.falls.update(i, PieceFall::Resting), ..st }
    } else if !p.settled {
        st
    } else {
        match route_or_straight(p.pos, st.occupied, blocked, cells, routes) {
            Some(f) => moved_to(st, i, p.pos, f),
            None => GState { deferred: st.deferred.push(i), ..st },
        }
    }
}

/// The second pass for deferred piece `i`: drain or drop if that has become possible, else
/// slide diagonally (not a spark), else rest.
pub open spec fn second_pass_step(
    st: GState,
    pieces: Seq<FallingPiece>,
    i: int,
    blocked: Set<(i32, i32)>,
    cells: Set<(i32, i32)>,
    routes: Seq<(GridPos, GridPos)>,
) -> GState {
    let p = pieces[i];
    match route_or_straight(p.pos, st.occupied, blocked, cells, routes) {
        Some(f) => moved_to(st, i, p.pos, f),
        None => {
            let diag = if p.is_spark {
                None
            } else {
                diagonal_target_spec(p.pos, st.occupied, blocked, cells)
            };
            match diag {
                Some(t) => moved_to(st, i, p.pos, PieceFall::Slid(t)),
                None => GState { falls: st.falls.update(i, PieceFall::Resting), ..st },
            }
        }
    }
}

/// The first pass over the first `k` pieces in row order.
pub open spec fn first_pass(
    st: GState,
    pieces: Seq<FallingPiece>,
    order: Seq<int>,
    k: int,
    blocked: Set<(i32, i32)>,
    cells: Set<(i32, i32)>,
    routes: Seq<(GridPos, GridPos)>,
) -> GState
    decreases k,
{
    if k <= 0 {
        st
    } else {
        first_pass_step(first_pass(st, pieces, order, k - 1, blocked, cells, routes), pieces, order[k - 1], blocked, cells, routes)
    }
}

/// The second pass over the first `k` deferred pieces.
pub open spec fn second_pass(
    st: GState,
    pieces: Seq<FallingPiece>,
    deferred: Seq<int>,
    k: int,
    blocked: Set<(i32, i32)>,
    cells: Set<(i32, i32)>,
    routes: Seq<(GridPos, GridPos)>,
) -> GState
    decreases k,
{
    if k <= 0 {
        st
    } else {
        second_pass_step(second_pass(st, pieces, deferred, k - 1, blocked, cells, routes), pieces, deferred[k - 1], blocked, cells, routes)
    }
}

/// The cells taken before the step: every piece's and every gravity-locked light's.
pub open spec fn initial_occupied(pieces: Seq<FallingPiece>, locked: Set<(i32, i32)>) -> Set<(i32, i32)> {
    Set::new(|c: (i32, i32)| locked.contains(c) || exists|i: int| 0 <= i < pieces.len() && (pieces[i].pos.x, pieces[i].pos.y) == c)
}

/// The state after both passes.
pub open spec fn gravity_spec(
    pieces: Seq<FallingPiece>,
    order: Seq<int>,
    locked: Set<(i32, i32)>,
    blocked: Set<(i32, i32)>,
    cells: Set<(i32, i32)>,
    routes: Seq<(GridPos, GridPos)>,
) -> GState {
    let init = GState {
        occupied: initial_occupied(pieces, locked),
        falls: Seq::new(pieces.len(), |i: int| PieceFall::Waiting),
        deferred: Seq::empty(),
        moved: false,
        unsettled: false,
    };
    let st1 = first_pass(init, pieces, order, pieces.len() as int, blocked, cells, routes);
    second_pass(st1, pieces, st1.deferred, st1.deferred.len() as int, blocked, cells, routes)
}

/// Where piece `p` stands after `f`: the cell it moved to, or its own cell.
pub open spec fn landing(f: PieceFall, p: FallingPiece) -> GridPos {
    match f {
        PieceFall::Fell(t) => t,
        PieceFall::Routed(t) => t,
        PieceFall::Slid(t) => t,
        _ => p.pos,
    }
}

/// The cell of `g`.
pub open spec fn cell_of(g: GridPos) -> (i32, i32) {
    (g.x, g.y)
}

/// During a step: every piece's cell is taken, no two pieces share a cell, the locked lights'
/// cells stay taken and no piece is on one.
spec fn apart(st: GState, pieces: Seq<FallingPiece>, locked: Set<(i32, i32)>) -> bool {
    &&& st.falls.len() == pieces.len()
    &&& forall|i: int|
        0 <= i < pieces.len() ==> st.occupied.contains(cell_of(landing(#[trigger] st.falls[i], pieces[i])))
    &&& forall|i: int, j: int|
        0 <= i < pieces.len() && 0 <= j < pieces.len() && i != j ==> landing(#[trigger] st.falls[i], pieces[i])
            != landing(#[trigger] st.falls[j], pieces[j])
    &&& forall|c: (i32, i32)| #[trigger] locked.contains(c) ==> st.occupied.contains(c)
    &&& forall|i: int|
        0 <= i < pieces.len() ==> !locked.contains(cell_of(landing(#[trigger] st.falls[i], pieces[i])))
}

/// A drain or straight drop goes to a cell that is not taken.
proof fn lemma_route_or_straight_free(
    pos: GridPos,
    occupied: Set<(i32, i32)>,
    blocked: Set<(i32, i32)>,
    cells: Set<(i32, i32)>,
    routes: Seq<(GridPos, GridPos)>,
)
    ensures
        route_or_straight(pos, occupied, blocked, cells, routes) matches Some(f) ==> (f is Fell || f is Routed)
            && !occupied.contains(cell_of(fall_cell(f))),
{
}

/// Moving a piece that has not moved yet to a free cell keeps the pieces apart.
proof fn lemma_move_keeps_apart(
    st: GState,
    pieces: Seq<FallingPiece>,
    locked: Set<(i32, i32)>,
    i: int,
    f: PieceFall,
)
    requires
        apart(st, pieces, locked),
        0 <= i < pieces.len(),
        st.falls[i] == PieceFall::Waiting,
        f is Fell || f is Routed || f is Slid,
        !st.occupied.contains(cell_of(fall_cell(f))),
    ensures
        apart(moved_to(st, i, pieces[i].pos, f), pieces, locked),
{
    let st2 = moved_to(st, i, pieces[i].pos, f);
    let t = fall_cell(f);
    assert(landing(st2.falls[i], pieces[i]) == t);
    assert forall|j: int| 0 <= j < pieces.len() implies st2.occupied.contains(
        cell_of(landing(#[trigger] st2.falls[j], pieces[j])),
    ) by {
        if j != i {
            assert(st2.falls[j] == st.falls[j]);
            assert(landing(st.falls[i], pieces[i]) == pieces[i].pos);
            assert(landing(st.falls[j], pieces[j]) != landing(st.falls[i], pieces[i]));
        }
    }
    assert forall|a: int, b: int|
        0 <= a < pieces.len() && 0 <= b < pieces.len() && a != b implies landing(#[trigger] st2.falls[a], pieces[a])
        != landing(#[trigger] st2.falls[b], pieces[b]) by {
        if a == i {
            assert(st.occupied.contains(cell_of(landing(st.falls[b], pieces[b]))));
        } else if b == i {
            assert(st.occupied.contains(cell_of(landing(st.falls[a], pieces[a]))));
        } else {
            assert(st2.falls[a] == st.falls[a]);
            assert(st2.falls[b] == st.falls[b]);
        }
    }
    assert forall|c: (i32, i32)| #[trigger] locked.contains(c) implies st2.occupied.contains(c) by {
        assert(landing(st.falls[i], pieces[i]) == pieces[i].pos);
        assert(!locked.contains(cell_of(landing(st.falls[i], pieces[i]))));
    }
    assert forall|j: int| 0 <= j < pieces.len() implies !locked.contains(
        cell_of(landing(#[trigger] st2.falls[j], pieces[j])),
    ) by {
        if j != i {
            assert(st2.falls[j] == st.falls[j]);
        }
    }
}

/// Marking a piece that has not moved yet as resting keeps the pieces apart.
proof fn lemma_rest_keeps_apart(st: GState, pieces: Seq<FallingPiece>, locked: Set<(i32, i32)>, i: int)
    requires
        apart(st, pieces, locked),
        0 <= i < pieces.len(),
        st.falls[i] == PieceFall::Waiting,
    ensures
        apart(GState { falls: st.falls.update(i, PieceFall::Resting), ..st }, pieces, locked),
{
    let st2 = GState { falls: st.falls.update(i, PieceFall::Resting), ..st };
    assert forall|j: int| 0 <= j < pieces.len() implies landing(#[trigger] st2.falls[j], pieces[j]) == landing(
        st.falls[j],
        pieces[j],
    ) by {}
}

/// In row order, no piece comes twice.
proof fn lemma_by_row_distinct(pieces: Seq<FallingPiece>, order: Seq<int>, a: int, b: int)
    requires
        by_row(pieces, order),
        0 <= a < order.len(),
        0 <= b < order.len(),
        a != b,
    ensures
        order[a] != order[b],
{
    if a < b {
        assert(pieces[order[a]].pos.y < pieces[order[b]].pos.y || order[a] < order[b]);
    } else {
        assert(pieces[order[b]].pos.y < pieces[order[a]].pos.y || order[b] < order[a]);
    }
}

/// The first pass keeps the pieces apart, leaves every piece it has not reached waiting, and
/// defers each piece at most once, leaving it waiting.
proof fn lemma_first_pass_apart(
    st: GState,
    pieces: Seq<FallingPiece>,
    order: Seq<int>,
    k: int,
    locked: Set<(i32, i32)>,
    blocked: Set<(i32, i32)>,
    cells: Set<(i32, i32)>,
    routes: Seq<(GridPos, GridPos)>,
)
    requires
        apart(st, pieces, locked),
        by_row(pieces, order),
        0 <= k <= order.len(),
        forall|j: int| 0 <= j < pieces.len() ==> #[trigger] st.falls[j] == PieceFall::Waiting,
        st.deferred.len() == 0,
    ensures
        ({
            let s = first_pass(st, pieces, order, k, blocked, cells, routes);
            &&& apart(s, pieces, locked)
            &&& forall|j: int|
                0 <= j < pieces.len() && (forall|m: int| 0 <= m < k ==> order[m] != j) ==> #[trigger] s.falls[j]
                    == PieceFall::Waiting
            &&& s.deferred.no_duplicates()
            &&& forall|m: int|
                0 <= m < s.deferred.len() ==> exists|q: int| 0 <= q < k && order[q] == #[trigger] s.deferred[m]
            &&& forall|m: int| 0 <= m < s.deferred.len() ==> s.falls[#[trigger] s.deferred[m]] == PieceFall::Waiting
        }),
    decreases k,
{
    if k > 0 {
        lemma_first_pass_apart(st, pieces, order, k - 1, locked, blocked, cells, routes);
        let prev = first_pass(st, pieces, order, k - 1, blocked, cells, routes);
        let i = order[k - 1];
        let p = pieces[i];
        assert forall|m: int| 0 <= m < k - 1 implies order[m] != i by {
            lemma_by_row_distinct(pieces, order, m, k - 1);
        }
        assert(prev.falls[i] == PieceFall::Waiting);
        let st0 = GState { unsettled: prev.unsettled || !p.settled, ..prev };
        assert(apart(st0, pieces, locked));
        let s = first_pass(st, pieces, order, k, blocked, cells, routes);
        assert(s == first_pass_step(prev, pieces, i, blocked, cells, routes));
        lemma_route_or_straight_free(p.pos, st0.occupied, blocked, cells, routes);
        if blocked.contains((p.pos.x, p.pos.y)) {
            lemma_rest_keeps_apart(st0, pieces, locked, i);
        } else if !p.settled {
        } else {
            match route_or_straight(p.pos, st0.occupied, blocked, cells, routes) {
                Some(f) => {
                    lemma_move_keeps_apart(st0, pieces, locked, i, f);
                },
                None => {
                    assert forall|m: int| 0 <= m < prev.deferred.len() implies prev.deferred[m] != i by {
                        let q = choose|q: int| 0 <= q < k - 1 && order[q] == #[trigger] prev.deferred[m];
                        lemma_by_row_distinct(pieces, order, q, k - 1);
                    }
                    assert forall|m: int| 0 <= m < s.deferred.len() implies exists|q: int|
                        0 <= q < k && order[q] == #[trigger] s.deferred[m] by {
                        if m < prev.deferred.len() {
                            let q = choose|q: int| 0 <= q < k - 1 && order[q] == #[trigger] prev.deferred[m];
                            assert(s.deferred[m] == prev.deferred[m]);
                        } else {
                            assert(order[k - 1] == s.deferred[m]);
                        }
                    }
                },
            }
        }
        assert forall|m: int| 0 <= m < s.deferred.len() implies s.falls[#[trigger] s.deferred[m]]
            == PieceFall::Waiting by {
            if m < prev.deferred.len() {
                let q = choose|q: int| 0 <= q < k - 1 && order[q] == #[trigger] prev.deferred[m];
                lemma_by_row_distinct(pieces, order, q, k - 1);
                assert(s.deferred[m] == prev.deferred[m]);
            }
        }
        assert forall|m: int| 0 <= m < s.deferred.len() implies exists|q: int|
            0 <= q < k && order[q] == #[trigger] s.deferred[m] by {
            if m < prev.deferred.len() {
                let q = choose|q: int| 0 <= q < k - 1 && order[q] == #[trigger] prev.deferred[m];
                assert(s.deferred[m] == prev.deferred[m]);
                assert(0 <= q < k);
            } else {
                assert(order[k - 1] == s.deferred[m]);
            }
        }
    }
}

/// The second pass keeps the pieces apart and leaves the deferred pieces it has not reached
/// waiting.
proof fn lemma_second_pass_apart(
    st: GState,
    pieces: Seq<FallingPiece>,
    deferred: Seq<int>,
    k: int,
    locked: Set<(i32, i32)>,
    blocked: Set<(i32, i32)>,
    cells: Set<(i32, i32)>,
    routes: Seq<(GridPos, GridPos)>,
)
    requires
        apart(st, pieces, locked),
        0 <= k <= deferred.len(),
        deferred.no_duplicates(),
        forall|m: int| 0 <= m < deferred.len() ==> 0 <= #[trigger] deferred[m] < pieces.len(),
        forall|m: int| 0 <= m < deferred.len() ==> st.falls[#[trigger] deferred[m]] == PieceFall::Waiting,
    ensures
        ({
            let s = second_pass(st, pieces, deferred, k, blocked, cells, routes);
            &&& apart(s, pieces, locked)
            &&& forall|m: int| k <= m < deferred.len() ==> s.falls[#[trigger] deferred[m]] == PieceFall::Waiting
        }),
    decreases k,
{
    if k > 0 {
        lemma_second_pass_apart(st, pieces, deferred, k - 1, locked, blocked, cells, routes);
        let prev = second_pass(st, pieces, deferred, k - 1, blocked, cells, routes);
        let i = deferred[k - 1];
        let p = pieces[i];
        assert(prev.falls[i] == PieceFall::Waiting);
        lemma_route_or_straight_free(p.pos, prev.occupied, blocked, cells, routes);
        match route_or_straight(p.pos, prev.occupied, blocked, cells, routes) {
            Some(f) => {
                lemma_move_keeps_apart(prev, pieces, locked, i, f);
            },
            None => {
                let diag = if p.is_spark {
                    None
                } else {
                    diagonal_target_spec(p.pos, prev.occupied, blocked, cells)
                };
                match diag {
                    Some(t) => {
                        lemma_move_keeps_apart(prev, pieces, locked, i, PieceFall::Slid(t));
                    },
                    None => {
                        lemma_rest_keeps_apart(prev, pieces, locked, i);
                    },
                }
            },
        }
        let s = second_pass(st, pieces, deferred, k, blocked, cells, routes);
        assert forall|m: int| k <= m < deferred.len() implies s.falls[#[trigger] deferred[m]]
            == PieceFall::Waiting by {
            assert(deferred[m] != deferred[k - 1]);
        }
    }
}

/// Law: a gravity step never puts two pieces on one cell, nor a piece on a gravity-locked
/// light: when the pieces stand on distinct cells and none on a locked light, every piece ends
/// the step on a cell of its own, and none on a locked light.
pub proof fn lemma_gravity_keeps_pieces_apart(
    pieces: Seq<FallingPiece>,
    order: Seq<int>,
    locked: Set<(i32, i32)>,
    blocked: Set<(i32, i32)>,
    cells: Set<(i32, i32)>,
    routes: Seq<(GridPos, GridPos)>,
)
    requires
        by_row(pieces, order),
        forall|i: int, j: int|
            0 <= i < pieces.len() && 0 <= j < pieces.len() && i != j ==> (#[trigger] pieces[i]).pos != (
            #[trigger] pieces[j]).pos,
        forall|i: int| 0 <= i < pieces.len() ==> !locked.contains(cell_of((#[trigger] pieces[i]).pos)),
    ensures
        ({
            let st = gravity_spec(pieces, order, locked, blocked, cells, routes);
            &&& st.falls.len() == pieces.len()
            &&& forall|i: int, j: int|
                0 <= i < pieces.len() && 0 <= j < pieces.len() && i != j ==> landing(
                    #[trigger] st.falls[i],
                    pieces[i],
                ) != landing(#[trigger] st.falls[j], pieces[j])
            &&& forall|i: int|
                0 <= i < pieces.len() ==> !locked.contains(cell_of(landing(#[trigger] st.falls[i], pieces[i])))
        }),
{
    let init = GState {
        occupied: initial_occupied(pieces, locked),
        falls: Seq::new(pieces.len(), |i: int| PieceFall::Waiting),
        deferred: Seq::empty(),
        moved: false,
        unsettled: false,
    };
    assert forall|i: int| 0 <= i < pieces.len() implies init.occupied.contains(
        cell_of(landing(#[trigger] init.falls[i], pieces[i])),
    ) by {
        assert((pieces[i].pos.x, pieces[i].pos.y) == cell_of(pieces[i].pos));
    }
    assert(apart(init, pieces, locked));
    lemma_first_pass_apart(init, pieces, order, pieces.len() as int, locked, blocked, cells, routes);
    let st1 = first_pass(init, pieces, order, pieces.len() as int, blocked, cells, routes);
    assert forall|m: int| 0 <= m < st1.deferred.len() implies 0 <= #[trigger] st1.deferred[m] < pieces.len() by {
        let q = choose|q: int| 0 <= q < pieces.len() && order[q] == #[trigger] st1.deferred[m];
    }
    lemma_second_pass_apart(
        st1,
        pieces,
        st1.deferred,
        st1.deferred.len() as int,
        locked,
        blocked,
        cells,
        routes,
    );
}

/// Whether `f` is a move gravity may give the piece `p`: staying put (waiting or resting) is
/// always one; a settled piece off a gravity blocker may drop one row straight down, leave
/// through the fall route out of its cell, or, unless it is a spark, slide one row down into a
/// neighbouring column.
pub open spec fn allowed_fall(
    p: FallingPiece,
    f: PieceFall,
    blocked: Set<(i32, i32)>,
    routes: Seq<(GridPos, GridPos)>,
) -> bool {
    match f {
        PieceFall::Waiting => true,
        PieceFall::Resting => true,
        PieceFall::Fell(t) => p.settled && !blocked.contains(cell_of(p.pos)) && t == GridPos {
            x: p.pos.x,
            y: (p.pos.y - 1) as i32,
        },
        PieceFall::Routed(t) => p.settled && !blocked.contains(cell_of(p.pos)) && route_exit(routes, p.pos)
            == Some(t),
        PieceFall::Slid(t) => p.settled && !blocked.contains(cell_of(p.pos)) && !p.is_spark && t.y == (p.pos.y
            - 1) as i32 && (t.x == (p.pos.x - 1) as i32 || t.x == (p.pos.x + 1) as i32),
    }
}

/// A drain or straight drop is one of the allowed moves of a settled piece off a blocker.
proof fn lemma_route_or_straight_allowed(
    p: FallingPiece,
    occupied: Set<(i32, i32)>,
    blocked: Set<(i32, i32)>,
    cells: Set<(i32, i32)>,
    routes: Seq<(GridPos, GridPos)>,
)
    requires
        p.settled,
        !blocked.contains(cell_of(p.pos)),
    ensures
        route_or_straight(p.pos, occupied, blocked, cells, routes) matches Some(f) ==> allowed_fall(
            p,
            f,
            blocked,
            routes,
        ),
{
}

/// The first pass gives every piece an allowed move, and defers only settled pieces off a
/// blocker that it left waiting.
proof fn lemma_first_pass_moves(
    st: GState,
    pieces: Seq<FallingPiece>,
    order: Seq<int>,
    k: int,
    blocked: Set<(i32, i32)>,
    cells: Set<(i32, i32)>,
    routes: Seq<(GridPos, GridPos)>,
)
    requires
        by_row(pieces, order),
        0 <= k <= order.len(),
        st.falls.len() == pieces.len(),
        forall|j: int| 0 <= j < pieces.len() ==> #[trigger] st.falls[j] == PieceFall::Waiting,
        st.deferred.len() == 0,
    ensures
        ({
            let s = first_pass(st, pieces, order, k, blocked, cells, routes);
            &&& s.falls.len() == pieces.len()
            &&& forall|j: int|
                0 <= j < pieces.len() ==> allowed_fall(pieces[j], #[trigger] s.falls[j], blocked, routes)
            &&& forall|m: int|
                0 <= m < s.deferred.len() ==> 0 <= #[trigger] s.deferred[m] < pieces.len()
                    && pieces[s.deferred[m]].settled && !blocked.contains(cell_of(pieces[s.deferred[m]].pos))
        }),
    decreases k,
{
    if k > 0 {
        lemma_first_pass_moves(st, pieces, order, k - 1, blocked, cells, routes);
        let prev = first_pass(st, pieces, order, k - 1, blocked, cells, routes);
        let i = order[k - 1];
        let p = pieces[i];
        let st0 = GState { unsettled: prev.unsettled || !p.settled, ..prev };
        let s = first_pass(st, pieces, order, k, blocked, cells, routes);
        assert(s == first_pass_step(prev, pieces, i, blocked, cells, routes));
        assert((p.pos.x, p.pos.y) == cell_of(p.pos));
        if !blocked.contains((p.pos.x, p.pos.y)) && p.settled {
            lemma_route_or_straight_allowed(p, st0.occupied, blocked, cells, routes);
        }
        assert forall|m: int| 0 <= m < s.deferred.len() implies 0 <= #[trigger] s.deferred[m] < pieces.len()
            && pieces[s.deferred[m]].settled && !blocked.contains(cell_of(pieces[s.deferred[m]].pos)) by {
            if m < prev.deferred.len() {
                assert(s.deferred[m] == prev.deferred[m]);
            }
        }
    }
}

/// The second pass keeps every piece's move allowed.
proof fn lemma_second_pass_moves(
    st: GState,
    pieces: Seq<FallingPiece>,
    deferred: Seq<int>,
    k: int,
    blocked: Set<(i32, i32)>,
    cells: Set<(i32, i32)>,
    routes: Seq<(GridPos, GridPos)>,
)
    requires
        0 <= k <= deferred.len(),
        st.falls.len() == pieces.len(),
        forall|j: int| 0 <= j < pieces.len() ==> allowed_fall(pieces[j], #[trigger] st.falls[j], blocked, routes),
        forall|m: int|
            0 <= m < deferred.len() ==> 0 <= #[trigger] deferred[m] < pieces.len() && pieces[deferred[m]].settled
                && !blocked.contains(cell_of(pieces[deferred[m]].pos)),
    ensures
        ({
            let s = second_pass(st, pieces, deferred, k, blocked, cells, routes);
            &&& s.falls.len() == pieces.len()
            &&& forall|j: int|
                0 <= j < pieces.len() ==> allowed_fall(pieces[j], #[trigger] s.falls[j], blocked, routes)
        }),
    decreases k,
{
    if k > 0 {
        lemma_second_pass_moves(st, pieces, deferred, k - 1, blocked, cells, routes);
        let prev = second_pass(st, pieces, deferred, k - 1, blocked, cells, routes);
        let i = deferred[k - 1];
        let p = pieces[i];
        lemma_route_or_straight_allowed(p, prev.occupied, blocked, cells, routes);
        let s = second_pass(st, pieces, deferred, k, blocked, cells, routes);
        assert(s == second_pass_step(prev, pieces, i, blocked, cells, routes));
    }
}

/// Law: a gravity step moves a piece only as the fall rules allow: a piece on a gravity
/// blocker or not yet settled keeps its cell, and any other piece either keeps its cell, drops
/// one row straight down, leaves through the fall route out of its cell, or (unless it is a
/// spark) slides one row down into a neighbouring column. Gravity-locked lights are not pieces:
/// the step never moves them.
pub proof fn lemma_gravity_moves(
    pieces: Seq<FallingPiece>,
    order: Seq<int>,
    locked: Set<(i32, i32)>,
    blocked: Set<(i32, i32)>,
    cells: Set<(i32, i32)>,
    routes: Seq<(GridPos, GridPos)>,
)
    requires
        by_row(pieces, order),
    ensures
        ({
            let st = gravity_spec(pieces, order, locked, blocked, cells, routes);
            &&& st.falls.len() == pieces.len()
            &&& forall|i: int|
                0 <= i < pieces.len() ==> allowed_fall(pieces[i], #[trigger] st.falls[i], blocked, routes)
            &&& forall|i: int|
                0 <= i < pieces.len() && (blocked.contains(cell_of(pieces[i].pos)) || !pieces[i].settled)
                    ==> landing(#[trigger] st.falls[i], pieces[i]) == pieces[i].pos
        }),
{
    let init = GState {
        occupied: initial_occupied(pieces, locked),
        falls: Seq::new(pieces.len(), |i: int| PieceFall::Waiting),
        deferred: Seq::empty(),
        moved: false,
        unsettled: false,
    };
    lemma_first_pass_moves(init, pieces, order, pieces.len() as int, blocked, cells, routes);
    let st1 = first_pass(init, pieces, order, pieces.len() as int, blocked, cells, routes);
    lemma_second_pass_moves(st1, pieces, st1.deferred, st1.deferred.len() as int, blocked, cells, routes);
}

/// Coordinates that the fall rules can step from without leaving `i32`.
pub open spec fn steppable(pieces: Seq<FallingPiece>) -> bool {
    forall|i: int| 0 <= i < pieces.len() ==> #[trigger] pieces[i].pos.y > i32::MIN && i32::MIN < pieces[i].pos.x < i32::MAX
}

/// The pieces' indices ordered by row, lowest first, keeping the given order within a row.
pub fn row_order(pieces: &Vec<FallingPiece>) -> (r: Vec<usize>)
    ensures
        by_row(pieces@, r@.map_values(|i: usize| i as int)),
{
    let mut order: Vec<usize> = Vec::new();
    let mut k: usize = 0;
    while k < pieces.len()
        invariant
            k <= pieces.len(),
            order.len() == k,
            forall|i: int| 0 <= i < order.len() ==> #[trigger] order@[i] < k,
            forall|i: int, j: int|
                0 <= i < j < order.len() ==> pieces@[#[trigger] order@[i] as int].pos.y < pieces@[#[trigger] order@[j] as int].pos.y
                    || (pieces@[order@[i] as int].pos.y == pieces@[order@[j] as int].pos.y && order@[i] < order@[j]),
        decreases pieces.len() - k,
    {
        let y = pieces[k].pos.y;
        // Insert after every index whose row is at most y.
        let mut at = order.len();
        while at > 0 && pieces[order[at - 1]].pos.y > y
            invariant
                at <= order.len(),
                forall|i: int| 0 <= i < order.len() ==> #[trigger] order@[i] < k,
                k < pieces.len(),
                y == pieces@[k as int].pos.y,
                forall|i: int| at <= i < order.len() ==> pieces@[#[trigger] order@[i] as int].pos.y > y,
            decreases at,
        {
            at = at - 1;
        }
        let ghost old_order = order@;
        order.insert(at, k);
        proof {
            assert forall|i: int| 0 <= i < order.len() implies #[trigger] order@[i] < k + 1 by {
                if i < at {
                    assert(order@[i] == old_order[i]);
                } else if i > at {
                    assert(order@[i] == old_order[i - 1]);
                }
            }
            assert forall|i: int, j: int|
                0 <= i < j < order.len() implies pieces@[#[trigger] order@[i] as int].pos.y < pieces@[#[trigger] order@[j] as int].pos.y
                    || (pieces@[order@[i] as int].pos.y == pieces@[order@[j] as int].pos.y && order@[i] < order@[j]) by {
                if j < at {
                    assert(order@[i] == old_order[i] && order@[j] == old_order[j]);
                } else if j == at {
                    assert(order@[i] == old_order[i]);
                    if at > 0 {
                        // the entry right before the insertion point is at row <= y, and rows
                        // before it are not higher
                        assert(pieces@[old_order[at - 1] as int].pos.y <= y);
                        if i < at - 1 {
                            assert(pieces@[old_order[i] as int].pos.y <= pieces@[old_order[at - 1] as int].pos.y);
                        }
                    }
                } else if i < at {
                    assert(order@[i] == old_order[i] && order@[j] == old_order[j - 1]);
                } else if i == at {
                    assert(order@[j] == old_order[j - 1]);
                } else {
                    assert(order@[i] == old_order[i - 1] && order@[j] == old_order[j - 1]);
                }
            }
        }
        k = k + 1;
    }
    order
}

/// A piece's move target as a cell.
fn target_of(f: PieceFall) -> (r: GridPos)
    ensures
        r == fall_cell(f),
{
    match f {
        PieceFall::Fell(t) => t,
        PieceFall::Routed(t) => t,
        PieceFall::Slid(t) => t,
        _ => GridPos { x: 0, y: 0 },
    }
}

/// A free fall-route exit out of `pos`, else the straight drop.
fn route_or_straight_exec(
    pos: GridPos,
    occupied: &CellSet,
    blocked: &CellSet,
    layout: &GridLayout,
) -> (r: Option<PieceFall>)
    requires
        pos.y > i32::MIN,
    ensures
        r == route_or_straight(pos, occupied@, blocked@, layout.cells_spec(), layout.routes_spec()),
{
    match layout.fall_target(pos) {
        Some(e) => {
            if !occupied.contains(e.x, e.y) {
                return Some(PieceFall::Routed(e));
            }
        },
        None => {},
    }
    match straight_fall_target_in(pos, occupied, blocked, layout) {
        Some(t) => Some(PieceFall::Fell(t)),
        None => None,
    }
}

/// One gravity step over `pieces`, given the gravity-locked lights (solid but never moved), the
/// gravity blockers, the board layout and whether the board was settled before. Pieces are
/// taken by row, lowest first; see `gravity_spec` for the two passes. The board is settled when
/// nothing moved and every piece had arrived; the fall completes when it becomes settled.
pub fn gravity_step(
    pieces: &Vec<FallingPiece>,
    locked: &CellSet,
    blocked: &CellSet,
    layout: &GridLayout,
    was_settled: bool,
) -> (r: GravityStep)
    requires
        steppable(pieces@),
    ensures
        exists|order: Seq<int>| {
            &&& #[trigger] by_row(pieces@, order)
            &&& {
                let st = gravity_spec(pieces@, order, locked@, blocked@, layout.cells_spec(), layout.routes_spec());
                &&& r.falls@ == st.falls
                &&& r.settled == (!st.moved && !st.unsettled)
                &&& r.fall_complete == (!st.moved && !st.unsettled && !was_settled)
            }
        },
{
    let order = row_order(pieces);
    let ghost ord = order@.map_values(|i: usize| i as int);
    let ghost cells = layout.cells_spec();
    let ghost routes = layout.routes_spec();
    // occupied: every piece, then the locked lights
    let mut occupied = CellSet::new();
    let mut i: usize = 0;
    while i < pieces.len()
        invariant
            i <= pieces.len(),
            forall|c: (i32, i32)| #[trigger] occupied@.contains(c) <==> exists|j: int| 0 <= j < i && (pieces@[j].pos.x, pieces@[j].pos.y) == c,
        decreases pieces.len() - i,
    {
        occupied.insert(pieces[i].pos.x, pieces[i].pos.y);
        proof {
            assert forall|c: (i32, i32)| #[trigger] occupied@.contains(c) <==> exists|j: int| 0 <= j < i + 1 && (pieces@[j].pos.x, pieces@[j].pos.y) == c by {
                if occupied@.contains(c) && c != (pieces@[i as int].pos.x, pieces@[i as int].pos.y) {
                    let j = choose|j: int| 0 <= j < i && (pieces@[j].pos.x, pieces@[j].pos.y) == c;
                }
            }
        }
        i = i + 1;
    }
    let locked_cells = locked_list(locked);
    let mut m: usize = 0;
    while m < locked_cells.len()
        invariant
            m <= locked_cells.len(),
            locked_cells@.to_set() == locked@,
            forall|c: (i32, i32)| #[trigger] occupied@.contains(c) <==> (locked_cells@.take(m as int).contains(c) || exists|j: int| 0 <= j < pieces.len() && (pieces@[j].pos.x, pieces@[j].pos.y) == c),
        decreases locked_cells.len() - m,
    {
        let (cx, cy) = locked_cells[m];
        occupied.insert(cx, cy);
        proof {
            assert(locked_cells@.take(m + 1) =~= locked_cells@.take(m as int).push((cx, cy)));
            assert forall|c: (i32, i32)| #[trigger] occupied@.contains(c) <==> (locked_cells@.take(m + 1).contains(c) || exists|j: int| 0 <= j < pieces.len() && (pieces@[j].pos.x, pieces@[j].pos.y) == c) by {
                let t0 = locked_cells@.take(m as int);
                let t1 = locked_cells@.take(m + 1);
                if t0.contains(c) {
                    let q = choose|q: int| 0 <= q < t0.len() && t0[q] == c;
                    assert(t1[q] == c);
                }
                if t1.contains(c) && c != (cx, cy) {
                    let q = choose|q: int| 0 <= q < t1.len() && t1[q] == c;
                    assert(t0[q] == c);
                }
                if c == (cx, cy) {
                    assert(locked_cells@.take(m + 1)[m as int] == c);
                }
            }
        }
        m = m + 1;
    }
    proof {
        assert(locked_cells@.take(m as int) =~= locked_cells@);
        assert(occupied@ =~= initial_occupied(pieces@, locked@));
    }
    let ghost init = GState {
        occupied: initial_occupied(pieces@, locked@),
        falls: Seq::new(pieces@.len(), |i: int| PieceFall::Waiting),
        deferred: Seq::empty(),
        moved: false,
        unsettled: false,
    };
    let mut falls: Vec<PieceFall> = Vec::new();
    let mut f: usize = 0;
    while f < pieces.len()
        invariant
            f <= pieces.len(),
            falls@ == Seq::new(f as nat, |i: int| PieceFall::Waiting),
        decreases pieces.len() - f,
    {
        falls.push(PieceFall::Waiting);
        f = f + 1;
        assert(falls@ =~= Seq::new(f as nat, |i: int| PieceFall::Waiting));
    }
    let mut deferred: Vec<usize> = Vec::new();
    let mut moved = false;
    let mut unsettled = false;
    // First pass.
    let mut k: usize = 0;
    while k < order.len()
        invariant
            k <= order.len(),
            order.len() == pieces.len(),
            by_row(pieces@, ord),
            ord == order@.map_values(|i: usize| i as int),
            steppable(pieces@),
            cells == layout.cells_spec(),
            routes == layout.routes_spec(),
            falls@.len() == pieces.len(),
            forall|q: int| 0 <= q < deferred.len() ==> #[trigger] deferred@[q] < pieces.len(),
            ({
                let st = first_pass(init, pieces@, ord, k as int, blocked@, cells, routes);
                &&& occupied@ == st.occupied
                &&& falls@ == st.falls
                &&& deferred@.map_values(|i: usize| i as int) == st.deferred
                &&& moved == st.moved
                &&& unsettled == st.unsettled
            }),
        decreases order.len() - k,
    {
        let idx = order[k];
        proof {
            assert(ord[k as int] == idx as int);
            assert(0 <= ord[k as int] < pieces.len());
        }
        let p = pieces[idx];
        if !p.settled {
            unsettled = true;
        }
        if blocked.contains(p.pos.x, p.pos.y) {
            falls.set(idx, PieceFall::Resting);
        } else if p.settled {
            assert(pieces@[idx as int].pos.y > i32::MIN);
            match route_or_straight_exec(p.pos, &occupied, blocked, layout) {
                Some(mv) => {
                    let t = target_of(mv);
                    occupied.remove(p.pos.x, p.pos.y);
                    occupied.insert(t.x, t.y);
                    falls.set(idx, mv);
                    moved = true;
                },
                None => {
                    let ghost old_d = deferred@;
                    deferred.push(idx);
                    proof {
                        assert(deferred@.map_values(|i: usize| i as int) =~= old_d.map_values(|i: usize| i as int).push(idx as int));
                    }
                },
            }
        }
        k = k + 1;
    }
    let ghost st1 = first_pass(init, pieces@, ord, pieces@.len() as int, blocked@, cells, routes);
    let ghost dfr = deferred@.map_values(|i: usize| i as int);
    // Second pass.
    let mut d: usize = 0;
    while d < deferred.len()
        invariant
            d <= deferred.len(),
            steppable(pieces@),
            cells == layout.cells_spec(),
            routes == layout.routes_spec(),
            falls@.len() == pieces.len(),
            dfr == deferred@.map_values(|i: usize| i as int),
            forall|q: int| 0 <= q < deferred.len() ==> #[trigger] deferred@[q] < pieces.len(),
            ({
                let st = second_pass(st1, pieces@, dfr, d as int, blocked@, cells, routes);
                &&& occupied@ == st.occupied
                &&& falls@ == st.falls
                &&& moved == st.moved
                &&& unsettled == st.unsettled
            }),
        decreases deferred.len() - d,
    {
        let idx = deferred[d];
        proof {
            assert(dfr[d as int] == idx as int);
        }
        let p = pieces[idx];
        assert(pieces@[idx as int].pos.y > i32::MIN && i32::MIN < pieces@[idx as int].pos.x < i32::MAX);
        match route_or_straight_exec(p.pos, &occupied, blocked, layout) {
            Some(mv) => {
                let t = target_of(mv);
                occupied.remove(p.pos.x, p.pos.y);
                occupied.insert(t.x, t.y);
                falls.set(idx, mv);
                moved = true;
            },
            None => {
                let diag = if p.is_spark {
                    None
                } else {
                    diagonal_fall_target_in(p.pos, &occupied, blocked, layout)
                };
                match diag {
                    Some(t) => {
                        occupied.remove(p.pos.x, p.pos.y);
                        occupied.insert(t.x, t.y);
                        falls.set(idx, PieceFall::Slid(t));
                        moved = true;
                    },
                    None => {
                        falls.set(idx, PieceFall::Resting);
                    },
                }
            },
        }
        d = d + 1;
    }
    let settled = !moved && !unsettled;
    let fall_complete = settled && !was_settled;
    proof {
        assert(by_row(pieces@, ord));
    }
    GravityStep { falls, settled, fall_complete }
}

/// The cells of `s`, as a list.
fn locked_list(s: &CellSet) -> (r: Vec<(i32, i32)>)
    ensures
        r@.to_set() == s@,
{
    s.cells_list()
}

} // verus!
