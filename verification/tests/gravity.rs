use lightcore::grid::{CellSet, GridLayout, GridPos};
use lightcore::gravity::{gravity_role, gravity_step, FallingPiece, GravityRole, PieceFall, PieceFlags};

fn piece(x: i32, y: i32) -> FallingPiece {
    FallingPiece { pos: GridPos { x, y }, settled: true, is_spark: false }
}

#[test]
fn gravity_accepts_sparks_but_excludes_locked_lights() {
    let spark = PieceFlags { light: false, spark: true, fall_physics: true, movable: false, blocks_gravity: false, popping: false };
    let stasis_light = PieceFlags { light: true, spark: false, fall_physics: false, movable: false, blocks_gravity: true, popping: false };
    let roles = [gravity_role(spark), gravity_role(stasis_light)];
    let falling = roles.iter().filter(|r| **r == GravityRole::Falls).count();
    assert_eq!(falling, 1);
    assert_eq!(roles[1], GravityRole::Locked);
}

#[test]
fn a_column_drops_one_row_per_step_from_the_bottom_up() {
    let layout = GridLayout::classic();
    let pieces = vec![piece(2, 3), piece(2, 2)];
    let step = gravity_step(&pieces, &CellSet::new(), &CellSet::new(), &layout, false);
    assert_eq!(step.falls, vec![PieceFall::Fell(GridPos { x: 2, y: 2 }), PieceFall::Fell(GridPos { x: 2, y: 1 })]);
    assert!(!step.settled);
    assert!(!step.fall_complete);
}

#[test]
fn a_resting_board_completes_the_fall_once() {
    let layout = GridLayout::classic();
    let pieces = vec![piece(0, 0), piece(0, 1)];
    let step = gravity_step(&pieces, &CellSet::new(), &CellSet::new(), &layout, false);
    assert_eq!(step.falls, vec![PieceFall::Resting, PieceFall::Resting]);
    assert!(step.settled);
    assert!(step.fall_complete);
    let again = gravity_step(&pieces, &CellSet::new(), &CellSet::new(), &layout, true);
    assert!(again.settled);
    assert!(!again.fall_complete);
}

#[test]
fn unsettled_pieces_wait_and_keep_the_board_unsettled() {
    let layout = GridLayout::classic();
    let pieces = vec![FallingPiece { pos: GridPos { x: 1, y: 5 }, settled: false, is_spark: false }];
    let step = gravity_step(&pieces, &CellSet::new(), &CellSet::new(), &layout, true);
    assert_eq!(step.falls, vec![PieceFall::Waiting]);
    assert!(!step.settled);
}

#[test]
fn blocked_pieces_slide_diagonally_but_sparks_do_not() {
    let layout = GridLayout::classic();
    let blocked = CellSet::from_cells(&[(3, 3), (2, 4)]);
    let pieces = vec![piece(3, 4)];
    let step = gravity_step(&pieces, &CellSet::new(), &blocked, &layout, false);
    assert_eq!(step.falls, vec![PieceFall::Slid(GridPos { x: 2, y: 3 })]);
    let spark = vec![FallingPiece { pos: GridPos { x: 3, y: 4 }, settled: true, is_spark: true }];
    let step = gravity_step(&spark, &CellSet::new(), &blocked, &layout, false);
    assert_eq!(step.falls, vec![PieceFall::Resting]);
}

#[test]
fn locked_lights_are_solid() {
    let layout = GridLayout::classic();
    let locked = CellSet::from_cells(&[(4, 2)]);
    let pieces = vec![piece(4, 3)];
    let step = gravity_step(&pieces, &locked, &CellSet::new(), &layout, false);
    // Straight down is taken; the column below the locked light is not cut by a blocker, so no
    // diagonal slide either.
    assert_eq!(step.falls, vec![PieceFall::Resting]);
}

#[test]
fn fall_routes_carry_pieces_to_the_next_board() {
    let mut layout = GridLayout::rectangles(&[(0, 1, 3, 5), (5, 1, 3, 5)]);
    layout.add_fall_route(GridPos { x: 0, y: 1 }, GridPos { x: 5, y: 5 });
    assert_eq!(layout.fall_target(GridPos { x: 0, y: 1 }), Some(GridPos { x: 5, y: 5 }));
    assert_eq!(layout.fall_target(GridPos { x: 1, y: 1 }), None);
    let pieces = vec![piece(0, 1)];
    let step = gravity_step(&pieces, &CellSet::new(), &CellSet::new(), &layout, false);
    assert_eq!(step.falls, vec![PieceFall::Routed(GridPos { x: 5, y: 5 })]);
}

fn landing(f: PieceFall, p: &FallingPiece) -> GridPos {
    match f {
        PieceFall::Fell(t) | PieceFall::Routed(t) | PieceFall::Slid(t) => t,
        _ => p.pos,
    }
}

#[test]
fn competing_pieces_never_land_on_one_cell() {
    let layout = GridLayout::classic();
    // Two pieces beside a blocked column both want (3, 2); a third drops straight into it.
    let blocked = CellSet::from_cells(&[(2, 2), (4, 2), (3, 4)]);
    let locked = CellSet::from_cells(&[(5, 0)]);
    let pieces = vec![piece(2, 3), piece(4, 3), piece(3, 3), piece(5, 1), piece(6, 1)];
    let step = gravity_step(&pieces, &locked, &blocked, &layout, false);
    let ends: Vec<GridPos> = step.falls.iter().zip(&pieces).map(|(f, p)| landing(*f, p)).collect();
    for i in 0..ends.len() {
        assert_ne!((ends[i].x, ends[i].y), (5, 0));
        for j in 0..ends.len() {
            if i != j {
                assert_ne!(ends[i], ends[j]);
            }
        }
    }
    assert_eq!(step.falls[2], PieceFall::Fell(GridPos { x: 3, y: 2 }));
}

#[test]
fn blocked_and_unsettled_pieces_keep_their_cells() {
    let layout = GridLayout::classic();
    let blocked = CellSet::from_cells(&[(1, 4)]);
    let pieces = vec![
        piece(1, 4),
        FallingPiece { pos: GridPos { x: 5, y: 5 }, settled: false, is_spark: false },
        FallingPiece { pos: GridPos { x: 6, y: 4 }, settled: false, is_spark: false },
    ];
    let step = gravity_step(&pieces, &CellSet::new(), &blocked, &layout, false);
    for (f, p) in step.falls.iter().zip(&pieces) {
        assert_eq!(landing(*f, p), p.pos);
    }
    assert_eq!(step.falls[0], PieceFall::Resting);
    assert_eq!(step.falls[1], PieceFall::Waiting);
}
