use std::collections::HashMap;

use lightcore::falling::{
    choose_fall_target, diagonal_fall_target, ingredient_diagonal_fall_target,
    straight_fall_target,
};
use lightcore::grid::{CellSet, GridPos};

fn occupied(cells: &[(i32, i32)]) -> CellSet {
    CellSet::from_cells(cells)
}

fn shadows(cells: &[(i32, i32)]) -> CellSet {
    CellSet::from_cells(cells)
}

#[test]
fn stasis_enables_the_same_diagonal_cascade_as_a_gravity_blocker() {
    // The stasis light at (2, 4) blocks gravity, so it is in the gravity block set.
    let gravity_blocks = shadows(&[(2, 4)]);
    let occupied = occupied(&[(3, 4), (3, 3), (2, 4)]);
    let next = choose_fall_target(GridPos { x: 3, y: 4 }, &occupied, &gravity_blocks);

    assert_eq!(next, Some(GridPos { x: 2, y: 3 }));
}

#[test]
fn falls_straight_down_when_cell_below_is_open() {
    let next = choose_fall_target(GridPos { x: 3, y: 4 }, &occupied(&[(3, 4)]), &shadows(&[]));
    assert_eq!(next, Some(GridPos { x: 3, y: 3 }));
}

#[test]
fn slides_diagonally_around_shadow_when_left_path_is_open() {
    let next = choose_fall_target(
        GridPos { x: 3, y: 4 },
        &occupied(&[(3, 4)]),
        &shadows(&[(3, 3), (2, 4)]),
    );
    assert_eq!(next, Some(GridPos { x: 2, y: 3 }));
}

#[test]
fn does_not_slide_into_target_with_normal_vertical_feed() {
    let next = choose_fall_target(
        GridPos { x: 3, y: 4 },
        &occupied(&[(3, 4)]),
        &shadows(&[(3, 3)]),
    );
    assert_eq!(next, None);
}

#[test]
fn does_not_slide_around_normal_piece_below() {
    let next = choose_fall_target(
        GridPos { x: 3, y: 4 },
        &occupied(&[(3, 4), (3, 3)]),
        &shadows(&[]),
    );
    assert_eq!(next, None);
}

#[test]
fn slides_when_normal_piece_below_sits_on_static_blocker() {
    let next = choose_fall_target(
        GridPos { x: 3, y: 4 },
        &occupied(&[(3, 4), (3, 3)]),
        &shadows(&[(3, 2), (2, 4)]),
    );
    assert_eq!(next, Some(GridPos { x: 2, y: 3 }));
}

#[test]
fn slides_from_normal_stack_into_target_blocked_by_shadow_above() {
    let next = choose_fall_target(
        GridPos { x: 3, y: 4 },
        &occupied(&[(3, 4), (3, 3)]),
        &shadows(&[(2, 4)]),
    );
    assert_eq!(next, Some(GridPos { x: 2, y: 3 }));
}

#[test]
fn does_not_slide_when_static_blocker_is_buried_under_stack() {
    let next = choose_fall_target(
        GridPos { x: 3, y: 5 },
        &occupied(&[(3, 5), (3, 4), (3, 3)]),
        &shadows(&[(3, 2)]),
    );
    assert_eq!(next, None);
}

#[test]
fn stays_put_when_both_diagonals_are_blocked() {
    let next = choose_fall_target(
        GridPos { x: 3, y: 4 },
        &occupied(&[(3, 4), (2, 4), (4, 4), (2, 3), (4, 3)]),
        &shadows(&[(3, 3)]),
    );
    assert_eq!(next, None);
}

#[test]
fn prefers_left_diagonal_when_both_sides_are_open() {
    let next = choose_fall_target(GridPos { x: 3, y: 4 }, &occupied(&[(3, 4)]), &shadows(&[]));
    assert_eq!(next, Some(GridPos { x: 3, y: 3 }));
}

#[test]
fn prefers_left_diagonal_when_static_blocker_blocks_vertical() {
    let next = choose_fall_target(
        GridPos { x: 3, y: 4 },
        &occupied(&[(3, 4)]),
        &shadows(&[(3, 3), (2, 4)]),
    );
    assert_eq!(next, Some(GridPos { x: 2, y: 3 }));
}

#[test]
fn does_not_slide_out_of_bounds_around_normal_piece() {
    let next = choose_fall_target(
        GridPos { x: 0, y: 2 },
        &occupied(&[(0, 2), (0, 1)]),
        &shadows(&[]),
    );
    assert_eq!(next, None);
}

#[test]
fn slides_in_bounds_around_edge_static_blocker() {
    let next = choose_fall_target(
        GridPos { x: 0, y: 2 },
        &occupied(&[(0, 2)]),
        &shadows(&[(0, 1), (1, 2)]),
    );
    assert_eq!(next, Some(GridPos { x: 1, y: 1 }));
}

#[test]
fn spark_like_piece_uses_same_rule() {
    let start = GridPos { x: 5, y: 5 };
    let mut board = HashMap::from([((5, 5), start)]);
    let keys: Vec<(i32, i32)> = board.keys().copied().collect();
    let next = choose_fall_target(start, &occupied(&keys), &shadows(&[(5, 4), (4, 5)]));
    assert_eq!(next, Some(GridPos { x: 4, y: 4 }));
    board.remove(&(5, 5));
    board.insert((4, 4), GridPos { x: 4, y: 4 });
    assert!(board.contains_key(&(4, 4)));
}

#[test]
fn ingredient_prefers_vertical_before_diagonal() {
    let next = straight_fall_target(GridPos { x: 7, y: 4 }, &occupied(&[(7, 4)]), &shadows(&[]))
        .or_else(|| {
            ingredient_diagonal_fall_target(
                GridPos { x: 7, y: 4 },
                &occupied(&[(7, 4)]),
                &shadows(&[]),
            )
        });

    assert_eq!(next, Some(GridPos { x: 7, y: 3 }));
}

#[test]
fn ingredient_can_slide_diagonally_around_blocked_exit_column() {
    let next = straight_fall_target(
        GridPos { x: 7, y: 4 },
        &occupied(&[(7, 4)]),
        &shadows(&[(7, 3)]),
    )
    .or_else(|| {
        ingredient_diagonal_fall_target(
            GridPos { x: 7, y: 4 },
            &occupied(&[(7, 4)]),
            &shadows(&[(7, 3)]),
        )
    });

    assert_eq!(next, Some(GridPos { x: 6, y: 3 }));
}

#[test]
fn ingredient_does_not_slide_before_vertical_feed() {
    let next = straight_fall_target(
        GridPos { x: 7, y: 4 },
        &occupied(&[(7, 4), (6, 5)]),
        &shadows(&[(7, 3)]),
    )
    .or_else(|| {
        ingredient_diagonal_fall_target(
            GridPos { x: 7, y: 4 },
            &occupied(&[(7, 4), (6, 5)]),
            &shadows(&[(7, 3)]),
        )
    });

    assert_eq!(next, None);
}

#[test]
fn straight_falls_get_priority_over_diagonal_competitors() {
    let mut occupied = occupied(&[(3, 4), (2, 4), (2, 3), (1, 3)]);
    let vertical = straight_fall_target(GridPos { x: 3, y: 4 }, &occupied, &shadows(&[]));
    assert_eq!(vertical, Some(GridPos { x: 3, y: 3 }));
    occupied.remove(3, 4);
    occupied.insert(3, 3);

    let diagonal = diagonal_fall_target(GridPos { x: 2, y: 4 }, &occupied, &shadows(&[]));
    assert_eq!(diagonal, None);
}

#[test]
fn piece_rechecks_vertical_after_lower_piece_moves() {
    let mut occupied = occupied(&[(3, 4), (3, 3)]);

    let lower = straight_fall_target(GridPos { x: 3, y: 3 }, &occupied, &shadows(&[]));
    assert_eq!(lower, Some(GridPos { x: 3, y: 2 }));
    occupied.remove(3, 3);
    occupied.insert(3, 2);

    let upper = straight_fall_target(GridPos { x: 3, y: 4 }, &occupied, &shadows(&[]));
    assert_eq!(upper, Some(GridPos { x: 3, y: 3 }));

    let upper_diagonal = diagonal_fall_target(GridPos { x: 3, y: 4 }, &occupied, &shadows(&[]));
    assert_eq!(upper_diagonal, None);
}

#[test]
fn bottom_row_never_falls_out_of_bounds() {
    let pos = GridPos { x: 4, y: 0 };
    assert_eq!(
        straight_fall_target(pos, &occupied(&[(4, 0)]), &shadows(&[])),
        None
    );
    assert_eq!(
        diagonal_fall_target(pos, &occupied(&[(4, 0)]), &shadows(&[])),
        None
    );
    assert_eq!(
        choose_fall_target(pos, &occupied(&[(4, 0)]), &shadows(&[])),
        None
    );
}
