use lightcore::grid::{CellSet, GridLayout, GridPos, GRID_H};
use lightcore::spawning::refill_positions;

#[test]
fn shadow_cuts_refill_to_the_section_above_it() {
    let layout = GridLayout::classic();
    let entry = GridPos { x: 3, y: GRID_H - 1 };
    let blocked = CellSet::from_cells(&[(3, 3)]);

    let targets = refill_positions(&layout, entry, &CellSet::new(), &blocked);

    assert_eq!(targets, vec![GridPos { x: 3, y: 4 }, GridPos { x: 3, y: 5 }, GridPos { x: 3, y: 6 }, GridPos { x: 3, y: 7 }]);
}

#[test]
fn refill_skips_occupied_cells_and_fills_an_open_column() {
    let layout = GridLayout::classic();
    let entry = GridPos { x: 0, y: GRID_H - 1 };
    let occupied = CellSet::from_cells(&[(0, 0), (0, 5)]);
    let targets = refill_positions(&layout, entry, &occupied, &CellSet::new());
    assert_eq!(
        targets,
        vec![
            GridPos { x: 0, y: 1 },
            GridPos { x: 0, y: 2 },
            GridPos { x: 0, y: 3 },
            GridPos { x: 0, y: 4 },
            GridPos { x: 0, y: 6 },
            GridPos { x: 0, y: 7 },
        ]
    );
    // A blocker on the top cell cuts the whole column.
    let top = CellSet::from_cells(&[(0, 7)]);
    assert_eq!(refill_positions(&layout, entry, &CellSet::new(), &top), vec![]);
}
