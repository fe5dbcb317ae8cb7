//! Which empty cells a column's refill reaches: the column is fed from its top, and a gravity
//! blocker cuts the feed to every cell below it.

use vstd::prelude::*;

use crate::grid::{CellSet, GridLayout, GridPos};

verus! {

/// Whether the refill of column `x` reaches row `y`: the cell is on the board and empty, and no
/// cell of the column at or above it is a gravity blocker.
pub open spec fn refill_reaches(
    cells: Set<(i32, i32)>,
    x: i32,
    y: i32,
    occupied: Set<(i32, i32)>,
    blocked: Set<(i32, i32)>,
) -> bool {
    &&& cells.contains((x, y))
    &&& !occupied.contains((x, y))
    &&& forall|y2: i32| y2 >= y && #[trigger] cells.contains((x, y2)) ==> !blocked.contains((x, y2))
}

/// The rows of the board's cells in column `x`, each once.
fn column_rows(layout: &GridLayout, x: i32) -> (r: Vec<i32>)
    ensures
        r@.no_duplicates(),
        forall|y: i32| #[trigger] r@.contains(y) <==> layout.cells_spec().contains((x, y)),
{
    let all = layout.cells_list();
    let mut r: Vec<i32> = Vec::new();
    let mut i: usize = 0;
    while i < all.len()
        invariant
            i <= all.len(),
            all@.to_set() == layout.cells_spec(),
            r@.no_duplicates(),
            forall|y: i32| #[trigger] r@.contains(y) <==> all@.take(i as int).contains((x, y)),
        decreases all.len() - i,
    {
        let (cx, cy) = all[i];
        let ghost t0 = all@.take(i as int);
        let ghost t1 = all@.take(i + 1);
        proof {
            assert(t1 =~= t0.push((cx, cy)));
        }
        if cx == x && !contains_row(&r, cy) {
            let ghost old_r = r@;
            r.push(cy);
            proof {
                assert forall|a: int, b: int| 0 <= a < r@.len() && 0 <= b < r@.len() && a != b implies r@[a] != r@[b] by {
                    if a == old_r.len() {
                        assert(old_r.contains(r@[b]) || b == old_r.len());
                    } else if b == old_r.len() {
                        assert(old_r.contains(r@[a]));
                    }
                }
                assert forall|y: i32| #[trigger] r@.contains(y) <==> t1.contains((x, y)) by {
                    if r@.contains(y) && y != cy {
                        let j = choose|j: int| 0 <= j < r@.len() && r@[j] == y;
                        assert(old_r[j] == y);
                    }
                    if old_r.contains(y) {
                        let j = choose|j: int| 0 <= j < old_r.len() && old_r[j] == y;
                        assert(r@[j] == y);
                    }
                    if y == cy {
                        assert(r@[old_r.len() as int] == y);
                        assert(t1[i as int] == (x, y));
                    }
                    if t1.contains((x, y)) && (x, y) != (cx, cy) {
                        let j = choose|j: int| 0 <= j < t1.len() && t1[j] == (x, y);
                        assert(t0[j] == (x, y));
                    }
                    if t0.contains((x, y)) {
                        let j = choose|j: int| 0 <= j < t0.len() && t0[j] == (x, y);
                        assert(t1[j] == (x, y));
                    }
                }
            }
        } else {
            proof {
                assert forall|y: i32| #[trigger] r@.contains(y) <==> t1.contains((x, y)) by {
                    if t1.contains((x, y)) && (x, y) != (cx, cy) {
                        let j = choose|j: int| 0 <= j < t1.len() && t1[j] == (x, y);
                        assert(t0[j] == (x, y));
                    }
                    if t0.contains((x, y)) {
                        let j = choose|j: int| 0 <= j < t0.len() && t0[j] == (x, y);
                        assert(t1[j] == (x, y));
                    }
                    if (x, y) == (cx, cy) && t1.contains((x, y)) {
                        assert(r@.contains(cy));
                    }
                }
            }
        }
        i = i + 1;
    }
    proof {
        assert(all@.take(i as int) =~= all@);
    }
    r
}

/// Whether `v` holds `y`.
fn contains_row(v: &Vec<i32>, y: i32) -> (r: bool)
    ensures
        r == v@.contains(y),
{
    let mut i: usize = 0;
    while i < v.len()
        invariant
            i <= v.len(),
            forall|j: int| 0 <= j < i ==> v@[j] != y,
        decreases v.len() - i,
    {
        if v[i] == y {
            assert(v@[i as int] == y);
            return true;
        }
        i = i + 1;
    }
    false
}

/// The rows of `v`, highest first.
fn sort_desc(v: &Vec<i32>) -> (r: Vec<i32>)
    requires
        v@.no_duplicates(),
    ensures
        forall|y: i32| #[trigger] r@.contains(y) <==> v@.contains(y),
        forall|a: int, b: int| 0 <= a < b < r@.len() ==> r@[a] > r@[b],
{
    let mut r: Vec<i32> = Vec::new();
    let mut k: usize = 0;
    while k < v.len()
        invariant
            k <= v.len(),
            v@.no_duplicates(),
            forall|y: i32| #[trigger] r@.contains(y) <==> v@.take(k as int).contains(y),
            forall|a: int, b: int| 0 <= a < b < r@.len() ==> r@[a] > r@[b],
        decreases v.len() - k,
    {
        let e = v[k];
        proof {
            assert(v@.take(k + 1) =~= v@.take(k as int).push(e));
            if v@.take(k as int).contains(e) {
                let j = choose|j: int| 0 <= j < k && v@.take(k as int)[j] == e;
                assert(v@[j] == v@[k as int]);
            }
        }
        let mut at: usize = 0;
        while at < r.len() && r[at] > e
            invariant
                at <= r.len(),
                forall|j: int| 0 <= j < at ==> r@[j] > e,
            decreases r.len() - at,
        {
            at = at + 1;
        }
        let ghost old_r = r@;
        proof {
            assert(!old_r.contains(e));
            if at < old_r.len() {
                assert(old_r[at as int] < e);
            }
        }
        r.insert(at, e);
        proof {
            assert forall|a: int, b: int| 0 <= a < b < r@.len() implies r@[a] > r@[b] by {
                if b < at {
                    assert(r@[a] == old_r[a] && r@[b] == old_r[b]);
                } else if b == at {
                    assert(r@[a] == old_r[a]);
                } else if a < at {
                    assert(r@[a] == old_r[a] && r@[b] == old_r[b - 1]);
                    assert(old_r[a] > old_r[b - 1]);
                } else if a == at {
                    assert(r@[b] == old_r[b - 1]);
                    assert(old_r[at as int] >= old_r[b - 1]);
                } else {
                    assert(r@[a] == old_r[a - 1] && r@[b] == old_r[b - 1]);
                }
            }
            assert forall|y: i32| #[trigger] r@.contains(y) <==> v@.take(k + 1).contains(y) by {
                let t1 = v@.take(k + 1);
                let t0 = v@.take(k as int);
                if r@.contains(y) && y != e {
                    let j = choose|j: int| 0 <= j < r@.len() && r@[j] == y;
                    if j < at {
                        assert(old_r[j] == y);
                    } else {
                        assert(old_r[j - 1] == y);
                    }
                    assert(old_r.contains(y));
                    assert(t0.contains(y));
                    let q = choose|q: int| 0 <= q < t0.len() && t0[q] == y;
                    assert(t1[q] == y);
                }
                if y == e {
                    assert(r@[at as int] == e);
                    assert(t1[k as int] == e);
                }
                if t1.contains(y) && y != e {
                    let q = choose|q: int| 0 <= q < t1.len() && t1[q] == y;
                    assert(t0[q] == y);
                    assert(old_r.contains(y));
                    let j = choose|j: int| 0 <= j < old_r.len() && old_r[j] == y;
                    if j < at {
                        assert(r@[j] == y);
                    } else {
                        assert(r@[j + 1] == y);
                    }
                }
            }
        }
        k = k + 1;
    }
    proof {
        assert(v@.take(k as int) =~= v@);
    }
    r
}

/// The empty cells that the refill of `entry`'s column reaches, lowest first: scanning the
/// column's cells from the top down, up to the first gravity blocker, those not occupied.
pub fn refill_positions(
    layout: &GridLayout,
    entry: GridPos,
    occupied: &CellSet,
    blocked: &CellSet,
) -> (r: Vec<GridPos>)
    ensures
        forall|a: int, b: int| 0 <= a < b < r@.len() ==> r@[a].y < r@[b].y,
        forall|a: int| 0 <= a < r@.len() ==> (#[trigger] r@[a]).x == entry.x,
        forall|y: i32| #[trigger] r@.contains(GridPos { x: entry.x, y }) <==> refill_reaches(
            layout.cells_spec(),
            entry.x,
            y,
            occupied@,
            blocked@,
        ),
{
    let x = entry.x;
    let rows = column_rows(layout, x);
    let column = sort_desc(&rows);
    let ghost cells = layout.cells_spec();
    // Top down: collect the empty cells until the first blocker.
    let mut down: Vec<i32> = Vec::new();
    let mut i: usize = 0;
    while i < column.len() && !blocked.contains(x, column[i])
        invariant
            i <= column.len(),
            forall|y: i32| #[trigger] column@.contains(y) <==> cells.contains((x, y)),
            forall|a: int, b: int| 0 <= a < b < column@.len() ==> column@[a] > column@[b],
            forall|j: int| 0 <= j < i ==> !blocked@.contains((x, #[trigger] column@[j])),
            forall|a: int, b: int| 0 <= a < b < down@.len() ==> down@[a] > down@[b],
            forall|y: i32| #[trigger] down@.contains(y) <==> (column@.take(i as int).contains(y) && !occupied@.contains((x, y))),
        decreases column.len() - i,
    {
        let y = column[i];
        let ghost t0 = column@.take(i as int);
        let ghost t1 = column@.take(i + 1);
        proof {
            assert(t1 =~= t0.push(y));
        }
        let ghost old_down = down@;
        if !occupied.contains(x, y) {
            down.push(y);
        }
        proof {
            assert forall|d: i32| #[trigger] down@.contains(d) <==> (t1.contains(d) && !occupied@.contains((x, d))) by {
                if down@.contains(d) && d != y {
                    let j = choose|j: int| 0 <= j < down@.len() && down@[j] == d;
                    assert(old_down[j] == d);
                    assert(old_down.contains(d));
                    assert(t0.contains(d));
                    let q = choose|q: int| 0 <= q < t0.len() && t0[q] == d;
                    assert(t1[q] == d);
                }
                if old_down.contains(d) {
                    let j = choose|j: int| 0 <= j < old_down.len() && old_down[j] == d;
                    assert(down@[j] == d);
                }
                if t1.contains(d) && d != y {
                    let q = choose|q: int| 0 <= q < t1.len() && t1[q] == d;
                    assert(t0[q] == d);
                }
                if d == y && !occupied@.contains((x, d)) {
                    assert(down@[down@.len() - 1] == d);
                }
                if d == y {
                    assert(t1[i as int] == d);
                }
            }
            assert forall|a: int, b: int| 0 <= a < b < down@.len() implies down@[a] > down@[b] by {
                if b == old_down.len() && down@.len() > old_down.len() {
                    assert(old_down.contains(down@[a]));
                    let q = choose|q: int| 0 <= q < t0.len() && t0[q] == down@[a];
                    assert(column@[q] == down@[a]);
                    assert(column@[i as int] == y);
                } else {
                    assert(down@[a] == old_down[a] && down@[b] == old_down[b]);
                }
            }
        }
        i = i + 1;
    }
    // Lowest first.
    let mut r: Vec<GridPos> = Vec::new();
    let mut j: usize = down.len();
    while j > 0
        invariant
            j <= down.len(),
            r@.len() == down.len() - j,
            forall|a: int| 0 <= a < r@.len() ==> (#[trigger] r@[a]) == (GridPos { x, y: down@[down@.len() - 1 - a] }),
        decreases j,
    {
        j = j - 1;
        r.push(GridPos { x, y: down[j] });
    }
    proof {
        let stop = i as int;
        assert forall|a: int, b: int| 0 <= a < b < r@.len() implies r@[a].y < r@[b].y by {
            assert(r@[a].y == down@[down@.len() - 1 - a]);
            assert(r@[b].y == down@[down@.len() - 1 - b]);
        }
        assert forall|y: i32| #[trigger] r@.contains(GridPos { x: entry.x, y }) <==> refill_reaches(cells, x, y, occupied@, blocked@) by {
            if r@.contains(GridPos { x, y }) {
                let a = choose|a: int| 0 <= a < r@.len() && r@[a] == GridPos { x, y };
                assert(down@[down@.len() - 1 - a] == y);
                assert(down@.contains(y));
                let q = choose|q: int| 0 <= q < column@.take(stop).len() && column@.take(stop)[q] == y;
                assert(column@[q] == y);
                assert(column@.contains(y));
                assert forall|y2: i32| y2 >= y && #[trigger] cells.contains((x, y2)) implies !blocked@.contains((x, y2)) by {
                    assert(column@.contains(y2));
                    let q2 = choose|q2: int| 0 <= q2 < column@.len() && column@[q2] == y2;
                    if q2 > q {
                        assert(column@[q] > column@[q2]);
                    }
                }
            }
            if refill_reaches(cells, x, y, occupied@, blocked@) {
                assert(column@.contains(y));
                let q = choose|q: int| 0 <= q < column@.len() && column@[q] == y;
                if q >= stop {
                    // the scan stopped at a blocker at or above y
                    assert(stop < column@.len());
                    let ys = column@[stop];
                    assert(blocked@.contains((x, ys)));
                    assert(column@.contains(ys));
                    if stop < q {
                        assert(ys > y);
                    }
                    assert(cells.contains((x, ys)));
                    assert(false);
                }
                assert(column@.take(stop)[q] == y);
                assert(down@.contains(y));
                let dj = choose|dj: int| 0 <= dj < down@.len() && down@[dj] == y;
                assert(r@[down@.len() - 1 - dj] == GridPos { x, y });
            }
        }
    }
    r
}

} // verus!
