//! Board coordinates, sets of cells, and the board layout (which cells exist and where a cell
//! drains to through a fall route).

use vstd::prelude::*;

verus! {

/// Width of the classic board, in cells.
pub const GRID_W: i32 = 8;

/// Height of the classic board, in cells.
pub const GRID_H: i32 = 8;

/// A cell of the board: column `x`, row `y` (row 0 is the bottom row).
#[derive(Clone, Copy, PartialEq, Eq, Debug, Hash, Structural)]
pub struct GridPos {
    pub x: i32,
    pub y: i32,
}

/// Whether `(x, y)` lies inside the classic `GRID_W` x `GRID_H` rectangle.
pub open spec fn in_bounds_spec(x: int, y: int) -> bool {
    0 <= x < GRID_W && 0 <= y < GRID_H
}

/// Whether `(x, y)` lies inside the classic rectangle.
pub fn in_bounds(x: i32, y: i32) -> (r: bool)
    ensures
        r == in_bounds_spec(x as int, y as int),
{
    0 <= x && x < GRID_W && 0 <= y && y < GRID_H
}

/// The four orthogonal neighbours of `p`: left, right, below, above (they may lie off the
/// board).
pub fn orthogonal_neighbors(p: GridPos) -> (r: [GridPos; 4])
    requires
        i32::MIN < p.x < i32::MAX,
        i32::MIN < p.y < i32::MAX,
    ensures
        r@ == seq![
            GridPos { x: (p.x - 1) as i32, y: p.y },
            GridPos { x: (p.x + 1) as i32, y: p.y },
            GridPos { x: p.x, y: (p.y - 1) as i32 },
            GridPos { x: p.x, y: (p.y + 1) as i32 },
        ],
{
    let r = [
        GridPos { x: p.x - 1, y: p.y },
        GridPos { x: p.x + 1, y: p.y },
        GridPos { x: p.x, y: p.y - 1 },
        GridPos { x: p.x, y: p.y + 1 },
    ];
    assert(r@ =~= seq![
        GridPos { x: (p.x - 1) as i32, y: p.y },
        GridPos { x: (p.x + 1) as i32, y: p.y },
        GridPos { x: p.x, y: (p.y - 1) as i32 },
        GridPos { x: p.x, y: (p.y + 1) as i32 },
    ]);
    r
}

/// A finite set of cells, each written `(x, y)`. It is held as a list of its cells so that the
/// rules can walk it in a fixed order and state what each step sees.
pub struct CellSet {
    cells: Vec<(i32, i32)>,
}

impl View for CellSet {
    type V = Set<(i32, i32)>;

    closed spec fn view(&self) -> Set<(i32, i32)> {
        self.cells@.to_set()
    }
}

impl CellSet {
    /// The empty set.
    pub fn new() -> (r: CellSet)
        ensures
            r@ == Set::<(i32, i32)>::empty(),
    {
        let r = CellSet { cells: Vec::new() };
        assert(r@ =~= Set::<(i32, i32)>::empty());
        r
    }

    /// The set of the listed cells.
    pub fn from_cells(cells: &[(i32, i32)]) -> (r: CellSet)
        ensures
            r@ == cells@.to_set(),
    {
        let mut v: Vec<(i32, i32)> = Vec::new();
        let mut i: usize = 0;
        while i < cells.len()
            invariant
                i <= cells.len(),
                v@ == cells@.take(i as int),
            decreases cells.len() - i,
        {
            v.push(cells[i]);
            i = i + 1;
            assert(v@ =~= cells@.take(i as int));
        }
        assert(v@ =~= cells@);
        CellSet { cells: v }
    }

    /// Whether `(x, y)` is in the set.
    pub fn contains(&self, x: i32, y: i32) -> (r: bool)
        ensures
            r == self@.contains((x, y)),
    {
        let mut i: usize = 0;
        while i < self.cells.len()
            invariant
                i <= self.cells.len(),
                forall|j: int| 0 <= j < i ==> self.cells@[j] != (x, y),
            decreases self.cells.len() - i,
        {
            let (cx, cy) = self.cells[i];
            if cx == x && cy == y {
                assert(self.cells@[i as int] == (x, y));
                return true;
            }
            i = i + 1;
        }
        proof {
            if self.cells@.contains((x, y)) {
                let j = choose|j: int| 0 <= j < self.cells@.len() && self.cells@[j] == (x, y);
            }
        }
        false
    }

    /// The cells, as a list.
    pub fn cells_list(&self) -> (r: Vec<(i32, i32)>)
        ensures
            r@.to_set() == self@,
    {
        let mut v: Vec<(i32, i32)> = Vec::new();
        let mut i: usize = 0;
        while i < self.cells.len()
            invariant
                i <= self.cells.len(),
                v@ == self.cells@.take(i as int),
            decreases self.cells.len() - i,
        {
            v.push(self.cells[i]);
            i = i + 1;
            assert(v@ =~= self.cells@.take(i as int));
        }
        assert(v@ =~= self.cells@);
        v
    }

    /// Adds `(x, y)`.
    pub fn insert(&mut self, x: i32, y: i32)
        ensures
            final(self)@ == old(self)@.insert((x, y)),
    {
        self.cells.push((x, y));
        proof {
            assert forall|c: (i32, i32)| #[trigger] final(self)@.contains(c) == old(self)@.insert((x, y)).contains(c) by {
                if old(self).cells@.contains(c) {
                    let j = choose|j: int| 0 <= j < old(self).cells@.len() && old(self).cells@[j] == c;
                    assert(self.cells@[j] == c);
                }
                if self.cells@.contains(c) && c != (x, y) {
                    let j = choose|j: int| 0 <= j < self.cells@.len() && self.cells@[j] == c;
                    assert(old(self).cells@[j] == c);
                }
                if c == (x, y) {
                    assert(self.cells@[self.cells@.len() - 1] == c);
                }
            }
            assert(final(self)@ =~= old(self)@.insert((x, y)));
        }
    }

    /// Removes `(x, y)`.
    pub fn remove(&mut self, x: i32, y: i32)
        ensures
            final(self)@ == old(self)@.remove((x, y)),
    {
        let mut kept: Vec<(i32, i32)> = Vec::new();
        let mut i: usize = 0;
        while i < self.cells.len()
            invariant
                i <= self.cells.len(),
                forall|c: (i32, i32)| #[trigger] kept@.contains(c) <==> (c != (x, y)
                    && self.cells@.take(i as int).contains(c)),
            decreases self.cells.len() - i,
        {
            let c = self.cells[i];
            let ghost old_kept = kept@;
            if !(c.0 == x && c.1 == y) {
                kept.push(c);
            }
            proof {
                assert(self.cells@.take(i + 1) =~= self.cells@.take(i as int).push(c));
                assert forall|d: (i32, i32)| #[trigger] kept@.contains(d) <==> (d != (x, y)
                    && self.cells@.take(i + 1).contains(d)) by {
                    if kept@.contains(d) {
                        let j = choose|j: int| 0 <= j < kept@.len() && kept@[j] == d;
                        if j < old_kept.len() {
                            assert(old_kept[j] == d);
                            assert(old_kept.contains(d));
                            let tk0 = self.cells@.take(i as int);
                            let m = choose|m: int| 0 <= m < tk0.len() && tk0[m] == d;
                            assert(self.cells@.take(i + 1)[m] == d);
                        } else {
                            assert(self.cells@.take(i + 1)[i as int] == d);
                        }
                    }
                    if d != (x, y) && self.cells@.take(i + 1).contains(d) {
                        let tk = self.cells@.take(i + 1);
                        let m = choose|m: int| 0 <= m < tk.len() && tk[m] == d;
                        if m < i {
                            assert(self.cells@.take(i as int)[m] == d);
                            assert(old_kept.contains(d));
                            let j = choose|j: int| 0 <= j < old_kept.len() && old_kept[j] == d;
                            assert(kept@[j] == d);
                        } else {
                            assert(kept@[kept@.len() - 1] == d);
                        }
                    }
                }
            }
            i = i + 1;
        }
        assert(self.cells@.take(i as int) =~= self.cells@);
        self.cells = kept;
        assert(self@ =~= old(self)@.remove((x, y)));
    }
}

/// Which cells a board has and the fall routes between its parts.
pub struct GridLayout {
    cells: CellSet,
    routes: Vec<(GridPos, GridPos)>,
}

/// The cells of the classic `GRID_W` x `GRID_H` rectangle.
pub open spec fn classic_cells() -> Set<(i32, i32)> {
    Set::new(|c: (i32, i32)| in_bounds_spec(c.0 as int, c.1 as int))
}

/// The exit of the first fall route that starts at `pos`, if any.
pub open spec fn route_exit(routes: Seq<(GridPos, GridPos)>, pos: GridPos) -> Option<GridPos>
    decreases routes.len(),
{
    if routes.len() == 0 {
        None
    } else if routes[0].0 == pos {
        Some(routes[0].1)
    } else {
        route_exit(routes.drop_first(), pos)
    }
}

impl GridLayout {
    /// The cells of the board.
    pub closed spec fn cells_spec(&self) -> Set<(i32, i32)> {
        self.cells@
    }

    /// The fall routes, in the order they were added.
    pub closed spec fn routes_spec(&self) -> Seq<(GridPos, GridPos)> {
        self.routes@
    }

    /// The classic full rectangle with no fall routes.
    pub fn classic() -> (r: GridLayout)
        ensures
            r.cells_spec() == classic_cells(),
            r.routes_spec() == Seq::<(GridPos, GridPos)>::empty(),
    {
        let r = GridLayout::rectangles(&[(0, 0, GRID_W, GRID_H)]);
        assert(r.cells_spec() =~= classic_cells());
        r
    }

    /// A board made of the rectangles `(x, y, width, height)`, with no fall routes.
    pub fn rectangles(rects: &[(i32, i32, i32, i32)]) -> (r: GridLayout)
        requires
            forall|i: int| 0 <= i < rects.len() ==> (#[trigger] rects[i]).2 >= 0 && rects[i].3 >= 0
                && rects[i].0 + rects[i].2 <= i32::MAX && rects[i].1 + rects[i].3 <= i32::MAX,
        ensures
            forall|c: (i32, i32)| #[trigger] r.cells_spec().contains(c) <==> exists|i: int|
                0 <= i < rects.len() && in_rect(rects[i], c),
            r.routes_spec() == Seq::<(GridPos, GridPos)>::empty(),
    {
        let mut cells = CellSet::new();
        let mut i: usize = 0;
        while i < rects.len()
            invariant
                i <= rects.len(),
                forall|j: int| 0 <= j < rects.len() ==> (#[trigger] rects[j]).2 >= 0 && rects[j].3 >= 0
                    && rects[j].0 + rects[j].2 <= i32::MAX && rects[j].1 + rects[j].3 <= i32::MAX,
                forall|c: (i32, i32)| #[trigger] cells@.contains(c) <==> exists|j: int|
                    0 <= j < i && in_rect(rects[j], c),
            decreases rects.len() - i,
        {
            let (rx, ry, rw, rh) = rects[i];
            let mut dx: i32 = 0;
            while dx < rw
                invariant
                    0 <= dx <= rw,
                    rx + rw <= i32::MAX,
                    ry + rh <= i32::MAX,
                    rh >= 0,
                    rects[i as int] == (rx, ry, rw, rh),
                    forall|c: (i32, i32)| #[trigger] cells@.contains(c) <==> (exists|j: int|
                        0 <= j < i && in_rect(rects[j], c)) || (rx <= c.0 < rx + dx && ry <= c.1 < ry + rh),
                decreases rw - dx,
            {
                let mut dy: i32 = 0;
                while dy < rh
                    invariant
                        0 <= dx < rw,
                        0 <= dy <= rh,
                        rx + rw <= i32::MAX,
                        ry + rh <= i32::MAX,
                        forall|c: (i32, i32)| #[trigger] cells@.contains(c) <==> (exists|j: int|
                            0 <= j < i && in_rect(rects[j], c)) || (rx <= c.0 < rx + dx && ry <= c.1
                            < ry + rh) || (c.0 == rx + dx && ry <= c.1 < ry + dy),
                    decreases rh - dy,
                {
                    cells.insert(rx + dx, ry + dy);
                    dy = dy + 1;
                }
                dx = dx + 1;
            }
            i = i + 1;
            proof {
                assert forall|c: (i32, i32)| #[trigger] cells@.contains(c) <==> exists|j: int|
                    0 <= j < i && in_rect(rects[j], c) by {
                    if cells@.contains(c) && !(exists|j: int| 0 <= j < i - 1 && in_rect(rects[j], c)) {
                        assert(in_rect(rects[i - 1], c));
                    }
                    if exists|j: int| 0 <= j < i && in_rect(rects[j], c) {
                        let j = choose|j: int| 0 <= j < i && in_rect(rects[j], c);
                        if j < i - 1 {
                            assert(exists|j2: int| 0 <= j2 < i - 1 && in_rect(rects[j2], c));
                        }
                    }
                }
            }
        }
        GridLayout { cells, routes: Vec::new() }
    }

    /// Adds a fall route: a light that reaches `from` drops on to `to`.
    pub fn add_fall_route(&mut self, from: GridPos, to: GridPos)
        ensures
            final(self).cells_spec() == old(self).cells_spec(),
            final(self).routes_spec() == old(self).routes_spec().push((from, to)),
    {
        self.routes.push((from, to));
    }

    /// The board's cells, as a list.
    pub fn cells_list(&self) -> (r: Vec<(i32, i32)>)
        ensures
            r@.to_set() == self.cells_spec(),
    {
        self.cells.cells_list()
    }

    /// Whether the board has cell `p`.
    pub fn contains(&self, p: GridPos) -> (r: bool)
        ensures
            r == self.cells_spec().contains((p.x, p.y)),
    {
        self.cells.contains(p.x, p.y)
    }

    /// Where a light at `pos` leaves through a fall route, if a route starts there.
    pub fn fall_target(&self, pos: GridPos) -> (r: Option<GridPos>)
        ensures
            r == route_exit(self.routes_spec(), pos),
    {
        let mut i: usize = 0;
        assert(self.routes@.skip(0) =~= self.routes@);
        while i < self.routes.len()
            invariant
                i <= self.routes.len(),
                route_exit(self.routes@, pos) == route_exit(self.routes@.skip(i as int), pos),
            decreases self.routes.len() - i,
        {
            let (from, to) = self.routes[i];
            proof {
                assert(self.routes@.skip(i as int)[0] == self.routes@[i as int]);
                assert(self.routes@.skip(i as int).drop_first() =~= self.routes@.skip(i + 1));
            }
            if from == pos {
                return Some(to);
            }
            i = i + 1;
        }
        assert(self.routes@.skip(i as int) =~= Seq::<(GridPos, GridPos)>::empty());
        None
    }
}

/// Whether the cell `c` lies in the rectangle `(x, y, width, height)`.
pub open spec fn in_rect(r: (i32, i32, i32, i32), c: (i32, i32)) -> bool {
    r.0 <= c.0 < r.0 + r.2 && r.1 <= c.1 < r.1 + r.3
}

} // verus!
