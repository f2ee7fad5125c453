//! Grid positions and cells.

use vstd::prelude::*;

verus! {

/// A position on the 9x9 grid.  `x` is the column index and `y` the row
/// index; both run from 1 to 9 inclusive.
#[derive(Clone, Copy, PartialEq, Eq, Structural, Debug, Hash)]
pub struct Point {
    pub x: u8,
    pub y: u8,
}

/// One cell of the grid: its position, its stored digit (0 meaning empty),
/// whether the player may edit it, and the precomputed set of positions it
/// is constrained against.
#[derive(Debug)]
pub struct Cell {
    pub x: u8,
    pub y: u8,
    pub value: u8,
    pub mutable: bool,
    pub neighbors: Vec<Point>,
}

/// A coordinate axis value lies on the grid.
pub open spec fn coord_in_grid(v: u8) -> bool {
    1 <= v <= 9
}

/// A position lies on the grid.
pub open spec fn point_in_grid(p: Point) -> bool {
    coord_in_grid(p.x) && coord_in_grid(p.y)
}

/// The band (0, 1 or 2) that a coordinate falls in; bands partition 1..=9
/// into 1..=3, 4..=6 and 7..=9.
pub open spec fn band(v: u8) -> int {
    (v - 1) / 3
}

/// Two positions lie in the same 3x3 box.
pub open spec fn same_box(p: Point, q: Point) -> bool {
    band(p.x) == band(q.x) && band(p.y) == band(q.y)
}

/// Two grid positions constrain each other: they are distinct and share a
/// row, a column or a 3x3 box.
pub open spec fn is_neighbor(p: Point, q: Point) -> bool {
    &&& point_in_grid(p)
    &&& point_in_grid(q)
    &&& p != q
    &&& (p.x == q.x || p.y == q.y || same_box(p, q))
}

/// The 0-based row-major linear position of a grid point.
pub open spec fn pos_of(p: Point) -> int {
    (p.y - 1) * 9 + (p.x - 1)
}

/// The grid point at a 0-based row-major linear position.
pub open spec fn point_at(k: int) -> Point {
    Point { x: (k % 9 + 1) as u8, y: (k / 9 + 1) as u8 }
}

/// The position of a cell.
pub open spec fn cell_point(c: Cell) -> Point {
    Point { x: c.x, y: c.y }
}

/// A well-formed cell: it lies on the grid, stores a digit or 0, and its
/// neighbor list holds, without repetition, exactly the 20 positions that
/// constrain it.
pub open spec fn cell_wf(c: Cell) -> bool {
    &&& coord_in_grid(c.x)
    &&& coord_in_grid(c.y)
    &&& c.value <= 9
    &&& c.neighbors@.no_duplicates()
    &&& c.neighbors@.len() == 20
    &&& forall|j: int|
        0 <= j < c.neighbors@.len() ==> is_neighbor(cell_point(c), #[trigger] c.neighbors@[j])
    &&& forall|q: Point| #[trigger] is_neighbor(cell_point(c), q) ==> c.neighbors@.contains(q)
}

impl Point {
    /// Builds a grid position from its two axes.
    pub fn new(x: u8, y: u8) -> (r: Point)
        requires
            coord_in_grid(x),
            coord_in_grid(y),
        ensures
            r.x == x,
            r.y == y,
    {
        Point { x, y }
    }
}

impl Clone for Cell {
    /// An exact copy of the cell; the neighbor list is duplicated.
    fn clone(&self) -> (r: Self)
        ensures
            r.x == self.x,
            r.y == self.y,
            r.value == self.value,
            r.mutable == self.mutable,
            r.neighbors@ == self.neighbors@,
    {
        Cell {
            x: self.x,
            y: self.y,
            value: self.value,
            mutable: self.mutable,
            neighbors: copy_points(&self.neighbors),
        }
    }
}

/// An element-wise copy of a list of positions.
pub fn copy_points(v: &Vec<Point>) -> (r: Vec<Point>)
    ensures
        r@ == v@,
{
    let mut r: Vec<Point> = Vec::new();
    let mut i: usize = 0;
    while i < v.len()
        invariant
            i <= v.len(),
            r@ == v@.subrange(0, i as int),
        decreases v.len() - i,
    {
        r.push(v[i]);
        proof {
            assert(r@ =~= v@.subrange(0, i + 1));
        }
        i += 1;
    }
    proof {
        assert(r@ =~= v@);
    }
    r
}

} // verus!
