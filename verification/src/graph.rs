//! The constraint graph: 81 cells with fixed row/column/box adjacency,
//! generation, lookup and validity checking.

use vstd::prelude::*;
use crate::cell::{
    band, cell_point, cell_wf, coord_in_grid, is_neighbor, point_at, point_in_grid, pos_of,
    same_box, Cell, Point,
};
use crate::random::RandomSource;
use crate::value::{from_val, spec_from_val, spec_to_val, to_val, Value};

verus! {

/// The fixed collection of 81 cells, one per grid position, in row-major
/// order.  Only `value` and `mutable` of the cells change after
/// construction; the adjacency is frozen.
pub struct Graph {
    pub cells: Vec<Cell>,
}

/// The cell stored at linear position `k` is well formed and sits at the
/// grid point that `k` encodes.
pub open spec fn cell_in_slot(c: Cell, k: int) -> bool {
    &&& cell_wf(c)
    &&& c.x == k % 9 + 1
    &&& c.y == k / 9 + 1
}

/// A well-formed graph: exactly 81 well-formed cells, the cell at linear
/// position `k` lying at the grid point that `k` encodes.
pub open spec fn graph_wf(g: Graph) -> bool {
    &&& g.cells@.len() == 81
    &&& forall|k: int| 0 <= k < 81 ==> cell_in_slot(#[trigger] g.cells@[k], k)
}

/// Every cell holds a digit.
pub open spec fn spec_complete(g: Graph) -> bool {
    forall|k: int| 0 <= k < 81 ==> 1 <= #[trigger] g.cells@[k].value <= 9
}

/// No two neighboring cells hold the same digit (empty cells conflict with
/// nothing).
pub open spec fn spec_values_valid(g: Graph) -> bool {
    forall|j: int, k: int|
        #![trigger g.cells@[j].value, g.cells@[k].value]
        0 <= j < 81 && 0 <= k < 81 && is_neighbor(point_at(j), point_at(k)) ==> (
        g.cells@[j].value == 0 || g.cells@[j].value != g.cells@[k].value)
}

/// The two other coordinates in the same band as `v`.
fn band_others(v: u8) -> (r: (u8, u8))
    requires
        coord_in_grid(v),
    ensures
        coord_in_grid(r.0),
        coord_in_grid(r.1),
        band(r.0) == band(v),
        band(r.1) == band(v),
        r.0 != v,
        r.1 != v,
        r.0 != r.1,
        forall|w: u8| coord_in_grid(w) && band(w) == band(v) && w != v ==> w == r.0 || w == r.1,
{
    proof {
        vstd::arithmetic::div_mod::lemma_fundamental_div_mod((v - 1) as int, 3);
    }
    let s: u8 = ((v - 1) / 3) * 3 + 1;
    proof {
        assert(s == 3 * band(v) + 1);
        assert forall|w: u8| coord_in_grid(w) && band(w) == band(v) implies s <= w <= s + 2 by {
            vstd::arithmetic::div_mod::lemma_fundamental_div_mod((w - 1) as int, 3);
        };
        assert(band(s) == band(v)) by {
            vstd::arithmetic::div_mod::lemma_fundamental_div_mod((s - 1) as int, 3);
        };
        assert(band((s + 1) as u8) == band(v)) by {
            vstd::arithmetic::div_mod::lemma_fundamental_div_mod((s + 1 - 1) as int, 3);
        };
        assert(band((s + 2) as u8) == band(v)) by {
            vstd::arithmetic::div_mod::lemma_fundamental_div_mod((s + 2 - 1) as int, 3);
        };
    }
    if v == s {
        (s + 1, s + 2)
    } else if v == s + 1 {
        (s, s + 2)
    } else {
        (s, s + 1)
    }
}

/// What `push` does to membership: the new sequence holds exactly the old
/// elements and the pushed one.
proof fn lemma_push_contains<A>(s: Seq<A>, e: A)
    ensures
        forall|x: A| s.push(e).contains(x) <==> s.contains(x) || x == e,
{
    assert forall|x: A| s.push(e).contains(x) <==> s.contains(x) || x == e by {
        if s.push(e).contains(x) {
            let t = choose|t: int| 0 <= t < s.push(e).len() && s.push(e)[t] == x;
            if t < s.len() {
                assert(s[t] == x);
            }
        }
        if s.contains(x) {
            let t = choose|t: int| 0 <= t < s.len() && s[t] == x;
            assert(s.push(e)[t] == x);
        }
        if x == e {
            assert(s.push(e)[s.len() as int] == x);
        }
    };
}

/// Appends a position that is not yet present, keeping the list free of
/// duplicates.
fn push_fresh(nb: &mut Vec<Point>, q: Point)
    requires
        !old(nb)@.contains(q),
        old(nb)@.no_duplicates(),
    ensures
        final(nb)@ == old(nb)@.push(q),
        final(nb)@.no_duplicates(),
        forall|p: Point| final(nb)@.contains(p) <==> old(nb)@.contains(p) || p == q,
{
    proof {
        lemma_push_keeps_no_duplicates(nb@, q);
        lemma_push_contains(nb@, q);
    }
    nb.push(q);
}

/// A point `q` pushed by the row/column pass for the cell at `(x, y)`,
/// after the axis values below `i` have been processed.
spec fn row_col_pt(x: u8, y: u8, q: Point, i: int) -> bool {
    ||| (q.x == x && 1 <= q.y < i && q.y != y)
    ||| (q.y == y && 1 <= q.x < i && q.x != x)
}

impl Graph {
    /// The neighbor set of the cell at `(x, y)`: the 8 other positions in
    /// its row, the 8 in its column, and the 4 remaining corners of its
    /// 3x3 box.
    fn neighbors_for(x: u8, y: u8) -> (nb: Vec<Point>)
        requires
            coord_in_grid(x),
            coord_in_grid(y),
        ensures
            nb@.no_duplicates(),
            nb@.len() == 20,
            forall|q: Point| nb@.contains(q) <==> is_neighbor(Point { x, y }, q),
    {
        let p = Point { x, y };
        let mut nb: Vec<Point> = Vec::new();
        let mut i: u8 = 1;
        while i <= 9
            invariant
                coord_in_grid(x),
                coord_in_grid(y),
                1 <= i <= 10,
                nb@.no_duplicates(),
                nb@.len() == 2 * (i - 1) - (if y < i {
                    1int
                } else {
                    0int
                }) - (if x < i {
                    1int
                } else {
                    0int
                }),
                forall|q: Point| nb@.contains(q) <==> row_col_pt(x, y, q, i as int),
            decreases 10 - i,
        {
            if i != y {
                let q = Point { x, y: i };
                proof {
                    assert(!row_col_pt(x, y, q, i as int));
                }
                push_fresh(&mut nb, q);
            }
            if i != x {
                let q = Point { x: i, y };
                proof {
                    assert(!row_col_pt(x, y, q, i as int));
                }
                push_fresh(&mut nb, q);
            }
            proof {
                assert forall|q: Point| nb@.contains(q) <==> row_col_pt(x, y, q, i + 1) by {
                    if nb@.contains(q) {
                        assert(row_col_pt(x, y, q, i as int) || q == (Point { x, y: i }) || q == (
                        Point { x: i, y }));
                    }
                };
            }
            i += 1;
        }
        let (cx1, cx2) = band_others(x);
        let (cy1, cy2) = band_others(y);
        proof {
            assert forall|q: Point| row_col_pt(x, y, q, 10) implies nb@.contains(q) by {};
        }
        push_fresh(&mut nb, Point { x: cx1, y: cy1 });
        push_fresh(&mut nb, Point { x: cx1, y: cy2 });
        push_fresh(&mut nb, Point { x: cx2, y: cy1 });
        push_fresh(&mut nb, Point { x: cx2, y: cy2 });
        proof {
            assert forall|q: Point| nb@.contains(q) implies is_neighbor(p, q) by {
                if row_col_pt(x, y, q, 10) {
                } else {
                    assert(same_box(p, q));
                }
            };
            assert forall|q: Point| is_neighbor(p, q) implies nb@.contains(q) by {
                if q.x == x || q.y == y {
                    assert(row_col_pt(x, y, q, 10));
                } else {
                    assert(same_box(p, q));
                    assert(q.x == cx1 || q.x == cx2);
                    assert(q.y == cy1 || q.y == cy2);
                }
            };
        }
        nb
    }

    /// A fresh graph: 81 empty, editable cells with the full adjacency
    /// computed once.
    pub fn new() -> (g: Graph)
        ensures
            graph_wf(g),
            forall|k: int| 0 <= k < 81 ==> #[trigger] g.cells@[k].value == 0,
            forall|k: int| 0 <= k < 81 ==> #[trigger] g.cells@[k].mutable == true,
    {
        let mut cells: Vec<Cell> = Vec::new();
        let mut k: usize = 0;
        while k < 81
            invariant
                k <= 81,
                cells@.len() == k,
                forall|j: int| 0 <= j < k ==> cell_in_slot(#[trigger] cells@[j], j),
                forall|j: int| 0 <= j < k ==> #[trigger] cells@[j].value == 0,
                forall|j: int| 0 <= j < k ==> #[trigger] cells@[j].mutable == true,
            decreases 81 - k,
        {
            let x: u8 = (k % 9) as u8 + 1;
            let y: u8 = (k / 9) as u8 + 1;
            let nb = Graph::neighbors_for(x, y);
            let c = Cell { x, y, value: 0, mutable: true, neighbors: nb };
            proof {
                assert(cell_point(c) == (Point { x, y }));
                assert forall|j: int| 0 <= j < c.neighbors@.len() implies is_neighbor(
                    cell_point(c),
                    #[trigger] c.neighbors@[j],
                ) by {
                    assert(c.neighbors@.contains(c.neighbors@[j]));
                };
                assert(cell_wf(c));
                assert(cell_in_slot(c, k as int));
            }
            cells.push(c);
            k += 1;
        }
        Graph { cells }
    }

    /// Read-only lookup by 1-indexed coordinates; `None` exactly when the
    /// coordinates are off the grid.
    pub fn at(&self, x: u8, y: u8) -> (r: Option<&Cell>)
        requires
            graph_wf(*self),
        ensures
            match r {
                Some(c) => coord_in_grid(x) && coord_in_grid(y) && *c == self.cells@[pos_of(
                    Point { x, y },
                )],
                None => !(coord_in_grid(x) && coord_in_grid(y)),
            },
    {
        if 1 <= x && x <= 9 && 1 <= y && y <= 9 {
            let idx: usize = (y as usize - 1) * 9 + (x as usize - 1);
            Some(&self.cells[idx])
        } else {
            None
        }
    }
}

/// A cell's stored value does not conflict with any neighbor looked up in
/// the graph: either the cell is empty, or every neighbor position that
/// lies on the grid holds a different value.  Positions off the grid have
/// no cell to conflict with.
pub open spec fn spec_cell_valid(c: Cell, g: Graph) -> bool {
    c.value == 0 || forall|j: int|
        0 <= j < c.neighbors@.len() ==> !point_in_grid(#[trigger] c.neighbors@[j])
            || g.cells@[pos_of(c.neighbors@[j])].value != c.value
}

/// A nonzero cell that fails the validity check.
pub open spec fn cell_conflicted(c: Cell, g: Graph) -> bool {
    c.value != 0 && !spec_cell_valid(c, g)
}

/// Two cells that agree in every field; their neighbor lists are equal as
/// sequences.
pub open spec fn cell_like(a: Cell, b: Cell) -> bool {
    &&& a.x == b.x
    &&& a.y == b.y
    &&& a.value == b.value
    &&& a.mutable == b.mutable
    &&& a.neighbors@ == b.neighbors@
}

/// The conflicting nonzero cells among the first `k` of the graph, in
/// order.
pub open spec fn spec_invalid_cells(g: Graph, k: int) -> Seq<Cell>
    decreases k,
{
    if k <= 0 {
        Seq::empty()
    } else if cell_conflicted(g.cells@[k - 1], g) {
        spec_invalid_cells(g, k - 1).push(g.cells@[k - 1])
    } else {
        spec_invalid_cells(g, k - 1)
    }
}

/// A grid point decodes the linear position it encodes.
pub proof fn lemma_point_at_pos_of(q: Point)
    requires
        point_in_grid(q),
    ensures
        0 <= pos_of(q) < 81,
        point_at(pos_of(q)) == q,
{
    vstd::arithmetic::div_mod::lemma_fundamental_div_mod_converse(
        pos_of(q),
        9,
        q.y - 1,
        q.x - 1,
    );
}

/// A linear position encodes the grid point it decodes to.
pub proof fn lemma_pos_of_point_at(k: int)
    requires
        0 <= k < 81,
    ensures
        point_in_grid(point_at(k)),
        pos_of(point_at(k)) == k,
{
    vstd::arithmetic::div_mod::lemma_fundamental_div_mod(k, 9);
}

impl Cell {
    /// True unless this cell holds a nonzero value that some neighbor,
    /// looked up in `graph`, also holds.  A lookup that misses (a neighbor
    /// position off the grid) counts as no conflict.
    pub fn is_valid(&self, graph: &Graph) -> (r: bool)
        requires
            graph_wf(*graph),
        ensures
            r == spec_cell_valid(*self, *graph),
    {
        if self.value == 0 {
            return true;
        }
        let mut j: usize = 0;
        while j < self.neighbors.len()
            invariant
                graph_wf(*graph),
                j <= self.neighbors@.len(),
                self.value != 0,
                forall|i: int|
                    0 <= i < j ==> !point_in_grid(#[trigger] self.neighbors@[i])
                        || graph.cells@[pos_of(self.neighbors@[i])].value != self.value,
            decreases self.neighbors@.len() - j,
        {
            let q = self.neighbors[j];
            match graph.at(q.x, q.y) {
                Some(c) => {
                    proof {
                        if point_in_grid(q) {
                            lemma_point_at_pos_of(q);
                        }
                    }
                    if c.value != 0 && c.value == self.value {
                        return false;
                    }
                },
                None => {},
            }
            j += 1;
        }
        true
    }
}

impl Graph {
    /// Mutable lookup by 1-indexed row-major linear position; `None`
    /// exactly when the position is off the grid.
    pub fn index(&mut self, index: u8) -> (r: Option<&mut Cell>)
        requires
            graph_wf(*old(self)),
        ensures
            match r {
                Some(c) => {
                    &&& 1 <= index <= 81
                    &&& *c == old(self).cells@[index - 1]
                    &&& final(self).cells@ == old(self).cells@.update(index - 1, *final(c))
                },
                None => {
                    &&& !(1 <= index <= 81)
                    &&& *final(self) == *old(self)
                },
            },
    {
        if 1 <= index && index <= 81 {
            let idx: usize = index as usize - 1;
            Some(&mut self.cells[idx])
        } else {
            None
        }
    }

    /// The list of currently conflicting nonzero cells, in grid order.
    pub fn invalid_cells(&self) -> (r: Vec<Cell>)
        requires
            graph_wf(*self),
        ensures
            r@.len() == spec_invalid_cells(*self, 81).len(),
            forall|i: int|
                0 <= i < r@.len() ==> cell_like(#[trigger] r@[i], spec_invalid_cells(*self, 81)[i]),
    {
        let mut r: Vec<Cell> = Vec::new();
        let mut k: usize = 0;
        while k < 81
            invariant
                graph_wf(*self),
                k <= 81,
                r@.len() == spec_invalid_cells(*self, k as int).len(),
                forall|i: int|
                    0 <= i < r@.len() ==> cell_like(
                        #[trigger] r@[i],
                        spec_invalid_cells(*self, k as int)[i],
                    ),
            decreases 81 - k,
        {
            let cell = &self.cells[k];
            if cell.value != 0 {
                if !cell.is_valid(self) {
                    r.push(cell.clone());
                }
            }
            k += 1;
        }
        r
    }
}

/// In a well-formed graph, every cell's neighbor list has exactly 20
/// members, none of them repeated and none of them the cell's own
/// position.
pub proof fn lemma_neighbor_count(g: Graph, k: int)
    requires
        graph_wf(g),
        0 <= k < 81,
    ensures
        g.cells@[k].neighbors@.len() == 20,
        g.cells@[k].neighbors@.no_duplicates(),
        !g.cells@[k].neighbors@.contains(cell_point(g.cells@[k])),
{
    let c = g.cells@[k];
    if c.neighbors@.contains(cell_point(c)) {
        let j = choose|j: int| 0 <= j < c.neighbors@.len() && c.neighbors@[j] == cell_point(c);
        assert(is_neighbor(cell_point(c), c.neighbors@[j]));
    }
}

/// The neighbor relation is symmetric: one cell's position appears in
/// another's neighbor list exactly when the converse holds.
pub proof fn lemma_neighbor_relation_symmetric(g: Graph, j: int, k: int)
    requires
        graph_wf(g),
        0 <= j < 81,
        0 <= k < 81,
    ensures
        g.cells@[j].neighbors@.contains(cell_point(g.cells@[k]))
            <==> g.cells@[k].neighbors@.contains(cell_point(g.cells@[j])),
{
    let cj = g.cells@[j];
    let ck = g.cells@[k];
    assert(cell_point(cj) == point_at(j) && cell_point(ck) == point_at(k));
    if cj.neighbors@.contains(cell_point(ck)) {
        let i = choose|i: int| 0 <= i < cj.neighbors@.len() && cj.neighbors@[i] == cell_point(ck);
        assert(is_neighbor(cell_point(cj), cj.neighbors@[i]));
        assert(is_neighbor(cell_point(ck), cell_point(cj)));
    }
    if ck.neighbors@.contains(cell_point(cj)) {
        let i = choose|i: int| 0 <= i < ck.neighbors@.len() && ck.neighbors@[i] == cell_point(cj);
        assert(is_neighbor(cell_point(ck), ck.neighbors@[i]));
        assert(is_neighbor(cell_point(cj), cell_point(ck)));
    }
}

/// Grid-level validity coincides with per-cell validity: no two
/// neighboring positions hold the same digit exactly when every cell
/// passes the per-cell check.
pub proof fn lemma_values_valid_iff_cells_valid(g: Graph)
    requires
        graph_wf(g),
    ensures
        spec_values_valid(g) <==> (forall|k: int|
            0 <= k < 81 ==> spec_cell_valid(#[trigger] g.cells@[k], g)),
{
    if spec_values_valid(g) {
        assert forall|k: int| 0 <= k < 81 implies spec_cell_valid(#[trigger] g.cells@[k], g) by {
            let c = g.cells@[k];
            if c.value != 0 {
                assert forall|j: int|
                    0 <= j < c.neighbors@.len() implies !point_in_grid(
                    #[trigger] c.neighbors@[j],
                ) || g.cells@[pos_of(c.neighbors@[j])].value != c.value by {
                    let q = c.neighbors@[j];
                    assert(is_neighbor(cell_point(c), q));
                    lemma_point_at_pos_of(q);
                    let m = pos_of(q);
                    assert(cell_point(c) == point_at(k));
                    assert(is_neighbor(point_at(k), point_at(m)));
                    assert(g.cells@[k].value == 0 || g.cells@[k].value != g.cells@[m].value);
                };
            }
        };
    }
    if forall|k: int| 0 <= k < 81 ==> spec_cell_valid(#[trigger] g.cells@[k], g) {
        assert forall|j: int, k: int|
            0 <= j < 81 && 0 <= k < 81 && is_neighbor(point_at(j), point_at(k)) implies (
        g.cells@[j].value == 0 || g.cells@[j].value != g.cells@[k].value) by {
            let c = g.cells@[j];
            if c.value != 0 {
                lemma_pos_of_point_at(j);
                lemma_pos_of_point_at(k);
                assert(cell_point(c) == point_at(j));
                assert(c.neighbors@.contains(point_at(k)));
                let i = choose|i: int|
                    0 <= i < c.neighbors@.len() && c.neighbors@[i] == point_at(k);
                assert(spec_cell_valid(c, g));
                assert(!point_in_grid(c.neighbors@[i]) || g.cells@[pos_of(c.neighbors@[i])].value
                    != c.value);
            }
        };
    }
}

/// A graph without conflicts yields no invalid cells among its first `k`.
proof fn lemma_no_conflicts_no_invalid_cells(g: Graph, k: int)
    requires
        0 <= k <= 81,
        forall|i: int| 0 <= i < 81 ==> !cell_conflicted(#[trigger] g.cells@[i], g),
    ensures
        spec_invalid_cells(g, k).len() == 0,
    decreases k,
{
    if k > 0 {
        lemma_no_conflicts_no_invalid_cells(g, k - 1);
    }
}

/// On a grid without conflicts — a freshly completed one in particular —
/// `invalid_cells` returns an empty list.
pub proof fn lemma_valid_graph_no_invalid_cells(g: Graph)
    requires
        graph_wf(g),
        spec_values_valid(g),
    ensures
        spec_invalid_cells(g, 81).len() == 0,
{
    lemma_values_valid_iff_cells_valid(g);
    lemma_no_conflicts_no_invalid_cells(g, 81);
}

/// Clearing cells never creates a conflict: if a graph had no two
/// neighboring cells with the same digit, it still has none after any
/// subset of its values is reset to 0.
pub proof fn lemma_clearing_preserves_validity(before: Graph, after: Graph)
    requires
        before.cells@.len() == 81,
        after.cells@.len() == 81,
        spec_values_valid(before),
        forall|k: int|
            0 <= k < 81 ==> (#[trigger] after.cells@[k]).value == before.cells@[k].value
                || after.cells@[k].value == 0,
    ensures
        spec_values_valid(after),
{
    assert forall|j: int, k: int|
        0 <= j < 81 && 0 <= k < 81 && is_neighbor(point_at(j), point_at(k)) implies (
    after.cells@[j].value == 0 || after.cells@[j].value != after.cells@[k].value) by {
        assert(before.cells@[j].value == 0 || before.cells@[j].value != before.cells@[k].value);
    };
}

/// The two graphs have the same frame: cell positions, mutability flags
/// and neighbor lists agree; only the stored values may differ.
pub open spec fn same_topology(a: Graph, b: Graph) -> bool {
    &&& a.cells@.len() == b.cells@.len()
    &&& forall|k: int|
        0 <= k < a.cells@.len() ==> {
            let ca = #[trigger] a.cells@[k];
            let cb = #[trigger] b.cells@[k];
            ca.x == cb.x && ca.y == cb.y && ca.neighbors@ == cb.neighbors@
        }
}

/// No two neighboring positions both below `m` hold equal values.
spec fn valid_below(g: Graph, m: int) -> bool {
    forall|j: int, k: int|
        #![trigger g.cells@[j].value, g.cells@[k].value]
        0 <= j < m && 0 <= k < m && is_neighbor(point_at(j), point_at(k)) ==> g.cells@[j].value
            != g.cells@[k].value
}

/// A digit value that may be placed in cell `c` given the snapshot of all
/// 81 stored values: it is a digit, and no neighbor of `c` holds it in
/// the snapshot.
spec fn candidate_ok(c: Cell, snap: Seq<u8>, v: Value) -> bool {
    &&& spec_from_val(v) != 0
    &&& forall|j: int|
        0 <= j < c.neighbors@.len() ==> !point_in_grid(#[trigger] c.neighbors@[j]) || snap[pos_of(
            c.neighbors@[j],
        )] != spec_from_val(v)
}

/// Whether a no-good list already holds a value.
fn contains_value(v: &Vec<Value>, x: Value) -> (r: bool)
    ensures
        r == v@.contains(x),
{
    let mut j: usize = 0;
    while j < v.len()
        invariant
            j <= v@.len(),
            forall|t: int| 0 <= t < j ==> v@[t] != x,
        decreases v@.len() - j,
    {
        if v[j] == x {
            return true;
        }
        j += 1;
    }
    false
}

impl Graph {
    /// All digit values open for the cell at linear position `i`: the full
    /// domain minus every value that a neighbor holds in the snapshot.
    fn possible_values_at(&self, i: usize, snap: &Vec<u8>) -> (r: Vec<Value>)
        requires
            graph_wf(*self),
            i < 81,
            snap@.len() == 81,
        ensures
            forall|v: Value| r@.contains(v) <==> candidate_ok(self.cells@[i as int], snap@, v),
    {
        let c = &self.cells[i];
        let mut r: Vec<Value> = Vec::new();
        let mut d: u8 = 1;
        while d <= 9
            invariant
                graph_wf(*self),
                i < 81,
                snap@.len() == 81,
                c == &self.cells@[i as int],
                1 <= d <= 10,
                forall|v: Value|
                    r@.contains(v) <==> (candidate_ok(self.cells@[i as int], snap@, v)
                        && spec_from_val(v) < d),
            decreases 10 - d,
        {
            let mut open: bool = true;
            let mut j: usize = 0;
            while j < c.neighbors.len()
                invariant
                    graph_wf(*self),
                    i < 81,
                    snap@.len() == 81,
                    c == &self.cells@[i as int],
                    1 <= d <= 9,
                    j <= c.neighbors@.len(),
                    open <==> forall|t: int|
                        0 <= t < j ==> snap@[pos_of(#[trigger] c.neighbors@[t])] != d,
                decreases c.neighbors@.len() - j,
            {
                let q = c.neighbors[j];
                proof {
                    assert(cell_in_slot(self.cells@[i as int], i as int));
                    assert(is_neighbor(cell_point(self.cells@[i as int]), q));
                    lemma_point_at_pos_of(q);
                }
                let idx: usize = (q.y as usize - 1) * 9 + (q.x as usize - 1);
                if snap[idx] == d {
                    open = false;
                }
                j += 1;
            }
            if open {
                let ghost pre = r@;
                r.push(to_val(d));
                proof {
                    assert forall|v: Value| r@.contains(v) implies (candidate_ok(
                        self.cells@[i as int],
                        snap@,
                        v,
                    ) && spec_from_val(v) < d + 1) by {
                        if pre.contains(v) {
                        } else {
                            assert(v == spec_to_val(d));
                            assert forall|t: int|
                                0 <= t < self.cells@[i as int].neighbors@.len() implies
                                !point_in_grid(
                                #[trigger] self.cells@[i as int].neighbors@[t],
                            ) || snap@[pos_of(self.cells@[i as int].neighbors@[t])]
                                != spec_from_val(v) by {
                                assert(is_neighbor(
                                    cell_point(self.cells@[i as int]),
                                    self.cells@[i as int].neighbors@[t],
                                ));
                            };
                        }
                    };
                    assert forall|v: Value| (candidate_ok(self.cells@[i as int], snap@, v)
                        && spec_from_val(v) < d + 1) implies r@.contains(v) by {
                        if spec_from_val(v) < d {
                            assert(pre.contains(v));
                            assert(r@[choose|t: int| 0 <= t < pre.len() && pre[t] == v] == v);
                        } else {
                            assert(spec_from_val(v) == d);
                            assert(v == spec_to_val(d));
                            assert(r@[r@.len() - 1] == v);
                        }
                    };
                }
            } else {
                proof {
                    let t = choose|t: int|
                        0 <= t < c.neighbors@.len() && snap@[pos_of(c.neighbors@[t])] == d;
                    assert forall|v: Value| r@.contains(v) implies (candidate_ok(
                        self.cells@[i as int],
                        snap@,
                        v,
                    ) && spec_from_val(v) < d + 1) by {};
                    assert forall|v: Value| (candidate_ok(self.cells@[i as int], snap@, v)
                        && spec_from_val(v) < d + 1) implies r@.contains(v) by {
                        if spec_from_val(v) == d {
                            assert(is_neighbor(
                                cell_point(self.cells@[i as int]),
                                c.neighbors@[t],
                            ));
                            assert(point_in_grid(c.neighbors@[t]));
                            assert(false);
                        }
                    };
                }
            }
            d += 1;
        }
        r
    }
}

/// A cell that differs from `o` only by holding no value.
spec fn cleared_like(c: Cell, o: Cell) -> bool {
    &&& c.x == o.x
    &&& c.y == o.y
    &&& c.mutable == o.mutable
    &&& c.neighbors == o.neighbors
    &&& c.value == 0
}

impl Graph {
    /// Fills the grid in place by randomized chronological backtracking
    /// with per-position no-good memoization, and says whether it
    /// finished: `true` exactly when every cell holds a digit, which by
    /// construction makes a complete valid solution.  When the depth cap
    /// on backtrack steps is exhausted the grid is left partially filled
    /// (still free of conflicts) and `false` comes back.  Positions,
    /// neighbor lists and mutability flags never change.
    pub fn generate(&mut self, rng: &mut RandomSource) -> (complete: bool)
        requires
            graph_wf(*old(self)),
        ensures
            graph_wf(*final(self)),
            same_topology(*old(self), *final(self)),
            forall|k: int|
                0 <= k < 81 ==> (#[trigger] final(self).cells@[k]).mutable == old(
                    self,
                ).cells@[k].mutable,
            spec_values_valid(*final(self)),
            complete <==> spec_complete(*final(self)),
    {
        let max_depth: u32 = 1000000;
        let mut depth: u32 = 0;
        let mut i: usize = 0;
        let mut invalid_moves: Vec<Vec<Value>> = Vec::new();
        while invalid_moves.len() < 81
            invariant
                invalid_moves@.len() <= 81,
            decreases 81 - invalid_moves@.len(),
        {
            invalid_moves.push(Vec::new());
        }
        let ghost mut m: int = 0;
        let ghost mut started: bool = false;
        while i < 81 && depth < max_depth
            invariant
                graph_wf(*self),
                same_topology(*old(self), *self),
                forall|k: int|
                    0 <= k < 81 ==> (#[trigger] self.cells@[k]).mutable == old(
                        self,
                    ).cells@[k].mutable,
                invalid_moves@.len() == 81,
                max_depth == 1000000,
                i <= 81,
                i as int <= m <= i + 1,
                m <= 81,
                !started ==> i == 0 && depth == 0,
                started ==> forall|k: int|
                    0 <= k < m ==> 1 <= (#[trigger] self.cells@[k]).value <= 9,
                started ==> forall|k: int| m <= k < 81 ==> (#[trigger] self.cells@[k]).value == 0,
                started ==> valid_below(*self, m),
                depth >= max_depth ==> m <= 80,
            decreases max_depth - depth, 81 - i,
        {
            let ghost gh = *self;
            // the values as they stood before this step; candidates are
            // computed against this snapshot, decoupled from the clearing
            // below
            let mut snap: Vec<u8> = Vec::new();
            let mut t: usize = 0;
            while t < 81
                invariant
                    gh == *self,
                    graph_wf(*self),
                    t <= 81,
                    snap@.len() == t,
                    forall|k: int| 0 <= k < t ==> snap@[k] == gh.cells@[k].value,
                decreases 81 - t,
            {
                snap.push(self.cells[t].value);
                t += 1;
            }
            // undo any forward progress from an abandoned attempt: clear
            // every value at or beyond the cursor, and the no-good lists
            // strictly beyond it
            let mut xi: usize = i;
            while xi < 81
                invariant
                    i <= xi <= 81,
                    i < 81,
                    graph_wf(*self),
                    graph_wf(gh),
                    invalid_moves@.len() == 81,
                    forall|k: int| 0 <= k < i ==> #[trigger] self.cells@[k] == gh.cells@[k],
                    forall|k: int| xi <= k < 81 ==> #[trigger] self.cells@[k] == gh.cells@[k],
                    forall|k: int|
                        i <= k < xi ==> cleared_like(#[trigger] self.cells@[k], gh.cells@[k]),
                decreases 81 - xi,
            {
                let ghost pc = self.cells@[xi as int];
                proof {
                    assert(cell_in_slot(pc, xi as int));
                }
                self.cells[xi].value = 0;
                proof {
                    lemma_cell_wf_value_change(pc, self.cells@[xi as int], xi as int);
                    assert(graph_wf(*self));
                }
                if xi + 1 < 81 {
                    invalid_moves[xi + 1].clear();
                }
                xi += 1;
            }
            // the open values for the cursor cell, minus its recorded
            // no-goods, shuffled; the first of them is the trial value
            let set = self.possible_values_at(i, &snap);
            let mut v: Vec<Value> = Vec::new();
            let mut f: usize = 0;
            while f < set.len()
                invariant
                    f <= set@.len(),
                    i < 81,
                    invalid_moves@.len() == 81,
                    forall|j: int| 0 <= j < v@.len() ==> set@.contains(#[trigger] v@[j]),
                decreases set@.len() - f,
            {
                let n = set[f];
                if !contains_value(&invalid_moves[i], n) {
                    proof {
                        assert(set@.contains(set@[f as int]));
                    }
                    v.push(n);
                }
                f += 1;
            }
            let ghost pre_shuffle = v@;
            rng.shuffle_values(&mut v);
            proof {
                broadcast use vstd::seq_lib::group_to_multiset_ensures;

                if v@.len() > 0 {
                    assert(v@.contains(v@[0]));
                    assert(pre_shuffle.to_multiset().count(v@[0]) > 0);
                    assert(pre_shuffle.contains(v@[0]));
                    assert(candidate_ok(self.cells@[i as int], snap@, v@[0]));
                }
            }
            if v.len() > 0 {
                let num = v[0];
                let digit = from_val(num);
                let ghost before = *self;
                proof {
                    assert(cell_in_slot(self.cells@[i as int], i as int));
                }
                self.cells[i].value = digit;
                // the defensive validity re-check of the trial value
                // against the snapshot cannot fail: the candidate set
                // already excludes every value a neighbor holds there
                proof {
                    let pc = before.cells@[i as int];
                    let c = self.cells@[i as int];
                    assert(cell_in_slot(pc, i as int));
                    lemma_cell_wf_value_change(pc, c, i as int);
                    assert(graph_wf(*self));
                    assert(cell_point(c) == point_at(i as int));
                    assert forall|j: int, k: int|
                        #![trigger self.cells@[j].value, self.cells@[k].value]
                        0 <= j < i + 1 && 0 <= k < i + 1 && is_neighbor(
                            point_at(j),
                            point_at(k),
                        ) implies self.cells@[j].value != self.cells@[k].value by {
                        if j < i && k < i {
                            assert(self.cells@[j] == gh.cells@[j]);
                            assert(self.cells@[k] == gh.cells@[k]);
                            if started {
                                assert(gh.cells@[j].value != gh.cells@[k].value);
                            }
                        } else if j == i && k < i {
                            lemma_pos_of_point_at(k);
                            assert(c.neighbors@.contains(point_at(k)));
                            let t2 = choose|t2: int|
                                0 <= t2 < c.neighbors@.len() && c.neighbors@[t2] == point_at(k);
                            assert(snap@[k] != digit);
                            assert(self.cells@[k] == gh.cells@[k]);
                        } else if k == i && j < i {
                            lemma_pos_of_point_at(j);
                            assert(is_neighbor(point_at(i as int), point_at(j)));
                            assert(c.neighbors@.contains(point_at(j)));
                            let t2 = choose|t2: int|
                                0 <= t2 < c.neighbors@.len() && c.neighbors@[t2] == point_at(j);
                            assert(snap@[j] != digit);
                            assert(self.cells@[j] == gh.cells@[j]);
                        }
                    };
                    m = i + 1;
                    started = true;
                }
                i += 1;
            } else {
                if i == 0 {
                    // no value fits the first position and there is
                    // nothing to backtrack into: give up on an empty grid
                    proof {
                        assert forall|j: int, k: int|
                            #![trigger self.cells@[j].value, self.cells@[k].value]
                            0 <= j < 81 && 0 <= k < 81 && is_neighbor(
                                point_at(j),
                                point_at(k),
                            ) implies (self.cells@[j].value == 0 || self.cells@[j].value
                            != self.cells@[k].value) by {};
                        assert(self.cells@[0].value == 0);
                        assert(!spec_complete(*self));
                    }
                    return false;
                }
                // record the value that led here as a no-good for the
                // previous position, then step back
                let last_value = self.cells[i - 1].value;
                let nogood = to_val(last_value);
                match nogood {
                    Value::Unknown => {},
                    other => {
                        invalid_moves[i - 1].push(other);
                    },
                }
                i -= 1;
                depth += 1;
                proof {
                    m = i + 1;
                    started = true;
                }
            }
        }
        proof {
            if !started {
                assert(false);
            }
            assert forall|j: int, k: int|
                #![trigger self.cells@[j].value, self.cells@[k].value]
                0 <= j < 81 && 0 <= k < 81 && is_neighbor(point_at(j), point_at(k)) implies (
            self.cells@[j].value == 0 || self.cells@[j].value != self.cells@[k].value) by {
                if j < m && k < m {
                    assert(self.cells@[j].value != self.cells@[k].value);
                }
            };
            if i == 81 {
                assert(m == 81);
                assert(spec_complete(*self));
            } else {
                assert(depth >= max_depth);
                assert(m <= 80);
                assert(self.cells@[m].value == 0);
                assert(!spec_complete(*self));
            }
        }
        i == 81
    }
}

/// A well-formed cell stays well formed when only its value or its
/// mutability flag changes (the value staying a digit or 0).
proof fn lemma_cell_wf_value_change(pc: Cell, c: Cell, k: int)
    requires
        cell_in_slot(pc, k),
        c.x == pc.x,
        c.y == pc.y,
        c.neighbors@ == pc.neighbors@,
        c.value <= 9,
    ensures
        cell_in_slot(c, k),
        cell_point(c) == cell_point(pc),
{
    assert(cell_point(c) == cell_point(pc));
    assert forall|j: int| 0 <= j < c.neighbors@.len() implies is_neighbor(
        cell_point(c),
        #[trigger] c.neighbors@[j],
    ) by {
        assert(is_neighbor(cell_point(pc), pc.neighbors@[j]));
    };
    assert forall|q: Point| #[trigger] is_neighbor(cell_point(c), q) implies c.neighbors@.contains(
        q,
    ) by {
        assert(is_neighbor(cell_point(pc), q));
        assert(pc.neighbors@.contains(q));
    };
}

/// The stored values of all 81 cells, in linear order.
pub open spec fn graph_values(g: Graph) -> Seq<u8> {
    g.cells@.map_values(|c: Cell| c.value)
}

/// How many entries of a value sequence are nonzero.
pub open spec fn count_nonzero(s: Seq<u8>) -> int
    decreases s.len(),
{
    if s.len() == 0 {
        0
    } else {
        count_nonzero(s.drop_last()) + if s.last() != 0 {
            1int
        } else {
            0int
        }
    }
}

/// The nonzero count lies between 0 and the length.
proof fn lemma_count_nonzero_bounds(s: Seq<u8>)
    ensures
        0 <= count_nonzero(s) <= s.len(),
    decreases s.len(),
{
    if s.len() > 0 {
        lemma_count_nonzero_bounds(s.drop_last());
    }
}

/// Zeroing a nonzero entry lowers the nonzero count by one.
proof fn lemma_count_nonzero_update_zero(s: Seq<u8>, k: int)
    requires
        0 <= k < s.len(),
        s[k] != 0,
    ensures
        count_nonzero(s.update(k, 0)) == count_nonzero(s) - 1,
    decreases s.len(),
{
    let t = s.update(k, 0);
    if k == s.len() - 1 {
        assert(t.drop_last() =~= s.drop_last());
    } else {
        assert(t.drop_last() =~= s.drop_last().update(k, 0));
        lemma_count_nonzero_update_zero(s.drop_last(), k);
    }
}

/// A sequence of nonzero entries counts its full length.
proof fn lemma_count_nonzero_full(s: Seq<u8>)
    requires
        forall|j: int| 0 <= j < s.len() ==> s[j] != 0,
    ensures
        count_nonzero(s) == s.len(),
    decreases s.len(),
{
    if s.len() > 0 {
        lemma_count_nonzero_full(s.drop_last());
    }
}

/// A zero nonzero count means every entry is zero.
proof fn lemma_count_nonzero_none(s: Seq<u8>)
    requires
        count_nonzero(s) == 0,
    ensures
        forall|j: int| 0 <= j < s.len() ==> s[j] == 0,
    decreases s.len(),
{
    if s.len() > 0 {
        lemma_count_nonzero_bounds(s.drop_last());
        lemma_count_nonzero_none(s.drop_last());
        assert forall|j: int| 0 <= j < s.len() implies s[j] == 0 by {
            if j < s.len() - 1 {
                assert(s.drop_last()[j] == 0);
            }
        };
    }
}

/// Extending a prefix by one entry adds that entry's contribution to the
/// nonzero count.
proof fn lemma_count_nonzero_take_step(s: Seq<u8>, k: int)
    requires
        0 <= k < s.len(),
    ensures
        count_nonzero(s.take(k + 1)) == count_nonzero(s.take(k)) + if s[k] != 0 {
            1int
        } else {
            0int
        },
{
    assert(s.take(k + 1).drop_last() =~= s.take(k));
    assert(s.take(k + 1).last() == s[k]);
}

/// A graph whose 81 values are all nonzero is complete; with the count at
/// 81 that is forced.
pub proof fn lemma_full_count_complete(g: Graph)
    requires
        graph_wf(g),
        count_nonzero(graph_values(g)) == 81,
    ensures
        spec_complete(g),
    decreases 81int,
{
    lemma_take_count_all(graph_values(g), 81);
    assert forall|k: int| 0 <= k < 81 implies 1 <= #[trigger] g.cells@[k].value <= 9 by {
        assert(cell_in_slot(g.cells@[k], k));
        assert(graph_values(g)[k] == g.cells@[k].value);
        if g.cells@[k].value == 0 {
            lemma_count_nonzero_drop_zero(graph_values(g), k);
        }
    };
}

/// Removing consideration of a zero entry: if some entry is zero the
/// count stays below the length.
proof fn lemma_count_nonzero_drop_zero(s: Seq<u8>, k: int)
    requires
        0 <= k < s.len(),
        s[k] == 0,
    ensures
        count_nonzero(s) < s.len(),
    decreases s.len(),
{
    if k == s.len() - 1 {
        lemma_count_nonzero_bounds(s.drop_last());
    } else {
        lemma_count_nonzero_drop_zero(s.drop_last(), k);
    }
}

proof fn lemma_take_count_all(s: Seq<u8>, n: int)
    requires
        s.len() == n,
    ensures
        count_nonzero(s.take(n)) == count_nonzero(s),
{
    assert(s.take(n) =~= s);
}

/// A zero count means an entirely empty grid.
pub proof fn lemma_zero_count_empty(g: Graph)
    requires
        graph_wf(g),
        count_nonzero(graph_values(g)) == 0,
    ensures
        forall|k: int| 0 <= k < 81 ==> #[trigger] g.cells@[k].value == 0,
{
    lemma_count_nonzero_none(graph_values(g));
    assert forall|k: int| 0 <= k < 81 implies #[trigger] g.cells@[k].value == 0 by {
        assert(graph_values(g)[k] == g.cells@[k].value);
    };
}

/// A complete, conflict-free assignment of the 81 positions.
pub open spec fn solution_values(sol: Seq<u8>) -> bool {
    &&& sol.len() == 81
    &&& forall|k: int| 0 <= k < 81 ==> 1 <= #[trigger] sol[k] <= 9
    &&& forall|j: int, k: int|
        #![trigger sol[j], sol[k]]
        0 <= j < 81 && 0 <= k < 81 && is_neighbor(point_at(j), point_at(k)) ==> sol[j] != sol[k]
}

impl Graph {
    /// The linear position of the `r`-th (0-based) nonzero cell.
    fn find_nth_nonzero(&self, r: usize) -> (k: usize)
        requires
            graph_wf(*self),
            r < count_nonzero(graph_values(*self)),
        ensures
            k < 81,
            self.cells@[k as int].value != 0,
            count_nonzero(graph_values(*self).take(k as int)) == r,
    {
        let ghost vals = graph_values(*self);
        let mut k: usize = 0;
        let mut seen: usize = 0;
        while k < 81
            invariant
                graph_wf(*self),
                vals == graph_values(*self),
                k <= 81,
                seen == count_nonzero(vals.take(k as int)),
                seen <= r,
                r < count_nonzero(vals),
            decreases 81 - k,
        {
            proof {
                lemma_count_nonzero_take_step(vals, k as int);
                assert(vals[k as int] == self.cells@[k as int].value);
            }
            if self.cells[k].value != 0 {
                if seen == r {
                    return k;
                }
                seen += 1;
            }
            k += 1;
        }
        proof {
            lemma_take_count_all(vals, 81);
            assert(false);
        }
        0
    }

    /// Builds a playable puzzle: a fresh graph is solved by the
    /// generator, every cell is frozen as a clue, and then cells are
    /// cleared at random — and released to the player — until exactly
    /// `remaining_clues` of them still hold a digit.  The kept values are
    /// part of the complete solution the generator found, so the puzzle
    /// has no conflicts and at least one solution.  `None` comes back
    /// only when the generator exhausted its depth cap.
    pub fn make_puzzle(remaining_clues: u8, rng: &mut RandomSource) -> (r: Option<Graph>)
        requires
            remaining_clues <= 81,
        ensures
            match r {
                Some(g) => {
                    &&& graph_wf(g)
                    &&& spec_values_valid(g)
                    &&& count_nonzero(graph_values(g)) == remaining_clues
                    &&& forall|k: int|
                        0 <= k < 81 ==> ((#[trigger] g.cells@[k]).value != 0 <==> !g.cells@[k].mutable)
                    &&& exists|sol: Seq<u8>|
                        solution_values(sol) && (forall|k: int|
                            0 <= k < 81 ==> (#[trigger] g.cells@[k]).value == sol[k]
                                || g.cells@[k].value == 0)
                },
                None => true,
            },
    {
        let mut graph = Graph::new();
        let complete = graph.generate(rng);
        if !complete {
            return None;
        }
        // freeze the solved grid: every cell becomes a clue until cleared
        let ghost g1 = graph;
        let mut t: usize = 0;
        while t < 81
            invariant
                graph_wf(graph),
                graph_wf(g1),
                t <= 81,
                forall|k: int|
                    0 <= k < 81 ==> {
                        let c = #[trigger] graph.cells@[k];
                        let c1 = g1.cells@[k];
                        c.x == c1.x && c.y == c1.y && c.value == c1.value && c.neighbors
                            == c1.neighbors
                    },
                forall|k: int| 0 <= k < t ==> (#[trigger] graph.cells@[k]).mutable == false,
            decreases 81 - t,
        {
            let ghost pc = graph.cells@[t as int];
            proof {
                assert(cell_in_slot(pc, t as int));
            }
            graph.cells[t].mutable = false;
            proof {
                lemma_cell_wf_value_change(pc, graph.cells@[t as int], t as int);
            }
            t += 1;
        }
        let ghost sol = graph_values(graph);
        proof {
            assert(spec_complete(g1));
            assert(spec_values_valid(g1));
            assert forall|k: int| 0 <= k < 81 implies 1 <= #[trigger] sol[k] <= 9 by {
                assert(sol[k] == graph.cells@[k].value);
                assert(graph.cells@[k].value == g1.cells@[k].value);
            };
            assert forall|j: int, k: int|
                #![trigger sol[j], sol[k]]
                0 <= j < 81 && 0 <= k < 81 && is_neighbor(point_at(j), point_at(k)) implies sol[j]
                != sol[k] by {
                assert(sol[j] == g1.cells@[j].value && sol[k] == g1.cells@[k].value);
            };
            assert(solution_values(sol));
            lemma_count_nonzero_full(sol);
        }
        let mut i: u8 = 81;
        while i > remaining_clues
            invariant
                graph_wf(graph),
                remaining_clues <= i <= 81,
                count_nonzero(graph_values(graph)) == i as int,
                solution_values(sol),
                forall|k: int|
                    0 <= k < 81 ==> ((#[trigger] graph.cells@[k]).value == sol[k]
                        || graph.cells@[k].value == 0),
                forall|k: int|
                    0 <= k < 81 ==> ((#[trigger] graph.cells@[k]).value != 0
                        <==> !graph.cells@[k].mutable),
            decreases i - remaining_clues,
        {
            let idx = rng.gen_index(i as usize);
            let k = graph.find_nth_nonzero(idx);
            let ghost before = graph;
            let ghost pc = graph.cells@[k as int];
            proof {
                assert(cell_in_slot(pc, k as int));
            }
            graph.cells[k].value = 0;
            graph.cells[k].mutable = true;
            proof {
                lemma_cell_wf_value_change(pc, graph.cells@[k as int], k as int);
                assert(graph_values(graph) =~= graph_values(before).update(k as int, 0));
                lemma_count_nonzero_update_zero(graph_values(before), k as int);
            }
            i -= 1;
        }
        proof {
            assert forall|j: int, k: int|
                #![trigger graph.cells@[j].value, graph.cells@[k].value]
                0 <= j < 81 && 0 <= k < 81 && is_neighbor(point_at(j), point_at(k)) implies (
            graph.cells@[j].value == 0 || graph.cells@[j].value != graph.cells@[k].value) by {
                if graph.cells@[j].value != 0 && graph.cells@[k].value != 0 {
                    assert(graph.cells@[j].value == sol[j]);
                    assert(graph.cells@[k].value == sol[k]);
                }
            };
            assert(spec_values_valid(graph));
        }
        Some(graph)
    }
}

/// The nine values stored in row `r` (the cells with `y == r`), left to
/// right.
pub open spec fn row_values(g: Graph, r: int) -> Seq<u8> {
    Seq::new(9, |i: int| g.cells@[(r - 1) * 9 + i].value)
}

/// The nine values stored in column `c` (the cells with `x == c`), top
/// to bottom.
pub open spec fn col_values(g: Graph, c: int) -> Seq<u8> {
    Seq::new(9, |i: int| g.cells@[i * 9 + (c - 1)].value)
}

/// The nine values stored in the 3x3 box with column band `bx` and row
/// band `by` (each 0, 1 or 2), in row-major order.
pub open spec fn box_values(g: Graph, bx: int, by: int) -> Seq<u8> {
    Seq::new(9, |i: int| g.cells@[(by * 3 + i / 3) * 9 + bx * 3 + i % 3].value)
}

/// Some cell at one of the nine given positions holds the digit `d`.
spec fn unit_contains(g: Graph, ps: Seq<int>, d: u8) -> bool {
    exists|a: int| 0 <= a < 9 && g.cells@[#[trigger] ps[a]].value == d
}

/// Nine pairwise-neighboring positions of a complete conflict-free grid
/// hold nine pairwise-distinct digits, so every digit appears among
/// them.
proof fn lemma_unit_complete(g: Graph, ps: Seq<int>)
    requires
        graph_wf(g),
        spec_complete(g),
        spec_values_valid(g),
        ps.len() == 9,
        forall|a: int| 0 <= a < 9 ==> 0 <= #[trigger] ps[a] < 81,
        forall|a: int, b: int|
            #![trigger ps[a], ps[b]]
            0 <= a < 9 && 0 <= b < 9 && a != b ==> is_neighbor(point_at(ps[a]), point_at(ps[b])),
    ensures
        forall|a: int, b: int|
            #![trigger ps[a], ps[b]]
            0 <= a < 9 && 0 <= b < 9 && a != b ==> g.cells@[ps[a]].value != g.cells@[ps[b]].value,
        forall|d: u8| 1 <= d <= 9 ==> #[trigger] unit_contains(g, ps, d),
{
    assert forall|a: int, b: int|
        #![trigger ps[a], ps[b]]
        0 <= a < 9 && 0 <= b < 9 && a != b implies g.cells@[ps[a]].value != g.cells@[ps[b]].value by {
        assert(1 <= g.cells@[ps[a]].value <= 9);
        assert(g.cells@[ps[a]].value == 0 || g.cells@[ps[a]].value != g.cells@[ps[b]].value);
    };
    let vs = Seq::new(9, |a: int| g.cells@[ps[a]].value as int);
    assert(vs.no_duplicates());
    vs.unique_seq_to_set();
    let range = vstd::set_lib::set_int_range(1, 10);
    vstd::set_lib::lemma_int_range(1, 10);
    assert(vs.to_set().subset_of(range)) by {
        assert forall|x: int| vs.to_set().contains(x) implies range.contains(x) by {
            let a = choose|a: int| 0 <= a < vs.len() && vs[a] == x;
            assert(1 <= g.cells@[ps[a]].value <= 9);
        };
    };
    broadcast use vstd::seq_lib::seq_to_set_is_finite;

    vstd::set_lib::lemma_subset_equality(vs.to_set(), range);
    assert forall|d: u8| 1 <= d <= 9 implies #[trigger] unit_contains(g, ps, d) by {
        assert(range.contains(d as int));
        assert(vs.to_set().contains(d as int));
        assert(vs.contains(d as int));
        let a = choose|a: int| 0 <= a < vs.len() && vs[a] == d as int;
        assert(g.cells@[ps[a]].value == d);
    };
}

/// Rows of a complete conflict-free grid hold each digit exactly once.
proof fn lemma_complete_grid_rows(g: Graph)
    requires
        graph_wf(g),
        spec_complete(g),
        spec_values_valid(g),
    ensures
        forall|r: int| 1 <= r <= 9 ==> (#[trigger] row_values(g, r)).no_duplicates(),
        forall|r: int, d: u8| 1 <= r <= 9 && 1 <= d <= 9 ==> #[trigger] row_values(g, r).contains(d),
{
    assert forall|r: int| 1 <= r <= 9 implies (#[trigger] row_values(g, r)).no_duplicates()
        && forall|d: u8| 1 <= d <= 9 ==> #[trigger] row_values(g, r).contains(d) by {
        let ps = Seq::new(9, |i: int| (r - 1) * 9 + i);
        assert forall|a: int, b: int|
            #![trigger ps[a], ps[b]]
            0 <= a < 9 && 0 <= b < 9 && a != b implies is_neighbor(
            point_at(ps[a]),
            point_at(ps[b]),
        ) by {
            vstd::arithmetic::div_mod::lemma_fundamental_div_mod_converse(ps[a], 9, r - 1, a);
            vstd::arithmetic::div_mod::lemma_fundamental_div_mod_converse(ps[b], 9, r - 1, b);
        };
        lemma_unit_complete(g, ps);
        assert forall|d: u8| 1 <= d <= 9 implies #[trigger] row_values(g, r).contains(d) by {
            assert(unit_contains(g, ps, d));
            let a = choose|a: int| 0 <= a < 9 && g.cells@[#[trigger] ps[a]].value == d;
            assert(row_values(g, r)[a] == d);
        };
    };
}

/// Columns of a complete conflict-free grid hold each digit exactly once.
proof fn lemma_complete_grid_cols(g: Graph)
    requires
        graph_wf(g),
        spec_complete(g),
        spec_values_valid(g),
    ensures
        forall|c: int| 1 <= c <= 9 ==> (#[trigger] col_values(g, c)).no_duplicates(),
        forall|c: int, d: u8| 1 <= c <= 9 && 1 <= d <= 9 ==> #[trigger] col_values(g, c).contains(d),
{
    assert forall|c: int| 1 <= c <= 9 implies (#[trigger] col_values(g, c)).no_duplicates()
        && forall|d: u8| 1 <= d <= 9 ==> #[trigger] col_values(g, c).contains(d) by {
        let ps = Seq::new(9, |i: int| i * 9 + (c - 1));
        assert forall|a: int, b: int|
            #![trigger ps[a], ps[b]]
            0 <= a < 9 && 0 <= b < 9 && a != b implies is_neighbor(
            point_at(ps[a]),
            point_at(ps[b]),
        ) by {
            vstd::arithmetic::div_mod::lemma_fundamental_div_mod_converse(ps[a], 9, a, c - 1);
            vstd::arithmetic::div_mod::lemma_fundamental_div_mod_converse(ps[b], 9, b, c - 1);
        };
        lemma_unit_complete(g, ps);
        assert forall|d: u8| 1 <= d <= 9 implies #[trigger] col_values(g, c).contains(d) by {
            assert(unit_contains(g, ps, d));
            let a = choose|a: int| 0 <= a < 9 && g.cells@[#[trigger] ps[a]].value == d;
            assert(col_values(g, c)[a] == d);
        };
    };
}

/// One box of a complete conflict-free grid holds each digit exactly
/// once.
#[verifier::rlimit(100)]
#[verifier::spinoff_prover]
proof fn lemma_complete_one_box(g: Graph, bx: int, by: int)
    requires
        graph_wf(g),
        spec_complete(g),
        spec_values_valid(g),
        0 <= bx < 3,
        0 <= by < 3,
    ensures
        box_values(g, bx, by).no_duplicates(),
        forall|d: u8| 1 <= d <= 9 ==> #[trigger] box_values(g, bx, by).contains(d),
{
    let ps = Seq::new(9, |i: int| (by * 3 + i / 3) * 9 + bx * 3 + i % 3);
    assert forall|a: int| 0 <= a < 9 implies 0 <= #[trigger] ps[a] < 81 by {
        vstd::arithmetic::div_mod::lemma_fundamental_div_mod(a, 3);
    };
    assert forall|a: int, b: int|
        #![trigger ps[a], ps[b]]
        0 <= a < 9 && 0 <= b < 9 && a != b implies is_neighbor(
        point_at(ps[a]),
        point_at(ps[b]),
    ) by {
        lemma_box_pair(bx, by, a, b);
    };
    lemma_unit_complete(g, ps);
    assert forall|d: u8| 1 <= d <= 9 implies #[trigger] box_values(g, bx, by).contains(d) by {
        assert(unit_contains(g, ps, d));
        let a = choose|a: int| 0 <= a < 9 && g.cells@[#[trigger] ps[a]].value == d;
        assert(box_values(g, bx, by)[a] == d);
    };
}

/// Boxes of a complete conflict-free grid hold each digit exactly once.
proof fn lemma_complete_grid_boxes(g: Graph)
    requires
        graph_wf(g),
        spec_complete(g),
        spec_values_valid(g),
    ensures
        forall|bx: int, by: int|
            0 <= bx < 3 && 0 <= by < 3 ==> (#[trigger] box_values(g, bx, by)).no_duplicates(),
        forall|bx: int, by: int, d: u8|
            0 <= bx < 3 && 0 <= by < 3 && 1 <= d <= 9 ==> #[trigger] box_values(
                g,
                bx,
                by,
            ).contains(d),
{
    assert forall|bx: int, by: int| 0 <= bx < 3 && 0 <= by < 3 implies (#[trigger] box_values(
        g,
        bx,
        by,
    )).no_duplicates() && forall|d: u8|
        1 <= d <= 9 ==> #[trigger] box_values(g, bx, by).contains(d) by {
        lemma_complete_one_box(g, bx, by);
    };
}

/// After a successful generation — the grid complete and conflict-free —
/// every row, every column and every 3x3 box holds each digit 1..=9
/// exactly once: each of the nine values appears, and none repeats.
pub proof fn lemma_complete_grid_units(g: Graph)
    requires
        graph_wf(g),
        spec_complete(g),
        spec_values_valid(g),
    ensures
        forall|r: int| 1 <= r <= 9 ==> (#[trigger] row_values(g, r)).no_duplicates(),
        forall|r: int, d: u8| 1 <= r <= 9 && 1 <= d <= 9 ==> #[trigger] row_values(g, r).contains(d),
        forall|c: int| 1 <= c <= 9 ==> (#[trigger] col_values(g, c)).no_duplicates(),
        forall|c: int, d: u8| 1 <= c <= 9 && 1 <= d <= 9 ==> #[trigger] col_values(g, c).contains(d),
        forall|bx: int, by: int|
            0 <= bx < 3 && 0 <= by < 3 ==> (#[trigger] box_values(g, bx, by)).no_duplicates(),
        forall|bx: int, by: int, d: u8|
            0 <= bx < 3 && 0 <= by < 3 && 1 <= d <= 9 ==> #[trigger] box_values(
                g,
                bx,
                by,
            ).contains(d),
{
    lemma_complete_grid_rows(g);
    lemma_complete_grid_cols(g);
    lemma_complete_grid_boxes(g);
}

/// Two distinct cells of the same box are neighbors.
proof fn lemma_box_pair(bx: int, by: int, a: int, b: int)
    requires
        0 <= bx < 3,
        0 <= by < 3,
        0 <= a < 9,
        0 <= b < 9,
        a != b,
    ensures
        is_neighbor(
            point_at((by * 3 + a / 3) * 9 + bx * 3 + a % 3),
            point_at((by * 3 + b / 3) * 9 + bx * 3 + b % 3),
        ),
{
    lemma_box_point(bx, by, a);
    lemma_box_point(bx, by, b);
    vstd::arithmetic::div_mod::lemma_fundamental_div_mod(a, 3);
    vstd::arithmetic::div_mod::lemma_fundamental_div_mod(b, 3);
}

/// The grid point of the `i`-th cell of a box, and its bands.
proof fn lemma_box_point(bx: int, by: int, i: int)
    requires
        0 <= bx < 3,
        0 <= by < 3,
        0 <= i < 9,
    ensures
        ({
            let p = point_at((by * 3 + i / 3) * 9 + bx * 3 + i % 3);
            &&& p.x == bx * 3 + i % 3 + 1
            &&& p.y == by * 3 + i / 3 + 1
            &&& point_in_grid(p)
            &&& band(p.x as u8) == bx
            &&& band(p.y as u8) == by
        }),
{
    vstd::arithmetic::div_mod::lemma_fundamental_div_mod(i, 3);
    let k = (by * 3 + i / 3) * 9 + bx * 3 + i % 3;
    vstd::arithmetic::div_mod::lemma_fundamental_div_mod_converse(
        k,
        9,
        by * 3 + i / 3,
        bx * 3 + i % 3,
    );
    let p = point_at(k);
    vstd::arithmetic::div_mod::lemma_fundamental_div_mod_converse(p.x - 1, 3, bx, i % 3);
    vstd::arithmetic::div_mod::lemma_fundamental_div_mod_converse(p.y - 1, 3, by, i / 3);
}

impl Clone for Graph {
    /// A deep copy; every cell of the copy agrees with the original field
    /// for field.
    fn clone(&self) -> (r: Self)
        ensures
            r.cells@.len() == self.cells@.len(),
            forall|k: int|
                0 <= k < self.cells@.len() ==> cell_like(#[trigger] r.cells@[k], self.cells@[k]),
    {
        let mut cells: Vec<Cell> = Vec::new();
        let mut k: usize = 0;
        while k < self.cells.len()
            invariant
                k <= self.cells@.len(),
                cells@.len() == k,
                forall|j: int| 0 <= j < k ==> cell_like(#[trigger] cells@[j], self.cells@[j]),
            decreases self.cells@.len() - k,
        {
            cells.push(self.cells[k].clone());
            k += 1;
        }
        Graph { cells }
    }
}

/// Pushing an element that is not yet present keeps a sequence free of
/// duplicates.
proof fn lemma_push_keeps_no_duplicates<A>(s: Seq<A>, e: A)
    requires
        s.no_duplicates(),
        !s.contains(e),
    ensures
        s.push(e).no_duplicates(),
{
    let t = s.push(e);
    assert forall|i: int, j: int| 0 <= i < t.len() && 0 <= j < t.len() && i != j implies t[i]
        != t[j] by {
        if i < s.len() && j < s.len() {
        } else if i == s.len() {
            assert(t[j] == s[j]);
        } else {
            assert(t[i] == s[i]);
        }
    };
}

} // verus!
