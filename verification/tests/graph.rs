use sudoku_core::cell::Point;
use sudoku_core::graph::Graph;

#[test]
fn new_builds_81_cells_with_empty_values() {
    let g = Graph::new();
    assert_eq!(g.cells.len(), 81);
    for (k, c) in g.cells.iter().enumerate() {
        assert_eq!(c.x as usize, k % 9 + 1);
        assert_eq!(c.y as usize, k / 9 + 1);
        assert_eq!(c.value, 0);
        assert!(c.mutable);
    }
}

#[test]
fn every_cell_has_exactly_20_distinct_neighbors() {
    let g = Graph::new();
    for c in &g.cells {
        assert_eq!(c.neighbors.len(), 20);
        for (a, p) in c.neighbors.iter().enumerate() {
            assert!(1 <= p.x && p.x <= 9 && 1 <= p.y && p.y <= 9);
            assert!(!(p.x == c.x && p.y == c.y), "a cell must not neighbor itself");
            for q in &c.neighbors[a + 1..] {
                assert!(!(p.x == q.x && p.y == q.y), "neighbor lists hold no repeats");
            }
        }
    }
}

#[test]
fn neighbor_relation_is_symmetric() {
    let g = Graph::new();
    for c in &g.cells {
        for p in &c.neighbors {
            let other = g.at(p.x, p.y).expect("neighbor positions lie on the grid");
            assert!(
                other.neighbors.iter().any(|q| q.x == c.x && q.y == c.y),
                "cell ({},{}) lists ({},{}) but not the other way around",
                c.x,
                c.y,
                p.x,
                p.y
            );
        }
    }
}

#[test]
fn neighbors_are_row_column_and_box_mates() {
    let g = Graph::new();
    let c = g.at(5, 5).unwrap();
    let band = |v: u8| (v - 1) / 3;
    for p in &c.neighbors {
        let shares_row_or_col = p.x == 5 || p.y == 5;
        let shares_box = band(p.x) == band(5) && band(p.y) == band(5);
        assert!(shares_row_or_col || shares_box);
    }
    // a corner of the same box, a row mate and a column mate are present
    for expect in [Point::new(4, 4), Point::new(9, 5), Point::new(5, 9)] {
        assert!(c.neighbors.iter().any(|q| q.x == expect.x && q.y == expect.y));
    }
    // boundary coordinates 3 and 4 fall in different bands: (3,3) is no
    // neighbor of (5,5) even though overlapping range bounds would say so
    assert!(!c.neighbors.iter().any(|q| q.x == 3 && q.y == 3));
}

#[test]
fn at_answers_inside_the_grid_only() {
    let g = Graph::new();
    let c = g.at(3, 7).unwrap();
    assert_eq!((c.x, c.y), (3, 7));
    assert!(g.at(0, 5).is_none());
    assert!(g.at(5, 0).is_none());
    assert!(g.at(10, 1).is_none());
}

#[test]
fn index_is_one_based_row_major() {
    let mut g = Graph::new();
    let c = g.index(1).unwrap();
    assert_eq!((c.x, c.y), (1, 1));
    let c = g.index(10).unwrap();
    assert_eq!((c.x, c.y), (1, 2));
    let c = g.index(81).unwrap();
    assert_eq!((c.x, c.y), (9, 9));
    assert!(g.index(0).is_none());
    assert!(g.index(82).is_none());
}

#[test]
fn is_valid_spots_a_conflicting_neighbor() {
    let mut g = Graph::new();
    g.index(1).unwrap().value = 4; // (1,1)
    g.index(3).unwrap().value = 4; // (3,1), same row
    let c = g.at(1, 1).unwrap();
    assert!(!c.is_valid(&g));
    let lone = g.at(5, 5).unwrap();
    assert!(lone.is_valid(&g));
}

#[test]
fn empty_cells_are_never_invalid() {
    let mut g = Graph::new();
    g.index(1).unwrap().value = 4;
    let empty = g.at(2, 1).unwrap();
    assert!(empty.is_valid(&g));
}

#[test]
fn invalid_cells_lists_exactly_the_conflicting_cells() {
    let mut g = Graph::new();
    assert!(g.invalid_cells().is_empty());
    g.index(1).unwrap().value = 4; // (1,1)
    g.index(3).unwrap().value = 4; // (3,1), same row
    g.index(41).unwrap().value = 9; // (5,5), no conflict
    let bad = g.invalid_cells();
    assert_eq!(bad.len(), 2);
    assert_eq!((bad[0].x, bad[0].y, bad[0].value), (1, 1, 4));
    assert_eq!((bad[1].x, bad[1].y, bad[1].value), (3, 1, 4));
}

#[test]
fn clone_copies_every_cell() {
    let mut g = Graph::new();
    g.index(17).unwrap().value = 6;
    let copy = g.clone();
    assert_eq!(copy.cells.len(), 81);
    for (a, b) in g.cells.iter().zip(copy.cells.iter()) {
        assert_eq!((a.x, a.y, a.value, a.mutable), (b.x, b.y, b.value, b.mutable));
        assert_eq!(a.neighbors.len(), b.neighbors.len());
    }
}

#[test]
fn render_draws_the_empty_grid() {
    let g = Graph::new();
    let s = g.render();
    let lines: Vec<&str> = s.lines().collect();
    // top border, nine value lines with eight separators between, bottom
    assert_eq!(lines.len(), 19);
    for line in &lines {
        assert_eq!(line.chars().count(), 37);
    }
    assert_eq!(s.chars().filter(|c| *c == '0').count(), 81);
    let value_row: String = [
        "\u{2551} 0 \u{2502} 0 \u{2502} 0 \u{2551}",
        " 0 \u{2502} 0 \u{2502} 0 \u{2551}",
        " 0 \u{2502} 0 \u{2502} 0 \u{2551}",
    ]
    .concat();
    for k in 0..9 {
        assert_eq!(lines[2 * k + 1], value_row.as_str());
    }
    assert!(lines[0].starts_with('\u{2554}'));
    assert!(lines[18].starts_with('\u{255a}'));
    assert!(lines[2].starts_with('\u{255f}'));
    assert!(lines[6].starts_with('\u{2560}'));
    assert!(lines[12].starts_with('\u{2560}'));
    assert!(s.ends_with('\n'));
}

#[test]
fn render_shows_a_placed_value() {
    let mut g = Graph::new();
    g.index(1).unwrap().value = 5; // (1,1): first cell of the first value line
    let s = g.render();
    let lines: Vec<&str> = s.lines().collect();
    assert!(lines[1].starts_with("\u{2551} 5 "));
}
