use std::collections::BTreeSet;

use sudoku_core::graph::Graph;
use sudoku_core::random::RandomSource;

fn digits() -> BTreeSet<u8> {
    (1u8..=9).collect()
}

#[test]
fn generate_completes_and_reports_it() {
    let mut g = Graph::new();
    let mut rng = RandomSource::from_seed(7);
    assert!(g.generate(&mut rng));
    for c in &g.cells {
        assert!(1 <= c.value && c.value <= 9);
    }
}

#[test]
fn generated_rows_columns_and_boxes_hold_each_digit_once() {
    let mut g = Graph::new();
    let mut rng = RandomSource::from_seed(11);
    assert!(g.generate(&mut rng));
    for r in 1u8..=9 {
        let row: BTreeSet<u8> = (1u8..=9).map(|x| g.at(x, r).unwrap().value).collect();
        assert_eq!(row, digits(), "row {} misses a digit", r);
        let col: BTreeSet<u8> = (1u8..=9).map(|y| g.at(r, y).unwrap().value).collect();
        assert_eq!(col, digits(), "column {} misses a digit", r);
    }
    for bx in 0u8..3 {
        for by in 0u8..3 {
            let mut seen = BTreeSet::new();
            for dx in 1u8..=3 {
                for dy in 1u8..=3 {
                    seen.insert(g.at(bx * 3 + dx, by * 3 + dy).unwrap().value);
                }
            }
            assert_eq!(seen, digits(), "box ({},{}) misses a digit", bx, by);
        }
    }
}

#[test]
fn generated_grid_has_no_invalid_cells() {
    let mut g = Graph::new();
    let mut rng = RandomSource::from_seed(23);
    assert!(g.generate(&mut rng));
    assert!(g.invalid_cells().is_empty());
}

#[test]
fn generate_keeps_positions_neighbors_and_mutability() {
    let mut g = Graph::new();
    let before: Vec<(u8, u8, bool, usize)> =
        g.cells.iter().map(|c| (c.x, c.y, c.mutable, c.neighbors.len())).collect();
    let mut rng = RandomSource::from_seed(3);
    g.generate(&mut rng);
    let after: Vec<(u8, u8, bool, usize)> =
        g.cells.iter().map(|c| (c.x, c.y, c.mutable, c.neighbors.len())).collect();
    assert_eq!(before, after);
}

#[test]
fn same_seed_generates_the_same_grid() {
    let mut g1 = Graph::new();
    let mut g2 = Graph::new();
    let mut rng1 = RandomSource::from_seed(42);
    let mut rng2 = RandomSource::from_seed(42);
    let done1 = g1.generate(&mut rng1);
    let done2 = g2.generate(&mut rng2);
    assert_eq!(done1, done2);
    let v1: Vec<u8> = g1.cells.iter().map(|c| c.value).collect();
    let v2: Vec<u8> = g2.cells.iter().map(|c| c.value).collect();
    assert_eq!(v1, v2);
}

#[test]
fn first_box_holds_the_nine_digits_after_generation() {
    let mut g = Graph::new();
    let mut rng = RandomSource::from_seed(5);
    assert!(g.generate(&mut rng));
    let mut seen = BTreeSet::new();
    for x in 1u8..=3 {
        for y in 1u8..=3 {
            seen.insert(g.at(x, y).unwrap().value);
        }
    }
    assert_eq!(seen, digits());
}

#[test]
fn generate_regenerates_a_dirty_grid() {
    let mut g = Graph::new();
    let mut rng = RandomSource::from_seed(9);
    assert!(g.generate(&mut rng));
    // run again on the solved grid: the values are wiped and refilled
    assert!(g.generate(&mut rng));
    assert!(g.invalid_cells().is_empty());
    for c in &g.cells {
        assert!(1 <= c.value && c.value <= 9);
    }
}
