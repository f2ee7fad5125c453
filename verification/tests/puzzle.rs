use sudoku_core::graph::Graph;
use sudoku_core::random::RandomSource;

#[test]
fn make_puzzle_keeps_the_requested_number_of_clues() {
    let mut rng = RandomSource::from_seed(1);
    let g = Graph::make_puzzle(40, &mut rng).expect("generation finished");
    let nonzero = g.cells.iter().filter(|c| c.value != 0).count();
    assert_eq!(nonzero, 40);
}

#[test]
fn make_puzzle_marks_clues_immutable_and_holes_editable() {
    let mut rng = RandomSource::from_seed(2);
    let g = Graph::make_puzzle(30, &mut rng).expect("generation finished");
    for c in &g.cells {
        if c.value != 0 {
            assert!(!c.mutable, "a clue is not editable");
        } else {
            assert!(c.mutable, "a cleared cell is editable");
        }
    }
}

#[test]
fn make_puzzle_never_leaves_a_conflict() {
    // clearing cells from a valid grid keeps it free of conflicts,
    // whatever subset was cleared
    for seed in [3u64, 4, 5, 6] {
        let mut rng = RandomSource::from_seed(seed);
        let g = Graph::make_puzzle(25, &mut rng).expect("generation finished");
        assert!(g.invalid_cells().is_empty());
    }
}

#[test]
fn make_puzzle_81_returns_the_fully_solved_grid() {
    let mut rng = RandomSource::from_seed(8);
    let g = Graph::make_puzzle(81, &mut rng).expect("generation finished");
    for c in &g.cells {
        assert!(1 <= c.value && c.value <= 9);
        assert!(!c.mutable);
    }
    assert!(g.invalid_cells().is_empty());
}

#[test]
fn make_puzzle_0_returns_an_all_empty_grid() {
    let mut rng = RandomSource::from_seed(13);
    let g = Graph::make_puzzle(0, &mut rng).expect("generation finished");
    for c in &g.cells {
        assert_eq!(c.value, 0);
        assert!(c.mutable);
    }
}

#[test]
fn puzzle_draws_lie_inside_the_grid() {
    // every cleared position named a real cell: the graph still has its
    // 81 cells, each at its own coordinates
    let mut rng = RandomSource::from_seed(21);
    let g = Graph::make_puzzle(50, &mut rng).expect("generation finished");
    assert_eq!(g.cells.len(), 81);
    for (k, c) in g.cells.iter().enumerate() {
        assert_eq!(c.x as usize, k % 9 + 1);
        assert_eq!(c.y as usize, k / 9 + 1);
    }
}
