use waveflow::config::compile_rules;
use waveflow::errors::{FatalKind, SolveError};
use waveflow::grid::{next_collapse_index, next_collapse_index_2d, Grid};
use waveflow::propagate::propagate;
use waveflow::rules::Ruleset;
use waveflow::shape::Shape;
use waveflow::solver::{
    collapse_chain, extract_assignment, solve, try_collapse, SolverRng,
};

/// Rules of the worked example: A may sit next to B only, B next to A or C,
/// C next to A only. Tiles are indices 0 = A, 1 = B, 2 = C.
fn example_rules() -> Ruleset {
    Ruleset { allowed: vec![vec![1], vec![0, 2], vec![0]] }
}

fn assert_pairs_allowed(rules: &Ruleset, shape: Shape, tiles: &[usize]) {
    let (cols, rows) = match shape {
        Shape::Line { length } => (length, 1),
        Shape::Rect { width, height } => (width, height),
    };
    assert_eq!(tiles.len(), cols * rows);
    for y in 0..rows {
        for x in 0..cols {
            let here = tiles[y * cols + x];
            if x + 1 < cols {
                let right = tiles[y * cols + x + 1];
                assert!(rules.allowed[here].contains(&right), "bad pair {} {}", here, right);
                assert!(rules.allowed[right].contains(&here));
            }
            if y + 1 < rows {
                let down = tiles[(y + 1) * cols + x];
                assert!(rules.allowed[here].contains(&down));
                assert!(rules.allowed[down].contains(&here));
            }
        }
    }
}

#[test]
fn line_of_five_is_consistent() {
    let rules = example_rules();
    let shape = Shape::Line { length: 5 };
    let mut rng = SolverRng::from_seed(7);
    let a = solve(&rules, shape, 10, &mut rng).expect("the example rules admit a solution");
    assert_eq!(a.tiles.len(), 5);
    for &t in &a.tiles {
        assert!(t < 3);
    }
    assert_pairs_allowed(&rules, shape, &a.tiles);
    // C's only allowed neighbor is A, so two C cells are never adjacent
    for w in a.tiles.windows(2) {
        assert!(!(w[0] == 2 && w[1] == 2));
    }
}

#[test]
fn three_by_three_succeeds_within_cap() {
    let rules = example_rules();
    let shape = Shape::Rect { width: 3, height: 3 };
    let mut rng = SolverRng::from_seed(3);
    let a = solve(&rules, shape, 10, &mut rng).expect("a 3x3 grid must solve within the cap");
    assert_eq!(a.tiles.len(), 9);
    assert_pairs_allowed(&rules, shape, &a.tiles);
}

#[test]
fn same_seed_same_assignment() {
    let rules = example_rules();
    let shape = Shape::Rect { width: 4, height: 3 };
    let mut rng1 = SolverRng::from_seed(7);
    let mut rng2 = SolverRng::from_seed(7);
    let a1 = solve(&rules, shape, 10, &mut rng1).expect("solvable");
    let a2 = solve(&rules, shape, 10, &mut rng2).expect("solvable");
    assert_eq!(a1.tiles, a2.tiles);
}

#[test]
fn retry_cap_exhausted_after_exact_attempts() {
    // one tile that may not stand next to itself: every attempt contradicts
    let rules = Ruleset { allowed: vec![vec![]] };
    let shape = Shape::Line { length: 3 };
    let mut rng = SolverRng::from_seed(1);
    match solve(&rules, shape, 10, &mut rng) {
        Err(SolveError::ExhaustedRetries { attempts, last_contradiction }) => {
            assert_eq!(attempts, 10);
            assert!(last_contradiction < 3);
        },
        other => panic!("expected ExhaustedRetries, got {:?}", other),
    }
}

#[test]
fn empty_catalog_is_fatal() {
    let rules = Ruleset { allowed: vec![] };
    let mut rng = SolverRng::from_seed(1);
    match solve(&rules, Shape::Line { length: 2 }, 10, &mut rng) {
        Err(SolveError::Fatal { kind }) => assert_eq!(kind, FatalKind::EmptyCatalog),
        other => panic!("expected Fatal, got {:?}", other),
    }
}

#[test]
fn unknown_tile_index_is_fatal() {
    let rules = Ruleset { allowed: vec![vec![0], vec![2]] };
    let mut rng = SolverRng::from_seed(1);
    match solve(&rules, Shape::Line { length: 2 }, 10, &mut rng) {
        Err(SolveError::Fatal { kind }) => {
            assert_eq!(kind, FatalKind::UnknownTile { rule: 1, entry: 0, tile: 2 });
        },
        other => panic!("expected Fatal, got {:?}", other),
    }
}

#[test]
fn validate_accepts_good_catalog() {
    let rules = example_rules();
    assert!(rules.validate().is_none());
}

#[test]
fn contradiction_is_recoverable_not_fatal() {
    // a catalog whose only contradiction-free grids need luck: B may only
    // ever neighbor A, A only B; solvable, so never Fatal
    let rules = Ruleset { allowed: vec![vec![1], vec![0]] };
    let mut rng = SolverRng::from_seed(3);
    let r = solve(&rules, Shape::Line { length: 4 }, 10, &mut rng);
    match r {
        Ok(a) => assert_pairs_allowed(&rules, Shape::Line { length: 4 }, &a.tiles),
        Err(SolveError::ExhaustedRetries { attempts, .. }) => assert_eq!(attempts, 10),
        other => panic!("unexpected result {:?}", other),
    }
}

#[test]
fn next_collapse_index_picks_first_smallest() {
    let grid = Grid {
        shape: Shape::Line { length: 5 },
        cells: vec![vec![0], vec![0, 1, 2], vec![0, 1], vec![0, 1], vec![0, 1, 2]],
    };
    // first minimal cell with more than one possibility is index 2
    assert_eq!(next_collapse_index(&grid), Some(2));
}

#[test]
fn next_collapse_index_none_when_collapsed() {
    let grid = Grid { shape: Shape::Line { length: 2 }, cells: vec![vec![1], vec![0]] };
    assert_eq!(next_collapse_index(&grid), None);
}

#[test]
fn next_collapse_index_2d_reports_coordinates() {
    let grid = Grid {
        shape: Shape::Rect { width: 2, height: 2 },
        cells: vec![vec![0], vec![0], vec![0], vec![0, 1]],
    };
    // linear index 3 is (x, y) = (1, 1)
    assert_eq!(next_collapse_index_2d(&grid), Some((1, 1)));
}

#[test]
fn propagation_shrinks_and_is_idempotent() {
    let rules = example_rules();
    let shape = Shape::Line { length: 4 };
    let mut grid = Grid::new(&rules, shape);
    // collapse cell 0 to B by hand; its neighbor must shrink to {A, C},
    // and the next cell to {A, B}
    grid.cells[0] = vec![1];
    propagate(&mut grid, &rules, vec![0, 1, 2, 3]).expect("no contradiction");
    assert_eq!(grid.cells[0], vec![1]);
    assert_eq!(grid.cells[1], vec![0, 2]);
    assert_eq!(grid.cells[2], vec![0, 1]);
    assert_eq!(grid.cells[3], vec![0, 1, 2]);
    let before: Vec<Vec<usize>> = grid.cells.clone();
    // a second pass over an already-consistent grid changes nothing
    propagate(&mut grid, &rules, vec![0, 1, 2, 3]).expect("no contradiction");
    assert_eq!(grid.cells, before);
    // and no domain ever grew
    for (d, b) in grid.cells.iter().zip(before.iter()) {
        assert!(d.len() <= b.len());
    }
}

#[test]
fn propagation_reports_contradiction_cell() {
    let rules = Ruleset { allowed: vec![vec![]] };
    let mut grid = Grid::new(&rules, Shape::Line { length: 2 });
    let r = propagate(&mut grid, &rules, vec![0, 1]);
    match r {
        Err(cell) => assert!(cell < 2),
        Ok(()) => panic!("a self-excluding single tile must contradict"),
    }
}

#[test]
fn extract_assignment_refuses_uncollapsed_grid() {
    let grid = Grid { shape: Shape::Line { length: 2 }, cells: vec![vec![0], vec![0, 1]] };
    assert!(extract_assignment(&grid).is_none());
}

#[test]
fn try_collapse_returns_contradiction_only() {
    let rules = Ruleset { allowed: vec![vec![]] };
    let mut rng = SolverRng::from_seed(9);
    match try_collapse(&rules, Shape::Line { length: 2 }, &mut rng) {
        Err(SolveError::Contradiction { cell }) => assert!(cell < 2),
        other => panic!("expected Contradiction, got {:?}", other),
    }
}

#[test]
fn chain_collapse_respects_rules() {
    let rules = example_rules();
    let mut rng = SolverRng::from_seed(11);
    let row = collapse_chain(&rules, 10, &mut rng).expect("example rules never dead-end");
    assert_eq!(row.len(), 10);
    for w in row.windows(2) {
        assert!(rules.allowed[w[0]].contains(&w[1]));
    }
}

#[test]
fn chain_collapse_hits_dead_end() {
    // whatever the first pick, the chain reaches B, and B allows nothing
    let rules = Ruleset { allowed: vec![vec![1], vec![]] };
    let mut rng = SolverRng::from_seed(5);
    match collapse_chain(&rules, 4, &mut rng) {
        Err(SolveError::Contradiction { cell }) => assert!(0 < cell && cell < 4),
        other => panic!("expected Contradiction, got {:?}", other),
    }
}

#[test]
fn compile_rules_resolves_names() {
    let rules = vec![
        ("A".to_string(), vec!["B".to_string()]),
        ("B".to_string(), vec!["A".to_string(), "C".to_string()]),
        ("C".to_string(), vec!["A".to_string()]),
    ];
    let (catalog, rs) = compile_rules(&rules).expect("all names resolve");
    assert_eq!(catalog, vec!["A".to_string(), "B".to_string(), "C".to_string()]);
    assert_eq!(rs.allowed, vec![vec![1], vec![0, 2], vec![0]]);
}

#[test]
fn compile_rules_rejects_unknown_name() {
    let rules = vec![("A".to_string(), vec!["D".to_string()])];
    match compile_rules(&rules) {
        Err(SolveError::Fatal { kind }) => {
            assert_eq!(kind, FatalKind::UnknownTileName { rule: 0, entry: 0 });
        },
        other => panic!("expected Fatal, got {:?}", other),
    }
}

#[test]
fn compile_rules_rejects_empty_list() {
    let rules: Vec<(String, Vec<String>)> = vec![];
    match compile_rules(&rules) {
        Err(SolveError::Fatal { kind }) => assert_eq!(kind, FatalKind::EmptyCatalog),
        other => panic!("expected Fatal, got {:?}", other),
    }
}


#[test]
fn empty_line_solves_trivially() {
    let rules = example_rules();
    let mut rng = SolverRng::from_seed(0);
    let a = solve(&rules, Shape::Line { length: 0 }, 10, &mut rng)
        .expect("no cells, no constraints");
    assert!(a.tiles.is_empty());
}

#[test]
fn single_cell_ignores_adjacency() {
    // with no adjacent pair, even a tile that excludes itself fits
    let rules = Ruleset { allowed: vec![vec![]] };
    let mut rng = SolverRng::from_seed(0);
    let a = solve(&rules, Shape::Line { length: 1 }, 10, &mut rng)
        .expect("one cell has no neighbors");
    assert_eq!(a.tiles, vec![0]);
}

#[test]
fn one_by_one_grid_always_solves() {
    // a single cell of a rectangle has no neighbors either, so even a
    // self-excluding tile fits; success here is owed, not luck
    let rules = Ruleset { allowed: vec![vec![]] };
    let mut rng = SolverRng::from_seed(0);
    let a = solve(&rules, Shape::Rect { width: 1, height: 1 }, 10, &mut rng)
        .expect("one cell, no pairs");
    assert_eq!(a.tiles, vec![0]);
}

#[test]
fn permissive_rules_always_solve() {
    // every tile allows every tile: no pick can contradict, so the very
    // first attempt must succeed whatever the seed
    let rules = Ruleset { allowed: vec![vec![0, 1, 2], vec![0, 1, 2], vec![0, 1, 2]] };
    let mut rng = SolverRng::from_seed(99);
    let a = solve(&rules, Shape::Rect { width: 4, height: 4 }, 10, &mut rng)
        .expect("all pairs allowed");
    assert_eq!(a.tiles.len(), 16);
    for &t in &a.tiles {
        assert!(t < 3);
    }
}

#[test]
fn chain_with_nonempty_rows_cannot_dead_end() {
    // every rule row is non-empty, so the chain is owed success
    let rules = Ruleset { allowed: vec![vec![1], vec![0], vec![0]] };
    let mut rng = SolverRng::from_seed(2);
    let row = collapse_chain(&rules, 8, &mut rng).expect("no rule row is empty");
    assert_eq!(row.len(), 8);
}
