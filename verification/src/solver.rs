use vstd::prelude::*;
use vstd::pervasive::VecAdditionalExecFns;
use crate::domain::seq_subset;
use crate::errors::{FatalKind, SolveError};
use crate::grid::{
    arc_ok, lemma_all_pairs_arc_consistent, lemma_arc_ok_target_shrink, lemma_total_size_le,
    lemma_total_size_lt, lemma_total_size_nonneg, next_collapse_index, total_size, Grid,
};
use crate::propagate::propagate;
use crate::rules::Ruleset;
use crate::shape::Shape;

verus! {

/// The default number of full-restart attempts before giving up.
pub const MAX_RETRIES: usize = 10;

#[verifier::external_type_specification]
#[verifier::external_body]
pub struct ExStdRng(rand::rngs::StdRng);

/// The solver's source of randomness: a seeded pseudo-random generator,
/// threaded explicitly so that runs are reproducible and attempts stay
/// independently testable.
pub struct SolverRng {
    inner: rand::rngs::StdRng,
}

impl SolverRng {
    /// Relies on rand's `SeedableRng::seed_from_u64` to build a `StdRng`.
    #[verifier::external_body]
    pub fn from_seed(seed: u64) -> (r: SolverRng) {
        SolverRng { inner: <rand::rngs::StdRng as rand::SeedableRng>::seed_from_u64(seed) }
    }

    /// Relies on rand's `RngExt::random_range` over `0..n`: it panics only
    /// on an empty range and returns a value of the range. Nothing more is
    /// assumed; to the proofs every call may return any index below `n`.
    #[verifier::external_body]
    pub(crate) fn pick_index(&mut self, n: usize) -> (r: usize)
        requires
            n >= 1,
        ensures
            r < n,
    {
        rand::RngExt::random_range(&mut self.inner, 0..n)
    }
}

/// The solver's sole externally visible result: exactly one tile for every
/// cell of the shape, addressed by linear index.
#[derive(Debug)]
pub struct Assignment {
    pub shape: Shape,
    pub tiles: Vec<usize>,
}

impl Assignment {
    /// Totality: one catalog tile for every cell of the shape.
    pub open spec fn wf(self, rules: Ruleset) -> bool {
        &&& self.shape.wf()
        &&& self.tiles@.len() == self.shape.count()
        &&& forall|c: int|
                0 <= c < self.tiles@.len() ==> (#[trigger] self.tiles@[c] as int) < rules.n_tiles()
    }

    /// Local consistency: every pair of neighboring cells satisfies the
    /// adjacency relation.
    pub open spec fn consistent(self, rules: Ruleset) -> bool {
        forall|i: int, j: int|
            #[trigger] self.shape.adjacent(i, j)
                ==> rules.rule_allows(self.tiles@[i] as int, self.tiles@[j])
    }

    /// The tile assigned to a cell, by linear index.
    pub fn tile_at(&self, cell: usize) -> (t: usize)
        requires
            cell < self.tiles@.len(),
        ensures
            t == self.tiles@[cell as int],
    {
        self.tiles[cell]
    }

    pub fn len(&self) -> (n: usize)
        ensures
            n == self.tiles@.len(),
    {
        self.tiles.len()
    }
}

/// Read out the tile-per-cell mapping of a fully collapsed grid. Returns
/// `None` if any cell is not yet down to exactly one tile — unreachable from
/// the solver's own flow, but checked rather than assumed, since this is the
/// boundary handed to external rendering code.
pub fn extract_assignment(grid: &Grid) -> (r: Option<Assignment>)
    ensures
        match r {
            Some(a) => {
                &&& grid.all_singleton()
                &&& a.shape == grid.shape
                &&& a.tiles@.len() == grid.cells@.len()
                &&& forall|c: int|
                        0 <= c < a.tiles@.len() ==> #[trigger] a.tiles@[c] == grid.cells@[c]@[0]
            },
            None => !grid.all_singleton(),
        },
{
    let mut tiles: Vec<usize> = Vec::new();
    let mut i: usize = 0;
    while i < grid.cells.len()
        invariant
            i <= grid.cells@.len(),
            tiles@.len() == i,
            forall|c: int| 0 <= c < i ==> (#[trigger] grid.cells@[c]@).len() == 1,
            forall|c: int| 0 <= c < i ==> #[trigger] tiles@[c] == grid.cells@[c]@[0],
        decreases grid.cells@.len() - i,
    {
        if grid.cells[i].len() != 1 {
            return None;
        }
        tiles.push(grid.cells[i][0]);
        i += 1;
    }
    Some(Assignment { shape: grid.shape, tiles })
}

/// One full attempt: a fresh grid with every domain equal to the whole
/// catalog, an initial propagation pass over every cell, then repeatedly
/// collapse the first smallest undecided cell to a randomly picked tile and
/// propagate, until every cell is decided or a domain empties.
///
/// On success the assignment is total over the shape and locally consistent.
/// Whether an attempt succeeds depends on the random picks, so success is
/// not promised; the only possible failure is a contradiction.
#[verifier::loop_isolation(false)]
pub fn try_collapse(rules: &Ruleset, shape: Shape, rng: &mut SolverRng) -> (r: Result<
    Assignment,
    SolveError,
>)
    requires
        rules.wf(),
        shape.wf(),
    ensures
        match r {
            Ok(a) => a.shape == shape && a.wf(*rules) && a.consistent(*rules),
            Err(e) => e matches SolveError::Contradiction { cell } && (cell as int) < shape.count(),
        },
        shape.count() <= 1 ==> r is Ok,
        rules.all_pairs_allowed() ==> r is Ok,
{
    let mut grid = Grid::new(rules, shape);
    let count = shape.cell_count();
    // Seed the queue with every cell: a fresh grid need not be
    // arc-consistent (a tile may appear in nobody's rule set), so the first
    // fixpoint pass has to look at every arc.
    let mut queue: Vec<usize> = Vec::new();
    let mut i: usize = 0;
    while i < count
        invariant
            i <= count,
            queue@.len() == i,
            forall|k: int| 0 <= k < i ==> #[trigger] queue@[k] == k,
        decreases count - i,
    {
        queue.push(i);
        i += 1;
    }
    proof {
        assert forall|a: int, b: int| #[trigger] grid.shape.adjacent(a, b) implies
            queue@.contains(a as usize) || arc_ok(*rules, grid.cells@[a]@, grid.cells@[b]@) by {
            assert(queue@[a] == a as usize);
        }
    }
    let ghost g0 = grid;
    match propagate(&mut grid, rules, queue) {
        Err(cell) => {
            proof {
                // a contradiction needs a neighboring pair and a forbidden
                // pairing, so on these inputs it cannot happen
                if shape.count() <= 1 {
                    shape.lemma_small_no_adjacent();
                    assert(g0.arc_consistent(*rules));
                    assert(false);
                }
                if rules.all_pairs_allowed() {
                    lemma_all_pairs_arc_consistent(g0, *rules);
                    assert(false);
                }
            }
            return Err(SolveError::Contradiction { cell });
        },
        Ok(()) => {},
    }
    let mut done = false;
    while !done
        invariant
            grid.wf(*rules),
            grid.shape == shape,
            grid.arc_consistent(*rules),
            done ==> forall|c: int|
                0 <= c < grid.cells@.len() ==> (#[trigger] grid.cells@[c]@).len() <= 1,
        decreases total_size(grid.cells@, grid.cells@.len() as int), (if done { 0int } else { 1int }),
    {
        proof {
            lemma_total_size_nonneg(grid.cells@, grid.cells@.len() as int);
        }
        match next_collapse_index(&grid) {
            None => {
                done = true;
            },
            Some(target) => {
                let ghost gp = grid;
                let dlen = grid.cells[target].len();
                let k = rng.pick_index(dlen);
                let t = grid.cells[target][k];
                let mut single: Vec<usize> = Vec::new();
                single.push(t);
                grid.cells.set(target, single);
                proof {
                    assert(seq_subset(grid.cells@[target as int]@, gp.cells@[target as int]@));
                    assert(grid.wf(*rules));
                    lemma_total_size_lt(grid.cells@, gp.cells@, grid.cells@.len() as int, target as int);
                }
                let mut q2: Vec<usize> = Vec::new();
                q2.push(target);
                proof {
                    let ghost gc = grid;
                    assert forall|a: int, b: int| #[trigger] gc.shape.adjacent(a, b) implies
                        q2@.contains(a as usize) || arc_ok(*rules, gc.cells@[a]@, gc.cells@[b]@) by {
                        if a == target as int {
                            assert(q2@[0] == target);
                        } else {
                            assert(arc_ok(*rules, gp.cells@[a]@, gp.cells@[b]@));
                            assert(gc.cells@[a]@ == gp.cells@[a]@);
                            if b == target as int {
                                lemma_arc_ok_target_shrink(
                                    *rules, gp.cells@[a]@, gp.cells@[b]@, gc.cells@[b]@);
                            } else {
                                assert(gc.cells@[b]@ == gp.cells@[b]@);
                            }
                        }
                    }
                }
                let ghost gc2 = grid;
                match propagate(&mut grid, rules, q2) {
                    Err(cell) => {
                        proof {
                            if shape.count() <= 1 {
                                shape.lemma_small_no_adjacent();
                                assert(gc2.arc_consistent(*rules));
                                assert(false);
                            }
                            if rules.all_pairs_allowed() {
                                lemma_all_pairs_arc_consistent(gc2, *rules);
                                assert(false);
                            }
                        }
                        return Err(SolveError::Contradiction { cell });
                    },
                    Ok(()) => {},
                }
                proof {
                    lemma_total_size_le(grid.cells@, gc2.cells@, grid.cells@.len() as int);
                    lemma_total_size_nonneg(grid.cells@, grid.cells@.len() as int);
                }
            },
        }
    }
    match extract_assignment(&grid) {
        Some(a) => {
            proof {
                assert forall|i2: int, j2: int| #[trigger] a.shape.adjacent(i2, j2) implies
                    rules.rule_allows(a.tiles@[i2] as int, a.tiles@[j2]) by {
                    assert(arc_ok(*rules, grid.cells@[i2]@, grid.cells@[j2]@));
                    assert(rules.tile_allowed(grid.cells@[i2]@, grid.cells@[j2]@[0]));
                    let m = choose|m: int|
                        0 <= m < grid.cells@[i2]@.len()
                            && rules.rule_allows(grid.cells@[i2]@[m] as int, grid.cells@[j2]@[0]);
                    assert(m == 0);
                    assert(a.tiles@[i2] == grid.cells@[i2]@[0]);
                }
                assert forall|c: int| 0 <= c < a.tiles@.len() implies
                    (#[trigger] a.tiles@[c] as int) < rules.n_tiles() by {
                    assert(a.tiles@[c] == grid.cells@[c]@[0]);
                }
            }
            Ok(a)
        },
        None => {
            // unreachable: the loop only ends once every domain is singleton,
            // but the extractor checks rather than assumes it
            proof {
                assert(false);
            }
            Err(SolveError::Contradiction { cell: 0 })
        },
    }
}

/// Drive full-grid attempts up to the retry cap. A bad catalog is rejected
/// outright and never retried; a contradiction discards the grid and starts
/// over; once the cap is exhausted the failure reports the attempt count
/// and the last contradicted cell.
pub fn solve(rules: &Ruleset, shape: Shape, max_retries: usize, rng: &mut SolverRng) -> (r: Result<
    Assignment,
    SolveError,
>)
    requires
        shape.wf(),
        max_retries >= 1,
    ensures
        match r {
            Ok(a) => rules.wf() && a.shape == shape && a.wf(*rules) && a.consistent(*rules),
            Err(e) => match e {
                SolveError::Fatal { kind } => {
                    &&& !rules.wf()
                    &&& (kind == FatalKind::EmptyCatalog <==> rules.allowed.len() == 0)
                    &&& (kind matches FatalKind::UnknownTile { rule, entry, tile } ==> {
                        &&& rule < rules.allowed.len()
                        &&& entry < rules.allowed@[rule as int]@.len()
                        &&& tile == rules.allowed@[rule as int]@[entry as int]
                        &&& tile >= rules.allowed.len()
                    })
                },
                SolveError::ExhaustedRetries { attempts, last_contradiction } => {
                    &&& rules.wf()
                    &&& attempts == max_retries
                    &&& (last_contradiction as int) < shape.count()
                },
                SolveError::Contradiction { .. } => false,
            },
        },
        (r matches Err(e) && e matches SolveError::Fatal { .. }) <==> !rules.wf(),
        rules.wf() && shape.count() <= 1 ==> r is Ok,
        rules.wf() && rules.all_pairs_allowed() ==> r is Ok,
{
    match rules.validate() {
        Some(kind) => {
            return Err(SolveError::Fatal { kind });
        },
        None => {},
    }
    let mut last: usize = 0;
    let mut attempt: usize = 0;
    while attempt < max_retries
        invariant
            rules.wf(),
            shape.wf(),
            attempt <= max_retries,
            attempt > 0 ==> (last as int) < shape.count(),
            attempt > 0 ==> shape.count() > 1 && !rules.all_pairs_allowed(),
        decreases max_retries - attempt,
    {
        match try_collapse(rules, shape, rng) {
            Ok(a) => {
                return Ok(a);
            },
            Err(e) => {
                if let SolveError::Contradiction { cell } = e {
                    last = cell;
                } else {
                    proof {
                        assert(false);
                    }
                }
            },
        }
        attempt += 1;
    }
    Err(SolveError::ExhaustedRetries { attempts: max_retries, last_contradiction: last })
}

/// With a single tile that may not stand next to itself, a shape with at
/// least one pair of neighboring cells admits no consistent assignment at
/// all. Together with `solve`'s contract — a well-formed catalog yields
/// either a consistent assignment or `ExhaustedRetries` with exactly the
/// requested number of attempts — this pins the retry cap: on such a
/// configuration the solver must report `ExhaustedRetries` after exactly
/// `max_retries` attempts.
pub proof fn lemma_retry_cap_forced(rules: Ruleset, a: Assignment)
    requires
        rules.wf(),
        rules.n_tiles() == 1,
        rules.allowed@[0]@.len() == 0,
        exists|i: int, j: int| #[trigger] a.shape.adjacent(i, j),
        a.wf(rules),
    ensures
        !a.consistent(rules),
{
    let (i, j) = choose|i: int, j: int| #[trigger] a.shape.adjacent(i, j);
    if a.consistent(rules) {
        a.shape.lemma_adjacent_ne(i, j);
        assert(rules.rule_allows(a.tiles@[i] as int, a.tiles@[j]));
        assert(a.tiles@[i] as int == 0);
        assert(false);
    }
}

/// Collapse a row left to right without backtracking: the first cell is a
/// uniform pick from the whole catalog, every later cell a uniform pick
/// among the tiles allowed next to its left neighbor — consistent by
/// construction. Fails with a contradiction at the first cell whose left
/// neighbor allows nothing at all.
pub fn collapse_chain(rules: &Ruleset, length: usize, rng: &mut SolverRng) -> (r: Result<
    Vec<usize>,
    SolveError,
>)
    requires
        rules.wf(),
    ensures
        match r {
            Ok(row) => {
                &&& row@.len() == length
                &&& forall|k: int|
                        0 <= k < row@.len() ==> (#[trigger] row@[k] as int) < rules.n_tiles()
                &&& forall|k: int|
                        0 <= k && k + 1 < row@.len()
                            ==> rules.rule_allows(row@[k] as int, #[trigger] row@[k + 1])
            },
            Err(e) => e matches SolveError::Contradiction { cell } && 0 < cell < length,
        },
        (forall|t: int|
            0 <= t < rules.n_tiles() ==> (#[trigger] rules.allowed@[t])@.len() >= 1) ==> r is Ok,
{
    let mut row: Vec<usize> = Vec::new();
    if length == 0 {
        return Ok(row);
    }
    let n = rules.n_tiles_exec();
    let first = rng.pick_index(n);
    row.push(first);
    let mut i: usize = 1;
    while i < length
        invariant
            rules.wf(),
            1 <= i <= length,
            row@.len() == i,
            forall|k: int| 0 <= k < row@.len() ==> (#[trigger] row@[k] as int) < rules.n_tiles(),
            forall|k: int|
                0 <= k && k + 1 < row@.len()
                    ==> rules.rule_allows(row@[k] as int, #[trigger] row@[k + 1]),
        decreases length - i,
    {
        let prev = row[i - 1];
        let opts_len = rules.allowed[prev].len();
        if opts_len == 0 {
            proof {
                // a dead end needs some tile's rule row to be empty
                if forall|t: int|
                    0 <= t < rules.n_tiles() ==> (#[trigger] rules.allowed@[t])@.len() >= 1 {
                    assert(rules.allowed@[prev as int]@.len() >= 1);
                    assert(false);
                }
            }
            return Err(SolveError::Contradiction { cell: i });
        }
        let k = rng.pick_index(opts_len);
        let t = rules.allowed[prev][k];
        proof {
            assert(rules.allowed@[prev as int]@[k as int] == t);
            assert(rules.rule_allows(prev as int, t));
        }
        row.push(t);
        i += 1;
    }
    Ok(row)
}

} // verus!
