use vstd::prelude::*;
use vstd::arithmetic::div_mod::{
    lemma_fundamental_div_mod, lemma_mod_division_less_than_divisor,
};
use crate::domain::{domain_wf, full_domain, seq_subset};
use crate::rules::Ruleset;
use crate::shape::Shape;

verus! {

/// The grid of a solve attempt: one domain per cell, addressed by linear
/// index according to the shape's layout.
pub struct Grid {
    pub shape: Shape,
    pub cells: Vec<Vec<usize>>,
}

/// The arc from a cell with domain `dc` to a neighbor with domain `dn` is
/// consistent: every tile of `dn` may stand next to some tile of `dc`.
pub open spec fn arc_ok(rules: Ruleset, dc: Seq<usize>, dn: Seq<usize>) -> bool {
    forall|k: int| 0 <= k < dn.len() ==> rules.tile_allowed(dc, #[trigger] dn[k])
}

/// Shrinking the arc's target keeps it consistent.
pub proof fn lemma_arc_ok_target_shrink(rules: Ruleset, dc: Seq<usize>, dn: Seq<usize>, dn2: Seq<usize>)
    requires
        arc_ok(rules, dc, dn),
        seq_subset(dn2, dn),
    ensures
        arc_ok(rules, dc, dn2),
{
    assert forall|k: int| 0 <= k < dn2.len() implies rules.tile_allowed(dc, #[trigger] dn2[k]) by {
        let m = choose|m: int| 0 <= m < dn.len() && dn[m] == dn2[k];
        assert(rules.tile_allowed(dc, dn[m]));
    }
}

impl Grid {
    /// A live grid: right number of cells, well-formed domains, none empty.
    pub open spec fn wf(self, rules: Ruleset) -> bool {
        &&& self.shape.wf()
        &&& self.cells@.len() == self.shape.count()
        &&& forall|c: int|
                0 <= c < self.cells@.len() ==> domain_wf(#[trigger] self.cells@[c]@, rules.n_tiles())
        &&& forall|c: int| 0 <= c < self.cells@.len() ==> (#[trigger] self.cells@[c]@).len() >= 1
    }

    /// Every pair of neighboring cells is arc-consistent: the propagation
    /// fixpoint.
    pub open spec fn arc_consistent(self, rules: Ruleset) -> bool {
        forall|i: int, j: int|
            #[trigger] self.shape.adjacent(i, j)
                ==> arc_ok(rules, self.cells@[i]@, self.cells@[j]@)
    }

    /// Every cell has collapsed to exactly one tile.
    pub open spec fn all_singleton(self) -> bool {
        forall|c: int| 0 <= c < self.cells@.len() ==> (#[trigger] self.cells@[c]@).len() == 1
    }

    /// Pointwise domain shrink: same shape, and every cell's domain is a
    /// subset of what it was in `other`, never larger.
    pub open spec fn shrunk_from(self, other: Grid) -> bool {
        &&& self.shape == other.shape
        &&& self.cells@.len() == other.cells@.len()
        &&& forall|c: int|
                0 <= c < self.cells@.len()
                    ==> (#[trigger] self.cells@[c]@).len() <= other.cells@[c]@.len()
        &&& forall|c: int|
                0 <= c < self.cells@.len()
                    ==> seq_subset(#[trigger] self.cells@[c]@, other.cells@[c]@)
    }

    /// A fresh grid over the given catalog: every cell may still be any tile.
    pub fn new(rules: &Ruleset, shape: Shape) -> (g: Grid)
        requires
            rules.wf(),
            shape.wf(),
        ensures
            g.wf(*rules),
            g.shape == shape,
            forall|c: int|
                0 <= c < g.cells@.len() ==> (#[trigger] g.cells@[c]@).len() == rules.n_tiles(),
            forall|c: int, k: int|
                0 <= c < g.cells@.len() && 0 <= k < g.cells@[c]@.len()
                    ==> #[trigger] g.cells@[c]@[k] == k,
    {
        let count = shape.cell_count();
        let n = rules.n_tiles_exec();
        let mut cells: Vec<Vec<usize>> = Vec::new();
        let mut i: usize = 0;
        while i < count
            invariant
                i <= count,
                cells@.len() == i,
                n == rules.n_tiles(),
                forall|c: int| 0 <= c < i ==> (#[trigger] cells@[c]@).len() == n,
                forall|c: int, k: int|
                    0 <= c < i && 0 <= k < cells@[c]@.len() ==> #[trigger] cells@[c]@[k] == k,
                forall|c: int| 0 <= c < i ==> domain_wf(#[trigger] cells@[c]@, n as int),
            decreases count - i,
        {
            cells.push(full_domain(n));
            i += 1;
        }
        Grid { shape, cells }
    }
}

/// When every tile allows every tile, any live grid is arc-consistent, so
/// propagation can never contradict.
pub proof fn lemma_all_pairs_arc_consistent(g: Grid, rules: Ruleset)
    requires
        rules.wf(),
        g.wf(rules),
        rules.all_pairs_allowed(),
    ensures
        g.arc_consistent(rules),
{
    assert forall|i: int, j: int| #[trigger] g.shape.adjacent(i, j) implies arc_ok(
        rules,
        g.cells@[i]@,
        g.cells@[j]@,
    ) by {
        g.shape.lemma_adjacent_ne(i, j);
        assert forall|k: int| 0 <= k < g.cells@[j]@.len() implies rules.tile_allowed(
            g.cells@[i]@,
            #[trigger] g.cells@[j]@[k],
        ) by {
            let u = g.cells@[j]@[k];
            assert((u as int) < rules.n_tiles());
            assert(g.cells@[i]@.len() >= 1);
            let t0 = g.cells@[i]@[0];
            assert((t0 as int) < rules.n_tiles());
            assert(rules.rule_allows(t0 as int, u));
        }
    }
}

/// Cell `i` is the collapse target: its domain still has more than one tile,
/// no other such cell has a smaller domain, and no earlier such cell has one
/// as small — the first minimal cell in scan order.
pub open spec fn is_collapse_target(g: Grid, i: int) -> bool {
    &&& 0 <= i < g.cells@.len()
    &&& g.cells@[i]@.len() > 1
    &&& forall|j: int|
            0 <= j < g.cells@.len()
                ==> (#[trigger] g.cells@[j]@).len() <= 1 || g.cells@[i]@.len() <= g.cells@[j]@.len()
    &&& forall|j: int|
            0 <= j < i
                ==> (#[trigger] g.cells@[j]@).len() <= 1 || g.cells@[j]@.len() > g.cells@[i]@.len()
}

/// There is at most one collapse target, so cell selection is deterministic.
pub proof fn lemma_collapse_target_unique(g: Grid, i: int, j: int)
    requires
        is_collapse_target(g, i),
        is_collapse_target(g, j),
    ensures
        i == j,
{
}

/// Pick the cell to collapse next: the first cell in scan order whose domain
/// has more than one tile and is smallest among such cells; `None` once
/// every cell is down to one possibility.
pub fn next_collapse_index(g: &Grid) -> (r: Option<usize>)
    ensures
        match r {
            Some(i) => is_collapse_target(*g, i as int),
            None => forall|j: int|
                0 <= j < g.cells@.len() ==> (#[trigger] g.cells@[j]@).len() <= 1,
        },
{
    let mut found = false;
    let mut best_i: usize = 0;
    let mut best_len: usize = 0;
    let mut j: usize = 0;
    while j < g.cells.len()
        invariant
            j <= g.cells@.len(),
            !found ==> forall|m: int| 0 <= m < j ==> (#[trigger] g.cells@[m]@).len() <= 1,
            found ==> {
                &&& best_i < j
                &&& g.cells@[best_i as int]@.len() == best_len
                &&& best_len > 1
                &&& forall|m: int|
                        0 <= m < j
                            ==> (#[trigger] g.cells@[m]@).len() <= 1 || best_len <= g.cells@[m]@.len()
                &&& forall|m: int|
                        0 <= m < best_i
                            ==> (#[trigger] g.cells@[m]@).len() <= 1 || g.cells@[m]@.len() > best_len
            },
        decreases g.cells@.len() - j,
    {
        let len = g.cells[j].len();
        if len > 1 && (!found || len < best_len) {
            found = true;
            best_i = j;
            best_len = len;
        }
        j += 1;
    }
    if found {
        Some(best_i)
    } else {
        None
    }
}

/// The same selection for a rectangular grid, reported as an `(x, y)`
/// coordinate pair.
pub fn next_collapse_index_2d(g: &Grid) -> (r: Option<(usize, usize)>)
    requires
        g.shape is Rect,
        g.cells@.len() == g.shape.count(),
    ensures
        match r {
            Some(xy) => g.shape matches Shape::Rect { width, height }
                && xy.0 < width
                && is_collapse_target(*g, xy.1 * width + xy.0),
            None => forall|j: int|
                0 <= j < g.cells@.len() ==> (#[trigger] g.cells@[j]@).len() <= 1,
        },
{
    match next_collapse_index(g) {
        None => None,
        Some(i) => {
            let width = match g.shape {
                Shape::Rect { width, height } => width,
                Shape::Line { length } => length,
            };
            proof {
                assert(width > 0) by (nonlinear_arith)
                    requires
                        0 <= i as int,
                        (i as int) < (g.shape->Rect_width as int) * (g.shape->Rect_height as int),
                        width == g.shape->Rect_width,
                {}
                lemma_fundamental_div_mod(i as int, width as int);
                lemma_mod_division_less_than_divisor(i as int, width as int);
                assert((i / width) as int * (width as int) + (i % width) as int == i as int)
                    by (nonlinear_arith)
                    requires
                        i as int == (width as int) * ((i as int) / (width as int))
                            + (i as int) % (width as int),
                        (i / width) as int == (i as int) / (width as int),
                        (i % width) as int == (i as int) % (width as int),
                {}
            }
            let x = i % width;
            let y = i / width;
            Some((x, y))
        },
    }
}

/// The sum of the domain sizes of the first `upto` cells: the measure that
/// shrinks as the solve makes progress.
pub open spec fn total_size(cells: Seq<Vec<usize>>, upto: int) -> int
    decreases upto,
{
    if upto <= 0 {
        0
    } else {
        total_size(cells, upto - 1) + cells[upto - 1]@.len()
    }
}

pub proof fn lemma_total_size_nonneg(cells: Seq<Vec<usize>>, upto: int)
    ensures
        total_size(cells, upto) >= 0,
    decreases upto,
{
    if upto > 0 {
        lemma_total_size_nonneg(cells, upto - 1);
    }
}

pub proof fn lemma_total_size_le(a: Seq<Vec<usize>>, b: Seq<Vec<usize>>, upto: int)
    requires
        a.len() == b.len(),
        forall|c: int| 0 <= c < a.len() ==> (#[trigger] a[c]@).len() <= b[c]@.len(),
        0 <= upto <= a.len(),
    ensures
        total_size(a, upto) <= total_size(b, upto),
    decreases upto,
{
    if upto > 0 {
        lemma_total_size_le(a, b, upto - 1);
    }
}

pub proof fn lemma_total_size_lt(a: Seq<Vec<usize>>, b: Seq<Vec<usize>>, upto: int, w: int)
    requires
        a.len() == b.len(),
        forall|c: int| 0 <= c < a.len() ==> (#[trigger] a[c]@).len() <= b[c]@.len(),
        0 <= w < upto <= a.len(),
        a[w]@.len() < b[w]@.len(),
    ensures
        total_size(a, upto) < total_size(b, upto),
    decreases upto,
{
    if upto - 1 == w {
        lemma_total_size_le(a, b, upto - 1);
    } else {
        lemma_total_size_lt(a, b, upto - 1, w);
    }
}

} // verus!
