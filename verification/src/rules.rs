use vstd::prelude::*;
use crate::errors::FatalKind;

verus! {

/// The tile catalog and its adjacency relation. Tiles are the indices
/// `0 .. allowed.len()`; `allowed[t]` lists the tiles that may be placed
/// next to tile `t`. The same relation is applied in every direction: there
/// is no distinction between a left and a right neighbor.
#[derive(Debug)]
pub struct Ruleset {
    pub allowed: Vec<Vec<usize>>,
}

impl Ruleset {
    /// The number of tiles in the catalog.
    pub open spec fn n_tiles(self) -> int {
        self.allowed.len() as int
    }

    /// A usable catalog: at least one tile, and every rule entry names a
    /// tile of the catalog.
    pub open spec fn wf(self) -> bool {
        &&& self.allowed.len() >= 1
        &&& forall|t: int, k: int|
                0 <= t < self.allowed.len() && 0 <= k < self.allowed@[t]@.len()
                    ==> #[trigger] self.allowed@[t]@[k] < self.allowed.len()
    }

    /// Tile `u` may stand next to tile `t`.
    pub open spec fn rule_allows(self, t: int, u: usize) -> bool {
        self.allowed@[t]@.contains(u)
    }

    /// Tile `u` may stand next to a cell whose domain is `d`: some tile
    /// still possible in `d` lists `u` as a permitted neighbor.
    pub open spec fn tile_allowed(self, d: Seq<usize>, u: usize) -> bool {
        exists|k: int| 0 <= k < d.len() && #[trigger] self.rule_allows(d[k] as int, u)
    }

    /// Every tile may stand next to every tile. On such a catalog no pick
    /// can ever contradict, so the solver owes success.
    pub open spec fn all_pairs_allowed(self) -> bool {
        forall|t: int, u: usize|
            0 <= t < self.n_tiles() && (u as int) < self.n_tiles()
                ==> #[trigger] self.rule_allows(t, u)
    }

    pub fn n_tiles_exec(&self) -> (n: usize)
        ensures
            n == self.n_tiles(),
    {
        self.allowed.len()
    }

    /// Check the catalog, reporting exactly why it is unusable: an empty
    /// catalog, or a rule entry that names a tile absent from the catalog.
    pub fn validate(&self) -> (r: Option<FatalKind>)
        ensures
            r is None <==> self.wf(),
            (r matches Some(k) && k == FatalKind::EmptyCatalog) <==> self.allowed.len() == 0,
            (r matches Some(k) && k matches FatalKind::UnknownTile { .. })
                <==> (self.allowed.len() >= 1 && !self.wf()),
            match r {
                Some(FatalKind::UnknownTile { rule, entry, tile }) => {
                    &&& rule < self.allowed.len()
                    &&& entry < self.allowed@[rule as int]@.len()
                    &&& tile == self.allowed@[rule as int]@[entry as int]
                    &&& tile >= self.allowed.len()
                },
                _ => true,
            },
    {
        let n = self.allowed.len();
        if n == 0 {
            return Some(FatalKind::EmptyCatalog);
        }
        let mut t: usize = 0;
        while t < n
            invariant
                n == self.allowed.len(),
                t <= n,
                forall|t2: int, k2: int|
                    0 <= t2 < t && 0 <= k2 < self.allowed@[t2]@.len()
                        ==> #[trigger] self.allowed@[t2]@[k2] < n,
            decreases n - t,
        {
            let row_len = self.allowed[t].len();
            let mut k: usize = 0;
            while k < row_len
                invariant
                    n == self.allowed.len(),
                    t < n,
                    k <= row_len,
                    row_len == self.allowed@[t as int]@.len(),
                    forall|k2: int|
                        0 <= k2 < k ==> #[trigger] self.allowed@[t as int]@[k2] < n,
                decreases row_len - k,
            {
                let tile = self.allowed[t][k];
                if tile >= n {
                    return Some(FatalKind::UnknownTile { rule: t, entry: k, tile });
                }
                k += 1;
            }
            t += 1;
        }
        None
    }

    /// Mark, for every tile of the catalog, whether it may stand next to a
    /// cell whose domain is `d`: the union of the rule sets of the tiles
    /// still in `d`.
    pub fn allowed_marks(&self, d: &Vec<usize>) -> (marks: Vec<bool>)
        requires
            self.wf(),
            forall|k: int| 0 <= k < d@.len() ==> #[trigger] d@[k] < self.n_tiles(),
        ensures
            marks@.len() == self.n_tiles(),
            forall|u: usize|
                u < marks@.len()
                    ==> (#[trigger] marks@[u as int] <==> self.tile_allowed(d@, u)),
    {
        let n = self.allowed.len();
        let mut marks: Vec<bool> = Vec::new();
        let mut i: usize = 0;
        while i < n
            invariant
                i <= n,
                marks@.len() == i,
                forall|u: int| 0 <= u < i ==> !(#[trigger] marks@[u]),
            decreases n - i,
        {
            marks.push(false);
            i += 1;
        }
        let mut k: usize = 0;
        while k < d.len()
            invariant
                self.wf(),
                n == self.allowed.len(),
                forall|k2: int| 0 <= k2 < d@.len() ==> #[trigger] d@[k2] < n,
                k <= d@.len(),
                marks@.len() == n,
                forall|u: usize|
                    u < n
                        ==> (#[trigger] marks@[u as int] <==> exists|k2: int|
                            0 <= k2 < k && #[trigger] self.rule_allows(d@[k2] as int, u)),
            decreases d@.len() - k,
        {
            let t = d[k];
            let row_len = self.allowed[t].len();
            let mut j: usize = 0;
            while j < row_len
                invariant
                    self.wf(),
                    n == self.allowed.len(),
                    forall|k2: int| 0 <= k2 < d@.len() ==> #[trigger] d@[k2] < n,
                    k < d@.len(),
                    t == d@[k as int],
                    t < n,
                    row_len == self.allowed@[t as int]@.len(),
                    j <= row_len,
                    marks@.len() == n,
                    forall|u: usize|
                        u < n
                            ==> (#[trigger] marks@[u as int] <==> (exists|k2: int|
                                0 <= k2 < k && #[trigger] self.rule_allows(d@[k2] as int, u))
                                || (exists|j2: int|
                                    0 <= j2 < j && #[trigger] self.allowed@[t as int]@[j2] == u)),
                decreases row_len - j,
            {
                let u = self.allowed[t][j];
                let ghost m0 = marks@;
                marks.set(u, true);
                proof {
                    assert(self.allowed@[t as int]@[j as int] == u);
                }
                j += 1;
            }
            proof {
                assert forall|u: usize| u < n implies (#[trigger] marks@[u as int] <==> exists|k2: int|
                    0 <= k2 < k + 1 && #[trigger] self.rule_allows(d@[k2] as int, u)) by {
                    if marks@[u as int] {
                        if exists|k2: int|
                            0 <= k2 < k && #[trigger] self.rule_allows(d@[k2] as int, u) {
                            let k2 = choose|k2: int|
                                0 <= k2 < k && #[trigger] self.rule_allows(d@[k2] as int, u);
                            assert(self.rule_allows(d@[k2] as int, u));
                        } else {
                            let j2 = choose|j2: int|
                                0 <= j2 < row_len && #[trigger] self.allowed@[t as int]@[j2] == u;
                            assert(self.allowed@[t as int]@.contains(u));
                            assert(self.rule_allows(d@[k as int] as int, u));
                        }
                    } else {
                        if exists|k2: int|
                            0 <= k2 < k + 1 && #[trigger] self.rule_allows(d@[k2] as int, u) {
                            let k2 = choose|k2: int|
                                0 <= k2 < k + 1 && #[trigger] self.rule_allows(d@[k2] as int, u);
                            if k2 < k {
                                assert(marks@[u as int]);
                            } else {
                                let j2 = choose|j2: int|
                                    0 <= j2 < self.allowed@[t as int]@.len()
                                        && self.allowed@[t as int]@[j2] == u;
                                assert(marks@[u as int]);
                            }
                        }
                    }
                }
            }
            k += 1;
        }
        marks
    }
}

} // verus!
