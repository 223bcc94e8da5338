use vstd::prelude::*;
use vstd::pervasive::VecAdditionalExecFns;
use crate::domain::{
    domain_wf, filter_by_marks, lemma_seq_subset_trans, lemma_sorted_mutual_subset_eq,
    lemma_sorted_subset_len, seq_subset, strictly_sorted,
};
use crate::grid::{
    arc_ok, lemma_arc_ok_target_shrink, lemma_total_size_le, lemma_total_size_lt, total_size, Grid,
};
use crate::rules::Ruleset;

verus! {

/// The propagation queue covers the grid: every arc whose source cell is not
/// pending in the queue is already consistent. A fresh grid with every cell
/// queued satisfies this trivially; so does an arc-consistent grid with one
/// just-collapsed cell queued.
pub open spec fn queue_covers(g: Grid, rules: Ruleset, q: Seq<usize>) -> bool {
    forall|i: int, j: int|
        #[trigger] g.shape.adjacent(i, j)
            ==> q.contains(i as usize) || arc_ok(rules, g.cells@[i]@, g.cells@[j]@)
}

/// A tile allowed next to some domain is allowed next to any larger one.
proof fn lemma_tile_allowed_mono(rules: Ruleset, d1: Seq<usize>, d2: Seq<usize>, u: usize)
    requires
        rules.tile_allowed(d1, u),
        seq_subset(d1, d2),
    ensures
        rules.tile_allowed(d2, u),
{
    let k = choose|k: int| 0 <= k < d1.len() && #[trigger] rules.rule_allows(d1[k] as int, u);
    let m = choose|m: int| 0 <= m < d2.len() && d2[m] == d1[k];
    assert(rules.rule_allows(d2[m] as int, u));
}

/// The propagation fixpoint is unique, so propagation is deterministic: any
/// two well-formed, arc-consistent shrinkages of the same start grid that
/// each contain every arc-consistent shrinkage — which is exactly what
/// `propagate` ensures of its result — hold the same domain in every cell.
/// Together with the uniqueness of the collapse target, every step of an
/// attempt is determined once the random tile picks are fixed.
pub proof fn lemma_propagation_fixpoint_unique(rules: Ruleset, start: Grid, r1: Grid, r2: Grid)
    requires
        r1.wf(rules),
        r1.arc_consistent(rules),
        r1.shrunk_from(start),
        r2.wf(rules),
        r2.arc_consistent(rules),
        r2.shrunk_from(start),
        forall|g2: Grid|
            g2.wf(rules) && g2.arc_consistent(rules) && #[trigger] g2.shrunk_from(start)
                ==> g2.shrunk_from(r1),
        forall|g2: Grid|
            g2.wf(rules) && g2.arc_consistent(rules) && #[trigger] g2.shrunk_from(start)
                ==> g2.shrunk_from(r2),
    ensures
        r1.shape == r2.shape,
        r1.cells@.len() == r2.cells@.len(),
        forall|c: int| 0 <= c < r1.cells@.len() ==> r1.cells@[c]@ == r2.cells@[c]@,
{
    assert(r1.shrunk_from(r2));
    assert(r2.shrunk_from(r1));
    assert forall|c: int| 0 <= c < r1.cells@.len() implies r1.cells@[c]@ == r2.cells@[c]@ by {
        assert(domain_wf(r1.cells@[c]@, rules.n_tiles()));
        assert(domain_wf(r2.cells@[c]@, rules.n_tiles()));
        lemma_sorted_mutual_subset_eq(r1.cells@[c]@, r2.cells@[c]@);
    }
}

/// Restore arc-consistency after the cells in `queue` changed: repeatedly pop
/// a cell, intersect each neighbor's domain with the set of tiles its rules
/// still allow, and re-queue neighbors that shrank, until the queue empties
/// (the fixpoint) or some domain empties (a contradiction at that cell).
///
/// The contract carries the solver's key properties: domains only ever
/// shrink, on success the grid is arc-consistent, and running on an
/// already-consistent grid changes nothing and cannot fail.
#[verifier::loop_isolation(false)]
#[verifier::rlimit(60)]
pub fn propagate(grid: &mut Grid, rules: &Ruleset, queue: Vec<usize>) -> (r: Result<(), usize>)
    requires
        rules.wf(),
        old(grid).wf(*rules),
        forall|k: int| 0 <= k < queue@.len() ==> (#[trigger] queue@[k] as int) < old(grid).cells@.len(),
        queue_covers(*old(grid), *rules, queue@),
    ensures
        final(grid).shape == old(grid).shape,
        final(grid).shrunk_from(*old(grid)),
        match r {
            Ok(()) => final(grid).wf(*rules) && final(grid).arc_consistent(*rules),
            Err(cell) => (cell as int) < old(grid).cells@.len(),
        },
        old(grid).arc_consistent(*rules) ==> r == Ok::<(), usize>(()) && *final(grid) == *old(grid),
        forall|g2: Grid|
            g2.wf(*rules) && g2.arc_consistent(*rules) && #[trigger] g2.shrunk_from(*old(grid))
                ==> r == Ok::<(), usize>(()) && g2.shrunk_from(*final(grid)),
{
    let mut queue = queue;
    while queue.len() > 0
        invariant
            grid.wf(*rules),
            grid.shape == old(grid).shape,
            grid.shrunk_from(*old(grid)),
            forall|k: int| 0 <= k < queue@.len() ==> (#[trigger] queue@[k] as int) < grid.cells@.len(),
            queue_covers(*grid, *rules, queue@),
            old(grid).arc_consistent(*rules) ==> *grid == *old(grid),
            forall|g2: Grid|
                g2.wf(*rules) && g2.arc_consistent(*rules) && #[trigger] g2.shrunk_from(*old(grid))
                    ==> g2.shrunk_from(*grid),
        decreases total_size(grid.cells@, grid.cells@.len() as int), queue@.len(),
    {
        let ghost q0 = queue@;
        let c = queue.remove(0);
        let ghost q1 = queue@;
        let ghost g1 = *grid;
        let ghost t1 = total_size(grid.cells@, grid.cells@.len() as int);
        let ns = grid.shape.neighbors(c);
        let marks = rules.allowed_marks(&grid.cells[c]);
        proof {
            // arcs out of the popped cell are covered by the remaining queue,
            // by consistency, or by the neighbor list about to be processed
            assert forall|i: int, j: int| #[trigger] grid.shape.adjacent(i, j) implies
                queue@.contains(i as usize)
                || arc_ok(*rules, grid.cells@[i]@, grid.cells@[j]@)
                || (i == c as int && exists|k2: int| 0 <= k2 < ns@.len() && #[trigger] ns@[k2] == j as usize) by {
                if !arc_ok(*rules, grid.cells@[i]@, grid.cells@[j]@) {
                    let m = choose|m: int| 0 <= m < q0.len() && q0[m] == i as usize;
                    if m == 0 {
                        assert(i == c as int);
                        assert(ns@.contains(j as usize));
                    } else {
                        assert(q1[m - 1] == q0[m]);
                        assert(q1.contains(i as usize));
                    }
                }
            }
        }
        let mut kk: usize = 0;
        while kk < ns.len()
            invariant
                grid.wf(*rules),
                grid.shape == old(grid).shape,
                grid.shrunk_from(*old(grid)),
                grid.cells@.len() == g1.cells@.len(),
                grid.cells@[c as int]@ == g1.cells@[c as int]@,
                forall|k: int| 0 <= k < queue@.len() ==> (#[trigger] queue@[k] as int) < grid.cells@.len(),
                forall|i: int, j: int| #[trigger] grid.shape.adjacent(i, j) ==>
                    queue@.contains(i as usize)
                    || arc_ok(*rules, grid.cells@[i]@, grid.cells@[j]@)
                    || (i == c as int && exists|k2: int| kk <= k2 < ns@.len() && #[trigger] ns@[k2] == j as usize),
                total_size(grid.cells@, grid.cells@.len() as int) <= t1,
                total_size(grid.cells@, grid.cells@.len() as int) == t1 ==> queue@ == q1,
                old(grid).arc_consistent(*rules) ==> *grid == *old(grid) && queue@ == q1,
                forall|g2: Grid|
                    g2.wf(*rules) && g2.arc_consistent(*rules) && #[trigger] g2.shrunk_from(
                        *old(grid),
                    ) ==> g2.shrunk_from(*grid),
            decreases ns@.len() - kk,
        {
            let n = ns[kk];
            proof {
                assert(grid.shape.adjacent(c as int, n as int));
                grid.shape.lemma_adjacent_ne(c as int, n as int);
            }
            let ghost gp = *grid;
            let ghost qp = queue@;
            let new_set = filter_by_marks(&grid.cells[n], &marks);
            proof {
                // tiles that survive the filter are allowed next to the
                // popped cell's (unchanged) domain
                assert forall|k: int| 0 <= k < new_set@.len() implies
                    rules.tile_allowed(grid.cells@[c as int]@, #[trigger] new_set@[k]) by {
                    assert(marks@[new_set@[k] as int]);
                }
                // under prior arc-consistency nothing can change
                if old(grid).arc_consistent(*rules) {
                    assert(arc_ok(*rules, grid.cells@[c as int]@, grid.cells@[n as int]@));
                    assert forall|k: int| 0 <= k < grid.cells@[n as int]@.len() implies
                        marks@[#[trigger] grid.cells@[n as int]@[k] as int] by {
                        assert(rules.tile_allowed(grid.cells@[c as int]@, grid.cells@[n as int]@[k]));
                    }
                    assert(new_set@ == grid.cells@[n as int]@);
                }
            }
            if new_set.len() == 0 {
                proof {
                    // any arc-consistent shrinkage of the start grid keeps a
                    // tile in this cell that the filter would have kept, so
                    // none can exist
                    assert forall|g2: Grid|
                        g2.wf(*rules) && g2.arc_consistent(*rules) && #[trigger] g2.shrunk_from(
                            *old(grid),
                        ) implies false by {
                        assert(g2.shrunk_from(*grid));
                        let dn = g2.cells@[n as int]@;
                        assert(dn.len() >= 1);
                        let t = dn[0];
                        assert(grid.cells@[n as int]@.contains(t));
                        assert(g2.shape.adjacent(c as int, n as int));
                        assert(arc_ok(*rules, g2.cells@[c as int]@, dn));
                        assert(rules.tile_allowed(g2.cells@[c as int]@, t));
                        assert(seq_subset(g2.cells@[c as int]@, grid.cells@[c as int]@));
                        lemma_tile_allowed_mono(
                            *rules, g2.cells@[c as int]@, grid.cells@[c as int]@, t);
                        assert((t as int) < rules.n_tiles());
                        assert(marks@[t as int]);
                        let m = choose|m: int|
                            0 <= m < grid.cells@[n as int]@.len() && grid.cells@[n as int]@[m]
                                == t;
                        assert(marks@[grid.cells@[n as int]@[m] as int]);
                        assert(new_set@.contains(grid.cells@[n as int]@[m]));
                        assert(false);
                    }
                }
                return Err(n);
            }
            let shrank = new_set.len() < grid.cells[n].len();
            if shrank {
                proof {
                    // the filtered domain is still well-formed over the catalog
                    assert forall|k: int| 0 <= k < new_set@.len() implies
                        (#[trigger] new_set@[k] as int) < rules.n_tiles() by {
                        let m = choose|m: int|
                            0 <= m < gp.cells@[n as int]@.len() && gp.cells@[n as int]@[m] == new_set@[k];
                        assert(gp.cells@[n as int]@[m] < rules.n_tiles());
                    }
                }
                grid.cells.set(n, new_set);
                queue.push(n);
                proof {
                    assert(queue@[queue@.len() - 1] == n);
                    assert forall|k: int| 0 <= k < qp.len() implies queue@.contains(#[trigger] qp[k]) by {
                        assert(queue@[k] == qp[k]);
                    }
                    // every cell only shrank, with a strict shrink at n
                    assert forall|c2: int| 0 <= c2 < grid.cells@.len() implies
                        (#[trigger] grid.cells@[c2]@).len() <= gp.cells@[c2]@.len()
                        && seq_subset(grid.cells@[c2]@, gp.cells@[c2]@) by {
                        if c2 != n as int {
                            assert(grid.cells@[c2]@ == gp.cells@[c2]@);
                            assert(seq_subset(grid.cells@[c2]@, gp.cells@[c2]@));
                        }
                    }
                    lemma_total_size_lt(grid.cells@, gp.cells@, grid.cells@.len() as int, n as int);
                    // domain shrink relative to the propagation's start state
                    assert forall|c2: int| 0 <= c2 < grid.cells@.len() implies
                        (#[trigger] grid.cells@[c2]@).len() <= old(grid).cells@[c2]@.len()
                        && seq_subset(grid.cells@[c2]@, old(grid).cells@[c2]@) by {
                        lemma_seq_subset_trans(grid.cells@[c2]@, gp.cells@[c2]@, old(grid).cells@[c2]@);
                    }
                    // an arc-consistent shrinkage loses nothing to the filter
                    assert forall|g2: Grid|
                        g2.wf(*rules) && g2.arc_consistent(*rules) && #[trigger] g2.shrunk_from(
                            *old(grid),
                        ) implies g2.shrunk_from(*grid) by {
                        assert(g2.shrunk_from(gp));
                        assert forall|k: int|
                            0 <= k < g2.cells@[n as int]@.len() implies new_set@.contains(
                            #[trigger] g2.cells@[n as int]@[k],
                        ) by {
                            let t = g2.cells@[n as int]@[k];
                            assert(gp.cells@[n as int]@.contains(t));
                            assert(g2.shape.adjacent(c as int, n as int));
                            assert(arc_ok(*rules, g2.cells@[c as int]@, g2.cells@[n as int]@));
                            assert(rules.tile_allowed(g2.cells@[c as int]@, t));
                            assert(seq_subset(g2.cells@[c as int]@, gp.cells@[c as int]@));
                            lemma_tile_allowed_mono(
                                *rules, g2.cells@[c as int]@, gp.cells@[c as int]@, t);
                            assert((t as int) < rules.n_tiles());
                            assert(marks@[t as int]);
                            let m = choose|m: int|
                                0 <= m < gp.cells@[n as int]@.len() && gp.cells@[n as int]@[m]
                                    == t;
                            assert(marks@[gp.cells@[n as int]@[m] as int]);
                            assert(new_set@.contains(gp.cells@[n as int]@[m]));
                        }
                        assert(seq_subset(g2.cells@[n as int]@, new_set@));
                        assert(strictly_sorted(g2.cells@[n as int]@));
                        lemma_sorted_subset_len(g2.cells@[n as int]@, new_set@);
                        assert forall|c2: int| 0 <= c2 < g2.cells@.len() implies
                            (#[trigger] g2.cells@[c2]@).len() <= grid.cells@[c2]@.len()
                            && seq_subset(g2.cells@[c2]@, grid.cells@[c2]@) by {
                            if c2 != n as int {
                                assert(grid.cells@[c2]@ == gp.cells@[c2]@);
                            } else {
                                assert(grid.cells@[c2]@ == new_set@);
                            }
                        }
                    }
                }
            } else {
                proof {
                    assert(new_set@ == gp.cells@[n as int]@);
                }
            }
            proof {
                let ghost gq = *grid;
                // re-establish coverage of every arc
                assert forall|i: int, j: int| #[trigger] gq.shape.adjacent(i, j) implies
                    queue@.contains(i as usize)
                    || arc_ok(*rules, gq.cells@[i]@, gq.cells@[j]@)
                    || (i == c as int && exists|k2: int| kk + 1 <= k2 < ns@.len() && #[trigger] ns@[k2] == j as usize) by {
                    assert(gp.shape.adjacent(i, j));
                    if qp.contains(i as usize) {
                        let m = choose|m: int| 0 <= m < qp.len() && qp[m] == i as usize;
                        assert(queue@.contains(qp[m]));
                    } else if arc_ok(*rules, gp.cells@[i]@, gp.cells@[j]@) {
                        if j == n as int {
                            lemma_arc_ok_target_shrink(
                                *rules, gp.cells@[i]@, gp.cells@[n as int]@, gq.cells@[n as int]@);
                            if i == n as int {
                                assert(false);
                            }
                            assert(gq.cells@[i]@ == gp.cells@[i]@);
                            assert(arc_ok(*rules, gq.cells@[i]@, gq.cells@[j]@));
                        } else if i == n as int {
                            if shrank {
                                assert(queue@[queue@.len() - 1] == n);
                                assert(queue@.contains(i as usize));
                            } else {
                                assert(arc_ok(*rules, gq.cells@[i]@, gq.cells@[j]@));
                            }
                        } else {
                            assert(gq.cells@[i]@ == gp.cells@[i]@);
                            assert(gq.cells@[j]@ == gp.cells@[j]@);
                            assert(arc_ok(*rules, gq.cells@[i]@, gq.cells@[j]@));
                        }
                    } else {
                        let k2 = choose|k2: int| kk <= k2 < ns@.len() && #[trigger] ns@[k2] == j as usize;
                        if k2 >= kk + 1 {
                            assert(exists|k3: int| kk + 1 <= k3 < ns@.len() && #[trigger] ns@[k3] == j as usize);
                        } else {
                            // j is exactly the neighbor just filtered
                            assert(j == n as int);
                            assert(gq.cells@[n as int]@ == new_set@);
                            assert(gq.cells@[c as int]@ == g1.cells@[c as int]@);
                            assert(arc_ok(*rules, gq.cells@[c as int]@, gq.cells@[j]@));
                        }
                    }
                }
            }
            kk += 1;
        }
        proof {
            crate::grid::lemma_total_size_nonneg(grid.cells@, grid.cells@.len() as int);
            if total_size(grid.cells@, grid.cells@.len() as int) == t1 {
                assert(queue@ == q1);
                assert(queue@.len() < q0.len());
            }
        }
    }
    Ok(())
}

} // verus!
