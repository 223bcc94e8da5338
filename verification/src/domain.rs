use vstd::prelude::*;

verus! {

/// A cell's domain is kept as a strictly increasing vector of tile indices,
/// so that a set of tiles has exactly one representation and the vector's
/// length is the set's size.
pub open spec fn strictly_sorted(d: Seq<usize>) -> bool {
    forall|a: int, b: int|
        #![trigger d[a], d[b]]
        0 <= a < b < d.len() ==> d[a] < d[b]
}

/// A well-formed domain over a catalog of `n_tiles` tiles: strictly sorted,
/// every entry a valid tile index.
pub open spec fn domain_wf(d: Seq<usize>, n_tiles: int) -> bool {
    &&& strictly_sorted(d)
    &&& forall|k: int| 0 <= k < d.len() ==> #[trigger] d[k] < n_tiles
}

/// Every entry of `a` also occurs in `b`.
pub open spec fn seq_subset(a: Seq<usize>, b: Seq<usize>) -> bool {
    forall|k: int| 0 <= k < a.len() ==> b.contains(#[trigger] a[k])
}

pub proof fn lemma_seq_subset_trans(a: Seq<usize>, b: Seq<usize>, c: Seq<usize>)
    requires
        seq_subset(a, b),
        seq_subset(b, c),
    ensures
        seq_subset(a, c),
{
    assert forall|k: int| 0 <= k < a.len() implies c.contains(#[trigger] a[k]) by {
        let m = choose|m: int| 0 <= m < b.len() && b[m] == a[k];
        assert(c.contains(b[m]));
    }
}

/// A strictly sorted sequence holds no entry twice.
pub proof fn lemma_strictly_sorted_no_dup(d: Seq<usize>)
    requires
        strictly_sorted(d),
    ensures
        d.no_duplicates(),
{
    assert forall|i: int, j: int|
        0 <= i < d.len() && 0 <= j < d.len() && i != j implies d[i] != d[j] by {
        if i < j {
            assert(d[i] < d[j]);
        } else {
            assert(d[j] < d[i]);
        }
    }
}

/// Among strictly sorted sequences, a subset is never longer than its
/// superset.
pub proof fn lemma_sorted_subset_len(a: Seq<usize>, b: Seq<usize>)
    requires
        strictly_sorted(a),
        strictly_sorted(b),
        seq_subset(a, b),
    ensures
        a.len() <= b.len(),
{
    broadcast use vstd::seq_lib::seq_to_set_is_finite;
    broadcast use vstd::set::group_set_axioms;

    lemma_strictly_sorted_no_dup(a);
    a.unique_seq_to_set();
    b.lemma_cardinality_of_set();
    assert(a.to_set().subset_of(b.to_set())) by {
        assert forall|x: usize| a.to_set().contains(x) implies b.to_set().contains(x) by {
            let k = choose|k: int| 0 <= k < a.len() && a[k] == x;
            assert(b.contains(a[k]));
        }
    }
    vstd::set_lib::lemma_len_subset(a.to_set(), b.to_set());
}

/// Strictly sorted vectors are a canonical set representation: two of them
/// that contain each other's entries are equal.
pub proof fn lemma_sorted_mutual_subset_eq(a: Seq<usize>, b: Seq<usize>)
    requires
        strictly_sorted(a),
        strictly_sorted(b),
        seq_subset(a, b),
        seq_subset(b, a),
    ensures
        a == b,
    decreases a.len(),
{
    if a.len() == 0 {
        if b.len() > 0 {
            assert(a.contains(b[0]));
        }
        assert(a =~= b);
    } else {
        assert(b.contains(a[0]));
        assert(b.len() > 0);
        let i = choose|i: int| 0 <= i < b.len() && b[i] == a[0];
        if i > 0 {
            assert(b[0] < b[i]);
        }
        assert(b[0] <= a[0]);
        let i2 = choose|i2: int| 0 <= i2 < a.len() && a[i2] == b[0];
        if i2 > 0 {
            assert(a[0] < a[i2]);
        }
        assert(a[0] <= b[0]);
        assert(a[0] == b[0]);
        let at = a.skip(1);
        let bt = b.skip(1);
        assert(strictly_sorted(at)) by {
            assert forall|p: int, q: int|
                #![trigger at[p], at[q]]
                0 <= p < q < at.len() implies at[p] < at[q] by {
                assert(a[p + 1] < a[q + 1]);
            }
        }
        assert(strictly_sorted(bt)) by {
            assert forall|p: int, q: int|
                #![trigger bt[p], bt[q]]
                0 <= p < q < bt.len() implies bt[p] < bt[q] by {
                assert(b[p + 1] < b[q + 1]);
            }
        }
        assert(seq_subset(at, bt)) by {
            assert forall|k: int| 0 <= k < at.len() implies bt.contains(#[trigger] at[k]) by {
                assert(a[0] < a[k + 1]);
                assert(b.contains(a[k + 1]));
                let m = choose|m: int| 0 <= m < b.len() && b[m] == a[k + 1];
                assert(m > 0);
                assert(bt[m - 1] == a[k + 1]);
            }
        }
        assert(seq_subset(bt, at)) by {
            assert forall|k: int| 0 <= k < bt.len() implies at.contains(#[trigger] bt[k]) by {
                assert(b[0] < b[k + 1]);
                assert(a.contains(b[k + 1]));
                let m = choose|m: int| 0 <= m < a.len() && a[m] == b[k + 1];
                assert(m > 0);
                assert(at[m - 1] == b[k + 1]);
            }
        }
        lemma_sorted_mutual_subset_eq(at, bt);
        assert(a.len() == b.len());
        assert forall|k: int| 0 <= k < a.len() implies a[k] == b[k] by {
            if k > 0 {
                assert(at[k - 1] == a[k]);
                assert(bt[k - 1] == b[k]);
                assert(at[k - 1] == bt[k - 1]);
            }
        }
        assert(a =~= b);
    }
}

/// The full domain: every tile of a catalog of `n` tiles is still possible.
pub fn full_domain(n: usize) -> (d: Vec<usize>)
    ensures
        d@.len() == n,
        forall|k: int| 0 <= k < n ==> #[trigger] d@[k] == k,
        domain_wf(d@, n as int),
{
    let mut d: Vec<usize> = Vec::new();
    let mut i: usize = 0;
    while i < n
        invariant
            i <= n,
            d@.len() == i,
            forall|k: int| 0 <= k < i ==> #[trigger] d@[k] == k,
        decreases n - i,
    {
        d.push(i);
        i += 1;
    }
    d
}

/// Keep exactly the entries of `d` whose tile is marked, in order. This is
/// the set intersection of a domain with a marked set of tiles.
pub fn filter_by_marks(d: &Vec<usize>, marks: &Vec<bool>) -> (r: Vec<usize>)
    requires
        strictly_sorted(d@),
        forall|k: int| 0 <= k < d@.len() ==> #[trigger] d@[k] < marks@.len(),
    ensures
        strictly_sorted(r@),
        r@.len() <= d@.len(),
        forall|k: int|
            0 <= k < r@.len() ==> marks@[#[trigger] r@[k] as int] && d@.contains(r@[k]),
        forall|k: int|
            0 <= k < d@.len() && marks@[#[trigger] d@[k] as int] ==> r@.contains(d@[k]),
        r@.len() == d@.len() ==> r@ == d@,
        (forall|k: int| 0 <= k < d@.len() ==> marks@[#[trigger] d@[k] as int]) ==> r@ == d@,
{
    let mut r: Vec<usize> = Vec::new();
    let mut i: usize = 0;
    while i < d.len()
        invariant
            i <= d@.len(),
            strictly_sorted(d@),
            forall|k: int| 0 <= k < d@.len() ==> #[trigger] d@[k] < marks@.len(),
            strictly_sorted(r@),
            r@.len() <= i,
            forall|k: int|
                0 <= k < r@.len()
                    ==> marks@[#[trigger] r@[k] as int] && d@.contains(r@[k]),
            forall|k: int|
                0 <= k < i && marks@[#[trigger] d@[k] as int] ==> r@.contains(d@[k]),
            r@.len() == 0 || exists|m: int| 0 <= m < i && r@.last() == d@[m],
            r@.len() == i ==> forall|k: int| 0 <= k < i ==> marks@[#[trigger] d@[k] as int],
            (forall|k: int| 0 <= k < i ==> marks@[#[trigger] d@[k] as int])
                ==> (r@.len() == i && forall|k: int| 0 <= k < i ==> r@[k] == #[trigger] d@[k]),
        decreases d@.len() - i,
    {
        let t = d[i];
        if marks[t] {
            proof {
                if r@.len() > 0 {
                    let m = choose|m: int| 0 <= m < i && r@.last() == d@[m];
                    assert(d@[m] < d@[i as int]);
                    assert forall|a: int, b: int|
                        #![trigger r@.push(t)[a], r@.push(t)[b]]
                        0 <= a < b < r@.push(t).len() implies r@.push(t)[a] < r@.push(t)[b] by {
                        if b == r@.len() {
                            if a < r@.len() - 1 {
                                assert(r@[a] < r@[r@.len() - 1]);
                            }
                        }
                    }
                }
                assert(d@[i as int] == t);
            }
            let ghost r0 = r@;
            r.push(t);
            proof {
                assert(r@.last() == d@[i as int]);
                assert forall|k: int|
                    0 <= k < i + 1 && marks@[#[trigger] d@[k] as int] implies r@.contains(d@[k]) by {
                    if k < i {
                        assert(r0.contains(d@[k]));
                        let m = choose|m: int| 0 <= m < r0.len() && r0[m] == d@[k];
                        assert(r@[m] == d@[k]);
                    } else {
                        assert(r@[r@.len() - 1] == d@[k]);
                    }
                }
            }
        }
        i += 1;
    }
    proof {
        if r@.len() == d@.len() {
            assert(r@ =~= d@);
        }
        if forall|k: int| 0 <= k < d@.len() ==> marks@[#[trigger] d@[k] as int] {
            assert(r@ =~= d@);
        }
    }
    r
}

} // verus!
