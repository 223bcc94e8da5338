use vstd::prelude::*;
use crate::errors::{FatalKind, SolveError};
use crate::rules::Ruleset;

verus! {

/// The solve configuration as the loader hands it over: adjacency rules by
/// tile name, and the tile art catalog by tile name. Name lookups are kept
/// as association lists so that contracts can speak about their entries.
pub struct Config {
    /// For each tile name, the names of the tiles allowed next to it.
    pub adjacency_rules: Vec<(String, Vec<String>)>,
    /// For each tile name, the path of its art asset.
    pub tiles: Vec<(String, String)>,
}

/// A map-only configuration: just the adjacency rules.
pub struct MapConfig {
    pub adjacency_rules: Vec<(String, Vec<String>)>,
}

/// The first position of `name` among `names`, if any.
pub fn find_name(names: &Vec<String>, name: &String) -> (r: Option<usize>)
    ensures
        match r {
            Some(i) => {
                &&& (i as int) < names@.len()
                &&& names@[i as int]@ == name@
                &&& forall|j: int| 0 <= j < i ==> (#[trigger] names@[j])@ != name@
            },
            None => forall|j: int| 0 <= j < names@.len() ==> (#[trigger] names@[j])@ != name@,
        },
{
    let mut i: usize = 0;
    while i < names.len()
        invariant
            i <= names@.len(),
            forall|j: int| 0 <= j < i ==> (#[trigger] names@[j])@ != name@,
        decreases names@.len() - i,
    {
        if names[i] == *name {
            return Some(i);
        }
        i += 1;
    }
    None
}

/// Compile name-keyed adjacency rules into the index-keyed catalog the
/// solver works on: the catalog is the rule keys in order, and every
/// neighbor name is resolved to its catalog index. An empty rule list and a
/// neighbor name that no rule defines are structural errors, never retried.
pub fn compile_rules(rules: &Vec<(String, Vec<String>)>) -> (r: Result<
    (Vec<String>, Ruleset),
    SolveError,
>)
    ensures
        match r {
            Ok(out) => {
                let catalog = out.0;
                let rs = out.1;
                &&& rs.wf()
                &&& catalog@.len() == rules@.len()
                &&& forall|i: int|
                        0 <= i < rules@.len() ==> (#[trigger] catalog@[i])@ == rules@[i].0@
                &&& rs.allowed@.len() == rules@.len()
                &&& forall|i: int|
                        0 <= i < rules@.len()
                            ==> (#[trigger] rs.allowed@[i])@.len() == rules@[i].1@.len()
                &&& forall|i: int, j: int|
                        0 <= i < rules@.len() && 0 <= j < rules@[i].1@.len()
                            ==> catalog@[#[trigger] rs.allowed@[i]@[j] as int]@ == rules@[i].1@[j]@
            },
            Err(e) => match e {
                SolveError::Fatal { kind } => match kind {
                    FatalKind::EmptyCatalog => rules@.len() == 0,
                    FatalKind::UnknownTileName { rule, entry } => {
                        &&& (rule as int) < rules@.len()
                        &&& (entry as int) < rules@[rule as int].1@.len()
                        &&& forall|k: int|
                                0 <= k < rules@.len()
                                    ==> (#[trigger] rules@[k].0)@
                                        != rules@[rule as int].1@[entry as int]@
                    },
                    _ => false,
                },
                _ => false,
            },
        },
{
    if rules.len() == 0 {
        return Err(SolveError::Fatal { kind: FatalKind::EmptyCatalog });
    }
    let mut catalog: Vec<String> = Vec::new();
    let mut i: usize = 0;
    while i < rules.len()
        invariant
            i <= rules@.len(),
            catalog@.len() == i,
            forall|k: int| 0 <= k < i ==> (#[trigger] catalog@[k])@ == rules@[k].0@,
        decreases rules@.len() - i,
    {
        catalog.push(rules[i].0.clone());
        i += 1;
    }
    let mut allowed: Vec<Vec<usize>> = Vec::new();
    let mut t: usize = 0;
    while t < rules.len()
        invariant
            t <= rules@.len(),
            catalog@.len() == rules@.len(),
            forall|k: int| 0 <= k < rules@.len() ==> (#[trigger] catalog@[k])@ == rules@[k].0@,
            allowed@.len() == t,
            forall|k: int|
                0 <= k < t ==> (#[trigger] allowed@[k])@.len() == rules@[k].1@.len(),
            forall|k: int, j: int|
                0 <= k < t && 0 <= j < rules@[k].1@.len()
                    ==> (#[trigger] allowed@[k]@[j] as int) < rules@.len(),
            forall|k: int, j: int|
                0 <= k < t && 0 <= j < rules@[k].1@.len()
                    ==> catalog@[#[trigger] allowed@[k]@[j] as int]@ == rules@[k].1@[j]@,
        decreases rules@.len() - t,
    {
        let row = &rules[t].1;
        let mut indices: Vec<usize> = Vec::new();
        let mut j: usize = 0;
        while j < row.len()
            invariant
                t < rules@.len(),
                row == &rules@[t as int].1,
                catalog@.len() == rules@.len(),
                forall|k: int| 0 <= k < rules@.len() ==> (#[trigger] catalog@[k])@ == rules@[k].0@,
                j <= row@.len(),
                indices@.len() == j,
                forall|j2: int|
                    0 <= j2 < j ==> (#[trigger] indices@[j2] as int) < rules@.len(),
                forall|j2: int|
                    0 <= j2 < j
                        ==> catalog@[#[trigger] indices@[j2] as int]@ == row@[j2]@,
            decreases row@.len() - j,
        {
            match find_name(&catalog, &row[j]) {
                Some(idx) => {
                    indices.push(idx);
                },
                None => {
                    proof {
                        assert forall|k: int|
                            0 <= k < rules@.len()
                                implies (#[trigger] rules@[k].0)@ != rules@[t as int].1@[j as int]@
                        by {
                            assert(catalog@[k]@ == rules@[k].0@);
                            assert(catalog@[k]@ != row@[j as int]@);
                        }
                    }
                    return Err(SolveError::Fatal {
                        kind: FatalKind::UnknownTileName { rule: t, entry: j },
                    });
                },
            }
            j += 1;
        }
        allowed.push(indices);
        t += 1;
    }
    let rs = Ruleset { allowed };
    proof {
        assert forall|t2: int, k2: int|
            0 <= t2 < rs.allowed@.len() && 0 <= k2 < rs.allowed@[t2]@.len()
                implies #[trigger] rs.allowed@[t2]@[k2] < rs.allowed@.len() by {
            assert(rs.allowed@[t2]@.len() == rules@[t2].1@.len());
        }
    }
    Ok((catalog, rs))
}

} // verus!
