//! The reconciler: from the mappings of two scans to the three lists that
//! make up their difference.

use crate::tree::{path_views, Tree, TreeMapping};
use vstd::prelude::*;

verus! {

/// What a [`CmpResult`] stands for.
pub struct Diff {
    /// The paths of the first tree that the second lacks.
    pub only_in_a: Seq<Seq<char>>,
    /// The paths of the second tree that the first lacks.
    pub only_in_b: Seq<Seq<char>>,
    /// The paths that both trees have, with fingerprints that compare unequal.
    pub differs: Seq<Seq<char>>,
}

/// Holds of the paths for which `other` has no record.
pub open spec fn missing_from(other: Tree) -> spec_fn(Seq<char>) -> bool {
    |path: Seq<char>| !other.records.contains_key(path)
}

/// Holds of the paths for which `b` has a record too, and one whose
/// comparison value is not that of the record in `a`.
pub open spec fn differs_between(a: Tree, b: Tree) -> spec_fn(Seq<char>) -> bool {
    |path: Seq<char>|
        b.records.contains_key(path) && a.records[path].comparison_value()
            != b.records[path].comparison_value()
}

impl Diff {
    /// The difference that lists nothing.
    pub open spec fn empty() -> Diff {
        Diff { only_in_a: Seq::empty(), only_in_b: Seq::empty(), differs: Seq::empty() }
    }

    /// The difference between tree `a` and tree `b`. Each list keeps the order
    /// of the tree it is drawn from: `only_in_a` and `differs` that of `a`,
    /// `only_in_b` that of `b`.
    pub open spec fn between(a: Tree, b: Tree) -> Diff {
        Diff {
            only_in_a: a.paths.filter(missing_from(b)),
            only_in_b: b.paths.filter(missing_from(a)),
            differs: a.paths.filter(differs_between(a, b)),
        }
    }
}

/// The difference between two directory trees, as lists of relative paths.
pub struct CmpResult {
    pub only_in_a: Vec<String>,
    pub only_in_b: Vec<String>,
    pub differs: Vec<String>,
}

impl View for CmpResult {
    type V = Diff;

    open spec fn view(&self) -> Diff {
        Diff {
            only_in_a: path_views(self.only_in_a@),
            only_in_b: path_views(self.only_in_b@),
            differs: path_views(self.differs@),
        }
    }
}

impl CmpResult {
    /// The difference that lists nothing.
    pub fn new() -> (result: CmpResult)
        ensures
            result@ == Diff::empty(),
    {
        let result = CmpResult {
            only_in_a: Vec::new(),
            only_in_b: Vec::new(),
            differs: Vec::new(),
        };
        proof {
            assert(path_views(result.only_in_a@) =~= Seq::empty());
            assert(path_views(result.only_in_b@) =~= Seq::empty());
            assert(path_views(result.differs@) =~= Seq::empty());
        }
        result
    }
}

/// The text by which a fingerprint is compared.
fn comparison_value(hash: crate::fingerprint::Hash) -> (value: String)
    ensures
        value@ == hash@.comparison_value(),
{
    match hash {
        crate::fingerprint::Hash::Valid { hash } => hash,
        crate::fingerprint::Hash::Invalid { error } => error,
    }
}

/// Reconciles the mappings of two scans. A path of `a` that `b` lacks is only
/// in A; one that both have differs where the comparison values of its two
/// fingerprints are unequal; a path of `b` that `a` lacks is only in B.
/// Neither mapping is changed, and every pair of mappings has a result.
pub fn dirdiff(a: &TreeMapping, b: &TreeMapping) -> (result: CmpResult)
    ensures
        result@ == Diff::between(a@, b@),
{
    let mut result = CmpResult::new();
    let paths_a = a.paths();
    let paths_b = b.paths();
    let mut i: usize = 0;
    while i < paths_a.len()
        invariant
            i <= paths_a.len(),
            a@.wf(),
            path_views(paths_a@) == a@.paths,
            path_views(result.only_in_a@) == a@.paths.take(i as int).filter(missing_from(b@)),
            path_views(result.differs@) == a@.paths.take(i as int).filter(
                differs_between(a@, b@),
            ),
            result.only_in_b@.len() == 0,
        decreases paths_a.len() - i,
    {
        let path = &paths_a[i];
        proof {
            let seen = a@.paths.take(i as int);
            assert(a@.paths.take(i + 1) =~= seen.push(path@));
            seen.lemma_filter_push(path@, missing_from(b@));
            seen.lemma_filter_push(path@, differs_between(a@, b@));
            assert(a@.paths[i as int] == path@);
        }
        if b.contains_key(path.as_str()) {
            let info_b = b.get(path.as_str()).unwrap();
            let info_a = a.get(path.as_str()).unwrap();
            let value_a = comparison_value(info_a.get_hash());
            let value_b = comparison_value(info_b.get_hash());
            if value_a != value_b {
                result.differs.push(path.clone());
            }
        } else {
            result.only_in_a.push(path.clone());
        }
        i += 1;
    }
    proof {
        assert(a@.paths.take(paths_a.len() as int) =~= a@.paths);
    }
    let mut j: usize = 0;
    while j < paths_b.len()
        invariant
            j <= paths_b.len(),
            path_views(paths_b@) == b@.paths,
            path_views(result.only_in_a@) == a@.paths.filter(missing_from(b@)),
            path_views(result.differs@) == a@.paths.filter(differs_between(a@, b@)),
            path_views(result.only_in_b@) == b@.paths.take(j as int).filter(missing_from(a@)),
        decreases paths_b.len() - j,
    {
        let path = &paths_b[j];
        proof {
            let seen = b@.paths.take(j as int);
            assert(b@.paths.take(j + 1) =~= seen.push(path@));
            seen.lemma_filter_push(path@, missing_from(a@));
        }
        if !a.contains_key(path.as_str()) {
            result.only_in_b.push(path.clone());
        }
        j += 1;
    }
    proof {
        assert(b@.paths.take(paths_b.len() as int) =~= b@.paths);
    }
    result
}

} // verus!
