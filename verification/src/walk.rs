//! What a scan keeps of the walk of a directory tree: the regular files below
//! the root, and nothing else.

use crate::tree::path_views;
use vstd::prelude::*;

verus! {

/// One entry that the walk of a directory tree reported.
pub struct WalkEntry {
    /// The path of the entry, relative to the root of the walk.
    pub path: String,
    /// How far below the root the entry lies: 0 for the root itself, 1 for
    /// what the root holds, and so on.
    pub depth: usize,
    /// Whether the entry is a regular file: not a directory, a symbolic link
    /// or a special file.
    pub is_file: bool,
}

/// Holds of the entries that a scan keeps: the regular files below the root.
/// A report of `None` stands for an entry that could not be visited, and is
/// passed over; so is the root itself, whatever it is.
pub open spec fn is_kept(report: Option<WalkEntry>) -> bool {
    report matches Some(entry) && entry.is_file && entry.depth > 0
}

/// The reports of a walk that a scan keeps, in the order of the walk.
pub open spec fn kept_of(walk: Seq<Option<WalkEntry>>) -> Seq<Option<WalkEntry>> {
    walk.filter(|report: Option<WalkEntry>| is_kept(report))
}

/// The relative paths of the files that a scan keeps of a walk, in the order
/// of the walk.
pub open spec fn files_of(walk: Seq<Option<WalkEntry>>) -> Seq<Seq<char>> {
    kept_of(walk).map_values(|report: Option<WalkEntry>| report->0.path@)
}

/// Selects from the reports of a walk the files to fingerprint, by relative
/// path. A root that does not exist, or that is not a directory, leaves
/// nothing to select.
pub fn select_files(walk: Vec<Option<WalkEntry>>) -> (files: Vec<String>)
    ensures
        path_views(files@) == files_of(walk@),
{
    let mut files: Vec<String> = Vec::new();
    for report in it: walk.into_iter()
        invariant
            it.seq() == walk@,
            path_views(files@) == files_of(walk@.take(it.index() as int)),
    {
        let ghost seen = walk@.take(it.index() as int);
        let ghost before = path_views(files@);
        proof {
            assert(walk@.take(it.index() + 1) =~= seen.push(report));
            assert(kept_of(seen.push(report)) == if is_kept(report) {
                kept_of(seen).push(report)
            } else {
                kept_of(seen)
            }) by {
                reveal(Seq::filter);
                assert(seen.push(report).drop_last() =~= seen);
            }
        }
        match report {
            Some(entry) => {
                if entry.is_file && entry.depth > 0 {
                    files.push(entry.path);
                    proof {
                        assert(path_views(files@) =~= before.push(entry.path@));
                        assert(files_of(seen.push(report)) =~= files_of(seen).push(entry.path@));
                    }
                }
            },
            None => {},
        }
    }
    proof {
        assert(walk@.take(walk@.len() as int) =~= walk@);
    }
    files
}

/// A walk that reports no regular file below its root leaves no file to
/// select. Such is a walk whose only report is of a root that could not be
/// visited, and such is one that reports directories alone.
pub proof fn lemma_nothing_kept(walk: Seq<Option<WalkEntry>>)
    requires
        forall|i: int| 0 <= i < walk.len() ==> !is_kept(#[trigger] walk[i]),
    ensures
        files_of(walk) == Seq::<Seq<char>>::empty(),
    decreases walk.len(),
{
    reveal(Seq::filter);
    if walk.len() > 0 {
        lemma_nothing_kept(walk.drop_last());
    }
    assert(files_of(walk) =~= Seq::empty());
}

/// Of a walk that reports its root alone nothing is selected: whether the
/// root could not be visited, as one that does not exist, or is a directory
/// without entries, or is no directory at all.
pub proof fn lemma_root_alone(root: WalkEntry)
    requires
        root.depth == 0,
    ensures
        files_of(seq![None]) == Seq::<Seq<char>>::empty(),
        files_of(seq![Some(root)]) == Seq::<Seq<char>>::empty(),
{
    lemma_nothing_kept(seq![None]);
    lemma_nothing_kept(seq![Some(root)]);
}

/// A file is selected exactly if the walk reports it as a regular file below
/// the root.
pub proof fn lemma_selected(walk: Seq<Option<WalkEntry>>, path: Seq<char>)
    ensures
        files_of(walk).contains(path) <==> exists|i: int|
            0 <= i < walk.len() && is_kept(#[trigger] walk[i]) && walk[i]->0.path@ == path,
{
    let keep = |report: Option<WalkEntry>| is_kept(report);
    let kept = kept_of(walk);
    if files_of(walk).contains(path) {
        let k = choose|k: int| 0 <= k < files_of(walk).len() && files_of(walk)[k] == path;
        walk.lemma_filter_pred(keep, k);
        walk.lemma_filter_contains_rev(keep, kept[k]);
        let i = choose|i: int| 0 <= i < walk.len() && walk[i] == kept[k];
        assert(is_kept(walk[i]) && walk[i]->0.path@ == path);
    }
    if exists|i: int|
        0 <= i < walk.len() && is_kept(#[trigger] walk[i]) && walk[i]->0.path@ == path {
        let i = choose|i: int|
            0 <= i < walk.len() && is_kept(#[trigger] walk[i]) && walk[i]->0.path@ == path;
        walk.lemma_filter_contains(keep, i);
        let k = choose|k: int| 0 <= k < kept.len() && kept[k] == walk[i];
        assert(files_of(walk)[k] == path);
    }
}

} // verus!
