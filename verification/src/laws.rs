//! What holds of every comparison, proved from the definitions that the
//! contracts of [`crate::tree::process_directory`] and
//! [`crate::reconcile::dirdiff`] are stated in.

use crate::digest::{lemma_lower_hex_injective, lower_hex, md5_digest};
use crate::fingerprint::Fingerprint;
use crate::reconcile::{differs_between, missing_from, Diff};
use crate::tree::{lemma_scan_distinct, lemma_scan_wf, record_paths, Tree};
use vstd::prelude::*;

verus! {

/// What reading each file of a directory tree gave, by relative path: the
/// contents of the file, or the description of the failure to read it.
pub type Files = Map<Seq<char>, Result<Seq<u8>, Seq<char>>>;

/// Holds where `records` are the records of a scan of `files`: one record for
/// each file, in any order, with the fingerprint of what reading it gave.
pub open spec fn is_scan_of(records: Seq<(Seq<char>, Fingerprint)>, files: Files) -> bool {
    &&& record_paths(records).no_duplicates()
    &&& record_paths(records).to_set() == files.dom()
    &&& forall|i: int|
        0 <= i < records.len() ==> (#[trigger] records[i]).1 == Fingerprint::of_read(
            files[records[i].0],
        )
}

/// The three lists of a difference, read as sets: which paths each of them
/// holds. None of them holds a path twice.
pub proof fn lemma_diff_members(a: Tree, b: Tree)
    requires
        a.wf(),
        b.wf(),
    ensures
        Diff::between(a, b).only_in_a.no_duplicates(),
        Diff::between(a, b).only_in_b.no_duplicates(),
        Diff::between(a, b).differs.no_duplicates(),
        forall|path: Seq<char>| #[trigger]
            Diff::between(a, b).only_in_a.contains(path) <==> a.records.contains_key(path)
                && !b.records.contains_key(path),
        forall|path: Seq<char>| #[trigger]
            Diff::between(a, b).only_in_b.contains(path) <==> b.records.contains_key(path)
                && !a.records.contains_key(path),
        forall|path: Seq<char>| #[trigger]
            Diff::between(a, b).differs.contains(path) <==> a.records.contains_key(path)
                && b.records.contains_key(path) && a.records[path].comparison_value()
                != b.records[path].comparison_value(),
{
    lemma_filter_members(a.paths, missing_from(b));
    lemma_filter_members(b.paths, missing_from(a));
    lemma_filter_members(a.paths, differs_between(a, b));
    assert forall|path: Seq<char>| a.paths.contains(path) == a.records.contains_key(path) by {
        assert(a.paths.to_set().contains(path) == a.records.dom().contains(path));
    }
    assert forall|path: Seq<char>| b.paths.contains(path) == b.records.contains_key(path) by {
        assert(b.paths.to_set().contains(path) == b.records.dom().contains(path));
    }
}

/// Two trees with the same files and the same fingerprint for each have an
/// empty difference, in whatever order the two scans met the files.
pub proof fn lemma_identical_trees(a: Tree, b: Tree)
    requires
        a.wf(),
        b.wf(),
        a.records == b.records,
    ensures
        Diff::between(a, b) == Diff::empty(),
{
    lemma_diff_members(a, b);
    let diff = Diff::between(a, b);
    if diff.only_in_a.len() > 0 {
        assert(diff.only_in_a.contains(diff.only_in_a[0]));
    }
    if diff.only_in_b.len() > 0 {
        assert(diff.only_in_b.contains(diff.only_in_b[0]));
    }
    if diff.differs.len() > 0 {
        assert(diff.differs.contains(diff.differs[0]));
    }
    assert(diff.only_in_a =~= Seq::empty());
    assert(diff.only_in_b =~= Seq::empty());
    assert(diff.differs =~= Seq::empty());
}

/// The tree built from a scan has a record for each file and for nothing
/// else, and the record of a file is the fingerprint of what reading it gave,
/// whatever the order of the scan.
pub proof fn lemma_scan_of_files(records: Seq<(Seq<char>, Fingerprint)>, files: Files)
    requires
        is_scan_of(records, files),
    ensures
        Tree::scan(records).wf(),
        Tree::scan(records).records == files.map_values(
            |read: Result<Seq<u8>, Seq<char>>| Fingerprint::of_read(read),
        ),
{
    let tree = Tree::scan(records);
    let expected = files.map_values(|read: Result<Seq<u8>, Seq<char>>| Fingerprint::of_read(read));
    lemma_scan_wf(records);
    lemma_scan_distinct(records);
    assert(tree.records.dom() =~= expected.dom());
    assert forall|path: Seq<char>| tree.records.contains_key(path) implies tree.records[path]
        == expected[path] by {
        assert(record_paths(records).to_set().contains(path));
        let i = choose|i: int| 0 <= i < records.len() && record_paths(records)[i] == path;
        assert(records[i].0 == path);
    }
    assert(tree.records =~= expected);
}

/// Two scans of identical directory trees, with the same relative paths and
/// the same outcome of reading each file, have an empty difference.
pub proof fn lemma_identical_files(
    scan_a: Seq<(Seq<char>, Fingerprint)>,
    scan_b: Seq<(Seq<char>, Fingerprint)>,
    files: Files,
)
    requires
        is_scan_of(scan_a, files),
        is_scan_of(scan_b, files),
    ensures
        Diff::between(Tree::scan(scan_a), Tree::scan(scan_b)) == Diff::empty(),
{
    lemma_scan_of_files(scan_a, files);
    lemma_scan_of_files(scan_b, files);
    lemma_identical_trees(Tree::scan(scan_a), Tree::scan(scan_b));
}

/// A file that only the first tree has is listed as only in A, and in
/// neither of the other two lists.
pub proof fn lemma_only_in_first(a: Tree, b: Tree, path: Seq<char>)
    requires
        a.wf(),
        b.wf(),
        a.records.contains_key(path),
        !b.records.contains_key(path),
    ensures
        Diff::between(a, b).only_in_a.contains(path),
        !Diff::between(a, b).only_in_b.contains(path),
        !Diff::between(a, b).differs.contains(path),
{
    lemma_diff_members(a, b);
}

/// A file that only the second tree has is listed as only in B, and in
/// neither of the other two lists.
pub proof fn lemma_only_in_second(a: Tree, b: Tree, path: Seq<char>)
    requires
        a.wf(),
        b.wf(),
        !a.records.contains_key(path),
        b.records.contains_key(path),
    ensures
        Diff::between(a, b).only_in_b.contains(path),
        !Diff::between(a, b).only_in_a.contains(path),
        !Diff::between(a, b).differs.contains(path),
{
    lemma_diff_members(a, b);
}

/// A file that both trees have, read in both, whose contents have different
/// MD5 digests in the two, is listed as differing and in neither of the other
/// two lists. Contents that differ but share their digest are not told
/// apart.
pub proof fn lemma_changed_contents(
    a: Tree,
    b: Tree,
    path: Seq<char>,
    contents_a: Seq<u8>,
    contents_b: Seq<u8>,
)
    requires
        a.wf(),
        b.wf(),
        a.records.contains_key(path),
        b.records.contains_key(path),
        a.records[path] == Fingerprint::of_contents(contents_a),
        b.records[path] == Fingerprint::of_contents(contents_b),
        md5_digest(contents_a) != md5_digest(contents_b),
    ensures
        Diff::between(a, b).differs.contains(path),
        !Diff::between(a, b).only_in_a.contains(path),
        !Diff::between(a, b).only_in_b.contains(path),
{
    lemma_diff_members(a, b);
    if lower_hex(md5_digest(contents_a)) == lower_hex(md5_digest(contents_b)) {
        lemma_lower_hex_injective(md5_digest(contents_a), md5_digest(contents_b));
    }
}

/// Comparing in the other direction mirrors the result: what was only in A
/// is then only in B and the reverse, list for list, and the same paths
/// differ.
pub proof fn lemma_mirror(a: Tree, b: Tree)
    requires
        a.wf(),
        b.wf(),
    ensures
        Diff::between(a, b).only_in_a == Diff::between(b, a).only_in_b,
        Diff::between(a, b).only_in_b == Diff::between(b, a).only_in_a,
        Diff::between(a, b).differs.to_set() == Diff::between(b, a).differs.to_set(),
{
    lemma_diff_members(a, b);
    lemma_diff_members(b, a);
    assert(Diff::between(a, b).differs.to_set() =~= Diff::between(b, a).differs.to_set());
}

/// Against a tree without files, every file of the other tree is only in
/// that tree, in the order of its scan, and nothing differs.
pub proof fn lemma_empty_tree(tree: Tree)
    requires
        tree.wf(),
    ensures
        Diff::between(Tree::empty(), tree) == (Diff {
            only_in_a: Seq::empty(),
            only_in_b: tree.paths,
            differs: Seq::empty(),
        }),
        Diff::between(tree, Tree::empty()) == (Diff {
            only_in_a: tree.paths,
            only_in_b: Seq::empty(),
            differs: Seq::empty(),
        }),
{
    lemma_keep_all(tree.paths, missing_from(Tree::empty()));
    lemma_keep_none(tree.paths, differs_between(tree, Tree::empty()));
    assert(Tree::empty().paths.filter(missing_from(tree)) =~= Seq::empty());
    assert(Tree::empty().paths.filter(differs_between(Tree::empty(), tree)) =~= Seq::empty());
}

/// A list without repetitions has none after filtering, and the filtered
/// list holds exactly those of its items that meet the predicate.
proof fn lemma_filter_members<A>(list: Seq<A>, keep: spec_fn(A) -> bool)
    requires
        list.no_duplicates(),
    ensures
        list.filter(keep).no_duplicates(),
        forall|item: A| #[trigger]
            list.filter(keep).contains(item) <==> list.contains(item) && keep(item),
    decreases list.len(),
{
    reveal(Seq::filter);
    if list.len() > 0 {
        let front = list.drop_last();
        let last = list.last();
        let kept = front.filter(keep);
        lemma_filter_members(front, keep);
        lemma_push_members(front, last);
        assert(front.push(last) =~= list);
        if keep(last) {
            lemma_push_members(kept, last);
        }
    }
}

/// The items of a list with one more at its end are those of the list and
/// the new one; if the new one was not among them and none came twice, none
/// comes twice after.
proof fn lemma_push_members<A>(list: Seq<A>, item: A)
    ensures
        forall|other: A| #[trigger]
            list.push(item).contains(other) <==> list.contains(other) || other == item,
        list.no_duplicates() && !list.contains(item) ==> list.push(item).no_duplicates(),
{
    let longer = list.push(item);
    assert forall|other: A| #[trigger] longer.contains(other) <==> list.contains(other) || other
        == item by {
        if list.contains(other) {
            let i = choose|i: int| 0 <= i < list.len() && list[i] == other;
            assert(longer[i] == other);
        }
        assert(longer[list.len() as int] == item);
    }
    if list.no_duplicates() && !list.contains(item) {
        assert forall|i: int, j: int|
            0 <= i < longer.len() && 0 <= j < longer.len() && i != j implies longer[i]
            != longer[j] by {
            if i < list.len() {
                assert(list.contains(list[i]));
            }
            if j < list.len() {
                assert(list.contains(list[j]));
            }
        }
    }
}

/// Filtering by a predicate that every item meets changes nothing.
proof fn lemma_keep_all<A>(list: Seq<A>, keep: spec_fn(A) -> bool)
    requires
        forall|i: int| 0 <= i < list.len() ==> keep(#[trigger] list[i]),
    ensures
        list.filter(keep) == list,
    decreases list.len(),
{
    reveal(Seq::filter);
    if list.len() > 0 {
        lemma_keep_all(list.drop_last(), keep);
        assert(list.drop_last().push(list.last()) =~= list);
    }
}

/// Filtering by a predicate that no item meets leaves nothing.
proof fn lemma_keep_none<A>(list: Seq<A>, keep: spec_fn(A) -> bool)
    requires
        forall|i: int| 0 <= i < list.len() ==> !keep(#[trigger] list[i]),
    ensures
        list.filter(keep) == Seq::<A>::empty(),
    decreases list.len(),
{
    reveal(Seq::filter);
    if list.len() > 0 {
        lemma_keep_none(list.drop_last(), keep);
    }
}

} // verus!
