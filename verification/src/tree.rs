//! The mapping that one scan of a directory tree builds: from the path of each
//! file, relative to the scanned root, to the fingerprint of that file.

use crate::fingerprint::Fingerprint;
use vstd::hash_map::StringHashMap;
use vstd::prelude::*;

verus! {

/// What a [`TreeMapping`] stands for.
pub struct Tree {
    /// The relative paths of the files, each once, in the order in which the
    /// scan first met them.
    pub paths: Seq<Seq<char>>,
    /// The fingerprint recorded for each of those paths.
    pub records: Map<Seq<char>, Fingerprint>,
}

impl Tree {
    /// The tree without files: what the scan of an empty or missing directory
    /// yields.
    pub open spec fn empty() -> Tree {
        Tree { paths: Seq::empty(), records: Map::empty() }
    }

    /// No path is listed twice, and the listed paths are exactly those with a
    /// record.
    pub open spec fn wf(self) -> bool {
        &&& self.paths.no_duplicates()
        &&& self.paths.to_set() == self.records.dom()
    }

    /// The tree after one more record. A path that is new goes to the end of
    /// the list; for one already there the new fingerprint replaces the old.
    pub open spec fn insert(self, path: Seq<char>, fingerprint: Fingerprint) -> Tree {
        Tree {
            paths: if self.records.contains_key(path) {
                self.paths
            } else {
                self.paths.push(path)
            },
            records: self.records.insert(path, fingerprint),
        }
    }

    /// The tree that a scan builds from its records, taken in order.
    pub open spec fn scan(records: Seq<(Seq<char>, Fingerprint)>) -> Tree
        decreases records.len(),
    {
        if records.len() == 0 {
            Tree::empty()
        } else {
            Tree::scan(records.drop_last()).insert(records.last().0, records.last().1)
        }
    }
}

/// One more record keeps a tree well formed.
pub proof fn lemma_insert_wf(tree: Tree, path: Seq<char>, fingerprint: Fingerprint)
    requires
        tree.wf(),
    ensures
        tree.insert(path, fingerprint).wf(),
{
    let after = tree.insert(path, fingerprint);
    assert(tree.paths.to_set().contains(path) == tree.records.contains_key(path));
    if !tree.records.contains_key(path) {
        assert forall|p: Seq<char>| after.paths.contains(p) <==> tree.paths.contains(p) || p
            == path by {
            if tree.paths.contains(p) {
                let i = choose|i: int| 0 <= i < tree.paths.len() && tree.paths[i] == p;
                assert(after.paths[i] == p);
            }
            assert(after.paths[tree.paths.len() as int] == path);
        }
    }
    assert(after.paths.to_set() =~= tree.paths.to_set().insert(path));
}

/// Whatever the records are, the tree built from them is well formed.
pub proof fn lemma_scan_wf(records: Seq<(Seq<char>, Fingerprint)>)
    ensures
        Tree::scan(records).wf(),
    decreases records.len(),
{
    if records.len() == 0 {
        assert(Tree::empty().paths.to_set() =~= Tree::empty().records.dom());
    } else {
        lemma_scan_wf(records.drop_last());
        lemma_insert_wf(Tree::scan(records.drop_last()), records.last().0, records.last().1);
    }
}

/// The paths of a list of records, in order.
pub open spec fn record_paths(records: Seq<(Seq<char>, Fingerprint)>) -> Seq<Seq<char>> {
    records.map_values(|record: (Seq<char>, Fingerprint)| record.0)
}

/// Where no two records share a path, as in the scan of a directory, the
/// tree lists the paths of the records in their order and holds for each
/// path the fingerprint that came with it.
pub proof fn lemma_scan_distinct(records: Seq<(Seq<char>, Fingerprint)>)
    requires
        record_paths(records).no_duplicates(),
    ensures
        Tree::scan(records).paths == record_paths(records),
        forall|i: int|
            0 <= i < records.len() ==> Tree::scan(records).records.contains_key(
                (#[trigger] records[i]).0,
            ) && Tree::scan(records).records[records[i].0] == records[i].1,
    decreases records.len(),
{
    if records.len() > 0 {
        let front = records.drop_last();
        let last = records.last();
        let before = Tree::scan(front);
        assert(record_paths(front) =~= record_paths(records).drop_last());
        lemma_scan_distinct(front);
        lemma_scan_wf(front);
        assert(!before.records.contains_key(last.0)) by {
            if before.paths.to_set().contains(last.0) {
                let i = choose|i: int| 0 <= i < before.paths.len() && before.paths[i] == last.0;
                assert(record_paths(records)[i] == record_paths(records)[records.len() - 1]);
            }
        }
        let tree = Tree::scan(records);
        assert forall|i: int| 0 <= i < records.len() implies tree.records.contains_key(
            (#[trigger] records[i]).0,
        ) && tree.records[records[i].0] == records[i].1 by {
            if i < front.len() {
                assert(front[i] == records[i]);
            }
        }
    }
}

/// The record kept for one file of a scan.
#[derive(Debug)]
pub struct FileInfo {
    hash: crate::fingerprint::Hash,
}

impl View for FileInfo {
    type V = Fingerprint;

    closed spec fn view(&self) -> Fingerprint {
        self.hash@
    }
}

impl FileInfo {
    /// A copy of the file's fingerprint.
    pub fn get_hash(&self) -> (hash: crate::fingerprint::Hash)
        ensures
            hash@ == self@,
    {
        self.hash.clone()
    }
}

/// The texts of a list of paths.
pub open spec fn path_views(paths: Seq<String>) -> Seq<Seq<char>> {
    paths.map_values(|path: String| path@)
}

/// The records of a scan as the model sees them: each path's text with the
/// fingerprint that came with it.
pub open spec fn record_views(records: Seq<(String, crate::fingerprint::Hash)>) -> Seq<
    (Seq<char>, Fingerprint),
> {
    records.map_values(|record: (String, crate::fingerprint::Hash)| (record.0@, record.1@))
}

/// The outcome of one scan: the files of a directory tree by relative path,
/// each with its record. Paths are unique; the order in which the scan met
/// them is kept.
pub struct TreeMapping {
    paths: Vec<String>,
    records: StringHashMap<FileInfo>,
}

impl View for TreeMapping {
    type V = Tree;

    closed spec fn view(&self) -> Tree {
        Tree {
            paths: path_views(self.paths@),
            records: self.records@.map_values(|info: FileInfo| info@),
        }
    }
}

impl TreeMapping {
    #[verifier::type_invariant]
    spec fn well_formed(&self) -> bool {
        self@.wf()
    }

    /// The paths of the mapping, each once, in the order of the scan.
    pub fn paths(&self) -> (paths: &Vec<String>)
        ensures
            path_views(paths@) == self@.paths,
            self@.wf(),
    {
        proof {
            use_type_invariant(self);
        }
        &self.paths
    }

    /// Whether the scan found a file at `path`.
    pub fn contains_key(&self, path: &str) -> (found: bool)
        ensures
            found == self@.records.contains_key(path@),
    {
        self.records.contains_key(path)
    }

    /// The record of the file at `path`, if the scan found one.
    pub fn get(&self, path: &str) -> (info: Option<&FileInfo>)
        ensures
            match info {
                Some(info) => self@.records.contains_key(path@) && info@ == self@.records[path@],
                None => !self@.records.contains_key(path@),
            },
    {
        self.records.get(path)
    }
}

/// Collects the records of one scan into a mapping. Each record is the path
/// of a file relative to the scanned root and the fingerprint of that file.
/// Should a path come twice, the mapping keeps its first place and its last
/// fingerprint.
pub fn process_directory(records: Vec<(String, crate::fingerprint::Hash)>) -> (tree: TreeMapping)
    ensures
        tree@ == Tree::scan(record_views(records@)),
        tree@.wf(),
{
    let ghost all = record_views(records@);
    let mut paths: Vec<String> = Vec::new();
    let mut index: StringHashMap<FileInfo> = StringHashMap::new();
    proof {
        assert(index@.map_values(|info: FileInfo| info@) =~= Map::empty());
        assert(path_views(paths@) =~= Seq::empty());
    }
    for record in it: records.into_iter()
        invariant
            it.seq() == records@,
            all == record_views(records@),
            (Tree {
                paths: path_views(paths@),
                records: index@.map_values(|info: FileInfo| info@),
            }) == Tree::scan(all.take(it.index() as int)),
    {
        let ghost before = Tree::scan(all.take(it.index() as int));
        let (path, hash) = record;
        if !index.contains_key(path.as_str()) {
            paths.push(path.clone());
        }
        let ghost fingerprint = hash@;
        let ghost text = path@;
        index.insert(path, FileInfo { hash });
        proof {
            let next = all.take(it.index() + 1);
            assert(next.drop_last() =~= all.take(it.index() as int));
            assert(index@.map_values(|info: FileInfo| info@) =~= before.records.insert(
                text,
                fingerprint,
            ));
            assert(path_views(paths@) =~= before.insert(text, fingerprint).paths);
        }
    }
    proof {
        assert(all.take(all.len() as int) =~= all);
        lemma_scan_wf(all);
    }
    TreeMapping { paths, records: index }
}

} // verus!
