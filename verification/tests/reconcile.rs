use dirdiff::{dirdiff, process_directory, CmpResult, TreeMapping};

fn read(contents: &str) -> dirdiff::fingerprint::Hash {
    dirdiff::fingerprint::Hash::new(Ok(contents.as_bytes().to_vec()))
}

fn unreadable(reason: &str) -> dirdiff::fingerprint::Hash {
    dirdiff::fingerprint::Hash::new(Err(reason.to_string()))
}

fn tree(files: &[(&str, &str)]) -> TreeMapping {
    process_directory(
        files.iter().map(|(path, contents)| (path.to_string(), read(contents))).collect(),
    )
}

fn sorted(paths: &[String]) -> Vec<String> {
    let mut paths = paths.to_vec();
    paths.sort();
    paths
}

fn none() -> Vec<String> {
    Vec::new()
}

#[test]
fn new_result_is_empty() {
    let result = CmpResult::new();
    assert_eq!(result.only_in_a, none());
    assert_eq!(result.only_in_b, none());
    assert_eq!(result.differs, none());
}

#[test]
fn same_file_same_contents() {
    let result = dirdiff(&tree(&[("x.txt", "hello")]), &tree(&[("x.txt", "hello")]));
    assert_eq!(result.only_in_a, none());
    assert_eq!(result.only_in_b, none());
    assert_eq!(result.differs, none());
}

#[test]
fn same_file_other_contents() {
    let result = dirdiff(&tree(&[("x.txt", "hello")]), &tree(&[("x.txt", "world")]));
    assert_eq!(result.only_in_a, none());
    assert_eq!(result.only_in_b, none());
    assert_eq!(result.differs, vec!["x.txt"]);
}

#[test]
fn no_file_in_common() {
    let result = dirdiff(&tree(&[("a.txt", "left")]), &tree(&[("b.txt", "right")]));
    assert_eq!(result.only_in_a, vec!["a.txt"]);
    assert_eq!(result.only_in_b, vec!["b.txt"]);
    assert_eq!(result.differs, none());
}

#[test]
fn no_file_in_common_even_with_equal_contents() {
    let result = dirdiff(&tree(&[("a.txt", "same")]), &tree(&[("b.txt", "same")]));
    assert_eq!(result.only_in_a, vec!["a.txt"]);
    assert_eq!(result.only_in_b, vec!["b.txt"]);
    assert_eq!(result.differs, none());
}

#[test]
fn nested_file_same_contents() {
    let result = dirdiff(&tree(&[("sub/y.txt", "nested")]), &tree(&[("sub/y.txt", "nested")]));
    assert_eq!(result.only_in_a, none());
    assert_eq!(result.only_in_b, none());
    assert_eq!(result.differs, none());
}

#[test]
fn nested_file_is_not_the_file_of_that_name_above() {
    let result = dirdiff(&tree(&[("sub/y.txt", "nested")]), &tree(&[("y.txt", "nested")]));
    assert_eq!(result.only_in_a, vec!["sub/y.txt"]);
    assert_eq!(result.only_in_b, vec!["y.txt"]);
    assert_eq!(result.differs, none());
}

#[test]
fn identical_trees_have_no_difference() {
    let files = [("a", "1"), ("b/c", "2"), ("b/d/e", "3"), ("f", "")];
    let result = dirdiff(&tree(&files), &tree(&files));
    assert_eq!(result.only_in_a, none());
    assert_eq!(result.only_in_b, none());
    assert_eq!(result.differs, none());
}

#[test]
fn identical_trees_scanned_in_another_order_have_no_difference() {
    let a = tree(&[("a", "1"), ("b/c", "2"), ("b/d/e", "3")]);
    let b = tree(&[("b/d/e", "3"), ("a", "1"), ("b/c", "2")]);
    let result = dirdiff(&a, &b);
    assert_eq!(result.only_in_a, none());
    assert_eq!(result.only_in_b, none());
    assert_eq!(result.differs, none());
}

#[test]
fn empty_trees_have_no_difference() {
    let result = dirdiff(&tree(&[]), &tree(&[]));
    assert_eq!(result.only_in_a, none());
    assert_eq!(result.only_in_b, none());
    assert_eq!(result.differs, none());
}

#[test]
fn against_an_empty_tree_everything_is_on_one_side() {
    let files = [("a", "1"), ("b/c", "2"), ("d", "3")];
    let left = dirdiff(&tree(&files), &tree(&[]));
    assert_eq!(left.only_in_a, vec!["a", "b/c", "d"]);
    assert_eq!(left.only_in_b, none());
    assert_eq!(left.differs, none());
    let right = dirdiff(&tree(&[]), &tree(&files));
    assert_eq!(right.only_in_a, none());
    assert_eq!(right.only_in_b, vec!["a", "b/c", "d"]);
    assert_eq!(right.differs, none());
}

#[test]
fn file_only_in_first_is_listed_there_alone() {
    let a = tree(&[("shared", "s"), ("mine", "m")]);
    let b = tree(&[("shared", "s")]);
    let result = dirdiff(&a, &b);
    assert_eq!(result.only_in_a, vec!["mine"]);
    assert!(!result.only_in_b.contains(&"mine".to_string()));
    assert!(!result.differs.contains(&"mine".to_string()));
}

#[test]
fn file_only_in_second_is_listed_there_alone() {
    let a = tree(&[("shared", "s")]);
    let b = tree(&[("shared", "s"), ("theirs", "t")]);
    let result = dirdiff(&a, &b);
    assert_eq!(result.only_in_b, vec!["theirs"]);
    assert!(!result.only_in_a.contains(&"theirs".to_string()));
    assert!(!result.differs.contains(&"theirs".to_string()));
}

#[test]
fn changed_file_is_listed_as_differing_alone() {
    let a = tree(&[("kept", "k"), ("changed", "v1")]);
    let b = tree(&[("kept", "k"), ("changed", "v2")]);
    let result = dirdiff(&a, &b);
    assert_eq!(result.differs, vec!["changed"]);
    assert_eq!(result.only_in_a, none());
    assert_eq!(result.only_in_b, none());
}

#[test]
fn every_kind_of_difference_at_once() {
    let a = tree(&[("gone", "g"), ("same", "s"), ("changed", "v1"), ("sub/gone", "g")]);
    let b = tree(&[("new", "n"), ("changed", "v2"), ("same", "s"), ("sub/new", "n")]);
    let result = dirdiff(&a, &b);
    assert_eq!(result.only_in_a, vec!["gone", "sub/gone"]);
    assert_eq!(result.only_in_b, vec!["new", "sub/new"]);
    assert_eq!(result.differs, vec!["changed"]);
}

#[test]
fn lists_keep_the_order_of_their_tree() {
    let a = tree(&[("c", "1"), ("a", "1"), ("b", "1"), ("z", "1"), ("y", "1")]);
    let b = tree(&[("y", "2"), ("q", "2"), ("c", "2"), ("p", "2")]);
    let result = dirdiff(&a, &b);
    assert_eq!(result.only_in_a, vec!["a", "b", "z"]);
    assert_eq!(result.only_in_b, vec!["q", "p"]);
    assert_eq!(result.differs, vec!["c", "y"]);
}

#[test]
fn swapping_the_trees_mirrors_the_result() {
    let a = tree(&[("gone", "g"), ("same", "s"), ("changed", "v1"), ("other", "o1")]);
    let b = tree(&[("other", "o2"), ("new", "n"), ("changed", "v2"), ("same", "s")]);
    let forward = dirdiff(&a, &b);
    let backward = dirdiff(&b, &a);
    assert_eq!(forward.only_in_a, backward.only_in_b);
    assert_eq!(forward.only_in_b, backward.only_in_a);
    assert_eq!(sorted(&forward.differs), sorted(&backward.differs));
    assert_eq!(forward.differs, vec!["changed", "other"]);
    assert_eq!(backward.differs, vec!["other", "changed"]);
}

#[test]
fn no_path_is_listed_twice() {
    let a = process_directory(vec![
        ("dup".to_string(), read("1")),
        ("dup".to_string(), read("2")),
        ("lone".to_string(), read("3")),
        ("lone".to_string(), read("3")),
    ]);
    let b = process_directory(vec![("dup".to_string(), read("1"))]);
    let result = dirdiff(&a, &b);
    assert_eq!(result.differs, vec!["dup"]);
    assert_eq!(result.only_in_a, vec!["lone"]);
    assert_eq!(result.only_in_b, none());
}

#[test]
fn unreadable_in_both_with_one_reason_is_no_difference() {
    let a = process_directory(vec![("locked".to_string(), unreadable("Permission denied"))]);
    let b = process_directory(vec![("locked".to_string(), unreadable("Permission denied"))]);
    let result = dirdiff(&a, &b);
    assert_eq!(result.only_in_a, none());
    assert_eq!(result.only_in_b, none());
    assert_eq!(result.differs, none());
}

#[test]
fn unreadable_in_both_with_two_reasons_differs() {
    let a = process_directory(vec![("locked".to_string(), unreadable("Permission denied"))]);
    let b = process_directory(vec![("locked".to_string(), unreadable("Is a directory"))]);
    let result = dirdiff(&a, &b);
    assert_eq!(result.differs, vec!["locked"]);
}

#[test]
fn unreadable_on_one_side_differs() {
    let a = process_directory(vec![("f".to_string(), unreadable("Permission denied"))]);
    let b = process_directory(vec![("f".to_string(), read("hello"))]);
    assert_eq!(dirdiff(&a, &b).differs, vec!["f"]);
    assert_eq!(dirdiff(&b, &a).differs, vec!["f"]);
}

#[test]
fn reason_that_reads_like_the_digest_compares_equal() {
    let a = process_directory(vec![(
        "f".to_string(),
        unreadable("5d41402abc4b2a76b9719d911017c592"),
    )]);
    let b = process_directory(vec![("f".to_string(), read("hello"))]);
    let result = dirdiff(&a, &b);
    assert_eq!(result.differs, none());
    assert_eq!(result.only_in_a, none());
    assert_eq!(result.only_in_b, none());
}

#[test]
fn comparison_leaves_the_mappings_as_they_were() {
    let a = tree(&[("x", "1"), ("y", "2")]);
    let b = tree(&[("y", "3"), ("z", "4")]);
    let first = dirdiff(&a, &b);
    let second = dirdiff(&a, &b);
    assert_eq!(first.only_in_a, second.only_in_a);
    assert_eq!(first.only_in_b, second.only_in_b);
    assert_eq!(first.differs, second.differs);
    assert_eq!(a.paths(), &vec!["x", "y"]);
    assert_eq!(b.paths(), &vec!["y", "z"]);
}

#[test]
fn large_trees_are_reconciled() {
    let a = process_directory(
        (0..3000).map(|i| (format!("f{}", i), read(&format!("{}", i % 10)))).collect(),
    );
    let b = process_directory(
        (1000..4000).map(|i| (format!("f{}", i), read(&format!("{}", i % 5)))).collect(),
    );
    let result = dirdiff(&a, &b);
    assert_eq!(result.only_in_a.len(), 1000);
    assert_eq!(result.only_in_b.len(), 1000);
    assert_eq!(result.differs.len(), 1000);
    assert_eq!(result.only_in_a[0], "f0");
    assert_eq!(result.only_in_a[999], "f999");
    assert_eq!(result.only_in_b[0], "f3000");
    assert_eq!(result.differs[0], "f1005");
}
