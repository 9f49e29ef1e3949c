use gdl::model::{section_order, kind_order, ChangeKind, ChangeSection, GdlEntry};
use gdl::order::{compare_entries, compare_paths, sort_status_entries, Comparison};

fn e(section: ChangeSection, kind: ChangeKind, path: &str, added: usize) -> GdlEntry {
    GdlEntry { section, kind, path: path.to_string(), old_path: None, lines_added: added, lines_removed: 0, is_binary: false }
}

#[test]
fn paths_order_by_components() {
    assert_eq!(compare_paths("a/b", "a.b"), Comparison::Less);
    assert_eq!(compare_paths("a", "a/b"), Comparison::Less);
    assert_eq!(compare_paths("b", "a/z"), Comparison::Greater);
    assert_eq!(compare_paths("same", "same"), Comparison::Equal);
    assert_eq!(compare_paths("a//b", "a/b"), Comparison::Equal);
    assert_eq!(compare_paths("a/./b/", "a/b"), Comparison::Equal);
    assert_eq!(compare_paths("../x", "-"), Comparison::Less);
    assert_eq!(compare_paths("/z", "a"), Comparison::Less);
    assert_eq!(compare_paths("./a", "a"), Comparison::Less);
}

#[test]
fn entries_order_by_section_then_path_then_kind() {
    let staged = e(ChangeSection::Staged, ChangeKind::Modified, "z", 0);
    let worktree = e(ChangeSection::WorkingTree, ChangeKind::Added, "a", 0);
    assert_eq!(compare_entries(&staged, &worktree), Comparison::Less);
    let added = e(ChangeSection::Staged, ChangeKind::Added, "z", 0);
    assert_eq!(compare_entries(&staged, &added), Comparison::Less);
    assert_eq!(section_order(ChangeSection::Conflicted), 3);
    assert_eq!(kind_order(ChangeKind::TypeChanged), 7);
    assert_eq!(kind_order(ChangeKind::Modified), 0);
}

#[test]
fn sort_is_stable_and_independent_of_arrival_order_for_distinct_keys() {
    let a = e(ChangeSection::Untracked, ChangeKind::Untracked, "u", 1);
    let b = e(ChangeSection::Staged, ChangeKind::Added, "s", 1);
    let c = e(ChangeSection::WorkingTree, ChangeKind::Deleted, "d", 0);
    let one = sort_status_entries(vec![a.clone(), b.clone(), c.clone()]);
    let two = sort_status_entries(vec![c.clone(), a.clone(), b.clone()]);
    assert_eq!(one, vec![b.clone(), c.clone(), a.clone()]);
    assert_eq!(one, two);

    let first = e(ChangeSection::Staged, ChangeKind::Added, "same", 1);
    let second = e(ChangeSection::Staged, ChangeKind::Added, "same", 2);
    assert_eq!(sort_status_entries(vec![first.clone(), second.clone()]), vec![first.clone(), second.clone()]);
    assert_eq!(sort_status_entries(vec![second.clone(), first.clone()]), vec![second, first]);
}
