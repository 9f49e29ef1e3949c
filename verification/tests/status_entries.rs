use gdl::model::{ChangeKind, ChangeSection, GdlEntry};
use gdl::status::{entry_of_record, status_entries, StatusRecord};

fn entry(
    section: ChangeSection,
    kind: ChangeKind,
    path: &str,
    old_path: Option<&str>,
    lines_added: usize,
    lines_removed: usize,
    is_binary: bool,
) -> GdlEntry {
    GdlEntry {
        section,
        kind,
        path: path.to_string(),
        old_path: old_path.map(|p| p.to_string()),
        lines_added,
        lines_removed,
        is_binary,
    }
}

/// The walk of a repository where `keep.txt`, `delete-me.txt` and `old-name.txt` were
/// committed, then `keep.txt` changed, `untracked.txt` was created, `added.txt` was
/// staged, `delete-me.txt` was removed and `old-name.txt` was moved to `new-name.txt`.
fn real_repo_walk() -> Vec<StatusRecord> {
    vec![
        StatusRecord::StagedAddition { path: "added.txt".to_string(), new: b"added\n".to_vec() },
        StatusRecord::StagedRewrite {
            source_path: "old-name.txt".to_string(),
            path: "new-name.txt".to_string(),
            old: b"rename me\n".to_vec(),
            new: b"rename me\n".to_vec(),
            copy: false,
        },
        StatusRecord::WorktreeRemoval { path: "delete-me.txt".to_string(), old: b"delete me\n".to_vec() },
        StatusRecord::WorktreeModification {
            path: "keep.txt".to_string(),
            old: b"hello\n".to_vec(),
            new: b"hello\nchanged\n".to_vec(),
        },
        StatusRecord::Untracked { path: "untracked.txt".to_string(), new: b"untracked\n".to_vec() },
    ]
}

#[test]
fn status_reports_sections_kinds_counts_and_stable_order() {
    let mut walk = real_repo_walk();
    walk.reverse();
    let entries = status_entries(walk);
    assert_eq!(
        entries,
        vec![
            entry(ChangeSection::Staged, ChangeKind::Added, "added.txt", None, 1, 0, false),
            entry(ChangeSection::Staged, ChangeKind::Renamed, "new-name.txt", Some("old-name.txt"), 0, 0, false),
            entry(ChangeSection::WorkingTree, ChangeKind::Deleted, "delete-me.txt", None, 0, 1, false),
            entry(ChangeSection::WorkingTree, ChangeKind::Modified, "keep.txt", None, 1, 0, false),
            entry(ChangeSection::Untracked, ChangeKind::Untracked, "untracked.txt", None, 1, 0, false),
        ]
    );
}

#[test]
fn status_reports_staged_rename_with_old_path() {
    let entries = status_entries(vec![StatusRecord::StagedRewrite {
        source_path: "old.txt".to_string(),
        path: "new.txt".to_string(),
        old: b"same bytes\n".to_vec(),
        new: b"same bytes\n".to_vec(),
        copy: false,
    }]);
    assert_eq!(
        entries,
        vec![GdlEntry {
            section: ChangeSection::Staged,
            kind: ChangeKind::Renamed,
            path: "new.txt".to_string(),
            old_path: Some("old.txt".to_string()),
            lines_added: 0,
            lines_removed: 0,
            is_binary: false,
        }]
    );
}

#[test]
fn status_marks_binary_changes_without_line_counts() {
    let entries = status_entries(vec![StatusRecord::WorktreeModification {
        path: "image.bin".to_string(),
        old: vec![0, 159, 146, 150, 0],
        new: vec![0, 159, 146, 151, 0],
    }]);
    assert_eq!(
        entries,
        vec![GdlEntry {
            section: ChangeSection::WorkingTree,
            kind: ChangeKind::Modified,
            path: "image.bin".to_string(),
            old_path: None,
            lines_added: 0,
            lines_removed: 0,
            is_binary: true,
        }]
    );
}

#[test]
fn status_reports_conflicted_paths_once() {
    let entries = status_entries(vec![StatusRecord::Conflict { path: "conflict.txt".to_string() }]);
    assert_eq!(
        entries,
        vec![GdlEntry {
            section: ChangeSection::Conflicted,
            kind: ChangeKind::Conflicted,
            path: "conflict.txt".to_string(),
            old_path: None,
            lines_added: 0,
            lines_removed: 0,
            is_binary: false,
        }]
    );
}

#[test]
fn walk_items_without_changes_yield_no_entries() {
    let entries = status_entries(vec![
        StatusRecord::IntentToAdd { path: "intent.txt".to_string() },
        StatusRecord::NeedsUpdate { path: "touched.txt".to_string() },
        StatusRecord::OtherDirectoryEntry { path: "ignored.log".to_string() },
    ]);
    assert!(entries.is_empty());
}

#[test]
fn each_walk_item_maps_to_its_section_and_kind() {
    let cases = vec![
        (StatusRecord::StagedDeletion { path: "d".to_string(), old: b"a\nb\n".to_vec() },
            entry(ChangeSection::Staged, ChangeKind::Deleted, "d", None, 0, 2, false)),
        (StatusRecord::StagedModification { path: "m".to_string(), old: b"a\n".to_vec(), new: b"a\nb\nc\n".to_vec() },
            entry(ChangeSection::Staged, ChangeKind::Modified, "m", None, 2, 0, false)),
        (StatusRecord::StagedRewrite {
            source_path: "s".to_string(),
            path: "c".to_string(),
            old: b"x\n".to_vec(),
            new: b"y\n".to_vec(),
            copy: true,
        }, entry(ChangeSection::Staged, ChangeKind::Copied, "c", Some("s"), 1, 1, false)),
        (StatusRecord::WorktreeTypeChange { path: "t".to_string(), old: b"target\n".to_vec(), new: Vec::new() },
            entry(ChangeSection::WorkingTree, ChangeKind::TypeChanged, "t", None, 0, 1, false)),
        (StatusRecord::WorktreeRewrite {
            source_path: "from".to_string(),
            path: "to".to_string(),
            old: b"same\n".to_vec(),
            new: b"same\nmore\n".to_vec(),
            copy: false,
        }, entry(ChangeSection::WorkingTree, ChangeKind::Renamed, "to", Some("from"), 1, 0, false)),
        (StatusRecord::Untracked { path: "bin".to_string(), new: vec![1, 0, 2] },
            entry(ChangeSection::Untracked, ChangeKind::Untracked, "bin", None, 0, 0, true)),
    ];
    for (record, expected) in cases {
        assert_eq!(entry_of_record(record), Some(expected));
    }
}

#[test]
fn status_order_puts_sections_first_then_paths_then_kinds() {
    let entries = status_entries(vec![
        StatusRecord::Untracked { path: "a.txt".to_string(), new: b"x\n".to_vec() },
        StatusRecord::WorktreeModification { path: "b.txt".to_string(), old: b"x\n".to_vec(), new: b"y\n".to_vec() },
        StatusRecord::StagedModification { path: "b.txt".to_string(), old: b"w\n".to_vec(), new: b"x\n".to_vec() },
        StatusRecord::StagedAddition { path: "b.txt".to_string(), new: b"x\n".to_vec() },
        StatusRecord::Conflict { path: "0.txt".to_string() },
        StatusRecord::StagedAddition { path: "a/b".to_string(), new: Vec::new() },
        StatusRecord::StagedAddition { path: "a.b".to_string(), new: Vec::new() },
    ]);
    let keys: Vec<(ChangeSection, ChangeKind, String)> =
        entries.iter().map(|e| (e.section, e.kind, e.path.clone())).collect();
    assert_eq!(
        keys,
        vec![
            (ChangeSection::Staged, ChangeKind::Added, "a/b".to_string()),
            (ChangeSection::Staged, ChangeKind::Added, "a.b".to_string()),
            (ChangeSection::Staged, ChangeKind::Modified, "b.txt".to_string()),
            (ChangeSection::Staged, ChangeKind::Added, "b.txt".to_string()),
            (ChangeSection::WorkingTree, ChangeKind::Modified, "b.txt".to_string()),
            (ChangeSection::Untracked, ChangeKind::Untracked, "a.txt".to_string()),
            (ChangeSection::Conflicted, ChangeKind::Conflicted, "0.txt".to_string()),
        ]
    );
}

#[test]
fn status_of_a_walk_does_not_depend_on_arrival_order() {
    let forward = status_entries(real_repo_walk());
    let mut walk = real_repo_walk();
    walk.rotate_left(2);
    let rotated = status_entries(walk);
    assert_eq!(forward, rotated);
}

#[test]
fn type_changes_count_every_line_of_each_side() {
    let entry = entry_of_record(StatusRecord::WorktreeTypeChange {
        path: "link".to_string(),
        old: b"same\n".to_vec(),
        new: b"same\n".to_vec(),
    });
    assert_eq!(entry, Some(entry_for("link", ChangeKind::TypeChanged, 1, 1)));
}

#[test]
fn modifications_count_the_lines_of_their_hunks() {
    let entry = entry_of_record(StatusRecord::WorktreeModification {
        path: "m".to_string(),
        old: b"a\nb\nc\n".to_vec(),
        new: b"a\nB\nc\nd\n".to_vec(),
    });
    assert_eq!(entry, Some(entry_for("m", ChangeKind::Modified, 2, 1)));
}

fn entry_for(path: &str, kind: ChangeKind, added: usize, removed: usize) -> GdlEntry {
    entry(ChangeSection::WorkingTree, kind, path, None, added, removed, false)
}

#[test]
fn entries_of_a_relative_walk_have_relative_paths() {
    let entries = status_entries(real_repo_walk());
    assert!(!entries.is_empty());
    for e in &entries {
        assert!(!e.path.starts_with('/'));
        if let Some(old) = &e.old_path {
            assert!(!old.starts_with('/'));
        }
    }
}
