use gdl::hunks::diff_from_contents;
use gdl::model::{version, ChangeKind, ChangeSection, DiffArea, Hunk};
use gdl::render::{DiffOutput, StatusOutput};
use gdl::status::{status_entries, StatusRecord};

#[test]
fn renders_full_status_as_json() {
    let entries = status_entries(vec![
        StatusRecord::StagedModification {
            path: "file.txt".to_string(),
            old: b"old\n".to_vec(),
            new: b"old\nstaged\n".to_vec(),
        },
        StatusRecord::StagedAddition { path: "new.txt".to_string(), new: b"new\n".to_vec() },
        StatusRecord::Untracked { path: "notes.txt".to_string(), new: b"notes\n".to_vec() },
    ]);
    let parsed = StatusOutput::new(entries.clone());

    assert_eq!(parsed.version, version());
    assert_eq!(parsed.entries, entries);
    assert_eq!(parsed.entries.len(), 3);
    assert_eq!(
        parsed.entries.iter().map(|entry| entry.path.as_str()).collect::<Vec<_>>(),
        ["file.txt", "new.txt", "notes.txt"]
    );
    assert_eq!(
        parsed
            .entries
            .iter()
            .map(|entry| (entry.lines_added, entry.lines_removed, entry.is_binary, entry.old_path.clone()))
            .collect::<Vec<_>>(),
        vec![(1, 0, false, None), (1, 0, false, None), (1, 0, false, None)]
    );
    assert_eq!(
        parsed.entries.iter().map(|entry| (entry.section, entry.kind)).collect::<Vec<_>>(),
        vec![
            (ChangeSection::Staged, ChangeKind::Modified),
            (ChangeSection::Staged, ChangeKind::Added),
            (ChangeSection::Untracked, ChangeKind::Untracked),
        ]
    );
}

#[test]
fn renders_diff_as_json() {
    let diff = diff_from_contents("file.txt".to_string(), DiffArea::Worktree, b"one\nold\nthree\n", b"one\nnew\nthree\n");
    let parsed = DiffOutput::new(diff, 80);
    assert_eq!(
        parsed,
        DiffOutput {
            version: version().to_owned(),
            file: "file.txt".to_owned(),
            area: DiffArea::Worktree,
            width: 80,
            binary: false,
            hunks: vec![Hunk {
                old_start: 2,
                old_lines: 1,
                new_start: 2,
                new_lines: 1,
                old_bytes: vec![b"old\n".to_vec()],
                new_bytes: vec![b"new\n".to_vec()],
            }],
        }
    );
    assert_eq!(parsed.area.name(), "worktree");
    assert_eq!(parsed.hunks[0].old_bytes, vec![vec![111, 108, 100, 10]]);
    assert_eq!(parsed.hunks[0].new_bytes, vec![vec![110, 101, 119, 10]]);
}

#[test]
fn renders_binary_diff_as_json() {
    let diff = diff_from_contents("file.txt".to_string(), DiffArea::Worktree, b"old\0bytes", b"new\0bytes");
    let parsed = DiffOutput::new(diff, 80);
    assert!(parsed.binary);
    assert_eq!(parsed.hunks, Vec::<Hunk>::new());
}

#[test]
fn area_names_are_lower_case() {
    assert_eq!(DiffArea::Worktree.name(), "worktree");
    assert_eq!(DiffArea::Staged.name(), "staged");
    assert_eq!(DiffArea::Head.name(), "head");
}
