use gdl::hunks::{
    diff_from_contents, diff_hunks, diff_of_sides, diff_sources, diff_step, hunks_for_ranges, is_diffable, ContentSource,
    DiffAction, DiffEvent,
};
use gdl::model::{DiffArea, Hunk};

fn old_bytes() -> &'static [u8] {
    b"one\nold two\nthree\nfour\nold five\nsix\nseven\nold eight\nnine\n"
}

fn new_bytes() -> &'static [u8] {
    b"one\nnew two\nthree\nfour\nnew five\nsix\nseven\nnew eight\nnine\n"
}

fn expected_hunks() -> Vec<Hunk> {
    vec![
        Hunk {
            old_start: 2,
            old_lines: 1,
            new_start: 2,
            new_lines: 1,
            old_bytes: vec![b"old two\n".to_vec()],
            new_bytes: vec![b"new two\n".to_vec()],
        },
        Hunk {
            old_start: 5,
            old_lines: 1,
            new_start: 5,
            new_lines: 1,
            old_bytes: vec![b"old five\n".to_vec()],
            new_bytes: vec![b"new five\n".to_vec()],
        },
        Hunk {
            old_start: 8,
            old_lines: 1,
            new_start: 8,
            new_lines: 1,
            old_bytes: vec![b"old eight\n".to_vec()],
            new_bytes: vec![b"new eight\n".to_vec()],
        },
    ]
}

/// The contents a source holds in a repository where `file.txt` was committed with the
/// old bytes and then rewritten with the new bytes, staged or not.
fn source_bytes(source: ContentSource, staged: bool) -> Option<Vec<u8>> {
    match source {
        ContentSource::Head => Some(old_bytes().to_vec()),
        ContentSource::Index => Some(if staged { new_bytes() } else { old_bytes() }.to_vec()),
        ContentSource::Worktree => Some(new_bytes().to_vec()),
    }
}

fn diff_in(area: DiffArea, staged: bool) -> gdl::model::FileDiff {
    let (old, new) = diff_sources(area);
    diff_of_sides("file.txt".to_string(), area, source_bytes(old, staged), source_bytes(new, staged))
}

#[test]
fn worktree_diff_returns_real_hunks() {
    let diff = diff_in(DiffArea::Worktree, false);
    assert_eq!(diff.file, "file.txt");
    assert_eq!(diff.area, DiffArea::Worktree);
    assert!(!diff.binary);
    assert_eq!(diff.hunks, expected_hunks());
}

#[test]
fn staged_diff_returns_real_hunks() {
    let diff = diff_in(DiffArea::Staged, true);
    assert_eq!(diff.area, DiffArea::Staged);
    assert_eq!(diff.hunks, expected_hunks());
}

#[test]
fn head_diff_returns_real_hunks() {
    let diff = diff_in(DiffArea::Head, false);
    assert_eq!(diff.area, DiffArea::Head);
    assert_eq!(diff.hunks, expected_hunks());
}

#[test]
fn diff_preserves_crlf_and_non_utf8_bytes() {
    let diff = diff_from_contents(
        "raw.txt".to_string(),
        DiffArea::Worktree,
        b"one\r\nold \xff\r\nthree\r\n",
        b"one\r\nnew \xff\r\nthree\r\n",
    );
    assert_eq!(
        diff.hunks,
        vec![Hunk {
            old_start: 2,
            old_lines: 1,
            new_start: 2,
            new_lines: 1,
            old_bytes: vec![b"old \xff\r\n".to_vec()],
            new_bytes: vec![b"new \xff\r\n".to_vec()],
        }]
    );
}

#[test]
fn areas_compare_their_documented_sides() {
    assert_eq!(diff_sources(DiffArea::Worktree), (ContentSource::Index, ContentSource::Worktree));
    assert_eq!(diff_sources(DiffArea::Staged), (ContentSource::Head, ContentSource::Index));
    assert_eq!(diff_sources(DiffArea::Head), (ContentSource::Head, ContentSource::Worktree));
}

#[test]
fn missing_side_diffs_as_empty_content() {
    let diff = diff_of_sides("new.txt".to_string(), DiffArea::Worktree, None, Some(b"a\nb\n".to_vec()));
    assert_eq!(
        diff.hunks,
        vec![Hunk {
            old_start: 0,
            old_lines: 0,
            new_start: 1,
            new_lines: 2,
            old_bytes: vec![],
            new_bytes: vec![b"a\n".to_vec(), b"b\n".to_vec()],
        }]
    );
}

#[test]
fn binary_contents_have_no_hunks() {
    let diff = diff_from_contents("file.txt".to_string(), DiffArea::Worktree, b"old\0bytes", b"new\0bytes");
    assert!(diff.binary);
    assert!(diff.hunks.is_empty());
}

#[test]
fn identical_contents_have_no_hunks() {
    assert!(diff_hunks(b"same\ntext\n", b"same\ntext\n").is_empty());
}

#[test]
fn hunks_carry_the_ranges_gix_diff_finds() {
    let hunks = diff_hunks(b"a\nb\nc\n", b"a\nc\nd\n");
    assert_eq!(
        hunks,
        vec![
            Hunk {
                old_start: 2,
                old_lines: 1,
                new_start: 2,
                new_lines: 0,
                old_bytes: vec![b"b\n".to_vec()],
                new_bytes: vec![],
            },
            Hunk {
                old_start: 4,
                old_lines: 0,
                new_start: 3,
                new_lines: 1,
                old_bytes: vec![],
                new_bytes: vec![b"d\n".to_vec()],
            },
        ]
    );
}

#[test]
fn ordinary_contents_are_diffable() {
    assert!(is_diffable(old_bytes(), new_bytes()));
    assert!(is_diffable(b"", b""));
    assert!(is_diffable(b"\0", b"text\n"));
}

#[test]
fn deleted_text_diffs_as_one_removal_hunk() {
    let diff = diff_of_sides("gone.txt".to_string(), DiffArea::Staged, Some(b"x\ny".to_vec()), None);
    assert!(!diff.binary);
    assert_eq!(
        diff.hunks,
        vec![Hunk {
            old_start: 1,
            old_lines: 2,
            new_start: 0,
            new_lines: 0,
            old_bytes: vec![b"x\n".to_vec(), b"y".to_vec()],
            new_bytes: vec![],
        }]
    );
}

#[test]
fn hunks_for_ranges_copy_the_covered_lines() {
    let old: &[u8] = b"a\nb\nc\nd\n";
    let new: &[u8] = b"a\nB\nc\nd\ne\n";
    let hunks = hunks_for_ranges(old, new, &vec![(1, 2, 1, 2), (4, 4, 4, 5)]);
    assert_eq!(
        hunks,
        vec![
            Hunk {
                old_start: 2,
                old_lines: 1,
                new_start: 2,
                new_lines: 1,
                old_bytes: vec![b"b\n".to_vec()],
                new_bytes: vec![b"B\n".to_vec()],
            },
            Hunk {
                old_start: 5,
                old_lines: 0,
                new_start: 5,
                new_lines: 1,
                old_bytes: vec![],
                new_bytes: vec![b"e\n".to_vec()],
            },
        ]
    );
    assert_eq!(hunks_for_ranges(old, new, &vec![(0, 0, 0, 1)])[0].new_start, 1);
}

#[test]
fn applying_the_hunks_turns_old_lines_into_new_lines() {
    let old: &[u8] = b"1\n2\n3\n4\n5\n6\n";
    let new: &[u8] = b"1\nx\n3\n4\n6\ny\n";
    let hunks = diff_hunks(old, new);
    let mut lines = gdl::lines::byte_lines(old);
    for h in hunks.iter().rev() {
        let at = if h.old_start == 0 { 0 } else { h.old_start as usize - 1 };
        lines.splice(at..at + h.old_lines as usize, h.new_bytes.iter().cloned());
    }
    assert_eq!(lines, gdl::lines::byte_lines(new));
}

#[test]
fn diff_requests_normalize_the_path_then_read_the_area_sides() {
    assert_eq!(
        diff_step("./src//app.rs", DiffArea::Staged, DiffEvent::Start),
        DiffAction::ReadSides { file: "src/app.rs".to_string(), old: ContentSource::Head, new: ContentSource::Index }
    );
    assert_eq!(
        diff_step("../x", DiffArea::Worktree, DiffEvent::Start),
        DiffAction::Failed { message: "diff path must be repository-relative: ../x".to_string() }
    );
    assert_eq!(
        diff_step("a", DiffArea::Worktree, DiffEvent::ReadFailed { error: "failed to open index".to_string() }),
        DiffAction::Failed { message: "failed to open index".to_string() }
    );
    match diff_step("./new.txt", DiffArea::Worktree, DiffEvent::SidesRead { old: None, new: Some(b"n\n".to_vec()) }) {
        DiffAction::Done { diff } => {
            assert_eq!(diff.file, "new.txt");
            assert_eq!(diff.area, DiffArea::Worktree);
            assert_eq!(diff.hunks.len(), 1);
            assert_eq!(diff.hunks[0].new_bytes, vec![b"n\n".to_vec()]);
        },
        other => panic!("expected a diff, got {other:?}"),
    }
}
