use gdl::hunks::diff_from_contents;
use gdl::model::{DiffArea, GdlEntry};
use gdl::render_diff::trim_line_end;
use gdl::render::{render_diff, render_status, ColorPolicy, OutputFormat, RenderOptions, StatusView};
use gdl::status::{status_entries, StatusRecord};

/// The walk of a repository where `nested/modified.txt`, `deleted.txt` and
/// `old-name.txt` were committed, then the mutations were made in the given order,
/// `deleted.txt` was removed and `old-name.txt` was moved to `renamed.txt`.
fn status_fixture(mutation_order: [&str; 3]) -> Vec<GdlEntry> {
    let mut walk = Vec::new();
    for path in mutation_order {
        match path {
            "nested/modified.txt" => walk.push(StatusRecord::WorktreeModification {
                path: "nested/modified.txt".to_string(),
                old: b"base\n".to_vec(),
                new: b"base\nchanged\n".to_vec(),
            }),
            "staged.txt" => walk.push(StatusRecord::StagedAddition {
                path: "staged.txt".to_string(),
                new: b"staged\n".to_vec(),
            }),
            "untracked.txt" => walk.push(StatusRecord::Untracked {
                path: "untracked.txt".to_string(),
                new: b"untracked\n".to_vec(),
            }),
            other => panic!("unknown mutation path: {other}"),
        }
    }
    walk.push(StatusRecord::WorktreeRemoval { path: "deleted.txt".to_string(), old: b"delete me\n".to_vec() });
    walk.push(StatusRecord::StagedRewrite {
        source_path: "old-name.txt".to_string(),
        path: "renamed.txt".to_string(),
        old: b"rename me\n".to_vec(),
        new: b"rename me\n".to_vec(),
        copy: false,
    });
    status_entries(walk)
}

fn plain_options(width: usize) -> RenderOptions {
    RenderOptions { format: OutputFormat::Plain, color: ColorPolicy::Never, width, view: StatusView::Full }
}

#[test]
fn status_plain_renders_sections_rows_and_counts() {
    let entries = status_fixture(["nested/modified.txt", "staged.txt", "untracked.txt"]);
    let output = render_status(&entries, &plain_options(80)).unwrap();
    assert_eq!(
        output,
        "Staged Changes (2)\nR  renamed.txt       .       +0 -0  from old-name.txt\nA  staged.txt        .       +1 -0\n\nChanges (2)\nD  deleted.txt       .       +0 -1\nM  modified.txt      nested  +1 -0\n\nUntracked (1)\nU  untracked.txt     .       +1 -0\n"
    );
}

#[test]
fn status_plain_output_is_sorted_independent_of_mutation_order() {
    let first = status_fixture(["nested/modified.txt", "staged.txt", "untracked.txt"]);
    let second = status_fixture(["untracked.txt", "staged.txt", "nested/modified.txt"]);
    let options = plain_options(80);
    assert_eq!(render_status(&first, &options).unwrap(), render_status(&second, &options).unwrap());
}

#[test]
fn status_plain_renders_conflicted_section() {
    let entries = status_entries(vec![StatusRecord::Conflict { path: "conflict.txt".to_string() }]);
    let output = render_status(&entries, &plain_options(80)).unwrap();
    assert_eq!(output, "Merge Changes (1)\n!  conflict.txt      .       !\n");
}

#[test]
fn status_plain_renders_binary_rows_and_long_names() {
    let entries = status_entries(vec![
        StatusRecord::WorktreeModification {
            path: "assets/img/logo.png".to_string(),
            old: vec![0, 1],
            new: vec![0, 2],
        },
        StatusRecord::Untracked { path: "a_very_long_file_name.txt".to_string(), new: b"x\ny\n".to_vec() },
    ]);
    let output = render_status(&entries, &plain_options(80)).unwrap();
    assert_eq!(
        output,
        "Changes (1)\nM  logo.png          assets/img binary\n\nUntracked (1)\nU  a_very_long_file_name.txt .       +2 -0\n"
    );
}

#[test]
fn empty_status_renders_nothing() {
    assert_eq!(render_status(&Vec::new(), &plain_options(80)).unwrap(), "");
}

fn diff_fixture() -> gdl::model::FileDiff {
    diff_from_contents(
        "src/app.rs".to_string(),
        DiffArea::Worktree,
        "fn main() {\n    let value = \"old\"; // before\n    println!(\"{value}\");\n}\n"
        .as_bytes(),
        "fn main() {\n    let value = \"new\"; // after\n    println!(\"{value}\");\n}\n"
        .as_bytes(),
    )
}

#[test]
fn diff_plain_renders_unified_text() {
    let output = render_diff(&diff_fixture(), &plain_options(80));
    assert_eq!(
        output,
        "diff --worktree src/app.rs\n--- a/src/app.rs\n+++ b/src/app.rs\n@@ -2 +2 @@\n-    let value = \"old\"; // before\n+    let value = \"new\"; // after\n"
    );
}

#[test]
fn diff_plain_renders_binary_marker() {
    let diff = diff_from_contents("bin.dat".to_string(), DiffArea::Worktree, b"old\0bytes", b"new\0bytes");
    let output = render_diff(&diff, &plain_options(80));
    assert_eq!(output, "Binary file bin.dat changed\n");
}

#[test]
fn diff_plain_side_by_side_at_wide_widths() {
    let output = render_diff(&diff_fixture(), &plain_options(120));
    let col = (120 - 3) / 2;
    let mut expected = String::from("diff --worktree src/app.rs\n");
    expected.push_str(&format!("{:<col$} | +++ b/src/app.rs\n", "--- a/src/app.rs"));
    expected.push_str("@@ -2 +2 @@\n");
    expected.push_str(&format!("{:<col$} | +    let value = \"new\"; // after\n", "-    let value = \"old\"; // before"));
    assert_eq!(output, expected);
}

#[test]
fn diff_header_counts_ranges_other_than_one() {
    let diff = diff_from_contents("f".to_string(), DiffArea::Staged, b"a\nb\nc\n", b"x\n");
    let output = render_diff(&diff, &plain_options(80));
    assert_eq!(
        output,
        "diff --staged f\n--- a/f\n+++ b/f\n@@ -1,3 +1 @@\n-a\n-b\n-c\n+x\n"
    );
}

#[test]
fn diff_lines_decode_invalid_utf8_with_replacement() {
    let diff = diff_from_contents("raw.txt".to_string(), DiffArea::Head, b"old \xff\r\n", b"new\n");
    let output = render_diff(&diff, &plain_options(80));
    assert_eq!(
        output,
        "diff --head raw.txt\n--- a/raw.txt\n+++ b/raw.txt\n@@ -1 +1 @@\n-old \u{fffd}\r\n+new\n"
    );
}

#[test]
fn line_text_drops_only_the_final_newline() {
    assert_eq!(trim_line_end("text\n"), vec!['t', 'e', 'x', 't']);
    assert_eq!(trim_line_end("crlf\r\n"), vec!['c', 'r', 'l', 'f', '\r']);
    assert_eq!(trim_line_end("none"), vec!['n', 'o', 'n', 'e']);
    assert_eq!(trim_line_end(""), Vec::<char>::new());
}

#[test]
fn plain_status_holds_no_escape_character() {
    let entries = status_fixture(["staged.txt", "nested/modified.txt", "untracked.txt"]);
    let output = render_status(&entries, &plain_options(80)).unwrap();
    assert!(!output.is_empty());
    assert!(!output.contains('\x1b'));
}

#[test]
fn conflict_count_wins_over_binary_content() {
    let conflict = |binary: bool| GdlEntry {
        section: gdl::model::ChangeSection::Conflicted,
        kind: gdl::model::ChangeKind::Conflicted,
        path: "c.txt".to_string(),
        old_path: None,
        lines_added: 0,
        lines_removed: 0,
        is_binary: binary,
    };
    let binary = render_status(&vec![conflict(true)], &plain_options(80)).unwrap();
    let text = render_status(&vec![conflict(false)], &plain_options(80)).unwrap();
    assert_eq!(binary, text);
    assert!(binary.ends_with(" !\n"));
    assert!(!binary.contains("binary"));
}
