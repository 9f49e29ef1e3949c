use gdl::model::GdlEntry;
use gdl::render::{render_status, ColorPolicy, OutputFormat, RenderOptions, StatusView};
use gdl::status::{status_entries, StatusRecord};

fn status_fixture() -> Vec<GdlEntry> {
    status_entries(vec![
        StatusRecord::WorktreeModification {
            path: "nested/modified.txt".to_string(),
            old: b"base\n".to_vec(),
            new: b"base\nchanged\n".to_vec(),
        },
        StatusRecord::StagedAddition { path: "staged.txt".to_string(), new: b"staged\n".to_vec() },
        StatusRecord::Untracked { path: "untracked.txt".to_string(), new: b"untracked\n".to_vec() },
        StatusRecord::WorktreeRemoval { path: "deleted.txt".to_string(), old: b"delete me\n".to_vec() },
        StatusRecord::StagedRewrite {
            source_path: "old-name.txt".to_string(),
            path: "renamed.txt".to_string(),
            old: b"rename me\n".to_vec(),
            new: b"rename me\n".to_vec(),
            copy: false,
        },
    ])
}

fn paths_only(format: OutputFormat) -> RenderOptions {
    RenderOptions { format, color: ColorPolicy::Never, width: 80, view: StatusView::PathsOnly }
}

#[test]
fn status_paths_only_plain_renders_ordered_paths() {
    let output = render_status(&status_fixture(), &paths_only(OutputFormat::Plain)).unwrap();
    assert_eq!(
        output,
        "renamed.txt\nstaged.txt\ndeleted.txt\nnested/modified.txt\nuntracked.txt\n"
    );
}

#[test]
fn status_paths_only_json_renders_path_array() {
    let output = render_status(&status_fixture(), &paths_only(OutputFormat::Json)).unwrap();
    let value: serde_json::Value = serde_json::from_str(&output).unwrap();
    let paths: Vec<String> = value
        .as_array()
        .expect("a JSON array")
        .iter()
        .map(|v| v.as_str().expect("a JSON string").to_string())
        .collect();
    assert_eq!(paths, ["renamed.txt", "staged.txt", "deleted.txt", "nested/modified.txt", "untracked.txt",]);
    assert_eq!(
        output,
        "[\n  \"renamed.txt\",\n  \"staged.txt\",\n  \"deleted.txt\",\n  \"nested/modified.txt\",\n  \"untracked.txt\"\n]"
    );
}

#[test]
fn paths_only_ignores_colors_and_sorts_unsorted_entries() {
    let mut entries = status_fixture();
    entries.reverse();
    let options = RenderOptions { format: OutputFormat::Ansi, color: ColorPolicy::Always, width: 80, view: StatusView::PathsOnly };
    let output = render_status(&entries, &options).unwrap();
    assert_eq!(
        output,
        "renamed.txt\nstaged.txt\ndeleted.txt\nnested/modified.txt\nuntracked.txt\n"
    );
}

#[test]
fn paths_only_json_of_no_entries_is_an_empty_array() {
    assert_eq!(render_status(&Vec::new(), &paths_only(OutputFormat::Json)).unwrap(), "[]");
}

#[test]
fn paths_only_json_escapes_quotes_and_control_characters() {
    let entries = status_entries(vec![StatusRecord::Untracked {
        path: "a\"b\\c\td\u{1}.txt".to_string(),
        new: b"x\n".to_vec(),
    }]);
    let output = render_status(&entries, &paths_only(OutputFormat::Json)).unwrap();
    assert_eq!(output, "[\n  \"a\\\"b\\\\c\\td\\u0001.txt\"\n]");
}
