use crossterm::style::{Color, SetForegroundColor};
use gdl::hunks::diff_from_contents;
use gdl::model::{DiffArea, GdlEntry};
use gdl::render::{render_diff, render_status, ColorPolicy, OutputFormat, RenderOptions, StatusView};
use gdl::status::{status_entries, StatusRecord};
use gdl::style::{color_spec, palette_for, ColorSpec, ColorTheme, ThemeColor};

fn status_fixture() -> Vec<GdlEntry> {
    status_entries(vec![
        StatusRecord::WorktreeModification {
            path: "nested/modified.txt".to_string(),
            old: b"base\n".to_vec(),
            new: b"base\nchanged\n".to_vec(),
        },
        StatusRecord::StagedAddition { path: "staged.txt".to_string(), new: b"staged\n".to_vec() },
        StatusRecord::Untracked { path: "untracked.txt".to_string(), new: b"untracked\n".to_vec() },
        StatusRecord::WorktreeRemoval { path: "deleted.txt".to_string(), old: b"delete me\n".to_vec() },
        StatusRecord::StagedRewrite {
            source_path: "old-name.txt".to_string(),
            path: "renamed.txt".to_string(),
            old: b"rename me\n".to_vec(),
            new: b"rename me\n".to_vec(),
            copy: false,
        },
    ])
}

/// The crossterm color a theme color names.
fn crossterm_color(c: ThemeColor) -> Color {
    match c {
        ThemeColor::Reset => Color::Reset,
        ThemeColor::Black => Color::Black,
        ThemeColor::DarkGrey => Color::DarkGrey,
        ThemeColor::Red => Color::Red,
        ThemeColor::DarkRed => Color::DarkRed,
        ThemeColor::Green => Color::Green,
        ThemeColor::DarkGreen => Color::DarkGreen,
        ThemeColor::Yellow => Color::Yellow,
        ThemeColor::DarkYellow => Color::DarkYellow,
        ThemeColor::Blue => Color::Blue,
        ThemeColor::DarkBlue => Color::DarkBlue,
        ThemeColor::Magenta => Color::Magenta,
        ThemeColor::DarkMagenta => Color::DarkMagenta,
        ThemeColor::Cyan => Color::Cyan,
        ThemeColor::DarkCyan => Color::DarkCyan,
        ThemeColor::White => Color::White,
        ThemeColor::Grey => Color::Grey,
        ThemeColor::Rgb { r, g, b } => Color::Rgb { r, g, b },
        ThemeColor::AnsiValue(v) => Color::AnsiValue(v),
    }
}

fn fg(c: ThemeColor) -> SetForegroundColor {
    SetForegroundColor(crossterm_color(c))
}

#[test]
fn status_ansi_strips_to_plain_and_colors_status_badges() {
    let entries = status_fixture();
    let plain = render_status(&entries, &plain_options()).unwrap();
    let ansi = render_status(&entries, &ansi_options()).unwrap();

    assert_eq!(strip_ansi_escapes::strip(ansi.as_bytes()), plain.as_bytes());

    let theme = ColorTheme::default();
    assert_token_color(&ansi, "Staged Changes (2)", fg(theme.section_header));
    assert_badge_color(&ansi, 'M', "modified.txt", fg(theme.modified));
    assert_badge_color(&ansi, 'A', "staged.txt", fg(theme.added));
    assert_badge_color(&ansi, 'D', "deleted.txt", fg(theme.deleted));
    assert_badge_color(&ansi, 'R', "renamed.txt", fg(theme.renamed));
    assert_badge_color(&ansi, 'U', "untracked.txt", fg(theme.untracked));
    assert_token_after_filename_color(&ansi, "modified.txt", "+1", fg(theme.lines_added));
    assert_token_after_filename_color(&ansi, "deleted.txt", "-1", fg(theme.lines_removed));
}

#[test]
fn status_ansi_colors_conflicted_status() {
    let entries = status_entries(vec![StatusRecord::Conflict { path: "conflict.txt".to_string() }]);
    let plain = render_status(&entries, &plain_options()).unwrap();
    let ansi = render_status(&entries, &ansi_options()).unwrap();

    assert_eq!(strip_ansi_escapes::strip(ansi.as_bytes()), plain.as_bytes());

    let theme = ColorTheme::default();
    assert_badge_color(&ansi, '!', "conflict.txt", fg(theme.conflict));
    assert_token_after_filename_color(&ansi, "conflict.txt", "!", fg(theme.conflict));
}

#[test]
fn status_ansi_writes_crossterm_escapes_and_resets() {
    let entries = status_entries(vec![StatusRecord::Conflict { path: "c.txt".to_string() }]);
    let ansi = render_status(&entries, &ansi_options()).unwrap();
    let red = SetForegroundColor(Color::Red).to_string();
    let cyan = SetForegroundColor(Color::Cyan).to_string();
    let white = SetForegroundColor(Color::White).to_string();
    let grey = SetForegroundColor(Color::DarkGrey).to_string();
    let reset = "\x1b[0m";
    let expected = format!(
        "{cyan}Merge Changes (1){reset}\n{red}!{reset}  {white}c.txt            {reset} {grey}.      {reset} {red}!{reset}\n"
    );
    assert_eq!(ansi, expected);
}

#[test]
fn ansi_format_without_colors_renders_plain() {
    let entries = status_fixture();
    let options = RenderOptions { format: OutputFormat::Ansi, color: ColorPolicy::Never, width: 80, view: StatusView::Full };
    assert_eq!(render_status(&entries, &options).unwrap(), render_status(&entries, &plain_options()).unwrap());
}

#[test]
fn default_theme_slots() {
    let theme = ColorTheme::default();
    assert_eq!(theme.modified, ThemeColor::Yellow);
    assert_eq!(theme.added, ThemeColor::Green);
    assert_eq!(theme.deleted, ThemeColor::Red);
    assert_eq!(theme.renamed, ThemeColor::Cyan);
    assert_eq!(theme.conflict, ThemeColor::Red);
    assert_eq!(theme.untracked, ThemeColor::Blue);
    assert_eq!(theme.filename, ThemeColor::White);
    assert_eq!(theme.dir_path, ThemeColor::DarkGrey);
    assert_eq!(theme.lines_added, ThemeColor::Green);
    assert_eq!(theme.lines_removed, ThemeColor::Red);
    assert_eq!(theme.hunk_header, ThemeColor::Magenta);
    assert_eq!(theme.section_header, ThemeColor::Cyan);
}

fn diff_fixture(path: &str) -> gdl::model::FileDiff {
    diff_from_contents(
        path.to_string(),
        DiffArea::Worktree,
        b"fn original() { let text = \"before\"; // old\n",
        b"fn changed() { let text = \"after\"; // new\n",
    )
}

#[test]
fn diff_ansi_plain_text_fallback_keeps_only_gutter_color() {
    let ansi = render_diff(&diff_fixture("notes.txt"), &ansi_diff_options(80));
    assert!(!ansi.contains("\x1b[38;2;"));
    assert!(ansi.contains(&fg(ColorTheme::default().lines_added).to_string()));
}

#[test]
fn diff_ansi_uses_width_driven_layout() {
    let diff = diff_fixture("src/app.rs");
    let narrow_plain = render_diff(&diff, &plain_diff_options(60));
    let narrow_ansi = render_diff(&diff, &ansi_diff_options(60));
    let wide_plain = render_diff(&diff, &plain_diff_options(200));
    let wide_ansi = render_diff(&diff, &ansi_diff_options(200));

    assert_ne!(narrow_plain, wide_plain);
    assert!(narrow_plain.contains("--- a/src/app.rs"));
    assert!(wide_plain.contains(" | "));
    assert_eq!(strip_ansi_escapes::strip(narrow_ansi.as_bytes()), narrow_plain.as_bytes());
    assert_eq!(strip_ansi_escapes::strip(wide_ansi.as_bytes()), wide_plain.as_bytes());
}

#[test]
fn diff_ansi_paints_header_and_gutters() {
    let ansi = render_diff(&diff_fixture("notes.txt"), &ansi_diff_options(80));
    let magenta = SetForegroundColor(Color::Magenta).to_string();
    let red = SetForegroundColor(Color::Red).to_string();
    let green = SetForegroundColor(Color::Green).to_string();
    let reset = "\x1b[0m";
    let expected = format!(
        "diff --worktree notes.txt\n--- a/notes.txt\n+++ b/notes.txt\n{magenta}@@ -1 +1 @@{reset}\n{red}-fn original() {{ let text = \"before\"; // old{reset}\n{green}+fn changed() {{ let text = \"after\"; // new{reset}\n"
    );
    assert_eq!(ansi, expected);
}

fn assert_token_color(output: &str, token: &str, expected_color: SetForegroundColor) {
    let token_index = output
        .find(token)
        .unwrap_or_else(|| panic!("missing token {token:?} in ANSI output:\n{output}"));
    assert_escape_before(output, token_index, expected_color, token);
}

fn assert_token_after_filename_color(output: &str, filename: &str, token: &str, expected_color: SetForegroundColor) {
    let filename_index = output
        .find(filename)
        .unwrap_or_else(|| panic!("missing filename {filename:?} in ANSI output:\n{output}"));
    let token_offset = output[filename_index..]
        .find(token)
        .unwrap_or_else(|| panic!("missing token {token:?} after {filename:?}"));
    assert_escape_before(output, filename_index + token_offset, expected_color, token);
}

fn assert_badge_color(output: &str, badge: char, filename: &str, expected_color: SetForegroundColor) {
    let filename_index = output
        .find(filename)
        .unwrap_or_else(|| panic!("missing filename {filename:?} in ANSI output:\n{output}"));
    let badge_index = output[..filename_index]
        .rfind(badge)
        .unwrap_or_else(|| panic!("missing badge {badge:?} before {filename:?}"));
    assert_escape_before(output, badge_index, expected_color, &badge.to_string());
}

fn assert_escape_before(output: &str, token_index: usize, expected_color: SetForegroundColor, label: &str) {
    let expected_escape = expected_color.to_string();
    let actual_start = token_index.saturating_sub(expected_escape.len());
    assert_eq!(&output[actual_start..token_index], expected_escape, "unexpected color before {label:?}");
}

fn ansi_options() -> RenderOptions {
    RenderOptions { format: OutputFormat::Ansi, color: ColorPolicy::Always, width: 80, view: StatusView::Full }
}

fn plain_options() -> RenderOptions {
    RenderOptions { format: OutputFormat::Plain, color: ColorPolicy::Never, width: 80, view: StatusView::Full }
}

fn ansi_diff_options(width: usize) -> RenderOptions {
    RenderOptions { format: OutputFormat::Ansi, color: ColorPolicy::Always, width, view: StatusView::Full }
}

fn plain_diff_options(width: usize) -> RenderOptions {
    RenderOptions { format: OutputFormat::Plain, color: ColorPolicy::Never, width, view: StatusView::Full }
}

#[test]
fn palette_holds_crossterm_escapes_of_theme_colors() {
    let theme = ColorTheme { modified: ThemeColor::Rgb { r: 1, g: 2, b: 3 }, added: ThemeColor::AnsiValue(200), ..ColorTheme::default() };
    let palette = palette_for(&theme);
    assert_eq!(palette.modified, SetForegroundColor(Color::Rgb { r: 1, g: 2, b: 3 }).to_string());
    assert_eq!(palette.added, SetForegroundColor(Color::AnsiValue(200)).to_string());
    assert_eq!(palette.deleted, SetForegroundColor(Color::Red).to_string());
    assert_eq!(palette.reset, "\x1b[0m");
    assert!(palette.modified.starts_with("\x1b[") && palette.modified.ends_with('m'));
}

#[test]
fn theme_colors_are_spelled_as_crossterm_names_them() {
    use_spec(ThemeColor::DarkGrey, ColorSpec::Named("dark_grey"));
    use_spec(ThemeColor::Reset, ColorSpec::Named("reset"));
    use_spec(ThemeColor::Rgb { r: 9, g: 8, b: 7 }, ColorSpec::Rgb { r: 9, g: 8, b: 7 });
    use_spec(ThemeColor::AnsiValue(42), ColorSpec::Indexed(42));
    for c in [ThemeColor::Black, ThemeColor::DarkYellow, ThemeColor::Grey, ThemeColor::DarkCyan] {
        match color_spec(c) {
            ColorSpec::Named(name) => assert_eq!(Color::try_from(name), Ok(crossterm_color(c))),
            other => panic!("expected a name, got {other:?}"),
        }
    }
}

fn use_spec(c: ThemeColor, expected: ColorSpec) {
    assert_eq!(color_spec(c), expected);
}

#[test]
fn colored_status_differs_from_plain_for_entries() {
    let entries = status_fixture();
    let plain = render_status(&entries, &plain_options()).unwrap();
    let ansi = render_status(&entries, &ansi_options()).unwrap();
    assert_ne!(ansi, plain);
    let none: Vec<GdlEntry> = Vec::new();
    assert_eq!(render_status(&none, &ansi_options()).unwrap(), render_status(&none, &plain_options()).unwrap());
}

#[test]
fn palette_colors_every_slot_or_none() {
    let p = palette_for(&ColorTheme::default());
    let slots = [
        &p.modified, &p.added, &p.deleted, &p.renamed, &p.conflict, &p.untracked,
        &p.filename, &p.dir_path, &p.lines_added, &p.lines_removed, &p.hunk_header, &p.section_header,
    ];
    let colored = slots.iter().filter(|s| s.as_str() != "\x1b[m").count();
    assert!(colored == 0 || colored == slots.len());
    for s in slots {
        assert!(s.starts_with("\x1b["));
    }
    assert_eq!(p.modified, fg(ColorTheme::default().modified).to_string());
}
