//! Render options and the renderers of status and diff output.

use vstd::prelude::*;
use crate::model::GdlEntry;
use crate::model::FileDiff;
use crate::model::DiffArea;
use crate::model::Hunk;
use crate::model::version;
use crate::model::package_version;
use crate::order::sort_entries;
use crate::order::sort_status_entries;
use crate::order::ties_identical;
use crate::status::StatusRecord;
use crate::status::status_of;
use crate::status::record_entries;
use crate::status::law_status_independent_of_walk_order;
use crate::style::ColorTheme;
use crate::style::Palette;
use crate::style::palette_for;
use crate::style::palette_wf;
use crate::style::palette_of;
use crate::style::default_color_theme;
use crate::style::styled;
use crate::style::paint;
use crate::render_status::status_spans;
use crate::render_status::paths_lines;
use crate::render_status::copy_entry;
use crate::render_diff::diff_spans;
use crate::render_diff::write_diff;
use crate::text::push_str;
use crate::text::decimal;
use crate::text::digit_char;
use crate::text::pad_right;
use crate::text::spaces;
use crate::text::lossy_utf8;
use crate::style::Span;
use crate::style::escape_free;
use crate::style::strip_ansi;
use crate::style::law_strip_styled;
use crate::style::lemma_plain_free;
use crate::style::lemma_painted_has_escape;
use crate::model::ChangeKind;
use crate::model::ChangeSection;
use crate::model::area_name;
use crate::paths::segments;
use crate::paths::seg_len;
use crate::paths::keep_components;
use crate::paths::components;
use crate::paths::join_slash;
use crate::paths::slash_form;
use crate::paths::lead_of;
use crate::paths::display_components;
use crate::paths::file_name_of;
use crate::paths::directory_of;
use crate::render_status::entry_spans;
use crate::render_status::count_spans;
use crate::render_status::origin_spans;
use crate::render_status::rows_spans;
use crate::render_status::in_section;
use crate::render_status::section_block;
use crate::render_status::sections_spans;
use crate::render_status::section_title_of;
use crate::render_status::badge_of;
use crate::render_status::NAME_WIDTH;
use crate::render_status::DIR_WIDTH;
use crate::render_diff::line_text;
use crate::render_diff::range_text;
use crate::render_diff::hunk_header_text;
use crate::render_diff::gutter_lines;
use crate::render_diff::raw_lines;
use crate::render_diff::unified_hunk;
use crate::render_diff::side_row;
use crate::render_diff::side_rows;
use crate::render_diff::side_hunk;
use crate::render_diff::row_count;
use crate::render_diff::hunks_spans;
use crate::render_diff::diff_title;
use crate::render_diff::side_width;

verus! {

/// Output encoding for renderers.
#[derive(Debug, Clone, Copy, PartialEq, Eq, Structural)]
pub enum OutputFormat {
    /// Deterministic plain text without ANSI escapes.
    Plain,
    /// Deterministic plain text with ANSI escapes.
    Ansi,
    /// Stable JSON for tools and agent consumers.
    Json,
}

/// ANSI color policy for renderers that support color.
#[derive(Debug, Clone, Copy, PartialEq, Eq, Structural)]
pub enum ColorPolicy {
    /// Never emit ANSI escapes.
    Never,
    /// Always emit ANSI escapes.
    Always,
}

/// Status rendering mode.
#[derive(Debug, Clone, Copy, PartialEq, Eq, Structural)]
pub enum StatusView {
    /// Section headers, badges, paths and line counts.
    Full,
    /// Entry paths alone.
    PathsOnly,
}

/// Rendering options shared by the renderers.
#[derive(Debug, Clone, Copy, PartialEq, Eq, Structural)]
pub struct RenderOptions {
    /// Requested output format.
    pub format: OutputFormat,
    /// Requested ANSI color policy.
    pub color: ColorPolicy,
    /// Target terminal width.
    pub width: usize,
    /// Requested status view.
    pub view: StatusView,
}

/// Whether options ask for ANSI escapes: the ANSI format with colors always on.
pub open spec fn wants_color(o: RenderOptions) -> bool {
    o.format == OutputFormat::Ansi && o.color == ColorPolicy::Always
}

/// Whether options ask for a structured JSON document, which callers serialize.
pub open spec fn wants_json_document(o: RenderOptions) -> bool {
    o.format == OutputFormat::Json && o.view == StatusView::Full
}

/// Stable top-level JSON shape for status output.
#[derive(Debug, Clone, PartialEq, Eq)]
pub struct StatusOutput {
    /// Schema version, the package version.
    pub version: String,
    /// Status entries in status order.
    pub entries: Vec<GdlEntry>,
}

/// Stable top-level JSON shape for diff output.
#[derive(Debug, Clone, PartialEq, Eq)]
pub struct DiffOutput {
    /// Schema version, the package version.
    pub version: String,
    /// Repository-relative file path.
    pub file: String,
    /// Diff area the hunks compare.
    pub area: DiffArea,
    /// Render width the output was requested at.
    pub width: usize,
    /// Whether either side is binary.
    pub binary: bool,
    /// Text hunks in diff order.
    pub hunks: Vec<Hunk>,
}

impl StatusOutput {
    /// The JSON document of status entries, tagged with the package version.
    pub fn new(entries: Vec<GdlEntry>) -> (o: StatusOutput)
        ensures
            o.version@ == package_version(),
            o.entries == entries,
    {
        let mut v = String::new();
        push_str(&mut v, version());
        StatusOutput { version: v, entries }
    }
}

impl DiffOutput {
    /// The JSON document of a file diff at a render width, tagged with the package version.
    pub fn new(diff: FileDiff, width: usize) -> (o: DiffOutput)
        ensures
            o.version@ == package_version(),
            o.file == diff.file,
            o.area == diff.area,
            o.width == width,
            o.binary == diff.binary,
            o.hunks == diff.hunks,
    {
        let mut v = String::new();
        push_str(&mut v, version());
        DiffOutput { version: v, file: diff.file, area: diff.area, width, binary: diff.binary, hunks: diff.hunks }
    }
}

/// The lower-case hexadecimal digit of `d < 16`.
pub open spec fn hex_digit(d: nat) -> char {
    if d < 10 {
        digit_char(d)
    } else {
        ((87 + d) as u8) as char
    }
}

/// How serde_json writes a character inside a JSON string: `"` and `\` behind a `\`,
/// backspace, tab, newline, form feed and carriage return as `\b`, `\t`, `\n`, `\f` and
/// `\r`, other control characters as `\u00` and two lower-case hexadecimal digits, and
/// every other character as it is.
pub open spec fn json_char(c: char) -> Seq<char> {
    if c == '"' {
        seq!['\\', '"']
    } else if c == '\\' {
        seq!['\\', '\\']
    } else if c == '\x08' {
        seq!['\\', 'b']
    } else if c == '\t' {
        seq!['\\', 't']
    } else if c == '\n' {
        seq!['\\', 'n']
    } else if c == '\x0c' {
        seq!['\\', 'f']
    } else if c == '\r' {
        seq!['\\', 'r']
    } else if (c as u32) < 0x20 {
        seq!['\\', 'u', '0', '0', hex_digit(((c as u32) / 16) as nat), hex_digit(((c as u32) % 16) as nat)]
    } else {
        seq![c]
    }
}

/// A string as a JSON string literal.
pub open spec fn json_string(s: Seq<char>) -> Seq<char> {
    seq!['"'] + s.map_values(|c: char| json_char(c)).flatten() + seq!['"']
}

/// The items of a pretty JSON array, each on its own line indented by two spaces, with
/// commas between them.
pub open spec fn pretty_items(items: Seq<Seq<char>>) -> Seq<char>
    decreases items.len(),
{
    if items.len() == 0 {
        Seq::empty()
    } else if items.len() == 1 {
        seq!['\n', ' ', ' '] + json_string(items[0])
    } else {
        pretty_items(items.drop_last()) + seq![',', '\n', ' ', ' '] + json_string(items.last())
    }
}

/// What serde_json's `to_string_pretty` writes for a list of strings: `[]` for none, and
/// otherwise `[`, the items, a newline and `]`.
pub open spec fn pretty_json_string_list(items: Seq<Seq<char>>) -> Seq<char> {
    if items.len() == 0 {
        seq!['[', ']']
    } else {
        seq!['['] + pretty_items(items) + seq!['\n', ']']
    }
}

/// Serializes a list of strings with serde_json's `to_string_pretty` and its
/// `PrettyFormatter`: strings are escaped as its `format_escaped_str` does, and the
/// array is written by `begin_array`, `begin_array_value` and `end_array`, indenting by
/// two spaces. serde_json documents two causes of failure, a failing `Serialize` impl and
/// a map with non-string keys, and a list of strings has neither, so the result is
/// always `Ok`.
#[verifier::external_body]
fn json_string_list(items: &Vec<String>) -> (r: Result<String, String>)
    ensures
        r is Ok,
        r matches Ok(s) ==> s@ == pretty_json_string_list(items@.map_values(|i: String| i@)),
{
    serde_json::to_string_pretty(items).map_err(|e| e.to_string())
}

/// The paths of entries, in order.
pub open spec fn entry_paths(es: Seq<GdlEntry>) -> Seq<Seq<char>> {
    es.map_values(|e: GdlEntry| e.path@)
}

/// Renders status entries. The full view in JSON is a structured document that callers
/// serialize (`StatusOutput`), so it is not asked of this function. The paths-only view
/// lists paths in status order, one per line, or as a JSON array of strings; the full view
/// shows sections, plain or with ANSI colors.
pub fn render_status(entries: &Vec<GdlEntry>, options: &RenderOptions) -> (r: Result<String, String>)
    requires
        !wants_json_document(*options),
    ensures
        options.view == StatusView::PathsOnly && options.format == OutputFormat::Json ==> (r matches Ok(s)
            && s@ == pretty_json_string_list(entry_paths(sort_entries(entries@)))),
        options.view == StatusView::PathsOnly && options.format != OutputFormat::Json ==> (r matches Ok(s)
            && s@ == paths_lines(sort_entries(entries@))),
        options.view == StatusView::Full && !wants_color(*options) ==> (r matches Ok(s) && s@ == styled(
            status_spans(entries@),
            None,
        )),
        options.view == StatusView::Full && wants_color(*options) ==> (r matches Ok(s) && exists|p: Palette|
            palette_wf(p) && palette_of(p, default_color_theme()) && s@ == styled(
                status_spans(entries@),
                Some(p),
            )),
{
    match options.view {
        StatusView::PathsOnly => {
            let mut copies: Vec<GdlEntry> = Vec::new();
            let mut i: usize = 0;
            while i < entries.len()
                invariant
                    i <= entries.len(),
                    copies@ == entries@.take(i as int),
                decreases entries.len() - i,
            {
                copies.push(copy_entry(&entries[i]));
                i = i + 1;
                assert(copies@ =~= entries@.take(i as int));
            }
            assert(entries@.take(i as int) =~= entries@);
            let sorted = sort_status_entries(copies);
            if options.format == OutputFormat::Json {
                let mut paths: Vec<String> = Vec::new();
                let mut k: usize = 0;
                assert(entry_paths(sorted@.take(0)) =~= Seq::<Seq<char>>::empty());
                while k < sorted.len()
                    invariant
                        k <= sorted.len(),
                        paths@.map_values(|p: String| p@) == entry_paths(sorted@.take(k as int)),
                    decreases sorted.len() - k,
                {
                    let ghost before = paths@.map_values(|p: String| p@);
                    let path = sorted[k].path.clone();
                    paths.push(path);
                    assert(paths@.map_values(|p: String| p@) =~= before.push(sorted@[k as int].path@));
                    assert(entry_paths(sorted@.take(k + 1)) =~= entry_paths(sorted@.take(k as int)).push(
                        sorted@[k as int].path@,
                    ));
                    k = k + 1;
                }
                assert(sorted@.take(k as int) =~= sorted@);
                json_string_list(&paths)
            } else {
                let mut out = String::new();
                let mut k: usize = 0;
                assert(sorted@.take(0) =~= Seq::<GdlEntry>::empty());
                while k < sorted.len()
                    invariant
                        k <= sorted.len(),
                        out@ == paths_lines(sorted@.take(k as int)),
                    decreases sorted.len() - k,
                {
                    push_str(&mut out, sorted[k].path.as_str());
                    push_str(&mut out, "\n");
                    assert(sorted@.take(k + 1).drop_last() =~= sorted@.take(k as int));
                    k = k + 1;
                }
                assert(sorted@.take(k as int) =~= sorted@);
                Ok(out)
            }
        },
        StatusView::Full => {
            if options.format == OutputFormat::Ansi && options.color == ColorPolicy::Always {
                let pal = palette_for(&ColorTheme::default());
                let s = crate::render_status::write_status(entries, Some(&pal));
                Ok(s)
            } else {
                Ok(crate::render_status::write_status(entries, None))
            }
        },
    }
}

/// Renders a file diff as text: the layout follows `options.width`, and colors are
/// written when the options ask for them. JSON output is the `DiffOutput` document,
/// which callers serialize.
pub fn render_diff(diff: &FileDiff, options: &RenderOptions) -> (s: String)
    requires
        options.format != OutputFormat::Json,
    ensures
        !wants_color(*options) ==> s@ == styled(diff_spans(*diff, options.width), None),
        wants_color(*options) ==> exists|p: Palette|
            palette_wf(p) && palette_of(p, default_color_theme()) && s@ == styled(
                diff_spans(*diff, options.width),
                Some(p),
            ),
{
    if options.format == OutputFormat::Ansi && options.color == ColorPolicy::Always {
        let pal = palette_for(&ColorTheme::default());
        write_diff(diff, options.width, Some(&pal))
    } else {
        write_diff(diff, options.width, None)
    }
}

// ----- Escapes removed from colored output -----

/// Whether no span text holds an escape character.
pub open spec fn spans_escape_free(spans: Seq<Span>) -> bool {
    forall|i: int| 0 <= i < spans.len() ==> escape_free(#[trigger] spans[i].1)
}

proof fn lemma_free_concat(a: Seq<Span>, b: Seq<Span>)
    requires
        spans_escape_free(a),
        spans_escape_free(b),
    ensures
        spans_escape_free(a + b),
{
    assert forall|i: int| 0 <= i < (a + b).len() implies escape_free(#[trigger] (a + b)[i].1) by {
        if i < a.len() {
            assert((a + b)[i] == a[i]);
        } else {
            assert((a + b)[i] == b[i - a.len()]);
        }
    }
}

proof fn lemma_free_text_concat(a: Seq<char>, b: Seq<char>)
    requires
        escape_free(a),
        escape_free(b),
    ensures
        escape_free(a + b),
{
    assert forall|i: int| 0 <= i < (a + b).len() implies (a + b)[i] != '\x1b' by {
        if i < a.len() {
            assert((a + b)[i] == a[i]);
        } else {
            assert((a + b)[i] == b[i - a.len()]);
        }
    }
}

proof fn lemma_free_decimal(n: nat)
    ensures
        escape_free(decimal(n)),
    decreases n,
{
    if n >= 10 {
        lemma_free_decimal(n / 10);
        assert(digit_char(n % 10) != '\x1b');
        assert forall|i: int| 0 <= i < decimal(n).len() implies decimal(n)[i] != '\x1b' by {
            if i < decimal(n / 10).len() {
                assert(decimal(n)[i] == decimal(n / 10)[i]);
            }
        }
    } else {
        assert(digit_char(n) != '\x1b');
    }
}

proof fn lemma_free_pad(s: Seq<char>, w: nat)
    requires
        escape_free(s),
    ensures
        escape_free(pad_right(s, w)),
{
    if s.len() < w {
        lemma_free_text_concat(s, spaces((w - s.len()) as nat));
    }
}

proof fn lemma_free_segments(p: Seq<char>)
    requires
        escape_free(p),
    ensures
        forall|i: int| 0 <= i < segments(p).len() ==> escape_free(#[trigger] segments(p)[i]),
    decreases p.len(),
{
    let k = seg_len(p);
    if k < p.len() {
        lemma_free_segments(p.skip(k + 1 as int));
        let rest = segments(p.skip(k + 1 as int));
        assert(segments(p) == seq![p.take(k as int)] + rest);
        assert forall|i: int| 0 <= i < segments(p).len() implies escape_free(#[trigger] segments(p)[i]) by {
            if i > 0 {
                assert(segments(p)[i] == rest[i - 1]);
            }
        }
    }
}

proof fn lemma_free_keep(segs: Seq<Seq<char>>)
    requires
        forall|i: int| 0 <= i < segs.len() ==> escape_free(#[trigger] segs[i]),
    ensures
        forall|i: int| 0 <= i < keep_components(segs).len() ==> escape_free(#[trigger] keep_components(segs)[i]),
    decreases segs.len(),
{
    if segs.len() > 0 {
        let d = segs.drop_last();
        assert forall|i: int| 0 <= i < d.len() implies escape_free(#[trigger] d[i]) by {
            assert(d[i] == segs[i]);
        }
        lemma_free_keep(d);
        assert(escape_free(segs[segs.len() - 1]));
        let k = keep_components(segs);
        assert forall|i: int| 0 <= i < k.len() implies escape_free(#[trigger] k[i]) by {
            if i < keep_components(d).len() {
                assert(k[i] == keep_components(d)[i]);
            }
        }
    }
}

proof fn lemma_free_join(parts: Seq<Seq<char>>)
    requires
        forall|i: int| 0 <= i < parts.len() ==> escape_free(#[trigger] parts[i]),
    ensures
        escape_free(join_slash(parts)),
    decreases parts.len(),
{
    if parts.len() > 1 {
        lemma_free_join(parts.drop_last());
        reveal_strlit("/");
        lemma_free_text_concat(join_slash(parts.drop_last()), "/"@);
        lemma_free_text_concat(join_slash(parts.drop_last()) + "/"@, parts.last());
    } else if parts.len() == 1 {
        assert(escape_free(parts[0]));
    }
}

proof fn lemma_free_path_forms(p: Seq<char>)
    requires
        escape_free(p),
    ensures
        escape_free(slash_form(p)),
        escape_free(file_name_of(p)),
        escape_free(directory_of(p)),
{
    lemma_free_segments(p);
    lemma_free_keep(segments(p));
    reveal_strlit(".");
    reveal_strlit("/");
    let lead = lead_of(p);
    let c = display_components(p);
    assert forall|i: int| 0 <= i < c.len() implies escape_free(#[trigger] c[i]) by {
        if i < lead.len() {
            assert(c[i] == lead[i]);
        } else {
            assert(c[i] == components(p)[i - lead.len()]);
        }
    }
    lemma_free_join(c);
    if c.len() >= 2 {
        let d = c.drop_last();
        assert forall|i: int| 0 <= i < d.len() implies escape_free(#[trigger] d[i]) by {
            assert(d[i] == c[i]);
        }
        lemma_free_join(d);
    }
    if c.len() > 0 {
        assert(escape_free(c[c.len() - 1]));
    }
}

/// Whether an entry's paths hold no escape character.
pub open spec fn entry_escape_free(e: GdlEntry) -> bool {
    &&& escape_free(e.path@)
    &&& match e.old_path {
        Some(o) => escape_free(o@),
        None => true,
    }
}

proof fn lemma_free_entry(e: GdlEntry)
    requires
        entry_escape_free(e),
    ensures
        spans_escape_free(entry_spans(e)),
{
    lemma_free_path_forms(e.path@);
    lemma_free_pad(file_name_of(e.path@), NAME_WIDTH as nat);
    lemma_free_pad(directory_of(e.path@), DIR_WIDTH as nat);
    reveal_strlit("M");
    reveal_strlit("A");
    reveal_strlit("D");
    reveal_strlit("R");
    reveal_strlit("C");
    reveal_strlit("U");
    reveal_strlit("!");
    reveal_strlit("T");
    reveal_strlit("  ");
    reveal_strlit(" ");
    reveal_strlit("\n");
    reveal_strlit("binary");
    reveal_strlit("+");
    reveal_strlit("-");
    reveal_strlit("  from ");
    lemma_free_decimal(e.lines_added as nat);
    lemma_free_decimal(e.lines_removed as nat);
    lemma_free_text_concat("+"@, decimal(e.lines_added as nat));
    lemma_free_text_concat("-"@, decimal(e.lines_removed as nat));
    assert(escape_free(badge_of(e.kind)));
    let head = seq![
        (Some(crate::render_status::kind_slot(e.kind)), badge_of(e.kind)),
        (None, "  "@),
        (Some(crate::style::Slot::Filename), pad_right(file_name_of(e.path@), NAME_WIDTH as nat)),
        (None, " "@),
        (Some(crate::style::Slot::DirPath), pad_right(directory_of(e.path@), DIR_WIDTH as nat)),
        (None, " "@),
    ];
    assert(spans_escape_free(head));
    assert(spans_escape_free(count_spans(e)));
    match e.old_path {
        Some(o) => {
            lemma_free_path_forms(o@);
        },
        None => {},
    }
    assert(spans_escape_free(origin_spans(e)));
    assert(spans_escape_free(seq![(None, "\n"@)]));
    lemma_free_concat(head, count_spans(e));
    lemma_free_concat(head + count_spans(e), origin_spans(e));
    lemma_free_concat(head + count_spans(e) + origin_spans(e), seq![(None, "\n"@)]);
}

proof fn lemma_free_rows(es: Seq<GdlEntry>)
    requires
        forall|i: int| 0 <= i < es.len() ==> entry_escape_free(#[trigger] es[i]),
    ensures
        spans_escape_free(rows_spans(es)),
    decreases es.len(),
{
    if es.len() > 0 {
        lemma_free_rows(es.drop_last());
        lemma_free_entry(es.last());
        lemma_free_concat(rows_spans(es.drop_last()), entry_spans(es.last()));
    }
}

proof fn lemma_free_in_section(es: Seq<GdlEntry>, section: ChangeSection)
    requires
        forall|i: int| 0 <= i < es.len() ==> entry_escape_free(#[trigger] es[i]),
    ensures
        forall|i: int| 0 <= i < in_section(es, section).len() ==> entry_escape_free(#[trigger] in_section(es, section)[i]),
    decreases es.len(),
{
    if es.len() > 0 {
        let d = es.drop_last();
        assert forall|i: int| 0 <= i < d.len() implies entry_escape_free(#[trigger] d[i]) by {
            assert(d[i] == es[i]);
        }
        lemma_free_in_section(d, section);
        assert(entry_escape_free(es[es.len() - 1]));
        let k = in_section(es, section);
        assert forall|i: int| 0 <= i < k.len() implies entry_escape_free(#[trigger] k[i]) by {
            if i < in_section(d, section).len() {
                assert(k[i] == in_section(d, section)[i]);
            }
        }
    }
}

proof fn lemma_free_sorted(es: Seq<GdlEntry>)
    requires
        forall|i: int| 0 <= i < es.len() ==> entry_escape_free(#[trigger] es[i]),
    ensures
        forall|i: int| 0 <= i < sort_entries(es).len() ==> entry_escape_free(#[trigger] sort_entries(es)[i]),
{
    crate::order::lemma_sort_permutes(es);
    let t = sort_entries(es);
    assert forall|i: int| 0 <= i < t.len() implies entry_escape_free(#[trigger] t[i]) by {
        vstd::seq_lib::to_multiset_contains(t, t[i]);
        vstd::seq_lib::to_multiset_contains(es, t[i]);
        assert(t.contains(t[i]));
        let j = choose|j: int| 0 <= j < es.len() && es[j] == t[i];
        assert(entry_escape_free(es[j]));
    }
}

proof fn lemma_free_sections(es: Seq<GdlEntry>, sections: Seq<ChangeSection>, first: bool)
    requires
        forall|i: int| 0 <= i < es.len() ==> entry_escape_free(#[trigger] es[i]),
    ensures
        spans_escape_free(sections_spans(es, sections, first)),
    decreases sections.len(),
{
    if sections.len() > 0 {
        lemma_free_sections(es, sections.drop_first(), false);
        lemma_free_sections(es, sections.drop_first(), first);
        if in_section(es, sections[0]).len() > 0 {
            let sec = sections[0];
            let rows = sort_entries(in_section(es, sec));
            lemma_free_in_section(es, sec);
            lemma_free_sorted(in_section(es, sec));
            lemma_free_rows(rows);
            reveal_strlit("\n");
            reveal_strlit(" (");
            reveal_strlit(")");
            reveal_strlit("Staged Changes");
            reveal_strlit("Changes");
            reveal_strlit("Untracked");
            reveal_strlit("Merge Changes");
            lemma_free_decimal(rows.len());
            lemma_free_text_concat(section_title_of(sec), " ("@);
            lemma_free_text_concat(section_title_of(sec) + " ("@, decimal(rows.len()));
            lemma_free_text_concat(section_title_of(sec) + " ("@ + decimal(rows.len()), ")"@);
            let pre: Seq<Span> = if first { Seq::empty() } else { seq![(None, "\n"@)] };
            let head: Seq<Span> = seq![
                (Some(crate::style::Slot::SectionHeader), section_title_of(sec) + " ("@ + decimal(rows.len()) + ")"@),
                (None, "\n"@),
            ];
            assert(spans_escape_free(pre));
            assert(spans_escape_free(head));
            lemma_free_concat(pre, head);
            lemma_free_concat(pre + head, rows_spans(rows));
            assert(section_block(es, sec, first) == pre + head + rows_spans(rows));
            lemma_free_concat(section_block(es, sec, first), sections_spans(es, sections.drop_first(), false));
        }
    }
}

/// Removing the ANSI escapes from the colored status view gives the plain status view,
/// whenever no path holds an escape character.
pub proof fn law_status_colors_strip_to_plain(entries: Seq<GdlEntry>, p: Palette)
    requires
        palette_wf(p),
        forall|i: int| 0 <= i < entries.len() ==> entry_escape_free(#[trigger] entries[i]),
    ensures
        strip_ansi(styled(status_spans(entries), Some(p))) == styled(status_spans(entries), None),
{
    lemma_free_sections(entries, crate::render_status::section_sequence(), true);
    law_strip_styled(status_spans(entries), p);
}

/// Whether every line of every hunk decodes to text without an escape character.
pub open spec fn hunks_escape_free(hs: Seq<Hunk>) -> bool {
    forall|i: int| 0 <= i < hs.len() ==> hunk_escape_free(#[trigger] hs[i])
}

/// Whether every line of a hunk decodes to text without an escape character.
pub open spec fn hunk_escape_free(h: Hunk) -> bool {
    &&& forall|j: int| 0 <= j < h.old_bytes@.len() ==> escape_free(lossy_utf8(#[trigger] h.old_bytes@[j]@))
    &&& forall|j: int| 0 <= j < h.new_bytes@.len() ==> escape_free(lossy_utf8(#[trigger] h.new_bytes@[j]@))
}

proof fn lemma_free_line_text(l: Seq<u8>)
    requires
        escape_free(lossy_utf8(l)),
    ensures
        escape_free(line_text(l)),
{
}

proof fn lemma_free_gutter(lines: Seq<Seq<u8>>, g: char, slot: crate::style::Slot)
    requires
        g != '\x1b',
        forall|i: int| 0 <= i < lines.len() ==> escape_free(lossy_utf8(#[trigger] lines[i])),
    ensures
        spans_escape_free(gutter_lines(lines, g, slot)),
    decreases lines.len(),
{
    if lines.len() > 0 {
        lemma_free_gutter(lines.drop_last(), g, slot);
        lemma_free_line_text(lines.last());
        lemma_free_text_concat(seq![g], line_text(lines.last()));
        reveal_strlit("\n");
        let tail: Seq<Span> = seq![(Some(slot), seq![g] + line_text(lines.last())), (None, "\n"@)];
        assert(spans_escape_free(tail));
        lemma_free_concat(gutter_lines(lines.drop_last(), g, slot), tail);
    }
}

proof fn lemma_free_header(h: Hunk)
    ensures
        escape_free(hunk_header_text(h)),
{
    reveal_strlit("@@ -");
    reveal_strlit(" +");
    reveal_strlit(" @@");
    reveal_strlit(",");
    lemma_free_decimal(h.old_start as nat);
    lemma_free_decimal(h.old_lines as nat);
    lemma_free_decimal(h.new_start as nat);
    lemma_free_decimal(h.new_lines as nat);
    lemma_free_text_concat(decimal(h.old_start as nat), ","@);
    lemma_free_text_concat(decimal(h.old_start as nat) + ","@, decimal(h.old_lines as nat));
    lemma_free_text_concat(decimal(h.new_start as nat), ","@);
    lemma_free_text_concat(decimal(h.new_start as nat) + ","@, decimal(h.new_lines as nat));
    let a = range_text(h.old_start, h.old_lines);
    let b = range_text(h.new_start, h.new_lines);
    lemma_free_text_concat("@@ -"@, a);
    lemma_free_text_concat("@@ -"@ + a, " +"@);
    lemma_free_text_concat("@@ -"@ + a + " +"@, b);
    lemma_free_text_concat("@@ -"@ + a + " +"@ + b, " @@"@);
}

proof fn lemma_free_side_rows(h: Hunk, n: nat, col: nat)
    requires
        forall|j: int| 0 <= j < h.old_bytes@.len() ==> escape_free(lossy_utf8(#[trigger] h.old_bytes@[j]@)),
        forall|j: int| 0 <= j < h.new_bytes@.len() ==> escape_free(lossy_utf8(#[trigger] h.new_bytes@[j]@)),
    ensures
        spans_escape_free(side_rows(h, n, col)),
    decreases n,
{
    if n > 0 {
        lemma_free_side_rows(h, (n - 1) as nat, col);
        let k = n - 1;
        let old = raw_lines(h.old_bytes@);
        let new = raw_lines(h.new_bytes@);
        reveal_strlit("-");
        reveal_strlit("+");
        reveal_strlit(" | ");
        reveal_strlit("\n");
        let left: Seq<Span> = if k < old.len() {
            assert(old[k] == h.old_bytes@[k]@);
            lemma_free_line_text(old[k]);
            lemma_free_text_concat("-"@, line_text(old[k]));
            lemma_free_pad("-"@ + line_text(old[k]), col);
            seq![(Some(crate::style::Slot::LinesRemoved), pad_right("-"@ + line_text(old[k]), col))]
        } else {
            seq![(None, spaces(col))]
        };
        let right: Seq<Span> = if k < new.len() {
            assert(new[k] == h.new_bytes@[k]@);
            lemma_free_line_text(new[k]);
            lemma_free_text_concat("+"@, line_text(new[k]));
            seq![(Some(crate::style::Slot::LinesAdded), "+"@ + line_text(new[k]))]
        } else {
            Seq::empty()
        };
        assert(spans_escape_free(left));
        assert(spans_escape_free(right));
        assert(spans_escape_free(seq![(None, " | "@)]));
        assert(spans_escape_free(seq![(None, "\n"@)]));
        lemma_free_concat(left, seq![(None, " | "@)]);
        lemma_free_concat(left + seq![(None, " | "@)], right);
        lemma_free_concat(left + seq![(None, " | "@)] + right, seq![(None, "\n"@)]);
        assert(side_row(h, k, col) == left + seq![(None, " | "@)] + right + seq![(None, "\n"@)]);
        lemma_free_concat(side_rows(h, (n - 1) as nat, col), side_row(h, k, col));
    }
}

proof fn lemma_free_hunks(hs: Seq<Hunk>, wide: bool, col: nat)
    requires
        hunks_escape_free(hs),
    ensures
        spans_escape_free(hunks_spans(hs, wide, col)),
    decreases hs.len(),
{
    if hs.len() > 0 {
        let h = hs.last();
        assert(hunks_escape_free(hs.drop_last())) by {
            assert forall|i: int| 0 <= i < hs.drop_last().len() implies hunk_escape_free(#[trigger] hs.drop_last()[i]) by {
                assert(hs.drop_last()[i] == hs[i]);
            }
        }
        assert(hunk_escape_free(h));
        lemma_free_hunks(hs.drop_last(), wide, col);
        lemma_free_header(h);
        reveal_strlit("\n");
        let head: Seq<Span> = seq![(Some(crate::style::Slot::HunkHeader), hunk_header_text(h)), (None, "\n"@)];
        assert(spans_escape_free(head));
        if wide {
            lemma_free_side_rows(h, row_count(h), col);
            lemma_free_concat(head, side_rows(h, row_count(h), col));
            assert(side_hunk(h, col) == head + side_rows(h, row_count(h), col));
            lemma_free_concat(hunks_spans(hs.drop_last(), wide, col), side_hunk(h, col));
        } else {
            let old = raw_lines(h.old_bytes@);
            let new = raw_lines(h.new_bytes@);
            assert forall|i: int| 0 <= i < old.len() implies escape_free(lossy_utf8(#[trigger] old[i])) by {
                assert(old[i] == h.old_bytes@[i]@);
            }
            assert forall|i: int| 0 <= i < new.len() implies escape_free(lossy_utf8(#[trigger] new[i])) by {
                assert(new[i] == h.new_bytes@[i]@);
            }
            lemma_free_gutter(old, '-', crate::style::Slot::LinesRemoved);
            lemma_free_gutter(new, '+', crate::style::Slot::LinesAdded);
            lemma_free_concat(head, gutter_lines(old, '-', crate::style::Slot::LinesRemoved));
            lemma_free_concat(head + gutter_lines(old, '-', crate::style::Slot::LinesRemoved), gutter_lines(new, '+', crate::style::Slot::LinesAdded));
            assert(unified_hunk(h) == head + gutter_lines(old, '-', crate::style::Slot::LinesRemoved) + gutter_lines(new, '+', crate::style::Slot::LinesAdded));
            lemma_free_concat(hunks_spans(hs.drop_last(), wide, col), unified_hunk(h));
        }
    }
}

/// The spans of a diff hold no escape character when neither its path nor any decoded
/// line does.
proof fn lemma_free_diff(d: FileDiff, width: usize)
    requires
        escape_free(d.file@),
        hunks_escape_free(d.hunks@),
    ensures
        spans_escape_free(diff_spans(d, width)),
{
    reveal_strlit("Binary file ");
    reveal_strlit(" changed\n");
    reveal_strlit("diff --");
    reveal_strlit(" ");
    reveal_strlit("\n");
    reveal_strlit("--- a/");
    reveal_strlit("+++ b/");
    reveal_strlit(" | ");
    reveal_strlit("worktree");
    reveal_strlit("staged");
    reveal_strlit("head");
    let f = d.file@;
    assert(escape_free(area_name(d.area)));
    if d.binary {
        lemma_free_text_concat("Binary file "@, f);
        lemma_free_text_concat("Binary file "@ + f, " changed\n"@);
        assert(spans_escape_free(diff_spans(d, width)));
    } else {
        lemma_free_text_concat("diff --"@, area_name(d.area));
        lemma_free_text_concat("diff --"@ + area_name(d.area), " "@);
        lemma_free_text_concat("diff --"@ + area_name(d.area) + " "@, f);
        lemma_free_text_concat("diff --"@ + area_name(d.area) + " "@ + f, "\n"@);
        let t = diff_title(d);
        lemma_free_text_concat("--- a/"@, f);
        lemma_free_text_concat("+++ b/"@, f);
        lemma_free_text_concat("+++ b/"@ + f, "\n"@);
        if width >= crate::render_diff::SIDE_BY_SIDE_WIDTH {
            let col = side_width(width);
            lemma_free_pad("--- a/"@ + f, col);
            lemma_free_text_concat(t, pad_right("--- a/"@ + f, col));
            lemma_free_text_concat(t + pad_right("--- a/"@ + f, col), " | "@);
            lemma_free_text_concat(t + pad_right("--- a/"@ + f, col) + " | "@, "+++ b/"@ + f);
            lemma_free_text_concat(t + pad_right("--- a/"@ + f, col) + " | "@ + ("+++ b/"@ + f), "\n"@);
            assert(t + pad_right("--- a/"@ + f, col) + " | "@ + "+++ b/"@ + f + "\n"@ =~= t + pad_right("--- a/"@ + f, col) + " | "@ + ("+++ b/"@ + f) + "\n"@);
            let head: Seq<Span> = seq![(None, t + pad_right("--- a/"@ + f, col) + " | "@ + "+++ b/"@ + f + "\n"@)];
            assert(spans_escape_free(head));
            lemma_free_hunks(d.hunks@, true, col);
            lemma_free_concat(head, hunks_spans(d.hunks@, true, col));
        } else {
            lemma_free_text_concat("--- a/"@ + f, "\n"@);
            lemma_free_text_concat(t, "--- a/"@ + f + "\n"@);
            lemma_free_text_concat(t + ("--- a/"@ + f + "\n"@), "+++ b/"@ + f + "\n"@);
            assert(t + "--- a/"@ + f + "\n"@ + "+++ b/"@ + f + "\n"@ =~= t + ("--- a/"@ + f + "\n"@) + ("+++ b/"@ + f + "\n"@));
            let head: Seq<Span> = seq![(None, t + "--- a/"@ + f + "\n"@ + "+++ b/"@ + f + "\n"@)];
            assert(spans_escape_free(head));
            lemma_free_hunks(d.hunks@, false, 0);
            lemma_free_concat(head, hunks_spans(d.hunks@, false, 0));
        }
    }
}

/// Removing the ANSI escapes from a colored diff gives the plain diff at the same width,
/// whenever neither the file path nor any decoded line holds an escape character.
pub proof fn law_diff_colors_strip_to_plain(d: FileDiff, width: usize, p: Palette)
    requires
        palette_wf(p),
        escape_free(d.file@),
        hunks_escape_free(d.hunks@),
    ensures
        strip_ansi(styled(diff_spans(d, width), Some(p))) == styled(diff_spans(d, width), None),
{
    lemma_free_diff(d, width);
    law_strip_styled(diff_spans(d, width), p);
}

/// The plain diff holds no escape character when neither the file path nor any decoded
/// line does.
pub proof fn law_plain_diff_has_no_escape(d: FileDiff, width: usize)
    requires
        escape_free(d.file@),
        hunks_escape_free(d.hunks@),
    ensures
        escape_free(styled(diff_spans(d, width), None)),
{
    lemma_free_diff(d, width);
    lemma_plain_free(diff_spans(d, width));
}

/// The plain status holds no escape character when no path or previous path does.
pub proof fn law_plain_status_has_no_escape(entries: Seq<GdlEntry>)
    requires
        forall|i: int| 0 <= i < entries.len() ==> entry_escape_free(#[trigger] entries[i]),
    ensures
        escape_free(styled(status_spans(entries), None)),
{
    lemma_free_sections(entries, crate::render_status::section_sequence(), true);
    lemma_plain_free(status_spans(entries));
}

/// Some span of the sections' blocks is painted when one of the sections holds entries.
proof fn lemma_sections_painted(es: Seq<GdlEntry>, sections: Seq<ChangeSection>, first: bool, k: int)
    requires
        0 <= k < sections.len(),
        in_section(es, sections[k]).len() > 0,
    ensures
        exists|i: int| 0 <= i < sections_spans(es, sections, first).len() && (#[trigger] sections_spans(es, sections, first)[i]).0 is Some,
    decreases sections.len(),
{
    let all = sections_spans(es, sections, first);
    if in_section(es, sections[0]).len() > 0 {
        let block = section_block(es, sections[0], first);
        let rest = sections_spans(es, sections.drop_first(), false);
        assert(all == block + rest);
        let h: int = if first { 0 } else { 1 };
        assert(block[h].0 is Some);
        assert(all[h] == block[h]);
    } else {
        assert(k > 0);
        assert(sections.drop_first()[k - 1] == sections[k]);
        lemma_sections_painted(es, sections.drop_first(), first, k - 1);
    }
}

/// The colored full status differs from the plain one whenever there are entries, as long
/// as no path or previous path holds an escape character.
pub proof fn law_colored_status_differs_from_plain(entries: Seq<GdlEntry>, p: Palette)
    requires
        palette_wf(p),
        entries.len() > 0,
        forall|i: int| 0 <= i < entries.len() ==> entry_escape_free(#[trigger] entries[i]),
    ensures
        styled(status_spans(entries), Some(p)) != styled(status_spans(entries), None),
{
    let sec = entries.last().section;
    assert(entries.drop_last().push(entries.last()) =~= entries);
    assert(in_section(entries, sec).len() > 0);
    let seqs = crate::render_status::section_sequence();
    let k: int = match sec {
        ChangeSection::Staged => 0,
        ChangeSection::WorkingTree => 1,
        ChangeSection::Untracked => 2,
        ChangeSection::Conflicted => 3,
    };
    assert(seqs[k] == sec);
    lemma_sections_painted(entries, seqs, true, k);
    law_plain_status_has_no_escape(entries);
    lemma_painted_has_escape(status_spans(entries), p);
    let j = choose|j: int| 0 <= j < styled(status_spans(entries), Some(p)).len() && styled(status_spans(entries), Some(p))[j] == '\x1b';
    if styled(status_spans(entries), Some(p)) == styled(status_spans(entries), None) {
        assert(styled(status_spans(entries), None)[j] != '\x1b');
    }
}

/// The plain text of the count column: `!` for a conflict, `binary` for binary content,
/// and `+added -removed` otherwise; a conflict shows `!` even when its content is binary.
pub proof fn law_plain_count_text(e: GdlEntry)
    ensures
        styled(count_spans(e), None) == if e.kind == ChangeKind::Conflicted {
            "!"@
        } else if e.is_binary {
            "binary"@
        } else {
            "+"@ + decimal(e.lines_added as nat) + " "@ + "-"@ + decimal(e.lines_removed as nat)
        },
{
    let c = count_spans(e);
    let d1 = c.drop_first();
    assert(styled(c, None) == paint(c[0], None) + styled(d1, None));
    assert(paint(c[0], None) == c[0].1);
    if e.kind == ChangeKind::Conflicted || e.is_binary {
        assert(d1 =~= Seq::<Span>::empty());
        assert(styled(c, None) =~= c[0].1);
    } else {
        let d2 = d1.drop_first();
        let d3 = d2.drop_first();
        assert(d1[0] == c[1] && d2[0] == c[2]);
        assert(d3 =~= Seq::<Span>::empty());
        assert(styled(d1, None) == paint(d1[0], None) + styled(d2, None));
        assert(styled(d2, None) == paint(d2[0], None) + styled(d3, None));
        assert(styled(c, None) =~= c[0].1 + (c[1].1 + (c[2].1 + Seq::<char>::empty())));
        assert(c[0].1 + (c[1].1 + (c[2].1 + Seq::<char>::empty())) =~= "+"@ + decimal(e.lines_added as nat) + " "@
            + "-"@ + decimal(e.lines_removed as nat));
    }
}

/// Status output is byte-stable whatever order the walk met its items in: walks holding
/// the same items render the same text, in either view and with or without colors, as
/// long as entries that share a section, path and kind are the same entry.
pub proof fn law_status_output_independent_of_walk_order(
    a: Seq<StatusRecord>,
    b: Seq<StatusRecord>,
    pal: Option<Palette>,
)
    requires
        a.to_multiset() == b.to_multiset(),
        ties_identical(record_entries(a)),
    ensures
        styled(status_spans(status_of(a)), pal) == styled(status_spans(status_of(b)), pal),
        paths_lines(sort_entries(status_of(a))) == paths_lines(sort_entries(status_of(b))),
        entry_paths(sort_entries(status_of(a))) == entry_paths(sort_entries(status_of(b))),
{
    law_status_independent_of_walk_order(a, b);
}

} // verus!
