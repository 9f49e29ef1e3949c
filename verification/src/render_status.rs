//! The text renderings of status entries: the full section view and the paths-only view.

use vstd::prelude::*;
use crate::model::GdlEntry;
use crate::model::ChangeSection;
use crate::model::ChangeKind;
use crate::order::sort_entries;
use crate::order::sort_status_entries;
use crate::paths::file_name_of;
use crate::paths::directory_of;
use crate::paths::slash_form;
use crate::paths::file_name;
use crate::paths::directory_name;
use crate::paths::slash_path;
use crate::style::Span;
use crate::style::Slot;
use crate::style::Palette;
use crate::style::styled;
use crate::style::pal_of;
use crate::style::push_span;
use crate::style::lemma_styled_push;
use crate::style::lemma_styled_concat;
use crate::paths::components;
use crate::paths::lemma_slash_form_components;
use crate::text::pad_right;
use crate::text::decimal;
use crate::text::push_padded;
use crate::text::push_decimal;
use crate::text::push_char;

verus! {

/// Width of the file name column.
pub const NAME_WIDTH: usize = 17;

/// Width of the directory column.
pub const DIR_WIDTH: usize = 7;

/// The heading of a section.
pub open spec fn section_title_of(section: ChangeSection) -> Seq<char> {
    match section {
        ChangeSection::Staged => "Staged Changes"@,
        ChangeSection::WorkingTree => "Changes"@,
        ChangeSection::Untracked => "Untracked"@,
        ChangeSection::Conflicted => "Merge Changes"@,
    }
}

/// The one-letter badge of a change kind.
pub open spec fn badge_of(kind: ChangeKind) -> Seq<char> {
    match kind {
        ChangeKind::Modified => "M"@,
        ChangeKind::Added => "A"@,
        ChangeKind::Deleted => "D"@,
        ChangeKind::Renamed => "R"@,
        ChangeKind::Copied => "C"@,
        ChangeKind::Untracked => "U"@,
        ChangeKind::Conflicted => "!"@,
        ChangeKind::TypeChanged => "T"@,
    }
}

/// The slot a change kind's badge is painted with.
pub open spec fn kind_slot(kind: ChangeKind) -> Slot {
    match kind {
        ChangeKind::Modified | ChangeKind::TypeChanged => Slot::Modified,
        ChangeKind::Added => Slot::Added,
        ChangeKind::Deleted => Slot::Deleted,
        ChangeKind::Renamed | ChangeKind::Copied => Slot::Renamed,
        ChangeKind::Untracked => Slot::Untracked,
        ChangeKind::Conflicted => Slot::Conflict,
    }
}

/// The count column of an entry: `!` for a conflict, `binary` for binary content,
/// and `+added -removed` otherwise.
pub open spec fn count_spans(e: GdlEntry) -> Seq<Span> {
    if e.kind == ChangeKind::Conflicted {
        seq![(Some(Slot::Conflict), "!"@)]
    } else if e.is_binary {
        seq![(Some(Slot::LinesAdded), "binary"@)]
    } else {
        seq![
            (Some(Slot::LinesAdded), "+"@ + decimal(e.lines_added as nat)),
            (None, " "@),
            (Some(Slot::LinesRemoved), "-"@ + decimal(e.lines_removed as nat)),
        ]
    }
}

/// The `from` part of a renamed or copied entry's row.
pub open spec fn origin_spans(e: GdlEntry) -> Seq<Span> {
    match e.old_path {
        Some(old) => seq![(None, "  from "@), (Some(Slot::DirPath), slash_form(old@))],
        None => Seq::empty(),
    }
}

/// The row of an entry: badge, file name, directory, counts, origin, and a newline.
pub open spec fn entry_spans(e: GdlEntry) -> Seq<Span> {
    seq![
        (Some(kind_slot(e.kind)), badge_of(e.kind)),
        (None, "  "@),
        (Some(Slot::Filename), pad_right(file_name_of(e.path@), NAME_WIDTH as nat)),
        (None, " "@),
        (Some(Slot::DirPath), pad_right(directory_of(e.path@), DIR_WIDTH as nat)),
        (None, " "@),
    ] + count_spans(e) + origin_spans(e) + seq![(None, "\n"@)]
}

/// The row of an entry with a previous path ends with `  from ` and the display form of
/// the whole previous path, from which that path's components read back.
pub proof fn law_row_names_whole_previous_path(e: GdlEntry)
    requires
        e.old_path is Some,
    ensures
        ({
            let row = styled(entry_spans(e), None);
            let shown = slash_form(e.old_path.unwrap()@);
            &&& row.len() >= shown.len() + 8
            &&& row.skip(row.len() - shown.len() - 8) == "  from "@ + shown + "\n"@
            &&& components(shown) == components(e.old_path.unwrap()@)
        }),
{
    reveal_strlit("  from ");
    reveal_strlit("\n");
    let o = e.old_path.unwrap()@;
    let shown = slash_form(o);
    lemma_slash_form_components(o);
    let head = seq![
        (Some(kind_slot(e.kind)), badge_of(e.kind)),
        (None, "  "@),
        (Some(Slot::Filename), pad_right(file_name_of(e.path@), NAME_WIDTH as nat)),
        (None, " "@),
        (Some(Slot::DirPath), pad_right(directory_of(e.path@), DIR_WIDTH as nat)),
        (None, " "@),
    ] + count_spans(e);
    let origin = origin_spans(e);
    let nl: Seq<Span> = seq![(None, "\n"@)];
    assert(entry_spans(e) == head + origin + nl);
    assert(origin == seq![(None, "  from "@), (Some(Slot::DirPath), shown)]);
    lemma_styled_concat(head + origin, nl, None);
    lemma_styled_concat(head, origin, None);
    reveal_with_fuel(styled, 3);
    assert(origin.drop_first().drop_first() =~= Seq::<Span>::empty());
    assert(nl.drop_first() =~= Seq::<Span>::empty());
    assert(styled(origin, None) =~= "  from "@ + shown);
    assert(styled(nl, None) =~= "\n"@);
    let row = styled(entry_spans(e), None);
    let pre = styled(head, None);
    assert(row =~= pre + ("  from "@ + shown + "\n"@));
    assert(row.skip(row.len() - shown.len() - 8) =~= "  from "@ + shown + "\n"@);
}

/// The rows of entries, in order.
pub open spec fn rows_spans(es: Seq<GdlEntry>) -> Seq<Span>
    decreases es.len(),
{
    if es.len() == 0 {
        Seq::empty()
    } else {
        rows_spans(es.drop_last()) + entry_spans(es.last())
    }
}

/// The entries of a section, in the order given.
pub open spec fn in_section(es: Seq<GdlEntry>, section: ChangeSection) -> Seq<GdlEntry>
    decreases es.len(),
{
    if es.len() == 0 {
        Seq::empty()
    } else if es.last().section == section {
        in_section(es.drop_last(), section).push(es.last())
    } else {
        in_section(es.drop_last(), section)
    }
}

/// The block of a non-empty section: a separating blank line unless it is the first
/// block, the heading with the entry count, and the rows in status order.
pub open spec fn section_block(es: Seq<GdlEntry>, section: ChangeSection, first: bool) -> Seq<Span> {
    let rows = sort_entries(in_section(es, section));
    (if first { Seq::empty() } else { seq![(None, "\n"@)] }) + seq![
        (Some(Slot::SectionHeader), section_title_of(section) + " ("@ + decimal(rows.len()) + ")"@),
        (None, "\n"@),
    ] + rows_spans(rows)
}

/// The blocks of the non-empty sections among `sections`, in that order.
pub open spec fn sections_spans(es: Seq<GdlEntry>, sections: Seq<ChangeSection>, first: bool) -> Seq<Span>
    decreases sections.len(),
{
    if sections.len() == 0 {
        Seq::empty()
    } else if in_section(es, sections[0]).len() == 0 {
        sections_spans(es, sections.drop_first(), first)
    } else {
        section_block(es, sections[0], first) + sections_spans(es, sections.drop_first(), false)
    }
}

/// The sections in the order they are shown.
pub open spec fn section_sequence() -> Seq<ChangeSection> {
    seq![ChangeSection::Staged, ChangeSection::WorkingTree, ChangeSection::Untracked, ChangeSection::Conflicted]
}

/// The full status view of entries.
pub open spec fn status_spans(es: Seq<GdlEntry>) -> Seq<Span> {
    sections_spans(es, section_sequence(), true)
}

/// The paths-only view: each path, in status order, on its own line.
pub open spec fn paths_lines(es: Seq<GdlEntry>) -> Seq<char>
    decreases es.len(),
{
    if es.len() == 0 {
        Seq::empty()
    } else {
        paths_lines(es.drop_last()) + es.last().path@ + "\n"@
    }
}

/// Appends a span, keeping track of the spans written so far.
fn emit(
    out: &mut String,
    slot: Option<Slot>,
    text: &str,
    pal: Option<&Palette>,
    Ghost(base): Ghost<Seq<char>>,
    Ghost(acc): Ghost<Seq<Span>>,
)
    requires
        old(out)@ == base + styled(acc, pal_of(pal)),
    ensures
        final(out)@ == base + styled(acc.push((slot, text@)), pal_of(pal)),
{
    push_span(out, slot, text, pal);
    proof {
        lemma_styled_push(acc, (slot, text@), pal_of(pal));
    }
}

fn section_title(section: ChangeSection) -> (s: &'static str)
    ensures
        s@ == section_title_of(section),
{
    match section {
        ChangeSection::Staged => "Staged Changes",
        ChangeSection::WorkingTree => "Changes",
        ChangeSection::Untracked => "Untracked",
        ChangeSection::Conflicted => "Merge Changes",
    }
}

fn kind_badge(kind: ChangeKind) -> (s: &'static str)
    ensures
        s@ == badge_of(kind),
{
    match kind {
        ChangeKind::Modified => "M",
        ChangeKind::Added => "A",
        ChangeKind::Deleted => "D",
        ChangeKind::Renamed => "R",
        ChangeKind::Copied => "C",
        ChangeKind::Untracked => "U",
        ChangeKind::Conflicted => "!",
        ChangeKind::TypeChanged => "T",
    }
}

fn kind_color(kind: ChangeKind) -> (s: Slot)
    ensures
        s == kind_slot(kind),
{
    match kind {
        ChangeKind::Modified | ChangeKind::TypeChanged => Slot::Modified,
        ChangeKind::Added => Slot::Added,
        ChangeKind::Deleted => Slot::Deleted,
        ChangeKind::Renamed | ChangeKind::Copied => Slot::Renamed,
        ChangeKind::Untracked => Slot::Untracked,
        ChangeKind::Conflicted => Slot::Conflict,
    }
}

/// A string holding `prefix` then the decimal representation of `n`.
fn signed_count(prefix: char, n: usize) -> (s: String)
    ensures
        s@ == seq![prefix] + decimal(n as nat),
{
    let mut s = String::new();
    push_char(&mut s, prefix);
    push_decimal(&mut s, n);
    assert(s@ =~= seq![prefix] + decimal(n as nat));
    s
}

/// Appends the row of an entry.
fn push_entry_row(out: &mut String, e: &GdlEntry, pal: Option<&Palette>, Ghost(base): Ghost<Seq<char>>, Ghost(acc): Ghost<Seq<Span>>)
    requires
        old(out)@ == base + styled(acc, pal_of(pal)),
    ensures
        final(out)@ == base + styled(acc + entry_spans(*e), pal_of(pal)),
{
    let ghost mut a = acc;
    emit(out, Some(kind_color(e.kind)), kind_badge(e.kind), pal, Ghost(base), Ghost(a));
    proof { a = a.push((Some(kind_slot(e.kind)), badge_of(e.kind))); }
    emit(out, None, "  ", pal, Ghost(base), Ghost(a));
    proof { a = a.push((None, "  "@)); }
    let mut name_field = String::new();
    push_padded(&mut name_field, file_name(e.path.as_str()).as_str(), NAME_WIDTH);
    emit(out, Some(Slot::Filename), name_field.as_str(), pal, Ghost(base), Ghost(a));
    proof { a = a.push((Some(Slot::Filename), name_field@)); }
    emit(out, None, " ", pal, Ghost(base), Ghost(a));
    proof { a = a.push((None, " "@)); }
    let mut dir_field = String::new();
    push_padded(&mut dir_field, directory_name(e.path.as_str()).as_str(), DIR_WIDTH);
    emit(out, Some(Slot::DirPath), dir_field.as_str(), pal, Ghost(base), Ghost(a));
    proof { a = a.push((Some(Slot::DirPath), dir_field@)); }
    emit(out, None, " ", pal, Ghost(base), Ghost(a));
    proof { a = a.push((None, " "@)); }
    if e.kind == ChangeKind::Conflicted {
        emit(out, Some(Slot::Conflict), "!", pal, Ghost(base), Ghost(a));
        proof { a = a.push((Some(Slot::Conflict), "!"@)); }
    } else if e.is_binary {
        emit(out, Some(Slot::LinesAdded), "binary", pal, Ghost(base), Ghost(a));
        proof { a = a.push((Some(Slot::LinesAdded), "binary"@)); }
    } else {
        let added = signed_count('+', e.lines_added);
        emit(out, Some(Slot::LinesAdded), added.as_str(), pal, Ghost(base), Ghost(a));
        proof {
            reveal_strlit("+");
            assert(added@ =~= "+"@ + decimal(e.lines_added as nat));
            a = a.push((Some(Slot::LinesAdded), added@));
        }
        emit(out, None, " ", pal, Ghost(base), Ghost(a));
        proof { a = a.push((None, " "@)); }
        let removed = signed_count('-', e.lines_removed);
        emit(out, Some(Slot::LinesRemoved), removed.as_str(), pal, Ghost(base), Ghost(a));
        proof {
            reveal_strlit("-");
            assert(removed@ =~= "-"@ + decimal(e.lines_removed as nat));
            a = a.push((Some(Slot::LinesRemoved), removed@));
        }
    }
    match &e.old_path {
        Some(old) => {
            emit(out, None, "  from ", pal, Ghost(base), Ghost(a));
            proof { a = a.push((None, "  from "@)); }
            let shown = slash_path(old.as_str());
            emit(out, Some(Slot::DirPath), shown.as_str(), pal, Ghost(base), Ghost(a));
            proof { a = a.push((Some(Slot::DirPath), shown@)); }
        },
        None => {},
    }
    emit(out, None, "\n", pal, Ghost(base), Ghost(a));
    proof {
        a = a.push((None, "\n"@));
        assert(a =~= acc + entry_spans(*e));
    }
}

/// Appends the rows of `es`, in order.
fn push_rows(out: &mut String, es: &Vec<GdlEntry>, pal: Option<&Palette>, Ghost(base): Ghost<Seq<char>>, Ghost(acc): Ghost<Seq<Span>>)
    requires
        old(out)@ == base + styled(acc, pal_of(pal)),
    ensures
        final(out)@ == base + styled(acc + rows_spans(es@), pal_of(pal)),
{
    let mut i: usize = 0;
    assert(es@.take(0) =~= Seq::<GdlEntry>::empty());
    assert(acc + rows_spans(es@.take(0)) =~= acc);
    while i < es.len()
        invariant
            i <= es.len(),
            out@ == base + styled(acc + rows_spans(es@.take(i as int)), pal_of(pal)),
        decreases es.len() - i,
    {
        push_entry_row(out, &es[i], pal, Ghost(base), Ghost(acc + rows_spans(es@.take(i as int))));
        proof {
            assert(es@.take(i + 1).drop_last() =~= es@.take(i as int));
            assert(es@.take(i + 1).last() == es@[i as int]);
            assert(acc + rows_spans(es@.take(i as int)) + entry_spans(es@[i as int]) =~= acc + rows_spans(es@.take(i + 1)));
        }
        i = i + 1;
    }
    assert(es@.take(i as int) =~= es@);
}

/// A copy of an entry.
pub fn copy_entry(e: &GdlEntry) -> (c: GdlEntry)
    ensures
        c == *e,
{
    GdlEntry {
        section: e.section,
        kind: e.kind,
        path: e.path.clone(),
        old_path: match &e.old_path {
            Some(p) => Some(p.clone()),
            None => None,
        },
        lines_added: e.lines_added,
        lines_removed: e.lines_removed,
        is_binary: e.is_binary,
    }
}

/// The entries of a section, in the order given.
pub fn entries_in_section(es: &Vec<GdlEntry>, section: ChangeSection) -> (r: Vec<GdlEntry>)
    ensures
        r@ == in_section(es@, section),
{
    let mut r: Vec<GdlEntry> = Vec::new();
    let mut i: usize = 0;
    assert(es@.take(0) =~= Seq::<GdlEntry>::empty());
    while i < es.len()
        invariant
            i <= es.len(),
            r@ == in_section(es@.take(i as int), section),
        decreases es.len() - i,
    {
        assert(es@.take(i + 1).drop_last() =~= es@.take(i as int));
        if es[i].section == section {
            r.push(copy_entry(&es[i]));
        }
        i = i + 1;
    }
    assert(es@.take(i as int) =~= es@);
    r
}

/// Appends the blocks of the non-empty sections among `sections`.
fn push_sections(
    out: &mut String,
    es: &Vec<GdlEntry>,
    sections: &Vec<ChangeSection>,
    pal: Option<&Palette>,
    Ghost(base): Ghost<Seq<char>>,
    Ghost(acc): Ghost<Seq<Span>>,
)
    requires
        old(out)@ == base + styled(acc, pal_of(pal)),
    ensures
        final(out)@ == base + styled(acc + sections_spans(es@, sections@, true), pal_of(pal)),
{
    let mut first = true;
    let mut i: usize = 0;
    let ghost mut a = acc;
    assert(sections@.skip(0) =~= sections@);
    while i < sections.len()
        invariant
            i <= sections.len(),
            out@ == base + styled(a, pal_of(pal)),
            a + sections_spans(es@, sections@.skip(i as int), first) == acc + sections_spans(es@, sections@, true),
        decreases sections.len() - i,
    {
        let section = sections[i];
        let ghost rest = sections@.skip(i as int);
        assert(rest[0] == section);
        assert(rest.drop_first() =~= sections@.skip(i + 1));
        let members = entries_in_section(es, section);
        let ghost a0 = a;
        if members.len() > 0 {
            let rows = sort_status_entries(members);
            proof { crate::order::lemma_sort_permutes(in_section(es@, section)); }
            if !first {
                emit(out, None, "\n", pal, Ghost(base), Ghost(a));
                proof { a = a.push((None, "\n"@)); }
            }
            let mut header = String::new();
            crate::text::push_str(&mut header, section_title(section));
            crate::text::push_str(&mut header, " (");
            push_decimal(&mut header, rows.len());
            crate::text::push_str(&mut header, ")");
            emit(out, Some(Slot::SectionHeader), header.as_str(), pal, Ghost(base), Ghost(a));
            proof { a = a.push((Some(Slot::SectionHeader), header@)); }
            emit(out, None, "\n", pal, Ghost(base), Ghost(a));
            proof { a = a.push((None, "\n"@)); }
            push_rows(out, &rows, pal, Ghost(base), Ghost(a));
            proof {
                let block = section_block(es@, section, first);
                assert(header@ =~= section_title_of(section) + " ("@ + decimal(rows@.len()) + ")"@);
                assert(a + rows_spans(rows@) =~= a0 + block);
                a = a + rows_spans(rows@);
            }
            first = false;
        }
        i = i + 1;
    }
    proof {
        assert(sections@.skip(i as int) =~= Seq::<ChangeSection>::empty());
        assert(a =~= acc + sections_spans(es@, sections@, true));
    }
}

/// Writes the full status view of entries, with colors from `pal` when there is one.
pub fn write_status(entries: &Vec<GdlEntry>, pal: Option<&Palette>) -> (s: String)
    ensures
        s@ == styled(status_spans(entries@), pal_of(pal)),
{
    let mut out = String::new();
    let ghost base = out@;
    assert(styled(Seq::<Span>::empty(), pal_of(pal)) =~= Seq::<char>::empty());
    let mut sections: Vec<ChangeSection> = Vec::new();
    sections.push(ChangeSection::Staged);
    sections.push(ChangeSection::WorkingTree);
    sections.push(ChangeSection::Untracked);
    sections.push(ChangeSection::Conflicted);
    assert(sections@ =~= section_sequence());
    push_sections(&mut out, entries, &sections, pal, Ghost(base), Ghost(Seq::empty()));
    assert(Seq::<Span>::empty() + sections_spans(entries@, sections@, true) =~= status_spans(entries@));
    out
}

} // verus!
