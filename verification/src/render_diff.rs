//! The text renderings of a file diff: unified for narrow output, side by side for wide
//! output, and a one-line marker for binary content.

use vstd::prelude::*;
use crate::model::FileDiff;
use crate::model::Hunk;
use crate::model::area_name;
use crate::style::Span;
use crate::style::Slot;
use crate::style::Palette;
use crate::style::styled;
use crate::style::pal_of;
use crate::style::push_span;
use crate::style::lemma_styled_push;
use crate::style::slot_texts;
use crate::style::lemma_slot_texts_concat;
use crate::text::pad_right;
use crate::text::spaces;
use crate::text::decimal;
use crate::text::lossy_utf8;
use crate::text::utf8_lossy;
use crate::text::push_str;
use crate::text::push_char;
use crate::text::push_decimal;
use crate::text::push_padded;
use crate::text::push_spaces;
use crate::text::chars_of;
use crate::text::is_digit;
use crate::text::all_digits;
use crate::text::digits_value;
use crate::text::lemma_decimal_reads_back;

verus! {

/// Outputs at least this wide show the two sides of each hunk next to each other.
pub const SIDE_BY_SIDE_WIDTH: usize = 120;

/// Text without its final newline, if it ends with one.
pub open spec fn without_newline(t: Seq<char>) -> Seq<char> {
    if t.len() > 0 && t.last() == '\n' {
        t.drop_last()
    } else {
        t
    }
}

/// The text of a line: its bytes decoded, without the final newline.
pub open spec fn line_text(line: Seq<u8>) -> Seq<char> {
    without_newline(lossy_utf8(line))
}

/// A hunk range as a unified diff header writes it: the start, and `,count` unless the
/// count is one.
pub open spec fn range_text(start: u32, count: u32) -> Seq<char> {
    if count == 1 {
        decimal(start as nat)
    } else {
        decimal(start as nat) + ","@ + decimal(count as nat)
    }
}

/// The `@@ -old +new @@` header of a hunk.
pub open spec fn hunk_header_text(h: Hunk) -> Seq<char> {
    "@@ -"@ + range_text(h.old_start, h.old_lines) + " +"@ + range_text(h.new_start, h.new_lines) + " @@"@
}

/// Reads a hunk range back: `start` alone means one line, `start,count` names the count.
#[verifier::opaque]
pub open spec fn parse_range(t: Seq<char>) -> Option<(nat, nat)> {
    if all_digits(t) {
        Some((digits_value(t), 1nat))
    } else if exists|i: int|
        0 <= i < t.len() && t[i] == ',' && all_digits(#[trigger] t.take(i)) && all_digits(t.skip(i + 1)) {
        let i = choose|i: int|
            0 <= i < t.len() && t[i] == ',' && all_digits(#[trigger] t.take(i)) && all_digits(t.skip(i + 1));
        Some((digits_value(t.take(i)), digits_value(t.skip(i + 1))))
    } else {
        None
    }
}

/// Reads a hunk header back into its old start and count and its new start and count.
pub open spec fn parse_header(t: Seq<char>) -> Option<(nat, nat, nat, nat)> {
    if t.len() >= 7 && t.take(4) == "@@ -"@ && t.skip(t.len() - 3) == " @@"@ {
        let m = t.subrange(4, t.len() - 3);
        if exists|i: int|
            0 <= i && i + 1 < m.len() && m[i] == ' ' && m[i + 1] == '+' && (#[trigger] parse_range(m.take(i))) is Some
                && parse_range(m.skip(i + 2)) is Some {
            let i = choose|i: int|
                0 <= i && i + 1 < m.len() && m[i] == ' ' && m[i + 1] == '+' && (#[trigger] parse_range(m.take(i))) is Some
                    && parse_range(m.skip(i + 2)) is Some;
            let a = parse_range(m.take(i)).unwrap();
            let b = parse_range(m.skip(i + 2)).unwrap();
            Some((a.0, a.1, b.0, b.1))
        } else {
            None
        }
    } else {
        None
    }
}

/// A range's text is digits and at most one comma, with no space.
proof fn lemma_range_text_shape(start: u32, count: u32)
    ensures
        forall|j: int| 0 <= j < range_text(start, count).len() ==> (#[trigger] range_text(start, count)[j]) != ' ',
        range_text(start, count).len() > 0,
{
    lemma_decimal_reads_back(start as nat);
    lemma_decimal_reads_back(count as nat);
    let t = range_text(start, count);
    let a = decimal(start as nat);
    let b = decimal(count as nat);
    assert forall|j: int| 0 <= j < t.len() implies (#[trigger] t[j]) != ' ' by {
        if count == 1 {
            assert(is_digit(a[j]));
        } else {
            reveal_strlit(",");
            if j < a.len() {
                assert(t[j] == a[j]);
                assert(is_digit(a[j]));
            } else if j == a.len() {
                assert(t[j] == ',');
            } else {
                assert(t[j] == b[j - a.len() - 1]);
                assert(is_digit(b[j - a.len() - 1]));
            }
        }
    }
}

/// A hunk range reads back as its start and count: an omitted count is exactly one, and
/// any other count, zero included, is written after a comma.
pub proof fn law_range_reads_back(start: u32, count: u32)
    ensures
        parse_range(range_text(start, count)) == Some((start as nat, count as nat)),
{
    reveal(parse_range);
    reveal_strlit(",");
    lemma_decimal_reads_back(start as nat);
    lemma_decimal_reads_back(count as nat);
    let t = range_text(start, count);
    let a = decimal(start as nat);
    let b = decimal(count as nat);
    if count != 1 {
        let k = a.len() as int;
        assert(t[k] == ',');
        assert(!is_digit(','));
        assert(!all_digits(t));
        assert(t.take(k) =~= a);
        assert(t.skip(k + 1) =~= b);
        assert(all_digits(t.take(k)));
        let i = choose|i: int|
            0 <= i < t.len() && t[i] == ',' && all_digits(#[trigger] t.take(i)) && all_digits(t.skip(i + 1));
        if i < k {
            assert(t[i] == a[i]);
            assert(is_digit(a[i]));
        } else if i > k {
            assert(t[i] == b[i - k - 1]);
            assert(is_digit(b[i - k - 1]));
        }
        assert(i == k);
    }
}

/// A hunk header reads back as the hunk's old start and count and its new start and
/// count, in that order.
pub proof fn law_hunk_header_reads_back(h: Hunk)
    ensures
        parse_header(hunk_header_text(h)) == Some(
            (h.old_start as nat, h.old_lines as nat, h.new_start as nat, h.new_lines as nat),
        ),
{
    reveal_strlit("@@ -");
    reveal_strlit(" +");
    reveal_strlit(" @@");
    let ra = range_text(h.old_start, h.old_lines);
    let rb = range_text(h.new_start, h.new_lines);
    let t = hunk_header_text(h);
    assert(t =~= "@@ -"@ + ra + " +"@ + rb + " @@"@);
    law_range_reads_back(h.old_start, h.old_lines);
    law_range_reads_back(h.new_start, h.new_lines);
    lemma_range_text_shape(h.old_start, h.old_lines);
    lemma_range_text_shape(h.new_start, h.new_lines);
    assert(t.take(4) =~= "@@ -"@);
    assert(t.skip(t.len() - 3) =~= " @@"@);
    let m = t.subrange(4, t.len() - 3);
    assert(m =~= ra + " +"@ + rb);
    let k = ra.len() as int;
    assert(m.take(k) =~= ra);
    assert(m.skip(k + 2) =~= rb);
    assert(m[k] == ' ' && m[k + 1] == '+');
    assert(parse_range(m.take(k)) is Some);
    let i = choose|i: int|
        0 <= i && i + 1 < m.len() && m[i] == ' ' && m[i + 1] == '+' && (#[trigger] parse_range(m.take(i))) is Some
            && parse_range(m.skip(i + 2)) is Some;
    if i < k {
        assert(m[i] == ra[i]);
    } else if i > k {
        assert(m[i] == rb[i - k - 2]);
    }
    assert(i == k);
}

/// Each line with a gutter character, painted, then a newline.
pub open spec fn gutter_lines(lines: Seq<Seq<u8>>, gutter: char, slot: Slot) -> Seq<Span>
    decreases lines.len(),
{
    if lines.len() == 0 {
        Seq::empty()
    } else {
        gutter_lines(lines.drop_last(), gutter, slot) + seq![
            (Some(slot), seq![gutter] + line_text(lines.last())),
            (None, "\n"@),
        ]
    }
}

/// The raw lines of a list of byte vectors.
pub open spec fn raw_lines(v: Seq<Vec<u8>>) -> Seq<Seq<u8>> {
    v.map_values(|l: Vec<u8>| l@)
}

/// A hunk in the unified layout: header, removed lines, added lines.
pub open spec fn unified_hunk(h: Hunk) -> Seq<Span> {
    seq![(Some(Slot::HunkHeader), hunk_header_text(h)), (None, "\n"@)]
        + gutter_lines(raw_lines(h.old_bytes@), '-', Slot::LinesRemoved)
        + gutter_lines(raw_lines(h.new_bytes@), '+', Slot::LinesAdded)
}

/// The first line of every text diff.
pub open spec fn diff_title(d: FileDiff) -> Seq<char> {
    "diff --"@ + area_name(d.area) + " "@ + d.file@ + "\n"@
}

/// The marker written for binary content.
pub open spec fn binary_marker(d: FileDiff) -> Seq<char> {
    "Binary file "@ + d.file@ + " changed\n"@
}

/// The column width of each side in the side-by-side layout.
pub open spec fn side_width(width: usize) -> nat {
    ((width - 3) / 2) as nat
}

/// Row `k` of a hunk in the side-by-side layout: the removed line on the left (or blank),
/// a ` | ` divider, and the added line on the right (or nothing).
pub open spec fn side_row(h: Hunk, k: int, col: nat) -> Seq<Span> {
    let old = raw_lines(h.old_bytes@);
    let new = raw_lines(h.new_bytes@);
    (if k < old.len() {
        seq![(Some(Slot::LinesRemoved), pad_right("-"@ + line_text(old[k]), col))]
    } else {
        seq![(None, spaces(col))]
    }) + seq![(None, " | "@)] + (if k < new.len() {
        seq![(Some(Slot::LinesAdded), "+"@ + line_text(new[k]))]
    } else {
        Seq::empty()
    }) + seq![(None, "\n"@)]
}

/// The first `n` rows of a hunk in the side-by-side layout.
pub open spec fn side_rows(h: Hunk, n: nat, col: nat) -> Seq<Span>
    decreases n,
{
    if n == 0 {
        Seq::empty()
    } else {
        side_rows(h, (n - 1) as nat, col) + side_row(h, n - 1, col)
    }
}

/// The number of rows of a hunk in the side-by-side layout.
pub open spec fn row_count(h: Hunk) -> nat {
    if h.old_bytes@.len() >= h.new_bytes@.len() {
        h.old_bytes@.len()
    } else {
        h.new_bytes@.len()
    }
}

/// A hunk in the side-by-side layout: header, then rows pairing removed and added lines.
pub open spec fn side_hunk(h: Hunk, col: nat) -> Seq<Span> {
    seq![(Some(Slot::HunkHeader), hunk_header_text(h)), (None, "\n"@)] + side_rows(h, row_count(h), col)
}

/// The hunks of a diff, each laid out by `wide` or not.
pub open spec fn hunks_spans(hs: Seq<Hunk>, wide: bool, col: nat) -> Seq<Span>
    decreases hs.len(),
{
    if hs.len() == 0 {
        Seq::empty()
    } else {
        hunks_spans(hs.drop_last(), wide, col) + if wide {
            side_hunk(hs.last(), col)
        } else {
            unified_hunk(hs.last())
        }
    }
}

/// The rendering of a diff at a given width: the binary marker for binary content;
/// otherwise the title, the `---`/`+++` file lines (side by side when wide), and the hunks.
pub open spec fn diff_spans(d: FileDiff, width: usize) -> Seq<Span> {
    if d.binary {
        seq![(None, binary_marker(d))]
    } else if width >= SIDE_BY_SIDE_WIDTH {
        let col = side_width(width);
        seq![(None, diff_title(d) + pad_right("--- a/"@ + d.file@, col) + " | "@ + "+++ b/"@ + d.file@ + "\n"@)]
            + hunks_spans(d.hunks@, true, col)
    } else {
        seq![(None, diff_title(d) + "--- a/"@ + d.file@ + "\n"@ + "+++ b/"@ + d.file@ + "\n"@)]
            + hunks_spans(d.hunks@, false, 0)
    }
}

/// Lines as a unified diff writes them: each with its gutter character.
pub open spec fn marked_lines(lines: Seq<Seq<u8>>, gutter: char) -> Seq<Seq<char>> {
    lines.map_values(|l: Seq<u8>| seq![gutter] + line_text(l))
}

/// Texts each padded to a column width.
pub open spec fn padded(ts: Seq<Seq<char>>, col: nat) -> Seq<Seq<char>> {
    ts.map_values(|t: Seq<char>| pad_right(t, col))
}

/// The gutter lines of a slot carry the marked lines, and no other slot appears.
proof fn lemma_gutter_texts(lines: Seq<Seq<u8>>, gutter: char, slot: Slot, other: Slot)
    requires
        other != slot,
    ensures
        slot_texts(gutter_lines(lines, gutter, slot), slot) == marked_lines(lines, gutter),
        slot_texts(gutter_lines(lines, gutter, slot), other) == Seq::<Seq<char>>::empty(),
    decreases lines.len(),
{
    if lines.len() > 0 {
        let init = lines.drop_last();
        lemma_gutter_texts(init, gutter, slot, other);
        let tail = seq![(Some(slot), seq![gutter] + line_text(lines.last())), (None, "\n"@)];
        lemma_slot_texts_concat(gutter_lines(init, gutter, slot), tail, slot);
        lemma_slot_texts_concat(gutter_lines(init, gutter, slot), tail, other);
        reveal_with_fuel(slot_texts, 3);
        assert(tail.drop_last() =~= seq![(Some(slot), seq![gutter] + line_text(lines.last()))]);
        assert(tail.drop_last().drop_last() =~= Seq::<Span>::empty());
        assert(slot_texts(tail, slot) =~= seq![seq![gutter] + line_text(lines.last())]);
        assert(slot_texts(tail, other) =~= Seq::<Seq<char>>::empty());
        assert(marked_lines(lines, gutter) =~= marked_lines(init, gutter).push(seq![gutter] + line_text(lines.last())));
    } else {
        assert(marked_lines(lines, gutter) =~= Seq::<Seq<char>>::empty());
    }
}

/// What one side-by-side row paints with each slot.
proof fn lemma_side_row_texts(h: Hunk, k: int, col: nat)
    requires
        0 <= k,
    ensures
        slot_texts(side_row(h, k, col), Slot::LinesAdded) == (if k < h.new_bytes@.len() {
            seq![seq!['+'] + line_text(raw_lines(h.new_bytes@)[k])]
        } else {
            Seq::<Seq<char>>::empty()
        }),
        slot_texts(side_row(h, k, col), Slot::LinesRemoved) == (if k < h.old_bytes@.len() {
            seq![pad_right(seq!['-'] + line_text(raw_lines(h.old_bytes@)[k]), col)]
        } else {
            Seq::<Seq<char>>::empty()
        }),
        slot_texts(side_row(h, k, col), Slot::HunkHeader) == Seq::<Seq<char>>::empty(),
{
    reveal_strlit("+");
    reveal_strlit("-");
    let old = raw_lines(h.old_bytes@);
    let new = raw_lines(h.new_bytes@);
    let left: Seq<Span> = if k < old.len() {
        seq![(Some(Slot::LinesRemoved), pad_right("-"@ + line_text(old[k]), col))]
    } else {
        seq![(None, spaces(col))]
    };
    let right: Seq<Span> = if k < new.len() {
        seq![(Some(Slot::LinesAdded), "+"@ + line_text(new[k]))]
    } else {
        Seq::empty()
    };
    let mid: Seq<Span> = seq![(None, " | "@)];
    let nl: Seq<Span> = seq![(None, "\n"@)];
    assert(side_row(h, k, col) == left + mid + right + nl);
    assert("+"@ =~= seq!['+']);
    assert("-"@ =~= seq!['-']);
    reveal_with_fuel(slot_texts, 2);
    assert(left.drop_last() =~= Seq::<Span>::empty());
    assert(mid.drop_last() =~= Seq::<Span>::empty());
    assert(nl.drop_last() =~= Seq::<Span>::empty());
    if k < new.len() {
        assert(right.drop_last() =~= Seq::<Span>::empty());
    }
    let slots = seq![Slot::LinesAdded, Slot::LinesRemoved, Slot::HunkHeader];
    assert forall|j: int| 0 <= j < 3 implies slot_texts(side_row(h, k, col), #[trigger] slots[j]) == slot_texts(left, slots[j])
        + slot_texts(mid, slots[j]) + slot_texts(right, slots[j]) + slot_texts(nl, slots[j]) by {
        lemma_slot_texts_concat(left + mid + right, nl, slots[j]);
        lemma_slot_texts_concat(left + mid, right, slots[j]);
        lemma_slot_texts_concat(left, mid, slots[j]);
    }
    assert(slots[0] == Slot::LinesAdded && slots[1] == Slot::LinesRemoved && slots[2] == Slot::HunkHeader);
    assert(slot_texts(side_row(h, k, col), Slot::LinesAdded) =~= (if k < new.len() {
        seq![seq!['+'] + line_text(new[k])]
    } else {
        Seq::<Seq<char>>::empty()
    }));
    assert(slot_texts(side_row(h, k, col), Slot::LinesRemoved) =~= (if k < old.len() {
        seq![pad_right(seq!['-'] + line_text(old[k]), col)]
    } else {
        Seq::<Seq<char>>::empty()
    }));
    assert(slot_texts(side_row(h, k, col), Slot::HunkHeader) =~= Seq::<Seq<char>>::empty());
}

/// The first `n` side-by-side rows carry the first `n` added and removed lines.
proof fn lemma_side_rows_texts(h: Hunk, n: nat, col: nat)
    ensures
        slot_texts(side_rows(h, n, col), Slot::LinesAdded) == marked_lines(raw_lines(h.new_bytes@), '+').take(
            if n <= h.new_bytes@.len() { n as int } else { h.new_bytes@.len() as int },
        ),
        slot_texts(side_rows(h, n, col), Slot::LinesRemoved) == padded(marked_lines(raw_lines(h.old_bytes@), '-'), col).take(
            if n <= h.old_bytes@.len() { n as int } else { h.old_bytes@.len() as int },
        ),
        slot_texts(side_rows(h, n, col), Slot::HunkHeader) == Seq::<Seq<char>>::empty(),
    decreases n,
{
    let added = marked_lines(raw_lines(h.new_bytes@), '+');
    let removed = padded(marked_lines(raw_lines(h.old_bytes@), '-'), col);
    if n == 0 {
        assert(added.take(0) =~= Seq::<Seq<char>>::empty());
        assert(removed.take(0) =~= Seq::<Seq<char>>::empty());
    } else {
        let m = (n - 1) as nat;
        lemma_side_rows_texts(h, m, col);
        lemma_side_row_texts(h, m as int, col);
        lemma_slot_texts_concat(side_rows(h, m, col), side_row(h, m as int, col), Slot::LinesAdded);
        lemma_slot_texts_concat(side_rows(h, m, col), side_row(h, m as int, col), Slot::LinesRemoved);
        lemma_slot_texts_concat(side_rows(h, m, col), side_row(h, m as int, col), Slot::HunkHeader);
        if m < h.new_bytes@.len() {
            assert(added.take(m as int).push(added[m as int]) =~= added.take(n as int));
        } else {
            assert(added.take(h.new_bytes@.len() as int) =~= added.take(h.new_bytes@.len() as int));
        }
        if m < h.old_bytes@.len() {
            assert(removed.take(m as int).push(removed[m as int]) =~= removed.take(n as int));
        }
        assert(slot_texts(side_rows(h, n, col), Slot::HunkHeader) =~= Seq::<Seq<char>>::empty());
    }
}

/// One hunk carries the same lines side by side as in the unified layout: every added
/// line, every removed line (padded to its column) and the header, each in order.
pub proof fn law_side_hunk_carries_unified_lines(h: Hunk, col: nat)
    ensures
        slot_texts(side_hunk(h, col), Slot::LinesAdded) == slot_texts(unified_hunk(h), Slot::LinesAdded),
        slot_texts(side_hunk(h, col), Slot::LinesRemoved) == padded(slot_texts(unified_hunk(h), Slot::LinesRemoved), col),
        slot_texts(side_hunk(h, col), Slot::HunkHeader) == slot_texts(unified_hunk(h), Slot::HunkHeader),
        slot_texts(unified_hunk(h), Slot::LinesAdded) == marked_lines(raw_lines(h.new_bytes@), '+'),
        slot_texts(unified_hunk(h), Slot::LinesRemoved) == marked_lines(raw_lines(h.old_bytes@), '-'),
{
    let old = raw_lines(h.old_bytes@);
    let new = raw_lines(h.new_bytes@);
    let head: Seq<Span> = seq![(Some(Slot::HunkHeader), hunk_header_text(h)), (None, "\n"@)];
    let go = gutter_lines(old, '-', Slot::LinesRemoved);
    let gn = gutter_lines(new, '+', Slot::LinesAdded);
    lemma_gutter_texts(old, '-', Slot::LinesRemoved, Slot::LinesAdded);
    lemma_gutter_texts(old, '-', Slot::LinesRemoved, Slot::HunkHeader);
    lemma_gutter_texts(new, '+', Slot::LinesAdded, Slot::LinesRemoved);
    lemma_gutter_texts(new, '+', Slot::LinesAdded, Slot::HunkHeader);
    lemma_side_rows_texts(h, row_count(h), col);
    reveal_with_fuel(slot_texts, 3);
    assert(head.drop_last() =~= seq![(Some(Slot::HunkHeader), hunk_header_text(h))]);
    assert(head.drop_last().drop_last() =~= Seq::<Span>::empty());
    let slots = seq![Slot::LinesAdded, Slot::LinesRemoved, Slot::HunkHeader];
    assert forall|j: int| 0 <= j < 3 implies slot_texts(unified_hunk(h), #[trigger] slots[j]) == slot_texts(head, slots[j])
        + slot_texts(go, slots[j]) + slot_texts(gn, slots[j]) && slot_texts(side_hunk(h, col), slots[j]) == slot_texts(
        head,
        slots[j],
    ) + slot_texts(side_rows(h, row_count(h), col), slots[j]) by {
        lemma_slot_texts_concat(head + go, gn, slots[j]);
        lemma_slot_texts_concat(head, go, slots[j]);
        lemma_slot_texts_concat(head, side_rows(h, row_count(h), col), slots[j]);
    }
    assert(slots[0] == Slot::LinesAdded && slots[1] == Slot::LinesRemoved && slots[2] == Slot::HunkHeader);
    let added = marked_lines(new, '+');
    let removed = marked_lines(old, '-');
    assert(added.take(new.len() as int) =~= added);
    assert(padded(removed, col).take(old.len() as int) =~= padded(removed, col));
    assert(slot_texts(head, Slot::LinesAdded) =~= Seq::<Seq<char>>::empty());
    assert(slot_texts(head, Slot::LinesRemoved) =~= Seq::<Seq<char>>::empty());
    assert(slot_texts(unified_hunk(h), Slot::LinesAdded) =~= added);
    assert(slot_texts(unified_hunk(h), Slot::LinesRemoved) =~= removed);
    assert(slot_texts(side_hunk(h, col), Slot::LinesAdded) =~= added);
    assert(slot_texts(side_hunk(h, col), Slot::LinesRemoved) =~= padded(removed, col));
    assert(slot_texts(side_hunk(h, col), Slot::HunkHeader) =~= slot_texts(head, Slot::HunkHeader));
    assert(slot_texts(unified_hunk(h), Slot::HunkHeader) =~= slot_texts(head, Slot::HunkHeader));
}

/// Over a list of hunks, the side-by-side layout carries the unified layout's lines.
proof fn lemma_hunks_carry_unified_lines(hs: Seq<Hunk>, col: nat)
    ensures
        slot_texts(hunks_spans(hs, true, col), Slot::LinesAdded) == slot_texts(hunks_spans(hs, false, 0), Slot::LinesAdded),
        slot_texts(hunks_spans(hs, true, col), Slot::LinesRemoved) == padded(
            slot_texts(hunks_spans(hs, false, 0), Slot::LinesRemoved),
            col,
        ),
        slot_texts(hunks_spans(hs, true, col), Slot::HunkHeader) == slot_texts(hunks_spans(hs, false, 0), Slot::HunkHeader),
    decreases hs.len(),
{
    if hs.len() == 0 {
        assert(padded(Seq::<Seq<char>>::empty(), col) =~= Seq::<Seq<char>>::empty());
    } else {
        let init = hs.drop_last();
        lemma_hunks_carry_unified_lines(init, col);
        law_side_hunk_carries_unified_lines(hs.last(), col);
        let w0 = hunks_spans(init, true, col);
        let n0 = hunks_spans(init, false, 0);
        let sh = side_hunk(hs.last(), col);
        let uh = unified_hunk(hs.last());
        assert(hunks_spans(hs, true, col) == w0 + sh);
        assert(hunks_spans(hs, false, 0) == n0 + uh);
        lemma_slot_texts_concat(w0, sh, Slot::LinesAdded);
        lemma_slot_texts_concat(n0, uh, Slot::LinesAdded);
        lemma_slot_texts_concat(w0, sh, Slot::LinesRemoved);
        lemma_slot_texts_concat(n0, uh, Slot::LinesRemoved);
        lemma_slot_texts_concat(w0, sh, Slot::HunkHeader);
        lemma_slot_texts_concat(n0, uh, Slot::HunkHeader);
        let r0 = slot_texts(n0, Slot::LinesRemoved);
        let r1 = slot_texts(uh, Slot::LinesRemoved);
        assert(padded(r0 + r1, col) =~= padded(r0, col) + padded(r1, col));
    }
}

/// A diff shows the same lines whatever its width: side by side at wide widths, it holds
/// every added line and every hunk header of the unified layout, in order, and every
/// removed line padded to its column; the unified layout holds each removed line with
/// `-` and each added line with `+`.
pub proof fn law_diff_layouts_carry_same_lines(d: FileDiff, wide: usize, narrow: usize)
    requires
        wide >= SIDE_BY_SIDE_WIDTH,
        narrow < SIDE_BY_SIDE_WIDTH,
    ensures
        slot_texts(diff_spans(d, wide), Slot::LinesAdded) == slot_texts(diff_spans(d, narrow), Slot::LinesAdded),
        slot_texts(diff_spans(d, wide), Slot::LinesRemoved) == padded(
            slot_texts(diff_spans(d, narrow), Slot::LinesRemoved),
            side_width(wide),
        ),
        slot_texts(diff_spans(d, wide), Slot::HunkHeader) == slot_texts(diff_spans(d, narrow), Slot::HunkHeader),
{
    let col = side_width(wide);
    reveal_with_fuel(slot_texts, 2);
    if d.binary {
        assert(seq![(None::<Slot>, binary_marker(d))].drop_last() =~= Seq::<Span>::empty());
        assert(padded(Seq::<Seq<char>>::empty(), col) =~= Seq::<Seq<char>>::empty());
    } else {
        lemma_hunks_carry_unified_lines(d.hunks@, col);
        let tw: Seq<Span> = seq![(None, diff_title(d) + pad_right("--- a/"@ + d.file@, col) + " | "@ + "+++ b/"@ + d.file@ + "\n"@)];
        let tn: Seq<Span> = seq![(None, diff_title(d) + "--- a/"@ + d.file@ + "\n"@ + "+++ b/"@ + d.file@ + "\n"@)];
        assert(tw.drop_last() =~= Seq::<Span>::empty());
        assert(tn.drop_last() =~= Seq::<Span>::empty());
        assert(diff_spans(d, wide) == tw + hunks_spans(d.hunks@, true, col));
        assert(diff_spans(d, narrow) == tn + hunks_spans(d.hunks@, false, 0));
        lemma_slot_texts_concat(tw, hunks_spans(d.hunks@, true, col), Slot::LinesAdded);
        lemma_slot_texts_concat(tn, hunks_spans(d.hunks@, false, 0), Slot::LinesAdded);
        lemma_slot_texts_concat(tw, hunks_spans(d.hunks@, true, col), Slot::LinesRemoved);
        lemma_slot_texts_concat(tn, hunks_spans(d.hunks@, false, 0), Slot::LinesRemoved);
        lemma_slot_texts_concat(tw, hunks_spans(d.hunks@, true, col), Slot::HunkHeader);
        lemma_slot_texts_concat(tn, hunks_spans(d.hunks@, false, 0), Slot::HunkHeader);
        assert(slot_texts(tw, Slot::LinesAdded) =~= Seq::<Seq<char>>::empty());
        assert(slot_texts(tn, Slot::LinesAdded) =~= Seq::<Seq<char>>::empty());
        assert(slot_texts(tw, Slot::LinesRemoved) =~= Seq::<Seq<char>>::empty());
        assert(slot_texts(tn, Slot::LinesRemoved) =~= Seq::<Seq<char>>::empty());
        assert(slot_texts(tw, Slot::HunkHeader) =~= Seq::<Seq<char>>::empty());
        assert(slot_texts(tn, Slot::HunkHeader) =~= Seq::<Seq<char>>::empty());
        assert(slot_texts(diff_spans(d, wide), Slot::LinesAdded) =~= slot_texts(diff_spans(d, narrow), Slot::LinesAdded));
        assert(slot_texts(diff_spans(d, wide), Slot::HunkHeader) =~= slot_texts(diff_spans(d, narrow), Slot::HunkHeader));
        assert(slot_texts(diff_spans(d, wide), Slot::LinesRemoved) =~= padded(slot_texts(diff_spans(d, narrow), Slot::LinesRemoved), col));
    }
}

fn emit(
    out: &mut String,
    slot: Option<Slot>,
    text: &str,
    pal: Option<&Palette>,
    Ghost(base): Ghost<Seq<char>>,
    Ghost(acc): Ghost<Seq<Span>>,
)
    requires
        old(out)@ == base + styled(acc, pal_of(pal)),
    ensures
        final(out)@ == base + styled(acc.push((slot, text@)), pal_of(pal)),
{
    push_span(out, slot, text, pal);
    proof {
        lemma_styled_push(acc, (slot, text@), pal_of(pal));
    }
}

/// The characters of decoded line text, without its final newline.
pub fn trim_line_end(text: &str) -> (s: Vec<char>)
    ensures
        s@ == without_newline(text@),
{
    let mut chars = chars_of(text);
    if chars.len() > 0 && chars[chars.len() - 1] == '\n' {
        chars.pop();
    }
    chars
}

/// The text of a line: its bytes decoded, without the final newline.
pub fn line_text_of(line: &Vec<u8>) -> (s: Vec<char>)
    ensures
        s@ == line_text(line@),
{
    let decoded = utf8_lossy(line.as_slice());
    trim_line_end(decoded.as_str())
}

/// A string holding `c` then `rest`.
fn prefixed(c: char, rest: &Vec<char>) -> (s: String)
    ensures
        s@ == seq![c] + rest@,
{
    let mut s = String::new();
    push_char(&mut s, c);
    crate::text::push_chars(&mut s, rest);
    s
}

fn push_range(s: &mut String, start: u32, count: u32)
    ensures
        final(s)@ == old(s)@ + range_text(start, count),
{
    push_decimal(s, start as usize);
    if count != 1 {
        push_str(s, ",");
        push_decimal(s, count as usize);
    }
}

fn hunk_header(h: &Hunk) -> (s: String)
    ensures
        s@ == hunk_header_text(*h),
{
    let mut s = String::new();
    push_str(&mut s, "@@ -");
    push_range(&mut s, h.old_start, h.old_lines);
    push_str(&mut s, " +");
    push_range(&mut s, h.new_start, h.new_lines);
    push_str(&mut s, " @@");
    s
}

fn push_gutter_lines(
    out: &mut String,
    lines: &Vec<Vec<u8>>,
    gutter: char,
    slot: Slot,
    pal: Option<&Palette>,
    Ghost(base): Ghost<Seq<char>>,
    Ghost(acc): Ghost<Seq<Span>>,
)
    requires
        old(out)@ == base + styled(acc, pal_of(pal)),
    ensures
        final(out)@ == base + styled(acc + gutter_lines(raw_lines(lines@), gutter, slot), pal_of(pal)),
{
    let ghost all = raw_lines(lines@);
    let mut i: usize = 0;
    assert(all.take(0) =~= Seq::<Seq<u8>>::empty());
    assert(acc + gutter_lines(all.take(0), gutter, slot) =~= acc);
    while i < lines.len()
        invariant
            i <= lines.len(),
            all == raw_lines(lines@),
            out@ == base + styled(acc + gutter_lines(all.take(i as int), gutter, slot), pal_of(pal)),
        decreases lines.len() - i,
    {
        let ghost a = acc + gutter_lines(all.take(i as int), gutter, slot);
        let text = prefixed(gutter, &line_text_of(&lines[i]));
        emit(out, Some(slot), text.as_str(), pal, Ghost(base), Ghost(a));
        emit(out, None, "\n", pal, Ghost(base), Ghost(a.push((Some(slot), text@))));
        proof {
            assert(all.take(i + 1).drop_last() =~= all.take(i as int));
            assert(all.take(i + 1).last() == lines@[i as int]@);
            assert(a.push((Some(slot), text@)).push((None, "\n"@)) =~= acc + gutter_lines(all.take(i + 1), gutter, slot));
        }
        i = i + 1;
    }
    assert(all.take(i as int) =~= all);
}

fn push_unified_hunk(out: &mut String, h: &Hunk, pal: Option<&Palette>, Ghost(base): Ghost<Seq<char>>, Ghost(acc): Ghost<Seq<Span>>)
    requires
        old(out)@ == base + styled(acc, pal_of(pal)),
    ensures
        final(out)@ == base + styled(acc + unified_hunk(*h), pal_of(pal)),
{
    let header = hunk_header(h);
    emit(out, Some(Slot::HunkHeader), header.as_str(), pal, Ghost(base), Ghost(acc));
    let ghost a1 = acc.push((Some(Slot::HunkHeader), header@));
    emit(out, None, "\n", pal, Ghost(base), Ghost(a1));
    let ghost a2 = a1.push((None, "\n"@));
    push_gutter_lines(out, &h.old_bytes, '-', Slot::LinesRemoved, pal, Ghost(base), Ghost(a2));
    let ghost a3 = a2 + gutter_lines(raw_lines(h.old_bytes@), '-', Slot::LinesRemoved);
    push_gutter_lines(out, &h.new_bytes, '+', Slot::LinesAdded, pal, Ghost(base), Ghost(a3));
    assert(a3 + gutter_lines(raw_lines(h.new_bytes@), '+', Slot::LinesAdded) =~= acc + unified_hunk(*h));
}

fn push_side_row(out: &mut String, h: &Hunk, k: usize, col: usize, pal: Option<&Palette>, Ghost(base): Ghost<Seq<char>>, Ghost(acc): Ghost<Seq<Span>>)
    requires
        old(out)@ == base + styled(acc, pal_of(pal)),
    ensures
        final(out)@ == base + styled(acc + side_row(*h, k as int, col as nat), pal_of(pal)),
{
    let ghost mut a = acc;
    if k < h.old_bytes.len() {
        let text = prefixed('-', &line_text_of(&h.old_bytes[k]));
        let mut field = String::new();
        push_padded(&mut field, text.as_str(), col);
        emit(out, Some(Slot::LinesRemoved), field.as_str(), pal, Ghost(base), Ghost(a));
        proof {
            reveal_strlit("-");
            assert(text@ =~= "-"@ + line_text(raw_lines(h.old_bytes@)[k as int]));
            a = a.push((Some(Slot::LinesRemoved), field@));
        }
    } else {
        let mut field = String::new();
        push_spaces(&mut field, col);
        emit(out, None, field.as_str(), pal, Ghost(base), Ghost(a));
        proof {
            assert(field@ =~= spaces(col as nat));
            a = a.push((None, field@));
        }
    }
    emit(out, None, " | ", pal, Ghost(base), Ghost(a));
    proof { a = a.push((None, " | "@)); }
    if k < h.new_bytes.len() {
        let text = prefixed('+', &line_text_of(&h.new_bytes[k]));
        emit(out, Some(Slot::LinesAdded), text.as_str(), pal, Ghost(base), Ghost(a));
        proof {
            reveal_strlit("+");
            assert(text@ =~= "+"@ + line_text(raw_lines(h.new_bytes@)[k as int]));
            a = a.push((Some(Slot::LinesAdded), text@));
        }
    }
    emit(out, None, "\n", pal, Ghost(base), Ghost(a));
    proof {
        a = a.push((None, "\n"@));
        assert(a =~= acc + side_row(*h, k as int, col as nat));
    }
}

fn push_side_hunk(out: &mut String, h: &Hunk, col: usize, pal: Option<&Palette>, Ghost(base): Ghost<Seq<char>>, Ghost(acc): Ghost<Seq<Span>>)
    requires
        old(out)@ == base + styled(acc, pal_of(pal)),
    ensures
        final(out)@ == base + styled(acc + side_hunk(*h, col as nat), pal_of(pal)),
{
    let header = hunk_header(h);
    emit(out, Some(Slot::HunkHeader), header.as_str(), pal, Ghost(base), Ghost(acc));
    let ghost a1 = acc.push((Some(Slot::HunkHeader), header@));
    emit(out, None, "\n", pal, Ghost(base), Ghost(a1));
    let ghost a2 = a1.push((None, "\n"@));
    let rows = if h.old_bytes.len() >= h.new_bytes.len() { h.old_bytes.len() } else { h.new_bytes.len() };
    let mut k: usize = 0;
    assert(a2 + side_rows(*h, 0, col as nat) =~= a2);
    while k < rows
        invariant
            k <= rows,
            rows == row_count(*h),
            out@ == base + styled(a2 + side_rows(*h, k as nat, col as nat), pal_of(pal)),
        decreases rows - k,
    {
        push_side_row(out, h, k, col, pal, Ghost(base), Ghost(a2 + side_rows(*h, k as nat, col as nat)));
        assert(a2 + side_rows(*h, k as nat, col as nat) + side_row(*h, k as int, col as nat) =~= a2 + side_rows(*h, (k + 1) as nat, col as nat));
        k = k + 1;
    }
    assert(a2 + side_rows(*h, row_count(*h), col as nat) =~= acc + side_hunk(*h, col as nat));
}

fn push_hunks(out: &mut String, hs: &Vec<Hunk>, wide: bool, col: usize, pal: Option<&Palette>, Ghost(base): Ghost<Seq<char>>, Ghost(acc): Ghost<Seq<Span>>)
    requires
        old(out)@ == base + styled(acc, pal_of(pal)),
    ensures
        final(out)@ == base + styled(acc + hunks_spans(hs@, wide, col as nat), pal_of(pal)),
{
    let mut i: usize = 0;
    assert(hs@.take(0) =~= Seq::<Hunk>::empty());
    assert(acc + hunks_spans(hs@.take(0), wide, col as nat) =~= acc);
    while i < hs.len()
        invariant
            i <= hs.len(),
            out@ == base + styled(acc + hunks_spans(hs@.take(i as int), wide, col as nat), pal_of(pal)),
        decreases hs.len() - i,
    {
        let ghost a = acc + hunks_spans(hs@.take(i as int), wide, col as nat);
        if wide {
            push_side_hunk(out, &hs[i], col, pal, Ghost(base), Ghost(a));
        } else {
            push_unified_hunk(out, &hs[i], pal, Ghost(base), Ghost(a));
        }
        proof {
            assert(hs@.take(i + 1).drop_last() =~= hs@.take(i as int));
            assert(hs@.take(i + 1).last() == hs@[i as int]);
            if wide {
                assert(a + side_hunk(hs@[i as int], col as nat) =~= acc + hunks_spans(hs@.take(i + 1), wide, col as nat));
            } else {
                assert(a + unified_hunk(hs@[i as int]) =~= acc + hunks_spans(hs@.take(i + 1), wide, col as nat));
            }
        }
        i = i + 1;
    }
    assert(hs@.take(i as int) =~= hs@);
}

/// Writes a diff at a given width, with colors from `pal` when there is one.
pub fn write_diff(d: &FileDiff, width: usize, pal: Option<&Palette>) -> (s: String)
    ensures
        s@ == styled(diff_spans(*d, width), pal_of(pal)),
{
    let mut out = String::new();
    let ghost base = out@;
    assert(styled(Seq::<Span>::empty(), pal_of(pal)) =~= Seq::<char>::empty());
    if d.binary {
        let mut marker = String::new();
        push_str(&mut marker, "Binary file ");
        push_str(&mut marker, d.file.as_str());
        push_str(&mut marker, " changed\n");
        emit(&mut out, None, marker.as_str(), pal, Ghost(base), Ghost(Seq::empty()));
        assert(Seq::<Span>::empty().push((None, marker@)) =~= diff_spans(*d, width));
        return out;
    }
    let mut title = String::new();
    push_str(&mut title, "diff --");
    push_str(&mut title, d.area.name());
    push_str(&mut title, " ");
    push_str(&mut title, d.file.as_str());
    push_str(&mut title, "\n");
    if width >= SIDE_BY_SIDE_WIDTH {
        let col = (width - 3) / 2;
        let mut left = String::new();
        push_str(&mut left, "--- a/");
        push_str(&mut left, d.file.as_str());
        push_padded(&mut title, left.as_str(), col);
        push_str(&mut title, " | ");
        push_str(&mut title, "+++ b/");
        push_str(&mut title, d.file.as_str());
        push_str(&mut title, "\n");
        emit(&mut out, None, title.as_str(), pal, Ghost(base), Ghost(Seq::empty()));
        let ghost a = Seq::<Span>::empty().push((None, title@));
        push_hunks(&mut out, &d.hunks, true, col, pal, Ghost(base), Ghost(a));
        assert(a + hunks_spans(d.hunks@, true, col as nat) =~= diff_spans(*d, width));
    } else {
        push_str(&mut title, "--- a/");
        push_str(&mut title, d.file.as_str());
        push_str(&mut title, "\n");
        push_str(&mut title, "+++ b/");
        push_str(&mut title, d.file.as_str());
        push_str(&mut title, "\n");
        emit(&mut out, None, title.as_str(), pal, Ghost(base), Ghost(Seq::empty()));
        let ghost a = Seq::<Span>::empty().push((None, title@));
        push_hunks(&mut out, &d.hunks, false, 0, pal, Ghost(base), Ghost(a));
        assert(a + hunks_spans(d.hunks@, false, 0) =~= diff_spans(*d, width));
    }
    out
}

} // verus!
