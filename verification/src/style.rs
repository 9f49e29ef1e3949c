//! Colors, ANSI escapes and styled text.
//!
//! Rendered text is a sequence of spans: a piece of text and, optionally, the color slot
//! it is painted with. Plain output writes the texts alone; ANSI output writes each painted
//! text between the slot's foreground escape and a reset escape. Removing the escapes from
//! the ANSI output gives the plain output back (`law_strip_styled`).

use vstd::prelude::*;
use crate::text::push_str;
use crate::text::decimal;
use crossterm::style::Color;

verus! {

/// A terminal color, one for each color crossterm can name.
#[derive(Debug, Clone, Copy, PartialEq, Eq, Structural)]
pub enum ThemeColor {
    Reset,
    Black,
    DarkGrey,
    Red,
    DarkRed,
    Green,
    DarkGreen,
    Yellow,
    DarkYellow,
    Blue,
    DarkBlue,
    Magenta,
    DarkMagenta,
    Cyan,
    DarkCyan,
    White,
    Grey,
    Rgb { r: u8, g: u8, b: u8 },
    AnsiValue(u8),
}

/// How a color is spelled to crossterm: by the name its `Color::try_from(&str)` accepts,
/// by red, green and blue components, or by an ANSI palette index.
#[derive(Debug, Clone, Copy, PartialEq, Eq)]
pub enum ColorSpec {
    Named(&'static str),
    Rgb { r: u8, g: u8, b: u8 },
    Indexed(u8),
}

/// How crossterm spells a theme color: a named color by its name, in lower case with
/// `_` between words.
pub open spec fn spec_of_color(c: ThemeColor) -> ColorSpec {
    match c {
        ThemeColor::Reset => ColorSpec::Named("reset"),
        ThemeColor::Black => ColorSpec::Named("black"),
        ThemeColor::DarkGrey => ColorSpec::Named("dark_grey"),
        ThemeColor::Red => ColorSpec::Named("red"),
        ThemeColor::DarkRed => ColorSpec::Named("dark_red"),
        ThemeColor::Green => ColorSpec::Named("green"),
        ThemeColor::DarkGreen => ColorSpec::Named("dark_green"),
        ThemeColor::Yellow => ColorSpec::Named("yellow"),
        ThemeColor::DarkYellow => ColorSpec::Named("dark_yellow"),
        ThemeColor::Blue => ColorSpec::Named("blue"),
        ThemeColor::DarkBlue => ColorSpec::Named("dark_blue"),
        ThemeColor::Magenta => ColorSpec::Named("magenta"),
        ThemeColor::DarkMagenta => ColorSpec::Named("dark_magenta"),
        ThemeColor::Cyan => ColorSpec::Named("cyan"),
        ThemeColor::DarkCyan => ColorSpec::Named("dark_cyan"),
        ThemeColor::White => ColorSpec::Named("white"),
        ThemeColor::Grey => ColorSpec::Named("grey"),
        ThemeColor::Rgb { r, g, b } => ColorSpec::Rgb { r, g, b },
        ThemeColor::AnsiValue(v) => ColorSpec::Indexed(v),
    }
}

/// How crossterm spells a theme color.
pub fn color_spec(c: ThemeColor) -> (s: ColorSpec)
    ensures
        s == spec_of_color(c),
{
    match c {
        ThemeColor::Reset => ColorSpec::Named("reset"),
        ThemeColor::Black => ColorSpec::Named("black"),
        ThemeColor::DarkGrey => ColorSpec::Named("dark_grey"),
        ThemeColor::Red => ColorSpec::Named("red"),
        ThemeColor::DarkRed => ColorSpec::Named("dark_red"),
        ThemeColor::Green => ColorSpec::Named("green"),
        ThemeColor::DarkGreen => ColorSpec::Named("dark_green"),
        ThemeColor::Yellow => ColorSpec::Named("yellow"),
        ThemeColor::DarkYellow => ColorSpec::Named("dark_yellow"),
        ThemeColor::Blue => ColorSpec::Named("blue"),
        ThemeColor::DarkBlue => ColorSpec::Named("dark_blue"),
        ThemeColor::Magenta => ColorSpec::Named("magenta"),
        ThemeColor::DarkMagenta => ColorSpec::Named("dark_magenta"),
        ThemeColor::Cyan => ColorSpec::Named("cyan"),
        ThemeColor::DarkCyan => ColorSpec::Named("dark_cyan"),
        ThemeColor::White => ColorSpec::Named("white"),
        ThemeColor::Grey => ColorSpec::Named("grey"),
        ThemeColor::Rgb { r, g, b } => ColorSpec::Rgb { r, g, b },
        ThemeColor::AnsiValue(v) => ColorSpec::Indexed(v),
    }
}

/// Whether a character is an ASCII digit.
pub open spec fn is_digit(c: char) -> bool {
    '0' <= c <= '9'
}

/// Whether `e` is a select-graphic-rendition escape: `ESC [`, digits and `;`, then `m`.
pub open spec fn is_sgr_escape(e: Seq<char>) -> bool {
    &&& e.len() >= 3
    &&& e[0] == '\x1b'
    &&& e[1] == '['
    &&& e[e.len() - 1] == 'm'
    &&& forall|i: int| 2 <= i < e.len() - 1 ==> is_digit(#[trigger] e[i]) || e[i] == ';'
}

/// `ESC [`, the parameters, then `m`.
pub open spec fn sgr(params: Seq<char>) -> Seq<char> {
    seq!['\x1b', '['] + params + seq!['m']
}

/// Whether a name is one of the names crossterm's `Color::try_from(&str)` knows, in lower
/// case.
pub open spec fn known_color_name(n: Seq<char>) -> bool {
    ||| n == "reset"@
    ||| n == "black"@
    ||| n == "dark_grey"@
    ||| n == "red"@
    ||| n == "dark_red"@
    ||| n == "green"@
    ||| n == "dark_green"@
    ||| n == "yellow"@
    ||| n == "dark_yellow"@
    ||| n == "blue"@
    ||| n == "dark_blue"@
    ||| n == "magenta"@
    ||| n == "dark_magenta"@
    ||| n == "cyan"@
    ||| n == "dark_cyan"@
    ||| n == "white"@
    ||| n == "grey"@
}

/// The ANSI palette index crossterm writes for a named color other than the reset color.
pub open spec fn named_index(n: Seq<char>) -> nat {
    if n == "black"@ {
        0
    } else if n == "dark_red"@ {
        1
    } else if n == "dark_green"@ {
        2
    } else if n == "dark_yellow"@ {
        3
    } else if n == "dark_blue"@ {
        4
    } else if n == "dark_magenta"@ {
        5
    } else if n == "dark_cyan"@ {
        6
    } else if n == "grey"@ {
        7
    } else if n == "dark_grey"@ {
        8
    } else if n == "red"@ {
        9
    } else if n == "green"@ {
        10
    } else if n == "yellow"@ {
        11
    } else if n == "blue"@ {
        12
    } else if n == "magenta"@ {
        13
    } else if n == "cyan"@ {
        14
    } else {
        15
    }
}

/// The parameters crossterm's `Colored::ForegroundColor` writes for the color a spec
/// spells while colors are enabled: `39` for the reset color, `38;5;<index>` for a named
/// or indexed color, and `38;2;<r>;<g>;<b>` for an RGB color.
pub open spec fn foreground_parameters(spec: ColorSpec) -> Seq<char> {
    match spec {
        ColorSpec::Named(n) => if n@ == "reset"@ {
            seq!['3', '9']
        } else {
            seq!['3', '8', ';', '5', ';'] + decimal(named_index(n@))
        },
        ColorSpec::Rgb { r, g, b } => seq!['3', '8', ';', '2', ';'] + decimal(r as nat) + seq![';'] + decimal(
            g as nat,
        ) + seq![';'] + decimal(b as nat),
        ColorSpec::Indexed(v) => seq!['3', '8', ';', '5', ';'] + decimal(v as nat),
    }
}

/// Whether a spec names a color crossterm knows by the name given.
pub open spec fn known_spec(spec: ColorSpec) -> bool {
    spec matches ColorSpec::Named(n) ==> known_color_name(n@)
}

/// The texts crossterm writes for `SetForegroundColor` of the colors the specs spell, in
/// order; a name, one crossterm knows, is turned into crossterm's `Color` by its
/// `Color::try_from(&str)`. While colors are enabled each text is
/// `ESC [ <parameters> m`, the parameters as `foreground_parameters` states them; when
/// they are disabled each is `ESC [ m`. crossterm decides that once per process, from the
/// `NO_COLOR` environment variable, and only its `Colored::set_ansi_color_disabled`
/// changes it afterwards, which nothing in this program calls: so either every text is
/// colored or none is. Which of the two depends on the environment, so both are allowed.
#[verifier::external_body]
fn foreground_escapes(specs: &Vec<ColorSpec>) -> (es: Vec<String>)
    requires
        forall|i: int| 0 <= i < specs.len() ==> known_spec(#[trigger] specs@[i]),
    ensures
        es.len() == specs.len(),
        (forall|i: int| 0 <= i < es.len() ==> #[trigger] es@[i]@ == sgr(foreground_parameters(specs@[i])))
            || (forall|i: int| 0 <= i < es.len() ==> #[trigger] es@[i]@ == sgr(Seq::empty())),
        forall|i: int| 0 <= i < es.len() ==> is_sgr_escape(#[trigger] es@[i]@),
{
    specs.iter().map(|spec| {
        let color = match *spec {
            ColorSpec::Named(name) => Color::try_from(name).unwrap_or(Color::Reset),
            ColorSpec::Rgb { r, g, b } => Color::Rgb { r, g, b },
            ColorSpec::Indexed(v) => Color::AnsiValue(v),
        };
        format!("{}", crossterm::style::SetForegroundColor(color))
    }).collect()
}

/// The reset escape `ESC [ 0 m`.
pub open spec fn reset_seq() -> Seq<char> {
    seq!['\x1b', '[', '0', 'm']
}

/// The text crossterm writes for `ResetColor`, which its source writes as `csi!("0m")`.
#[verifier::external_body]
fn reset_escape() -> (e: String)
    ensures
        e@ == reset_seq(),
{
    format!("{}", crossterm::style::ResetColor)
}

/// Color slots used by ANSI status and diff renderers.
#[derive(Debug, Clone, Copy, PartialEq, Eq)]
pub struct ColorTheme {
    pub modified: ThemeColor,
    pub added: ThemeColor,
    pub deleted: ThemeColor,
    pub renamed: ThemeColor,
    pub conflict: ThemeColor,
    pub untracked: ThemeColor,
    pub filename: ThemeColor,
    pub dir_path: ThemeColor,
    pub lines_added: ThemeColor,
    pub lines_removed: ThemeColor,
    pub hunk_header: ThemeColor,
    pub section_header: ThemeColor,
}

/// The theme the renderers use.
pub open spec fn default_color_theme() -> ColorTheme {
    ColorTheme {
        modified: ThemeColor::Yellow,
        added: ThemeColor::Green,
        deleted: ThemeColor::Red,
        renamed: ThemeColor::Cyan,
        conflict: ThemeColor::Red,
        untracked: ThemeColor::Blue,
        filename: ThemeColor::White,
        dir_path: ThemeColor::DarkGrey,
        lines_added: ThemeColor::Green,
        lines_removed: ThemeColor::Red,
        hunk_header: ThemeColor::Magenta,
        section_header: ThemeColor::Cyan,
    }
}

impl Default for ColorTheme {
    fn default() -> (t: ColorTheme)
        ensures
            t == default_color_theme(),
    {
        ColorTheme {
            modified: ThemeColor::Yellow,
            added: ThemeColor::Green,
            deleted: ThemeColor::Red,
            renamed: ThemeColor::Cyan,
            conflict: ThemeColor::Red,
            untracked: ThemeColor::Blue,
            filename: ThemeColor::White,
            dir_path: ThemeColor::DarkGrey,
            lines_added: ThemeColor::Green,
            lines_removed: ThemeColor::Red,
            hunk_header: ThemeColor::Magenta,
            section_header: ThemeColor::Cyan,
        }
    }
}

/// A color slot of the theme.
#[derive(Debug, Clone, Copy, PartialEq, Eq, Structural)]
pub enum Slot {
    Modified,
    Added,
    Deleted,
    Renamed,
    Conflict,
    Untracked,
    Filename,
    DirPath,
    LinesAdded,
    LinesRemoved,
    HunkHeader,
    SectionHeader,
}

/// The color a theme gives a slot.
pub open spec fn slot_color(t: ColorTheme, s: Slot) -> ThemeColor {
    match s {
        Slot::Modified => t.modified,
        Slot::Added => t.added,
        Slot::Deleted => t.deleted,
        Slot::Renamed => t.renamed,
        Slot::Conflict => t.conflict,
        Slot::Untracked => t.untracked,
        Slot::Filename => t.filename,
        Slot::DirPath => t.dir_path,
        Slot::LinesAdded => t.lines_added,
        Slot::LinesRemoved => t.lines_removed,
        Slot::HunkHeader => t.hunk_header,
        Slot::SectionHeader => t.section_header,
    }
}

/// The escape text of each slot of a theme, and the reset escape.
pub struct Palette {
    pub modified: String,
    pub added: String,
    pub deleted: String,
    pub renamed: String,
    pub conflict: String,
    pub untracked: String,
    pub filename: String,
    pub dir_path: String,
    pub lines_added: String,
    pub lines_removed: String,
    pub hunk_header: String,
    pub section_header: String,
    pub reset: String,
}

/// The escape a palette holds for a slot.
pub open spec fn slot_escape(p: Palette, s: Slot) -> Seq<char> {
    match s {
        Slot::Modified => p.modified@,
        Slot::Added => p.added@,
        Slot::Deleted => p.deleted@,
        Slot::Renamed => p.renamed@,
        Slot::Conflict => p.conflict@,
        Slot::Untracked => p.untracked@,
        Slot::Filename => p.filename@,
        Slot::DirPath => p.dir_path@,
        Slot::LinesAdded => p.lines_added@,
        Slot::LinesRemoved => p.lines_removed@,
        Slot::HunkHeader => p.hunk_header@,
        Slot::SectionHeader => p.section_header@,
    }
}

/// Whether every escape of a palette is an SGR escape and its reset is `ESC [ 0 m`.
pub open spec fn palette_wf(p: Palette) -> bool {
    &&& forall|s: Slot| is_sgr_escape(#[trigger] slot_escape(p, s))
    &&& p.reset@ == reset_seq()
}

impl Palette {
    /// The escape for a slot.
    pub fn escape(&self, s: Slot) -> (e: &str)
        ensures
            e@ == slot_escape(*self, s),
    {
        match s {
            Slot::Modified => self.modified.as_str(),
            Slot::Added => self.added.as_str(),
            Slot::Deleted => self.deleted.as_str(),
            Slot::Renamed => self.renamed.as_str(),
            Slot::Conflict => self.conflict.as_str(),
            Slot::Untracked => self.untracked.as_str(),
            Slot::Filename => self.filename.as_str(),
            Slot::DirPath => self.dir_path.as_str(),
            Slot::LinesAdded => self.lines_added.as_str(),
            Slot::LinesRemoved => self.lines_removed.as_str(),
            Slot::HunkHeader => self.hunk_header.as_str(),
            Slot::SectionHeader => self.section_header.as_str(),
        }
    }
}

/// The escape crossterm writes for the color `c` while colors are enabled.
pub open spec fn color_escape(c: ThemeColor) -> Seq<char> {
    sgr(foreground_parameters(spec_of_color(c)))
}

/// Whether a palette holds the theme's escapes: every slot the escape for the color the
/// theme gives it, or, with colors disabled, every slot `ESC [ m`.
pub open spec fn palette_of(p: Palette, t: ColorTheme) -> bool {
    ||| forall|s: Slot| #[trigger] slot_escape(p, s) == color_escape(slot_color(t, s))
    ||| forall|s: Slot| #[trigger] slot_escape(p, s) == sgr(Seq::empty())
}

/// The slots, in the order a palette is built.
pub open spec fn slot_order() -> Seq<Slot> {
    seq![
        Slot::Modified,
        Slot::Added,
        Slot::Deleted,
        Slot::Renamed,
        Slot::Conflict,
        Slot::Untracked,
        Slot::Filename,
        Slot::DirPath,
        Slot::LinesAdded,
        Slot::LinesRemoved,
        Slot::HunkHeader,
        Slot::SectionHeader,
    ]
}

/// The escapes of a theme, as crossterm writes them.
pub fn palette_for(t: &ColorTheme) -> (p: Palette)
    ensures
        palette_wf(p),
        palette_of(p, *t),
{
    let mut specs: Vec<ColorSpec> = Vec::new();
    specs.push(color_spec(t.modified));
    specs.push(color_spec(t.added));
    specs.push(color_spec(t.deleted));
    specs.push(color_spec(t.renamed));
    specs.push(color_spec(t.conflict));
    specs.push(color_spec(t.untracked));
    specs.push(color_spec(t.filename));
    specs.push(color_spec(t.dir_path));
    specs.push(color_spec(t.lines_added));
    specs.push(color_spec(t.lines_removed));
    specs.push(color_spec(t.hunk_header));
    specs.push(color_spec(t.section_header));
    proof {
        assert forall|i: int| 0 <= i < specs.len() implies known_spec(#[trigger] specs@[i]) by {
            assert(specs@[i] == spec_of_color(slot_color(*t, slot_order()[i])));
        }
    }
    let es = foreground_escapes(&specs);
    let p = Palette {
        modified: es[0].clone(),
        added: es[1].clone(),
        deleted: es[2].clone(),
        renamed: es[3].clone(),
        conflict: es[4].clone(),
        untracked: es[5].clone(),
        filename: es[6].clone(),
        dir_path: es[7].clone(),
        lines_added: es[8].clone(),
        lines_removed: es[9].clone(),
        hunk_header: es[10].clone(),
        section_header: es[11].clone(),
        reset: reset_escape(),
    };
    proof {
        assert forall|s: Slot| #[trigger] slot_escape(p, s) == es@[slot_index(s)]@ by {}
        assert forall|i: int| 0 <= i < 12 implies specs@[i] == spec_of_color(slot_color(*t, slot_order()[i])) by {}
        assert forall|s: Slot| slot_order()[slot_index(s)] == s by {}
        assert forall|s: Slot| is_sgr_escape(#[trigger] slot_escape(p, s)) by {
            assert(is_sgr_escape(es@[slot_index(s)]@));
        }
        if forall|i: int| 0 <= i < es.len() ==> #[trigger] es@[i]@ == sgr(foreground_parameters(specs@[i])) {
            assert forall|s: Slot| #[trigger] slot_escape(p, s) == color_escape(slot_color(*t, s)) by {
                assert(es@[slot_index(s)]@ == sgr(foreground_parameters(specs@[slot_index(s)])));
            }
        } else {
            assert forall|s: Slot| #[trigger] slot_escape(p, s) == sgr(Seq::empty()) by {
                assert(es@[slot_index(s)]@ == sgr(Seq::empty()));
            }
        }
    }
    p
}

/// The position of a slot in `slot_order`.
pub open spec fn slot_index(s: Slot) -> int {
    match s {
        Slot::Modified => 0,
        Slot::Added => 1,
        Slot::Deleted => 2,
        Slot::Renamed => 3,
        Slot::Conflict => 4,
        Slot::Untracked => 5,
        Slot::Filename => 6,
        Slot::DirPath => 7,
        Slot::LinesAdded => 8,
        Slot::LinesRemoved => 9,
        Slot::HunkHeader => 10,
        Slot::SectionHeader => 11,
    }
}

/// A span: a piece of text and the slot it is painted with, if any.
pub type Span = (Option<Slot>, Seq<char>);

/// A span as written: its text alone without a palette or without a slot, and between
/// the slot's escape and the reset escape otherwise.
pub open spec fn paint(span: Span, pal: Option<Palette>) -> Seq<char> {
    match (span.0, pal) {
        (Some(s), Some(p)) => slot_escape(p, s) + span.1 + p.reset@,
        _ => span.1,
    }
}

/// Spans as written one after the other.
pub open spec fn styled(spans: Seq<Span>, pal: Option<Palette>) -> Seq<char>
    decreases spans.len(),
{
    if spans.len() == 0 {
        Seq::empty()
    } else {
        paint(spans[0], pal) + styled(spans.drop_first(), pal)
    }
}

/// The texts of the spans painted with `slot`, in order.
pub open spec fn slot_texts(spans: Seq<Span>, slot: Slot) -> Seq<Seq<char>>
    decreases spans.len(),
{
    if spans.len() == 0 {
        Seq::empty()
    } else if spans.last().0 == Some(slot) {
        slot_texts(spans.drop_last(), slot).push(spans.last().1)
    } else {
        slot_texts(spans.drop_last(), slot)
    }
}

/// The texts painted with a slot in a concatenation are those of each part in turn.
pub proof fn lemma_slot_texts_concat(a: Seq<Span>, b: Seq<Span>, slot: Slot)
    ensures
        slot_texts(a + b, slot) == slot_texts(a, slot) + slot_texts(b, slot),
    decreases b.len(),
{
    if b.len() == 0 {
        assert(a + b =~= a);
        assert(slot_texts(a, slot) + slot_texts(b, slot) =~= slot_texts(a, slot));
    } else {
        lemma_slot_texts_concat(a, b.drop_last(), slot);
        assert((a + b).drop_last() =~= a + b.drop_last());
        assert((a + b).last() == b.last());
        if b.last().0 == Some(slot) {
            assert(slot_texts(a, slot) + slot_texts(b, slot) =~= (slot_texts(a, slot) + slot_texts(b.drop_last(), slot)).push(b.last().1));
        }
    }
}

/// Writing a concatenation of spans writes each part in turn.
pub proof fn lemma_styled_concat(a: Seq<Span>, b: Seq<Span>, pal: Option<Palette>)
    ensures
        styled(a + b, pal) == styled(a, pal) + styled(b, pal),
    decreases a.len(),
{
    if a.len() == 0 {
        assert(a + b =~= b);
        assert(styled(a, pal) + styled(b, pal) =~= styled(b, pal));
    } else {
        assert((a + b).drop_first() =~= a.drop_first() + b);
        lemma_styled_concat(a.drop_first(), b, pal);
        assert(styled(a + b, pal) =~= paint(a[0], pal) + (styled(a.drop_first(), pal) + styled(b, pal)));
    }
}

/// Writing spans one more span at the end.
pub proof fn lemma_styled_push(a: Seq<Span>, s: Span, pal: Option<Palette>)
    ensures
        styled(a.push(s), pal) == styled(a, pal) + paint(s, pal),
{
    lemma_styled_concat(a, seq![s], pal);
    assert(a + seq![s] =~= a.push(s));
    assert(seq![s].drop_first() =~= Seq::<Span>::empty());
    assert(styled(Seq::<Span>::empty(), pal) =~= Seq::<char>::empty());
    assert(styled(seq![s], pal) == paint(s, pal) + styled(seq![s].drop_first(), pal));
    assert(styled(seq![s], pal) =~= paint(s, pal));
}

/// Spans whose texts hold no escape character are written without one when plain.
pub proof fn lemma_plain_free(spans: Seq<Span>)
    requires
        forall|i: int| 0 <= i < spans.len() ==> escape_free(#[trigger] spans[i].1),
    ensures
        escape_free(styled(spans, None)),
    decreases spans.len(),
{
    if spans.len() > 0 {
        let rest = spans.drop_first();
        assert forall|i: int| 0 <= i < rest.len() implies escape_free(#[trigger] rest[i].1) by {
            assert(rest[i] == spans[i + 1]);
        }
        lemma_plain_free(rest);
        let a = spans[0].1;
        let b = styled(rest, None);
        assert(escape_free(a));
        assert forall|i: int| 0 <= i < (a + b).len() implies (a + b)[i] != '\x1b' by {
            if i < a.len() {
                assert((a + b)[i] == a[i]);
            } else {
                assert((a + b)[i] == b[i - a.len()]);
            }
        }
    }
}

/// A painted span puts an escape character into the colored text.
pub proof fn lemma_painted_has_escape(spans: Seq<Span>, p: Palette)
    requires
        palette_wf(p),
        exists|k: int| 0 <= k < spans.len() && (#[trigger] spans[k]).0 is Some,
    ensures
        exists|j: int| 0 <= j < styled(spans, Some(p)).len() && styled(spans, Some(p))[j] == '\x1b',
    decreases spans.len(),
{
    let all = styled(spans, Some(p));
    let head = paint(spans[0], Some(p));
    let rest = styled(spans.drop_first(), Some(p));
    assert(all == head + rest);
    if spans[0].0 is Some {
        let e = slot_escape(p, spans[0].0->0);
        assert(is_sgr_escape(e));
        assert(head == e + spans[0].1 + p.reset@);
        assert(all[0] == e[0]);
    } else {
        let k = choose|k: int| 0 <= k < spans.len() && (#[trigger] spans[k]).0 is Some;
        assert(k > 0);
        assert(spans.drop_first()[k - 1] == spans[k]);
        lemma_painted_has_escape(spans.drop_first(), p);
        let j = choose|j: int| 0 <= j < rest.len() && rest[j] == '\x1b';
        assert(all[head.len() + j] == rest[j]);
    }
}

/// Appends a span as written to `out`.
pub fn push_span(out: &mut String, slot: Option<Slot>, text: &str, pal: Option<&Palette>)
    ensures
        final(out)@ == old(out)@ + paint((slot, text@), match pal {
            Some(p) => Some(*p),
            None => None,
        }),
{
    match (slot, pal) {
        (Some(s), Some(p)) => {
            push_str(out, p.escape(s));
            push_str(out, text);
            push_str(out, p.reset.as_str());
        },
        _ => push_str(out, text),
    }
}

/// The written palette: the palette a reference points to.
pub open spec fn pal_of(pal: Option<&Palette>) -> Option<Palette> {
    match pal {
        Some(p) => Some(*p),
        None => None,
    }
}

// ----- Removing escapes -----

/// Number of leading characters of `s` that are digits or `;`.
pub open spec fn param_run(s: Seq<char>) -> nat
    decreases s.len(),
{
    if s.len() > 0 && (is_digit(s[0]) || s[0] == ';') {
        1 + param_run(s.drop_first())
    } else {
        0
    }
}

/// Length of the SGR escape that `s` starts with, or 0 when it starts with none.
pub open spec fn sgr_prefix_len(s: Seq<char>) -> nat {
    if s.len() >= 3 && s[0] == '\x1b' && s[1] == '[' {
        let n = param_run(s.skip(2));
        if 2 + n < s.len() && s[2 + n as int] == 'm' {
            3 + n
        } else {
            0
        }
    } else {
        0
    }
}

/// `s` with its SGR escapes removed.
pub open spec fn strip_ansi(s: Seq<char>) -> Seq<char>
    decreases s.len(),
{
    if s.len() == 0 {
        Seq::empty()
    } else {
        let k = sgr_prefix_len(s);
        if 0 < k <= s.len() {
            strip_ansi(s.skip(k as int))
        } else {
            seq![s[0]] + strip_ansi(s.drop_first())
        }
    }
}

/// Whether `s` holds no escape character.
pub open spec fn escape_free(s: Seq<char>) -> bool {
    forall|i: int| 0 <= i < s.len() ==> s[i] != '\x1b'
}

proof fn lemma_param_run_of_escape(e: Seq<char>, t: Seq<char>, k: int)
    requires
        is_sgr_escape(e),
        2 <= k <= e.len() - 1,
    ensures
        param_run((e + t).skip(k)) == e.len() - 1 - k,
    decreases e.len() - 1 - k,
{
    let s = (e + t).skip(k);
    if k < e.len() - 1 {
        assert(s[0] == e[k]);
        assert(s.drop_first() =~= (e + t).skip(k + 1));
        lemma_param_run_of_escape(e, t, k + 1);
    } else {
        assert(s[0] == e[k]);
    }
}

/// An escape in front of text disappears when escapes are removed.
pub proof fn lemma_strip_escape(e: Seq<char>, t: Seq<char>)
    requires
        is_sgr_escape(e),
    ensures
        strip_ansi(e + t) == strip_ansi(t),
{
    let s = e + t;
    lemma_param_run_of_escape(e, t, 2);
    assert(s.skip(2) =~= (e + t).skip(2));
    assert(s[0] == '\x1b' && s[1] == '[');
    assert(s[2 + (e.len() - 3)] == e[e.len() - 1]);
    assert(sgr_prefix_len(s) == e.len());
    assert(s.skip(e.len() as int) =~= t);
}

/// Escape-free text in front of more text is kept when escapes are removed.
pub proof fn lemma_strip_plain(p: Seq<char>, t: Seq<char>)
    requires
        escape_free(p),
    ensures
        strip_ansi(p + t) == p + strip_ansi(t),
    decreases p.len(),
{
    if p.len() == 0 {
        assert(p + t =~= t);
    } else {
        let s = p + t;
        assert(s[0] == p[0]);
        assert(sgr_prefix_len(s) == 0);
        assert(s.drop_first() =~= p.drop_first() + t);
        lemma_strip_plain(p.drop_first(), t);
        assert(p =~= seq![p[0]] + p.drop_first());
    }
}

/// Removing the escapes from styled output gives the plain output, when no span text
/// holds an escape character.
pub proof fn law_strip_styled(spans: Seq<Span>, p: Palette)
    requires
        palette_wf(p),
        forall|i: int| 0 <= i < spans.len() ==> escape_free(#[trigger] spans[i].1),
    ensures
        strip_ansi(styled(spans, Some(p))) == styled(spans, None),
    decreases spans.len(),
{
    if spans.len() > 0 {
        let rest = spans.drop_first();
        assert forall|i: int| 0 <= i < rest.len() implies escape_free(#[trigger] rest[i].1) by {
            assert(rest[i] == spans[i + 1]);
        }
        law_strip_styled(rest, p);
        let sp = spans[0];
        assert(escape_free(sp.1));
        let tail = styled(rest, Some(p));
        match sp.0 {
            Some(s) => {
                let e = slot_escape(p, s);
                assert(is_sgr_escape(e));
                assert(is_sgr_escape(p.reset@)) by {
                    reveal_strlit("0");
                }
                assert(styled(spans, Some(p)) =~= e + (sp.1 + (p.reset@ + tail)));
                lemma_strip_escape(e, sp.1 + (p.reset@ + tail));
                lemma_strip_plain(sp.1, p.reset@ + tail);
                lemma_strip_escape(p.reset@, tail);
            },
            None => {
                assert(styled(spans, Some(p)) =~= sp.1 + tail);
                lemma_strip_plain(sp.1, tail);
            },
        }
    }
}

} // verus!
