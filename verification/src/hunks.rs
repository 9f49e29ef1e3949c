//! Text hunks between two contents, and the raw diff of one file.

use vstd::prelude::*;
use crate::model::Hunk;
use crate::model::FileDiff;
use crate::model::DiffArea;
use crate::model::DiffError;
use crate::paths::normalized_diff_path;
use crate::paths::repo_relative_path;
use crate::lines::lines_of;
use crate::lines::binary_content;
use crate::lines::byte_lines;
use crate::lines::is_binary;
use gix_diff::blob::sources::byte_lines as gix_byte_lines;
use gix_diff::blob::Algorithm;
use gix_diff::blob::InternedInput;

verus! {

/// The line ranges of the hunks that gix-diff's histogram diff, with git's slider
/// heuristics, finds between two contents split into lines: for each hunk, the start and
/// end of its old lines and the start and end of its new lines.
pub uninterp spec fn histogram_hunk_ranges(old: Seq<u8>, new: Seq<u8>) -> Seq<(u32, u32, u32, u32)>;

/// Whether hunk ranges lie within the lines of `old` and `new`, are non-empty, and come in
/// increasing order with unchanged lines between them.
pub open spec fn ranges_well_formed(ranges: Seq<(u32, u32, u32, u32)>, old: Seq<u8>, new: Seq<u8>) -> bool {
    &&& forall|i: int|
        #![trigger ranges[i]]
        0 <= i < ranges.len() ==> {
            &&& ranges[i].0 <= ranges[i].1 <= lines_of(old).len()
            &&& ranges[i].2 <= ranges[i].3 <= lines_of(new).len()
            &&& (ranges[i].0 < ranges[i].1 || ranges[i].2 < ranges[i].3)
        }
    &&& forall|i: int, j: int|
        #![trigger ranges[i], ranges[j]]
        0 <= i < j < ranges.len() ==> ranges[i].1 < ranges[j].0 && ranges[i].3 < ranges[j].2
}

/// `lines` with each range's old lines replaced by its new lines from `new_lines`, the
/// last range first so that the earlier ranges keep their positions.
pub open spec fn splice(lines: Seq<Seq<u8>>, ranges: Seq<(u32, u32, u32, u32)>, new_lines: Seq<Seq<u8>>) -> Seq<
    Seq<u8>,
>
    decreases ranges.len(),
{
    if ranges.len() == 0 {
        lines
    } else {
        let r = ranges.last();
        splice(
            lines.take(r.0 as int) + new_lines.subrange(r.2 as int, r.3 as int) + lines.skip(r.1 as int),
            ranges.drop_last(),
            new_lines,
        )
    }
}

/// Computes line hunks with gix-diff: `InternedInput::new` over `sources::byte_lines` of
/// both sides, then `diff_with_slider_heuristics` with the histogram algorithm, then
/// `Diff::hunks`. The ranges are named by `histogram_hunk_ranges`; the facts stated are the
/// ones gix-diff's source shows: `byte_lines` splits after each newline as `lines_of`
/// does, and `HunkIter` yields non-empty hunks within the token sequences in increasing
/// order. Besides, the histogram diff first strips the common prefix and suffix, and
/// marks every line of one side changed when the other side has none left: so equal
/// line sequences have no hunk, and a side without lines faces one hunk that holds all
/// the lines of the other side. The diff is the edit script that turns the old lines into
/// the new ones (gix-imara-diff's `Diff::compute`), and `HunkIter` steps over unchanged
/// lines of both sides together: so replacing each hunk's old lines by its new lines
/// gives the new lines. The diff asserts that each side has fewer than `i32::MAX` lines,
/// which the precondition states.
#[verifier::external_body]
fn histogram_hunks(old: &[u8], new: &[u8]) -> (ranges: Vec<(u32, u32, u32, u32)>)
    requires
        lines_of(old@).len() < i32::MAX,
        lines_of(new@).len() < i32::MAX,
    ensures
        ranges@ == histogram_hunk_ranges(old@, new@),
        ranges_well_formed(ranges@, old@, new@),
        splice(lines_of(old@), ranges@, lines_of(new@)) == lines_of(new@),
        lines_of(old@) == lines_of(new@) ==> ranges@.len() == 0,
        lines_of(old@).len() == 0 && lines_of(new@).len() > 0 ==> ranges@ == seq![
            (0u32, 0u32, 0u32, lines_of(new@).len() as u32),
        ],
        lines_of(new@).len() == 0 && lines_of(old@).len() > 0 ==> ranges@ == seq![
            (0u32, lines_of(old@).len() as u32, 0u32, 0u32),
        ],
{
    let input = InternedInput::new(gix_byte_lines(old), gix_byte_lines(new));
    let diff = gix_diff::blob::diff_with_slider_heuristics(Algorithm::Histogram, &input);
    diff.hunks().map(|h| (h.before.start, h.before.end, h.after.start, h.after.end)).collect()
}

/// The 1-based first line of a range, or 0 for an empty range at the very start.
pub open spec fn range_start_of(start: u32, end: u32) -> u32 {
    if start == 0 && end == 0 {
        0
    } else {
        (start + 1) as u32
    }
}

/// The 1-based first line of the range `start..end`, or 0 for an empty range at the
/// very start.
pub fn range_start(start: u32, end: u32) -> (r: u32)
    requires
        start < u32::MAX,
    ensures
        r == range_start_of(start, end),
{
    if start == 0 && end == 0 {
        0
    } else {
        start + 1
    }
}

/// Whether `h` is the hunk for `range` over the lines of `old` and `new`.
pub open spec fn hunk_for_range(h: Hunk, old: Seq<u8>, new: Seq<u8>, range: (u32, u32, u32, u32)) -> bool {
    &&& h.old_start == range_start_of(range.0, range.1)
    &&& h.old_lines == range.1 - range.0
    &&& h.new_start == range_start_of(range.2, range.3)
    &&& h.new_lines == range.3 - range.2
    &&& h.old_bytes@.map_values(|l: Vec<u8>| l@) == lines_of(old).subrange(range.0 as int, range.1 as int)
    &&& h.new_bytes@.map_values(|l: Vec<u8>| l@) == lines_of(new).subrange(range.2 as int, range.3 as int)
}

/// Whether `hunks` are the hunks of the histogram diff between `old` and `new`, in order.
pub open spec fn hunks_of(hunks: Seq<Hunk>, old: Seq<u8>, new: Seq<u8>) -> bool {
    let ranges = histogram_hunk_ranges(old, new);
    &&& hunks.len() == ranges.len()
    &&& forall|i: int| #![trigger hunks[i]] 0 <= i < hunks.len() ==> hunk_for_range(hunks[i], old, new, ranges[i])
}

/// Copies lines `start..end` of `lines`.
fn copy_lines(lines: &Vec<Vec<u8>>, start: usize, end: usize) -> (out: Vec<Vec<u8>>)
    requires
        start <= end <= lines.len(),
    ensures
        out@.map_values(|l: Vec<u8>| l@) == lines@.map_values(|l: Vec<u8>| l@).subrange(start as int, end as int),
{
    let ghost all = lines@.map_values(|l: Vec<u8>| l@);
    let mut out: Vec<Vec<u8>> = Vec::new();
    let mut k = start;
    while k < end
        invariant
            start <= k <= end <= lines.len(),
            all == lines@.map_values(|l: Vec<u8>| l@),
            out@.map_values(|l: Vec<u8>| l@) == all.subrange(start as int, k as int),
        decreases end - k,
    {
        let line = vstd::slice::slice_to_vec(lines[k].as_slice());
        let ghost before = out@.map_values(|l: Vec<u8>| l@);
        out.push(line);
        assert(out@.map_values(|l: Vec<u8>| l@) =~= before.push(all[k as int]));
        k = k + 1;
        assert(all.subrange(start as int, k as int) =~= all.subrange(start as int, (k - 1) as int).push(all[k - 1]));
    }
    out
}

/// Whether `hunks` is a single hunk adding every line of `new` to nothing.
pub open spec fn one_addition_hunk(hunks: Seq<Hunk>, new: Seq<u8>) -> bool {
    &&& hunks.len() == 1
    &&& hunks[0].old_start == 0
    &&& hunks[0].old_lines == 0
    &&& hunks[0].new_start == 1
    &&& hunks[0].new_lines == lines_of(new).len()
    &&& hunks[0].old_bytes@.len() == 0
    &&& hunks[0].new_bytes@.map_values(|l: Vec<u8>| l@) == lines_of(new)
}

/// Whether `hunks` is a single hunk removing every line of `old`.
pub open spec fn one_removal_hunk(hunks: Seq<Hunk>, old: Seq<u8>) -> bool {
    &&& hunks.len() == 1
    &&& hunks[0].old_start == 1
    &&& hunks[0].old_lines == lines_of(old).len()
    &&& hunks[0].new_start == 0
    &&& hunks[0].new_lines == 0
    &&& hunks[0].old_bytes@.map_values(|l: Vec<u8>| l@) == lines_of(old)
    &&& hunks[0].new_bytes@.len() == 0
}

/// Whether hunks between `old` and `new` have the shape every diff gives at the edges:
/// no hunk between equal lines, and one hunk that adds, or removes, all the lines of a
/// content facing none.
pub open spec fn edge_shapes(hunks: Seq<Hunk>, old: Seq<u8>, new: Seq<u8>) -> bool {
    &&& lines_of(old) == lines_of(new) ==> hunks.len() == 0
    &&& lines_of(old).len() == 0 && lines_of(new).len() > 0 ==> one_addition_hunk(hunks, new)
    &&& lines_of(new).len() == 0 && lines_of(old).len() > 0 ==> one_removal_hunk(hunks, old)
}

/// The hunks for line ranges over the lines of `old` and `new`: for each range, its
/// starts and lengths, and the raw bytes of the lines it covers.
pub fn hunks_for_ranges(old: &[u8], new: &[u8], ranges: &Vec<(u32, u32, u32, u32)>) -> (hunks: Vec<Hunk>)
    requires
        ranges_well_formed(ranges@, old@, new@),
        lines_of(old@).len() < u32::MAX,
        lines_of(new@).len() < u32::MAX,
    ensures
        hunks@.len() == ranges@.len(),
        forall|i: int| #![trigger hunks@[i]] 0 <= i < hunks@.len() ==> hunk_for_range(hunks@[i], old@, new@, ranges@[i]),
{
    let old_lines = byte_lines(old);
    let new_lines = byte_lines(new);
    let mut hunks: Vec<Hunk> = Vec::new();
    let mut i: usize = 0;
    while i < ranges.len()
        invariant
            i <= ranges.len(),
            ranges_well_formed(ranges@, old@, new@),
            old_lines@.map_values(|l: Vec<u8>| l@) == lines_of(old@),
            new_lines@.map_values(|l: Vec<u8>| l@) == lines_of(new@),
            lines_of(old@).len() < u32::MAX,
            lines_of(new@).len() < u32::MAX,
            hunks.len() == i,
            forall|k: int| #![trigger hunks@[k]] 0 <= k < i ==> hunk_for_range(hunks@[k], old@, new@, ranges@[k]),
        decreases ranges.len() - i,
    {
        let r = ranges[i];
        assert(r == ranges@[i as int]);
        let h = Hunk {
            old_start: range_start(r.0, r.1),
            old_lines: r.1 - r.0,
            new_start: range_start(r.2, r.3),
            new_lines: r.3 - r.2,
            old_bytes: copy_lines(&old_lines, r.0 as usize, r.1 as usize),
            new_bytes: copy_lines(&new_lines, r.2 as usize, r.3 as usize),
        };
        hunks.push(h);
        i = i + 1;
    }
    hunks
}

/// The position of a hunk's old lines: the lines before it.
pub open spec fn hunk_position(h: Hunk) -> int {
    if h.old_start == 0 {
        0
    } else {
        h.old_start - 1
    }
}

/// The position of a hunk's new lines: the lines before them.
pub open spec fn hunk_new_position(h: Hunk) -> int {
    if h.new_start == 0 {
        0
    } else {
        h.new_start - 1
    }
}

/// `lines` with each hunk's old lines replaced by its new lines, the last hunk first.
pub open spec fn apply_hunks(lines: Seq<Seq<u8>>, hunks: Seq<Hunk>) -> Seq<Seq<u8>>
    decreases hunks.len(),
{
    if hunks.len() == 0 {
        lines
    } else {
        let h = hunks.last();
        let p = hunk_position(h);
        apply_hunks(
            lines.take(p) + h.new_bytes@.map_values(|l: Vec<u8>| l@) + lines.skip(p + h.old_lines),
            hunks.drop_last(),
        )
    }
}

/// Whether hunks come in order: each hunk's old lines hold as many lines as it counts,
/// and end before the next hunk's old lines begin, and likewise for the new lines.
pub open spec fn hunks_in_order(hunks: Seq<Hunk>) -> bool {
    &&& forall|i: int|
        #![trigger hunks[i]]
        0 <= i < hunks.len() ==> hunks[i].old_bytes@.len() == hunks[i].old_lines
            && hunks[i].new_bytes@.len() == hunks[i].new_lines
    &&& forall|i: int, j: int|
        #![trigger hunks[i], hunks[j]]
        0 <= i < j < hunks.len() ==> hunk_position(hunks[i]) + hunks[i].old_lines < hunk_position(hunks[j])
            && hunk_new_position(hunks[i]) + hunks[i].new_lines < hunk_new_position(hunks[j])
}

/// Applying the hunks built for ranges is splicing the ranges.
proof fn lemma_apply_is_splice(
    lines: Seq<Seq<u8>>,
    hunks: Seq<Hunk>,
    ranges: Seq<(u32, u32, u32, u32)>,
    old: Seq<u8>,
    new: Seq<u8>,
)
    requires
        hunks.len() == ranges.len(),
        forall|i: int| #![trigger hunks[i]] 0 <= i < hunks.len() ==> hunk_for_range(hunks[i], old, new, ranges[i]),
        forall|i: int| #![trigger ranges[i]] 0 <= i < ranges.len() ==> ranges[i].0 <= ranges[i].1 < i32::MAX,
    ensures
        apply_hunks(lines, hunks) == splice(lines, ranges, lines_of(new)),
    decreases hunks.len(),
{
    if hunks.len() > 0 {
        let k = hunks.len() - 1;
        let h = hunks[k];
        let r = ranges[k];
        assert(hunk_for_range(h, old, new, r));
        assert(hunk_position(h) == r.0);
        let next = lines.take(r.0 as int) + lines_of(new).subrange(r.2 as int, r.3 as int) + lines.skip(r.1 as int);
        assert(lines.take(hunk_position(h)) + h.new_bytes@.map_values(|l: Vec<u8>| l@) + lines.skip(
            hunk_position(h) + h.old_lines,
        ) == next);
        let hs = hunks.drop_last();
        let rs = ranges.drop_last();
        assert forall|i: int| #![trigger hs[i]] 0 <= i < hs.len() implies hunk_for_range(hs[i], old, new, rs[i]) by {
            assert(hs[i] == hunks[i] && rs[i] == ranges[i]);
        }
        assert forall|i: int| #![trigger rs[i]] 0 <= i < rs.len() implies rs[i].0 <= rs[i].1 < i32::MAX by {
            assert(rs[i] == ranges[i]);
        }
        lemma_apply_is_splice(next, hs, rs, old, new);
    }
}

/// The text hunks between `old` and `new`, with the raw bytes of their lines. They come
/// in order, and replacing each hunk's old lines by its new lines turns the lines of
/// `old` into the lines of `new`.
pub fn diff_hunks(old: &[u8], new: &[u8]) -> (hunks: Vec<Hunk>)
    requires
        lines_of(old@).len() < i32::MAX,
        lines_of(new@).len() < i32::MAX,
    ensures
        hunks_of(hunks@, old@, new@),
        edge_shapes(hunks@, old@, new@),
        hunks_in_order(hunks@),
        apply_hunks(lines_of(old@), hunks@) == lines_of(new@),
{
    let ranges = histogram_hunks(old, new);
    let hunks = hunks_for_ranges(old, new, &ranges);
    proof {
        assert forall|i: int| #![trigger ranges@[i]] 0 <= i < ranges@.len() implies ranges@[i].0 <= ranges@[i].1
            < i32::MAX by {
        }
        lemma_apply_is_splice(lines_of(old@), hunks@, ranges@, old@, new@);
        assert forall|i: int| #![trigger hunks@[i]] 0 <= i < hunks@.len() implies hunks@[i].old_bytes@.len()
            == hunks@[i].old_lines && hunks@[i].new_bytes@.len() == hunks@[i].new_lines by {
            assert(hunk_for_range(hunks@[i], old@, new@, ranges@[i]));
            assert(hunks@[i].old_bytes@.map_values(|l: Vec<u8>| l@).len() == hunks@[i].old_bytes@.len());
            assert(hunks@[i].new_bytes@.map_values(|l: Vec<u8>| l@).len() == hunks@[i].new_bytes@.len());
        }
        assert forall|i: int, j: int| #![trigger hunks@[i], hunks@[j]] 0 <= i < j < hunks@.len() implies hunk_position(
            hunks@[i],
        ) + hunks@[i].old_lines < hunk_position(hunks@[j]) && hunk_new_position(hunks@[i]) + hunks@[i].new_lines
            < hunk_new_position(hunks@[j]) by {
            assert(hunk_for_range(hunks@[i], old@, new@, ranges@[i]));
            assert(hunk_for_range(hunks@[j], old@, new@, ranges@[j]));
            assert(ranges@[i].1 < ranges@[j].0 && ranges@[i].3 < ranges@[j].2);
        }
        if lines_of(old@).len() == 0 && lines_of(new@).len() > 0 {
            assert(hunk_for_range(hunks@[0], old@, new@, ranges@[0]));
            assert(lines_of(new@).subrange(0, lines_of(new@).len() as int) =~= lines_of(new@));
            assert(hunks@[0].old_bytes@.map_values(|l: Vec<u8>| l@).len() == 0);
        }
        if lines_of(new@).len() == 0 && lines_of(old@).len() > 0 {
            assert(hunk_for_range(hunks@[0], old@, new@, ranges@[0]));
            assert(lines_of(old@).subrange(0, lines_of(old@).len() as int) =~= lines_of(old@));
            assert(hunks@[0].new_bytes@.map_values(|l: Vec<u8>| l@).len() == 0);
        }
    }
    hunks
}

/// Whether `d` is the raw diff of `file` in `area` between contents `old` and `new`:
/// binary content has no hunks, text content has the histogram hunks.
pub open spec fn file_diff_of(d: FileDiff, file: Seq<char>, area: DiffArea, old: Seq<u8>, new: Seq<u8>) -> bool {
    &&& d.file@ == file
    &&& d.area == area
    &&& d.binary == (binary_content(old) || binary_content(new))
    &&& if d.binary {
        d.hunks@.len() == 0
    } else {
        hunks_of(d.hunks@, old, new)
    }
}

/// Whether contents are within the size the diff algorithm accepts, where it runs: binary
/// content is not diffed, and text content must have fewer than `i32::MAX` lines a side.
pub open spec fn diffable(old: Seq<u8>, new: Seq<u8>) -> bool {
    binary_content(old) || binary_content(new) || (lines_of(old).len() < i32::MAX && lines_of(
        new,
    ).len() < i32::MAX)
}

/// Tests whether two contents can be diffed.
pub fn is_diffable(old: &[u8], new: &[u8]) -> (b: bool)
    ensures
        b == diffable(old@, new@),
{
    if is_binary(old) || is_binary(new) {
        return true;
    }
    let old_lines = byte_lines(old);
    let new_lines = byte_lines(new);
    proof {
        assert(old_lines@.map_values(|l: Vec<u8>| l@).len() == old_lines@.len());
        assert(new_lines@.map_values(|l: Vec<u8>| l@).len() == new_lines@.len());
    }
    old_lines.len() < 0x7fff_ffff && new_lines.len() < 0x7fff_ffff
}

/// The raw diff of `file` in `area`, given the old and new contents the area compares.
/// Text content that is new, such as an untracked file, diffs as one hunk adding all of
/// its lines.
pub fn diff_from_contents(file: String, area: DiffArea, old: &[u8], new: &[u8]) -> (d: FileDiff)
    requires
        diffable(old@, new@),
    ensures
        file_diff_of(d, file@, area, old@, new@),
        !d.binary ==> edge_shapes(d.hunks@, old@, new@),
        !d.binary ==> hunks_in_order(d.hunks@) && apply_hunks(lines_of(old@), d.hunks@) == lines_of(new@),
{
    let binary = is_binary(old) || is_binary(new);
    let hunks = if binary {
        Vec::new()
    } else {
        diff_hunks(old, new)
    };
    FileDiff { file, area, binary, hunks }
}

/// Where the content of one side of a diff is read from.
#[derive(Debug, Clone, Copy, PartialEq, Eq, Structural)]
pub enum ContentSource {
    /// The blob recorded for the path in the `HEAD` tree.
    Head,
    /// The blob recorded for the path in the index.
    Index,
    /// The file at the path in the worktree.
    Worktree,
}

/// The old and new sides an area compares.
pub open spec fn area_sources(area: DiffArea) -> (ContentSource, ContentSource) {
    match area {
        DiffArea::Worktree => (ContentSource::Index, ContentSource::Worktree),
        DiffArea::Staged => (ContentSource::Head, ContentSource::Index),
        DiffArea::Head => (ContentSource::Head, ContentSource::Worktree),
    }
}

/// The old and new sides an area compares: the worktree against the index, the index
/// against `HEAD`, or the worktree against `HEAD`.
pub fn diff_sources(area: DiffArea) -> (r: (ContentSource, ContentSource))
    ensures
        r == area_sources(area),
{
    match area {
        DiffArea::Worktree => (ContentSource::Index, ContentSource::Worktree),
        DiffArea::Staged => (ContentSource::Head, ContentSource::Index),
        DiffArea::Head => (ContentSource::Head, ContentSource::Worktree),
    }
}

/// The content of a side: what was read, or nothing when the side has no such path.
pub open spec fn side_content(side: Option<Vec<u8>>) -> Seq<u8> {
    match side {
        Some(bytes) => bytes@,
        None => Seq::empty(),
    }
}

/// The raw diff of `file` in `area` from the sides that were read; a side without the
/// path counts as empty, so a text file that only one side has diffs as one hunk adding,
/// or removing, all of its lines.
pub fn diff_of_sides(file: String, area: DiffArea, old: Option<Vec<u8>>, new: Option<Vec<u8>>) -> (d: FileDiff)
    requires
        diffable(side_content(old), side_content(new)),
    ensures
        file_diff_of(d, file@, area, side_content(old), side_content(new)),
        !d.binary ==> edge_shapes(d.hunks@, side_content(old), side_content(new)),
        !d.binary ==> hunks_in_order(d.hunks@) && apply_hunks(lines_of(side_content(old)), d.hunks@) == lines_of(
            side_content(new),
        ),
{
    let old_bytes = match old {
        Some(bytes) => bytes,
        None => Vec::new(),
    };
    let new_bytes = match new {
        Some(bytes) => bytes,
        None => Vec::new(),
    };
    diff_from_contents(file, area, old_bytes.as_slice(), new_bytes.as_slice())
}

/// The number of new lines the ranges add.
pub open spec fn added_in(ranges: Seq<(u32, u32, u32, u32)>) -> nat
    decreases ranges.len(),
{
    if ranges.len() == 0 {
        0
    } else {
        added_in(ranges.drop_last()) + (ranges.last().3 - ranges.last().2) as nat
    }
}

/// The number of old lines the ranges remove.
pub open spec fn removed_in(ranges: Seq<(u32, u32, u32, u32)>) -> nat
    decreases ranges.len(),
{
    if ranges.len() == 0 {
        0
    } else {
        removed_in(ranges.drop_last()) + (ranges.last().1 - ranges.last().0) as nat
    }
}

/// Counts of a changed content: the new lines and the old lines of the histogram diff's
/// hunks, and whether either side is binary; binary content has no counts.
pub open spec fn hunk_counts(old: Seq<u8>, new: Seq<u8>) -> (nat, nat, bool) {
    if binary_content(old) || binary_content(new) {
        (0, 0, true)
    } else {
        let ranges = histogram_hunk_ranges(old, new);
        (added_in(ranges), removed_in(ranges), false)
    }
}

/// Splicing ranges that lie in order within the lines changes their number by the lines
/// the ranges add less the lines they remove.
proof fn lemma_splice_len(lines: Seq<Seq<u8>>, ranges: Seq<(u32, u32, u32, u32)>, new_lines: Seq<Seq<u8>>)
    requires
        forall|i: int|
            #![trigger ranges[i]]
            0 <= i < ranges.len() ==> ranges[i].0 <= ranges[i].1 <= lines.len() && ranges[i].2 <= ranges[i].3
                <= new_lines.len(),
        forall|i: int, j: int|
            #![trigger ranges[i], ranges[j]]
            0 <= i < j < ranges.len() ==> ranges[i].1 <= ranges[j].0,
    ensures
        splice(lines, ranges, new_lines).len() == lines.len() + added_in(ranges) - removed_in(ranges),
    decreases ranges.len(),
{
    if ranges.len() > 0 {
        let r = ranges.last();
        let next = lines.take(r.0 as int) + new_lines.subrange(r.2 as int, r.3 as int) + lines.skip(r.1 as int);
        let rest = ranges.drop_last();
        assert forall|i: int| #![trigger rest[i]] 0 <= i < rest.len() implies rest[i].0 <= rest[i].1 <= next.len()
            && rest[i].2 <= rest[i].3 <= new_lines.len() by {
            assert(rest[i] == ranges[i]);
            assert(ranges[i].1 <= ranges[ranges.len() - 1].0);
        }
        assert forall|i: int, j: int| #![trigger rest[i], rest[j]] 0 <= i < j < rest.len() implies rest[i].1
            <= rest[j].0 by {
            assert(rest[i] == ranges[i] && rest[j] == ranges[j]);
        }
        lemma_splice_len(next, rest, new_lines);
    }
}

/// Counts the new and old lines of the hunks between `old` and `new`; binary content has
/// no counts. Equal lines count nothing; new content counts all its lines as added, and
/// removed content all its lines as removed; and the lines added less the lines removed
/// are the change in the number of lines.
pub fn diff_counts(old: &[u8], new: &[u8]) -> (r: (usize, usize, bool))
    requires
        diffable(old@, new@),
    ensures
        r.0 == hunk_counts(old@, new@).0,
        r.1 == hunk_counts(old@, new@).1,
        r.2 == hunk_counts(old@, new@).2,
        !r.2 && lines_of(old@) == lines_of(new@) ==> r.0 == 0 && r.1 == 0,
        !r.2 && lines_of(old@).len() == 0 ==> r.0 == lines_of(new@).len() && r.1 == 0,
        !r.2 && lines_of(new@).len() == 0 ==> r.0 == 0 && r.1 == lines_of(old@).len(),
        !r.2 ==> r.0 - r.1 == lines_of(new@).len() - lines_of(old@).len(),
{
    if is_binary(old) || is_binary(new) {
        return (0, 0, true);
    }
    let ranges = histogram_hunks(old, new);
    let mut added: usize = 0;
    let mut removed: usize = 0;
    let mut i: usize = 0;
    while i < ranges.len()
        invariant
            i <= ranges.len(),
            ranges_well_formed(ranges@, old@, new@),
            lines_of(old@).len() < i32::MAX,
            lines_of(new@).len() < i32::MAX,
            added == added_in(ranges@.take(i as int)),
            removed == removed_in(ranges@.take(i as int)),
            i > 0 ==> added <= ranges@[i - 1].3 && removed <= ranges@[i - 1].1,
        decreases ranges.len() - i,
    {
        let r = ranges[i];
        assert(r == ranges@[i as int]);
        if i > 0 {
            assert(ranges@[i - 1].3 < ranges@[i as int].2 && ranges@[i - 1].1 < ranges@[i as int].0);
        }
        assert(ranges@.take(i + 1).drop_last() =~= ranges@.take(i as int));
        added = added + (r.3 - r.2) as usize;
        removed = removed + (r.1 - r.0) as usize;
        i = i + 1;
    }
    assert(ranges@.take(i as int) =~= ranges@);
    proof {
        lemma_splice_len(lines_of(old@), ranges@, lines_of(new@));
        if lines_of(old@).len() == 0 && lines_of(new@).len() > 0 {
            assert(ranges@.drop_last() =~= Seq::<(u32, u32, u32, u32)>::empty());
        }
        if lines_of(new@).len() == 0 && lines_of(old@).len() > 0 {
            assert(ranges@.drop_last() =~= Seq::<(u32, u32, u32, u32)>::empty());
        }
    }
    (added, removed, false)
}

/// The outcome of the last piece of outside work of a diff request.
#[derive(Debug, Clone, PartialEq, Eq)]
pub enum DiffEvent {
    /// The request begins.
    Start,
    /// A side could not be read; `error` is the error's text.
    ReadFailed { error: String },
    /// Both sides were read; a side without the path is `None`.
    SidesRead { old: Option<Vec<u8>>, new: Option<Vec<u8>> },
}

/// The next piece of work of a diff request.
#[derive(Debug, Clone, PartialEq, Eq)]
pub enum DiffAction {
    /// Read `file` from the two sources.
    ReadSides { file: String, old: ContentSource, new: ContentSource },
    /// The request failed with `message`.
    Failed { message: String },
    /// The request produced `diff`.
    Done { diff: FileDiff },
}

/// Whether `a` is the action that follows `event` in a request for the diff of `path`
/// in `area`: the path is normalized first, and its normalized form is read from the
/// area's sources and diffed.
pub open spec fn diff_next(path: Seq<char>, area: DiffArea, event: DiffEvent, a: DiffAction) -> bool {
    match event {
        DiffEvent::ReadFailed { error } => a == DiffAction::Failed { message: error },
        _ => match normalized_diff_path(path) {
            Err(m) => a matches DiffAction::Failed { message } && message@ == m,
            Ok(q) => match event {
                DiffEvent::SidesRead { old, new } => a matches DiffAction::Done { diff } && {
                    &&& file_diff_of(diff, q, area, side_content(old), side_content(new))
                    &&& !diff.binary ==> edge_shapes(diff.hunks@, side_content(old), side_content(new))
                    &&& !diff.binary ==> hunks_in_order(diff.hunks@) && apply_hunks(
                        lines_of(side_content(old)),
                        diff.hunks@,
                    ) == lines_of(side_content(new))
                },
                _ => a matches DiffAction::ReadSides { file, old, new } && file@ == q && (old, new)
                    == area_sources(area),
            },
        },
    }
}

/// Decides the next piece of work of a request for the diff of `path` in `area`.
pub fn diff_step(path: &str, area: DiffArea, event: DiffEvent) -> (a: DiffAction)
    requires
        event matches DiffEvent::SidesRead { old, new } ==> diffable(side_content(old), side_content(new)),
    ensures
        diff_next(path@, area, event, a),
{
    match event {
        DiffEvent::ReadFailed { error } => DiffAction::Failed { message: error },
        DiffEvent::Start => match repo_relative_path(path) {
            Err(e) => DiffAction::Failed { message: e.message },
            Ok(file) => {
                let (old, new) = diff_sources(area);
                DiffAction::ReadSides { file, old, new }
            },
        },
        DiffEvent::SidesRead { old, new } => match repo_relative_path(path) {
            Err(e) => DiffAction::Failed { message: e.message },
            Ok(file) => DiffAction::Done { diff: diff_of_sides(file, area, old, new) },
        },
    }
}

} // verus!
