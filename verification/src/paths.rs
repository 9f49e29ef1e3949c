//! Repository-relative paths: `/`-separated strings, their components, display forms
//! and their order.
//!
//! A path's segments are the pieces between `/` separators; its components are the
//! non-empty segments other than `.`.

use vstd::prelude::*;
use crate::model::DiffError;
use crate::text::push_char;
use crate::text::push_str;
use crate::text::chars_of;
use crate::text::utf8_lossy;
use crate::text::lossy_utf8;

verus! {

/// Number of characters before the first `/` of `p` (all of them when there is none).
pub open spec fn seg_len(p: Seq<char>) -> nat
    decreases p.len(),
{
    if p.len() == 0 || p[0] == '/' {
        0
    } else {
        1 + seg_len(p.drop_first())
    }
}

/// The pieces of `p` between `/` separators, empty pieces included.
pub open spec fn segments(p: Seq<char>) -> Seq<Seq<char>>
    decreases p.len(),
{
    let k = seg_len(p);
    if k >= p.len() {
        seq![p]
    } else {
        seq![p.take(k as int)] + segments(p.skip(k + 1 as int))
    }
}

/// Whether a segment names a component: neither empty nor `.`.
pub open spec fn is_component(seg: Seq<char>) -> bool {
    seg.len() > 0 && seg != "."@
}

/// The segments of `segs` that are components, in order.
pub open spec fn keep_components(segs: Seq<Seq<char>>) -> Seq<Seq<char>>
    decreases segs.len(),
{
    if segs.len() == 0 {
        Seq::empty()
    } else if is_component(segs.last()) {
        keep_components(segs.drop_last()).push(segs.last())
    } else {
        keep_components(segs.drop_last())
    }
}

/// The components of `p`.
pub open spec fn components(p: Seq<char>) -> Seq<Seq<char>> {
    keep_components(segments(p))
}

/// `parts` joined with `/`.
pub open spec fn join_slash(parts: Seq<Seq<char>>) -> Seq<char>
    decreases parts.len(),
{
    if parts.len() == 0 {
        Seq::empty()
    } else if parts.len() == 1 {
        parts[0]
    } else {
        join_slash(parts.drop_last()) + "/"@ + parts.last()
    }
}

/// Whether some segment of `p` is `..`.
pub open spec fn has_parent_segment(p: Seq<char>) -> bool {
    exists|i: int| 0 <= i < segments(p).len() && segments(p)[i] == ".."@
}

/// The outcome of normalizing a requested diff path: `Ok` with the joined components,
/// or `Err` with the error message.
pub open spec fn normalized_diff_path(p: Seq<char>) -> Result<Seq<char>, Seq<char>> {
    if p.len() == 0 {
        Err("diff path must not be empty"@)
    } else if p[0] == '/' || has_parent_segment(p) {
        Err("diff path must be repository-relative: "@ + p)
    } else if components(p).len() == 0 {
        Err("diff path must not be empty"@)
    } else {
        Ok(join_slash(components(p)))
    }
}

/// The component a path keeps apart before its other components: `/` for a path from
/// the root, `.` for a path whose first segment is `.`, and none otherwise.
pub open spec fn lead_of(p: Seq<char>) -> Seq<Seq<char>> {
    if p.len() > 0 && p[0] == '/' {
        seq!["/"@]
    } else if segments(p)[0] == "."@ {
        seq!["."@]
    } else {
        Seq::empty()
    }
}

/// The components a path is displayed with: its leading `/` or `.`, if any, then its
/// components.
pub open spec fn display_components(p: Seq<char>) -> Seq<Seq<char>> {
    lead_of(p) + components(p)
}

/// Whether a displayed component names a file: it is neither `/`, `.` nor `..`.
pub open spec fn is_name(c: Seq<char>) -> bool {
    c != "/"@ && c != "."@ && c != ".."@
}

/// The display form of a path: its displayed components joined with `/`, or `.` for an
/// empty path.
pub open spec fn slash_form(p: Seq<char>) -> Seq<char> {
    if p.len() == 0 {
        "."@
    } else {
        join_slash(display_components(p))
    }
}

/// The file name shown for a path: its last displayed component when that names a
/// file, and the display form of the whole path otherwise.
pub open spec fn file_name_of(p: Seq<char>) -> Seq<char> {
    let c = display_components(p);
    if c.len() > 0 && is_name(c.last()) {
        c.last()
    } else {
        slash_form(p)
    }
}

/// The directory shown for a path: the displayed components before the last, joined
/// with `/`, or `.` when there are none.
pub open spec fn directory_of(p: Seq<char>) -> Seq<char> {
    let c = display_components(p);
    if c.len() >= 2 {
        join_slash(c.drop_last())
    } else {
        "."@
    }
}

/// With no `/` before position `k` and a `/` at `k`, the first segment has length `k`.
proof fn lemma_seg_len_at_slash(p: Seq<char>, k: int)
    requires
        0 <= k < p.len(),
        p[k] == '/',
        forall|j: int| 0 <= j < k ==> p[j] != '/',
    ensures
        seg_len(p) == k,
    decreases k,
{
    if k > 0 {
        let rest = p.drop_first();
        assert forall|j: int| 0 <= j < k - 1 implies rest[j] != '/' by {
            assert(rest[j] == p[j + 1]);
        }
        lemma_seg_len_at_slash(rest, k - 1);
    }
}

/// With no `/` at all, the first segment is the whole path.
proof fn lemma_seg_len_no_slash(p: Seq<char>)
    requires
        forall|j: int| 0 <= j < p.len() ==> p[j] != '/',
    ensures
        seg_len(p) == p.len(),
    decreases p.len(),
{
    if p.len() > 0 {
        let rest = p.drop_first();
        assert forall|j: int| 0 <= j < rest.len() implies rest[j] != '/' by {
            assert(rest[j] == p[j + 1]);
        }
        lemma_seg_len_no_slash(rest);
    }
}

/// Before the first segment ends there is no `/`, and where it ends before the path
/// does there is one.
proof fn lemma_seg_len_shape(p: Seq<char>)
    ensures
        seg_len(p) <= p.len(),
        forall|j: int| 0 <= j < seg_len(p) ==> p[j] != '/',
        seg_len(p) < p.len() ==> p[seg_len(p) as int] == '/',
    decreases p.len(),
{
    if p.len() > 0 && p[0] != '/' {
        let rest = p.drop_first();
        lemma_seg_len_shape(rest);
        assert forall|j: int| 0 <= j < seg_len(p) implies p[j] != '/' by {
            if j > 0 {
                assert(p[j] == rest[j - 1]);
            }
        }
    }
}

/// No segment holds a `/`.
proof fn lemma_segments_no_slash(p: Seq<char>)
    ensures
        forall|i: int, j: int|
            0 <= i < segments(p).len() && 0 <= j < segments(p)[i].len() ==> #[trigger] segments(p)[i][j] != '/',
    decreases p.len(),
{
    lemma_seg_len_shape(p);
    let k = seg_len(p);
    if k < p.len() {
        let rest = p.skip(k + 1 as int);
        lemma_segments_no_slash(rest);
        let s = segments(p);
        assert(s == seq![p.take(k as int)] + segments(rest));
        assert forall|i: int, j: int| 0 <= i < s.len() && 0 <= j < s[i].len() implies #[trigger] s[i][j] != '/' by {
            if i > 0 {
                assert(s[i] == segments(rest)[i - 1]);
            }
        }
    }
}

/// Splitting at one more `/` splits the two sides apart.
proof fn lemma_segments_concat(a: Seq<char>, b: Seq<char>)
    ensures
        segments(a + "/"@ + b) == segments(a) + segments(b),
    decreases a.len(),
{
    reveal_strlit("/");
    let w = a + "/"@ + b;
    lemma_seg_len_shape(a);
    let k = seg_len(a);
    if k >= a.len() {
        assert forall|j: int| 0 <= j < a.len() implies w[j] != '/' by {
            assert(w[j] == a[j]);
        }
        lemma_seg_len_at_slash(w, a.len() as int);
        assert(w.take(a.len() as int) =~= a);
        assert(w.skip(a.len() + 1 as int) =~= b);
        assert(segments(a) == seq![a]);
    } else {
        assert forall|j: int| 0 <= j < k implies w[j] != '/' by {
            assert(w[j] == a[j]);
        }
        lemma_seg_len_at_slash(w, k as int);
        let ra = a.skip(k + 1 as int);
        lemma_segments_concat(ra, b);
        assert(w.take(k as int) =~= a.take(k as int));
        assert(w.skip(k + 1 as int) =~= ra + "/"@ + b);
        assert(segments(w) =~= seq![a.take(k as int)] + (segments(ra) + segments(b)));
        assert(segments(a) == seq![a.take(k as int)] + segments(ra));
    }
}

/// Joining parts without `/` and splitting them again gives the parts back.
proof fn lemma_segments_join(parts: Seq<Seq<char>>)
    requires
        parts.len() >= 1,
        forall|i: int, j: int| 0 <= i < parts.len() && 0 <= j < parts[i].len() ==> #[trigger] parts[i][j] != '/',
    ensures
        segments(join_slash(parts)) == parts,
    decreases parts.len(),
{
    if parts.len() == 1 {
        assert forall|j: int| 0 <= j < parts[0].len() implies parts[0][j] != '/' by {
            assert(parts[0][j] != '/');
        }
        lemma_seg_len_no_slash(parts[0]);
        assert(segments(parts[0]) == seq![parts[0]]);
        assert(parts =~= seq![parts[0]]);
    } else {
        let init = parts.drop_last();
        assert forall|i: int, j: int| 0 <= i < init.len() && 0 <= j < init[i].len() implies #[trigger] init[i][j]
            != '/' by {
            assert(init[i] == parts[i]);
        }
        lemma_segments_join(init);
        let last = parts.last();
        assert forall|j: int| 0 <= j < last.len() implies last[j] != '/' by {
            assert(parts[parts.len() - 1][j] != '/');
        }
        lemma_seg_len_no_slash(last);
        lemma_segments_concat(join_slash(init), last);
        assert(segments(last) == seq![last]);
        assert(parts =~= init + seq![last]);
    }
}

/// Components are kept when every part is one.
proof fn lemma_keep_all(parts: Seq<Seq<char>>)
    requires
        forall|i: int| 0 <= i < parts.len() ==> is_component(#[trigger] parts[i]),
    ensures
        keep_components(parts) == parts,
    decreases parts.len(),
{
    if parts.len() > 0 {
        let init = parts.drop_last();
        assert forall|i: int| 0 <= i < init.len() implies is_component(#[trigger] init[i]) by {
            assert(init[i] == parts[i]);
        }
        lemma_keep_all(init);
        assert(is_component(parts[parts.len() - 1]));
        assert(init.push(parts.last()) =~= parts);
    }
}

/// The kept components are components, each one of the segments.
proof fn lemma_keep_from(segs: Seq<Seq<char>>)
    ensures
        forall|i: int|
            0 <= i < keep_components(segs).len() ==> is_component(#[trigger] keep_components(segs)[i])
                && exists|j: int| 0 <= j < segs.len() && segs[j] == keep_components(segs)[i],
    decreases segs.len(),
{
    if segs.len() > 0 {
        let init = segs.drop_last();
        lemma_keep_from(init);
        let k = keep_components(segs);
        let ki = keep_components(init);
        assert forall|i: int| 0 <= i < k.len() implies is_component(#[trigger] k[i]) && exists|j: int|
            0 <= j < segs.len() && segs[j] == k[i] by {
            if i < ki.len() {
                assert(k[i] == ki[i]);
                let j = choose|j: int| 0 <= j < init.len() && init[j] == ki[i];
                assert(segs[j] == init[j]);
            } else {
                assert(k[i] == segs[segs.len() - 1]);
            }
        }
    }
}

/// A join begins with the first character of its first part.
proof fn lemma_join_first(parts: Seq<Seq<char>>)
    requires
        parts.len() >= 1,
        parts[0].len() > 0,
    ensures
        join_slash(parts).len() > 0,
        join_slash(parts)[0] == parts[0][0],
    decreases parts.len(),
{
    if parts.len() > 1 {
        lemma_join_first(parts.drop_last());
    }
}

/// Joining a part before others puts it first, then a `/`.
proof fn lemma_join_prepend(x: Seq<char>, parts: Seq<Seq<char>>)
    requires
        parts.len() >= 1,
    ensures
        join_slash(seq![x] + parts) == x + "/"@ + join_slash(parts),
    decreases parts.len(),
{
    let all = seq![x] + parts;
    if parts.len() == 1 {
        assert(all.drop_last() =~= seq![x]);
        assert(all.last() == parts[0]);
        assert(join_slash(seq![x]) == x);
        assert(join_slash(parts) == parts[0]);
        assert(join_slash(all) == join_slash(all.drop_last()) + "/"@ + all.last());
    } else {
        lemma_join_prepend(x, parts.drop_last());
        assert(all.drop_last() =~= seq![x] + parts.drop_last());
        assert(all.last() == parts.last());
        assert(join_slash(all) == join_slash(all.drop_last()) + "/"@ + all.last());
        assert(join_slash(parts) == join_slash(parts.drop_last()) + "/"@ + parts.last());
        assert(join_slash(all) =~= x + "/"@ + join_slash(parts));
    }
}

/// The components kept from two runs of segments are those kept from each in turn.
proof fn lemma_keep_concat(a: Seq<Seq<char>>, b: Seq<Seq<char>>)
    ensures
        keep_components(a + b) == keep_components(a) + keep_components(b),
    decreases b.len(),
{
    if b.len() == 0 {
        assert(a + b =~= a);
        assert(keep_components(a) + keep_components(b) =~= keep_components(a));
    } else {
        lemma_keep_concat(a, b.drop_last());
        assert((a + b).drop_last() =~= a + b.drop_last());
        assert((a + b).last() == b.last());
        if is_component(b.last()) {
            assert(keep_components(a) + keep_components(b) =~= (keep_components(a) + keep_components(b.drop_last())).push(
                b.last(),
            ));
        }
    }
}

/// The components of a path have no `/` and are components.
proof fn lemma_components_shape(p: Seq<char>)
    ensures
        forall|i: int| 0 <= i < components(p).len() ==> is_component(#[trigger] components(p)[i]),
        forall|i: int, j: int| 0 <= i < components(p).len() && 0 <= j < components(p)[i].len() ==> #[trigger] components(p)[i][j]
            != '/',
{
    let c = components(p);
    lemma_keep_from(segments(p));
    lemma_segments_no_slash(p);
    assert forall|i: int, j: int| 0 <= i < c.len() && 0 <= j < c[i].len() implies #[trigger] c[i][j] != '/' by {
        let k = choose|k: int| 0 <= k < segments(p).len() && segments(p)[k] == c[i];
        assert(segments(p)[k][j] != '/');
    }
}

/// Joining a path's components and splitting the result again gives them back.
proof fn lemma_join_components(p: Seq<char>)
    ensures
        components(join_slash(components(p))) == components(p),
        components(p).len() > 0 ==> segments(join_slash(components(p))) == components(p),
{
    let c = components(p);
    lemma_components_shape(p);
    if c.len() > 0 {
        lemma_segments_join(c);
        lemma_keep_all(c);
    } else {
        assert(join_slash(c) =~= Seq::<char>::empty());
        lemma_seg_len_no_slash(Seq::<char>::empty());
        assert(segments(Seq::<char>::empty()) =~= seq![Seq::<char>::empty()]);
        reveal_with_fuel(keep_components, 2);
        assert(seq![Seq::<char>::empty()].drop_last() =~= Seq::<Seq<char>>::empty());
    }
}

/// The display form of a path has the path's components: they can be read back from it.
pub proof fn lemma_slash_form_components(p: Seq<char>)
    ensures
        components(slash_form(p)) == components(p),
{
    reveal_strlit("/");
    reveal_strlit(".");
    let c = components(p);
    let lead = lead_of(p);
    lemma_join_components(p);
    lemma_components_shape(p);
    if p.len() == 0 {
        assert(segments(p) =~= seq![p]) by {
            lemma_seg_len_no_slash(p);
        }
        reveal_with_fuel(keep_components, 2);
        assert(seq![p].drop_last() =~= Seq::<Seq<char>>::empty());
        assert(c =~= Seq::<Seq<char>>::empty());
        // "." has no components
        lemma_seg_len_no_slash("."@);
        assert(segments("."@) =~= seq!["."@]);
        assert(seq!["."@].drop_last() =~= Seq::<Seq<char>>::empty());
        assert(!is_component("."@));
    } else if lead.len() == 0 {
        assert(display_components(p) =~= c);
    } else {
        let x = lead[0];
        assert(display_components(p) =~= seq![x] + c);
        // the lead is "/" or ".": its segments hold no component
        let xs: Seq<Seq<char>> = if x == "/"@ { seq![Seq::<char>::empty(), Seq::<char>::empty()] } else { seq![x] };
        assert(segments(x) == xs) by {
            if x == "/"@ {
                assert(x[0] == '/');
                lemma_seg_len_at_slash(x, 0);
                assert(x.take(0) =~= Seq::<char>::empty());
                assert(x.skip(1) =~= Seq::<char>::empty());
                lemma_seg_len_no_slash(Seq::<char>::empty());
                assert(segments(Seq::<char>::empty()) =~= seq![Seq::<char>::empty()]);
                assert(segments(x) =~= xs);
            } else {
                assert(x == "."@);
                lemma_seg_len_no_slash(x);
                assert(segments(x) =~= xs);
            }
        }
        assert(keep_components(xs) == Seq::<Seq<char>>::empty()) by {
            reveal_with_fuel(keep_components, 3);
            if x == "/"@ {
                assert(xs.drop_last() =~= seq![Seq::<char>::empty()]);
                assert(xs.drop_last().drop_last() =~= Seq::<Seq<char>>::empty());
            } else {
                assert(xs.drop_last() =~= Seq::<Seq<char>>::empty());
            }
        }
        if c.len() == 0 {
            assert(seq![x] + c =~= seq![x]);
            assert(join_slash(seq![x]) == x);
        } else {
            lemma_join_prepend(x, c);
            lemma_segments_concat(x, join_slash(c));
            lemma_keep_concat(xs, c);
            assert(keep_components(c) == c) by {
                lemma_keep_all(c);
            }
            assert(Seq::<Seq<char>>::empty() + c =~= c);
        }
    }
}

/// A normalized diff path has the components of the requested path, and normalizes to
/// itself.
pub proof fn law_repo_relative_path_idempotent(p: Seq<char>, q: Seq<char>)
    requires
        normalized_diff_path(p) == Ok::<Seq<char>, Seq<char>>(q),
    ensures
        components(q) == components(p),
        normalized_diff_path(q) == Ok::<Seq<char>, Seq<char>>(q),
{
    reveal_strlit("..");
    reveal_strlit(".");
    let c = components(p);
    lemma_keep_from(segments(p));
    lemma_segments_no_slash(p);
    assert forall|i: int, j: int| 0 <= i < c.len() && 0 <= j < c[i].len() implies #[trigger] c[i][j] != '/' by {
        let k = choose|k: int| 0 <= k < segments(p).len() && segments(p)[k] == c[i];
        assert(segments(p)[k][j] != '/');
    }
    lemma_segments_join(c);
    assert(is_component(c[0]));
    lemma_join_first(c);
    assert(q == join_slash(c));
    assert(!has_parent_segment(q)) by {
        if has_parent_segment(q) {
            let i = choose|i: int| 0 <= i < segments(q).len() && segments(q)[i] == ".."@;
            let k = choose|k: int| 0 <= k < segments(p).len() && segments(p)[k] == c[i];
            assert(segments(p)[k] == ".."@);
        }
    }
    lemma_keep_all(c);
}

/// Splits `p` into its segments.
pub fn split_segments(p: &Vec<char>) -> (segs: Vec<Vec<char>>)
    ensures
        segs@.map_values(|s: Vec<char>| s@) == segments(p@),
        segs.len() >= 1,
{
    let mut segs: Vec<Vec<char>> = Vec::new();
    let mut cur: Vec<char> = Vec::new();
    let mut start: usize = 0;
    let mut i: usize = 0;
    assert(p@.skip(0) =~= p@);
    assert(segs@.map_values(|s: Vec<char>| s@) =~= Seq::<Seq<char>>::empty());
    while i < p.len()
        invariant
            start <= i <= p.len(),
            forall|j: int| start <= j < i ==> p@[j] != '/',
            cur@ == p@.subrange(start as int, i as int),
            segs@.map_values(|s: Vec<char>| s@) + segments(p@.skip(start as int)) == segments(p@),
        decreases p.len() - i,
    {
        if p[i] == '/' {
            let ghost rest = p@.skip(start as int);
            let ghost before = segs@.map_values(|s: Vec<char>| s@);
            proof {
                assert forall|j: int| 0 <= j < i - start implies rest[j] != '/' by {
                    assert(rest[j] == p@[start + j]);
                }
                lemma_seg_len_at_slash(rest, i - start);
                assert(rest.take((i - start) as int) =~= p@.subrange(start as int, i as int));
                assert(rest.skip((i - start) + 1) =~= p@.skip(i + 1));
            }
            segs.push(cur);
            cur = Vec::new();
            start = i + 1;
            proof {
                assert(segs@.map_values(|s: Vec<char>| s@) =~= before + seq![rest.take(seg_len(rest) as int)]);
                assert(segments(rest) =~= seq![rest.take(seg_len(rest) as int)] + segments(p@.skip(start as int)));
                assert(cur@ =~= p@.subrange(start as int, (i + 1) as int));
            }
        } else {
            cur.push(p[i]);
            assert(cur@ =~= p@.subrange(start as int, (i + 1) as int));
        }
        i = i + 1;
    }
    let ghost rest = p@.skip(start as int);
    let ghost before = segs@.map_values(|s: Vec<char>| s@);
    proof {
        assert forall|j: int| 0 <= j < rest.len() implies rest[j] != '/' by {
            assert(rest[j] == p@[start + j]);
        }
        lemma_seg_len_no_slash(rest);
        assert(rest =~= cur@);
        assert(segments(rest) =~= seq![rest]);
    }
    segs.push(cur);
    assert(segs@.map_values(|s: Vec<char>| s@) =~= before + seq![rest]);
    segs
}

/// Whether a segment is a component: neither empty nor `.`.
fn segment_is_component(seg: &Vec<char>) -> (b: bool)
    ensures
        b == is_component(seg@),
{
    if seg.len() == 0 {
        return false;
    }
    if seg.len() == 1 && seg[0] == '.' {
        proof {
            reveal_strlit(".");
            assert(seg@ =~= "."@);
        }
        return false;
    }
    proof {
        reveal_strlit(".");
    }
    true
}

/// Whether a segment is `..`.
fn segment_is_parent(seg: &Vec<char>) -> (b: bool)
    ensures
        b == (seg@ == ".."@),
{
    proof {
        reveal_strlit("..");
    }
    if seg.len() == 2 && seg[0] == '.' && seg[1] == '.' {
        assert(seg@ =~= ".."@);
        true
    } else {
        false
    }
}

/// The components of `p`.
pub fn path_components(p: &str) -> (comps: Vec<Vec<char>>)
    ensures
        comps@.map_values(|s: Vec<char>| s@) == components(p@),
{
    let chars = chars_of(p);
    let segs = split_segments(&chars);
    let ghost sv = segs@.map_values(|s: Vec<char>| s@);
    let mut comps: Vec<Vec<char>> = Vec::new();
    let mut i: usize = 0;
    assert(sv.take(0) =~= Seq::<Seq<char>>::empty());
    assert(comps@.map_values(|s: Vec<char>| s@) =~= keep_components(sv.take(0)));
    while i < segs.len()
        invariant
            sv == segs@.map_values(|s: Vec<char>| s@),
            i <= segs.len(),
            comps@.map_values(|s: Vec<char>| s@) == keep_components(sv.take(i as int)),
        decreases segs.len() - i,
    {
        let ghost before = comps@.map_values(|s: Vec<char>| s@);
        assert(sv.take(i + 1).drop_last() =~= sv.take(i as int));
        if segment_is_component(&segs[i]) {
            comps.push(copy_chars(&segs[i]));
            assert(comps@.map_values(|s: Vec<char>| s@) =~= before.push(sv[i as int]));
        }
        i = i + 1;
    }
    assert(sv.take(i as int) =~= sv);
    comps
}

/// A copy of a character vector.
pub fn copy_chars(v: &Vec<char>) -> (r: Vec<char>)
    ensures
        r@ == v@,
{
    let mut r: Vec<char> = Vec::new();
    let mut i: usize = 0;
    while i < v.len()
        invariant
            i <= v.len(),
            r@ == v@.take(i as int),
        decreases v.len() - i,
    {
        r.push(v[i]);
        i = i + 1;
        assert(r@ =~= v@.take(i as int));
    }
    assert(v@.take(i as int) =~= v@);
    r
}

/// `parts` joined with `/`.
pub fn join_with_slash(parts: &Vec<Vec<char>>) -> (s: String)
    ensures
        s@ == join_slash(parts@.map_values(|c: Vec<char>| c@)),
{
    let ghost pv = parts@.map_values(|c: Vec<char>| c@);
    let mut s = String::new();
    let mut i: usize = 0;
    assert(pv.take(0) =~= Seq::<Seq<char>>::empty());
    while i < parts.len()
        invariant
            pv == parts@.map_values(|c: Vec<char>| c@),
            i <= parts.len(),
            s@ == join_slash(pv.take(i as int)),
        decreases parts.len() - i,
    {
        if i > 0 {
            push_char(&mut s, '/');
        }
        let part = &parts[i];
        let mut j: usize = 0;
        let ghost base = s@;
        while j < part.len()
            invariant
                j <= part.len(),
                s@ == base + part@.take(j as int),
            decreases part.len() - j,
        {
            push_char(&mut s, part[j]);
            j = j + 1;
            assert(s@ =~= base + part@.take(j as int));
        }
        proof {
            assert(part@.take(j as int) =~= part@);
            assert(pv.take(i + 1).drop_last() =~= pv.take(i as int));
            reveal_strlit("/");
            if i == 0 {
                assert(pv.take(1) =~= seq![pv[0]]);
                assert(s@ =~= join_slash(pv.take(1)));
            } else {
                assert(s@ =~= join_slash(pv.take(i as int)) + "/"@ + pv[i as int]);
            }
        }
        i = i + 1;
    }
    assert(pv.take(i as int) =~= pv);
    s
}

/// Normalizes a requested diff path to its components joined with `/`. The path must be
/// non-empty, must not start at the root and must not step to a parent with `..`.
pub fn repo_relative_path(path: &str) -> (r: Result<String, DiffError>)
    ensures
        match normalized_diff_path(path@) {
            Ok(p) => r matches Ok(s) && s@ == p,
            Err(m) => r matches Err(e) && e.message@ == m && e.source is None,
        },
{
    let chars = chars_of(path);
    if chars.len() == 0 {
        return Err(DiffError::simple(String::from_str("diff path must not be empty")));
    }
    let segs = split_segments(&chars);
    let ghost sv = segs@.map_values(|s: Vec<char>| s@);
    let mut parent = false;
    let mut i: usize = 0;
    while i < segs.len()
        invariant
            sv == segs@.map_values(|s: Vec<char>| s@),
            i <= segs.len(),
            parent == (exists|k: int| 0 <= k < i && sv[k] == ".."@),
        decreases segs.len() - i,
    {
        let is_parent = segment_is_parent(&segs[i]);
        assert(sv[i as int] == segs@[i as int]@);
        if is_parent {
            parent = true;
        }
        assert(parent == (exists|k: int| 0 <= k < i + 1 && sv[k] == ".."@)) by {
            if !is_parent && !parent {
                assert forall|k: int| 0 <= k < i + 1 implies sv[k] != ".."@ by {
                    if k < i {
                    }
                }
            }
        }
        i = i + 1;
    }
    if chars[0] == '/' || parent {
        let mut message = String::from_str("diff path must be repository-relative: ");
        push_str(&mut message, path);
        return Err(DiffError::simple(message));
    }
    let comps = path_components(path);
    if comps.len() == 0 {
        return Err(DiffError::simple(String::from_str("diff path must not be empty")));
    }
    Ok(join_with_slash(&comps))
}

/// Whether a component names a file: it is neither `/`, `.` nor `..`.
fn component_is_name(c: &Vec<char>) -> (b: bool)
    ensures
        b == is_name(c@),
{
    proof {
        reveal_strlit("/");
        reveal_strlit(".");
        reveal_strlit("..");
    }
    if c.len() == 1 && (c[0] == '/' || c[0] == '.') {
        assert(c@ =~= "/"@ || c@ =~= "."@);
        return false;
    }
    if c.len() == 2 && c[0] == '.' && c[1] == '.' {
        assert(c@ =~= ".."@);
        return false;
    }
    assert(c@ != "/"@ && c@ != "."@ && c@ != ".."@) by {
        if c@ == "/"@ || c@ == "."@ {
            assert(c@.len() == 1);
        }
        if c@ == ".."@ {
            assert(c@.len() == 2);
        }
    }
    true
}

/// The components `path` is displayed with.
pub fn display_path_components(path: &str) -> (comps: Vec<Vec<char>>)
    ensures
        comps@.map_values(|s: Vec<char>| s@) == display_components(path@),
{
    let chars = chars_of(path);
    let segs = split_segments(&chars);
    let rest = path_components(path);
    let ghost rv = rest@.map_values(|s: Vec<char>| s@);
    let mut comps: Vec<Vec<char>> = Vec::new();
    proof {
        reveal_strlit("/");
        reveal_strlit(".");
        assert(segs@.map_values(|s: Vec<char>| s@)[0] == segs@[0]@);
    }
    if chars.len() > 0 && chars[0] == '/' {
        let mut root: Vec<char> = Vec::new();
        root.push('/');
        assert(root@ =~= "/"@);
        comps.push(root);
        assert(comps@.map_values(|s: Vec<char>| s@) =~= seq!["/"@]);
    } else if segs[0].len() == 1 && segs[0][0] == '.' {
        let mut here: Vec<char> = Vec::new();
        here.push('.');
        assert(here@ =~= "."@);
        comps.push(here);
        assert(segs@[0]@ =~= "."@);
        assert(comps@.map_values(|s: Vec<char>| s@) =~= seq!["."@]);
    } else {
        assert(segs@[0]@ != "."@) by {
            if segs@[0]@ == "."@ {
                assert(segs@[0]@.len() == 1);
            }
        }
        assert(comps@.map_values(|s: Vec<char>| s@) =~= Seq::<Seq<char>>::empty());
    }
    let ghost lead = comps@.map_values(|s: Vec<char>| s@);
    assert(lead == lead_of(path@));
    let mut i: usize = 0;
    while i < rest.len()
        invariant
            i <= rest.len(),
            rv == rest@.map_values(|s: Vec<char>| s@),
            rv == components(path@),
            comps@.map_values(|s: Vec<char>| s@) == lead + rv.take(i as int),
        decreases rest.len() - i,
    {
        let ghost before = comps@.map_values(|s: Vec<char>| s@);
        comps.push(copy_chars(&rest[i]));
        assert(rv.take(i + 1) =~= rv.take(i as int).push(rv[i as int]));
        assert(comps@.map_values(|s: Vec<char>| s@) =~= before.push(rv[i as int]));
        i = i + 1;
    }
    assert(rv.take(i as int) =~= rv);
    comps
}

/// The display form of a path: its displayed components joined with `/`, or `.` for an
/// empty path.
pub fn slash_path(path: &str) -> (s: String)
    ensures
        s@ == slash_form(path@),
{
    let comps = display_path_components(path);
    if path.unicode_len() == 0 {
        String::from_str(".")
    } else {
        join_with_slash(&comps)
    }
}

/// The file name shown for a path.
pub fn file_name(path: &str) -> (s: String)
    ensures
        s@ == file_name_of(path@),
{
    let comps = display_path_components(path);
    if comps.len() > 0 && component_is_name(&comps[comps.len() - 1]) {
        let last = copy_chars(&comps[comps.len() - 1]);
        let mut s = String::new();
        crate::text::push_chars(&mut s, &last);
        s
    } else {
        slash_path(path)
    }
}

/// The directory shown for a path.
pub fn directory_name(path: &str) -> (s: String)
    ensures
        s@ == directory_of(path@),
{
    let mut comps = display_path_components(path);
    if comps.len() >= 2 {
        let ghost whole = comps@.map_values(|c: Vec<char>| c@);
        comps.pop();
        assert(comps@.map_values(|c: Vec<char>| c@) =~= whole.drop_last());
        join_with_slash(&comps)
    } else {
        String::from_str(".")
    }
}

/// Decodes raw path bytes as a path string, replacing invalid UTF-8.
pub fn path_from_bstr(bytes: &[u8]) -> (s: String)
    ensures
        s@ == lossy_utf8(bytes@),
{
    utf8_lossy(bytes)
}

} // verus!
