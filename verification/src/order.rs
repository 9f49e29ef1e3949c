//! The status order: entries are ordered by section, then path, then change kind.
//!
//! Paths are ordered by their displayed components, one after the other: a leading `/`
//! before a leading `.`, before `..`, before any name, and names by their characters.
//! Paths whose components are the same compare equal, however they are spelled.

use vstd::prelude::*;
use crate::model::GdlEntry;
use crate::model::section_rank;
use crate::model::kind_rank;
use crate::model::section_order;
use crate::model::kind_order;
use crate::paths::display_components;
use crate::paths::display_path_components;

verus! {

/// The outcome of a three-way comparison.
#[derive(Debug, Clone, Copy, PartialEq, Eq, Structural)]
pub enum Comparison {
    Less,
    Equal,
    Greater,
}

/// A comparison outcome as `-1`, `0` or `1`.
pub open spec fn ord_value(c: Comparison) -> int {
    match c {
        Comparison::Less => -1,
        Comparison::Equal => 0,
        Comparison::Greater => 1,
    }
}

/// The key by which a displayed component is ordered: `/` first, then `.`, then `..`,
/// then names by their characters.
pub open spec fn component_key(c: Seq<char>) -> Seq<int> {
    if c == "/"@ {
        seq![-3]
    } else if c == "."@ {
        seq![-2]
    } else if c == ".."@ {
        seq![-1]
    } else {
        c.map_values(|ch: char| (ch as u32) as int)
    }
}

/// Three-way comparison of two integer sequences, element by element, a proper prefix
/// first.
pub open spec fn lex_ord(a: Seq<int>, b: Seq<int>) -> int
    decreases a.len(),
{
    if a.len() == 0 && b.len() == 0 {
        0
    } else if a.len() == 0 {
        -1
    } else if b.len() == 0 {
        1
    } else if a[0] < b[0] {
        -1
    } else if a[0] > b[0] {
        1
    } else {
        lex_ord(a.drop_first(), b.drop_first())
    }
}

/// Three-way comparison of two sequences of keys, key by key, a proper prefix first.
pub open spec fn keys_ord(a: Seq<Seq<int>>, b: Seq<Seq<int>>) -> int
    decreases a.len(),
{
    if a.len() == 0 && b.len() == 0 {
        0
    } else if a.len() == 0 {
        -1
    } else if b.len() == 0 {
        1
    } else if lex_ord(a[0], b[0]) != 0 {
        lex_ord(a[0], b[0])
    } else {
        keys_ord(a.drop_first(), b.drop_first())
    }
}

/// The key of a path: the keys of its displayed components.
pub open spec fn path_key(p: Seq<char>) -> Seq<Seq<int>> {
    display_components(p).map_values(|c: Seq<char>| component_key(c))
}

/// Three-way comparison of two paths, as `-1`, `0` or `1`.
pub open spec fn path_ord(a: Seq<char>, b: Seq<char>) -> int {
    keys_ord(path_key(a), path_key(b))
}

/// Three-way comparison of two integers.
pub open spec fn int_ord(a: int, b: int) -> int {
    if a < b {
        -1
    } else if a > b {
        1
    } else {
        0
    }
}

/// Three-way comparison of two entries by section, then path, then change kind.
pub open spec fn entry_ord(x: GdlEntry, y: GdlEntry) -> int {
    let s = int_ord(section_rank(x.section) as int, section_rank(y.section) as int);
    if s != 0 {
        s
    } else {
        let p = path_ord(x.path@, y.path@);
        if p != 0 {
            p
        } else {
            int_ord(kind_rank(x.kind) as int, kind_rank(y.kind) as int)
        }
    }
}

/// Whether entries are in status order.
pub open spec fn entries_sorted(s: Seq<GdlEntry>) -> bool {
    forall|i: int, j: int| 0 <= i < j < s.len() ==> entry_ord(s[i], s[j]) <= 0
}

/// Where a stable insertion puts `e` into sorted `t`: before the first element that is
/// not smaller than `e`.
pub open spec fn insert_pos(t: Seq<GdlEntry>, e: GdlEntry) -> nat
    decreases t.len(),
{
    if t.len() == 0 {
        0
    } else if entry_ord(e, t[0]) <= 0 {
        0
    } else {
        1 + insert_pos(t.drop_first(), e)
    }
}

/// Entries in status order: a stable insertion sort in which earlier entries stay before
/// later entries that compare equal to them.
pub open spec fn sort_entries(s: Seq<GdlEntry>) -> Seq<GdlEntry>
    decreases s.len(),
{
    if s.len() == 0 {
        Seq::empty()
    } else {
        let t = sort_entries(s.drop_first());
        t.insert(insert_pos(t, s[0]) as int, s[0])
    }
}

/// Integer sequence comparison is antisymmetric, and only equal sequences compare equal.
proof fn lemma_lex_ord_antisym(a: Seq<int>, b: Seq<int>)
    ensures
        lex_ord(a, b) == -lex_ord(b, a),
        lex_ord(a, b) == 0 <==> a == b,
        -1 <= lex_ord(a, b) <= 1,
    decreases a.len(),
{
    if a.len() > 0 && b.len() > 0 {
        lemma_lex_ord_antisym(a.drop_first(), b.drop_first());
        if a.drop_first() == b.drop_first() && a[0] == b[0] {
            assert(a =~= seq![a[0]] + a.drop_first());
            assert(b =~= seq![b[0]] + b.drop_first());
        }
    } else if a.len() == 0 && b.len() == 0 {
        assert(a =~= b);
    }
}

/// Integer sequence comparison is transitive.
proof fn lemma_lex_ord_trans(a: Seq<int>, b: Seq<int>, c: Seq<int>)
    requires
        lex_ord(a, b) <= 0,
        lex_ord(b, c) <= 0,
    ensures
        lex_ord(a, c) <= 0,
    decreases a.len(),
{
    if a.len() > 0 && b.len() > 0 && c.len() > 0 {
        if a[0] == b[0] && b[0] == c[0] {
            lemma_lex_ord_trans(a.drop_first(), b.drop_first(), c.drop_first());
        }
    }
}

/// Key sequence comparison is antisymmetric, and only equal sequences compare equal.
proof fn lemma_keys_ord_antisym(a: Seq<Seq<int>>, b: Seq<Seq<int>>)
    ensures
        keys_ord(a, b) == -keys_ord(b, a),
        keys_ord(a, b) == 0 <==> a == b,
        -1 <= keys_ord(a, b) <= 1,
    decreases a.len(),
{
    if a.len() > 0 && b.len() > 0 {
        lemma_lex_ord_antisym(a[0], b[0]);
        lemma_keys_ord_antisym(a.drop_first(), b.drop_first());
        if a.drop_first() == b.drop_first() && a[0] == b[0] {
            assert(a =~= seq![a[0]] + a.drop_first());
            assert(b =~= seq![b[0]] + b.drop_first());
        }
    } else if a.len() == 0 && b.len() == 0 {
        assert(a =~= b);
    }
}

/// Key sequence comparison is transitive.
proof fn lemma_keys_ord_trans(a: Seq<Seq<int>>, b: Seq<Seq<int>>, c: Seq<Seq<int>>)
    requires
        keys_ord(a, b) <= 0,
        keys_ord(b, c) <= 0,
    ensures
        keys_ord(a, c) <= 0,
    decreases a.len(),
{
    if a.len() > 0 && b.len() > 0 && c.len() > 0 {
        lemma_lex_ord_antisym(a[0], b[0]);
        lemma_lex_ord_antisym(b[0], c[0]);
        lemma_lex_ord_antisym(a[0], c[0]);
        if lex_ord(a[0], b[0]) <= 0 && lex_ord(b[0], c[0]) <= 0 {
            lemma_lex_ord_trans(a[0], b[0], c[0]);
        }
        if a[0] == b[0] && b[0] == c[0] {
            lemma_keys_ord_trans(a.drop_first(), b.drop_first(), c.drop_first());
        }
    }
}

/// Path comparison is antisymmetric, and paths compare equal exactly when their keys
/// are equal.
pub proof fn lemma_path_ord_antisym(a: Seq<char>, b: Seq<char>)
    ensures
        path_ord(a, b) == -path_ord(b, a),
        path_ord(a, b) == 0 <==> path_key(a) == path_key(b),
        -1 <= path_ord(a, b) <= 1,
{
    lemma_keys_ord_antisym(path_key(a), path_key(b));
}

/// Path comparison is transitive.
pub proof fn lemma_path_ord_trans(a: Seq<char>, b: Seq<char>, c: Seq<char>)
    requires
        path_ord(a, b) <= 0,
        path_ord(b, c) <= 0,
    ensures
        path_ord(a, c) <= 0,
{
    lemma_keys_ord_trans(path_key(a), path_key(b), path_key(c));
}

/// Entry comparison is antisymmetric.
pub proof fn lemma_entry_ord_antisym(x: GdlEntry, y: GdlEntry)
    ensures
        entry_ord(x, y) == -entry_ord(y, x),
        -1 <= entry_ord(x, y) <= 1,
{
    lemma_path_ord_antisym(x.path@, y.path@);
}

/// Entry comparison is transitive.
pub proof fn lemma_entry_ord_trans(x: GdlEntry, y: GdlEntry, z: GdlEntry)
    requires
        entry_ord(x, y) <= 0,
        entry_ord(y, z) <= 0,
    ensures
        entry_ord(x, z) <= 0,
{
    lemma_path_ord_antisym(x.path@, y.path@);
    lemma_path_ord_antisym(y.path@, z.path@);
    lemma_path_ord_antisym(x.path@, z.path@);
    if path_ord(x.path@, y.path@) <= 0 && path_ord(y.path@, z.path@) <= 0 {
        lemma_path_ord_trans(x.path@, y.path@, z.path@);
    }
}

/// The insertion position is the first index whose element is not smaller.
proof fn lemma_insert_pos_spec(t: Seq<GdlEntry>, e: GdlEntry, p: int)
    requires
        0 <= p <= t.len(),
        forall|k: int| 0 <= k < p ==> entry_ord(e, t[k]) > 0,
        p == t.len() || entry_ord(e, t[p]) <= 0,
    ensures
        insert_pos(t, e) == p,
    decreases t.len(),
{
    if t.len() > 0 && p > 0 {
        let r = t.drop_first();
        assert forall|k: int| 0 <= k < p - 1 implies entry_ord(e, r[k]) > 0 by {
            assert(r[k] == t[k + 1]);
        }
        lemma_insert_pos_spec(r, e, p - 1);
    }
}

proof fn lemma_insert_pos_bound(t: Seq<GdlEntry>, e: GdlEntry)
    ensures
        insert_pos(t, e) <= t.len(),
        forall|k: int| 0 <= k < insert_pos(t, e) ==> entry_ord(e, t[k]) > 0,
        insert_pos(t, e) == t.len() || entry_ord(e, t[insert_pos(t, e) as int]) <= 0,
    decreases t.len(),
{
    if t.len() > 0 && entry_ord(e, t[0]) > 0 {
        let r = t.drop_first();
        lemma_insert_pos_bound(r, e);
        assert forall|k: int| 0 <= k < insert_pos(t, e) implies entry_ord(e, t[k]) > 0 by {
            if k > 0 {
                assert(t[k] == r[k - 1]);
            }
        }
    }
}

/// Sorting keeps exactly the entries it was given.
pub proof fn lemma_sort_permutes(s: Seq<GdlEntry>)
    ensures
        sort_entries(s).to_multiset() == s.to_multiset(),
        sort_entries(s).len() == s.len(),
    decreases s.len(),
{
    broadcast use vstd::seq_lib::to_multiset_insert;
    if s.len() > 0 {
        let t = sort_entries(s.drop_first());
        lemma_sort_permutes(s.drop_first());
        lemma_insert_pos_bound(t, s[0]);
        let p = insert_pos(t, s[0]) as int;
        assert(sort_entries(s) == t.insert(p, s[0]));
        vstd::seq_lib::to_multiset_insert(t, p, s[0]);
        assert(s.drop_first().insert(0, s[0]) =~= s);
        vstd::seq_lib::to_multiset_insert(s.drop_first(), 0, s[0]);
        assert(t.insert(p, s[0]).to_multiset() == t.to_multiset().insert(s[0]));
        assert(s.drop_first().insert(0, s[0]).to_multiset() == s.to_multiset());
        assert(sort_entries(s).to_multiset() == s.to_multiset());
    } else {
        assert(sort_entries(s) =~= s);
    }
}

/// Sorting yields entries in status order.
pub proof fn lemma_sort_sorted(s: Seq<GdlEntry>)
    ensures
        entries_sorted(sort_entries(s)),
    decreases s.len(),
{
    if s.len() > 0 {
        let t = sort_entries(s.drop_first());
        let e = s[0];
        lemma_sort_sorted(s.drop_first());
        lemma_insert_pos_bound(t, e);
        let p = insert_pos(t, e) as int;
        let u = t.insert(p, e);
        assert forall|i: int, j: int| 0 <= i < j < u.len() implies entry_ord(u[i], u[j]) <= 0 by {
            if i < p && j < p {
                assert(u[i] == t[i] && u[j] == t[j]);
            } else if i < p && j == p {
                lemma_entry_ord_antisym(e, t[i]);
            } else if i < p && j > p {
                assert(u[i] == t[i] && u[j] == t[j - 1]);
            } else if i == p {
                assert(u[j] == t[j - 1]);
                assert(entry_ord(e, t[p]) <= 0);
                if j - 1 > p {
                    lemma_entry_ord_trans(e, t[p], t[j - 1]);
                }
            } else {
                assert(u[i] == t[i - 1] && u[j] == t[j - 1]);
            }
        }
    }
}

/// Whether entries that share a section, path and kind are the same entry.
pub open spec fn ties_identical(s: Seq<GdlEntry>) -> bool {
    forall|i: int, j: int|
        0 <= i < s.len() && 0 <= j < s.len() && entry_ord(s[i], s[j]) == 0 ==> s[i] == s[j]
}

/// Two sequences in status order holding the same entries are equal, when entries that
/// compare equal are the same entry.
proof fn lemma_sorted_unique(sa: Seq<GdlEntry>, sb: Seq<GdlEntry>)
    requires
        entries_sorted(sa),
        entries_sorted(sb),
        sa.to_multiset() == sb.to_multiset(),
        ties_identical(sa),
    ensures
        sa == sb,
    decreases sa.len(),
{
    vstd::seq_lib::to_multiset_len(sa);
    vstd::seq_lib::to_multiset_len(sb);
    if sa.len() == 0 {
        assert(sa =~= sb);
    } else {
        vstd::seq_lib::to_multiset_contains(sa, sa[0]);
        vstd::seq_lib::to_multiset_contains(sb, sa[0]);
        vstd::seq_lib::to_multiset_contains(sb, sb[0]);
        vstd::seq_lib::to_multiset_contains(sa, sb[0]);
        assert(sa.contains(sa[0]));
        assert(sb.contains(sb[0]));
        let j = choose|j: int| 0 <= j < sb.len() && sb[j] == sa[0];
        let i = choose|i: int| 0 <= i < sa.len() && sa[i] == sb[0];
        lemma_entry_ord_antisym(sa[0], sb[0]);
        lemma_entry_ord_antisym(sa[0], sa[0]);
        lemma_entry_ord_antisym(sb[0], sb[0]);
        if i > 0 {
            assert(entry_ord(sa[0], sa[i]) <= 0);
        }
        if j > 0 {
            assert(entry_ord(sb[0], sb[j]) <= 0);
        }
        assert(entry_ord(sa[0], sa[i]) == 0);
        assert(sa[0] == sb[0]);
        vstd::seq_lib::to_multiset_remove(sa, 0);
        vstd::seq_lib::to_multiset_remove(sb, 0);
        assert(sa.remove(0) =~= sa.drop_first());
        assert(sb.remove(0) =~= sb.drop_first());
        let ra = sa.drop_first();
        let rb = sb.drop_first();
        assert forall|x: int, y: int| 0 <= x < y < ra.len() implies entry_ord(ra[x], ra[y]) <= 0 by {
            assert(ra[x] == sa[x + 1] && ra[y] == sa[y + 1]);
        }
        assert forall|x: int, y: int| 0 <= x < y < rb.len() implies entry_ord(rb[x], rb[y]) <= 0 by {
            assert(rb[x] == sb[x + 1] && rb[y] == sb[y + 1]);
        }
        assert forall|x: int, y: int|
            0 <= x < ra.len() && 0 <= y < ra.len() && entry_ord(ra[x], ra[y]) == 0 implies ra[x] == ra[y] by {
            assert(ra[x] == sa[x + 1] && ra[y] == sa[y + 1]);
        }
        lemma_sorted_unique(ra, rb);
        assert(sa =~= seq![sa[0]] + ra);
        assert(sb =~= seq![sb[0]] + rb);
    }
}

/// Sorting keeps entries that compare equal identical.
proof fn lemma_sort_ties_identical(a: Seq<GdlEntry>)
    requires
        ties_identical(a),
    ensures
        ties_identical(sort_entries(a)),
{
    let sa = sort_entries(a);
    lemma_sort_permutes(a);
    assert forall|i: int, j: int|
        0 <= i < sa.len() && 0 <= j < sa.len() && entry_ord(sa[i], sa[j]) == 0 implies sa[i] == sa[j] by {
        vstd::seq_lib::to_multiset_contains(sa, sa[i]);
        vstd::seq_lib::to_multiset_contains(sa, sa[j]);
        vstd::seq_lib::to_multiset_contains(a, sa[i]);
        vstd::seq_lib::to_multiset_contains(a, sa[j]);
        assert(sa.contains(sa[i]));
        assert(sa.contains(sa[j]));
        let p = choose|p: int| 0 <= p < a.len() && a[p] == sa[i];
        let q = choose|q: int| 0 <= q < a.len() && a[q] == sa[j];
        assert(a[p] == a[q]);
    }
}

/// Status order does not depend on the order entries arrive in: any two arrangements of
/// the same entries sort to the same sequence, as long as entries that share a section,
/// path and kind are the same entry.
pub proof fn law_sort_independent_of_arrival_order(a: Seq<GdlEntry>, b: Seq<GdlEntry>)
    requires
        a.to_multiset() == b.to_multiset(),
        ties_identical(a),
    ensures
        sort_entries(a) == sort_entries(b),
{
    lemma_sort_permutes(a);
    lemma_sort_permutes(b);
    lemma_sort_sorted(a);
    lemma_sort_sorted(b);
    lemma_sort_ties_identical(a);
    lemma_sorted_unique(sort_entries(a), sort_entries(b));
}

/// The integers of a key vector.
pub open spec fn ints(v: Seq<i64>) -> Seq<int> {
    v.map_values(|x: i64| x as int)
}

/// The key of a displayed component.
fn component_key_of(c: &Vec<char>) -> (k: Vec<i64>)
    ensures
        ints(k@) == component_key(c@),
{
    proof {
        reveal_strlit("/");
        reveal_strlit(".");
        reveal_strlit("..");
    }
    let mut k: Vec<i64> = Vec::new();
    if c.len() == 1 && c[0] == '/' {
        assert(c@ =~= "/"@);
        k.push(-3);
        assert(ints(k@) =~= seq![-3]);
        return k;
    }
    if c.len() == 1 && c[0] == '.' {
        assert(c@ =~= "."@);
        assert(c@ != "/"@);
        k.push(-2);
        assert(ints(k@) =~= seq![-2]);
        return k;
    }
    if c.len() == 2 && c[0] == '.' && c[1] == '.' {
        assert(c@ =~= ".."@);
        assert(c@ != "/"@ && c@ != "."@);
        k.push(-1);
        assert(ints(k@) =~= seq![-1]);
        return k;
    }
    assert(c@ != "/"@ && c@ != "."@ && c@ != ".."@) by {
        if c@ == "/"@ || c@ == "."@ {
            assert(c@.len() == 1);
        }
        if c@ == ".."@ {
            assert(c@.len() == 2);
        }
    }
    let mut i: usize = 0;
    while i < c.len()
        invariant
            i <= c.len(),
            ints(k@) == c@.take(i as int).map_values(|ch: char| (ch as u32) as int),
        decreases c.len() - i,
    {
        let ghost before = ints(k@);
        let code: u32 = c[i] as u32;
        let v: i64 = code as i64;
        k.push(v);
        assert(ints(k@) =~= before.push(v as int));
        assert(v as int == (c@[i as int] as u32) as int);
        assert(c@.take(i + 1) =~= c@.take(i as int).push(c@[i as int]));
        assert(c@.take(i + 1).map_values(|ch: char| (ch as u32) as int) =~= c@.take(i as int).map_values(
            |ch: char| (ch as u32) as int,
        ).push((c@[i as int] as u32) as int));
        i = i + 1;
    }
    assert(c@.take(i as int) =~= c@);
    k
}

/// Three-way comparison of two key vectors.
fn compare_keys(a: &Vec<i64>, b: &Vec<i64>) -> (c: Comparison)
    ensures
        ord_value(c) == lex_ord(ints(a@), ints(b@)),
{
    let ghost x = ints(a@);
    let ghost y = ints(b@);
    let mut i: usize = 0;
    assert(x.skip(0) =~= x);
    assert(y.skip(0) =~= y);
    while i < a.len() && i < b.len()
        invariant
            x == ints(a@),
            y == ints(b@),
            i <= a.len(),
            i <= b.len(),
            lex_ord(x, y) == lex_ord(x.skip(i as int), y.skip(i as int)),
        decreases a.len() - i,
    {
        let ghost xs = x.skip(i as int);
        let ghost ys = y.skip(i as int);
        assert(xs[0] == a@[i as int] && ys[0] == b@[i as int]);
        if a[i] < b[i] {
            return Comparison::Less;
        }
        if a[i] > b[i] {
            return Comparison::Greater;
        }
        assert(xs.drop_first() =~= x.skip(i + 1));
        assert(ys.drop_first() =~= y.skip(i + 1));
        i = i + 1;
    }
    if i == a.len() && i == b.len() {
        assert(x.skip(i as int).len() == 0 && y.skip(i as int).len() == 0);
        Comparison::Equal
    } else if i == a.len() {
        assert(x.skip(i as int).len() == 0 && y.skip(i as int).len() > 0);
        Comparison::Less
    } else {
        assert(x.skip(i as int).len() > 0 && y.skip(i as int).len() == 0);
        Comparison::Greater
    }
}

/// Three-way comparison of two paths by their displayed components.
pub fn compare_paths(a: &str, b: &str) -> (c: Comparison)
    ensures
        ord_value(c) == path_ord(a@, b@),
{
    let x = display_path_components(a);
    let y = display_path_components(b);
    let ghost ka = path_key(a@);
    let ghost kb = path_key(b@);
    let ghost xv = x@.map_values(|s: Vec<char>| s@);
    let ghost yv = y@.map_values(|s: Vec<char>| s@);
    let mut i: usize = 0;
    assert(ka.skip(0) =~= ka);
    assert(kb.skip(0) =~= kb);
    while i < x.len() && i < y.len()
        invariant
            xv == x@.map_values(|s: Vec<char>| s@),
            yv == y@.map_values(|s: Vec<char>| s@),
            xv == display_components(a@),
            yv == display_components(b@),
            ka == path_key(a@),
            kb == path_key(b@),
            i <= x.len(),
            i <= y.len(),
            keys_ord(ka, kb) == keys_ord(ka.skip(i as int), kb.skip(i as int)),
        decreases x.len() - i,
    {
        let ghost xs = ka.skip(i as int);
        let ghost ys = kb.skip(i as int);
        assert(xs[0] == component_key(x@[i as int]@));
        assert(ys[0] == component_key(y@[i as int]@));
        let kx = component_key_of(&x[i]);
        let ky = component_key_of(&y[i]);
        let c = compare_keys(&kx, &ky);
        if c != Comparison::Equal {
            return c;
        }
        proof {
            lemma_lex_ord_antisym(xs[0], ys[0]);
        }
        assert(xs.drop_first() =~= ka.skip(i + 1));
        assert(ys.drop_first() =~= kb.skip(i + 1));
        i = i + 1;
    }
    if i == x.len() && i == y.len() {
        assert(ka.skip(i as int).len() == 0 && kb.skip(i as int).len() == 0);
        Comparison::Equal
    } else if i == x.len() {
        assert(ka.skip(i as int).len() == 0 && kb.skip(i as int).len() > 0);
        Comparison::Less
    } else {
        assert(ka.skip(i as int).len() > 0 && kb.skip(i as int).len() == 0);
        Comparison::Greater
    }
}

fn compare_ranks(a: u8, b: u8) -> (c: Comparison)
    ensures
        ord_value(c) == int_ord(a as int, b as int),
{
    if a < b {
        Comparison::Less
    } else if a > b {
        Comparison::Greater
    } else {
        Comparison::Equal
    }
}

/// Three-way comparison of two entries in status order.
pub fn compare_entries(x: &GdlEntry, y: &GdlEntry) -> (c: Comparison)
    ensures
        ord_value(c) == entry_ord(*x, *y),
{
    let s = compare_ranks(section_order(x.section), section_order(y.section));
    if s != Comparison::Equal {
        return s;
    }
    let p = compare_paths(x.path.as_str(), y.path.as_str());
    if p != Comparison::Equal {
        return p;
    }
    compare_ranks(kind_order(x.kind), kind_order(y.kind))
}

/// Sorts entries into status order, stably.
pub fn sort_status_entries(entries: Vec<GdlEntry>) -> (sorted: Vec<GdlEntry>)
    ensures
        sorted@ == sort_entries(entries@),
{
    let ghost all = entries@;
    let mut rest = entries;
    let mut out: Vec<GdlEntry> = Vec::new();
    assert(all.skip(all.len() as int) =~= Seq::<GdlEntry>::empty());
    while rest.len() > 0
        invariant
            rest.len() <= all.len(),
            rest@ == all.take(rest.len() as int),
            out@ == sort_entries(all.skip(rest.len() as int)),
        decreases rest.len(),
    {
        let ghost n = rest.len() as int;
        let ghost before = rest@;
        let e = rest.pop().unwrap();
        assert(e == before.last());
        assert(all.skip(n - 1).drop_first() =~= all.skip(n as int));
        assert(all.skip(n - 1)[0] == e);
        assert(rest@ =~= all.take(n - 1));
        let mut p: usize = 0;
        while p < out.len() && compare_entries(&e, &out[p]) == Comparison::Greater
            invariant
                p <= out.len(),
                forall|k: int| 0 <= k < p ==> entry_ord(e, out@[k]) > 0,
            decreases out.len() - p,
        {
            p = p + 1;
        }
        proof {
            lemma_insert_pos_spec(out@, e, p as int);
        }
        out.insert(p, e);
    }
    assert(all.skip(0) =~= all);
    out
}

} // verus!
