//! Status entries from the items of a git status walk.
//!
//! A walk yields one item per change it sees, either between `HEAD` and the index or
//! between the index and the worktree. Each item, with the bytes of the contents it
//! compares, becomes at most one entry; the entries are then put in status order.

use vstd::prelude::*;
use crate::model::GdlEntry;
use crate::model::ChangeSection;
use crate::model::ChangeKind;
use crate::lines::whole_counts;
use crate::lines::whole_line_counts;
use crate::hunks::hunk_counts;
use crate::hunks::diff_counts;
use crate::hunks::diffable;
use crate::hunks::is_diffable;
use crate::order::sort_entries;
use crate::order::entries_sorted;
use crate::order::sort_status_entries;
use crate::order::lemma_sort_sorted;
use crate::order::lemma_sort_permutes;
use crate::order::ties_identical;
use crate::order::law_sort_independent_of_arrival_order;

verus! {

/// One item of a status walk, holding the contents it compares. Paths are
/// repository-relative with `/` separators.
#[derive(Debug, Clone, PartialEq, Eq)]
pub enum StatusRecord {
    /// A path added to the index relative to `HEAD`, with its staged contents.
    StagedAddition { path: String, new: Vec<u8> },
    /// A path removed from the index relative to `HEAD`, with its `HEAD` contents.
    StagedDeletion { path: String, old: Vec<u8> },
    /// A path whose staged contents differ from `HEAD`.
    StagedModification { path: String, old: Vec<u8>, new: Vec<u8> },
    /// A staged rename or copy from `source_path` to `path`.
    StagedRewrite { source_path: String, path: String, old: Vec<u8>, new: Vec<u8>, copy: bool },
    /// A path with unresolved conflict stages in the index.
    Conflict { path: String },
    /// A tracked path missing from the worktree, with its index contents.
    WorktreeRemoval { path: String, old: Vec<u8> },
    /// A tracked path (or submodule) whose worktree contents differ from the index.
    WorktreeModification { path: String, old: Vec<u8>, new: Vec<u8> },
    /// A tracked path whose file type changed in the worktree; `new` is empty when the
    /// worktree side could not be read.
    WorktreeTypeChange { path: String, old: Vec<u8>, new: Vec<u8> },
    /// An index entry marked intent-to-add.
    IntentToAdd { path: String },
    /// An index entry whose stat information needs refreshing but whose contents match.
    NeedsUpdate { path: String },
    /// An untracked worktree file, with its contents.
    Untracked { path: String, new: Vec<u8> },
    /// A directory walk entry that is not untracked (ignored, tracked or otherwise).
    OtherDirectoryEntry { path: String },
    /// A worktree rename or copy from `source_path` to `path`.
    WorktreeRewrite { source_path: String, path: String, old: Vec<u8>, new: Vec<u8>, copy: bool },
}

/// The entry for a change with line counts `c`.
pub open spec fn counted_entry(
    section: ChangeSection,
    kind: ChangeKind,
    path: String,
    old_path: Option<String>,
    c: (nat, nat, bool),
) -> GdlEntry {
    GdlEntry {
        section,
        kind,
        path,
        old_path,
        lines_added: c.0 as usize,
        lines_removed: c.1 as usize,
        is_binary: c.2,
    }
}

/// The kind of a rewrite: a copy or a rename.
pub open spec fn rewrite_kind(copy: bool) -> ChangeKind {
    if copy {
        ChangeKind::Copied
    } else {
        ChangeKind::Renamed
    }
}

/// The entry a status item yields, if any.
pub open spec fn record_entry(r: StatusRecord) -> Option<GdlEntry> {
    match r {
        StatusRecord::StagedAddition { path, new } => Some(
            counted_entry(ChangeSection::Staged, ChangeKind::Added, path, None, whole_counts(Seq::empty(), new@)),
        ),
        StatusRecord::StagedDeletion { path, old } => Some(
            counted_entry(ChangeSection::Staged, ChangeKind::Deleted, path, None, whole_counts(old@, Seq::empty())),
        ),
        StatusRecord::StagedModification { path, old, new } => Some(
            counted_entry(ChangeSection::Staged, ChangeKind::Modified, path, None, hunk_counts(old@, new@)),
        ),
        StatusRecord::StagedRewrite { source_path, path, old, new, copy } => Some(
            counted_entry(ChangeSection::Staged, rewrite_kind(copy), path, Some(source_path), hunk_counts(old@, new@)),
        ),
        StatusRecord::Conflict { path } => Some(
            GdlEntry {
                section: ChangeSection::Conflicted,
                kind: ChangeKind::Conflicted,
                path,
                old_path: None,
                lines_added: 0,
                lines_removed: 0,
                is_binary: false,
            },
        ),
        StatusRecord::WorktreeRemoval { path, old } => Some(
            counted_entry(ChangeSection::WorkingTree, ChangeKind::Deleted, path, None, whole_counts(old@, Seq::empty())),
        ),
        StatusRecord::WorktreeModification { path, old, new } => Some(
            counted_entry(ChangeSection::WorkingTree, ChangeKind::Modified, path, None, hunk_counts(old@, new@)),
        ),
        StatusRecord::WorktreeTypeChange { path, old, new } => Some(
            counted_entry(ChangeSection::WorkingTree, ChangeKind::TypeChanged, path, None, whole_counts(old@, new@)),
        ),
        StatusRecord::IntentToAdd { .. } => None,
        StatusRecord::NeedsUpdate { .. } => None,
        StatusRecord::Untracked { path, new } => Some(
            counted_entry(ChangeSection::Untracked, ChangeKind::Untracked, path, None, whole_counts(Seq::empty(), new@)),
        ),
        StatusRecord::OtherDirectoryEntry { .. } => None,
        StatusRecord::WorktreeRewrite { source_path, path, old, new, copy } => Some(
            counted_entry(ChangeSection::WorkingTree, rewrite_kind(copy), path, Some(source_path), hunk_counts(old@, new@)),
        ),
    }
}

/// Whether the contents an item compares by their hunks are within the size the diff
/// algorithm accepts.
pub open spec fn record_fits(r: StatusRecord) -> bool {
    match r {
        StatusRecord::StagedModification { old, new, .. } => diffable(old@, new@),
        StatusRecord::StagedRewrite { old, new, .. } => diffable(old@, new@),
        StatusRecord::WorktreeModification { old, new, .. } => diffable(old@, new@),
        StatusRecord::WorktreeRewrite { old, new, .. } => diffable(old@, new@),
        _ => true,
    }
}

/// The entries the items yield, in walk order.
pub open spec fn record_entries(rs: Seq<StatusRecord>) -> Seq<GdlEntry>
    decreases rs.len(),
{
    if rs.len() == 0 {
        Seq::empty()
    } else {
        let prev = record_entries(rs.drop_last());
        match record_entry(rs.last()) {
            Some(e) => prev.push(e),
            None => prev,
        }
    }
}

/// The status entries of a walk: the entries its items yield, in status order.
pub open spec fn status_of(rs: Seq<StatusRecord>) -> Seq<GdlEntry> {
    sort_entries(record_entries(rs))
}

fn counted_whole(
    section: ChangeSection,
    kind: ChangeKind,
    path: String,
    old_path: Option<String>,
    old: &[u8],
    new: &[u8],
) -> (e: GdlEntry)
    ensures
        e == counted_entry(section, kind, path, old_path, whole_counts(old@, new@)),
{
    let (lines_added, lines_removed, is_binary) = whole_line_counts(old, new);
    GdlEntry { section, kind, path, old_path, lines_added, lines_removed, is_binary }
}

fn counted_hunks(
    section: ChangeSection,
    kind: ChangeKind,
    path: String,
    old_path: Option<String>,
    old: &[u8],
    new: &[u8],
) -> (e: GdlEntry)
    requires
        diffable(old@, new@),
    ensures
        e == counted_entry(section, kind, path, old_path, hunk_counts(old@, new@)),
{
    let (lines_added, lines_removed, is_binary) = diff_counts(old, new);
    GdlEntry { section, kind, path, old_path, lines_added, lines_removed, is_binary }
}

fn kind_of_rewrite(copy: bool) -> (k: ChangeKind)
    ensures
        k == rewrite_kind(copy),
{
    if copy {
        ChangeKind::Copied
    } else {
        ChangeKind::Renamed
    }
}

/// The entry a status item yields, if any.
pub fn entry_of_record(record: StatusRecord) -> (e: Option<GdlEntry>)
    requires
        record_fits(record),
    ensures
        e == record_entry(record),
{
    let empty: Vec<u8> = Vec::new();
    match record {
        StatusRecord::StagedAddition { path, new } => Some(
            counted_whole(ChangeSection::Staged, ChangeKind::Added, path, None, empty.as_slice(), new.as_slice()),
        ),
        StatusRecord::StagedDeletion { path, old } => Some(
            counted_whole(ChangeSection::Staged, ChangeKind::Deleted, path, None, old.as_slice(), empty.as_slice()),
        ),
        StatusRecord::StagedModification { path, old, new } => Some(
            counted_hunks(ChangeSection::Staged, ChangeKind::Modified, path, None, old.as_slice(), new.as_slice()),
        ),
        StatusRecord::StagedRewrite { source_path, path, old, new, copy } => Some(
            counted_hunks(
                ChangeSection::Staged,
                kind_of_rewrite(copy),
                path,
                Some(source_path),
                old.as_slice(),
                new.as_slice(),
            ),
        ),
        StatusRecord::Conflict { path } => Some(
            GdlEntry {
                section: ChangeSection::Conflicted,
                kind: ChangeKind::Conflicted,
                path,
                old_path: None,
                lines_added: 0,
                lines_removed: 0,
                is_binary: false,
            },
        ),
        StatusRecord::WorktreeRemoval { path, old } => Some(
            counted_whole(ChangeSection::WorkingTree, ChangeKind::Deleted, path, None, old.as_slice(), empty.as_slice()),
        ),
        StatusRecord::WorktreeModification { path, old, new } => Some(
            counted_hunks(ChangeSection::WorkingTree, ChangeKind::Modified, path, None, old.as_slice(), new.as_slice()),
        ),
        StatusRecord::WorktreeTypeChange { path, old, new } => Some(
            counted_whole(
                ChangeSection::WorkingTree,
                ChangeKind::TypeChanged,
                path,
                None,
                old.as_slice(),
                new.as_slice(),
            ),
        ),
        StatusRecord::IntentToAdd { .. } => None,
        StatusRecord::NeedsUpdate { .. } => None,
        StatusRecord::Untracked { path, new } => Some(
            counted_whole(ChangeSection::Untracked, ChangeKind::Untracked, path, None, empty.as_slice(), new.as_slice()),
        ),
        StatusRecord::OtherDirectoryEntry { .. } => None,
        StatusRecord::WorktreeRewrite { source_path, path, old, new, copy } => Some(
            counted_hunks(
                ChangeSection::WorkingTree,
                kind_of_rewrite(copy),
                path,
                Some(source_path),
                old.as_slice(),
                new.as_slice(),
            ),
        ),
    }
}

/// Whether the contents an item compares by their hunks can be diffed.
fn record_fits_exec(record: &StatusRecord) -> (b: bool)
    ensures
        b == record_fits(*record),
{
    match record {
        StatusRecord::StagedModification { old, new, .. } => is_diffable(old.as_slice(), new.as_slice()),
        StatusRecord::StagedRewrite { old, new, .. } => is_diffable(old.as_slice(), new.as_slice()),
        StatusRecord::WorktreeModification { old, new, .. } => is_diffable(old.as_slice(), new.as_slice()),
        StatusRecord::WorktreeRewrite { old, new, .. } => is_diffable(old.as_slice(), new.as_slice()),
        _ => true,
    }
}

/// Tests whether every item of a walk can be counted: whether each content compared by
/// its hunks has fewer than `i32::MAX` lines, unless it is binary.
pub fn records_fit(records: &Vec<StatusRecord>) -> (b: bool)
    ensures
        b == (forall|i: int| 0 <= i < records.len() ==> record_fits(#[trigger] records@[i])),
{
    let mut i: usize = 0;
    while i < records.len()
        invariant
            i <= records.len(),
            forall|k: int| 0 <= k < i ==> record_fits(#[trigger] records@[k]),
        decreases records.len() - i,
    {
        if !record_fits_exec(&records[i]) {
            return false;
        }
        i = i + 1;
    }
    true
}

/// Whether an entry's fields agree: conflicts and only conflicts are in the conflict
/// section, untracked paths and only those in the untracked section, exactly renames and
/// copies name a previous path, and binary content and conflicts count no lines.
pub open spec fn entry_consistent(e: GdlEntry) -> bool {
    &&& (e.section == ChangeSection::Conflicted <==> e.kind == ChangeKind::Conflicted)
    &&& (e.section == ChangeSection::Untracked <==> e.kind == ChangeKind::Untracked)
    &&& (e.old_path is Some <==> (e.kind == ChangeKind::Renamed || e.kind == ChangeKind::Copied))
    &&& ((e.is_binary || e.kind == ChangeKind::Conflicted) ==> e.lines_added == 0 && e.lines_removed == 0)
    &&& (e.kind == ChangeKind::Conflicted ==> !e.is_binary)
}

/// Every entry a walk yields has agreeing fields.
proof fn lemma_record_entries_consistent(rs: Seq<StatusRecord>)
    ensures
        forall|i: int| 0 <= i < record_entries(rs).len() ==> entry_consistent(#[trigger] record_entries(rs)[i]),
    decreases rs.len(),
{
    if rs.len() > 0 {
        lemma_record_entries_consistent(rs.drop_last());
        let prev = record_entries(rs.drop_last());
        match record_entry(rs.last()) {
            Some(e) => {
                assert(entry_consistent(e));
                assert forall|i: int| 0 <= i < prev.push(e).len() implies entry_consistent(#[trigger] prev.push(e)[i]) by {
                    if i < prev.len() {
                        assert(prev.push(e)[i] == prev[i]);
                    }
                }
            },
            None => {},
        }
    }
}

/// Whether a path is relative: it does not begin with `/`.
pub open spec fn relative(p: Seq<char>) -> bool {
    p.len() == 0 || p[0] != '/'
}

/// Whether the paths an item names are relative.
pub open spec fn record_relative(r: StatusRecord) -> bool {
    match r {
        StatusRecord::StagedRewrite { source_path, path, .. } => relative(source_path@) && relative(path@),
        StatusRecord::WorktreeRewrite { source_path, path, .. } => relative(source_path@) && relative(path@),
        StatusRecord::StagedAddition { path, .. } => relative(path@),
        StatusRecord::StagedDeletion { path, .. } => relative(path@),
        StatusRecord::StagedModification { path, .. } => relative(path@),
        StatusRecord::Conflict { path } => relative(path@),
        StatusRecord::WorktreeRemoval { path, .. } => relative(path@),
        StatusRecord::WorktreeModification { path, .. } => relative(path@),
        StatusRecord::WorktreeTypeChange { path, .. } => relative(path@),
        StatusRecord::IntentToAdd { path } => relative(path@),
        StatusRecord::NeedsUpdate { path } => relative(path@),
        StatusRecord::Untracked { path, .. } => relative(path@),
        StatusRecord::OtherDirectoryEntry { path } => relative(path@),
    }
}

/// Whether an entry's paths are relative.
pub open spec fn entry_relative(e: GdlEntry) -> bool {
    &&& relative(e.path@)
    &&& match e.old_path {
        Some(o) => relative(o@),
        None => true,
    }
}

/// The entries of a walk whose paths are relative have relative paths.
proof fn lemma_record_entries_relative(rs: Seq<StatusRecord>)
    requires
        forall|i: int| 0 <= i < rs.len() ==> record_relative(#[trigger] rs[i]),
    ensures
        forall|i: int| 0 <= i < record_entries(rs).len() ==> entry_relative(#[trigger] record_entries(rs)[i]),
    decreases rs.len(),
{
    if rs.len() > 0 {
        let init = rs.drop_last();
        assert forall|i: int| 0 <= i < init.len() implies record_relative(#[trigger] init[i]) by {
            assert(init[i] == rs[i]);
        }
        lemma_record_entries_relative(init);
        let prev = record_entries(init);
        assert(record_relative(rs[rs.len() - 1]));
        match record_entry(rs.last()) {
            Some(e) => {
                assert(entry_relative(e));
                assert forall|i: int| 0 <= i < prev.push(e).len() implies entry_relative(#[trigger] prev.push(e)[i]) by {
                    if i < prev.len() {
                        assert(prev.push(e)[i] == prev[i]);
                    }
                }
            },
            None => {},
        }
    }
}

/// The status entries of a walk, in status order: by section, then path, then kind.
/// Every entry's fields agree (`entry_consistent`), and when the walk's paths are
/// relative, so are the entries'.
pub fn status_entries(records: Vec<StatusRecord>) -> (entries: Vec<GdlEntry>)
    requires
        forall|i: int| 0 <= i < records.len() ==> record_fits(#[trigger] records@[i]),
    ensures
        entries@ == status_of(records@),
        entries_sorted(entries@),
        entries@.to_multiset() == record_entries(records@).to_multiset(),
        forall|i: int| 0 <= i < entries.len() ==> entry_consistent(#[trigger] entries@[i]),
        (forall|i: int| 0 <= i < records.len() ==> record_relative(#[trigger] records@[i])) ==> (forall|i: int|
            0 <= i < entries.len() ==> entry_relative(#[trigger] entries@[i])),
{
    let ghost all = records@;
    let mut unsorted: Vec<GdlEntry> = Vec::new();
    assert(all.take(0) =~= Seq::<StatusRecord>::empty());
    for r in it: records.into_iter()
        invariant
            it.seq() == all,
            forall|k: int| 0 <= k < all.len() ==> record_fits(#[trigger] all[k]),
            unsorted@ == record_entries(all.take(it.index() as int)),
    {
        let ghost k = it.index() as int;
        assert(all[k] == r);
        assert(all.take(k + 1).drop_last() =~= all.take(k));
        match entry_of_record(r) {
            Some(e) => unsorted.push(e),
            None => {},
        }
    }
    assert(all.take(all.len() as int) =~= all);
    proof {
        lemma_sort_sorted(unsorted@);
        lemma_sort_permutes(unsorted@);
        lemma_record_entries_consistent(all);
    }
    let sorted = sort_status_entries(unsorted);
    proof {
        assert forall|i: int| 0 <= i < sorted.len() implies entry_consistent(#[trigger] sorted@[i]) by {
            let x = sorted@[i];
            vstd::seq_lib::to_multiset_contains(sorted@, x);
            vstd::seq_lib::to_multiset_contains(record_entries(all), x);
            assert(sorted@.contains(x));
            let j = choose|j: int| 0 <= j < record_entries(all).len() && record_entries(all)[j] == x;
            assert(entry_consistent(record_entries(all)[j]));
        }
        if forall|i: int| 0 <= i < all.len() ==> record_relative(#[trigger] all[i]) {
            lemma_record_entries_relative(all);
            assert forall|i: int| 0 <= i < sorted.len() implies entry_relative(#[trigger] sorted@[i]) by {
                let x = sorted@[i];
                vstd::seq_lib::to_multiset_contains(sorted@, x);
                vstd::seq_lib::to_multiset_contains(record_entries(all), x);
                assert(sorted@.contains(x));
                let j = choose|j: int| 0 <= j < record_entries(all).len() && record_entries(all)[j] == x;
                assert(entry_relative(record_entries(all)[j]));
            }
        }
    }
    sorted
}

/// The entries of two walks one after the other are the entries of each, one after the
/// other.
proof fn lemma_record_entries_concat(s: Seq<StatusRecord>, t: Seq<StatusRecord>)
    ensures
        record_entries(s + t) == record_entries(s) + record_entries(t),
    decreases t.len(),
{
    if t.len() == 0 {
        assert(s + t =~= s);
        assert(record_entries(s) + record_entries(t) =~= record_entries(s));
    } else {
        lemma_record_entries_concat(s, t.drop_last());
        assert((s + t).drop_last() =~= s + t.drop_last());
        assert((s + t).last() == t.last());
        let front = record_entries(s);
        let back = record_entries(t.drop_last());
        match record_entry(t.last()) {
            Some(e) => {
                assert((front + back).push(e) =~= front + back.push(e));
            },
            None => {},
        }
    }
}

/// Walks holding the same items, in any order, yield the same entries, in some order.
proof fn lemma_record_entries_permute(a: Seq<StatusRecord>, b: Seq<StatusRecord>)
    requires
        a.to_multiset() == b.to_multiset(),
    ensures
        record_entries(a).to_multiset() == record_entries(b).to_multiset(),
    decreases a.len(),
{
    vstd::seq_lib::to_multiset_len(a);
    vstd::seq_lib::to_multiset_len(b);
    if a.len() == 0 {
        assert(a =~= b);
    } else {
        let x = a.last();
        let rest = a.drop_last();
        assert(rest.push(x) =~= a);
        vstd::seq_lib::to_multiset_build(rest, x);
        vstd::seq_lib::to_multiset_contains(a, x);
        vstd::seq_lib::to_multiset_contains(b, x);
        assert(a.contains(x)) by {
            assert(a[a.len() - 1] == x);
        }
        let i = choose|i: int| 0 <= i < b.len() && b[i] == x;
        vstd::seq_lib::to_multiset_remove(b, i);
        assert(rest.to_multiset() =~= b.remove(i).to_multiset()) by {
            broadcast use vstd::multiset::group_multiset_axioms;
        }
        lemma_record_entries_permute(rest, b.remove(i));
        let p = b.subrange(0, i);
        let q = b.subrange(i + 1, b.len() as int);
        let one = seq![x];
        assert(b =~= (p + one) + q);
        assert(b.remove(i) =~= p + q);
        assert(a =~= rest + one);
        lemma_record_entries_concat(p + one, q);
        lemma_record_entries_concat(p, one);
        lemma_record_entries_concat(p, q);
        lemma_record_entries_concat(rest, one);
        let ep = record_entries(p);
        let eq = record_entries(q);
        let ex = record_entries(one);
        let er = record_entries(rest);
        vstd::seq_lib::lemma_multiset_commutative(ep + ex, eq);
        vstd::seq_lib::lemma_multiset_commutative(ep, ex);
        vstd::seq_lib::lemma_multiset_commutative(ep, eq);
        vstd::seq_lib::lemma_multiset_commutative(er, ex);
        assert(record_entries(a).to_multiset() =~= record_entries(b).to_multiset()) by {
            broadcast use vstd::multiset::group_multiset_axioms;
        }
    }
}

/// The status of a walk does not depend on the order in which the walk met its items,
/// as long as entries that share a section, path and kind are the same entry.
pub proof fn law_status_independent_of_walk_order(a: Seq<StatusRecord>, b: Seq<StatusRecord>)
    requires
        a.to_multiset() == b.to_multiset(),
        ties_identical(record_entries(a)),
    ensures
        status_of(a) == status_of(b),
{
    lemma_record_entries_permute(a, b);
    law_sort_independent_of_arrival_order(record_entries(a), record_entries(b));
}

} // verus!
