//! Line splitting, binary detection and added/removed line counts.

use vstd::prelude::*;

verus! {

/// Number of leading bytes inspected when deciding whether content is binary.
pub const BINARY_SNIFF_LEN: usize = 8192;

/// Content is binary when one of its first `BINARY_SNIFF_LEN` bytes is NUL.
pub open spec fn binary_content(bytes: Seq<u8>) -> bool {
    exists|i: int| 0 <= i < bytes.len() && i < BINARY_SNIFF_LEN && bytes[i] == 0
}

/// Length of the first line of non-empty `bytes`: up to and including the first
/// newline, or all of `bytes` when there is none.
pub open spec fn first_line_len(bytes: Seq<u8>) -> nat
    decreases bytes.len(),
{
    if bytes.len() <= 1 || bytes[0] == 10 {
        1
    } else {
        1 + first_line_len(bytes.drop_first())
    }
}

/// The lines of `bytes`, each keeping its terminating newline; a final line
/// without a newline is kept as it is. Empty content has no lines.
pub open spec fn lines_of(bytes: Seq<u8>) -> Seq<Seq<u8>>
    decreases bytes.len(),
{
    if bytes.len() == 0 {
        Seq::empty()
    } else {
        let n = first_line_len(bytes);
        if 1 <= n <= bytes.len() {
            seq![bytes.take(n as int)] + lines_of(bytes.skip(n as int))
        } else {
            Seq::empty()
        }
    }
}

proof fn lemma_first_line_len_bounds(bytes: Seq<u8>)
    requires
        bytes.len() > 0,
    ensures
        1 <= first_line_len(bytes) <= bytes.len(),
    decreases bytes.len(),
{
    if bytes.len() > 1 && bytes[0] != 10 {
        lemma_first_line_len_bounds(bytes.drop_first());
    }
}

/// With no newline before position `k` and a newline at `k`, the first line ends after `k`.
proof fn lemma_first_line_len_at_newline(bytes: Seq<u8>, k: int)
    requires
        0 <= k < bytes.len(),
        bytes[k] == 10,
        forall|j: int| 0 <= j < k ==> bytes[j] != 10,
    ensures
        first_line_len(bytes) == k + 1,
    decreases k,
{
    if k > 0 {
        let rest = bytes.drop_first();
        assert forall|j: int| 0 <= j < k - 1 implies rest[j] != 10 by {
            assert(rest[j] == bytes[j + 1]);
        }
        lemma_first_line_len_at_newline(rest, k - 1);
    }
}

/// With no newline at all, the first line is the whole content.
proof fn lemma_first_line_len_no_newline(bytes: Seq<u8>)
    requires
        bytes.len() > 0,
        forall|j: int| 0 <= j < bytes.len() ==> bytes[j] != 10,
    ensures
        first_line_len(bytes) == bytes.len(),
    decreases bytes.len(),
{
    if bytes.len() > 1 {
        let rest = bytes.drop_first();
        assert forall|j: int| 0 <= j < rest.len() implies rest[j] != 10 by {
            assert(rest[j] == bytes[j + 1]);
        }
        lemma_first_line_len_no_newline(rest);
    }
}

/// The first line holds no newline before its last byte, and ends with one unless it
/// is all of the content.
proof fn lemma_first_line_shape(bytes: Seq<u8>)
    requires
        bytes.len() > 0,
    ensures
        forall|j: int| 0 <= j < first_line_len(bytes) - 1 ==> bytes[j] != 10,
        first_line_len(bytes) < bytes.len() ==> bytes[first_line_len(bytes) - 1] == 10,
    decreases bytes.len(),
{
    lemma_first_line_len_bounds(bytes);
    if bytes.len() > 1 && bytes[0] != 10 {
        let rest = bytes.drop_first();
        lemma_first_line_shape(rest);
        assert forall|j: int| 0 <= j < first_line_len(bytes) - 1 implies bytes[j] != 10 by {
            if j > 0 {
                assert(bytes[j] == rest[j - 1]);
            }
        }
    }
}

/// The number of newlines in `bytes`.
pub open spec fn newline_count(bytes: Seq<u8>) -> nat
    decreases bytes.len(),
{
    if bytes.len() == 0 {
        0
    } else {
        (if bytes[0] == 10 { 1nat } else { 0nat }) + newline_count(bytes.drop_first())
    }
}

/// Newlines of two contents one after the other add up.
proof fn lemma_newline_count_concat(a: Seq<u8>, b: Seq<u8>)
    ensures
        newline_count(a + b) == newline_count(a) + newline_count(b),
    decreases a.len(),
{
    if a.len() == 0 {
        assert(a + b =~= b);
    } else {
        lemma_newline_count_concat(a.drop_first(), b);
        assert((a + b).drop_first() =~= a.drop_first() + b);
    }
}

/// Content without a newline counts none.
proof fn lemma_newline_count_none(a: Seq<u8>)
    requires
        forall|j: int| 0 <= j < a.len() ==> a[j] != 10,
    ensures
        newline_count(a) == 0,
    decreases a.len(),
{
    if a.len() > 0 {
        let r = a.drop_first();
        assert forall|j: int| 0 <= j < r.len() implies r[j] != 10 by {
            assert(r[j] == a[j + 1]);
        }
        lemma_newline_count_none(r);
    }
}

/// The lines of content, put back together, are the content. Every line is non-empty,
/// holds a newline at most as its last byte, and every line but the last ends with a
/// newline. There are as many lines as newlines, and one more when the content does not
/// end with a newline and is not empty.
pub proof fn law_lines_rejoin(bytes: Seq<u8>)
    ensures
        lines_of(bytes).len() == newline_count(bytes) + (if bytes.len() > 0 && bytes.last() != 10 {
            1nat
        } else {
            0nat
        }),
        lines_of(bytes).flatten() == bytes,
        forall|i: int| 0 <= i < lines_of(bytes).len() ==> #[trigger] lines_of(bytes)[i].len() > 0,
        forall|i: int, j: int|
            0 <= i < lines_of(bytes).len() && 0 <= j < lines_of(bytes)[i].len() - 1 ==> #[trigger] lines_of(
                bytes,
            )[i][j] != 10,
        forall|i: int| 0 <= i < lines_of(bytes).len() - 1 ==> #[trigger] lines_of(bytes)[i].last() == 10,
    decreases bytes.len(),
{
    if bytes.len() > 0 {
        lemma_first_line_len_bounds(bytes);
        lemma_first_line_shape(bytes);
        let n = first_line_len(bytes);
        let rest = bytes.skip(n as int);
        law_lines_rejoin(rest);
        let ls = lines_of(bytes);
        let rl = lines_of(rest);
        assert(ls == seq![bytes.take(n as int)] + rl);
        assert(ls.drop_first() =~= rl);
        assert(ls.flatten() == bytes.take(n as int) + rl.flatten());
        assert(bytes.take(n as int) + rest =~= bytes);
        assert forall|i: int| 0 <= i < ls.len() implies #[trigger] ls[i].len() > 0 by {
            if i > 0 {
                assert(ls[i] == rl[i - 1]);
            }
        }
        assert forall|i: int, j: int| 0 <= i < ls.len() && 0 <= j < ls[i].len() - 1 implies #[trigger] ls[i][j]
            != 10 by {
            if i > 0 {
                assert(ls[i] == rl[i - 1]);
            }
        }
        assert forall|i: int| 0 <= i < ls.len() - 1 implies #[trigger] ls[i].last() == 10 by {
            if i > 0 {
                assert(ls[i] == rl[i - 1]);
            } else {
                assert(rl.len() > 0);
                assert(rest.len() > 0);
            }
        }
        let line = bytes.take(n as int);
        let head = line.take(n - 1);
        assert forall|j: int| 0 <= j < head.len() implies head[j] != 10 by {
            assert(head[j] == bytes[j]);
        }
        lemma_newline_count_none(head);
        assert(head + seq![line.last()] =~= line);
        lemma_newline_count_concat(head, seq![line.last()]);
        assert(seq![line.last()].drop_first() =~= Seq::<u8>::empty());
        lemma_newline_count_concat(line, rest);
        let x = line.last();
        assert(newline_count(seq![x]) == (if x == 10 { 1nat } else { 0nat }) + newline_count(Seq::<u8>::empty()));
        assert(newline_count(line) == (if x == 10 { 1nat } else { 0nat }));
        assert(newline_count(bytes) == newline_count(line) + newline_count(rest));
        assert(ls.len() == 1 + rl.len());
        assert(x == bytes[n - 1]);
        if rest.len() > 0 {
            assert(bytes.last() == rest.last());
            assert(x == 10);
        } else {
            assert(rl.len() == 0);
            assert(n == bytes.len());
        }
    }
}

/// Splits `bytes` into lines as `lines_of` describes.
pub fn byte_lines(bytes: &[u8]) -> (lines: Vec<Vec<u8>>)
    ensures
        lines@.map_values(|l: Vec<u8>| l@) == lines_of(bytes@),
{
    let mut lines: Vec<Vec<u8>> = Vec::new();
    if bytes.len() == 0 {
        assert(lines@.map_values(|l: Vec<u8>| l@) =~= lines_of(bytes@));
        return lines;
    }
    let mut start: usize = 0;
    let mut index: usize = 0;
    assert(bytes@.skip(0) =~= bytes@);
    assert(lines@.map_values(|l: Vec<u8>| l@) =~= Seq::<Seq<u8>>::empty());
    while index < bytes.len()
        invariant
            start <= index <= bytes.len(),
            forall|j: int| start <= j < index ==> bytes@[j] != 10,
            lines@.map_values(|l: Vec<u8>| l@) + lines_of(bytes@.skip(start as int)) == lines_of(bytes@),
        decreases bytes.len() - index,
    {
        if bytes[index] == 10 {
            let ghost rest = bytes@.skip(start as int);
            proof {
                assert forall|j: int| 0 <= j < index - start implies rest[j] != 10 by {
                    assert(rest[j] == bytes@[start + j]);
                }
                lemma_first_line_len_at_newline(rest, index - start);
                assert(rest.take((index - start + 1) as int) =~= bytes@.subrange(start as int, index + 1));
                assert(rest.skip((index - start + 1) as int) =~= bytes@.skip(index + 1));
            }
            let ghost before = lines@.map_values(|l: Vec<u8>| l@);
            let line = vstd::slice::slice_to_vec(vstd::slice::slice_subrange(bytes, start, index + 1));
            lines.push(line);
            proof {
                assert(lines@.map_values(|l: Vec<u8>| l@) =~= before.push(bytes@.subrange(start as int, index + 1)));
                lemma_first_line_len_bounds(rest);
                assert(lines_of(rest) =~= seq![bytes@.subrange(start as int, index + 1)] + lines_of(bytes@.skip(index + 1)));
                assert(before.push(bytes@.subrange(start as int, index + 1)) + lines_of(bytes@.skip(index + 1)) =~= before + lines_of(rest));
            }
            start = index + 1;
        }
        index = index + 1;
    }
    if start < bytes.len() {
        let ghost rest = bytes@.skip(start as int);
        proof {
            assert forall|j: int| 0 <= j < rest.len() implies rest[j] != 10 by {
                assert(rest[j] == bytes@[start + j]);
            }
            lemma_first_line_len_no_newline(rest);
            assert(rest.take(rest.len() as int) =~= rest);
            assert(rest.skip(rest.len() as int) =~= Seq::<u8>::empty());
            assert(lines_of(Seq::<u8>::empty()) =~= Seq::<Seq<u8>>::empty());
            assert(lines_of(rest) =~= seq![rest]);
        }
        let line = vstd::slice::slice_to_vec(vstd::slice::slice_subrange(bytes, start, bytes.len()));
        lines.push(line);
        assert(lines@.map_values(|l: Vec<u8>| l@) =~= lines_of(bytes@));
    } else {
        assert(bytes@.skip(start as int) =~= Seq::<u8>::empty());
        assert(lines@.map_values(|l: Vec<u8>| l@) =~= lines_of(bytes@));
    }
    lines
}

/// Whether one of the first `BINARY_SNIFF_LEN` bytes of `bytes` is NUL.
pub fn is_binary(bytes: &[u8]) -> (b: bool)
    ensures
        b == binary_content(bytes@),
{
    let mut i: usize = 0;
    while i < bytes.len() && i < BINARY_SNIFF_LEN
        invariant
            i <= bytes.len(),
            i <= BINARY_SNIFF_LEN,
            forall|j: int| 0 <= j < i ==> bytes@[j] != 0,
        decreases bytes.len() - i,
    {
        if bytes[i] == 0 {
            return true;
        }
        i = i + 1;
    }
    false
}

/// Counts of whole contents: every line of `new` added and every line of `old`
/// removed, and whether either is binary; binary content has no counts.
pub open spec fn whole_counts(old: Seq<u8>, new: Seq<u8>) -> (nat, nat, bool) {
    if binary_content(old) || binary_content(new) {
        (0, 0, true)
    } else {
        (lines_of(new).len(), lines_of(old).len(), false)
    }
}

/// Counts every line of `new` as added and every line of `old` as removed; binary
/// content has no counts.
pub fn whole_line_counts(old: &[u8], new: &[u8]) -> (r: (usize, usize, bool))
    ensures
        r.0 == whole_counts(old@, new@).0,
        r.1 == whole_counts(old@, new@).1,
        r.2 == whole_counts(old@, new@).2,
{
    if is_binary(old) || is_binary(new) {
        return (0, 0, true);
    }
    let old_lines = byte_lines(old);
    let new_lines = byte_lines(new);
    proof {
        assert(old_lines@.map_values(|l: Vec<u8>| l@).len() == old_lines@.len());
        assert(new_lines@.map_values(|l: Vec<u8>| l@).len() == new_lines@.len());
    }
    (new_lines.len(), old_lines.len(), false)
}

} // verus!
