use gdl::hunks::diff_counts;
use gdl::lines::{byte_lines, is_binary, whole_line_counts, BINARY_SNIFF_LEN};

#[test]
fn byte_lines_keep_line_endings() {
    assert_eq!(byte_lines(b"a\r\nb\nc"), vec![b"a\r\n".to_vec(), b"b\n".to_vec(), b"c".to_vec()]);
    assert_eq!(byte_lines(b""), Vec::<Vec<u8>>::new());
    assert_eq!(byte_lines(b"\n\n"), vec![b"\n".to_vec(), b"\n".to_vec()]);
}

#[test]
fn binary_is_a_nul_within_the_sniffed_prefix() {
    assert!(!is_binary(b"plain text\n"));
    assert!(is_binary(b"a\0b"));
    let mut late = vec![b'x'; BINARY_SNIFF_LEN];
    late.push(0);
    assert!(!is_binary(&late));
    let mut edge = vec![b'x'; BINARY_SNIFF_LEN - 1];
    edge.push(0);
    assert!(is_binary(&edge));
}

#[test]
fn whole_counts_are_all_lines_of_each_side() {
    assert_eq!(whole_line_counts(b"a\nb\n", b"a\nb\n"), (2, 2, false));
    assert_eq!(whole_line_counts(b"", b"x"), (1, 0, false));
    assert_eq!(whole_line_counts(b"\0", b"x"), (0, 0, true));
}

#[test]
fn counts_are_the_lines_of_the_hunks() {
    assert_eq!(diff_counts(b"hello\n", b"hello\nchanged\n"), (1, 0, false));
    assert_eq!(diff_counts(b"a\nb\nc\n", b"a\nx\nc\ny\n"), (2, 1, false));
    assert_eq!(diff_counts(b"x\0", b"y"), (0, 0, true));
}

#[test]
fn identical_text_has_no_counts() {
    assert_eq!(diff_counts(b"same\nlines\n", b"same\nlines\n"), (0, 0, false));
}

#[test]
fn counts_balance_to_the_change_in_line_count() {
    let old: &[u8] = b"1\n2\n3\n4\n";
    let new: &[u8] = b"2\n9\n4\n5\n6\n";
    let (added, removed, _) = diff_counts(old, new);
    assert_eq!(added as i64 - removed as i64, byte_lines(new).len() as i64 - byte_lines(old).len() as i64);
}

#[test]
fn created_and_removed_text_count_every_line() {
    assert_eq!(diff_counts(b"", b"one\ntwo\nthree"), (3, 0, false));
    assert_eq!(diff_counts(b"one\ntwo\nthree", b""), (0, 3, false));
}

#[test]
fn lines_rejoin_to_the_content() {
    for content in [&b"a\r\nb\n\nc"[..], b"", b"\n", b"no newline", b"x\ny\n"] {
        let lines = byte_lines(content);
        assert_eq!(lines.concat(), content.to_vec());
        for (i, line) in lines.iter().enumerate() {
            assert!(!line.is_empty());
            assert!(!line[..line.len() - 1].contains(&b'\n'));
            if i + 1 < lines.len() {
                assert_eq!(line.last(), Some(&b'\n'));
            }
        }
    }
}

#[test]
fn line_count_is_newlines_plus_unterminated_tail() {
    let cases: [(&[u8], usize); 6] =
        [(b"", 0), (b"a", 1), (b"a\n", 1), (b"a\nb", 2), (b"\n\n\n", 3), (b"x\r\ny\r\nz", 3)];
    for (content, expected) in cases {
        let newlines = content.iter().filter(|b| **b == b'\n').count();
        let tail = usize::from(!content.is_empty() && content[content.len() - 1] != b'\n');
        assert_eq!(byte_lines(content).len(), expected);
        assert_eq!(byte_lines(content).len(), newlines + tail);
    }
}
