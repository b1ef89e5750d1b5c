use sandworm::grid::{find_mark, find_start, pad_lines, split_lines, widest_line};
use sandworm::parse;

fn std_lines(source: &str) -> Vec<Vec<u8>> {
    source.lines().map(|line| line.as_bytes().to_vec()).collect()
}

#[test]
fn rows_are_padded_to_the_longest_line() {
    let (grid, start) = parse("ab\n@\ncdef\n");
    assert_eq!(grid, vec![vec![b'a', b'b', 0, 0], vec![b'@', 0, 0, 0], b"cdef".to_vec()]);
    assert_eq!(start, (0, 1));
}

#[test]
fn every_row_has_the_same_length() {
    let (grid, _) = parse("1\n22\n333\n4444\n55555\n\n1");
    assert_eq!(grid.len(), 7);
    for row in &grid {
        assert_eq!(row.len(), 5);
    }
    assert_eq!(grid[5], vec![0; 5]);
    assert_eq!(grid[2], vec![b'3', b'3', b'3', 0, 0]);
}

#[test]
fn last_line_with_a_mark_wins() {
    let (_, start) = parse("a@\n@b@\nccc");
    assert_eq!(start, (0, 1));
}

#[test]
fn first_mark_of_a_line_is_taken() {
    let (_, start) = parse("..@.@");
    assert_eq!(start, (2, 0));
}

#[test]
fn start_defaults_to_the_corner() {
    let (_, start) = parse("abc\ndef");
    assert_eq!(start, (0, 0));
}

#[test]
fn empty_source_has_no_rows() {
    let (grid, start) = parse("");
    assert!(grid.is_empty());
    assert_eq!(start, (0, 0));
}

#[test]
fn lines_split_as_the_standard_library_splits_them() {
    for source in [
        "",
        "a",
        "a\n",
        "a\n\n",
        "\n",
        "\n\na",
        "a\r\nb",
        "a\r\n",
        "a\r",
        "a\rb\n",
        "\r\n\r\n",
        "a\r\r\nb",
        "line one\nline two\r\nline three",
        "h\u{e9}llo\nw\u{f6}rld\n",
    ] {
        assert_eq!(split_lines(source.as_bytes()), std_lines(source), "source {:?}", source);
    }
}

#[test]
fn carriage_return_before_newline_is_dropped() {
    assert_eq!(split_lines(b"ab\r\ncd"), vec![b"ab".to_vec(), b"cd".to_vec()]);
    assert_eq!(split_lines(b"ab\rcd"), vec![b"ab\rcd".to_vec()]);
    assert_eq!(split_lines(b"ab\r"), vec![b"ab\r".to_vec()]);
}

#[test]
fn widest_line_is_the_maximum() {
    assert_eq!(widest_line(&vec![b"a".to_vec(), b"abc".to_vec(), b"ab".to_vec()]), 3);
    assert_eq!(widest_line(&Vec::new()), 0);
}

#[test]
fn find_mark_gives_the_first_index() {
    assert_eq!(find_mark(&b"ab@c@".to_vec()), Some(2));
    assert_eq!(find_mark(&b"abc".to_vec()), None);
    assert_eq!(find_mark(&Vec::new()), None);
}

#[test]
fn find_start_scans_all_lines() {
    let lines = vec![b"@".to_vec(), b"..".to_vec(), b".@".to_vec(), b"".to_vec()];
    assert_eq!(find_start(&lines), (1, 2));
}

#[test]
fn pad_lines_fills_with_null_bytes() {
    let mut lines = vec![b"a".to_vec(), b"abc".to_vec(), Vec::new()];
    pad_lines(&mut lines, 3);
    assert_eq!(lines, vec![vec![b'a', 0, 0], b"abc".to_vec(), vec![0, 0, 0]]);
}

#[test]
fn multibyte_characters_count_by_their_bytes() {
    let (grid, start) = parse("\u{e9}@\nab");
    assert_eq!(grid, vec![vec![0xc3, 0xa9, b'@'], vec![b'a', b'b', 0]]);
    assert_eq!(start, (2, 0));
}
