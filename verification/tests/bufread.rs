use texlex::bufread::BufReadIter;
use texlex::errors::ErrorKind;

#[test]
fn fresh_buffer_stands_before_the_first_line() {
    let buf = BufReadIter::new("ab".as_bytes());
    assert_eq!(buf.line(), 0);
    assert_eq!(buf.column(), 0);
    assert_eq!(buf.peek(), None);
}

#[test]
fn next_hands_out_characters_with_their_positions() {
    let mut buf = BufReadIter::new("ab\ncd".as_bytes());
    assert_eq!(buf.next().unwrap(), Some('a'));
    assert_eq!((buf.line(), buf.column()), (1, 0));
    assert_eq!(buf.next().unwrap(), Some('b'));
    assert_eq!((buf.line(), buf.column()), (1, 1));
    assert_eq!(buf.next().unwrap(), Some('\n'));
    assert_eq!((buf.line(), buf.column()), (1, 2));
    assert_eq!(buf.next().unwrap(), Some('c'));
    assert_eq!((buf.line(), buf.column()), (2, 0));
    assert_eq!(buf.next().unwrap(), Some('d'));
    assert_eq!((buf.line(), buf.column()), (2, 1));
    assert_eq!(buf.next().unwrap(), None);
    assert_eq!((buf.line(), buf.column()), (3, 0));
}

#[test]
fn every_read_at_the_end_counts_as_a_line() {
    let mut buf = BufReadIter::new("".as_bytes());
    assert_eq!(buf.next().unwrap(), None);
    assert_eq!(buf.line(), 1);
    assert_eq!(buf.next().unwrap(), None);
    assert_eq!(buf.line(), 2);
    assert_eq!(buf.column(), 0);
}

#[test]
fn peek_looks_one_character_ahead_without_advancing() {
    let mut buf = BufReadIter::new("ab".as_bytes());
    assert_eq!(buf.next().unwrap(), Some('a'));
    assert_eq!(buf.peek(), Some(&'b'));
    assert_eq!(buf.peek(), Some(&'b'));
    assert_eq!(buf.column(), 0);
    assert_eq!(buf.next().unwrap(), Some('b'));
    assert_eq!(buf.peek(), None);
}

#[test]
fn peek_does_not_cross_a_line_boundary() {
    let mut buf = BufReadIter::new("a\nb".as_bytes());
    assert_eq!(buf.next().unwrap(), Some('a'));
    assert_eq!(buf.peek(), Some(&'\n'));
    assert_eq!(buf.next().unwrap(), Some('\n'));
    assert_eq!(buf.peek(), None);
    assert_eq!(buf.line(), 1);
    assert_eq!(buf.next().unwrap(), Some('b'));
    assert_eq!(buf.line(), 2);
}

#[test]
fn expect_next_turns_the_end_into_an_error() {
    let mut buf = BufReadIter::new("a".as_bytes());
    assert_eq!(buf.expect_next().unwrap(), 'a');
    assert_eq!(buf.expect_next().unwrap_err().kind(), ErrorKind::EndOfInput);
}

#[test]
fn characters_of_several_bytes_are_one_column_each() {
    let mut buf = BufReadIter::new("é€𝄞x".as_bytes());
    assert_eq!(buf.next().unwrap(), Some('é'));
    assert_eq!(buf.next().unwrap(), Some('€'));
    assert_eq!(buf.next().unwrap(), Some('𝄞'));
    assert_eq!(buf.column(), 2);
    assert_eq!(buf.peek(), Some(&'x'));
    assert_eq!(buf.next().unwrap(), Some('x'));
    assert_eq!(buf.column(), 3);
    assert_eq!(buf.next().unwrap(), None);
}

#[test]
fn invalid_line_is_reported_with_its_number() {
    let mut buf = BufReadIter::new(b"ok\n\xff\nmore");
    assert_eq!(buf.next().unwrap(), Some('o'));
    assert_eq!(buf.next().unwrap(), Some('k'));
    assert_eq!(buf.next().unwrap(), Some('\n'));
    assert_eq!(buf.next().unwrap_err().kind(), ErrorKind::Unicode(2));
    assert_eq!(buf.line(), 2);
    assert_eq!(buf.column(), 0);
}

#[test]
fn invalid_line_ends_the_stream() {
    let mut buf = BufReadIter::new(b"\xff\nmore");
    assert_eq!(buf.next().unwrap_err().kind(), ErrorKind::Unicode(1));
    assert_eq!(buf.peek(), None);
    assert_eq!(buf.next().unwrap(), None);
    assert_eq!(buf.next().unwrap(), None);
}

#[test]
fn truncated_character_at_the_end_is_invalid() {
    let mut buf = BufReadIter::new(b"a\n\xe2\x82");
    assert_eq!(buf.next().unwrap(), Some('a'));
    assert_eq!(buf.next().unwrap(), Some('\n'));
    assert_eq!(buf.next().unwrap_err().kind(), ErrorKind::Unicode(2));
}

#[test]
fn a_line_is_checked_as_a_whole_before_any_of_it_is_handed_out() {
    let mut buf = BufReadIter::new(b"ab\xffcd\n");
    assert_eq!(buf.next().unwrap_err().kind(), ErrorKind::Unicode(1));
}

#[test]
fn carriage_return_is_a_character_like_any_other() {
    let mut buf = BufReadIter::new("a\r\nb".as_bytes());
    assert_eq!(buf.next().unwrap(), Some('a'));
    assert_eq!(buf.next().unwrap(), Some('\r'));
    assert_eq!(buf.next().unwrap(), Some('\n'));
    assert_eq!(buf.line(), 1);
    assert_eq!(buf.next().unwrap(), Some('b'));
    assert_eq!(buf.line(), 2);
}

#[test]
fn failed_read_is_reported_after_the_lines_that_were_read() {
    let mut buf = BufReadIter::with_failure("a\n".as_bytes(), false);
    assert_eq!(buf.next().unwrap(), Some('a'));
    assert_eq!(buf.next().unwrap(), Some('\n'));
    assert_eq!(buf.next().unwrap_err().kind(), ErrorKind::Io(2));
    assert_eq!(buf.line(), 2);
    assert_eq!(buf.column(), 0);
}

#[test]
fn failed_read_of_invalid_data_is_reported_as_invalid_text() {
    let mut buf = BufReadIter::with_failure("a".as_bytes(), true);
    assert_eq!(buf.next().unwrap(), Some('a'));
    assert_eq!(buf.next().unwrap_err().kind(), ErrorKind::Unicode(2));
}

#[test]
fn failed_read_of_the_first_line() {
    let mut buf = BufReadIter::with_failure(b"", false);
    assert_eq!(buf.next().unwrap_err().kind(), ErrorKind::Io(1));
    let mut buf = BufReadIter::with_failure(b"", false);
    assert_eq!(buf.expect_next().unwrap_err().kind(), ErrorKind::Io(1));
}

#[test]
fn failed_read_ends_the_stream() {
    let mut buf = BufReadIter::with_failure(b"", false);
    assert_eq!(buf.next().unwrap_err().kind(), ErrorKind::Io(1));
    assert_eq!(buf.next().unwrap(), None);
    assert_eq!(buf.line(), 2);
}

#[test]
fn invalid_line_comes_before_a_later_failure() {
    let mut buf = BufReadIter::with_failure(b"\xff\nab\n", false);
    assert_eq!(buf.next().unwrap_err().kind(), ErrorKind::Unicode(1));
    assert_eq!(buf.next().unwrap(), None);
}
