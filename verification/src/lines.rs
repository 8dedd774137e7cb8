//! Lines of UTF-8 text: how the bytes of a source relate to the characters of
//! the lines it is read in.

use crate::bufread::{lemma_line_len, lemma_line_len_unique, line_len, Cursor, NEWLINE};
use crate::errors::ErrorKind;
use vstd::prelude::*;
use vstd::utf8::{
    decode_first_scalar, decode_utf8, decode_utf8_first_scalar, decode_utf8_split, encode_scalar,
    is_char_boundary_iff_not_is_continuation_byte, pop_first_scalar, take_first_scalar,
    valid_utf8, valid_utf8_concat, valid_utf8_split,
};

verus! {

/// The first line of `bytes`, newline included.
pub open spec fn first_line(bytes: Seq<u8>) -> Seq<u8> {
    bytes.take(line_len(bytes) as int)
}

/// What follows the first line of `bytes`.
pub open spec fn after_line(bytes: Seq<u8>) -> Seq<u8> {
    bytes.skip(line_len(bytes) as int)
}

/// The number of lines that `bytes` fall into.
pub open spec fn line_count(bytes: Seq<u8>) -> nat
    decreases bytes.len(),
    via line_count_decreases
{
    if bytes.len() == 0 {
        0
    } else {
        1 + line_count(after_line(bytes))
    }
}

#[via_fn]
proof fn line_count_decreases(bytes: Seq<u8>) {
    lemma_line_len(bytes);
}

/// The first line of a source that holds a newline does not depend on what
/// follows the source.
pub proof fn lemma_first_line_prefix(good: Seq<u8>, bad: Seq<u8>)
    requires
        good.len() > 0,
        good.last() == NEWLINE,
    ensures
        first_line(good + bad) == first_line(good),
        after_line(good + bad) == after_line(good) + bad,
        after_line(good).len() < good.len(),
        after_line(good).len() > 0 ==> after_line(good).last() == NEWLINE,
{
    lemma_line_len(good);
    let n = line_len(good);
    assert(good.contains(NEWLINE));
    assert(n > 0 && good[n - 1] == NEWLINE) by {
        good.index_of_first_ensures(NEWLINE);
    }
    assert((good + bad)[n - 1] == NEWLINE);
    lemma_line_len_unique(good + bad, n);
    assert(first_line(good + bad) =~= first_line(good));
    assert(after_line(good + bad) =~= after_line(good) + bad);
}

/// The text that `bytes` encode begins with a newline exactly where `bytes`
/// begin with the newline byte, which then stands for that character alone.
pub proof fn lemma_newline_first(bytes: Seq<u8>)
    requires
        valid_utf8(bytes),
        bytes.len() > 0,
    ensures
        decode_utf8(bytes).len() > 0,
        decode_utf8(bytes) == seq![decode_utf8(bytes)[0]] + decode_utf8(pop_first_scalar(bytes)),
        valid_utf8(pop_first_scalar(bytes)),
        pop_first_scalar(bytes).len() < bytes.len(),
        (decode_utf8(bytes)[0] == '\n') == (bytes[0] == NEWLINE),
        bytes[0] == NEWLINE ==> pop_first_scalar(bytes) == bytes.skip(1),
{
    decode_utf8_first_scalar(bytes);
    let c = decode_first_scalar(bytes) as char;
    assert(decode_utf8(bytes)[0] == c);
    assert((10u32 & 0x7F) as u8 == 10u8) by (bit_vector);
    assert((10u8 & 0x7F) as u32 == 10u32) by (bit_vector);
    if c == '\n' {
        assert(c as u32 == 10u32);
        assert(encode_scalar(10u32) == seq![10u8]);
        assert(take_first_scalar(bytes)[0] == 10u8);
    }
    if bytes[0] == NEWLINE {
        assert(decode_first_scalar(bytes) == 10u32);
        assert(pop_first_scalar(bytes) =~= bytes.skip(1));
    }
}

/// Text whose bytes hold no newline byte holds no newline.
pub proof fn lemma_no_newline(bytes: Seq<u8>)
    requires
        valid_utf8(bytes),
        forall|i: int| 0 <= i < bytes.len() ==> bytes[i] != NEWLINE,
    ensures
        forall|j: int| 0 <= j < decode_utf8(bytes).len() ==> decode_utf8(bytes)[j] != '\n',
    decreases bytes.len(),
{
    if bytes.len() > 0 {
        lemma_newline_first(bytes);
        lemma_no_newline(pop_first_scalar(bytes));
    }
}

/// A source of valid UTF-8 falls into a first line of valid UTF-8 and a rest
/// of valid UTF-8, and its text into the text of the one and of the other.
/// The line holds no newline before its last character, and ends in one
/// wherever anything follows it.
pub proof fn lemma_split_line(bytes: Seq<u8>)
    requires
        valid_utf8(bytes),
    ensures
        valid_utf8(first_line(bytes)),
        valid_utf8(after_line(bytes)),
        decode_utf8(bytes) == decode_utf8(first_line(bytes)) + decode_utf8(after_line(bytes)),
        forall|j: int|
            0 <= j < decode_utf8(first_line(bytes)).len() - 1 ==> decode_utf8(
                first_line(bytes),
            )[j] != '\n',
        after_line(bytes).len() > 0 ==> decode_utf8(first_line(bytes)).len() > 0 && decode_utf8(
            first_line(bytes),
        ).last() == '\n',
        bytes.len() > 0 ==> decode_utf8(first_line(bytes)).len() > 0,
{
    lemma_line_len(bytes);
    let n = line_len(bytes) as int;
    let first = first_line(bytes);
    let after = after_line(bytes);
    if n > 0 && bytes[n - 1] == NEWLINE {
        let i = n - 1;
        let head = bytes.subrange(0, i);
        let tail = bytes.subrange(i, bytes.len() as int);
        is_char_boundary_iff_not_is_continuation_byte(bytes, i);
        valid_utf8_split(bytes, i);
        decode_utf8_split(bytes, i);
        lemma_newline_first(tail);
        assert(tail.skip(1) =~= after);
        lemma_no_newline(head);
        let nl = seq![NEWLINE];
        assert(valid_utf8(nl)) by {
            assert(nl =~= tail.take(1));
            assert(pop_first_scalar(nl) =~= Seq::<u8>::empty());
            reveal_with_fuel(valid_utf8, 2);
        }
        lemma_newline_first(nl);
        assert(decode_utf8(nl) =~= seq!['\n']) by {
            assert(pop_first_scalar(nl) =~= Seq::<u8>::empty());
        }
        valid_utf8_concat(head, nl);
        assert(head + nl =~= first);
        is_char_boundary_iff_not_is_continuation_byte(first, i);
        decode_utf8_split(first, i);
        assert(first.subrange(0, i) =~= head);
        assert(first.subrange(i, first.len() as int) =~= nl);
        assert(decode_utf8(first) =~= decode_utf8(head) + seq!['\n']);
        assert(decode_utf8(tail) =~= seq!['\n'] + decode_utf8(after));
        assert(decode_utf8(bytes) =~= decode_utf8(first) + decode_utf8(after));
    } else {
        assert(first =~= bytes);
        assert(after =~= Seq::<u8>::empty());
        lemma_no_newline(bytes);
        assert(decode_utf8(bytes) =~= decode_utf8(first) + decode_utf8(after));
        if bytes.len() > 0 {
            lemma_newline_first(bytes);
        }
    }
}

/// The converse of [`lemma_split_line`]: a first line of valid UTF-8 before a
/// rest of valid UTF-8 makes a source of valid UTF-8.
pub proof fn lemma_join_line(bytes: Seq<u8>)
    requires
        valid_utf8(first_line(bytes)),
        valid_utf8(after_line(bytes)),
    ensures
        valid_utf8(bytes),
{
    lemma_line_len(bytes);
    valid_utf8_concat(first_line(bytes), after_line(bytes));
    assert(first_line(bytes) + after_line(bytes) =~= bytes);
}

/// The characters of the current line behind the cursor.
pub open spec fn ahead(c: Cursor) -> Seq<char> {
    if c.column + 1 <= c.buf.len() {
        c.buf.skip(c.column as int + 1)
    } else {
        Seq::empty()
    }
}

/// The text that is still to come: what is left of the current line, and
/// what the unread bytes of the source encode.
pub open spec fn pending(c: Cursor) -> Seq<char> {
    ahead(c) + decode_utf8(c.rest)
}

/// The buffer holds a line: no newline but at its end, and one there unless
/// the source ends with the line.
pub open spec fn lined(c: Cursor) -> bool {
    &&& c.wf()
    &&& forall|j: int| 0 <= j < c.buf.len() - 1 ==> c.buf[j] != '\n'
    &&& c.rest.len() > 0 && c.buf.len() > 0 ==> c.buf.last() == '\n'
}

/// The cursor reads text: its buffer holds a line, what is left of the
/// source is valid UTF-8, and the source ends without a failure.
pub open spec fn textual(c: Cursor) -> bool {
    lined(c) && valid_utf8(c.rest) && c.failure is None
}

/// A fresh cursor over valid UTF-8 reads text, and all of it is still to
/// come.
pub proof fn lemma_start(input: Seq<u8>)
    requires
        valid_utf8(input),
    ensures
        textual(Cursor::start(input)),
        pending(Cursor::start(input)) == decode_utf8(input),
{
    assert(pending(Cursor::start(input)) =~= decode_utf8(input));
}

/// One step through text hands out the first character that is still to
/// come and leaves the others; at the end of the text it hands out none. The
/// step stays in the line, one column on, unless the cursor stood at the
/// line's end: then it begins the next line.
pub proof fn lemma_step(c: Cursor)
    requires
        textual(c),
    ensures
        textual(c.advance()),
        pending(c).len() > 0 ==> {
            &&& c.advance_result() == Ok::<Option<char>, ErrorKind>(Some(pending(c)[0]))
            &&& pending(c.advance()) == pending(c).skip(1)
            &&& c.advance().column < c.advance().buf.len()
            &&& c.advance().buf[c.advance().column as int] == pending(c)[0]
        },
        pending(c).len() == 0 ==> {
            &&& c.advance_result() == Ok::<Option<char>, ErrorKind>(None)
            &&& pending(c.advance()).len() == 0
        },
        c.peek() is Some ==> c.advance().line == c.line && c.advance().column == c.column + 1,
        c.peek() is None ==> c.advance().line == c.line + 1 && c.advance().column == 0,
{
    if c.peek() is Some {
        assert(ahead(c) =~= seq![c.buf[c.column as int + 1]] + ahead(c.advance()));
        assert(pending(c.advance()) =~= pending(c).skip(1));
    } else {
        lemma_split_line(c.rest);
        lemma_line_len(c.rest);
        assert(ahead(c) =~= Seq::<char>::empty());
        assert(pending(c) =~= decode_utf8(c.rest));
        let d = c.advance();
        if c.rest.len() > 0 {
            assert(ahead(d) =~= d.buf.skip(1));
            assert(pending(d) =~= pending(c).skip(1));
        } else {
            assert(c.next_line() =~= Seq::<u8>::empty());
            assert(d.rest =~= Seq::<u8>::empty());
        }
    }
}

/// The lookahead of a cursor that stands at a character of text: the first
/// character still to come, unless the cursor stands at a newline or at the
/// end of the text.
pub proof fn lemma_peek(c: Cursor)
    requires
        textual(c),
        c.column < c.buf.len(),
    ensures
        c.peek() == if c.buf[c.column as int] == '\n' || pending(c).len() == 0 {
            None
        } else {
            Some(pending(c)[0])
        },
{
    if c.column + 1 < c.buf.len() {
        assert(pending(c)[0] == c.buf[c.column as int + 1]);
    } else {
        assert(ahead(c) =~= Seq::<char>::empty());
        if c.rest.len() > 0 {
            assert(c.buf.last() == '\n');
        }
    }
}

} // verus!
