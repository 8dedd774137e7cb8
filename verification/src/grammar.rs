//! The grammar read as text: what the tokenizer makes of the characters that
//! are still to come, whatever lines they stand in.

use crate::bufread::{lemma_line_len, Cursor, NEWLINE};
use crate::errors::ErrorKind;
use crate::lines::{
    after_line, ahead, first_line, lemma_first_line_prefix, lemma_join_line, lemma_peek,
    lemma_split_line, lemma_step, line_count, pending, textual,
};
use crate::text::alphanumeric;
use crate::tokenize::{
    alnum_run, escaped, ident_end, ident_name, lemma_alnum_run, lemma_alnum_run_unique,
    lemma_ident_end, lemma_next_token, lex, next_token, verbatim, verbatim_span, Lexeme,
};
use vstd::prelude::*;
use vstd::utf8::{decode_utf8, valid_utf8};

verus! {

/// The token that a character is outside every escape, command and verbatim
/// span.
pub open spec fn plain(c: char) -> Lexeme {
    if c == '{' {
        Lexeme::BeginGroup
    } else if c == '}' {
        Lexeme::EndGroup
    } else {
        Lexeme::Char(c)
    }
}

/// The tokens of a text that holds no backslash: one for each character.
pub open spec fn plain_tokens(text: Seq<char>) -> Seq<Lexeme> {
    text.map_values(|c: char| plain(c))
}

/// No character of `text` is a backslash.
pub open spec fn no_backslash(text: Seq<char>) -> bool {
    forall|i: int| 0 <= i < text.len() ==> text[i] != '\\'
}

/// From any cursor before text without a backslash, lexing yields one token
/// for each character that is still to come, in order.
pub proof fn lemma_lex_plain(c: Cursor)
    requires
        textual(c),
        no_backslash(pending(c)),
    ensures
        lex(c) == Ok::<Seq<Lexeme>, ErrorKind>(plain_tokens(pending(c))),
    decreases pending(c).len(),
{
    lemma_step(c);
    if pending(c).len() > 0 {
        let d = c.advance();
        assert forall|i: int| 0 <= i < pending(d).len() implies pending(d)[i] != '\\' by {
            assert(pending(d)[i] == pending(c)[i + 1]);
        }
        lemma_lex_plain(d);
        assert(seq![plain(pending(c)[0])] + plain_tokens(pending(d)) =~= plain_tokens(
            pending(c),
        ));
    } else {
        assert(plain_tokens(pending(c)) =~= Seq::<Lexeme>::empty());
    }
}

/// The identifier that begins at the cursor, in terms of the text: it takes
/// the alphanumeric characters that the text to come begins with, all of
/// which stand in the current line.
pub proof fn lemma_ident_text(e: Cursor)
    requires
        textual(e),
        e.column < e.buf.len(),
        alphanumeric(e.buf[e.column as int]),
    ensures
        alnum_run(e.buf, e.column as int + 1) == alnum_run(pending(e), 0),
        ident_name(e) == seq![e.buf[e.column as int]] + pending(e).take(
            alnum_run(pending(e), 0) as int,
        ),
        alnum_run(pending(e), 0) <= pending(e).len(),
        textual(ident_end(e)),
        pending(ident_end(e)) == pending(e).skip(alnum_run(pending(e), 0) as int),
        ident_end(e).column < e.buf.len(),
    decreases e.buf.len() - e.column,
{
    let p = pending(e);
    let k = alnum_run(p, 0);
    lemma_peek(e);
    lemma_step(e);
    if p.len() > 0 && alphanumeric(p[0]) {
        let d = e.advance();
        lemma_ident_text(d);
        let q = pending(d);
        let m = alnum_run(q, 0);
        lemma_alnum_run(q, 0);
        assert(alnum_run(p, 0) == m + 1) by {
            assert forall|i: int| 0 <= i < m + 1 implies alphanumeric(#[trigger] p[i]) by {
                if i > 0 {
                    assert(p[i] == q[i - 1]);
                }
            }
            if m + 1 < p.len() {
                assert(p[m as int + 1] == q[m as int]);
            }
            lemma_alnum_run_unique(p, 0, (m + 1) as nat);
        }
        assert(ident_end(e) == ident_end(d));
        assert(ident_name(e) =~= seq![e.buf[e.column as int]] + ident_name(d));
        assert(ident_name(e) =~= seq![e.buf[e.column as int]] + p.take(k as int));
        assert(q.skip(m as int) =~= p.skip(k as int));
    } else {
        assert(ident_end(e) == e);
        assert(ident_name(e) =~= seq![e.buf[e.column as int]] + p.take(0));
        assert(p.skip(0) =~= p);
    }
}

/// A run of alphanumeric characters does not depend on what stands before
/// it.
pub proof fn lemma_alnum_run_skip(text: Seq<char>, from: int)
    requires
        0 <= from <= text.len(),
    ensures
        alnum_run(text, from) == alnum_run(text.skip(from), 0),
{
    let q = text.skip(from);
    let k = alnum_run(q, 0);
    lemma_alnum_run(q, 0);
    assert forall|i: int| from <= i < from + k implies alphanumeric(#[trigger] text[i]) by {
        assert(text[i] == q[i - from]);
    }
    if from + k < text.len() {
        assert(text[from + k] == q[k as int]);
    }
    lemma_alnum_run_unique(text, from, k);
}

/// The text `p` begins with the command word `verbatim`.
pub open spec fn begins_verbatim(p: Seq<char>) -> bool {
    &&& p.len() > 1
    &&& p[0] == '\\'
    &&& alphanumeric(p[1])
    &&& p.subrange(1, 2 + alnum_run(p, 2) as int) == "verbatim"@
}

/// The text `p` begins with a token that is no verbatim span: it is not
/// empty, and not a lone backslash.
pub open spec fn begins_token(p: Seq<char>) -> bool {
    &&& p.len() > 0
    &&& p[0] == '\\' ==> p.len() > 1 && !begins_verbatim(p)
}

/// The first token of the text `p`, where it begins with one that is no
/// verbatim span, and the number of characters that the token takes.
pub open spec fn first_token(p: Seq<char>) -> (Lexeme, nat) {
    if p[0] != '\\' {
        (plain(p[0]), 1)
    } else if p[1] == '\\' || p[1] == '{' || p[1] == '}' {
        (Lexeme::Char(p[1]), 2)
    } else if alphanumeric(p[1]) {
        (Lexeme::Command(p.subrange(1, 2 + alnum_run(p, 2) as int)), 2 + alnum_run(p, 2))
    } else {
        (Lexeme::Command(seq![p[1]]), 2)
    }
}

/// The cursor behind the identifier that follows the backslash which is the
/// next character of `c`.
pub open spec fn after_word(c: Cursor) -> Cursor {
    ident_end(c.advance().advance())
}

/// The identifier behind a backslash, in terms of the text: from the
/// cursor `d` at the backslash, it takes the alphanumeric characters that
/// the text to come begins with, and ends in the line of the backslash.
pub proof fn lemma_word_text(d: Cursor)
    requires
        textual(d),
        d.column < d.buf.len(),
        d.buf[d.column as int] == '\\',
        pending(d).len() > 0,
        alphanumeric(pending(d)[0]),
    ensures
        1 + alnum_run(pending(d), 1) <= pending(d).len(),
        ident_name(d.advance()) == pending(d).take(1 + alnum_run(pending(d), 1) as int),
        textual(ident_end(d.advance())),
        pending(ident_end(d.advance())) == pending(d).skip(1 + alnum_run(pending(d), 1) as int),
        ident_end(d.advance()).line == d.line,
        ident_end(d.advance()).column == d.column + 1 + alnum_run(pending(d), 1),
        ident_end(d.advance()).column < ident_end(d.advance()).buf.len(),
        ident_end(d.advance()).buf[ident_end(d.advance()).column as int] == pending(d)[alnum_run(
            pending(d),
            1,
        ) as int],
{
    let q = pending(d);
    let k = alnum_run(q, 1) as int;
    lemma_step(d);
    lemma_peek(d);
    let e = d.advance();
    lemma_ident_text(e);
    lemma_alnum_run_skip(q, 1);
    assert(ident_name(e) =~= q.take(1 + k));
    assert(pending(ident_end(e)) =~= q.skip(1 + k));
    assert(ident_end(e).buf[ident_end(e).column as int] == ident_name(e)[k]);
}

/// What follows a backslash, in terms of the text that is still to come
/// behind it.
pub proof fn lemma_escaped_text(d: Cursor)
    requires
        textual(d),
        d.column < d.buf.len(),
        d.buf[d.column as int] == '\\',
    ensures
        pending(d).len() == 0 ==> escaped(d).1 == Err::<Option<Lexeme>, ErrorKind>(
            ErrorKind::EndOfInput,
        ),
        pending(d).len() > 0 ==> {
            &&& textual(d.advance())
            &&& pending(d.advance()) == pending(d).skip(1)
            &&& escaped(d) == if pending(d)[0] == '\\' || pending(d)[0] == '{' || pending(d)[0]
                == '}' {
                (d.advance(), Ok::<Option<Lexeme>, ErrorKind>(Some(Lexeme::Char(pending(d)[0]))))
            } else if !alphanumeric(pending(d)[0]) {
                (
                    d.advance(),
                    Ok::<Option<Lexeme>, ErrorKind>(Some(Lexeme::Command(seq![pending(d)[0]]))),
                )
            } else if ident_name(d.advance()) == "verbatim"@ {
                verbatim_span(ident_end(d.advance()))
            } else {
                (
                    ident_end(d.advance()),
                    Ok::<Option<Lexeme>, ErrorKind>(
                        Some(Lexeme::Command(ident_name(d.advance()))),
                    ),
                )
            }
        },
{
    lemma_step(d);
}

/// The text behind a backslash, seen from before the backslash and from
/// behind it: the same characters, and the same run of alphanumeric ones.
proof fn lemma_behind_backslash(p: Seq<char>, q: Seq<char>)
    requires
        p.len() > 1,
        q == p.skip(1),
    ensures
        q[0] == p[1],
        q.skip(1) == p.skip(2),
        alnum_run(q, 1) == alnum_run(p, 2),
        1 + alnum_run(q, 1) <= q.len() ==> {
            &&& q.take(1 + alnum_run(q, 1) as int) == p.subrange(1, 2 + alnum_run(p, 2) as int)
            &&& q.skip(1 + alnum_run(q, 1) as int) == p.skip(2 + alnum_run(p, 2) as int)
        },
{
    assert(q.skip(1) =~= p.skip(2));
    lemma_alnum_run_skip(q, 1);
    lemma_alnum_run_skip(p, 2);
    let k = alnum_run(p, 2) as int;
    if 1 + k <= q.len() {
        assert(q.take(1 + k) =~= p.subrange(1, 2 + k));
        assert(q.skip(1 + k) =~= p.skip(2 + k));
    }
}

/// The next token, in terms of the text that is still to come: the grammar
/// reads the text as if it were one line. Nothing is left to read where the
/// text is empty, and a backslash that ends the text is an error.
pub proof fn lemma_token_text(c: Cursor)
    requires
        textual(c),
    ensures
        pending(c).len() == 0 ==> next_token(c).1 == Ok::<Option<Lexeme>, ErrorKind>(None),
        pending(c) == seq!['\\'] ==> next_token(c).1 == Err::<Option<Lexeme>, ErrorKind>(
            ErrorKind::EndOfInput,
        ),
        begins_token(pending(c)) ==> {
            &&& next_token(c).1 == Ok::<Option<Lexeme>, ErrorKind>(
                Some(first_token(pending(c)).0),
            )
            &&& first_token(pending(c)).1 <= pending(c).len()
            &&& textual(next_token(c).0)
            &&& pending(next_token(c).0) == pending(c).skip(first_token(pending(c)).1 as int)
        },
{
    let p = pending(c);
    lemma_step(c);
    let d = c.advance();
    if p.len() > 0 && p[0] == '\\' {
        let q = pending(d);
        lemma_escaped_text(d);
        if p.len() == 1 {
            assert(p =~= seq!['\\']);
        } else {
            lemma_behind_backslash(p, q);
            if alphanumeric(q[0]) {
                lemma_word_text(d);
            }
        }
    }
}

/// The command word `verbatim`, in terms of the text that is still to come:
/// the tokenizer reads it in the line of the backslash, and goes on to
/// capture a verbatim span from the `m` that ends it.
pub proof fn lemma_verbatim_word_text(c: Cursor)
    requires
        textual(c),
        begins_verbatim(pending(c)),
    ensures
        alnum_run(pending(c), 2) == 7,
        pending(c).len() >= 9,
        next_token(c) == verbatim_span(after_word(c)),
        textual(after_word(c)),
        pending(after_word(c)) == pending(c).skip(9),
        after_word(c).column < after_word(c).buf.len(),
        after_word(c).buf[after_word(c).column as int] == 'm',
        after_word(c).line == c.advance().line,
        after_word(c).column == c.advance().column + 8,
{
    let p = pending(c);
    lemma_step(c);
    let d = c.advance();
    let q = pending(d);
    lemma_escaped_text(d);
    lemma_behind_backslash(p, q);
    lemma_word_text(d);
    reveal_strlit("verbatim");
    let k = alnum_run(p, 2) as int;
    assert(p.subrange(1, 2 + k).len() == 8);
    assert(q[k] == p.subrange(1, 2 + k)[7]);
}

/// The text that a token other than a verbatim span is lexed from. A
/// verbatim span does not determine its source, which holds a delimiter that
/// the token does not: it counts for nothing here.
pub open spec fn source_of(t: Lexeme) -> Seq<char> {
    match t {
        Lexeme::BeginGroup => seq!['{'],
        Lexeme::EndGroup => seq!['}'],
        Lexeme::Char(c) => if c == '\\' || c == '{' || c == '}' {
            seq!['\\', c]
        } else {
            seq![c]
        },
        Lexeme::Command(name) => seq!['\\'] + name,
        Lexeme::Verbatim(_) => Seq::empty(),
    }
}

/// The text that a sequence of tokens is lexed from: the sources of the
/// tokens, one after the other.
pub open spec fn unlex(ts: Seq<Lexeme>) -> Seq<char>
    decreases ts.len(),
{
    if ts.len() == 0 {
        Seq::empty()
    } else {
        source_of(ts[0]) + unlex(ts.skip(1))
    }
}

/// None of the tokens `ts` is a verbatim span.
pub open spec fn no_verbatim(ts: Seq<Lexeme>) -> bool {
    forall|i: int| 0 <= i < ts.len() ==> !(ts[i] is Verbatim)
}

/// A token other than a verbatim span is the first token of the text that
/// was still to come, and the end of the source is the end of that text.
pub proof fn lemma_token_cases(c: Cursor)
    requires
        textual(c),
    ensures
        next_token(c).1 == Ok::<Option<Lexeme>, ErrorKind>(None) ==> pending(c).len() == 0,
        next_token(c).1 matches Ok(Some(t)) && !(t is Verbatim) ==> begins_token(pending(c)),
{
    let p = pending(c);
    lemma_token_text(c);
    if p.len() == 1 && p[0] == '\\' {
        assert(p =~= seq!['\\']);
    }
    if begins_verbatim(p) {
        lemma_verbatim_word_text(c);
    }
}

/// The first token of a text spells out the characters that it takes.
pub proof fn lemma_first_token_source(p: Seq<char>)
    requires
        begins_token(p),
        first_token(p).1 <= p.len(),
    ensures
        source_of(first_token(p).0) == p.take(first_token(p).1 as int),
{
    let n = first_token(p).1 as int;
    if p[0] != '\\' {
        assert(source_of(first_token(p).0) =~= p.take(n));
    } else if p[1] == '\\' || p[1] == '{' || p[1] == '}' {
        assert(source_of(first_token(p).0) =~= p.take(n));
    } else if alphanumeric(p[1]) {
        assert(source_of(first_token(p).0) =~= p.take(n));
    } else {
        assert(source_of(first_token(p).0) =~= p.take(n));
    }
}

/// The tokens of a source that lexes without an error: none at its end,
/// else the next token and the tokens behind it.
pub proof fn lemma_lex_tokens(c: Cursor, ts: Seq<Lexeme>)
    requires
        c.wf(),
        lex(c) == Ok::<Seq<Lexeme>, ErrorKind>(ts),
    ensures
        ts.len() == 0 ==> next_token(c).1 == Ok::<Option<Lexeme>, ErrorKind>(None),
        ts.len() > 0 ==> {
            &&& next_token(c).1 == Ok::<Option<Lexeme>, ErrorKind>(Some(ts[0]))
            &&& lex(next_token(c).0) == Ok::<Seq<Lexeme>, ErrorKind>(ts.skip(1))
        },
{
    lemma_next_token(c);
    if let Ok(Some(t)) = next_token(c).1 {
        if let Ok(more) = lex(next_token(c).0) {
            assert(ts =~= seq![t] + more);
            assert(ts.skip(1) =~= more);
        }
    }
}

/// From any cursor in text, tokens without a verbatim span spell out the
/// text that was still to come.
pub proof fn lemma_lex_text(c: Cursor, ts: Seq<Lexeme>)
    requires
        textual(c),
        lex(c) == Ok::<Seq<Lexeme>, ErrorKind>(ts),
        no_verbatim(ts),
    ensures
        unlex(ts) == pending(c),
    decreases ts.len(),
{
    let p = pending(c);
    lemma_lex_tokens(c, ts);
    lemma_token_cases(c);
    if ts.len() == 0 {
        assert(p =~= Seq::<char>::empty());
    } else {
        assert(!(ts[0] is Verbatim));
        lemma_token_text(c);
        lemma_first_token_source(p);
        let n = first_token(p).1 as int;
        lemma_lex_text(next_token(c).0, ts.skip(1));
        assert(p =~= p.take(n) + p.skip(n));
    }
}

/// A step that does not fail has read valid UTF-8: if what is left behind it
/// is valid, so is what was left before it.
pub proof fn lemma_advance_valid(c: Cursor)
    requires
        c.wf(),
        c.advance_result() is Ok,
        valid_utf8(c.advance().rest),
    ensures
        valid_utf8(c.rest),
{
    if c.peek() is None {
        lemma_join_line(c.rest);
    }
}

/// A verbatim span that closes has read valid UTF-8.
pub proof fn lemma_verbatim_valid(c: Cursor, delim: char, start: (usize, usize))
    requires
        c.wf(),
        verbatim(c, delim, start).1 is Ok,
        valid_utf8(verbatim(c, delim, start).0.rest),
    ensures
        valid_utf8(c.rest),
    decreases c.rest.len(), c.left(),
{
    c.lemma_advance();
    let d = c.advance();
    if let Ok(Some(ch)) = c.advance_result() {
        if ch != delim {
            lemma_verbatim_valid(d, delim, start);
        } else if d.peek() == Some(delim) {
            d.lemma_advance();
            lemma_verbatim_valid(d.advance(), delim, start);
            lemma_advance_valid(d);
        }
        lemma_advance_valid(c);
    }
}

/// A token has been read from valid UTF-8.
pub proof fn lemma_next_token_valid(c: Cursor)
    requires
        c.wf(),
        next_token(c).1 is Ok,
        valid_utf8(next_token(c).0.rest),
    ensures
        valid_utf8(c.rest),
{
    c.lemma_advance();
    let d = c.advance();
    if c.advance_result() == Ok::<Option<char>, ErrorKind>(Some('\\')) {
        d.lemma_advance();
        let e = d.advance();
        if let Ok(ch) = d.expect_result() {
            if ch != '\\' && ch != '{' && ch != '}' && alphanumeric(ch) {
                lemma_ident_end(e);
                let f = ident_end(e);
                if ident_name(e) == "verbatim"@ {
                    f.lemma_advance();
                    let g = f.advance();
                    if let Ok(delim) = f.expect_result() {
                        lemma_verbatim_valid(g, delim, (g.line as usize, g.column as usize));
                    }
                    lemma_advance_valid(f);
                }
            }
            lemma_advance_valid(d);
        }
    }
    lemma_advance_valid(c);
}

/// A source that lexes without an error is valid UTF-8.
pub proof fn lemma_lex_valid(c: Cursor)
    requires
        c.wf(),
        lex(c) is Ok,
    ensures
        valid_utf8(c.rest),
    decreases c.rest.len(), c.left(),
{
    lemma_next_token(c);
    let d = next_token(c).0;
    if next_token(c).1 matches Ok(Some(_)) {
        lemma_lex_valid(d);
    } else {
        assert(d.rest =~= Seq::<u8>::empty());
    }
    lemma_next_token_valid(c);
}

/// The text `run` is an identifier: it is not empty and all of its
/// characters are alphanumeric.
pub open spec fn is_identifier(run: Seq<char>) -> bool {
    &&& run.len() > 0
    &&& forall|i: int| 0 <= i < run.len() ==> alphanumeric(#[trigger] run[i])
}

/// The text `tail` cannot go on an identifier that stands before it: it is
/// empty or begins with a character that is not alphanumeric.
pub open spec fn ends_identifier(tail: Seq<char>) -> bool {
    tail.len() == 0 || !alphanumeric(tail[0])
}

/// The text `content` as it stands in a verbatim span with the delimiter
/// `delim`: each delimiter in it is doubled.
pub open spec fn doubled(content: Seq<char>, delim: char) -> Seq<char>
    decreases content.len(),
{
    if content.len() == 0 {
        Seq::empty()
    } else if content[0] == delim {
        seq![delim, delim] + doubled(content.skip(1), delim)
    } else {
        seq![content[0]] + doubled(content.skip(1), delim)
    }
}

/// The character `delim` can delimit a verbatim span that holds `content`.
/// Any character can, but for the newline: it ends its line, so that no
/// second one follows it there to double it, and it can only delimit text
/// that holds no newline.
pub open spec fn can_delimit(delim: char, content: Seq<char>) -> bool {
    delim == '\n' ==> forall|i: int| 0 <= i < content.len() ==> content[i] != '\n'
}

/// The text `tail` leaves a delimiter before it single: it is empty or
/// begins with another character. Behind a newline any text does, for it
/// begins a new line.
pub open spec fn leaves_single(delim: char, tail: Seq<char>) -> bool {
    tail.len() == 0 || tail[0] != delim || delim == '\n'
}

/// From a cursor at the opening delimiter, a verbatim span whose doubled
/// text and closing delimiter are still to come yields that text, and ends
/// at the closing delimiter.
pub proof fn lemma_verbatim_text(
    c: Cursor,
    delim: char,
    start: (usize, usize),
    content: Seq<char>,
    tail: Seq<char>,
)
    requires
        textual(c),
        pending(c) == doubled(content, delim) + seq![delim] + tail,
        can_delimit(delim, content),
        leaves_single(delim, tail),
    ensures
        verbatim(c, delim, start).1 == Ok::<Seq<char>, ErrorKind>(content),
        textual(verbatim(c, delim, start).0),
        pending(verbatim(c, delim, start).0) == tail,
    decreases content.len(),
{
    let p = pending(c);
    lemma_step(c);
    let d = c.advance();
    lemma_peek(d);
    if content.len() == 0 {
        assert(p =~= seq![delim] + tail);
        assert(pending(d) =~= tail);
        assert(content =~= Seq::<char>::empty());
    } else {
        let more = content.skip(1);
        assert(content =~= seq![content[0]] + more);
        if content[0] == delim {
            assert(p =~= seq![delim, delim] + (doubled(more, delim) + seq![delim] + tail));
            lemma_step(d);
            assert(pending(d.advance()) =~= doubled(more, delim) + seq![delim] + tail);
            lemma_verbatim_text(d.advance(), delim, start, more, tail);
        } else {
            assert(p =~= seq![content[0]] + (doubled(more, delim) + seq![delim] + tail));
            assert(pending(d) =~= doubled(more, delim) + seq![delim] + tail);
            lemma_verbatim_text(d, delim, start, more, tail);
        }
    }
}

/// From a cursor at the opening delimiter, a verbatim span whose doubled
/// text is all that is still to come is unclosed, and reported at `start`.
pub proof fn lemma_unclosed_text(
    c: Cursor,
    delim: char,
    start: (usize, usize),
    content: Seq<char>,
)
    requires
        textual(c),
        pending(c) == doubled(content, delim),
        can_delimit(delim, content),
    ensures
        verbatim(c, delim, start).1 == Err::<Seq<char>, ErrorKind>(
            ErrorKind::UnclosedVerbatim(start.0, start.1),
        ),
    decreases content.len(),
{
    let p = pending(c);
    lemma_step(c);
    let d = c.advance();
    if content.len() > 0 {
        lemma_peek(d);
        let more = content.skip(1);
        if content[0] == delim {
            assert(p =~= seq![delim, delim] + doubled(more, delim));
            lemma_step(d);
            assert(pending(d.advance()) =~= doubled(more, delim));
            lemma_unclosed_text(d.advance(), delim, start, more);
        } else {
            assert(p =~= seq![content[0]] + doubled(more, delim));
            assert(pending(d) =~= doubled(more, delim));
            lemma_unclosed_text(d, delim, start, more);
        }
    }
}

/// The text that opens a verbatim span with the delimiter `delim`: a
/// backslash, the command word, the delimiter.
pub open spec fn opening(delim: char) -> Seq<char> {
    seq!['\\'] + "verbatim"@ + seq![delim]
}

/// The character `delim` can open a verbatim span: it is not alphanumeric,
/// and so does not go on the command word.
pub open spec fn is_delimiter(delim: char) -> bool {
    !alphanumeric(delim)
}

/// Text that begins with the opening of a verbatim span begins with the
/// command word `verbatim`, and the delimiter follows it.
pub proof fn lemma_opening(p: Seq<char>, delim: char, body: Seq<char>)
    requires
        p == opening(delim) + body,
        is_delimiter(delim),
    ensures
        begins_verbatim(p),
        p.skip(9) == seq![delim] + body,
{
    reveal_strlit("verbatim");
    let word = "verbatim"@;
    assert forall|i: int| 1 <= i < 9 implies p[i] == word[i - 1] by {}
    assert(p[9] == delim);
    assert forall|i: int| 2 <= i < 2 + 7 implies alphanumeric(#[trigger] p[i]) by {
        assert(p[i] == word[i - 1]);
    }
    lemma_alnum_run_unique(p, 2, 7);
    assert(p.subrange(1, 9) =~= word);
    assert(p.skip(9) =~= seq![delim] + body);
}

/// From a cursor before lines of text without a backslash, which a line
/// follows that is not valid UTF-8, lexing fails at that line, and the error
/// reports its number.
pub proof fn lemma_plain_then_invalid(c: Cursor, good: Seq<u8>, bad: Seq<u8>)
    requires
        c.wf(),
        no_backslash(ahead(c)),
        c.rest == good + bad,
        valid_utf8(good),
        no_backslash(decode_utf8(good)),
        good.len() == 0 || good.last() == NEWLINE,
        !valid_utf8(first_line(bad)),
    ensures
        lex(c) == Err::<Seq<Lexeme>, ErrorKind>(
            ErrorKind::Unicode((c.line + line_count(good) + 1) as usize),
        ),
    decreases good.len(), c.left(),
{
    c.lemma_advance();
    let d = c.advance();
    if bad.len() == 0 {
        lemma_line_len(bad);
        assert(first_line(bad) =~= Seq::<u8>::empty());
    }
    if c.peek() is Some {
        assert(ahead(c)[0] == c.buf[c.column as int + 1]);
        assert forall|i: int| 0 <= i < ahead(d).len() implies ahead(d)[i] != '\\' by {
            assert(ahead(d)[i] == ahead(c)[i + 1]);
        }
        lemma_plain_then_invalid(d, good, bad);
    } else if good.len() == 0 {
        assert(c.rest =~= bad);
    } else {
        lemma_first_line_prefix(good, bad);
        lemma_split_line(good);
        let line = decode_utf8(first_line(good));
        let more = decode_utf8(after_line(good));
        assert forall|i: int| 0 <= i < line.len() implies line[i] != '\\' by {
            assert(decode_utf8(good)[i] == line[i]);
        }
        assert forall|i: int| 0 <= i < more.len() implies more[i] != '\\' by {
            assert(decode_utf8(good)[line.len() + i] == more[i]);
        }
        assert forall|i: int| 0 <= i < ahead(d).len() implies ahead(d)[i] != '\\' by {
            assert(ahead(d)[i] == line[i + 1]);
        }
        lemma_plain_then_invalid(d, after_line(good), bad);
    }
}

/// From a cursor before lines of text without a backslash, behind which the
/// source ends in a failed read, lexing fails with that read, and the error
/// reports the number of the line that was to be read.
pub proof fn lemma_plain_then_failure(c: Cursor, invalid_data: bool)
    requires
        c.wf(),
        no_backslash(ahead(c)),
        valid_utf8(c.rest),
        no_backslash(decode_utf8(c.rest)),
        c.failure == Some(invalid_data),
    ensures
        lex(c) == Err::<Seq<Lexeme>, ErrorKind>(
            ErrorKind::read_failure(invalid_data, (c.line + line_count(c.rest) + 1) as usize),
        ),
    decreases c.rest.len(), c.left(),
{
    c.lemma_advance();
    let d = c.advance();
    if c.peek() is Some {
        assert(ahead(c)[0] == c.buf[c.column as int + 1]);
        assert forall|i: int| 0 <= i < ahead(d).len() implies ahead(d)[i] != '\\' by {
            assert(ahead(d)[i] == ahead(c)[i + 1]);
        }
        lemma_plain_then_failure(d, invalid_data);
    } else if c.rest.len() > 0 {
        lemma_split_line(c.rest);
        let line = decode_utf8(first_line(c.rest));
        let more = decode_utf8(after_line(c.rest));
        assert forall|i: int| 0 <= i < line.len() implies line[i] != '\\' by {
            assert(decode_utf8(c.rest)[i] == line[i]);
        }
        assert forall|i: int| 0 <= i < more.len() implies more[i] != '\\' by {
            assert(decode_utf8(c.rest)[line.len() + i] == more[i]);
        }
        assert forall|i: int| 0 <= i < ahead(d).len() implies ahead(d)[i] != '\\' by {
            assert(ahead(d)[i] == line[i + 1]);
        }
        lemma_plain_then_failure(d, invalid_data);
    }
}

} // verus!
