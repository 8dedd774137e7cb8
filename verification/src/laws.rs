//! What holds of the lexer on every input: theorems over the model of the
//! line buffer and the grammar.

use crate::bufread::{lemma_line_len, Cursor, NEWLINE};
use crate::errors::{Error, ErrorKind};
use crate::grammar::{
    after_word, can_delimit, doubled, ends_identifier, is_delimiter, is_identifier,
    leaves_single, lemma_lex_plain, lemma_lex_text, lemma_lex_valid, lemma_opening,
    lemma_plain_then_failure, lemma_plain_then_invalid, lemma_token_text, lemma_unclosed_text,
    lemma_verbatim_text,
    lemma_verbatim_word_text,
    no_backslash, no_verbatim, opening, plain_tokens, unlex,
};
use crate::lines::{
    ahead, first_line, lemma_peek, lemma_start, lemma_step, line_count, pending, textual,
};
use crate::text::alphanumeric;
use crate::tokenize::{
    lemma_alnum_run_unique, lemma_next_token, lex, next_token, tokens, tokens_of, with_first,
    Lexeme, Token,
};
use vstd::prelude::*;
use vstd::utf8::{decode_utf8, decode_utf8_encode_utf8, encode_utf8, valid_utf8};

verus! {

/// Text without a backslash lexes to one token for each of its characters,
/// in order: an opening brace to `BeginGroup`, a closing brace to `EndGroup`,
/// any other character to itself.
pub proof fn law_plain_text(input: Seq<u8>)
    requires
        valid_utf8(input),
        no_backslash(decode_utf8(input)),
    ensures
        tokens(input) == Ok::<Seq<Lexeme>, ErrorKind>(plain_tokens(decode_utf8(input))),
        plain_tokens(decode_utf8(input)).len() == decode_utf8(input).len(),
{
    lemma_start(input);
    lemma_lex_plain(Cursor::start(input));
}

/// Lexing can be undone. Where an input lexes to tokens of which none is a
/// verbatim span, the input is valid UTF-8, and the tokens spell out its
/// text: a brace for a group token, a character for itself or, where it is
/// a backslash or a brace, for its escape, and a command for a backslash and
/// its name. Encoded as UTF-8, that text is the input, byte for byte.
pub proof fn law_round_trip(input: Seq<u8>, ts: Seq<Lexeme>)
    requires
        tokens(input) == Ok::<Seq<Lexeme>, ErrorKind>(ts),
        no_verbatim(ts),
    ensures
        valid_utf8(input),
        unlex(ts) == decode_utf8(input),
        encode_utf8(unlex(ts)) == input,
{
    lemma_lex_valid(Cursor::start(input));
    lemma_start(input);
    lemma_lex_text(Cursor::start(input), ts);
    decode_utf8_encode_utf8(input);
}

/// Anywhere in text, a backslash before an identifier other than `verbatim`
/// is one command token that holds the whole identifier. The token takes the
/// backslash and the identifier and nothing more: what stands behind them is
/// still to come.
pub proof fn law_command_at(c: Cursor, run: Seq<char>, tail: Seq<char>)
    requires
        textual(c),
        pending(c) == seq!['\\'] + run + tail,
        is_identifier(run),
        ends_identifier(tail),
        run != "verbatim"@,
    ensures
        next_token(c).1 == Ok::<Option<Lexeme>, ErrorKind>(Some(Lexeme::Command(run))),
        textual(next_token(c).0),
        pending(next_token(c).0) == tail,
        lex(c) == with_first(seq![Lexeme::Command(run)], lex(next_token(c).0)),
{
    let p = pending(c);
    assert(p[1] == run[0]);
    assert forall|i: int| 2 <= i < 2 + (run.len() - 1) implies alphanumeric(#[trigger] p[i]) by {
        assert(p[i] == run[i - 1]);
    }
    if tail.len() > 0 {
        assert(p[run.len() as int + 1] == tail[0]);
    }
    lemma_alnum_run_unique(p, 2, (run.len() - 1) as nat);
    assert(p.subrange(1, 1 + run.len() as int) =~= run);
    assert(p.skip(1 + run.len() as int) =~= tail);
    lemma_token_text(c);
}

/// A backslash before an identifier other than `verbatim` yields a single
/// command token that holds the whole identifier and consumes nothing
/// behind it: in front of text without a backslash, each character of that
/// text is still lexed to a token of its own.
pub proof fn law_command(input: Seq<u8>, run: Seq<char>, tail: Seq<char>)
    requires
        valid_utf8(input),
        decode_utf8(input) == seq!['\\'] + run + tail,
        is_identifier(run),
        ends_identifier(tail),
        run != "verbatim"@,
        no_backslash(tail),
    ensures
        tokens(input) == Ok::<Seq<Lexeme>, ErrorKind>(
            seq![Lexeme::Command(run)] + plain_tokens(tail),
        ),
{
    let c = Cursor::start(input);
    lemma_start(input);
    law_command_at(c, run, tail);
    lemma_lex_plain(next_token(c).0);
}

/// Anywhere in text, the command word `verbatim`, a delimiter, a text in
/// which each delimiter is doubled, and the delimiter once more are one
/// verbatim token that holds the text, each doubled delimiter in it taken as
/// a single one. What stands behind the closing delimiter is still to come.
pub proof fn law_verbatim_at(c: Cursor, delim: char, content: Seq<char>, tail: Seq<char>)
    requires
        textual(c),
        pending(c) == opening(delim) + doubled(content, delim) + seq![delim] + tail,
        is_delimiter(delim),
        can_delimit(delim, content),
        leaves_single(delim, tail),
    ensures
        next_token(c).1 == Ok::<Option<Lexeme>, ErrorKind>(Some(Lexeme::Verbatim(content))),
        textual(next_token(c).0),
        pending(next_token(c).0) == tail,
        lex(c) == with_first(seq![Lexeme::Verbatim(content)], lex(next_token(c).0)),
{
    let p = pending(c);
    let body = doubled(content, delim) + seq![delim] + tail;
    assert(p =~= opening(delim) + body);
    lemma_opening(p, delim, body);
    lemma_verbatim_word_text(c);
    let f = after_word(c);
    lemma_step(f);
    let g = f.advance();
    assert(pending(g) =~= body);
    lemma_verbatim_text(g, delim, (g.line as usize, g.column as usize), content, tail);
}

/// An input that is a verbatim span before text without a backslash lexes to
/// the span's token and one token for each character of that text. The token
/// holds the text between the delimiters, each doubled delimiter in it taken
/// as a single one.
pub proof fn law_verbatim(input: Seq<u8>, delim: char, content: Seq<char>, tail: Seq<char>)
    requires
        valid_utf8(input),
        decode_utf8(input) == opening(delim) + doubled(content, delim) + seq![delim] + tail,
        is_delimiter(delim),
        can_delimit(delim, content),
        leaves_single(delim, tail),
        no_backslash(tail),
    ensures
        tokens(input) == Ok::<Seq<Lexeme>, ErrorKind>(
            seq![Lexeme::Verbatim(content)] + plain_tokens(tail),
        ),
{
    let c = Cursor::start(input);
    lemma_start(input);
    law_verbatim_at(c, delim, content, tail);
    lemma_lex_plain(next_token(c).0);
}

/// Anywhere in text, a verbatim span that the source ends in is reported as
/// unclosed, at the position of its opening delimiter: in the line of the
/// backslash, nine columns behind it.
pub proof fn law_unclosed_verbatim_at(c: Cursor, delim: char, content: Seq<char>)
    requires
        textual(c),
        pending(c) == opening(delim) + doubled(content, delim),
        is_delimiter(delim),
        can_delimit(delim, content),
    ensures
        next_token(c).1 == Err::<Option<Lexeme>, ErrorKind>(
            ErrorKind::UnclosedVerbatim(
                c.advance().line as usize,
                (c.advance().column + 9) as usize,
            ),
        ),
        lex(c) == Err::<Seq<Lexeme>, ErrorKind>(
            ErrorKind::UnclosedVerbatim(
                c.advance().line as usize,
                (c.advance().column + 9) as usize,
            ),
        ),
{
    let p = pending(c);
    let body = doubled(content, delim);
    lemma_opening(p, delim, body);
    lemma_verbatim_word_text(c);
    let f = after_word(c);
    lemma_step(f);
    lemma_peek(f);
    let g = f.advance();
    assert(pending(g) =~= body);
    lemma_unclosed_text(g, delim, (g.line as usize, g.column as usize), content);
}

/// An input that ends inside the verbatim span it begins with fails as
/// unclosed, and the error reports where the opening delimiter stands: in
/// line 1, at column 9.
pub proof fn law_unclosed_verbatim(input: Seq<u8>, delim: char, content: Seq<char>)
    requires
        valid_utf8(input),
        decode_utf8(input) == opening(delim) + doubled(content, delim),
        is_delimiter(delim),
        can_delimit(delim, content),
    ensures
        tokens(input) == Err::<Seq<Lexeme>, ErrorKind>(ErrorKind::UnclosedVerbatim(1, 9)),
{
    let c = Cursor::start(input);
    lemma_start(input);
    lemma_step(c);
    law_unclosed_verbatim_at(c, delim, content);
}

/// A line that is not valid UTF-8 fails the read that meets it, and the
/// error reports the number of that line.
pub proof fn law_invalid_line(c: Cursor)
    requires
        c.wf(),
        c.peek() is None,
        !valid_utf8(c.next_line()),
    ensures
        c.advance_result() == Err::<Option<char>, ErrorKind>(
            ErrorKind::Unicode((c.line + 1) as usize),
        ),
        next_token(c).1 == Err::<Option<Lexeme>, ErrorKind>(
            ErrorKind::Unicode((c.line + 1) as usize),
        ),
        lex(c) == Err::<Seq<Lexeme>, ErrorKind>(ErrorKind::Unicode((c.line + 1) as usize)),
{
    if c.rest.len() == 0 {
        lemma_line_len(c.rest);
        assert(c.next_line() =~= Seq::<u8>::empty());
    }
}

/// An input whose first line is not valid UTF-8 fails with the error that
/// reports line 1.
pub proof fn law_invalid_first_line(input: Seq<u8>)
    requires
        !valid_utf8(first_line(input)),
    ensures
        tokens(input) == Err::<Seq<Lexeme>, ErrorKind>(ErrorKind::Unicode(1)),
{
    law_invalid_line(Cursor::start(input));
}

/// Lines of text without a backslash before a line that is not valid UTF-8:
/// lexing fails with the error that reports the number of that line, counted
/// from one.
pub proof fn law_invalid_line_number(good: Seq<u8>, bad: Seq<u8>)
    requires
        valid_utf8(good),
        no_backslash(decode_utf8(good)),
        good.len() == 0 || good.last() == NEWLINE,
        !valid_utf8(first_line(bad)),
    ensures
        tokens(good + bad) == Err::<Seq<Lexeme>, ErrorKind>(
            ErrorKind::Unicode((line_count(good) + 1) as usize),
        ),
{
    let c = Cursor::start(good + bad);
    assert(ahead(c) =~= Seq::<char>::empty());
    lemma_plain_then_invalid(c, good, bad);
}

/// A read that fails is reported with the number of the line that was to be
/// read, as invalid text where the failure says so of itself and as an I/O
/// error otherwise.
pub proof fn law_failed_read_at(c: Cursor)
    requires
        c.wf(),
        c.peek() is None,
        c.fails(),
    ensures
        c.advance_result() == Err::<Option<char>, ErrorKind>(
            ErrorKind::read_failure(c.failure->0, (c.line + 1) as usize),
        ),
        next_token(c).1 == Err::<Option<Lexeme>, ErrorKind>(
            ErrorKind::read_failure(c.failure->0, (c.line + 1) as usize),
        ),
        lex(c) == Err::<Seq<Lexeme>, ErrorKind>(
            ErrorKind::read_failure(c.failure->0, (c.line + 1) as usize),
        ),
{
}

/// Lines of text without a backslash from a source that then fails: lexing
/// fails with the error of the failed read, which reports the number of the
/// line behind those that were read.
pub proof fn law_failed_read(good: Seq<u8>, invalid_data: bool)
    requires
        valid_utf8(good),
        no_backslash(decode_utf8(good)),
    ensures
        lex(Cursor::start_failing(good, invalid_data)) == Err::<Seq<Lexeme>, ErrorKind>(
            ErrorKind::read_failure(invalid_data, (line_count(good) + 1) as usize),
        ),
{
    let c = Cursor::start_failing(good, invalid_data);
    assert(ahead(c) =~= Seq::<char>::empty());
    lemma_plain_then_failure(c, invalid_data);
}

/// Lexing is a function of the input: two runs over the same input end in
/// the same tokens or, where they fail, in the same error.
pub proof fn law_deterministic(
    input: Seq<u8>,
    first: Result<Vec<Token>, Error>,
    second: Result<Vec<Token>, Error>,
)
    requires
        tokens_of(first) == tokens(input),
        tokens_of(second) == tokens(input),
    ensures
        tokens_of(first) == tokens_of(second),
        first is Err ==> second is Err && first->Err_0 == second->Err_0,
        first matches Ok(v) ==> second is Ok && v@.len() == second->Ok_0@.len() && forall|
            i: int,
        |
            0 <= i < v@.len() ==> v@[i]@ == second->Ok_0@[i]@,
{
    if let Err(e) = first {
        Error::lemma_view_injective(e, second->Err_0);
    }
    if let Ok(v) = first {
        let w = second->Ok_0;
        let a = v@.map_values(|t: Token| t@);
        let b = w@.map_values(|t: Token| t@);
        assert(a == b);
        assert(a.len() == v@.len());
        assert(b.len() == w@.len());
        assert forall|i: int| 0 <= i < v@.len() implies v@[i]@ == w@[i]@ by {
            assert(a[i] == v@[i]@);
            assert(b[i] == w@[i]@);
        }
    }
}

/// Every error is final, and so is the end of the source: whatever comes
/// after either is the end of the source, without a token.
pub proof fn law_terminal(c: Cursor)
    requires
        c.wf(),
        !(next_token(c).1 matches Ok(Some(_))),
    ensures
        next_token(next_token(c).0).1 == Ok::<Option<Lexeme>, ErrorKind>(None),
        lex(next_token(c).0) == Ok::<Seq<Lexeme>, ErrorKind>(Seq::empty()),
{
    lemma_next_token(c);
    next_token(c).0.lemma_advance_exhausted();
}

} // verus!
