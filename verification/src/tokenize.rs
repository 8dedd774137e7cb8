//! The tokenizer: group delimiters, literal characters, commands and verbatim
//! spans, recognised on top of the line buffer.

use crate::bufread::{BufReadIter, Cursor};
use crate::errors::{Error, ErrorKind};
use crate::text::alphanumeric;
use vstd::prelude::*;

verus! {

/// A lexical unit of the markup.
#[derive(Clone, Debug, Eq, PartialEq)]
pub enum Token {
    /// `{`
    BeginGroup,
    /// `}`
    EndGroup,
    /// A single character, including escaped `\{`, `\}`, and `\\`.
    Char(char),
    /// A command: a backslash and the name that follows it.
    Command(String),
    /// A string to be taken as it stands, without further lexing.
    Verbatim(String),
}

/// A [`Token`] as a mathematical value.
pub enum Lexeme {
    /// `{`
    BeginGroup,
    /// `}`
    EndGroup,
    /// A single character.
    Char(char),
    /// A command, by its name.
    Command(Seq<char>),
    /// A verbatim span, by its text.
    Verbatim(Seq<char>),
}

impl View for Token {
    type V = Lexeme;

    open spec fn view(&self) -> Lexeme {
        match self {
            Token::BeginGroup => Lexeme::BeginGroup,
            Token::EndGroup => Lexeme::EndGroup,
            Token::Char(c) => Lexeme::Char(*c),
            Token::Command(name) => Lexeme::Command(name@),
            Token::Verbatim(text) => Lexeme::Verbatim(text@),
        }
    }
}

/// The number of alphanumeric characters that `buf` holds in a row from
/// index `from` on.
pub open spec fn alnum_run(buf: Seq<char>, from: int) -> nat
    decreases buf.len() - from,
{
    if 0 <= from < buf.len() && alphanumeric(buf[from]) {
        1 + alnum_run(buf, from + 1)
    } else {
        0
    }
}

/// The cursor behind the identifier whose first character `c` stands at: it
/// has moved over the alphanumeric characters that follow in the line.
pub open spec fn ident_end(c: Cursor) -> Cursor {
    Cursor { column: c.column + alnum_run(c.buf, c.column as int + 1), ..c }
}

/// The identifier whose first character `c` stands at: that character and
/// the alphanumeric characters that follow it in the line.
pub open spec fn ident_name(c: Cursor) -> Seq<char> {
    c.buf.subrange(c.column as int, c.column as int + 1 + alnum_run(c.buf, c.column as int + 1))
}

/// An identifier runs up to the end of the line or a character that is not
/// alphanumeric, and holds alphanumeric characters only behind its first.
pub proof fn lemma_alnum_run(buf: Seq<char>, from: int)
    requires
        0 <= from,
    ensures
        from + alnum_run(buf, from) <= buf.len() || alnum_run(buf, from) == 0,
        forall|i: int| from <= i < from + alnum_run(buf, from) ==> alphanumeric(#[trigger] buf[i]),
        from + alnum_run(buf, from) < buf.len() ==> !alphanumeric(
            buf[from + alnum_run(buf, from)],
        ),
    decreases buf.len() - from,
{
    if from < buf.len() && alphanumeric(buf[from]) {
        lemma_alnum_run(buf, from + 1);
    }
}

/// The converse of [`lemma_alnum_run`]: alphanumeric characters from `from`
/// on, as many as `n`, before the text's end or a character that is not
/// alphanumeric, are the run from `from` on.
pub proof fn lemma_alnum_run_unique(buf: Seq<char>, from: int, n: nat)
    requires
        0 <= from,
        from + n <= buf.len(),
        forall|i: int| from <= i < from + n ==> alphanumeric(#[trigger] buf[i]),
        from + n == buf.len() || !alphanumeric(buf[from + n]),
    ensures
        alnum_run(buf, from) == n,
    decreases n,
{
    if n > 0 {
        assert(alphanumeric(buf[from]));
        lemma_alnum_run_unique(buf, from + 1, (n - 1) as nat);
    }
}

/// The text of `r` with `prefix` in front of it; an error stays as it is.
pub open spec fn with_prefix(prefix: Seq<char>, r: Result<Seq<char>, ErrorKind>) -> Result<
    Seq<char>,
    ErrorKind,
> {
    match r {
        Ok(text) => Ok(prefix + text),
        Err(e) => Err(e),
    }
}

/// What capturing a verbatim span yields, from the cursor `c` that stands at
/// the opening delimiter: the cursor at the closing delimiter and the text in
/// between, in which a doubled delimiter stands for a single one.
///
/// A delimiter closes the span unless the same character follows it in the
/// same line. Where the source ends first, the span is unclosed, which is
/// reported at the position `start`; a read that fails, and a line that is
/// not valid UTF-8, are reported as such.
pub open spec fn verbatim(c: Cursor, delim: char, start: (usize, usize)) -> (
    Cursor,
    Result<Seq<char>, ErrorKind>,
)
    decreases c.rest.len(), c.left(),
    when c.wf()
    via verbatim_decreases
{
    let d = c.advance();
    match c.advance_result() {
        Err(e) => (d, Err(e)),
        Ok(None) => (d, Err(ErrorKind::UnclosedVerbatim(start.0, start.1))),
        Ok(Some(ch)) => {
            if ch != delim {
                let (end, r) = verbatim(d, delim, start);
                (end, with_prefix(seq![ch], r))
            } else if d.peek() == Some(delim) {
                let (end, r) = verbatim(d.advance(), delim, start);
                (end, with_prefix(seq![delim], r))
            } else {
                (d, Ok(Seq::empty()))
            }
        },
    }
}

#[via_fn]
proof fn verbatim_decreases(c: Cursor, delim: char, start: (usize, usize)) {
    c.lemma_advance();
    c.advance().lemma_advance();
}

/// The text of a result as a mathematical value, and the kind of its error.
pub open spec fn text_of(r: Result<String, Error>) -> Result<Seq<char>, ErrorKind> {
    match r {
        Ok(text) => Ok(text@),
        Err(e) => Err(e@),
    }
}

/// A token of a result as a mathematical value, and the kind of its error.
pub open spec fn token_of(r: Result<Option<Token>, Error>) -> Result<Option<Lexeme>, ErrorKind> {
    match r {
        Ok(Some(t)) => Ok(Some(t@)),
        Ok(None) => Ok(None),
        Err(e) => Err(e@),
    }
}

/// What follows the command word `verbatim`, from the cursor `c` behind it:
/// the next character, in this line or the next, is the delimiter, its
/// position is the one an unclosed span is reported at, and the span follows.
pub open spec fn verbatim_span(c: Cursor) -> (Cursor, Result<Option<Lexeme>, ErrorKind>) {
    let d = c.advance();
    match c.expect_result() {
        Err(e) => (d, Err(e)),
        Ok(delim) => {
            let (end, r) = verbatim(d, delim, (d.line as usize, d.column as usize));
            match r {
                Ok(text) => (end, Ok(Some(Lexeme::Verbatim(text)))),
                Err(e) => (end, Err(e)),
            }
        },
    }
}

/// What follows a backslash, from the cursor `c` that stands at it.
///
/// A backslash or a brace stands for itself. An alphanumeric character starts
/// an identifier, which is a command unless it is the word `verbatim`. Any
/// other character is a command of its own. A backslash at the end of the
/// source is an error.
pub open spec fn escaped(c: Cursor) -> (Cursor, Result<Option<Lexeme>, ErrorKind>) {
    let d = c.advance();
    match c.expect_result() {
        Err(e) => (d, Err(e)),
        Ok(ch) => {
            if ch == '\\' || ch == '{' || ch == '}' {
                (d, Ok(Some(Lexeme::Char(ch))))
            } else if alphanumeric(ch) {
                if ident_name(d) == "verbatim"@ {
                    verbatim_span(ident_end(d))
                } else {
                    (ident_end(d), Ok(Some(Lexeme::Command(ident_name(d)))))
                }
            } else {
                (d, Ok(Some(Lexeme::Command(seq![ch]))))
            }
        },
    }
}

/// The next token from the cursor `c` on, and the cursor behind it.
/// `Ok(None)` is the end of the source.
pub open spec fn next_token(c: Cursor) -> (Cursor, Result<Option<Lexeme>, ErrorKind>) {
    let d = c.advance();
    match c.advance_result() {
        Err(e) => (d, Err(e)),
        Ok(None) => (d, Ok(None)),
        Ok(Some(ch)) => {
            if ch == '{' {
                (d, Ok(Some(Lexeme::BeginGroup)))
            } else if ch == '}' {
                (d, Ok(Some(Lexeme::EndGroup)))
            } else if ch == '\\' {
                escaped(d)
            } else {
                (d, Ok(Some(Lexeme::Char(ch))))
            }
        },
    }
}

/// An identifier ends inside the line it began in.
pub proof fn lemma_ident_end(c: Cursor)
    requires
        c.wf(),
        c.column < c.buf.len(),
    ensures
        ident_end(c).wf(),
        ident_end(c).column < c.buf.len(),
        ident_end(c).not_before(c),
        ident_end(c).room() == c.room(),
        ident_name(c).len() == 1 + alnum_run(c.buf, c.column as int + 1),
        ident_name(c)[0] == c.buf[c.column as int],
{
    lemma_alnum_run(c.buf, c.column as int + 1);
}

/// A verbatim span that closes ends at its closing delimiter, further on in
/// the source. One that does not close leaves the source used up, and is
/// reported as unclosed, as a line that is not valid UTF-8 or as a read that
/// failed.
pub proof fn lemma_verbatim(c: Cursor, delim: char, start: (usize, usize))
    requires
        c.wf(),
    ensures
        verbatim(c, delim, start).0.wf(),
        verbatim(c, delim, start).0.not_before(c),
        verbatim(c, delim, start).1 is Ok ==> {
            &&& verbatim(c, delim, start).0.after(c)
            &&& c.room() ==> verbatim(c, delim, start).0.room()
        },
        verbatim(c, delim, start).1 matches Err(e) ==> {
            &&& verbatim(c, delim, start).0.exhausted()
            &&& verbatim(c, delim, start).0.buf.len() == 0
            &&& e == ErrorKind::UnclosedVerbatim(start.0, start.1) || e is Unicode || e is Io
        },
    decreases c.rest.len(), c.left(),
{
    c.lemma_advance();
    let d = c.advance();
    if let Ok(Some(ch)) = c.advance_result() {
        if ch != delim {
            lemma_verbatim(d, delim, start);
        } else if d.peek() == Some(delim) {
            d.lemma_advance();
            lemma_verbatim(d.advance(), delim, start);
        }
    }
}

/// A token moves the cursor forward. The end of the source and every error
/// leave the source used up, so that nothing but the end follows them.
pub proof fn lemma_next_token(c: Cursor)
    requires
        c.wf(),
    ensures
        next_token(c).0.wf(),
        next_token(c).0.not_before(c),
        next_token(c).1 matches Ok(Some(_)) ==> {
            &&& next_token(c).0.after(c)
            &&& c.room() ==> next_token(c).0.room()
        },
        !(next_token(c).1 matches Ok(Some(_))) ==> {
            &&& next_token(c).0.exhausted()
            &&& next_token(c).0.buf.len() == 0
        },
{
    c.lemma_advance();
    let d = c.advance();
    if c.advance_result() == Ok::<Option<char>, ErrorKind>(Some('\\')) {
        d.lemma_advance();
        let e = d.advance();
        if let Ok(ch) = d.expect_result() {
            if ch != '\\' && ch != '{' && ch != '}' && alphanumeric(ch) {
                lemma_ident_end(e);
                let f = ident_end(e);
                if ident_name(e) == "verbatim"@ {
                    f.lemma_advance();
                    let g = f.advance();
                    if let Ok(delim) = f.expect_result() {
                        lemma_verbatim(g, delim, (g.line as usize, g.column as usize));
                    }
                }
            }
        }
    }
}

/// The tokens of a result as a mathematical value, and the kind of its error.
pub open spec fn tokens_of(r: Result<Vec<Token>, Error>) -> Result<Seq<Lexeme>, ErrorKind> {
    match r {
        Ok(tokens) => Ok(tokens@.map_values(|t: Token| t@)),
        Err(e) => Err(e@),
    }
}

/// The tokens of `r` with `first` in front of them; an error stays as it is.
pub open spec fn with_first(first: Seq<Lexeme>, r: Result<Seq<Lexeme>, ErrorKind>) -> Result<
    Seq<Lexeme>,
    ErrorKind,
> {
    match r {
        Ok(tokens) => Ok(first + tokens),
        Err(e) => Err(e),
    }
}

/// All the tokens from the cursor `c` to the end of the source, or the first
/// error met on the way.
pub open spec fn lex(c: Cursor) -> Result<Seq<Lexeme>, ErrorKind>
    decreases c.rest.len(), c.left(),
    when c.wf()
    via lex_decreases
{
    match next_token(c).1 {
        Err(e) => Err(e),
        Ok(None) => Ok(Seq::empty()),
        Ok(Some(t)) => with_first(seq![t], lex(next_token(c).0)),
    }
}

#[via_fn]
proof fn lex_decreases(c: Cursor) {
    lemma_next_token(c);
}

/// All the tokens of the source `input`, or the first error met in it.
pub open spec fn tokens(input: Seq<u8>) -> Result<Seq<Lexeme>, ErrorKind> {
    lex(Cursor::start(input))
}

/// The lexer's state: a line buffer and nothing else.
#[derive(Debug)]
pub struct Tokens<'a> {
    input: BufReadIter<'a>,
}

impl<'a> View for Tokens<'a> {
    type V = Cursor;

    closed spec fn view(&self) -> Cursor {
        self.input@
    }
}

impl<'a> Tokens<'a> {
    /// Constructs a tokenizer over `input`. Nothing is read yet.
    pub fn new(input: &'a [u8]) -> (r: Tokens<'a>)
        ensures
            r@ == Cursor::start(input@),
    {
        Tokens { input: BufReadIter::new(input) }
    }

    /// Constructs a tokenizer over a source that was cut short by a failed
    /// read: `input` holds the lines that were read before, and the read
    /// after them fails. `invalid_data` says whether the failure is that of
    /// data that is not valid.
    pub fn with_failure(input: &'a [u8], invalid_data: bool) -> (r: Tokens<'a>)
        ensures
            r@ == Cursor::start_failing(input@, invalid_data),
    {
        Tokens { input: BufReadIter::with_failure(input, invalid_data) }
    }

    /// Extracts an identifier from the input, starting with the character
    /// `first` that the line buffer stands at.
    fn ident(&mut self, first: char) -> (name: String)
        requires
            old(self)@.column < old(self)@.buf.len(),
            old(self)@.buf[old(self)@.column as int] == first,
        ensures
            final(self)@ == ident_end(old(self)@),
            name@ == ident_name(old(self)@),
    {
        let mut command = String::new();
        command.push(first);
        let ghost start = self@;
        loop
            invariant
                self@.buf == start.buf,
                self@.rest == start.rest,
                self@.line == start.line,
                self@.failure == start.failure,
                start.column <= self@.column < start.buf.len(),
                command@ == start.buf.subrange(start.column as int, self@.column as int + 1),
                self@.column + alnum_run(start.buf, self@.column as int + 1) == start.column
                    + alnum_run(start.buf, start.column as int + 1),
            ensures
                self@ == ident_end(start),
                command@ == ident_name(start),
            decreases start.buf.len() - self@.column,
        {
            let ghost before = self@;
            match self.input.peek() {
                Some(peeked) => {
                    let c: char = *peeked;
                    if c.is_alphanumeric() {
                        let _ = self.input.next();
                        command.push(c);
                        assert(self@ == Cursor { column: before.column + 1, ..before });
                        assert(command@ == start.buf.subrange(
                            start.column as int,
                            self@.column as int + 1,
                        ));
                    } else {
                        break ;
                    }
                },
                None => {
                    break ;
                },
            }
        }
        command
    }

    /// Extracts a verbatim string from the input, which stands at the opening
    /// delimiter. Within the string, the delimiter is escaped by doubling it.
    fn verbatim(&mut self, delimiter: char, start_line: usize, start_column: usize) -> (r: Result<
        String,
        Error,
    >)
        requires
            old(self)@.room(),
        ensures
            final(self)@ == verbatim(old(self)@, delimiter, (start_line, start_column)).0,
            text_of(r) == verbatim(old(self)@, delimiter, (start_line, start_column)).1,
    {
        let mut verb = String::new();
        let ghost start = self@;
        let ghost at = (start_line, start_column);
        loop
            invariant_except_break
                self@.room(),
                verbatim(start, delimiter, at) == (
                    verbatim(self@, delimiter, at).0,
                    with_prefix(verb@, verbatim(self@, delimiter, at).1),
                ),
            invariant
                start == old(self)@,
                at == (start_line, start_column),
            ensures
                self@ == verbatim(start, delimiter, at).0,
                Ok::<Seq<char>, ErrorKind>(verb@) == verbatim(start, delimiter, at).1,
            decreases self@.rest.len(), self@.left(),
        {
            let ghost before = self@;
            let ghost text = verb@;
            proof {
                use_type_invariant(&self.input);
                self.input.lemma_inv();
                before.lemma_advance();
                before.advance().lemma_advance();
            }
            match self.input.next() {
                Err(e) => {
                    return Err(e);
                },
                Ok(None) => {
                    return Err(Error::from(ErrorKind::UnclosedVerbatim(start_line, start_column)));
                },
                Ok(Some(c)) => {
                    if c == delimiter {
                        let doubled = match self.input.peek() {
                            Some(peeked) => *peeked == delimiter,
                            None => false,
                        };
                        if doubled {
                            let _ = self.input.next();
                            verb.push(delimiter);
                            proof {
                                let rest = verbatim(self@, delimiter, at).1;
                                assert(with_prefix(text, with_prefix(seq![delimiter], rest))
                                    == with_prefix(verb@, rest)) by {
                                    if let Ok(s) = rest {
                                        assert(text + (seq![delimiter] + s) =~= verb@ + s);
                                    }
                                }
                            }
                        } else {
                            assert(text + Seq::<char>::empty() =~= text);
                            break ;
                        }
                    } else {
                        verb.push(c);
                        proof {
                            let rest = verbatim(self@, delimiter, at).1;
                            assert(with_prefix(text, with_prefix(seq![c], rest)) == with_prefix(
                                verb@,
                                rest,
                            )) by {
                                if let Ok(s) = rest {
                                    assert(text + (seq![c] + s) =~= verb@ + s);
                                }
                            }
                        }
                    }
                },
            }
        }
        Ok(verb)
    }

    /// Advances the stream, returning the next token if present, or any
    /// errors encountered. `Ok(None)` is the end of the source.
    ///
    /// The line counter must have room for the lines that are left.
    pub fn next_res(&mut self) -> (r: Result<Option<Token>, Error>)
        requires
            old(self)@.room(),
        ensures
            old(self)@.wf(),
            final(self)@ == next_token(old(self)@).0,
            token_of(r) == next_token(old(self)@).1,
    {
        proof {
            use_type_invariant(&self.input);
            self.input.lemma_inv();
            self@.lemma_advance();
        }
        match self.input.next() {
            Err(e) => Err(e),
            Ok(None) => Ok(None),
            Ok(Some(c)) => {
                if c == '{' {
                    Ok(Some(Token::BeginGroup))
                } else if c == '}' {
                    Ok(Some(Token::EndGroup))
                } else if c == '\\' {
                    proof {
                        self@.lemma_advance();
                    }
                    match self.input.expect_next() {
                        Err(e) => Err(e),
                        Ok(c) => {
                            if c == '\\' || c == '{' || c == '}' {
                                Ok(Some(Token::Char(c)))
                            } else if c.is_alphanumeric() {
                                let command = self.ident(c);
                                if *command.as_str() == *"verbatim" {
                                    proof {
                                        use_type_invariant(&self.input);
                                        self.input.lemma_inv();
                                        self@.lemma_advance();
                                    }
                                    match self.input.expect_next() {
                                        Err(e) => Err(e),
                                        Ok(delim) => {
                                            let line: usize = self.input.line();
                                            let column: usize = self.input.column();
                                            match self.verbatim(delim, line, column) {
                                                Ok(text) => Ok(Some(Token::Verbatim(text))),
                                                Err(e) => Err(e),
                                            }
                                        },
                                    }
                                } else {
                                    Ok(Some(Token::Command(command)))
                                }
                            } else {
                                let mut command = String::new();
                                command.push(c);
                                Ok(Some(Token::Command(command)))
                            }
                        },
                    }
                } else {
                    Ok(Some(Token::Char(c)))
                }
            },
        }
    }

    /// Advances the stream as an iterator would: `None` is the end of the
    /// source, and an error is an item like any token.
    pub fn next(&mut self) -> (r: Option<Result<Token, Error>>)
        requires
            old(self)@.room(),
        ensures
            old(self)@.wf(),
            final(self)@ == next_token(old(self)@).0,
            match r {
                Some(Ok(t)) => next_token(old(self)@).1 == Ok::<Option<Lexeme>, ErrorKind>(
                    Some(t@),
                ),
                Some(Err(e)) => next_token(old(self)@).1 == Err::<Option<Lexeme>, ErrorKind>(e@),
                None => next_token(old(self)@).1 == Ok::<Option<Lexeme>, ErrorKind>(None),
            },
    {
        match self.next_res() {
            Ok(Some(t)) => Some(Ok(t)),
            Ok(None) => None,
            Err(e) => Some(Err(e)),
        }
    }

    /// Runs the stream to its end and returns the tokens met on the way, or
    /// the first error.
    pub fn collect(self) -> (r: Result<Vec<Token>, Error>)
        requires
            self@.room(),
        ensures
            tokens_of(r) == lex(self@),
    {
        let mut stream = self;
        let mut out: Vec<Token> = Vec::new();
        loop
            invariant_except_break
                stream@.room(),
                lex(self@) == with_first(out@.map_values(|t: Token| t@), lex(stream@)),
            ensures
                Ok::<Seq<Lexeme>, ErrorKind>(out@.map_values(|t: Token| t@)) == lex(self@),
            decreases stream@.rest.len(), stream@.left(),
        {
            let ghost seen = out@.map_values(|t: Token| t@);
            proof {
                use_type_invariant(&stream.input);
                stream.input.lemma_inv();
                lemma_next_token(stream@);
            }
            match stream.next_res() {
                Err(e) => {
                    return Err(e);
                },
                Ok(None) => {
                    assert(seen + Seq::<Lexeme>::empty() =~= seen);
                    break ;
                },
                Ok(Some(t)) => {
                    out.push(t);
                    proof {
                        let more = out@.map_values(|t: Token| t@);
                        assert(more =~= seen + seq![t@]);
                        let rest = lex(stream@);
                        assert(with_first(seen, with_first(seq![t@], rest)) == with_first(
                            more,
                            rest,
                        )) by {
                            if let Ok(tokens) = rest {
                                assert(seen + (seq![t@] + tokens) =~= more + tokens);
                            }
                        }
                    }
                },
            }
        }
        Ok(out)
    }
}

/// Lexes the whole of `input`: its tokens in order, or the first error.
///
/// The length of `input` must leave the line counter room for the read that
/// meets the end.
pub fn tokenize(input: &[u8]) -> (r: Result<Vec<Token>, Error>)
    requires
        input@.len() < usize::MAX,
    ensures
        tokens_of(r) == tokens(input@),
{
    Tokens::new(input).collect()
}

} // verus!
