//! The line buffer: characters of a byte source, one at a time, with one
//! character of lookahead and the position of the character last handed out.

use crate::errors::{Error, ErrorKind};
use crate::text::chars_of;
use vstd::prelude::*;
use vstd::slice::slice_subrange;
use vstd::utf8::{decode_utf8, valid_utf8};

verus! {

/// The byte that ends a line.
pub const NEWLINE: u8 = 10;

/// The length of the first line of `bytes`: everything up to and including the
/// first newline, or all of `bytes` where it holds none.
pub open spec fn line_len(bytes: Seq<u8>) -> nat {
    match bytes.index_of_first(NEWLINE) {
        Some(i) => (i + 1) as nat,
        None => bytes.len(),
    }
}

/// What [`line_len`] is, without the search: the line is not longer than the
/// input, it is empty only where the input is, it holds no newline before its
/// last byte, and it stops short of the input's end only behind a newline.
pub proof fn lemma_line_len(bytes: Seq<u8>)
    ensures
        line_len(bytes) <= bytes.len(),
        bytes.len() > 0 ==> line_len(bytes) > 0,
        forall|i: int| 0 <= i < line_len(bytes) - 1 ==> bytes[i] != NEWLINE,
        line_len(bytes) < bytes.len() ==> bytes[line_len(bytes) - 1] == NEWLINE,
{
    bytes.index_of_first_ensures(NEWLINE);
    if bytes.index_of_first(NEWLINE) is None {
        assert forall|i: int| 0 <= i < bytes.len() implies bytes[i] != NEWLINE by {
            if bytes[i] == NEWLINE {
                assert(bytes.contains(NEWLINE));
            }
        }
    }
}

/// The converse of [`lemma_line_len`]: a length of which all that holds is
/// the length of the first line.
pub proof fn lemma_line_len_unique(bytes: Seq<u8>, n: nat)
    requires
        n <= bytes.len(),
        forall|i: int| 0 <= i < n - 1 ==> bytes[i] != NEWLINE,
        n > 0 && bytes[n - 1] == NEWLINE || n == bytes.len() && !bytes.contains(NEWLINE),
    ensures
        line_len(bytes) == n,
{
    bytes.index_of_first_ensures(NEWLINE);
    if n > 0 && bytes[n - 1] == NEWLINE {
        assert(bytes.contains(NEWLINE));
    }
}

/// The state of a line buffer, as a mathematical value.
pub struct Cursor {
    /// The bytes of the source that no line has been read from yet.
    pub rest: Seq<u8>,
    /// The characters of the current line.
    pub buf: Seq<char>,
    /// The index in `buf` of the character handed out last (zero before the
    /// first character of the source, and after its end).
    pub column: nat,
    /// The number of lines read so far, counting the attempt that met the end
    /// of the source, bytes that are not text, or a failure.
    pub line: nat,
    /// How the source ends once its bytes are used up: `None` is its end,
    /// `Some(invalid_data)` a read that fails, and says of itself whether it
    /// met data that is not valid.
    pub failure: Option<bool>,
}

impl Cursor {
    /// The state of a fresh line buffer over `input`.
    pub open spec fn start(input: Seq<u8>) -> Cursor {
        Cursor { rest: input, buf: Seq::empty(), column: 0, line: 0, failure: None }
    }

    /// The state of a fresh line buffer over a source that fails once the
    /// bytes of `input` are read.
    pub open spec fn start_failing(input: Seq<u8>, invalid_data: bool) -> Cursor {
        Cursor {
            rest: input,
            buf: Seq::empty(),
            column: 0,
            line: 0,
            failure: Some(invalid_data),
        }
    }

    /// The next read fails: the bytes of the source are used up, and it ends
    /// in a failure.
    pub open spec fn fails(self) -> bool {
        self.rest.len() == 0 && self.failure is Some
    }

    /// The source as it is once a read went wrong or met the end: nothing is
    /// left of it.
    pub open spec fn ended(self) -> Cursor {
        Cursor {
            rest: Seq::empty(),
            buf: Seq::empty(),
            column: 0,
            line: self.line + 1,
            failure: None,
        }
    }

    /// The cursor stands inside the current line, or at its initial position.
    pub open spec fn wf(self) -> bool {
        self.column == 0 || self.column < self.buf.len()
    }

    /// The character after the cursor, as far as the current line holds one.
    pub open spec fn peek(self) -> Option<char> {
        if self.column + 1 < self.buf.len() {
            Some(self.buf[self.column as int + 1])
        } else {
            None
        }
    }

    /// The bytes of the line that the next refill reads.
    pub open spec fn next_line(self) -> Seq<u8> {
        self.rest.take(line_len(self.rest) as int)
    }

    /// The state after a refill. A line of valid UTF-8 becomes the current
    /// line. A read that fails, and a line that is not valid, end the stream:
    /// what is left of the source is dropped.
    pub open spec fn refill(self) -> Cursor {
        if !self.fails() && valid_utf8(self.next_line()) {
            Cursor {
                rest: self.rest.skip(line_len(self.rest) as int),
                buf: decode_utf8(self.next_line()),
                column: 0,
                line: self.line + 1,
                failure: self.failure,
            }
        } else {
            self.ended()
        }
    }

    /// What a refill reports: the failure of the read, or a line that is not
    /// valid UTF-8, each with the number of the line that was to be read.
    pub open spec fn refill_error(self) -> Option<ErrorKind> {
        if self.fails() {
            Some(ErrorKind::read_failure(self.failure->0, (self.line + 1) as usize))
        } else if !valid_utf8(self.next_line()) {
            Some(ErrorKind::Unicode((self.line + 1) as usize))
        } else {
            None
        }
    }

    /// The state after one character was consumed.
    pub open spec fn advance(self) -> Cursor {
        if self.peek() is Some {
            Cursor { column: self.column + 1, ..self }
        } else {
            self.refill()
        }
    }

    /// What consuming one character yields: the next character of the current
    /// line; where the line is used up, the first character of the next line;
    /// `None` at the end of the source; an error where reading the next line
    /// fails or the line is not valid UTF-8, with the number of that line.
    pub open spec fn advance_result(self) -> Result<Option<char>, ErrorKind> {
        if self.peek() is Some {
            Ok(self.peek())
        } else if self.refill_error() is Some {
            Err(self.refill_error()->0)
        } else if self.refill().buf.len() > 0 {
            Ok(Some(self.refill().buf[0]))
        } else {
            Ok(None)
        }
    }

    /// What consuming one character yields where the grammar needs one: as
    /// [`Cursor::advance_result`], with the end of the source as an error.
    pub open spec fn expect_result(self) -> Result<char, ErrorKind> {
        match self.advance_result() {
            Ok(Some(c)) => Ok(c),
            Ok(None) => Err(ErrorKind::EndOfInput),
            Err(e) => Err(e),
        }
    }

    /// The source is used up: every further read meets its end.
    pub open spec fn exhausted(self) -> bool {
        self.peek() is None && self.rest.len() == 0 && self.failure is None
    }

    /// The characters of the current line from the cursor on.
    pub open spec fn left(self) -> int {
        self.buf.len() - self.column
    }

    /// `self` has no more of the source before it than `other` has.
    pub open spec fn not_before(self, other: Cursor) -> bool {
        ||| self.rest.len() < other.rest.len()
        ||| self.rest.len() == other.rest.len() && self.left() <= other.left()
    }

    /// `self` has less of the source before it than `other` has.
    pub open spec fn after(self, other: Cursor) -> bool {
        ||| self.rest.len() < other.rest.len()
        ||| self.rest.len() == other.rest.len() && self.left() < other.left()
    }

    /// The line counter has room for every line that is left to read, and
    /// for the read that meets the end of the source.
    pub open spec fn room(self) -> bool {
        self.line + self.rest.len() < usize::MAX
    }

    /// A step never moves the cursor back, and one that yields a character
    /// moves it forward, onto that character. A step that yields none, or
    /// fails, leaves the source used up.
    pub proof fn lemma_advance(self)
        requires
            self.wf(),
        ensures
            self.advance().wf(),
            self.advance().not_before(self),
            self.advance().line == self.line || self.advance().line == self.line + 1,
            self.peek() is Some ==> self.advance().line == self.line,
            self.advance_result() matches Ok(Some(c)) ==> {
                &&& self.advance().after(self)
                &&& self.room() ==> self.advance().room()
                &&& self.advance().column < self.advance().buf.len()
                &&& self.advance().buf[self.advance().column as int] == c
            },
            !(self.advance_result() matches Ok(Some(_))) ==> {
                &&& self.advance().exhausted()
                &&& self.advance().buf.len() == 0
            },
    {
        lemma_line_len(self.rest);
        let line = self.next_line();
        if self.peek() is None && !self.fails() && valid_utf8(line) {
            if line.len() == 0 {
                assert(self.rest.skip(0) =~= self.rest);
            } else {
                assert(decode_utf8(line).len() > 0);
            }
        }
    }

    /// At the end of the source nothing changes any more but the line count.
    pub proof fn lemma_advance_exhausted(self)
        requires
            self.exhausted(),
        ensures
            self.advance_result() == Ok::<Option<char>, ErrorKind>(None),
            self.advance().exhausted(),
            self.advance().buf.len() == 0,
    {
        lemma_line_len(self.rest);
        assert(self.next_line() =~= Seq::<u8>::empty());
        assert(self.rest.skip(0) =~= self.rest);
    }
}

/// Maps the error of a result to its kind.
pub open spec fn kind_of<T>(r: Result<T, Error>) -> Result<T, ErrorKind> {
    match r {
        Ok(t) => Ok(t),
        Err(e) => Err(e@),
    }
}

/// The index one past the end of the line of `input` that starts at `pos`.
fn line_end(input: &[u8], pos: usize) -> (end: usize)
    requires
        pos <= input@.len(),
    ensures
        pos <= end <= input@.len(),
        end - pos == line_len(input@.skip(pos as int)),
{
    let ghost rest = input@.skip(pos as int);
    let mut i: usize = pos;
    while i < input.len() && input[i] != NEWLINE
        invariant
            pos <= i <= input@.len(),
            rest == input@.skip(pos as int),
            forall|k: int| 0 <= k < i - pos ==> rest[k] != NEWLINE,
        decreases input@.len() - i,
    {
        i += 1;
    }
    if i < input.len() {
        proof {
            assert(rest[i - pos] == NEWLINE);
            lemma_line_len_unique(rest, (i - pos + 1) as nat);
        }
        i + 1
    } else {
        proof {
            assert(!rest.contains(NEWLINE));
            lemma_line_len_unique(rest, (i - pos) as nat);
        }
        i
    }
}

/// A line buffer over a byte source held in memory.
///
/// It reads the source one line at a time, decodes the line as UTF-8 and
/// hands its characters out one by one. `peek` looks one character ahead
/// without leaving the current line. The source may be one that was cut short
/// by a failed read: the buffer then reports the failure once it has handed
/// out what was read before.
#[derive(Debug)]
pub struct BufReadIter<'a> {
    input: &'a [u8],
    pos: usize,
    failure: Option<bool>,
    vec_buf: Vec<char>,
    column: usize,
    line: usize,
}

impl<'a> View for BufReadIter<'a> {
    type V = Cursor;

    closed spec fn view(&self) -> Cursor {
        Cursor {
            rest: self.input@.skip(self.pos as int),
            buf: self.vec_buf@,
            column: self.column as nat,
            line: self.line as nat,
            failure: self.failure,
        }
    }
}

impl<'a> BufReadIter<'a> {
    /// The invariant of the representation.
    #[verifier::type_invariant]
    pub closed spec fn inv(&self) -> bool {
        &&& self.pos <= self.input@.len()
        &&& self.column == 0 || self.column < self.vec_buf@.len()
    }

    /// What the invariant means for the model: the cursor stands inside the
    /// current line.
    pub proof fn lemma_inv(&self)
        requires
            self.inv(),
        ensures
            self@.wf(),
    {
    }

    /// Constructs a line buffer over `input`. Nothing is read yet.
    pub fn new(input: &'a [u8]) -> (r: BufReadIter<'a>)
        ensures
            r@ == Cursor::start(input@),
    {
        let r = BufReadIter {
            input,
            pos: 0,
            failure: None,
            vec_buf: Vec::new(),
            column: 0,
            line: 0,
        };
        assert(r@.rest =~= input@);
        r
    }

    /// Constructs a line buffer over a source that was cut short by a failed
    /// read: `input` holds the lines that were read before, and the read
    /// after them fails. `invalid_data` says whether the failure is that of
    /// data that is not valid.
    pub fn with_failure(input: &'a [u8], invalid_data: bool) -> (r: BufReadIter<'a>)
        ensures
            r@ == Cursor::start_failing(input@, invalid_data),
    {
        let r = BufReadIter {
            input,
            pos: 0,
            failure: Some(invalid_data),
            vec_buf: Vec::new(),
            column: 0,
            line: 0,
        };
        assert(r@.rest =~= input@);
        r
    }

    /// The index in the current line of the character handed out last.
    pub fn column(&self) -> (c: usize)
        ensures
            c == self@.column,
    {
        self.column
    }

    /// The number of the current line, counted from one (zero before the first
    /// read).
    pub fn line(&self) -> (l: usize)
        ensures
            l == self@.line,
    {
        self.line
    }

    /// Reads the next line into the buffer, discarding the old one.
    fn fill_buffer(&mut self) -> (r: Result<(), Error>)
        requires
            old(self)@.line < usize::MAX,
        ensures
            final(self)@ == old(self)@.refill(),
            match r {
                Ok(()) => old(self)@.refill_error() is None,
                Err(e) => old(self)@.refill_error() == Some(e@),
            },
    {
        proof {
            use_type_invariant(&*self);
        }
        self.column = 0;
        self.line += 1;
        if self.pos == self.input.len() {
            if let Some(invalid_data) = self.failure {
                self.failure = None;
                self.vec_buf = Vec::new();
                assert(self@.rest =~= Seq::<u8>::empty());
                assert(old(self)@.rest =~= Seq::<u8>::empty());
                return Err(Error::from(ErrorKind::from_read_failure(invalid_data, self.line)));
            }
        }
        let end: usize = line_end(self.input, self.pos);
        let bytes = slice_subrange(self.input, self.pos, end);
        proof {
            assert(bytes@ == old(self)@.next_line());
            assert(self.input@.skip(end as int) == old(self)@.rest.skip(
                line_len(old(self)@.rest) as int,
            ));
        }
        match core::str::from_utf8(bytes) {
            Ok(s) => {
                self.vec_buf = chars_of(s);
                self.pos = end;
                Ok(())
            },
            Err(_) => {
                self.failure = None;
                self.vec_buf = Vec::new();
                self.pos = self.input.len();
                assert(self@.rest =~= Seq::<u8>::empty());
                Err(Error::from(ErrorKind::Unicode(self.line)))
            },
        }
    }

    /// Advances the buffer and returns the character it now stands at: the
    /// next one of the current line or, where that line is used up, the first
    /// one of the line read next. `Ok(None)` is the end of the source.
    ///
    /// The line counter must have room for one more line where one is read.
    pub fn next(&mut self) -> (r: Result<Option<char>, Error>)
        requires
            old(self)@.peek() is Some || old(self)@.line < usize::MAX,
        ensures
            final(self)@ == old(self)@.advance(),
            kind_of(r) == old(self)@.advance_result(),
    {
        proof {
            use_type_invariant(&*self);
        }
        let len: usize = self.vec_buf.len();
        if self.column < len && self.column + 1 < len {
            self.column += 1;
            Ok(Some(self.vec_buf[self.column]))
        } else {
            match self.fill_buffer() {
                Ok(()) => {
                    if self.column < self.vec_buf.len() {
                        Ok(Some(self.vec_buf[self.column]))
                    } else {
                        Ok(None)
                    }
                },
                Err(e) => Err(e),
            }
        }
    }

    /// Advances the buffer as [`BufReadIter::next`] does, where the grammar
    /// needs a character: the end of the source is an error.
    pub fn expect_next(&mut self) -> (r: Result<char, Error>)
        requires
            old(self)@.peek() is Some || old(self)@.line < usize::MAX,
        ensures
            final(self)@ == old(self)@.advance(),
            kind_of(r) == old(self)@.expect_result(),
    {
        match self.next() {
            Ok(Some(c)) => Ok(c),
            Ok(None) => Err(Error::from(ErrorKind::EndOfInput)),
            Err(e) => Err(e),
        }
    }

    /// Returns the next character of the current line without advancing.
    /// `None` means that the line is used up, not that the source is.
    pub fn peek(&self) -> (r: Option<&char>)
        ensures
            r is Some <==> self@.peek() is Some,
            r matches Some(c) ==> self@.peek() == Some(*c),
    {
        proof {
            use_type_invariant(self);
        }
        let len: usize = self.vec_buf.len();
        if self.column < len && self.column + 1 < len {
            Some(&self.vec_buf[self.column + 1])
        } else {
            None
        }
    }
}

} // verus!
