//! The parser's state. Parsing itself is left to the caller: this is the
//! line buffer that a parser reads from.

use crate::bufread::{BufReadIter, Cursor};
use vstd::prelude::*;

verus! {

/// A structure for parsing an input stream.
#[derive(Debug)]
pub struct Parser<'a> {
    input: BufReadIter<'a>,
}

impl<'a> View for Parser<'a> {
    type V = Cursor;

    closed spec fn view(&self) -> Cursor {
        self.input@
    }
}

impl<'a> Parser<'a> {
    /// Constructs a parser over `input`. Nothing is read yet.
    pub fn new(input: &'a [u8]) -> (r: Parser<'a>)
        ensures
            r@ == Cursor::start(input@),
    {
        Parser { input: BufReadIter::new(input) }
    }
}

} // verus!
