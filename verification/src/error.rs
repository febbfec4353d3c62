//! The error type of the library: the message that a user gets to read.

use vstd::prelude::*;

verus! {

/// Why something did not work, in words.
#[derive(Debug)]
pub struct Error {
    pub message: String,
}

impl View for Error {
    type V = Seq<char>;

    open spec fn view(&self) -> Seq<char> {
        self.message@
    }
}

/// An error with the given message.
pub fn error(message: String) -> (r: Error)
    ensures
        r@ == message@,
{
    Error { message }
}

/// A result as its characters: the text that it holds, or the message of its error.
pub open spec fn text_result(r: Result<String, Error>) -> Result<Seq<char>, Seq<char>> {
    match r {
        Ok(s) => Ok(s@),
        Err(e) => Err(e@),
    }
}

/// The text of an error is its message; the text of a result is that of its value or of its error.
pub proof fn errors_are_as_viewed(e: Error, s: String)
    ensures
        e@ == e.message@,
        text_result(Ok(s)) == Ok::<Seq<char>, Seq<char>>(s@),
        text_result(Err(e)) == Err::<Seq<char>, Seq<char>>(e.message@),
{
}

} // verus!
