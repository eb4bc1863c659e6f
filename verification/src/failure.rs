//! The error that the library's fallible functions return.

use vstd::prelude::*;

verus! {

/// An error, told apart from others by its message.
#[derive(Debug, Clone)]
pub struct Failure {
    pub message: String,
}

impl View for Failure {
    type V = Seq<char>;

    open spec fn view(&self) -> Seq<char> {
        self.message@
    }
}

/// The failure with the given message.
pub fn failure(message: &str) -> (f: Failure)
    ensures
        f@ == message@,
{
    Failure { message: message.to_owned() }
}

/// The failure whose message is `head` followed by `tail`.
pub fn failure_with(head: &str, tail: &str) -> (f: Failure)
    ensures
        f@ == head@ + tail@,
{
    let mut message = head.to_owned();
    message.append(tail);
    Failure { message }
}

/// A result seen through the views of its text and of its failure.
pub open spec fn text_result(result: Result<String, Failure>) -> Result<Seq<char>, Seq<char>> {
    match result {
        Ok(text) => Ok(text@),
        Err(f) => Err(f@),
    }
}

} // verus!
