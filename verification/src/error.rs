//! What a refused operation reports.
use vstd::prelude::*;

verus! {

/// A refusal, with the text that tells the user why.
#[derive(Debug)]
pub struct Error {
    pub message: String,
}

impl View for Error {
    type V = Seq<char>;

    open spec fn view(&self) -> Seq<char> {
        self.message@
    }
}

/// A result by what its value and its refusal hold.
pub open spec fn outcome<T: View>(r: Result<T, Error>) -> Result<T::V, Seq<char>> {
    match r {
        Ok(value) => Ok(value@),
        Err(error) => Err(error@),
    }
}

impl Error {
    pub fn new(message: String) -> (r: Error)
        ensures
            r@ == message@,
    {
        Error { message }
    }

    /// A refusal whose text is fixed.
    pub fn fixed(message: &str) -> (r: Error)
        ensures
            r@ == message@,
    {
        Error { message: message.to_owned() }
    }

    /// A refusal whose text is a fixed part followed by what it is about.
    pub fn about(message: &str, subject: &str) -> (r: Error)
        ensures
            r@ == message@ + subject@,
    {
        let mut text = message.to_owned();
        text.append(subject);
        Error { message: text }
    }
}

} // verus!
