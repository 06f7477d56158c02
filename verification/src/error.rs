//! The error type of the library.

use vstd::prelude::*;

verus! {

/// A failure, told in words.
#[derive(Debug)]
pub struct Error {
    pub message: String,
}

impl View for Error {
    type V = Seq<char>;

    open spec fn view(&self) -> Seq<char> {
        self.message@
    }
}

impl Error {
    /// A failure with the given message.
    pub fn new(message: String) -> (r: Error)
        ensures
            r@ == message@,
    {
        Error { message }
    }
}

/// A failure says the message that it was made with.
pub proof fn law_failure_says_its_message(message: String, r: Error)
    requires
        call_ensures(Error::new, (message,), r),
    ensures
        r.message@ == message@,
        r@ == r.message@,
{
}

} // verus!
