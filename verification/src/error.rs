//! The error of this crate: a message for the user, with context added in
//! front of the cause.

use vstd::prelude::*;

verus! {

/// An error with a message for the user.
#[derive(Debug)]
pub struct Error {
    message: String,
}

impl View for Error {
    type V = Seq<char>;

    /// The message.
    closed spec fn view(&self) -> Seq<char> {
        self.message@
    }
}

impl Error {
    /// An error with the message `message`.
    pub fn msg(message: String) -> (res: Error)
        ensures
            res@ == message@,
    {
        Error { message }
    }

    /// The message of the error.
    pub fn message(&self) -> (res: &str)
        ensures
            res@ == self@,
    {
        self.message.as_str()
    }

    /// The error with `context` written before it, as
    /// `{context}\nCaused by: {error}`.
    pub fn context(self, context: &str) -> (res: Error)
        ensures
            res@ == context@ + "\nCaused by: "@ + self@,
    {
        let mut message = String::from_str(context);
        message.append("\nCaused by: ");
        message.append(self.message.as_str());
        Error { message }
    }
}

} // verus!
