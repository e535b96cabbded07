//! Failures of work that is done outside the library.
use vstd::prelude::*;

verus! {

/// Why something that was asked for did not happen, in words.
#[derive(Debug, PartialEq, Eq)]
pub struct Failure {
    pub message: String,
}

impl View for Failure {
    type V = Seq<char>;

    open spec fn view(&self) -> Seq<char> {
        self.message@
    }
}

impl Clone for Failure {
    fn clone(&self) -> (r: Self)
        ensures
            r == *self,
    {
        Failure { message: self.message.clone() }
    }
}

impl Failure {
    /// The failure with the given words.
    pub fn new(message: &str) -> (r: Self)
        ensures
            r@ == message@,
    {
        Failure { message: message.to_owned() }
    }

    /// The failure as the cause of another one.
    pub fn context(self, what: &str) -> (r: Self)
        ensures
            r@ == what@ + ": "@ + self@,
    {
        let mut message = what.to_owned();
        message.append(": ");
        message.append(self.message.as_str());
        Failure { message }
    }
}

} // verus!
