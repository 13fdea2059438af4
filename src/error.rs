use vstd::prelude::*;

verus! {

/// The library's error: a human-readable message.
#[derive(Debug, PartialEq)]
pub struct ChumError {
    msg: String,
}

impl View for ChumError {
    type V = Seq<char>;

    closed spec fn view(&self) -> Seq<char> {
        self.msg@
    }
}

impl ChumError {
    pub fn new(msg: &str) -> (r: ChumError)
        ensures
            r@ == msg@,
    {
        ChumError { msg: msg.to_owned() }
    }

    /// Builds an error that owns `msg`.
    pub fn from_message(msg: String) -> (r: ChumError)
        ensures
            r@ == msg@,
    {
        ChumError { msg }
    }

    /// The message carried by this error.
    pub fn message(&self) -> (r: String)
        ensures
            r@ == self@,
    {
        self.msg.clone()
    }
}

} // verus!
