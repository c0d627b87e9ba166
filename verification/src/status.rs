//! The status a request is answered with when it is not served.

use vstd::prelude::*;

verus! {

/// Status codes of the wire protocol that the store answers with.
#[derive(Debug, Clone, Copy, PartialEq, Eq, Structural)]
pub enum Code {
    InvalidArgument,
    NotFound,
    AlreadyExists,
    PermissionDenied,
    ResourceExhausted,
    FailedPrecondition,
    OutOfRange,
    Unimplemented,
    Internal,
    Unavailable,
    Unauthenticated,
}

/// A refusal: its code and the text that goes with it.
#[derive(Debug, Clone)]
pub struct Status {
    pub code: Code,
    pub message: String,
}

impl Status {
    /// This status has the given code and text.
    pub open spec fn says(self, code: Code, message: Seq<char>) -> bool {
        self.code == code && self.message@ == message
    }

    /// A status from a code and a text.
    pub fn new(code: Code, message: &str) -> (r: Status)
        ensures
            r.says(code, message@),
    {
        Status { code, message: String::from_str(message) }
    }

    /// A status from a code and an owned text.
    pub fn from_string(code: Code, message: String) -> (r: Status)
        ensures
            r.says(code, message@),
    {
        Status { code, message }
    }

    /// The code.
    pub fn code(&self) -> (r: Code)
        ensures
            r == self.code,
    {
        self.code
    }

    /// The text.
    pub fn message(&self) -> (r: &str)
        ensures
            r@ == self.message@,
    {
        self.message.as_str()
    }
}

/// A refusal says one code and one text: those it is made of.
pub proof fn law_refusal_says_one_thing(s: Status, code: Code, message: Seq<char>)
    ensures
        s.says(code, message) <==> s.code == code && s.message@ == message,
{
}

} // verus!
