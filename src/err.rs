//! The library's single error type: a human-readable message.
use vstd::prelude::*;
use vstd::string::StringExecFns;

verus! {

/// An error carrying a human-readable message.
#[derive(Clone, Debug, PartialEq, Eq)]
pub struct MandyErr {
    pub details: String,
}

impl MandyErr {
    /// Creates an error whose message is `details`.
    pub fn new(details: &str) -> (r: MandyErr)
        ensures
            r.details@ == details@,
    {
        MandyErr { details: String::from_str(details) }
    }

    /// The message of this error.
    pub fn to_string(self) -> (r: String)
        ensures
            r@ == self.details@,
    {
        self.details
    }
}

/// Builds the message `prefix`, then `subject`, then `suffix`.
pub fn framed_err(prefix: &str, subject: &str, suffix: &str) -> (r: MandyErr)
    ensures
        r.details@ == prefix@ + subject@ + suffix@,
{
    let mut s = String::from_str(prefix);
    s.append(subject);
    s.append(suffix);
    MandyErr { details: s }
}

/// Builds the message `a`, `x`, `b`, `y`, `c`, in that order.
pub fn framed_err2(a: &str, x: &str, b: &str, y: &str, c: &str) -> (r: MandyErr)
    ensures
        r.details@ == a@ + x@ + b@ + y@ + c@,
{
    let mut s = String::from_str(a);
    s.append(x);
    s.append(b);
    s.append(y);
    s.append(c);
    MandyErr { details: s }
}

} // verus!
