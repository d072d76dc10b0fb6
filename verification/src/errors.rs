//! Errors of the resource layer.

use vstd::prelude::*;

verus! {

#[derive(Clone, Debug)]
pub enum Error {
    /// A signature did not verify.
    InvalidSignature,
    /// Reading or writing failed; the text says how.
    Io(String),
}

impl Error {
    /// The message that goes with the error.
    pub fn message(&self) -> (text: String)
        ensures
            text@ == match *self {
                Error::InvalidSignature => "Invalid signature"@,
                Error::Io(detail) => "IO error: "@ + detail@,
            },
    {
        match self {
            Error::InvalidSignature => "Invalid signature".to_owned(),
            Error::Io(detail) => {
                let mut text = "IO error: ".to_owned();
                text.append(detail.as_str());
                text
            },
        }
    }
}

} // verus!
