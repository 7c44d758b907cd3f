//! The error values of the library.

use vstd::prelude::*;
use vstd::string::StringExecFns;

verus! {

/// Why an operation on a tag or a container failed.
#[derive(Clone, Copy, Debug, PartialEq, Eq, Structural)]
pub enum Error {
    /// The bytes are no well-formed container: the signature is wrong, a
    /// header is cut short, a declared length runs past the end of the
    /// bytes, or the contents are too large for a 32-bit size field.
    MalformedContainer,
    /// Artwork is stored in an encoding that is no supported image type.
    NotAPicture,
    /// The value cannot be represented by the target format.
    UnsupportedValue,
}

impl Error {
    /// The text of `message`.
    pub open spec fn message_text(self) -> Seq<char> {
        match self {
            Error::MalformedContainer => "malformed container"@,
            Error::NotAPicture => "not a picture"@,
            Error::UnsupportedValue => "unsupported value"@,
        }
    }

    /// A short description of the error.
    pub fn message(&self) -> (r: String)
        ensures
            r@ == self.message_text(),
    {
        match self {
            Error::MalformedContainer => String::from_str("malformed container"),
            Error::NotAPicture => String::from_str("not a picture"),
            Error::UnsupportedValue => String::from_str("unsupported value"),
        }
    }
}

} // verus!
