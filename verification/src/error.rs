//! All errors that can be returned while parsing or serializing cookies.

use vstd::prelude::*;

use crate::util::push_char;

verus! {

/// All errors that can be returned while parsing or serializing cookies.
#[derive(Debug, Clone, Copy, PartialEq, Eq)]
pub enum Error {
    /// No '=' found in the cookie string.
    EqualsNotFound,
    /// Name value is empty.
    NameEmpty,
    /// Name contains the given invalid character.
    InvalidName(char),
    /// Value contains the given invalid character.
    InvalidValue(char),
    /// Unable to format the expires field.
    ExpiresFmt,
    /// Could not percent-decode the cookie.
    PercentDecodeError,
    /// Path attribute contains the given invalid character.
    InvalidPathValue(char),
    /// Path attribute value is empty.
    EmptyPathValue,
    /// Path does not start with a leading '/'.
    NoLeadingSlash,
}

impl Error {
    /// The human-readable description of this error.
    pub open spec fn spec_message(self) -> Seq<char> {
        match self {
            Error::EqualsNotFound => "No '=' found in the cookie"@,
            Error::NameEmpty => "The cookie name is empty"@,
            Error::InvalidName(c) => "The cookie name contains an invalid character: "@ + seq![c],
            Error::InvalidValue(c) => "The cookie value contains an invalid character: "@
                + seq![c],
            Error::ExpiresFmt => "Failed to format the expires value"@,
            Error::PercentDecodeError => "An error occurred while decoding"@,
            Error::InvalidPathValue(c) => "The path attribute contains an invalid character ("@
                + seq![c] + ")"@,
            Error::EmptyPathValue => "The path attribute is empty"@,
            Error::NoLeadingSlash => "The path attribute does not start with a leading slash"@,
        }
    }

    /// A human-readable description of the error.
    pub fn message(&self) -> (r: String)
        ensures
            r@ == self.spec_message(),
    {
        match self {
            Error::EqualsNotFound => String::from_str("No '=' found in the cookie"),
            Error::NameEmpty => String::from_str("The cookie name is empty"),
            Error::InvalidName(c) => {
                let mut s = String::from_str("The cookie name contains an invalid character: ");
                push_char(&mut s, *c);
                proof {
                    assert(s@ =~= "The cookie name contains an invalid character: "@ + seq![*c]);
                }
                s
            },
            Error::InvalidValue(c) => {
                let mut s = String::from_str("The cookie value contains an invalid character: ");
                push_char(&mut s, *c);
                proof {
                    assert(s@ =~= "The cookie value contains an invalid character: "@ + seq![*c]);
                }
                s
            },
            Error::ExpiresFmt => String::from_str("Failed to format the expires value"),
            Error::PercentDecodeError => String::from_str("An error occurred while decoding"),
            Error::InvalidPathValue(c) => {
                let mut s = String::from_str("The path attribute contains an invalid character (");
                push_char(&mut s, *c);
                s.append(")");
                proof {
                    assert(s@ =~= "The path attribute contains an invalid character ("@ + seq![*c]
                        + ")"@);
                }
                s
            },
            Error::EmptyPathValue => String::from_str("The path attribute is empty"),
            Error::NoLeadingSlash => String::from_str(
                "The path attribute does not start with a leading slash",
            ),
        }
    }
}

} // verus!
