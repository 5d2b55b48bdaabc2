//! The error kinds that every operation of the service reports.

use vstd::prelude::*;
use vstd::std_specs::convert::FromSpecImpl;
use vstd::string::StringExecFns;

verus! {

/// How a refusal for want of rights is spelled where errors travel as text.
pub const ERR_UNAUTHORIZED: &'static str = "unauthorized";

/// Why an operation was refused.
#[derive(Clone, Copy, Debug, PartialEq, Eq, Structural)]
pub enum Error {
    /// Stored bytes that cannot be read, a key that does not parse, a total
    /// that does not fit, or a failed transfer.
    Internal,
    /// The thing to create is already there.
    AlreadyExists,
    /// A key is missing from its map.
    NotFound,
    /// The caller is not the party that may do this.
    InvalidSigner,
    /// The caller's role does not allow the operation.
    Unauthorized,
    /// The signature does not cover the payload.
    InvalidSignature,
    /// The signature bytes are not a signature.
    InvalidSignatureFormat,
    /// The payload bytes are not a telemetry sample.
    DecodeTelemetry,
    /// A price that is no decimal, or a time outside the calendar.
    InvalidData,
}

impl Error {
    /// The text of an error: a refusal for want of rights is spelled out,
    /// every other error is "unknown".
    pub open spec fn text(self) -> Seq<char> {
        if self == Error::Unauthorized {
            "unauthorized"@
        } else {
            "unknown"@
        }
    }

    /// The error that a text stands for: `Unauthorized` where it spells
    /// that, `Internal` for any other text.
    pub open spec fn of_text(text: Seq<char>) -> Error {
        if text == "unauthorized"@ {
            Error::Unauthorized
        } else {
            Error::Internal
        }
    }

    /// The text of the error.
    pub fn to_text(&self) -> (r: String)
        ensures
            r@ == self.text(),
    {
        match self {
            Error::Unauthorized => String::from_str("unauthorized"),
            _ => String::from_str("unknown"),
        }
    }
}

impl From<String> for Error {
    fn from(value: String) -> (r: Error) {
        let spelled = String::from_str("unauthorized");
        if value == spelled {
            Error::Unauthorized
        } else {
            Error::Internal
        }
    }
}

impl FromSpecImpl<String> for Error {
    open spec fn obeys_from_spec() -> bool {
        true
    }

    open spec fn from_spec(value: String) -> Error {
        Error::of_text(value@)
    }
}

/// A refusal for want of rights survives the way through text.
pub proof fn law_unauthorized_survives_text()
    ensures
        Error::of_text(Error::Unauthorized.text()) == Error::Unauthorized,
{
}

} // verus!
