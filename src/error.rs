use core::num::{ParseFloatError, ParseIntError};
use vstd::prelude::*;

verus! {

/// The error that std's integer parsing returns; carried through unchanged.
#[verifier::external_type_specification]
#[verifier::external_body]
pub struct ExParseIntError(ParseIntError);

/// The error that std's float parsing returns; carried through unchanged.
#[verifier::external_type_specification]
#[verifier::external_body]
pub struct ExParseFloatError(ParseFloatError);

/// Every error this library reports.
#[derive(Debug)]
pub enum RTError {
    /// A request that cannot be honoured, with a description.
    Error(String),
    /// Mesh text or mesh topology that is malformed, with a description.
    InvalidGeo(String),
    /// A number field that is not a valid decimal floating-point number.
    ParseFloat(ParseFloatError),
    /// A count or index field that is not a valid unsigned integer.
    ParseInt(ParseIntError),
}

impl From<ParseFloatError> for RTError {
    fn from(err: ParseFloatError) -> (r: RTError) {
        RTError::ParseFloat(err)
    }
}

impl vstd::std_specs::convert::FromSpecImpl<ParseFloatError> for RTError {
    open spec fn obeys_from_spec() -> bool {
        true
    }

    open spec fn from_spec(err: ParseFloatError) -> RTError {
        RTError::ParseFloat(err)
    }
}

impl From<ParseIntError> for RTError {
    fn from(err: ParseIntError) -> (r: RTError) {
        RTError::ParseInt(err)
    }
}

impl vstd::std_specs::convert::FromSpecImpl<ParseIntError> for RTError {
    open spec fn obeys_from_spec() -> bool {
        true
    }

    open spec fn from_spec(err: ParseIntError) -> RTError {
        RTError::ParseInt(err)
    }
}

impl RTError {
    /// The error as text: the description behind a prefix naming the kind, or
    /// std's own wording for a number that did not parse.
    pub fn message(&self) -> (r: String)
        ensures
            self matches RTError::Error(m) ==> r@ == "RTError: "@ + m@,
            self matches RTError::InvalidGeo(m) ==> r@ == "Invalid Geo Mesh: "@ + m@,
    {
        match self {
            RTError::Error(m) => {
                let mut out = String::from_str("RTError: ");
                out.append(m.as_str());
                out
            },
            RTError::InvalidGeo(m) => {
                let mut out = String::from_str("Invalid Geo Mesh: ");
                out.append(m.as_str());
                out
            },
            RTError::ParseFloat(err) => err.to_string(),
            RTError::ParseInt(err) => err.to_string(),
        }
    }
}

} // verus!
