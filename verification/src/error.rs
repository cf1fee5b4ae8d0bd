//! The ways in which resolving or invoking a function can fail.

use vstd::prelude::*;
use vstd::string::StringExecFns;

verus! {

/// A failure of a whole lookup or batch evaluation. Row-level anomalies
/// (a missing JSON field, a null argument) are not errors: they yield null.
#[derive(Debug, Clone, PartialEq, Eq)]
pub enum ExtFunctionError {
    /// The identifier names no entry of the catalogue.
    Unimplemented(String),
    /// A decimal does not fit the target precision under the strict policy.
    ArithmeticOverflow,
    /// The reserved placeholder entry was invoked.
    InvariantViolation,
    /// The arguments do not have the shape the function takes.
    InvalidArguments,
}

impl ExtFunctionError {
    /// The text shown for an error.
    pub open spec fn message_spec(self) -> Seq<char> {
        match self {
            ExtFunctionError::Unimplemented(name) => "spark ext function not implemented: "@
                + name@,
            ExtFunctionError::ArithmeticOverflow => "arithmetic overflow"@,
            ExtFunctionError::InvariantViolation => "placeholder() should never be called"@,
            ExtFunctionError::InvalidArguments => "invalid arguments"@,
        }
    }

    /// Renders the error as text.
    pub fn message(&self) -> (s: String)
        ensures
            s@ == self.message_spec(),
    {
        match self {
            ExtFunctionError::Unimplemented(name) => String::from_str(
                "spark ext function not implemented: ",
            ).concat(name.as_str()),
            ExtFunctionError::ArithmeticOverflow => String::from_str("arithmetic overflow"),
            ExtFunctionError::InvariantViolation => String::from_str(
                "placeholder() should never be called",
            ),
            ExtFunctionError::InvalidArguments => String::from_str("invalid arguments"),
        }
    }
}

} // verus!
