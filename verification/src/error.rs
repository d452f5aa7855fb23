//! Errors of configuration, found before any record is consumed.

use vstd::prelude::*;
use vstd::string::*;

verus! {

/// An option combination that the analytics reject.
#[derive(Clone, Copy, Debug, PartialEq, Eq, Structural)]
pub enum ConfigError {
    /// More than one summary field was selected.
    ConflictingFields,
    /// The list of split bounds has an odd number of elements.
    OddRangeList,
    /// The histogram ceiling is above what the table can hold per value.
    CeilingTooLarge,
}

impl ConfigError {
    /// The text of the message for this error.
    pub open spec fn spec_message(&self) -> Seq<char> {
        match self {
            ConfigError::ConflictingFields => "only one summary field can be selected"@,
            ConfigError::OddRangeList => "split bounds must come in pairs"@,
            ConfigError::CeilingTooLarge => "histogram ceiling is too large"@,
        }
    }

    /// A message for the user.
    pub fn message(&self) -> (text: String)
        ensures
            text@ == self.spec_message(),
    {
        match self {
            ConfigError::ConflictingFields => String::from_str(
                "only one summary field can be selected",
            ),
            ConfigError::OddRangeList => String::from_str("split bounds must come in pairs"),
            ConfigError::CeilingTooLarge => String::from_str("histogram ceiling is too large"),
        }
    }
}

} // verus!
