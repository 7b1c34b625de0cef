//! Error taxonomy of the launcher.
//!
//! Cancellation by the operator is deliberately *not* here: it is an ordinary
//! outcome (`select::SelectionOutcome::Cancelled`), never an error.

use vstd::prelude::*;
use vstd::string::StringExecFns;

verus! {

/// Everything that can go wrong while fetching metadata, extracting targets
/// or dispatching a run, apart from the operator quitting on purpose.
#[derive(Debug)]
pub enum LauncherError {
    /// The external command could not be spawned at all.
    ExternalCommandUnavailable,
    /// The external command ran but reported failure.
    ExternalCommandFailed,
    /// The metadata bytes were not valid text.
    EncodingError,
    /// The metadata text could not be parsed into a document.
    MalformedMetadata,
    /// A field of the metadata document was absent or of the wrong shape;
    /// carries the field's name.
    SchemaError(String),
}

impl LauncherError {
    /// The diagnostic text of this error, as a sequence of characters.
    pub open spec fn message_view(&self) -> Seq<char> {
        match self {
            LauncherError::ExternalCommandUnavailable => "external command could not be launched"@,
            LauncherError::ExternalCommandFailed => "external command reported failure"@,
            LauncherError::EncodingError => "metadata output was not valid text"@,
            LauncherError::MalformedMetadata => "metadata output could not be parsed"@,
            LauncherError::SchemaError(field) => "missing or mismatched metadata field: "@
                + field@,
        }
    }

    /// Renders the diagnostic text of this error.
    pub fn message(&self) -> (m: String)
        ensures
            m@ == self.message_view(),
    {
        match self {
            LauncherError::ExternalCommandUnavailable => String::from_str(
                "external command could not be launched",
            ),
            LauncherError::ExternalCommandFailed => String::from_str(
                "external command reported failure",
            ),
            LauncherError::EncodingError => String::from_str("metadata output was not valid text"),
            LauncherError::MalformedMetadata => String::from_str(
                "metadata output could not be parsed",
            ),
            LauncherError::SchemaError(field) => String::from_str(
                "missing or mismatched metadata field: ",
            ).concat(field.as_str()),
        }
    }
}

} // verus!
