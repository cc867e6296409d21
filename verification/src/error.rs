//! The error type of the library.

use vstd::prelude::*;
use crate::text::str_concat;

verus! {

/// `std::io::Error`, which is carried and shown, and never looked into.
#[verifier::external_type_specification]
#[verifier::external_body]
pub struct ExIoError(std::io::Error);

/// `serde_json::Error`, which is carried and shown, and never looked into.
#[verifier::external_type_specification]
#[verifier::external_body]
pub struct ExJsonError(serde_json::Error);

/// What can go wrong while a dataset is loaded, searched and turned into
/// documents.
#[derive(Debug)]
pub enum GeojsonError {
    /// Reading the dataset or writing a document failed.
    IoError(std::io::Error),
    /// The dataset is not the JSON that was expected.
    JsonParseError(serde_json::Error),
    /// The user typed something that cannot be used; the text says what.
    InvalidInput(String),
    /// Nothing in the dataset matches the query that is carried here.
    NoMatchFound(String),
    /// The user left a prompt with the quit keyword.
    UserCancelled,
    /// A coordinate pair of the dataset does not have exactly two
    /// components. The dataset is corrupt: this is fatal, and no prompt can
    /// recover from it.
    MalformedCoordinate,
}

impl GeojsonError {
    /// `text` is the message of this error. For the two variants that carry
    /// an error of another library the leading words are fixed, and what
    /// follows them is that error's own description of itself.
    pub open spec fn described_by(&self, text: Seq<char>) -> bool {
        match self {
            GeojsonError::IoError(e) => exists|detail: String|
                #[trigger] vstd::string::to_string_from_display_ensures::<std::io::Error>(e, detail)
                    && text == "File I/O error: "@ + detail@,
            GeojsonError::JsonParseError(e) => exists|detail: String|
                #[trigger] vstd::string::to_string_from_display_ensures::<serde_json::Error>(
                    e,
                    detail,
                ) && text == "JSON parsing error: "@ + detail@,
            GeojsonError::InvalidInput(what) => text == "Invalid input: "@ + what@,
            GeojsonError::NoMatchFound(query) => text == "No matches found for: "@ + query@,
            GeojsonError::UserCancelled => text == "Operation cancelled by user"@,
            GeojsonError::MalformedCoordinate => text
                == "Malformed geometry: a coordinate pair must have exactly 2 components"@,
        }
    }

    /// The message of this error, as it is shown to the user.
    pub fn to_string(&self) -> (text: String)
        ensures
            self.described_by(text@),
    {
        match self {
            GeojsonError::IoError(e) => {
                let detail = e.to_string();
                str_concat("File I/O error: ", detail.as_str())
            },
            GeojsonError::JsonParseError(e) => {
                let detail = e.to_string();
                str_concat("JSON parsing error: ", detail.as_str())
            },
            GeojsonError::InvalidInput(what) => str_concat("Invalid input: ", what.as_str()),
            GeojsonError::NoMatchFound(query) => str_concat("No matches found for: ", query.as_str()),
            GeojsonError::UserCancelled => "Operation cancelled by user".to_owned(),
            GeojsonError::MalformedCoordinate => {
                "Malformed geometry: a coordinate pair must have exactly 2 components".to_owned()
            },
        }
    }
}

impl From<std::io::Error> for GeojsonError {
    fn from(error: std::io::Error) -> (e: GeojsonError) {
        GeojsonError::IoError(error)
    }
}

impl vstd::std_specs::convert::FromSpecImpl<std::io::Error> for GeojsonError {
    open spec fn obeys_from_spec() -> bool {
        true
    }

    open spec fn from_spec(error: std::io::Error) -> GeojsonError {
        GeojsonError::IoError(error)
    }
}

impl From<serde_json::Error> for GeojsonError {
    fn from(error: serde_json::Error) -> (e: GeojsonError) {
        GeojsonError::JsonParseError(error)
    }
}

impl vstd::std_specs::convert::FromSpecImpl<serde_json::Error> for GeojsonError {
    open spec fn obeys_from_spec() -> bool {
        true
    }

    open spec fn from_spec(error: serde_json::Error) -> GeojsonError {
        GeojsonError::JsonParseError(error)
    }
}

} // verus!
