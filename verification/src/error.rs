//! Failures that the protocol engine reports.

use crate::text::{decimal_text, i32_text};
use vstd::prelude::*;
use vstd::string::*;

verus! {

/// A request or a decoded frame that the held schema cannot answer.
#[derive(Debug, Clone)]
pub enum ManifestError {
    /// No entry of the manifest has this id.
    NoSuchEntryId(i32),
    /// No entry of the manifest has this path.
    NoSuchEntryPath(String),
    /// The entry's type tag names none of the six wire types.
    WrongDataType(i32),
    /// No manifest has arrived yet.
    NoManifest(),
}

impl ManifestError {
    /// The message of the error.
    pub open spec fn spec_message(self) -> Seq<char> {
        match self {
            ManifestError::NoSuchEntryId(id) => "Manifest error: no entry with id: "@
                + decimal_text(id as int),
            ManifestError::NoSuchEntryPath(path) => "Manifest error: no entry with path: "@
                + path@,
            ManifestError::WrongDataType(data_type) =>
                "Manifest error: entry has unknown data type: "@ + decimal_text(data_type as int),
            ManifestError::NoManifest() => "Manifest error: manifest has not been retrieved yet"@,
        }
    }

    /// The message of the error, as it is shown to a user.
    pub fn message(&self) -> (text: String)
        ensures
            text@ == self.spec_message(),
    {
        match self {
            ManifestError::NoSuchEntryId(id) => String::from_str(
                "Manifest error: no entry with id: ",
            ).concat(i32_text(*id).as_str()),
            ManifestError::NoSuchEntryPath(path) => String::from_str(
                "Manifest error: no entry with path: ",
            ).concat(path.as_str()),
            ManifestError::WrongDataType(data_type) => String::from_str(
                "Manifest error: entry has unknown data type: ",
            ).concat(i32_text(*data_type).as_str()),
            ManifestError::NoManifest() => String::from_str(
                "Manifest error: manifest has not been retrieved yet",
            ),
        }
    }
}

/// A payload whose bytes cannot be a value of the wire type asked for.
#[derive(Debug, Clone, Copy, PartialEq, Eq, Structural)]
pub enum PayloadError {
    /// A fixed-width value was given another number of bytes than its width.
    WrongLength,
    /// A text payload is not valid UTF-8.
    InvalidUtf8,
    /// A line of the manifest text is neither blank nor a record.
    MalformedManifest,
}

/// Why a frame of the inbound stream could not be decoded.
#[derive(Debug)]
pub enum DecodeError {
    /// The schema cannot tell the wire type of the frame's id.
    Schema(ManifestError),
    /// The payload's bytes are no value of the wire type.
    Payload(PayloadError),
}

} // verus!
