//! Errors reported by the library.

use vstd::prelude::*;

verus! {

/// Mathematical image of an [`Error`], with string payloads as character
/// sequences.
pub enum ErrorSpec {
    /// The metadata text is not an array of item records.
    InvalidMetadata,
    /// The configuration has no metadata path entry.
    MissingMetadataPath,
    /// A restore was asked for while no backup tree exists; holds the
    /// missing backup path.
    MissingBackup(Seq<char>),
    /// A backup was asked for while the origin does not exist; holds the
    /// missing origin path.
    MissingOrigin(Seq<char>),
    /// A required flag is absent or disabled; holds the flag name.
    MissingRequiredFlag(Seq<char>),
    /// A flags line has a name but no value; holds the name.
    MissingValue(Seq<char>),
    /// A flags line has a value that is not a boolean; holds the value.
    InvalidValue(Seq<char>),
    /// A filesystem or platform operation failed; holds its message.
    Io(Seq<char>),
}

/// Everything that can go wrong in a hupa operation.
#[derive(Debug, Clone)]
pub enum Error {
    /// The metadata text is not an array of item records.
    InvalidMetadata,
    /// The configuration has no metadata path entry.
    MissingMetadataPath,
    /// A restore was asked for while no backup tree exists; holds the
    /// missing backup path.
    MissingBackup(String),
    /// A backup was asked for while the origin does not exist; holds the
    /// missing origin path.
    MissingOrigin(String),
    /// A required flag is absent or disabled; holds the flag name.
    MissingRequiredFlag(String),
    /// A flags line has a name but no value; holds the name.
    MissingValue(String),
    /// A flags line has a value that is not a boolean; holds the value.
    InvalidValue(String),
    /// A filesystem or platform operation failed; holds its message.
    Io(String),
}

impl View for Error {
    type V = ErrorSpec;

    open spec fn view(&self) -> ErrorSpec {
        match self {
            Error::InvalidMetadata => ErrorSpec::InvalidMetadata,
            Error::MissingMetadataPath => ErrorSpec::MissingMetadataPath,
            Error::MissingBackup(p) => ErrorSpec::MissingBackup(p@),
            Error::MissingOrigin(p) => ErrorSpec::MissingOrigin(p@),
            Error::MissingRequiredFlag(n) => ErrorSpec::MissingRequiredFlag(n@),
            Error::MissingValue(n) => ErrorSpec::MissingValue(n@),
            Error::InvalidValue(v) => ErrorSpec::InvalidValue(v@),
            Error::Io(m) => ErrorSpec::Io(m@),
        }
    }
}

impl Error {
    /// A short description of the error, for display by callers.
    pub fn message(&self) -> String {
        let mut s = String::new();
        match self {
            Error::InvalidMetadata => {
                s.append("metadata is invalid");
            }
            Error::MissingMetadataPath => {
                s.append("there is no metadata path in config");
            }
            Error::MissingBackup(p) => {
                s.append("backup is missing, restore can't be made: ");
                s.append(p.as_str());
            }
            Error::MissingOrigin(p) => {
                s.append("origin is missing, backup can't be made: ");
                s.append(p.as_str());
            }
            Error::MissingRequiredFlag(n) => {
                s.append("required flag is not enabled: ");
                s.append(n.as_str());
            }
            Error::MissingValue(n) => {
                s.append("variable doesn't have a value: ");
                s.append(n.as_str());
            }
            Error::InvalidValue(v) => {
                s.append("value is not a boolean: ");
                s.append(v.as_str());
            }
            Error::Io(m) => {
                s.append(m.as_str());
            }
        }
        s
    }
}

} // verus!
