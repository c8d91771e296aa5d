//! The conditions under which the library refuses to go on.

use vstd::prelude::*;

verus! {

#[verifier::external_type_specification]
#[verifier::external_body]
pub struct ExCsvError(csv::Error);

/// A malformed exchange table, with the index of the offending data row
/// (0 for the first row under the header).
#[derive(Debug, Clone, Copy, PartialEq, Eq)]
pub enum TableError {
    /// The first row is not the expected header.
    BadHeader,
    /// A row does not have one field per column.
    WrongArity(usize),
    /// A track field is neither empty nor an unsigned number.
    BadTrack(usize),
    /// A year field is neither empty nor a signed number.
    BadYear(usize),
}

#[derive(Debug)]
pub enum SyncError {
    /// The path's extension names no supported tag container.
    UnsupportedFileType(String),
    /// Writing to the path would overwrite an existing file.
    AlreadyExists(String),
    /// The external encoder cannot be run.
    FfmpegNotInstalled,
    /// None of the files handed to the encoder is a WAV file.
    NoWavInput,
    /// The text could not be read or written as tab-delimited records.
    Csv(csv::Error),
    /// The records do not form an exchange table.
    Table(TableError),
}

} // verus!
