//! The error taxonomy surfaced by header handling and stream construction.
//! Engine compute loops never produce errors: their contract is to run to
//! completion over the stream they are handed.
use vstd::prelude::*;

verus! {

#[derive(Debug)]
pub enum Error {
    /// The input path does not name a file.
    FileNotAvailable(String),
    /// An underlying read or seek failed mid-file.
    IOError,
    /// A required tag exists but holds an unexpected `PTUTag` kind.
    WrongEnumVariant,
    /// Malformed tag name or value, unknown tag-type code, or a missing
    /// required key.
    InvalidHeader(String),
    /// An engine was invoked on a record format it does not support.
    NotImplemented(String),
}

} // verus!
