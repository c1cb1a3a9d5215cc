//! The record-format tags a header can declare. Each supported tag selects
//! one of the decoders; formats that are recognised but not handled map to
//! `NotImplemented` and must never reach an engine.
use vstd::prelude::*;

verus! {

#[allow(non_camel_case_types)]
#[derive(Debug, Clone, Copy, PartialEq, Eq, Structural)]
pub enum RecordType {
    PHT2,
    HHT2_HH1,
    HHT2_HH2,
    HHT3_HH2,
    NotImplemented,
}

/// A supported input file with its header-derived metadata.
pub enum File {
    PTU(crate::ptu::PTUFile),
}

/// The PTU metadata a file carries.
pub open spec fn file_ptu(f: File) -> crate::ptu::PTUFile {
    match f {
        File::PTU(x) => x,
    }
}

} // verus!
