use vstd::prelude::*;

verus! {

/// The failure conditions surfaced by the storage engine.
///
/// `IoError` covers open/read/write failures on the index, data, or dirstate
/// files (raised by the unverified shell around this library) and short reads
/// of a hunk; `FormatError` signals corruption: an index stream whose byte
/// length is not a multiple of the record size, or a truncated or malformed
/// payload during decode; `OutOfRange` is returned for a revision index at or
/// past the end of a revlog; `EmptyLog` distinguishes "nothing committed yet";
/// `UnsupportedOperation` marks the unimplemented merge/removal paths.
#[derive(Clone, Copy, Debug, PartialEq, Eq, Structural)]
pub enum StoreError {
    IoError,
    FormatError,
    OutOfRange,
    EmptyLog,
    UnsupportedOperation,
}

} // verus!
