//! The ways in which decoding and encoding a datagram can fail.

use vstd::prelude::*;

verus! {

/// Why a run of bytes could not be read as a DNS structure.
#[derive(Debug, Clone, Copy, PartialEq, Eq, Structural)]
pub enum DecodeError {
    /// The input ends before the structure does.
    Truncated,
    /// A name tag byte whose two top bits are neither `00` nor `11`.
    MalformedNameTag,
    /// A compression pointer whose offset lies at or behind the datagram's end.
    PointerOutOfRange,
    /// More compression pointers were chained than a resolution may follow.
    PointerLoop,
    /// A resource record type code outside the known set.
    UnknownRecordType,
    /// A resource record class code outside the known set.
    UnknownRecordClass,
    /// The structure was read but bytes are left over where none may be.
    TrailingData,
}

/// Why a value could not be written in wire format.
#[derive(Debug, Clone, Copy, PartialEq, Eq, Structural)]
pub enum EncodeError {
    /// A label that is empty or longer than 63 bytes.
    LabelLength,
    /// A name that still holds a compression pointer; only resolved names are written.
    UnresolvedPointer,
    /// Record data longer than a 16-bit length prefix can announce.
    DataTooLong,
    /// More questions or answers than a 16-bit header count can announce.
    TooManyRecords,
}

} // verus!
