//! Error kinds shared by the codec and the paged protocol loops.

use vstd::prelude::*;

verus! {

/// Everything that can go wrong while encoding, decoding, reading or
/// writing an NDEF message.  Soft stop conditions of a read loop
/// (terminator byte found, warning status, page limit reached) are not
/// errors and do not appear here.
#[derive(Clone, Copy, Debug, PartialEq, Eq, Structural)]
pub enum NdefError {
    /// The transport itself failed, or a page operation returned a fatal
    /// status word; the current operation is aborted without retry.
    TransportFailure,
    /// A page read returned fewer than 4 bytes of data.
    TruncatedPage,
    /// A page write was not acknowledged with the success status.
    PageWriteFailed { page: u8 },
    /// `write_pages` was handed an empty byte stream.
    EmptyPayload,
    /// The decoded buffer holds no NDEF TLV tag byte at all.
    NoNdefTlv,
    /// The TLV length byte signals the extended two-byte form, which is
    /// out of scope and rejected rather than silently truncated.
    UnsupportedExtendedLength,
    /// The record stream starts with fewer bytes than its header needs.
    IncompleteRecordHeader,
    /// The record stream starts with a record whose declared lengths
    /// overrun the remaining bytes.
    IncompleteRecord,
    /// The encoded record bytes do not fit the single-byte TLV length.
    MessageTooLarge,
    /// A record was flagged as a short record but its payload does not
    /// fit the one-byte payload length field.
    PayloadTooLargeForShortRecord,
}

} // verus!
