//! Data model for NDEF records and messages.

use vstd::prelude::*;

verus! {

/// Mathematical model of one NDEF record, used by all contracts.
pub struct RecordModel {
    /// Type Name Format, a 3-bit classification of the type field.
    pub tnf: u8,
    /// Bytes naming the record's format.
    pub rtype: Seq<u8>,
    /// Opaque payload bytes.
    pub payload: Seq<u8>,
    /// Whether the record uses the short form, whose payload length is
    /// carried in a single byte instead of four big-endian bytes.
    pub is_short_record: bool,
}

impl RecordModel {
    /// Structural limits that the wire format forces: the TNF fits in
    /// 3 bits, the type length in one byte, and the payload length in
    /// four big-endian bytes.
    pub open spec fn wf(self) -> bool {
        &&& self.tnf <= 7
        &&& self.rtype.len() <= 255
        &&& self.payload.len() <= u32::MAX
    }

    /// A short record must carry its payload length in one byte.
    pub open spec fn form_ok(self) -> bool {
        self.is_short_record ==> self.payload.len() <= 255
    }
}

/// One NDEF record: the unit the codec encodes and decodes.
#[derive(Clone, Debug, PartialEq, Eq)]
pub struct NdefRecord {
    /// Type Name Format (well-known, MIME, URI, external, unknown,
    /// unchanged, empty are 0 through 6; 7 is reserved).
    pub tnf: u8,
    /// Bytes naming the record's format.
    pub rtype: Vec<u8>,
    /// Opaque payload bytes.
    pub payload: Vec<u8>,
    /// Whether the payload length is encoded in 1 byte (short form)
    /// rather than 4 bytes big-endian.
    pub is_short_record: bool,
}

impl View for NdefRecord {
    type V = RecordModel;

    open spec fn view(&self) -> RecordModel {
        RecordModel {
            tnf: self.tnf,
            rtype: self.rtype@,
            payload: self.payload@,
            is_short_record: self.is_short_record,
        }
    }
}

/// An ordered sequence of NDEF records; the order is transmission and
/// storage order.  A message may be empty.
#[derive(Clone, Debug, PartialEq, Eq)]
pub struct NdefMessage {
    pub records: Vec<NdefRecord>,
}

/// The models of a sequence of records, in order.
pub open spec fn models_of(rs: Seq<NdefRecord>) -> Seq<RecordModel> {
    rs.map_values(|r: NdefRecord| r@)
}

impl View for NdefMessage {
    type V = Seq<RecordModel>;

    open spec fn view(&self) -> Seq<RecordModel> {
        models_of(self.records@)
    }
}

/// Every record of the message satisfies the wire-format limits.
pub open spec fn wf_message(rs: Seq<RecordModel>) -> bool {
    forall|i: int| 0 <= i < rs.len() ==> (#[trigger] rs[i]).wf()
}

/// Every record of the message carries a payload its chosen form can
/// describe.
pub open spec fn forms_ok(rs: Seq<RecordModel>) -> bool {
    forall|i: int| 0 <= i < rs.len() ==> (#[trigger] rs[i]).form_ok()
}

} // verus!
