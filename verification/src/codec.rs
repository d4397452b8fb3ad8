//! Encoding and decoding of TLV-wrapped NDEF record streams.

use vstd::prelude::*;

use crate::error::NdefError;
use crate::records::{models_of, forms_ok, wf_message, NdefMessage, NdefRecord, RecordModel};
use vstd::string::*;

verus! {

/// TLV tag byte that opens an NDEF message container.
pub const NDEF_TLV_TAG: u8 = 0x03;

/// Terminator TLV byte that may close the on-tag layout.
pub const TERMINATOR: u8 = 0xFE;

/// The header byte of a record: the TNF in the low 3 bits, and the
/// short-record flag at bit 0x10.
pub open spec fn spec_header_byte(r: RecordModel) -> u8 {
    if r.is_short_record {
        r.tnf | 0x10
    } else {
        r.tnf
    }
}

/// The value of four big-endian bytes.
pub open spec fn spec_be32_val(b0: u8, b1: u8, b2: u8, b3: u8) -> int {
    b0 * 0x1000000 + b1 * 0x10000 + b2 * 0x100 + b3
}

/// The four big-endian bytes of a 32-bit value.
pub open spec fn spec_be32_bytes(n: u32) -> Seq<u8> {
    seq![(n / 0x1000000) as u8, ((n / 0x10000) % 0x100) as u8, ((n / 0x100) % 0x100) as u8, (
    n % 0x100) as u8]
}

/// The wire form of one record: header byte, type length byte, payload
/// length (1 byte short form, 4 bytes big-endian otherwise), type
/// bytes, payload bytes, in that fixed order with no padding.
pub open spec fn spec_encode_record(r: RecordModel) -> Seq<u8> {
    if r.is_short_record {
        seq![spec_header_byte(r), r.rtype.len() as u8, r.payload.len() as u8] + r.rtype
            + r.payload
    } else {
        seq![spec_header_byte(r), r.rtype.len() as u8] + spec_be32_bytes(r.payload.len() as u32)
            + r.rtype + r.payload
    }
}

/// The concatenated wire forms of a record sequence, in order.
pub open spec fn spec_encode_records(rs: Seq<RecordModel>) -> Seq<u8>
    decreases rs.len(),
{
    if rs.len() == 0 {
        Seq::empty()
    } else {
        spec_encode_record(rs[0]) + spec_encode_records(rs.skip(1))
    }
}

/// The full encoder: rejects a short record whose payload does not fit
/// one length byte, rejects a message whose record bytes exceed the
/// single-byte TLV length, and otherwise wraps the record bytes in the
/// NDEF TLV and appends the terminator byte.
pub open spec fn spec_encode(rs: Seq<RecordModel>) -> Result<Seq<u8>, NdefError> {
    if !forms_ok(rs) {
        Err(NdefError::PayloadTooLargeForShortRecord)
    } else if spec_encode_records(rs).len() > 254 {
        Err(NdefError::MessageTooLarge)
    } else {
        Ok(
            seq![NDEF_TLV_TAG, spec_encode_records(rs).len() as u8] + spec_encode_records(rs)
                + seq![TERMINATOR],
        )
    }
}

/// The index of the first NDEF TLV tag byte, if any.
pub open spec fn spec_first_tlv(b: Seq<u8>) -> Option<int>
    decreases b.len(),
{
    if b.len() == 0 {
        None
    } else if b[0] == NDEF_TLV_TAG {
        Some(0)
    } else {
        match spec_first_tlv(b.skip(1)) {
            None => None,
            Some(i) => Some(i + 1),
        }
    }
}

/// One record parsed from the front of `d`: the record and its total
/// wire length, or the error that the front of a record stream raises.
pub open spec fn spec_parse_record(d: Seq<u8>) -> Result<(RecordModel, int), NdefError> {
    if d.len() < 3 {
        Err(NdefError::IncompleteRecordHeader)
    } else {
        let tnf = d[0] & 0x07;
        let short = d[0] & 0x10 != 0;
        let tlen = d[1] as int;
        if short {
            let plen = d[2] as int;
            let total = 3 + tlen + plen;
            if d.len() < total {
                Err(NdefError::IncompleteRecord)
            } else {
                Ok(
                    (
                        (RecordModel {
                            tnf: tnf,
                            rtype: d.subrange(3, 3 + tlen),
                            payload: d.subrange(3 + tlen, total),
                            is_short_record: true,
                        }),
                        total,
                    ),
                )
            }
        } else {
            if d.len() < 6 {
                Err(NdefError::IncompleteRecordHeader)
            } else {
                let plen = spec_be32_val(d[2], d[3], d[4], d[5]);
                let total = 6 + tlen + plen;
                if d.len() < total {
                    Err(NdefError::IncompleteRecord)
                } else {
                    Ok(
                        (
                            (RecordModel {
                                tnf: tnf,
                                rtype: d.subrange(6, 6 + tlen),
                                payload: d.subrange(6 + tlen, total),
                                is_short_record: false,
                            }),
                            total,
                        ),
                    )
                }
            }
        }
    }
}

/// The records parsed leniently from `d`: parsing stops, without an
/// error, at the first malformed or incomplete trailing record.
pub open spec fn spec_parse_rest(d: Seq<u8>) -> Seq<RecordModel>
    decreases d.len(),
{
    if d.len() == 0 {
        Seq::empty()
    } else {
        match spec_parse_record(d) {
            Err(_) => Seq::empty(),
            Ok((r, total)) => seq![r] + spec_parse_rest(d.skip(total)),
        }
    }
}

/// The record stream parser: malformed bytes at the very start fail
/// the parse; malformed trailing bytes after the first record are
/// dropped silently.
pub open spec fn spec_parse_records(d: Seq<u8>) -> Result<Seq<RecordModel>, NdefError> {
    if d.len() == 0 {
        Ok(Seq::empty())
    } else {
        match spec_parse_record(d) {
            Err(e) => Err(e),
            Ok(_) => Ok(spec_parse_rest(d)),
        }
    }
}

/// The full decoder: locates the first TLV tag byte (failing with
/// `NoNdefTlv` when there is none), reads the length byte after it
/// (absent means zero; 0xFF signals the unsupported extended form),
/// clips the announced payload to the bytes that are actually there,
/// and parses the record stream inside it.
pub open spec fn spec_decode(b: Seq<u8>) -> Result<Seq<RecordModel>, NdefError> {
    match spec_first_tlv(b) {
        None => Err(NdefError::NoNdefTlv),
        Some(i) => {
            let l: int = if i + 1 < b.len() {
                b[i + 1] as int
            } else {
                0
            };
            if l == 0xFF {
                Err(NdefError::UnsupportedExtendedLength)
            } else {
                let start: int = if i + 2 <= b.len() {
                    i + 2
                } else {
                    b.len() as int
                };
                let end: int = if i + 2 + l <= b.len() {
                    i + 2 + l
                } else {
                    b.len() as int
                };
                spec_parse_records(b.subrange(start, end))
            }
        },
    }
}

proof fn lemma_first_tlv_is(b: Seq<u8>, i: int)
    requires
        0 <= i < b.len(),
        b[i] == NDEF_TLV_TAG,
        forall|j: int| 0 <= j < i ==> b[j] != NDEF_TLV_TAG,
    ensures
        spec_first_tlv(b) == Some(i),
    decreases i,
{
    if i == 0 {
    } else {
        assert(b[0] != NDEF_TLV_TAG);
        assert(b.skip(1)[i - 1] == b[i]);
        assert forall|j: int| 0 <= j < i - 1 implies b.skip(1)[j] != NDEF_TLV_TAG by {
            assert(b.skip(1)[j] == b[j + 1]);
        }
        lemma_first_tlv_is(b.skip(1), i - 1);
    }
}

proof fn lemma_first_tlv_none(b: Seq<u8>)
    requires
        forall|j: int| 0 <= j < b.len() ==> b[j] != NDEF_TLV_TAG,
    ensures
        spec_first_tlv(b) == None::<int>,
    decreases b.len(),
{
    if b.len() == 0 {
    } else {
        assert forall|j: int| 0 <= j < b.skip(1).len() implies b.skip(1)[j] != NDEF_TLV_TAG by {
            assert(b.skip(1)[j] == b[j + 1]);
        }
        lemma_first_tlv_none(b.skip(1));
    }
}

/// Appends every byte of `src` to `dst`, in order.
pub fn push_all(dst: &mut Vec<u8>, src: &Vec<u8>)
    ensures
        final(dst)@ == old(dst)@ + src@,
{
    let mut k: usize = 0;
    while k < src.len()
        invariant
            k <= src.len(),
            dst@ == old(dst)@ + src@.subrange(0, k as int),
        decreases src.len() - k,
    {
        dst.push(src[k]);
        proof {
            assert(dst@ =~= old(dst)@ + src@.subrange(0, k + 1));
        }
        k = k + 1;
    }
    proof {
        assert(dst@ =~= old(dst)@ + src@);
    }
}

/// Copies the bytes of `src` between `from` and `to` into a fresh
/// buffer.
pub fn copy_range(src: &Vec<u8>, from: usize, to: usize) -> (out: Vec<u8>)
    requires
        from <= to <= src@.len(),
    ensures
        out@ == src@.subrange(from as int, to as int),
{
    let mut out: Vec<u8> = Vec::new();
    let mut k: usize = from;
    while k < to
        invariant
            from <= k <= to <= src@.len(),
            out@ == src@.subrange(from as int, k as int),
        decreases to - k,
    {
        out.push(src[k]);
        proof {
            assert(out@ =~= src@.subrange(from as int, k + 1));
        }
        k = k + 1;
    }
    out
}

/// Encodes one record into its wire form.
pub fn encode_record(r: &NdefRecord) -> (out: Vec<u8>)
    requires
        r@.wf(),
        r@.form_ok(),
    ensures
        out@ == spec_encode_record(r@),
{
    let mut out: Vec<u8> = Vec::new();
    let header: u8 = if r.is_short_record {
        r.tnf | 0x10
    } else {
        r.tnf
    };
    out.push(header);
    out.push(r.rtype.len() as u8);
    if r.is_short_record {
        out.push(r.payload.len() as u8);
        proof {
            assert(out@ =~= seq![
                spec_header_byte(r@),
                r@.rtype.len() as u8,
                r@.payload.len() as u8,
            ]);
        }
    } else {
        let n: u32 = r.payload.len() as u32;
        out.push((n / 0x1000000) as u8);
        out.push(((n / 0x10000) % 0x100) as u8);
        out.push(((n / 0x100) % 0x100) as u8);
        out.push((n % 0x100) as u8);
        proof {
            assert(out@ =~= seq![spec_header_byte(r@), r@.rtype.len() as u8] + spec_be32_bytes(
                r@.payload.len() as u32,
            ));
        }
    }
    push_all(&mut out, &r.rtype);
    push_all(&mut out, &r.payload);
    proof {
        assert(out@ =~= spec_encode_record(r@));
    }
    out
}

proof fn lemma_encode_records_push(rs: Seq<RecordModel>, r: RecordModel)
    ensures
        spec_encode_records(rs.push(r)) == spec_encode_records(rs) + spec_encode_record(r),
    decreases rs.len(),
{
    if rs.len() == 0 {
        assert(rs.push(r).skip(1) =~= Seq::<RecordModel>::empty());
        assert(rs.push(r)[0] == r);
        assert(spec_encode_records(rs.push(r)) == spec_encode_record(r) + spec_encode_records(
            Seq::<RecordModel>::empty(),
        ));
        assert(spec_encode_record(r) + Seq::<u8>::empty() =~= Seq::<u8>::empty()
            + spec_encode_record(r));
    } else {
        assert(rs.push(r).skip(1) =~= rs.skip(1).push(r));
        assert(rs.push(r)[0] == rs[0]);
        assert(spec_encode_records(rs.push(r)) == spec_encode_record(rs[0])
            + spec_encode_records(rs.skip(1).push(r)));
        lemma_encode_records_push(rs.skip(1), r);
        assert(spec_encode_records(rs) == spec_encode_record(rs[0]) + spec_encode_records(
            rs.skip(1),
        ));
        let a = spec_encode_record(rs[0]);
        let b = spec_encode_records(rs.skip(1));
        let c = spec_encode_record(r);
        assert(a + (b + c) =~= (a + b) + c);
        assert(spec_encode_records(rs.push(r)) == spec_encode_records(rs) + spec_encode_record(
            r,
        ));
    }
}

proof fn lemma_be32_round_trip(n: u32)
    ensures
        spec_be32_val(
            (n / 0x1000000) as u8,
            ((n / 0x10000) % 0x100) as u8,
            ((n / 0x100) % 0x100) as u8,
            (n % 0x100) as u8,
        ) == n,
{
    assert((n / 0x1000000) as u8 * 0x1000000 + ((n / 0x10000) % 0x100) as u8 * 0x10000 + ((n
        / 0x100) % 0x100) as u8 * 0x100 + (n % 0x100) as u8 == n) by (bit_vector);
}

proof fn lemma_header_bits(tnf: u8)
    requires
        tnf <= 7,
    ensures
        (tnf | 0x10) & 0x07 == tnf,
        (tnf | 0x10) & 0x10 != 0,
        tnf & 0x07 == tnf,
        tnf & 0x10 == 0,
{
    assert(tnf <= 7 ==> ((tnf | 0x10) & 0x07 == tnf && (tnf | 0x10) & 0x10 != 0 && tnf & 0x07
        == tnf && tnf & 0x10 == 0)) by (bit_vector);
}

proof fn lemma_parse_encoded_record(r: RecordModel, tail: Seq<u8>)
    requires
        r.wf(),
        r.form_ok(),
    ensures
        spec_parse_record(spec_encode_record(r) + tail) == Ok::<(RecordModel, int), NdefError>(
            (r, spec_encode_record(r).len() as int),
        ),
{
    let e = spec_encode_record(r);
    let d = e + tail;
    lemma_header_bits(r.tnf);
    if r.is_short_record {
        let total = 3 + r.rtype.len() + r.payload.len();
        assert(e.len() == total);
        assert(d[0] == spec_header_byte(r));
        assert(d[1] == r.rtype.len() as u8);
        assert(d[2] == r.payload.len() as u8);
        assert((r.rtype.len() as u8) as int == r.rtype.len());
        assert((r.payload.len() as u8) as int == r.payload.len());
        assert(d[0] & 0x10 != 0);
        assert(d[0] & 0x07 == r.tnf);
        assert(d.subrange(3, 3 + r.rtype.len() as int) =~= r.rtype);
        assert(d.subrange(3 + r.rtype.len() as int, total as int) =~= r.payload);
    } else {
        let total = 6 + r.rtype.len() + r.payload.len();
        let n = r.payload.len() as u32;
        assert(e.len() == total);
        assert(d[0] == spec_header_byte(r));
        assert(d[1] == r.rtype.len() as u8);
        assert((r.rtype.len() as u8) as int == r.rtype.len());
        assert(d[2] == spec_be32_bytes(n)[0]);
        assert(d[3] == spec_be32_bytes(n)[1]);
        assert(d[4] == spec_be32_bytes(n)[2]);
        assert(d[5] == spec_be32_bytes(n)[3]);
        lemma_be32_round_trip(n);
        assert(spec_be32_val(d[2], d[3], d[4], d[5]) == r.payload.len());
        assert(d[0] & 0x10 == 0);
        assert(d[0] & 0x07 == r.tnf);
        assert(d.subrange(6, 6 + r.rtype.len() as int) =~= r.rtype);
        assert(d.subrange(6 + r.rtype.len() as int, total as int) =~= r.payload);
    }
}

proof fn lemma_parse_rest_encoded(rs: Seq<RecordModel>)
    requires
        wf_message(rs),
        forms_ok(rs),
    ensures
        spec_parse_rest(spec_encode_records(rs)) == rs,
    decreases rs.len(),
{
    if rs.len() == 0 {
        assert(spec_parse_rest(spec_encode_records(rs)) =~= rs);
    } else {
        let e0 = spec_encode_record(rs[0]);
        let tail = spec_encode_records(rs.skip(1));
        let body = spec_encode_records(rs);
        assert(body == e0 + tail);
        lemma_parse_encoded_record(rs[0], tail);
        assert(e0.len() >= 3);
        assert(body.skip(e0.len() as int) =~= tail);
        assert forall|i: int| 0 <= i < rs.skip(1).len() implies (#[trigger] rs.skip(
            1,
        )[i]).wf() && rs.skip(1)[i].form_ok() by {
            assert(rs.skip(1)[i] == rs[i + 1]);
        }
        lemma_parse_rest_encoded(rs.skip(1));
        assert(spec_parse_rest(body) == seq![rs[0]] + rs.skip(1));
        assert(seq![rs[0]] + rs.skip(1) =~= rs);
    }
}

/// Round trip: whatever bytes `spec_encode` produces for a
/// well-formed message, `spec_decode` recovers exactly that message.
pub proof fn lemma_round_trip(rs: Seq<RecordModel>, bytes: Seq<u8>)
    requires
        wf_message(rs),
        spec_encode(rs) == Ok::<Seq<u8>, NdefError>(bytes),
    ensures
        spec_decode(bytes) == Ok::<Seq<RecordModel>, NdefError>(rs),
{
    let body = spec_encode_records(rs);
    assert(forms_ok(rs));
    assert(body.len() <= 254);
    assert(bytes == seq![NDEF_TLV_TAG, body.len() as u8] + body + seq![TERMINATOR]);
    assert(bytes.len() == body.len() + 3);
    assert(bytes[0] == NDEF_TLV_TAG);
    lemma_first_tlv_is(bytes, 0);
    assert(bytes[1] == body.len() as u8);
    assert((body.len() as u8) as int == body.len());
    let l: int = body.len() as int;
    assert(bytes.subrange(2, 2 + l) =~= body);
    if rs.len() == 0 {
        assert(body.len() == 0);
        assert(spec_parse_records(body) == Ok::<Seq<RecordModel>, NdefError>(
            Seq::<RecordModel>::empty(),
        ));
        assert(rs =~= Seq::<RecordModel>::empty());
    } else {
        lemma_parse_encoded_record(rs[0], spec_encode_records(rs.skip(1)));
        assert(body == spec_encode_record(rs[0]) + spec_encode_records(rs.skip(1)));
        assert(body.len() > 0);
        lemma_parse_rest_encoded(rs);
        assert(spec_parse_records(body) == Ok::<Seq<RecordModel>, NdefError>(rs));
    }
}

/// Boundary between the record forms: a record that is not short
/// always carries the 6-byte header, in particular one with a 255-byte
/// payload; a short record (payload up to 255 bytes, 254 in
/// particular) carries the 3-byte header.
pub proof fn lemma_short_long_boundary(r: RecordModel)
    requires
        r.wf(),
        r.form_ok(),
    ensures
        !r.is_short_record ==> spec_encode_record(r).len() == 6 + r.rtype.len()
            + r.payload.len(),
        r.is_short_record ==> spec_encode_record(r).len() == 3 + r.rtype.len() + r.payload.len(),
{
}

/// A buffer that holds no NDEF TLV tag byte anywhere fails to decode
/// with `NoNdefTlv`.
pub proof fn lemma_no_tlv_fails(b: Seq<u8>)
    requires
        forall|j: int| 0 <= j < b.len() ==> b[j] != NDEF_TLV_TAG,
    ensures
        spec_decode(b) == Err::<Seq<RecordModel>, NdefError>(NdefError::NoNdefTlv),
{
    lemma_first_tlv_none(b);
}

/// Parses one record starting at `offset` of the record stream `p`.
/// On success also returns the record's total wire length.
pub fn parse_record_at(p: &Vec<u8>, offset: usize) -> (out: Result<(NdefRecord, usize), NdefError>)
    requires
        offset < p@.len(),
    ensures
        (match out {
            Ok((rec, total)) => {
                &&& spec_parse_record(p@.skip(offset as int)) == Ok::<(RecordModel, int), NdefError>(
                    (rec@, total as int),
                )
                &&& 3 <= total
                &&& offset + total <= p@.len()
                &&& rec@.wf()
                &&& rec@.form_ok()
            },
            Err(e) => spec_parse_record(p@.skip(offset as int)) == Err::<(RecordModel, int),
                NdefError,
            >(e),
        }),
{
    let ghost d = p@.skip(offset as int);
    let remaining = p.len() - offset;
    if remaining < 3 {
        return Err(NdefError::IncompleteRecordHeader);
    }
    let header = p[offset];
    let tnf: u8 = header & 0x07;
    let short = header & 0x10 != 0;
    let tlen = p[offset + 1] as usize;
    proof {
        assert(d[0] == p@[offset as int]);
        assert(d[1] == p@[offset as int + 1]);
        assert(d[2] == p@[offset as int + 2]);
    }
    let hsize: usize;
    let plen: usize;
    if short {
        plen = p[offset + 2] as usize;
        hsize = 3;
    } else {
        if remaining < 6 {
            return Err(NdefError::IncompleteRecordHeader);
        }
        proof {
            assert(d[3] == p@[offset as int + 3]);
            assert(d[4] == p@[offset as int + 4]);
            assert(d[5] == p@[offset as int + 5]);
        }
        let b0 = p[offset + 2] as u32;
        let b1 = p[offset + 3] as u32;
        let b2 = p[offset + 4] as u32;
        let b3 = p[offset + 5] as u32;
        let n: u32 = b0 * 0x1000000 + b1 * 0x10000 + b2 * 0x100 + b3;
        proof {
            assert(n == spec_be32_val(d[2], d[3], d[4], d[5]));
        }
        plen = n as usize;
        hsize = 6;
    }
    let rest = remaining - hsize;
    if rest < tlen {
        return Err(NdefError::IncompleteRecord);
    }
    if rest - tlen < plen {
        return Err(NdefError::IncompleteRecord);
    }
    let total = hsize + tlen + plen;
    let rtype = copy_range(p, offset + hsize, offset + hsize + tlen);
    let payload = copy_range(p, offset + hsize + tlen, offset + total);
    let rec = NdefRecord { tnf, rtype, payload, is_short_record: short };
    proof {
        assert(rtype@ =~= d.subrange(hsize as int, hsize + tlen));
        assert(payload@ =~= d.subrange(hsize + tlen, total as int));
        assert(tnf <= 7) by (bit_vector)
            requires
                tnf == header & 0x07,
        ;
    }
    Ok((rec, total))
}

/// Decodes a TLV-wrapped byte stream, as read off a tag, into the
/// records of its NDEF message.  Success and every error are pinned by
/// `spec_decode`; every decoded record respects the wire-format limits.
pub fn decode(buffer: &Vec<u8>) -> (out: Result<NdefMessage, NdefError>)
    ensures
        (match out {
            Ok(m) => {
                &&& spec_decode(buffer@) == Ok::<Seq<RecordModel>, NdefError>(m@)
                &&& wf_message(m@)
                &&& forms_ok(m@)
            },
            Err(e) => spec_decode(buffer@) == Err::<Seq<RecordModel>, NdefError>(e),
        }),
{
    let n = buffer.len();
    let mut i: usize = 0;
    let mut found = false;
    while i < n && !found
        invariant
            n == buffer@.len(),
            i <= n,
            found ==> i < n && buffer@[i as int] == NDEF_TLV_TAG,
            forall|j: int| 0 <= j < i ==> buffer@[j] != NDEF_TLV_TAG,
        decreases n - i + (if found { 0int } else { 1int }),
    {
        if buffer[i] == NDEF_TLV_TAG {
            found = true;
        } else {
            i = i + 1;
        }
    }
    if !found {
        proof {
            lemma_first_tlv_none(buffer@);
        }
        return Err(NdefError::NoNdefTlv);
    }
    proof {
        lemma_first_tlv_is(buffer@, i as int);
    }
    let l: u8 = if i + 1 < n {
        buffer[i + 1]
    } else {
        0
    };
    if l == 0xFF {
        return Err(NdefError::UnsupportedExtendedLength);
    }
    let start: usize = if n - i >= 2 {
        i + 2
    } else {
        n
    };
    let avail = n - start;
    let take: usize = if (l as usize) <= avail {
        l as usize
    } else {
        avail
    };
    let end = start + take;
    let payload = copy_range(buffer, start, end);
    proof {
        assert(payload@ == buffer@.subrange(start as int, end as int));
    }
    let mut records: Vec<NdefRecord> = Vec::new();
    if payload.len() == 0 {
        proof {
            assert(models_of(records@) =~= Seq::<RecordModel>::empty());
        }
        return Ok(NdefMessage { records });
    }
    let first = match parse_record_at(&payload, 0) {
        Err(e) => {
            return Err(e);
        },
        Ok(x) => x,
    };
    let (rec0, total0) = first;
    proof {
        assert(payload@.skip(0) =~= payload@);
    }
    records.push(rec0);
    let mut offset: usize = total0;
    let mut stopped = false;
    proof {
        assert(models_of(records@) =~= seq![rec0@]);
        assert(spec_parse_record(payload@) == Ok::<(RecordModel, int), NdefError>(
            (rec0@, total0 as int),
        ));
        assert(spec_parse_rest(payload@) == seq![rec0@] + spec_parse_rest(
            payload@.skip(total0 as int),
        ));
        assert(spec_parse_records(payload@) == Ok::<Seq<RecordModel>, NdefError>(
            spec_parse_rest(payload@),
        ));
    }
    while !stopped && offset < payload.len()
        invariant
            offset <= payload@.len(),
            wf_message(models_of(records@)),
            forms_ok(models_of(records@)),
            spec_parse_records(payload@) == Ok::<Seq<RecordModel>, NdefError>(
                spec_parse_rest(payload@),
            ),
            stopped ==> models_of(records@) == spec_parse_rest(payload@),
            !stopped ==> spec_parse_rest(payload@) == models_of(records@) + spec_parse_rest(
                payload@.skip(offset as int),
            ),
        decreases payload@.len() - offset + (if stopped { 0int } else { 1int }),
    {
        match parse_record_at(&payload, offset) {
            Err(_) => {
                proof {
                    assert(payload@.skip(offset as int).len() > 0);
                    assert(spec_parse_rest(payload@.skip(offset as int)) =~= Seq::<
                        RecordModel,
                    >::empty());
                    assert(models_of(records@) + Seq::<RecordModel>::empty() =~= models_of(
                        records@,
                    ));
                }
                stopped = true;
            },
            Ok((rec, total)) => {
                proof {
                    let ghost d = payload@.skip(offset as int);
                    assert(d.skip(total as int) =~= payload@.skip(offset + total));
                    assert(spec_parse_rest(d) == seq![rec@] + spec_parse_rest(
                        d.skip(total as int),
                    ));
                    assert(models_of(records@.push(rec)) =~= models_of(records@).push(rec@));
                    assert(models_of(records@) + (seq![rec@] + spec_parse_rest(
                        payload@.skip(offset + total),
                    )) =~= models_of(records@).push(rec@) + spec_parse_rest(
                        payload@.skip(offset + total),
                    ));
                }
                records.push(rec);
                offset = offset + total;
            },
        }
    }
    proof {
        if !stopped {
            assert(payload@.skip(offset as int) =~= Seq::<u8>::empty());
            assert(spec_parse_rest(payload@.skip(offset as int)) =~= Seq::<RecordModel>::empty());
            assert(models_of(records@) + Seq::<RecordModel>::empty() =~= models_of(records@));
        }
        assert(models_of(records@) == spec_parse_rest(payload@));
    }
    Ok(NdefMessage { records })
}

/// Encodes a message into its TLV-wrapped wire form: each record in
/// order, wrapped as `[0x03][length][records...][0xFE]`.  Fails with
/// `PayloadTooLargeForShortRecord` when some record is flagged short
/// but its payload exceeds 255 bytes, and with `MessageTooLarge` when
/// the record bytes exceed 254 (255 is reserved for the extended
/// length form, which this encoder never emits).
pub fn encode(message: &NdefMessage) -> (out: Result<Vec<u8>, NdefError>)
    requires
        wf_message(message@),
    ensures
        (match out {
            Ok(v) => spec_encode(message@) == Ok::<Seq<u8>, NdefError>(v@),
            Err(e) => spec_encode(message@) == Err::<Seq<u8>, NdefError>(e),
        }),
{
    let n = message.records.len();
    let mut i: usize = 0;
    while i < n
        invariant
            n == message.records@.len(),
            i <= n,
            forall|j: int| 0 <= j < i ==> (#[trigger] message@[j]).form_ok(),
        decreases n - i,
    {
        let r = &message.records[i];
        if r.is_short_record && r.payload.len() > 255 {
            proof {
                assert(!message@[i as int].form_ok());
                assert(!forms_ok(message@));
            }
            return Err(NdefError::PayloadTooLargeForShortRecord);
        }
        i = i + 1;
    }
    proof {
        assert(forms_ok(message@));
    }
    let mut body: Vec<u8> = Vec::new();
    let mut i: usize = 0;
    while i < n
        invariant
            n == message.records@.len(),
            i <= n,
            wf_message(message@),
            forms_ok(message@),
            body@ == spec_encode_records(message@.take(i as int)),
        decreases n - i,
    {
        proof {
            assert(message@[i as int] == message.records@[i as int]@);
            assert(message@[i as int].wf());
            assert(message@[i as int].form_ok());
        }
        let encoded = encode_record(&message.records[i]);
        push_all(&mut body, &encoded);
        proof {
            assert(message@.take(i + 1) =~= message@.take(i as int).push(message@[i as int]));
            lemma_encode_records_push(message@.take(i as int), message@[i as int]);
        }
        i = i + 1;
    }
    proof {
        assert(message@.take(n as int) =~= message@);
    }
    if body.len() > 254 {
        return Err(NdefError::MessageTooLarge);
    }
    let mut out: Vec<u8> = Vec::new();
    out.push(NDEF_TLV_TAG);
    out.push(body.len() as u8);
    push_all(&mut out, &body);
    out.push(TERMINATOR);
    proof {
        assert(out@ =~= seq![NDEF_TLV_TAG, spec_encode_records(message@).len() as u8]
            + spec_encode_records(message@) + seq![TERMINATOR]);
    }
    Ok(out)
}

/// The model of the record that `create_ndef_record` builds: a
/// well-known (TNF 1) short record typed `T` (text) whose payload is
/// the identifier's bytes.
pub open spec fn spec_device_id_record(payload: Seq<u8>) -> RecordModel {
    RecordModel { tnf: 1, rtype: seq![0x54u8], payload: payload, is_short_record: true }
}

/// Encodes `device_id` into one short well-known text record, without
/// the TLV wrapper around it.
pub fn create_ndef_record(device_id: &str) -> (out: Vec<u8>)
    requires
        device_id.spec_bytes().len() <= 255,
    ensures
        out@ == spec_encode_record(spec_device_id_record(device_id.spec_bytes())),
{
    let payload = device_id.as_bytes_vec();
    let mut rtype: Vec<u8> = Vec::new();
    rtype.push(0x54);
    let rec = NdefRecord { tnf: 1, rtype, payload, is_short_record: true };
    proof {
        assert(rec@.rtype =~= seq![0x54u8]);
        assert(rec@ == spec_device_id_record(device_id.spec_bytes()));
    }
    encode_record(&rec)
}

/// The model of the record that `create_tel_ndef` builds: a well-known
/// (TNF 1) short URI record whose payload is `tel:` followed by the
/// telephone number's bytes.
pub open spec fn spec_tel_record(number: Seq<u8>) -> RecordModel {
    RecordModel {
        tnf: 1,
        rtype: seq![0x55u8],
        payload: seq![0x74u8, 0x65u8, 0x6Cu8, 0x3Au8] + number,
        is_short_record: true,
    }
}

/// Encodes a telephone number into one short well-known URI record
/// carrying the `tel:` URI, without the TLV wrapper around it.
pub fn create_tel_ndef(tel_number: &str) -> (out: Vec<u8>)
    requires
        tel_number.spec_bytes().len() + 4 <= 255,
    ensures
        out@ == spec_encode_record(spec_tel_record(tel_number.spec_bytes())),
{
    let mut payload: Vec<u8> = Vec::new();
    payload.push(0x74);
    payload.push(0x65);
    payload.push(0x6C);
    payload.push(0x3A);
    let number = tel_number.as_bytes_vec();
    push_all(&mut payload, &number);
    let mut rtype: Vec<u8> = Vec::new();
    rtype.push(0x55);
    let rec = NdefRecord { tnf: 1, rtype, payload, is_short_record: true };
    proof {
        assert(rec@.rtype =~= seq![0x55u8]);
        assert(rec@.payload =~= seq![0x74u8, 0x65u8, 0x6Cu8, 0x3Au8] + tel_number.spec_bytes());
        assert(rec@ == spec_tel_record(tel_number.spec_bytes()));
    }
    encode_record(&rec)
}

} // verus!
