use nfc_ndef::codec::{create_ndef_record, create_tel_ndef, decode, encode, encode_record};
use nfc_ndef::error::NdefError;
use nfc_ndef::records::{NdefMessage, NdefRecord};

fn short_record(tnf: u8, rtype: Vec<u8>, payload: Vec<u8>) -> NdefRecord {
    NdefRecord { tnf, rtype, payload, is_short_record: true }
}

fn long_record(tnf: u8, rtype: Vec<u8>, payload: Vec<u8>) -> NdefRecord {
    NdefRecord { tnf, rtype, payload, is_short_record: false }
}

#[test]
fn example_well_known_short_record_encodes() {
    let message = NdefMessage {
        records: vec![short_record(1, vec![], vec![0x68, 0x69])],
    };
    let bytes = encode(&message).unwrap();
    assert_eq!(bytes, vec![0x03, 0x05, 0x11, 0x00, 0x02, 0x68, 0x69, 0xFE]);
}

#[test]
fn example_well_known_short_record_decodes() {
    let buffer = vec![0x03, 0x06, 0x11, 0x00, 0x02, 0x68, 0x69, 0xFE];
    let message = decode(&buffer).unwrap();
    assert_eq!(message.records.len(), 1);
    assert_eq!(message.records[0].tnf, 1);
    assert_eq!(message.records[0].rtype, Vec::<u8>::new());
    assert_eq!(message.records[0].payload, vec![0x68, 0x69]);
    assert!(message.records[0].is_short_record);
}

#[test]
fn round_trip_mixed_message() {
    let message = NdefMessage {
        records: vec![
            short_record(1, vec![0x54], vec![0x61, 0x62, 0x63]),
            long_record(2, vec![0x55, 0x56], vec![0x01, 0x02, 0x03, 0x04, 0x05]),
            short_record(5, vec![], vec![]),
        ],
    };
    let bytes = encode(&message).unwrap();
    let back = decode(&bytes).unwrap();
    assert_eq!(back, message);
}

#[test]
fn round_trip_empty_message() {
    let message = NdefMessage { records: vec![] };
    let bytes = encode(&message).unwrap();
    assert_eq!(bytes, vec![0x03, 0x00, 0xFE]);
    let back = decode(&bytes).unwrap();
    assert_eq!(back.records.len(), 0);
}

#[test]
fn round_trip_largest_short_payload() {
    let message = NdefMessage {
        records: vec![short_record(1, vec![], vec![0x41; 251])],
    };
    let bytes = encode(&message).unwrap();
    assert_eq!(bytes.len(), 2 + 3 + 251 + 1);
    let back = decode(&bytes).unwrap();
    assert_eq!(back, message);
}

#[test]
fn long_form_record_has_six_byte_header() {
    let bytes = encode_record(&long_record(1, vec![], vec![0x42; 255]));
    assert_eq!(bytes.len(), 6 + 255);
    assert_eq!(&bytes[..6], &[0x01, 0x00, 0x00, 0x00, 0x00, 0xFF]);
}

#[test]
fn short_form_record_has_three_byte_header() {
    let bytes = encode_record(&short_record(1, vec![], vec![0x42; 254]));
    assert_eq!(bytes.len(), 3 + 254);
    assert_eq!(&bytes[..3], &[0x11, 0x00, 0xFE]);
}

#[test]
fn no_tlv_tag_fails() {
    let buffer = vec![0xAA, 0xBB, 0xCC, 0xFE, 0x00];
    assert_eq!(decode(&buffer), Err(NdefError::NoNdefTlv));
}

#[test]
fn empty_buffer_fails_without_tlv() {
    assert_eq!(decode(&Vec::new()), Err(NdefError::NoNdefTlv));
}

#[test]
fn extended_length_form_is_rejected() {
    let buffer = vec![0x03, 0xFF, 0x11, 0x00, 0x00];
    assert_eq!(decode(&buffer), Err(NdefError::UnsupportedExtendedLength));
}

#[test]
fn short_header_at_stream_start_fails() {
    let buffer = vec![0x03, 0x02, 0x11, 0x00];
    assert_eq!(decode(&buffer), Err(NdefError::IncompleteRecordHeader));
}

#[test]
fn long_header_cut_off_fails() {
    let buffer = vec![0x03, 0x05, 0x01, 0x00, 0x00, 0x00, 0x00];
    assert_eq!(decode(&buffer), Err(NdefError::IncompleteRecordHeader));
}

#[test]
fn overrunning_record_at_stream_start_fails() {
    let buffer = vec![0x03, 0x03, 0x11, 0x00, 0x05];
    assert_eq!(decode(&buffer), Err(NdefError::IncompleteRecord));
}

#[test]
fn trailing_garbage_after_record_is_ignored() {
    let buffer = vec![0x03, 0x07, 0x11, 0x00, 0x02, 0x68, 0x69, 0xAB, 0xCD];
    let message = decode(&buffer).unwrap();
    assert_eq!(message.records.len(), 1);
    assert_eq!(message.records[0].payload, vec![0x68, 0x69]);
}

#[test]
fn announced_length_is_clipped_to_buffer() {
    let buffer = vec![0x03, 0x30, 0x11, 0x00, 0x02, 0x68, 0x69];
    let message = decode(&buffer).unwrap();
    assert_eq!(message.records.len(), 1);
    assert_eq!(message.records[0].payload, vec![0x68, 0x69]);
}

#[test]
fn tlv_after_leading_garbage_is_found() {
    let buffer = vec![0x00, 0x41, 0x03, 0x05, 0x11, 0x00, 0x02, 0x68, 0x69, 0xFE];
    let message = decode(&buffer).unwrap();
    assert_eq!(message.records.len(), 1);
    assert_eq!(message.records[0].payload, vec![0x68, 0x69]);
}

#[test]
fn bare_tlv_tag_decodes_to_empty_message() {
    assert_eq!(decode(&vec![0x03]).unwrap().records.len(), 0);
    assert_eq!(decode(&vec![0x03, 0x00]).unwrap().records.len(), 0);
}

#[test]
fn message_too_large_is_rejected() {
    let message = NdefMessage {
        records: vec![short_record(1, vec![], vec![0x41; 252])],
    };
    assert_eq!(encode(&message), Err(NdefError::MessageTooLarge));
}

#[test]
fn oversized_short_record_is_rejected() {
    let message = NdefMessage {
        records: vec![short_record(1, vec![], vec![0x41; 256])],
    };
    assert_eq!(encode(&message), Err(NdefError::PayloadTooLargeForShortRecord));
}

#[test]
fn create_ndef_record_builds_text_record() {
    let bytes = create_ndef_record("abc");
    assert_eq!(bytes, vec![0x11, 0x01, 0x03, 0x54, 0x61, 0x62, 0x63]);
}

#[test]
fn create_tel_ndef_builds_uri_record() {
    let bytes = create_tel_ndef("+123456789");
    let mut expected = vec![0x11, 0x01, 0x0E, 0x55];
    expected.extend_from_slice(b"tel:+123456789");
    assert_eq!(bytes, expected);
}

#[test]
fn long_record_payload_length_is_big_endian() {
    let bytes = encode_record(&long_record(4, vec![0x61], vec![0x07; 3]));
    assert_eq!(bytes, vec![0x04, 0x01, 0x00, 0x00, 0x00, 0x03, 0x61, 0x07, 0x07, 0x07]);
}
