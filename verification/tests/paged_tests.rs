use nfc_ndef::error::NdefError;
use nfc_ndef::paged::{measure_capacity, read_until_stop, write_pages, StopReason};
use nfc_ndef::transport::{PageResponse, PageTransport};

/// Serves scripted page reads: page `i` answers with the `i`-th entry
/// (data bytes, sw1, sw2); pages past the script answer four zero
/// bytes with success status.
struct ScriptedReader {
    pages: Vec<(Vec<u8>, u8, u8)>,
    calls: usize,
}

impl ScriptedReader {
    fn new(pages: Vec<(Vec<u8>, u8, u8)>) -> ScriptedReader {
        ScriptedReader { pages, calls: 0 }
    }
}

impl PageTransport for ScriptedReader {
    fn exchange(&mut self, command: &Vec<u8>) -> Option<PageResponse> {
        assert_eq!(command.len(), 5);
        assert_eq!(&command[..3], &[0xFF, 0xB0, 0x00]);
        assert_eq!(command[4], 0x04);
        self.calls += 1;
        let page = command[3] as usize;
        let (data, sw1, sw2) = match self.pages.get(page) {
            Some(entry) => entry.clone(),
            None => (vec![0x00; 4], 0x90, 0x00),
        };
        Some(PageResponse { data, sw1, sw2 })
    }
}

/// Acknowledges page writes with success until the configured page,
/// which it answers with a failure status; records every write.
struct FailingWriter {
    fail_on_page: Option<u8>,
    commands: Vec<Vec<u8>>,
    acked: usize,
}

impl FailingWriter {
    fn new(fail_on_page: Option<u8>) -> FailingWriter {
        FailingWriter { fail_on_page, commands: Vec::new(), acked: 0 }
    }
}

impl PageTransport for FailingWriter {
    fn exchange(&mut self, command: &Vec<u8>) -> Option<PageResponse> {
        assert_eq!(command.len(), 9);
        assert_eq!(&command[..3], &[0xFF, 0xD6, 0x00]);
        assert_eq!(command[4], 0x04);
        let page = command[3];
        self.commands.push(command.clone());
        if self.fail_on_page == Some(page) {
            Some(PageResponse { data: vec![], sw1: 0x6A, sw2: 0x82 })
        } else {
            self.acked += 1;
            Some(PageResponse { data: vec![], sw1: 0x90, sw2: 0x00 })
        }
    }
}

/// A transport whose exchange itself fails.
struct DeadTransport;

impl PageTransport for DeadTransport {
    fn exchange(&mut self, _command: &Vec<u8>) -> Option<PageResponse> {
        None
    }
}

fn plain_page(b: u8) -> (Vec<u8>, u8, u8) {
    (vec![b, b, b, b], 0x90, 0x00)
}

#[test]
fn terminator_stops_the_read() {
    let mut transport = ScriptedReader::new(vec![
        plain_page(0x01),
        plain_page(0x02),
        plain_page(0x03),
        (vec![0xAA, 0xBB, 0xCC, 0xFE], 0x90, 0x00),
        plain_page(0x05),
    ]);
    let outcome = read_until_stop(&mut transport, 0, 256).unwrap();
    assert_eq!(outcome.stop, StopReason::TerminatorFound);
    assert_eq!(outcome.data.len(), 16);
    assert_eq!(&outcome.data[12..], &[0xAA, 0xBB, 0xCC, 0xFE]);
    assert_eq!(transport.calls, 4);
}

#[test]
fn warning_status_stops_without_appending() {
    let mut transport = ScriptedReader::new(vec![
        plain_page(0x01),
        plain_page(0x02),
        plain_page(0x03),
        plain_page(0x04),
        plain_page(0x05),
    ]);
    transport.pages.push((vec![0x00; 4], 0x63, 0x00));
    let outcome = read_until_stop(&mut transport, 0, 256).unwrap();
    assert_eq!(outcome.stop, StopReason::WarningStatus);
    assert_eq!(outcome.data.len(), 20);
    assert_eq!(&outcome.data[..4], &[0x01, 0x01, 0x01, 0x01]);
    assert_eq!(transport.calls, 6);
}

#[test]
fn page_limit_stops_the_read() {
    let mut transport = ScriptedReader::new(vec![]);
    let outcome = read_until_stop(&mut transport, 0, 3).unwrap();
    assert_eq!(outcome.stop, StopReason::PageLimitReached);
    assert_eq!(outcome.data.len(), 12);
    assert_eq!(transport.calls, 3);
}

#[test]
fn truncated_page_aborts_the_read() {
    let mut transport = ScriptedReader::new(vec![plain_page(0x01), (vec![0xAA], 0x90, 0x00)]);
    let result = read_until_stop(&mut transport, 0, 256);
    assert!(matches!(result, Err(NdefError::TruncatedPage)));
    assert_eq!(transport.calls, 2);
}

#[test]
fn fatal_status_aborts_the_read() {
    let mut transport = ScriptedReader::new(vec![plain_page(0x01), (vec![0x00; 4], 0x6A, 0x82)]);
    let result = read_until_stop(&mut transport, 0, 256);
    assert!(matches!(result, Err(NdefError::TransportFailure)));
}

#[test]
fn dead_transport_aborts_the_read() {
    let result = read_until_stop(&mut DeadTransport, 0, 256);
    assert!(matches!(result, Err(NdefError::TransportFailure)));
}

#[test]
fn read_respects_start_page() {
    let mut transport = ScriptedReader::new(vec![
        plain_page(0x01),
        plain_page(0x02),
        (vec![0x10, 0x11, 0x12, 0x13], 0x90, 0x00),
        (vec![0x20, 0xFE, 0x22, 0x23], 0x90, 0x00),
    ]);
    let outcome = read_until_stop(&mut transport, 2, 254).unwrap();
    assert_eq!(outcome.stop, StopReason::TerminatorFound);
    assert_eq!(outcome.data, vec![0x10, 0x11, 0x12, 0x13, 0x20, 0xFE, 0x22, 0x23]);
}

#[test]
fn write_abort_on_failure() {
    let mut transport = FailingWriter::new(Some(7));
    let data: Vec<u8> = (1..=12).collect();
    let result = write_pages(&mut transport, 5, &data);
    assert_eq!(result, Err(NdefError::PageWriteFailed { page: 7 }));
    assert_eq!(transport.acked, 2);
    assert_eq!(transport.commands.len(), 3);
}

#[test]
fn write_does_not_continue_past_failure() {
    let mut transport = FailingWriter::new(Some(6));
    let data: Vec<u8> = (1..=16).collect();
    let result = write_pages(&mut transport, 5, &data);
    assert_eq!(result, Err(NdefError::PageWriteFailed { page: 6 }));
    assert_eq!(transport.acked, 1);
    assert_eq!(transport.commands.len(), 2);
}

#[test]
fn write_succeeds_in_ascending_page_order() {
    let mut transport = FailingWriter::new(None);
    let data: Vec<u8> = (1..=8).collect();
    assert_eq!(write_pages(&mut transport, 5, &data), Ok(()));
    assert_eq!(transport.commands.len(), 2);
    assert_eq!(transport.commands[0], vec![0xFF, 0xD6, 0x00, 0x05, 0x04, 1, 2, 3, 4]);
    assert_eq!(transport.commands[1], vec![0xFF, 0xD6, 0x00, 0x06, 0x04, 5, 6, 7, 8]);
}

#[test]
fn write_zero_pads_the_final_chunk() {
    let mut transport = FailingWriter::new(None);
    let data: Vec<u8> = vec![0xA1, 0xA2, 0xA3, 0xA4, 0xA5];
    assert_eq!(write_pages(&mut transport, 4, &data), Ok(()));
    assert_eq!(transport.commands.len(), 2);
    assert_eq!(transport.commands[1], vec![0xFF, 0xD6, 0x00, 0x05, 0x04, 0xA5, 0x00, 0x00, 0x00]);
}

#[test]
fn write_rejects_empty_payload() {
    let mut transport = FailingWriter::new(None);
    assert_eq!(write_pages(&mut transport, 4, &Vec::new()), Err(NdefError::EmptyPayload));
    assert_eq!(transport.commands.len(), 0);
}

#[test]
fn write_reports_dead_transport() {
    let result = write_pages(&mut DeadTransport, 0, &vec![1, 2, 3]);
    assert_eq!(result, Err(NdefError::TransportFailure));
}

#[test]
fn capacity_counts_up_to_terminator() {
    let mut transport = ScriptedReader::new(vec![
        plain_page(0x01),
        plain_page(0x02),
        (vec![0x00, 0x00, 0xFE, 0x00], 0x90, 0x00),
        plain_page(0x04),
    ]);
    assert_eq!(measure_capacity(&mut transport), Ok(12));
    assert_eq!(transport.calls, 3);
}

#[test]
fn capacity_excludes_the_warning_page() {
    let mut transport = ScriptedReader::new(vec![plain_page(0x01), (vec![0x00; 4], 0x63, 0x00)]);
    assert_eq!(measure_capacity(&mut transport), Ok(4));
}

#[test]
fn capacity_is_bounded_by_the_page_limit() {
    let mut transport = ScriptedReader::new(vec![]);
    assert_eq!(measure_capacity(&mut transport), Ok(1024));
    assert_eq!(transport.calls, 256);
}
