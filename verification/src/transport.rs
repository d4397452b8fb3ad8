//! The page transport boundary and the command frames sent over it.

use vstd::prelude::*;

verus! {

/// What one page exchange hands back: the response bytes and the
/// two-byte status word.
pub struct PageResponse {
    /// Response bytes; a page read is expected to yield at least 4.
    pub data: Vec<u8>,
    /// First status byte.
    pub sw1: u8,
    /// Second status byte.
    pub sw2: u8,
}

/// The transport the protocol loops are driven over: send one command
/// frame, receive one response frame with its status word, one exchange
/// in flight at a time.  `None` means the transport itself failed
/// (connection drop, malformed frame), which is fatal for the current
/// page operation; the loops never retry.
pub trait PageTransport {
    fn exchange(&mut self, command: &Vec<u8>) -> Option<PageResponse>;
}

/// The 5-byte page read command: class, read instruction, address high
/// byte (always zero under 8-bit addressing), page index, length.
pub open spec fn spec_read_command(page: u8) -> Seq<u8> {
    seq![0xFFu8, 0xB0u8, 0x00u8, page, 0x04u8]
}

/// The page write command: the 5-byte header (class, write instruction,
/// zero, page index, length) followed by exactly 4 data bytes.
pub open spec fn spec_write_command(page: u8, chunk: Seq<u8>) -> Seq<u8> {
    seq![0xFFu8, 0xD6u8, 0x00u8, page, 0x04u8] + chunk
}

/// Success status word.
pub open spec fn spec_is_success(sw1: u8, sw2: u8) -> bool {
    sw1 == 0x90 && sw2 == 0x00
}

/// Non-fatal warning status word signalling the end of usable memory.
pub open spec fn spec_is_warning(sw1: u8, sw2: u8) -> bool {
    sw1 == 0x63 && sw2 == 0x00
}

/// Builds the command frame that reads one 4-byte page.
pub fn build_read_command(page: u8) -> (cmd: Vec<u8>)
    ensures
        cmd@ == spec_read_command(page),
{
    let mut cmd: Vec<u8> = Vec::new();
    cmd.push(0xFF);
    cmd.push(0xB0);
    cmd.push(0x00);
    cmd.push(page);
    cmd.push(0x04);
    proof {
        assert(cmd@ =~= spec_read_command(page));
    }
    cmd
}

/// Builds the command frame that writes one 4-byte page.
pub fn create_write_command(page: u8, chunk: &Vec<u8>) -> (cmd: Vec<u8>)
    requires
        chunk@.len() == 4,
    ensures
        cmd@ == spec_write_command(page, chunk@),
{
    let mut cmd: Vec<u8> = Vec::new();
    cmd.push(0xFF);
    cmd.push(0xD6);
    cmd.push(0x00);
    cmd.push(page);
    cmd.push(0x04);
    cmd.push(chunk[0]);
    cmd.push(chunk[1]);
    cmd.push(chunk[2]);
    cmd.push(chunk[3]);
    proof {
        assert(cmd@ =~= spec_write_command(page, chunk@));
    }
    cmd
}

/// Whether a status word pair acknowledges success.
pub fn is_successful_response(sw1: u8, sw2: u8) -> (ok: bool)
    ensures
        ok == spec_is_success(sw1, sw2),
{
    sw1 == 0x90 && sw2 == 0x00
}

} // verus!
