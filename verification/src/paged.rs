//! Page-by-page read, write and capacity-probe loops.
//!
//! The loops are driven over an injected [`PageTransport`].  Nothing is
//! assumed about the transport: every decision taken on a response is a
//! verified function of the response alone, and the loop contracts
//! state what holds of the accumulated bytes whatever the transport
//! returned.

use vstd::prelude::*;

use crate::codec::TERMINATOR;
use crate::error::NdefError;
use crate::transport::{
    build_read_command, create_write_command, is_successful_response, spec_is_success,
    spec_is_warning, PageResponse, PageTransport,
};

verus! {

/// Hard safety bound on how many pages one operation may touch: the
/// whole 8-bit page address space.
pub const DEFAULT_PAGE_LIMIT: u32 = 256;

/// Number of bytes in one page.
pub const PAGE_SIZE: u32 = 4;

/// Whether the first four bytes of a fetched page contain the
/// terminator byte anywhere.
pub open spec fn spec_has_terminator(page: Seq<u8>) -> bool {
    exists|k: int| 0 <= k < page.len() && page[k] == TERMINATOR
}

/// What a read loop does with one fetched response, in the priority
/// order of the stop conditions: a response shorter than one page is a
/// truncation error; a terminator byte in the fetched page appends it
/// and stops; the warning status stops without appending (end of
/// usable memory); the hard page limit appends and stops; any other
/// non-success status is fatal; otherwise the page is appended and the
/// loop continues.
#[derive(Clone, Copy, Debug, PartialEq, Eq, Structural)]
pub enum PageDecision {
    Truncated,
    AppendAndStop,
    StopWithoutAppend,
    AppendAndStopAtLimit,
    Fatal,
    AppendAndContinue,
}

/// The decision for a response, given how many pages were fetched
/// before it (`ordinal`) and the hard bound on the page count.
pub open spec fn spec_classify(
    data: Seq<u8>,
    sw1: u8,
    sw2: u8,
    ordinal: u32,
    max_pages: u32,
) -> PageDecision {
    if data.len() < 4 {
        PageDecision::Truncated
    } else if spec_has_terminator(data.subrange(0, 4)) {
        PageDecision::AppendAndStop
    } else if spec_is_warning(sw1, sw2) {
        PageDecision::StopWithoutAppend
    } else if ordinal + 1 == max_pages {
        PageDecision::AppendAndStopAtLimit
    } else if !spec_is_success(sw1, sw2) {
        PageDecision::Fatal
    } else {
        PageDecision::AppendAndContinue
    }
}

/// Applies the ordered stop conditions of a read loop to one response.
pub fn classify_page(resp: &PageResponse, ordinal: u32, max_pages: u32) -> (d: PageDecision)
    requires
        ordinal < max_pages,
    ensures
        d == spec_classify(resp.data@, resp.sw1, resp.sw2, ordinal, max_pages),
{
    if resp.data.len() < 4 {
        return PageDecision::Truncated;
    }
    let mut has_term = false;
    let mut k: usize = 0;
    while k < 4
        invariant
            k <= 4,
            resp.data@.len() >= 4,
            has_term == (exists|j: int| 0 <= j < k && resp.data@.subrange(0, 4)[j] == TERMINATOR),
        decreases 4 - k,
    {
        if resp.data[k] == TERMINATOR {
            proof {
                assert(resp.data@.subrange(0, 4)[k as int] == TERMINATOR);
            }
            has_term = true;
        }
        k = k + 1;
    }
    if has_term {
        PageDecision::AppendAndStop
    } else if resp.sw1 == 0x63 && resp.sw2 == 0x00 {
        PageDecision::StopWithoutAppend
    } else if ordinal + 1 == max_pages {
        PageDecision::AppendAndStopAtLimit
    } else if !is_successful_response(resp.sw1, resp.sw2) {
        PageDecision::Fatal
    } else {
        PageDecision::AppendAndContinue
    }
}

/// The `k`-th whole 4-byte page of an accumulated buffer.
pub open spec fn spec_page_at(data: Seq<u8>, k: int) -> Seq<u8> {
    data.subrange(4 * k, 4 * k + 4)
}

/// Why a read loop stopped without an error.
#[derive(Clone, Copy, Debug, PartialEq, Eq, Structural)]
pub enum StopReason {
    /// The terminator byte was found in the last appended page.
    TerminatorFound,
    /// The transport signalled the non-fatal end-of-memory warning.
    WarningStatus,
    /// The hard page bound was reached; the data so far is returned.
    PageLimitReached,
}

/// What a successful read loop hands back: the accumulated bytes and
/// the stop condition that ended the loop.
pub struct ReadOutcome {
    pub data: Vec<u8>,
    pub stop: StopReason,
}

/// Reads 4-byte pages from `start_page` onward, appending them until a
/// stop condition holds.  The accumulated bytes are whole pages; the
/// page limit stop returns exactly `max_pages` pages, the warning stop
/// strictly fewer, and the terminator stop ends with a page that
/// contains the terminator byte.  A short response or a fatal status
/// aborts with the pages read so far discarded.
pub fn read_until_stop<T: PageTransport>(
    transport: &mut T,
    start_page: u8,
    max_pages: u32,
) -> (out: Result<ReadOutcome, NdefError>)
    requires
        1 <= max_pages,
        start_page + max_pages <= 256,
    ensures
        (match out {
            Ok(o) => {
                &&& o.data@.len() % 4 == 0
                &&& o.data@.len() <= 4 * max_pages
                &&& (o.stop == StopReason::PageLimitReached ==> o.data@.len() == 4 * max_pages)
                &&& (o.stop == StopReason::WarningStatus ==> o.data@.len() < 4 * max_pages)
                &&& (o.stop == StopReason::TerminatorFound ==> o.data@.len() >= 4
                    && spec_has_terminator(
                    o.data@.subrange(o.data@.len() - 4, o.data@.len() as int),
                ))
                &&& forall|k: int|
                    0 <= k && 4 * k + 4 < o.data@.len() ==> !spec_has_terminator(
                        #[trigger] spec_page_at(o.data@, k),
                    )
                &&& (o.stop != StopReason::TerminatorFound && o.data@.len() >= 4
                    ==> !spec_has_terminator(
                    o.data@.subrange(o.data@.len() - 4, o.data@.len() as int),
                ))
            },
            Err(e) => e == NdefError::TruncatedPage || e == NdefError::TransportFailure,
        }),
{
    let mut data: Vec<u8> = Vec::new();
    let mut fetched: u32 = 0;
    loop
        invariant
            fetched < max_pages,
            start_page + max_pages <= 256,
            data@.len() == 4 * fetched,
            forall|k: int|
                0 <= k && 4 * k + 4 <= data@.len() ==> !spec_has_terminator(
                    #[trigger] spec_page_at(data@, k),
                ),
        decreases max_pages - fetched,
    {
        let page: u8 = ((start_page as u32) + fetched) as u8;
        let cmd = build_read_command(page);
        let resp = match transport.exchange(&cmd) {
            None => {
                return Err(NdefError::TransportFailure);
            },
            Some(r) => r,
        };
        let ghost pre = data@;
        match classify_page(&resp, fetched, max_pages) {
            PageDecision::Truncated => {
                return Err(NdefError::TruncatedPage);
            },
            PageDecision::AppendAndStop => {
                append_page(&mut data, &resp.data);
                proof {
                    assert(data@.subrange(data@.len() - 4, data@.len() as int) =~= resp.data@
                        .subrange(0, 4));
                    assert forall|k: int| 0 <= k && 4 * k + 4 < data@.len() implies
                        !spec_has_terminator(#[trigger] spec_page_at(data@, k)) by {
                        assert(spec_page_at(data@, k) =~= spec_page_at(pre, k));
                    }
                }
                return Ok(ReadOutcome { data, stop: StopReason::TerminatorFound });
            },
            PageDecision::StopWithoutAppend => {
                proof {
                    if data@.len() >= 4 {
                        let k = data@.len() / 4 - 1;
                        assert(4 * k == data@.len() - 4);
                        assert(!spec_has_terminator(spec_page_at(data@, k)));
                        assert(data@.subrange(data@.len() - 4, data@.len() as int)
                            == spec_page_at(data@, k));
                    }
                }
                return Ok(ReadOutcome { data, stop: StopReason::WarningStatus });
            },
            PageDecision::AppendAndStopAtLimit => {
                append_page(&mut data, &resp.data);
                proof {
                    assert(data@.subrange(data@.len() - 4, data@.len() as int) =~= resp.data@
                        .subrange(0, 4));
                    assert forall|k: int| 0 <= k && 4 * k + 4 <= data@.len() implies
                        !spec_has_terminator(#[trigger] spec_page_at(data@, k)) by {
                        if 4 * k + 4 <= pre.len() {
                            assert(spec_page_at(data@, k) =~= spec_page_at(pre, k));
                        } else {
                            assert(4 * k == pre.len());
                            assert(spec_page_at(data@, k) =~= resp.data@.subrange(0, 4));
                        }
                    }
                }
                return Ok(ReadOutcome { data, stop: StopReason::PageLimitReached });
            },
            PageDecision::Fatal => {
                return Err(NdefError::TransportFailure);
            },
            PageDecision::AppendAndContinue => {
                append_page(&mut data, &resp.data);
                proof {
                    assert forall|k: int| 0 <= k && 4 * k + 4 <= data@.len() implies
                        !spec_has_terminator(#[trigger] spec_page_at(data@, k)) by {
                        if 4 * k + 4 <= pre.len() {
                            assert(spec_page_at(data@, k) =~= spec_page_at(pre, k));
                        } else {
                            assert(4 * k == pre.len());
                            assert(spec_page_at(data@, k) =~= resp.data@.subrange(0, 4));
                        }
                    }
                }
                fetched = fetched + 1;
            },
        }
    }
}

/// How many 4-byte chunks a byte stream splits into, the last chunk
/// zero-padded.
pub open spec fn spec_chunk_count(n: int) -> int {
    (n + 3) / 4
}

/// The `i`-th 4-byte chunk of a byte stream, zero-padded on the right
/// past the end of the stream.
pub open spec fn spec_chunk(data: Seq<u8>, i: int) -> Seq<u8> {
    Seq::new(4, |k: int| if 4 * i + k < data.len() { data[4 * i + k] } else { 0u8 })
}

/// Copies the `i`-th 4-byte chunk of `data`, zero-padding the tail.
pub fn chunk_at(data: &Vec<u8>, i: usize) -> (c: Vec<u8>)
    requires
        i < spec_chunk_count(data@.len() as int),
        data@.len() <= 1024,
    ensures
        c@ == spec_chunk(data@, i as int),
{
    let mut c: Vec<u8> = Vec::new();
    let mut k: usize = 0;
    while k < 4
        invariant
            k <= 4,
            i < spec_chunk_count(data@.len() as int),
            data@.len() <= 1024,
            c@.len() == k,
            forall|j: int| 0 <= j < k ==> c@[j] == spec_chunk(data@, i as int)[j],
        decreases 4 - k,
    {
        let pos = 4 * i + k;
        if pos < data.len() {
            c.push(data[pos]);
        } else {
            c.push(0x00);
        }
        k = k + 1;
    }
    proof {
        assert(c@ =~= spec_chunk(data@, i as int));
    }
    c
}

/// Splits `data` into consecutive 4-byte chunks (the final chunk
/// zero-padded on the right) and writes them to consecutive pages from
/// `start_page` on, strictly in ascending page order.  An empty stream
/// is rejected with `EmptyPayload`.  Each page write must be
/// acknowledged with the success status; the first page that is not
/// aborts immediately with `PageWriteFailed` for that page, and no
/// later page is written.  A partial write is surfaced, not rolled
/// back: the transport has no undo primitive.
pub fn write_pages<T: PageTransport>(
    transport: &mut T,
    start_page: u8,
    data: &Vec<u8>,
) -> (out: Result<(), NdefError>)
    requires
        start_page + spec_chunk_count(data@.len() as int) <= 256,
    ensures
        out == Err::<(), NdefError>(NdefError::EmptyPayload) <==> data@.len() == 0,
        (match out {
            Ok(()) => true,
            Err(e) => {
                &&& (e matches NdefError::PageWriteFailed { page } ==> start_page <= page
                    && page < start_page + spec_chunk_count(data@.len() as int))
                &&& (e == NdefError::EmptyPayload || e == NdefError::TransportFailure
                    || e matches NdefError::PageWriteFailed { .. })
            },
        }),
{
    if data.len() == 0 {
        return Err(NdefError::EmptyPayload);
    }
    let nchunks: usize = (data.len() + 3) / 4;
    let mut i: usize = 0;
    while i < nchunks
        invariant
            data@.len() > 0,
            nchunks == spec_chunk_count(data@.len() as int),
            start_page + nchunks <= 256,
            i <= nchunks,
        decreases nchunks - i,
    {
        let chunk = chunk_at(data, i);
        let page: u8 = ((start_page as usize) + i) as u8;
        let cmd = create_write_command(page, &chunk);
        match transport.exchange(&cmd) {
            None => {
                return Err(NdefError::TransportFailure);
            },
            Some(resp) => {
                if !is_successful_response(resp.sw1, resp.sw2) {
                    return Err(NdefError::PageWriteFailed { page });
                }
            },
        }
        i = i + 1;
    }
    Ok(())
}

/// Walks the tag from page 0 under the default page limit, with the
/// same stop conditions as a read, and reports how many bytes of
/// usable memory were seen up to and including the stopping page.
pub fn measure_capacity<T: PageTransport>(transport: &mut T) -> (out: Result<u32, NdefError>)
    ensures
        (match out {
            Ok(n) => n % 4 == 0 && n <= 4 * DEFAULT_PAGE_LIMIT,
            Err(e) => e == NdefError::TruncatedPage || e == NdefError::TransportFailure,
        }),
{
    match read_until_stop(transport, 0, DEFAULT_PAGE_LIMIT) {
        Ok(outcome) => Ok(outcome.data.len() as u32),
        Err(e) => Err(e),
    }
}

/// Appends the first four bytes of a fetched response to the buffer.
fn append_page(data: &mut Vec<u8>, page: &Vec<u8>)
    requires
        page@.len() >= 4,
    ensures
        final(data)@ == old(data)@ + page@.subrange(0, 4),
{
    let mut k: usize = 0;
    while k < 4
        invariant
            k <= 4,
            page@.len() >= 4,
            data@ == old(data)@ + page@.subrange(0, k as int),
        decreases 4 - k,
    {
        data.push(page[k]);
        proof {
            assert(data@ =~= old(data)@ + page@.subrange(0, k + 1));
        }
        k = k + 1;
    }
}

} // verus!
