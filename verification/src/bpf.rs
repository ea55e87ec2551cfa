//! The layout of a buffer filled by the packet capture driver.
//!
//! The driver writes one record after another. A record is a header of
//! `bh_hdrlen` bytes followed by `bh_caplen` bytes of captured packet, and the
//! next record starts at the next word boundary.
use std::collections::VecDeque;
use vstd::prelude::*;

verus! {

/// Offset of the 32-bit `bh_caplen` field in a header. The two 32-bit words of
/// the time stamp come before it.
pub const CAPLEN_OFFSET: usize = 8;

/// Offset of the 16-bit `bh_hdrlen` field in a header, behind `bh_caplen` and
/// the 32-bit `bh_datalen`.
pub const HDRLEN_OFFSET: usize = 16;

/// Number of header bytes up to the end of `bh_hdrlen`, the last field.
pub const HEADER_FIELDS: usize = 18;

/// Records start at multiples of this many bytes.
pub const WORD: usize = 4;

/// The two bytes at `at` as a little-endian number.
pub open spec fn u16_at(bytes: Seq<u8>, at: int) -> int {
    bytes[at] + 0x100 * bytes[at + 1]
}

/// The four bytes at `at` as a little-endian number.
pub open spec fn u32_at(bytes: Seq<u8>, at: int) -> int {
    u16_at(bytes, at) + 0x1_0000 * u16_at(bytes, at + 2)
}

/// `bh_hdrlen` of the header at `at`.
pub open spec fn hdrlen_at(buffer: Seq<u8>, at: int) -> int {
    u16_at(buffer, at + HDRLEN_OFFSET)
}

/// `bh_caplen` of the header at `at`.
pub open spec fn caplen_at(buffer: Seq<u8>, at: int) -> int {
    u32_at(buffer, at + CAPLEN_OFFSET)
}

/// `length` rounded up to a multiple of `WORD`.
pub open spec fn word_aligned(length: int) -> int {
    (length + 3) / 4 * 4
}

/// Whether the record at `at` lies inside the buffer and is not empty: its
/// fields can be read, its packet can be handed out, and the walk moves on.
pub open spec fn record_fits(buffer: Seq<u8>, at: int) -> bool {
    &&& 0 <= at
    &&& at + HEADER_FIELDS <= buffer.len()
    &&& 0 < hdrlen_at(buffer, at) + caplen_at(buffer, at)
    &&& at + hdrlen_at(buffer, at) + caplen_at(buffer, at) <= buffer.len()
}

/// Start and length of the packet in the record at `at`.
pub open spec fn span_at(buffer: Seq<u8>, at: int) -> (usize, usize) {
    ((at + hdrlen_at(buffer, at)) as usize, caplen_at(buffer, at) as usize)
}

/// Where the record behind the one at `at` starts.
pub open spec fn next_record(buffer: Seq<u8>, at: int) -> int {
    at + word_aligned(hdrlen_at(buffer, at) + caplen_at(buffer, at))
}

/// Start and length of every packet in the records that start from `at` on and
/// before `end`, in the order of the records. `None` where a record does not fit.
pub open spec fn spans_from(buffer: Seq<u8>, at: int, end: int) -> Option<Seq<(usize, usize)>>
    decreases
        (if at < end {
            end - at
        } else {
            0
        }),
{
    if at >= end {
        Some(Seq::empty())
    } else if !record_fits(buffer, at) {
        None
    } else {
        match spans_from(buffer, next_record(buffer, at), end) {
            Some(rest) => Some(seq![span_at(buffer, at)] + rest),
            None => None,
        }
    }
}

/// Whether every span lies inside a buffer of `len` bytes.
pub open spec fn spans_inside(spans: Seq<(usize, usize)>, len: nat) -> bool {
    forall|i: int| 0 <= i < spans.len() ==> (#[trigger] spans[i]).0 + spans[i].1 <= len
}

/// The packets that a scan finds all lie inside the buffer.
pub proof fn spans_from_inside(buffer: Seq<u8>, at: int, end: int)
    requires
        buffer.len() <= usize::MAX,
        spans_from(buffer, at, end) is Some,
    ensures
        spans_inside(spans_from(buffer, at, end)->0, buffer.len()),
    decreases
        (if at < end {
            end - at
        } else {
            0
        }),
{
    if at < end {
        spans_from_inside(buffer, next_record(buffer, at), end);
    }
}

/// The lengths in a header are the little-endian numbers that its bytes spell:
/// `bh_caplen` in the bytes from 8 on, `bh_hdrlen` in the bytes from 16 on.
pub proof fn header_fields_are_little_endian(
    buffer: Seq<u8>,
    at: int,
    hdrlen: u16,
    caplen: u32,
)
    requires
        buffer[at + 8] == caplen % 0x100,
        buffer[at + 9] == caplen / 0x100 % 0x100,
        buffer[at + 10] == caplen / 0x1_0000 % 0x100,
        buffer[at + 11] == caplen / 0x100_0000,
        buffer[at + 16] == hdrlen % 0x100,
        buffer[at + 17] == hdrlen / 0x100,
    ensures
        hdrlen_at(buffer, at) == hdrlen,
        caplen_at(buffer, at) == caplen,
{
    assert(buffer[at + 8 + 2] == buffer[at + 10]);
    assert(buffer[at + 8 + 2 + 1] == buffer[at + 11]);
}

/// Rounding up to a word boundary gives the one multiple of four that is not below
/// the length and less than four above it.
pub proof fn word_boundary_is_the_next(length: int, boundary: int)
    requires
        boundary % 4 == 0,
        length <= boundary < length + 4,
    ensures
        word_aligned(length) == boundary,
{
}

/// Where nothing more was received, no packet is found.
pub proof fn scan_of_nothing(buffer: Seq<u8>, at: int, end: int)
    requires
        at >= end,
    ensures
        spans_from(buffer, at, end) == Some(Seq::<(usize, usize)>::empty()),
{
}

/// A record whose header is not inside the buffer makes the whole scan fail.
pub proof fn scan_needs_the_header(buffer: Seq<u8>, at: int, end: int)
    requires
        0 <= at < end,
        at + 18 > buffer.len(),
    ensures
        spans_from(buffer, at, end) is None,
{
}

/// What a scan finds at a record with these lengths: where the record is empty or
/// leaves the buffer, the scan fails. Otherwise the packet is the `caplen` bytes
/// behind the `hdrlen` bytes of the header, and the other packets are those that a
/// scan finds from the next word boundary on.
pub proof fn scan_takes_record_by_record(
    buffer: Seq<u8>,
    at: int,
    end: int,
    hdrlen: u16,
    caplen: u32,
    next: int,
)
    requires
        0 <= at < end,
        at + 18 <= buffer.len() <= usize::MAX,
        buffer[at + 8] == caplen % 0x100,
        buffer[at + 9] == caplen / 0x100 % 0x100,
        buffer[at + 10] == caplen / 0x1_0000 % 0x100,
        buffer[at + 11] == caplen / 0x100_0000,
        buffer[at + 16] == hdrlen % 0x100,
        buffer[at + 17] == hdrlen / 0x100,
        (next - at) % 4 == 0,
        at + hdrlen + caplen <= next < at + hdrlen + caplen + 4,
    ensures
        hdrlen == 0 && caplen == 0 ==> spans_from(buffer, at, end) is None,
        at + hdrlen + caplen > buffer.len() ==> spans_from(buffer, at, end) is None,
        0 < hdrlen + caplen && at + hdrlen + caplen <= buffer.len() ==> match spans_from(
            buffer,
            next,
            end,
        ) {
            Some(others) => spans_from(buffer, at, end) == Some(
                seq![((at + hdrlen) as usize, caplen as usize)] + others,
            ),
            None => spans_from(buffer, at, end) is None,
        },
{
    header_fields_are_little_endian(buffer, at, hdrlen, caplen);
    word_boundary_is_the_next(hdrlen + caplen, next - at);
}

/// Whether a record with these lengths starts at `at`, lies inside the buffer, and
/// is followed by another at `next`.
pub open spec fn record_placed(
    buffer: Seq<u8>,
    at: int,
    hdrlen: u16,
    caplen: u32,
    next: int,
) -> bool {
    &&& 0 <= at
    &&& at + 18 <= buffer.len()
    &&& buffer[at + 8] == caplen % 0x100
    &&& buffer[at + 9] == caplen / 0x100 % 0x100
    &&& buffer[at + 10] == caplen / 0x1_0000 % 0x100
    &&& buffer[at + 11] == caplen / 0x100_0000
    &&& buffer[at + 16] == hdrlen % 0x100
    &&& buffer[at + 17] == hdrlen / 0x100
    &&& 0 < hdrlen + caplen
    &&& at + hdrlen + caplen <= buffer.len()
    &&& (next - at) % 4 == 0
    &&& at + hdrlen + caplen <= next < at + hdrlen + caplen + 4
}

/// A scan finds all the records that stand in the buffer from its start on, each
/// packet from behind its header on and as long as its header says.
pub proof fn scan_finds_placed_records(
    buffer: Seq<u8>,
    starts: Seq<int>,
    hdrlens: Seq<u16>,
    caplens: Seq<u32>,
    received: int,
)
    requires
        buffer.len() <= usize::MAX,
        starts.len() == hdrlens.len() + 1,
        caplens.len() == hdrlens.len(),
        starts[0] == 0,
        forall|i: int|
            0 <= i < hdrlens.len() ==> #[trigger] record_placed(
                buffer,
                starts[i],
                hdrlens[i],
                caplens[i],
                starts[i + 1],
            ),
        forall|i: int| 0 <= i < hdrlens.len() ==> #[trigger] starts[i] < received,
        received <= starts[hdrlens.len() as int],
    ensures
        spans_from(buffer, 0, received) matches Some(spans) && spans.len() == hdrlens.len() && (
        forall|i: int|
            0 <= i < spans.len() ==> (#[trigger] spans[i]).0 == starts[i] + hdrlens[i]
                && spans[i].1 == caplens[i]),
{
    scan_finds_placed_from(buffer, starts, hdrlens, caplens, received, 0);
}

/// The same from record `first` on.
proof fn scan_finds_placed_from(
    buffer: Seq<u8>,
    starts: Seq<int>,
    hdrlens: Seq<u16>,
    caplens: Seq<u32>,
    received: int,
    first: int,
)
    requires
        buffer.len() <= usize::MAX,
        starts.len() == hdrlens.len() + 1,
        caplens.len() == hdrlens.len(),
        0 <= first <= hdrlens.len(),
        forall|i: int|
            0 <= i < hdrlens.len() ==> #[trigger] record_placed(
                buffer,
                starts[i],
                hdrlens[i],
                caplens[i],
                starts[i + 1],
            ),
        forall|i: int| 0 <= i < hdrlens.len() ==> #[trigger] starts[i] < received,
        received <= starts[hdrlens.len() as int],
    ensures
        spans_from(buffer, starts[first], received) matches Some(spans) && spans.len()
            == hdrlens.len() - first && (forall|i: int|
            0 <= i < spans.len() ==> (#[trigger] spans[i]).0 == starts[first + i] + hdrlens[first
                + i] && spans[i].1 == caplens[first + i]),
    decreases hdrlens.len() - first,
{
    if first < hdrlens.len() {
        let (h, c) = (hdrlens[first], caplens[first]);
        assert(record_placed(buffer, starts[first], h, c, starts[first + 1]));
        scan_takes_record_by_record(buffer, starts[first], received, h, c, starts[first + 1]);
        scan_finds_placed_from(buffer, starts, hdrlens, caplens, received, first + 1);
        let others = spans_from(buffer, starts[first + 1], received)->0;
        let spans = spans_from(buffer, starts[first], received)->0;
        assert forall|i: int| 0 <= i < spans.len() implies (#[trigger] spans[i]).0 == starts[first
            + i] + hdrlens[first + i] && spans[i].1 == caplens[first + i] by {
            if i > 0 {
                assert(spans[i] == others[i - 1]);
            }
        }
    }
}

/// One record as the driver writes it.
pub struct Capture {
    /// The header, from the time stamp to the first byte of the packet.
    pub header: Seq<u8>,
    /// The captured bytes.
    pub packet: Seq<u8>,
    /// What fills the record up to the next word boundary.
    pub padding: Seq<u8>,
}

impl Capture {
    /// The bytes of the record.
    pub open spec fn bytes(self) -> Seq<u8> {
        self.header + self.packet + self.padding
    }

    /// Whether the header states the two lengths, in little-endian bytes, and the
    /// padding ends at a word boundary.
    pub open spec fn well_formed(self) -> bool {
        &&& 18 <= self.header.len() <= 0xffff
        &&& self.packet.len() <= 0xffff_ffff
        &&& self.header[8] == self.packet.len() % 0x100
        &&& self.header[9] == self.packet.len() / 0x100 % 0x100
        &&& self.header[10] == self.packet.len() / 0x1_0000 % 0x100
        &&& self.header[11] == self.packet.len() / 0x100_0000
        &&& self.header[16] == self.header.len() % 0x100
        &&& self.header[17] == self.header.len() / 0x100
        &&& self.padding.len() < 4
        &&& (self.header.len() + self.packet.len() + self.padding.len()) % 4 == 0
    }
}

/// A capture is well-formed exactly where its header is read as stating the two
/// lengths and its bytes end where the next record begins.
pub proof fn well_formed_capture_is_read_back(capture: Capture)
    ensures
        capture.well_formed() <==> {
            &&& HEADER_FIELDS <= capture.header.len()
            &&& hdrlen_at(capture.header, 0) == capture.header.len()
            &&& caplen_at(capture.header, 0) == capture.packet.len()
            &&& capture.bytes().len() == word_aligned(
                (capture.header.len() + capture.packet.len()) as int,
            )
        },
{
}

/// Every packet can be captured: behind any time stamp and with any length, as long
/// as the length fits its field.
pub proof fn every_packet_has_a_capture(stamp: Seq<u8>, packet: Seq<u8>, fill: u8)
    requires
        stamp.len() == 8,
        packet.len() <= 0xffff_ffff,
    ensures
        ({
            let length = seq![
                (packet.len() % 0x100) as u8,
                (packet.len() / 0x100 % 0x100) as u8,
                (packet.len() / 0x1_0000 % 0x100) as u8,
                (packet.len() / 0x100_0000) as u8,
            ];
            let header = stamp + length + length + seq![20u8, 0u8, fill, fill];
            let padding = Seq::new(((4 - packet.len() % 4) % 4) as nat, |i: int| fill);
            (Capture { header, packet, padding }).well_formed()
        }),
{
}

/// The records one after another.
pub open spec fn laid_out(captures: Seq<Capture>) -> Seq<u8>
    decreases captures.len(),
{
    if captures.len() == 0 {
        Seq::empty()
    } else {
        captures[0].bytes() + laid_out(captures.drop_first())
    }
}

/// Whether the spans mark the captured packets, all of them and in their order.
pub open spec fn spans_mark(
    buffer: Seq<u8>,
    spans: Seq<(usize, usize)>,
    captures: Seq<Capture>,
) -> bool {
    &&& spans.len() == captures.len()
    &&& forall|i: int|
        0 <= i < spans.len() ==> {
            &&& (#[trigger] spans[i]).0 + spans[i].1 <= buffer.len()
            &&& buffer.subrange(spans[i].0 as int, spans[i].0 + spans[i].1) == captures[i].packet
        }
}

/// A scan of the records that the driver wrote finds every captured packet, whole
/// and in the order of the records, whatever stands in the buffer behind them, and
/// whether or not the padding of the last record is counted as received.
pub proof fn scan_finds_every_capture(captures: Seq<Capture>, rest: Seq<u8>, received: int)
    requires
        forall|i: int| 0 <= i < captures.len() ==> (#[trigger] captures[i]).well_formed(),
        (laid_out(captures) + rest).len() <= usize::MAX,
        laid_out(captures).len() - WORD < received <= laid_out(captures).len(),
    ensures
        spans_from(laid_out(captures) + rest, 0, received) matches Some(spans) && spans_mark(
            laid_out(captures) + rest,
            spans,
            captures,
        ),
{
    assert(Seq::<u8>::empty() + laid_out(captures) + rest =~= laid_out(captures) + rest);
    scan_finds_captures_from(Seq::empty(), captures, rest, received);
}

/// The same from the middle of a buffer on.
proof fn scan_finds_captures_from(
    before: Seq<u8>,
    captures: Seq<Capture>,
    rest: Seq<u8>,
    received: int,
)
    requires
        forall|i: int| 0 <= i < captures.len() ==> (#[trigger] captures[i]).well_formed(),
        (before + laid_out(captures) + rest).len() <= usize::MAX,
        before.len() + laid_out(captures).len() - WORD < received <= before.len() + laid_out(
            captures,
        ).len(),
    ensures
        spans_from(before + laid_out(captures) + rest, before.len() as int, received) matches Some(
            spans,
        ) && spans_mark(before + laid_out(captures) + rest, spans, captures),
    decreases captures.len(),
{
    let buffer = before + laid_out(captures) + rest;
    let at = before.len() as int;
    if captures.len() > 0 {
        let first = captures[0];
        let others = captures.drop_first();
        let head = first.header.len() as int;
        let size = first.packet.len() as int;
        assert(buffer =~= before + first.bytes() + laid_out(others) + rest);
        assert(forall|i: int| 0 <= i < head ==> #[trigger] buffer[at + i] == first.header[i]);
        assert(hdrlen_at(buffer, at) == head && caplen_at(buffer, at) == size) by {
            header_fields_are_little_endian(first.header, 0, head as u16, size as u32);
            assert(buffer[at + 8] == first.header[8]);
            assert(buffer[at + 9] == first.header[9]);
            assert(buffer[at + 10] == first.header[10]);
            assert(buffer[at + 11] == first.header[11]);
            assert(buffer[at + 16] == first.header[16]);
            assert(buffer[at + 17] == first.header[17]);
        }
        assert(record_fits(buffer, at));
        assert(next_record(buffer, at) == at + first.bytes().len());
        scan_finds_captures_from(before + first.bytes(), others, rest, received);
        let found = spans_from(buffer, next_record(buffer, at), received)->0;
        assert(buffer.subrange(at + head, at + head + size) =~= first.packet);
        let spans = seq![span_at(buffer, at)] + found;
        assert forall|i: int| 0 <= i < spans.len() implies {
            &&& (#[trigger] spans[i]).0 + spans[i].1 <= buffer.len()
            &&& buffer.subrange(spans[i].0 as int, spans[i].0 + spans[i].1) == captures[i].packet
        } by {
            if i > 0 {
                assert(spans[i] == found[i - 1]);
                assert(others[i - 1] == captures[i]);
            }
        }
    }
}

/// Reads the two bytes at `at`.
fn read_u16(buffer: &[u8], at: usize) -> (value: u16)
    requires
        at + 2 <= buffer.len(),
    ensures
        value == u16_at(buffer@, at as int),
{
    buffer[at] as u16 + 0x100 * (buffer[at + 1] as u16)
}

/// Reads the four bytes at `at`.
fn read_u32(buffer: &[u8], at: usize) -> (value: u32)
    requires
        at + 4 <= buffer.len(),
    ensures
        value == u32_at(buffer@, at as int),
{
    read_u16(buffer, at) as u32 + 0x1_0000 * (read_u16(buffer, at + 2) as u32)
}

/// Reads `bh_hdrlen` and `bh_caplen` of the record at `at`, if it fits.
fn read_header(buffer: &[u8], at: usize) -> (header: Option<(usize, usize)>)
    ensures
        header is Some <==> record_fits(buffer@, at as int),
        header matches Some((hdrlen, caplen)) ==> {
            &&& hdrlen == hdrlen_at(buffer@, at as int)
            &&& caplen == caplen_at(buffer@, at as int)
            &&& at + hdrlen + caplen <= buffer.len()
        },
{
    if buffer.len() < HEADER_FIELDS || at > buffer.len() - HEADER_FIELDS {
        return None;
    }
    let hdrlen: usize = read_u16(buffer, at + HDRLEN_OFFSET) as usize;
    let caplen: usize = read_u32(buffer, at + CAPLEN_OFFSET) as usize;
    let room: usize = buffer.len() - at;
    if hdrlen > room || caplen > room - hdrlen || (hdrlen == 0 && caplen == 0) {
        return None;
    }
    Some((hdrlen, caplen))
}

/// Moves from `at` over a record of `length` bytes, but not behind `end`.
fn advance(at: usize, length: usize, end: usize) -> (next: usize)
    requires
        at < end,
    ensures
        next == if at + word_aligned(length as int) < end {
            at + word_aligned(length as int)
        } else {
            end as int
        },
{
    let padding: usize = (WORD - length % WORD) % WORD;
    let left: usize = end - at;
    if left <= length || left - length <= padding {
        end
    } else {
        at + length + padding
    }
}

/// Finds the packets in the first `received` bytes of a capture buffer.
///
/// A record may end behind `received`, where older bytes of the buffer stand,
/// but not behind the buffer: then, or where a record is empty and the walk
/// would never end, there is no result.
pub fn scan(buffer: &[u8], received: usize) -> (result: Option<VecDeque<(usize, usize)>>)
    ensures
        match result {
            Some(spans) => spans_from(buffer@, 0, received as int) == Some(spans@),
            None => spans_from(buffer@, 0, received as int) is None,
        },
{
    let mut spans: VecDeque<(usize, usize)> = VecDeque::new();
    let mut at: usize = 0;
    while at < received
        invariant
            match spans_from(buffer@, at as int, received as int) {
                Some(rest) => spans_from(buffer@, 0, received as int) == Some(spans@ + rest),
                None => spans_from(buffer@, 0, received as int) is None,
            },
        decreases received - at,
    {
        let ghost before = spans@;
        let ghost here = at as int;
        match read_header(buffer, at) {
            None => {
                return None;
            },
            Some((hdrlen, caplen)) => {
                spans.push_back((at + hdrlen, caplen));
                at = advance(at, hdrlen + caplen, received);
            },
        }
        proof {
            let next = next_record(buffer@, here);
            assert(spans@ == before.push(span_at(buffer@, here)));
            assert(spans_from(buffer@, at as int, received as int) == spans_from(
                buffer@,
                next,
                received as int,
            ));
            if let Some(rest) = spans_from(buffer@, next, received as int) {
                assert(spans@ + rest =~= before + (seq![span_at(buffer@, here)] + rest));
            }
        }
    }
    proof {
        assert(spans@ + Seq::<(usize, usize)>::empty() =~= spans@);
    }
    Some(spans)
}

} // verus!
