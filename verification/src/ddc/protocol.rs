//! DDC/CI packet framing and transactions.
//!
//! A packet is `[0x80|len, op, operands…, checksum]`. The second byte is the
//! **op code**, never a length: it is a coincidence that Get VCP (`0x01`) and
//! Set VCP (`0x03`) equal their own operand counts, and a Capabilities Request
//! (`0xF3`) framed on that reading would be sent as a Set VCP and corrupt the
//! display's settings.

use crate::ddc::{BusEvent, Error, Fault, I2cTransport, Result, Timings};
use crate::ddc;
use crate::text;
use crate::trace;
use vstd::prelude::*;

verus! {

/// 7-bit I2C address of the DDC/CI endpoint.
pub const DISPLAY_7BIT_ADDRESS: u32 = 0x37;

/// Host (source) address placed in the packet's data-address field.
pub const HOST_ADDRESS: u32 = 0x51;

pub const OP_GET_VCP: u8 = 0x01;

pub const OP_GET_VCP_REPLY: u8 = 0x02;

pub const OP_SET_VCP: u8 = 0x03;

pub const OP_CAPS_REQUEST: u8 = 0xF3;

pub const OP_CAPS_REPLY: u8 = 0xE3;

/// Checksum seed of a Get: the display's address shifted left.
///
/// Both host seeds are empirical and confirmed against real hardware. They are
/// inconsistent with each other: Get behaves as though the source address were
/// `0x00`, Set as though it were `0x51`. Do not "fix" them without a monitor to
/// test on.
pub const SEED_GET: u8 = 0x6E;

/// Checksum seed of a Set.
pub const SEED_SET: u8 = 0x3F;

/// Seed for validating replies of the display.
pub const SEED_REPLY: u8 = 0x50;

/// Chunks read at most, so that a monitor that never returns an empty one cannot
/// hang the I2C worker. Far past any real capability string.
pub const MAX_CHUNKS: usize = 64;

// ── Framing ────────────────────────────────────────────────────────────────

/// The exclusive-or of `seed` and all bytes.
pub open spec fn xor_all(seed: u8, data: Seq<u8>) -> u8
    decreases data.len(),
{
    if data.len() == 0 {
        seed
    } else {
        xor_all(seed, data.drop_last()) ^ data.last()
    }
}

/// XOR checksum over `data[start..=end]`, inclusive.
pub fn checksum(seed: u8, data: &[u8], start: usize, end: usize) -> (c: u8)
    requires
        start <= end + 1 <= data@.len(),
    ensures
        c == xor_all(seed, data@.subrange(start as int, end + 1)),
{
    let mut acc: u8 = seed;
    let mut i: usize = start;
    while i <= end
        invariant
            start <= i <= end + 1 <= data@.len(),
            acc == xor_all(seed, data@.subrange(start as int, i as int)),
        decreases end + 1 - i,
    {
        acc = acc ^ data[i];
        assert(data@.subrange(start as int, i + 1).drop_last() =~= data@.subrange(
            start as int,
            i as int,
        ));
        i = i + 1;
    }
    acc
}

/// A packet without its checksum.
pub open spec fn packet_body(op: u8, operands: Seq<u8>) -> Seq<u8> {
    seq![0x80u8 | ((1 + operands.len()) as u8), op] + operands
}

/// A packet: `[0x80|len, op, operands…, checksum]`.
pub open spec fn packet(op: u8, operands: Seq<u8>, seed: u8) -> Seq<u8> {
    packet_body(op, operands).push(xor_all(seed, packet_body(op, operands)))
}

/// Build a packet to the display: `[0x80|len, op, operands…, checksum]`.
pub fn frame(op: u8, operands: &[u8], seed: u8) -> (p: Vec<u8>)
    ensures
        p@ == packet(op, operands@, seed),
{
    let mut p: Vec<u8> = Vec::new();
    p.push(0);
    p.push(op);
    p.extend_from_slice(operands);
    let len: usize = p.len() - 1;
    p.set(0, 0x80u8 | #[verifier::truncate] (len as u8));
    assert(p@ =~= packet_body(op, operands@));
    let sum: u8 = checksum(seed, p.as_slice(), 0, len);
    assert(p@.subrange(0, len + 1) =~= p@);
    p.push(sum);
    p
}

/// A word from its two bytes.
pub open spec fn word_of(hi: u8, lo: u8) -> u16 {
    (hi * 256 + lo) as u16
}

/// Join two bytes to a word.
fn join_word(hi: u8, lo: u8) -> (w: u16)
    ensures
        w == word_of(hi, lo),
        w == hi * 256 + lo,
{
    (hi as u16) * 256 + (lo as u16)
}

/// The two bytes of a word, high byte first.
pub open spec fn bytes_of(w: u16) -> Seq<u8> {
    seq![(w / 256) as u8, (w % 256) as u8]
}

// ── Replies ────────────────────────────────────────────────────────────────

/// Decoded Get VCP Feature reply.
#[derive(Debug, Clone, Copy, PartialEq, Eq, Structural)]
pub struct VcpReply {
    pub code: u8,
    pub current: u16,
    pub max: u16,
    /// True for non-continuous (enumerated) codes such as input source.
    pub non_continuous: bool,
}

/// What a Get VCP Feature reply says, asked for `expect_code`.
///
/// Layout: `[src, 0x88, 0x02, result, opcode, type, max_hi, max_lo, cur_hi,
/// cur_lo, checksum]`.
pub open spec fn vcp_reply(reply: Seq<u8>, expect_code: u8) -> core::result::Result<
    VcpReply,
    Fault,
> {
    if reply.len() < 11 {
        Err(Fault::MalformedReply("expected 11 bytes, got "@ + text::decimal(reply.len())))
    } else if xor_all(SEED_REPLY, reply.drop_last()) != reply.last() {
        Err(
            Fault::Checksum {
                computed: xor_all(SEED_REPLY, reply.drop_last()),
                expected: reply.last(),
            },
        )
    } else if reply[2] != OP_GET_VCP_REPLY {
        Err(
            Fault::MalformedReply(
                "expected op "@ + text::hex_number(OP_GET_VCP_REPLY as nat) + ", got "@
                    + text::hex_number(reply[2] as nat),
            ),
        )
    } else if reply[3] != 0x00 {
        Err(
            Fault::MalformedReply(
                "display reports VCP "@ + text::hex_number(expect_code as nat)
                    + " unsupported (result "@ + text::hex_number(reply[3] as nat) + ")"@,
            ),
        )
    } else if reply[4] != expect_code {
        Err(
            Fault::MalformedReply(
                "reply is for VCP "@ + text::hex_number(reply[4] as nat) + ", expected "@
                    + text::hex_number(expect_code as nat),
            ),
        )
    } else {
        Ok(
            VcpReply {
                code: reply[4],
                non_continuous: reply[5] == 0x01,
                max: word_of(reply[6], reply[7]),
                current: word_of(reply[8], reply[9]),
            },
        )
    }
}

/// `a`, a number, `b`, a number: the shape of most messages below.
fn two_numbers(a: &str, m: u8, b: &str, n: u8) -> (r: String)
    ensures
        r@ == a@ + text::hex_number(m as nat) + b@ + text::hex_number(n as nat),
{
    let mut out = text::own(a);
    out.append(text::write_hex_number(m as u64).as_str());
    out.append(b);
    out.append(text::write_hex_number(n as u64).as_str());
    out
}

/// Parse an 11-byte Get VCP Feature reply.
pub fn parse_vcp_reply(reply: &[u8], expect_code: u8) -> (r: Result<VcpReply>)
    ensures
        ddc::outcome(r) == vcp_reply(reply@, expect_code),
{
    let size: usize = reply.len();
    if size < 11 {
        return Err(
            Error::MalformedReply(
                text::after(
                    "expected 11 bytes, got ",
                    text::write_decimal(size as u64).as_str(),
                ),
            ),
        );
    }
    let computed: u8 = checksum(SEED_REPLY, reply, 0, size - 2);
    assert(reply@.subrange(0, size - 1) =~= reply@.drop_last());
    let expected: u8 = reply[size - 1];
    if computed != expected {
        return Err(Error::Checksum { computed, expected });
    }
    if reply[2] != OP_GET_VCP_REPLY {
        return Err(
            Error::MalformedReply(two_numbers("expected op ", OP_GET_VCP_REPLY, ", got ", reply[2])),
        );
    }
    // Result code 0x01 is the display saying it does not implement this VCP: a
    // real answer, not a transport failure.
    if reply[3] != 0x00 {
        let mut out = two_numbers(
            "display reports VCP ",
            expect_code,
            " unsupported (result ",
            reply[3],
        );
        out.append(")");
        return Err(Error::MalformedReply(out));
    }
    if reply[4] != expect_code {
        return Err(
            Error::MalformedReply(
                two_numbers("reply is for VCP ", reply[4], ", expected ", expect_code),
            ),
        );
    }
    Ok(
        VcpReply {
            code: reply[4],
            non_continuous: reply[5] == 0x01,
            max: join_word(reply[6], reply[7]),
            current: join_word(reply[8], reply[9]),
        },
    )
}

/// The length of a capabilities frame: source, length byte, payload, checksum.
pub open spec fn caps_frame_len(length_byte: u8) -> int {
    3 + (length_byte & 0x7F)
}

/// What a Capabilities Reply chunk holds, asked for `expect_offset`.
///
/// Layout: `[src, 0x80|len, 0xE3, off_hi, off_lo, data…, checksum]`, where the
/// data run is `len - 3` bytes. What the buffer holds behind the frame is
/// nobody's business.
pub open spec fn caps_chunk(reply: Seq<u8>, expect_offset: u16) -> core::result::Result<
    Seq<u8>,
    Fault,
> {
    let frame_len = caps_frame_len(reply[1]);
    let sum = xor_all(SEED_REPLY, reply.take(frame_len - 1));
    if reply.len() < 6 {
        Err(Fault::MalformedReply("caps reply too short"@))
    } else if reply[1] & 0x80 == 0 {
        Err(
            Fault::MalformedReply(
                "caps reply length byte "@ + text::hex_number(reply[1] as nat)
                    + " lacks high bit"@,
            ),
        )
    } else if reply[1] & 0x7F < 3 {
        Err(
            Fault::MalformedReply(
                "caps run length "@ + text::decimal((reply[1] & 0x7F) as nat) + " < 3"@,
            ),
        )
    } else if frame_len > reply.len() {
        Err(
            Fault::MalformedReply(
                "caps frame of "@ + text::decimal(frame_len as nat) + " exceeds "@
                    + text::decimal(reply.len()) + " byte read"@,
            ),
        )
    } else if sum != reply[frame_len - 1] {
        Err(Fault::Checksum { computed: sum, expected: reply[frame_len - 1] })
    } else if reply[2] != OP_CAPS_REPLY {
        Err(
            Fault::MalformedReply(
                "expected caps op "@ + text::hex_number(OP_CAPS_REPLY as nat) + ", got "@
                    + text::hex_number(reply[2] as nat),
            ),
        )
    } else if word_of(reply[3], reply[4]) != expect_offset {
        Err(
            Fault::MalformedReply(
                "caps chunk offset "@ + text::decimal(word_of(reply[3], reply[4]) as nat)
                    + ", expected "@ + text::decimal(expect_offset as nat),
            ),
        )
    } else {
        Ok(reply.subrange(5, frame_len - 1))
    }
}

/// A result with its bytes and its error as plain sequences.
pub open spec fn bytes_outcome(r: Result<Vec<u8>>) -> core::result::Result<Seq<u8>, Fault> {
    match r {
        Ok(v) => Ok(v@),
        Err(e) => Err(e@),
    }
}

/// Parse one Capabilities Reply chunk out of a fixed-size read buffer.
///
/// The buffer is longer than the frame, so the frame length must be recovered
/// from the length byte before the checksum can be located.
pub fn parse_capability_chunk(reply: &[u8], expect_offset: u16) -> (r: Result<Vec<u8>>)
    ensures
        bytes_outcome(r) == caps_chunk(reply@, expect_offset),
{
    let size: usize = reply.len();
    if size < 6 {
        return Err(Error::MalformedReply(text::own("caps reply too short")));
    }
    let head: u8 = reply[1];
    if head & 0x80 == 0 {
        return Err(
            Error::MalformedReply(
                text::between(
                    "caps reply length byte ",
                    text::write_hex_number(head as u64).as_str(),
                    " lacks high bit",
                ),
            ),
        );
    }
    let len: usize = (head & 0x7F) as usize;
    assert(head & 0x7F <= 127) by (bit_vector);
    if len < 3 {
        return Err(
            Error::MalformedReply(
                text::between(
                    "caps run length ",
                    text::write_decimal(len as u64).as_str(),
                    " < 3",
                ),
            ),
        );
    }
    // frame = src + len byte + `len` payload bytes + checksum
    let frame_len: usize = 2 + len + 1;
    if frame_len > size {
        let mut out = text::between(
            "caps frame of ",
            text::write_decimal(frame_len as u64).as_str(),
            " exceeds ",
        );
        out.append(text::write_decimal(size as u64).as_str());
        out.append(" byte read");
        return Err(Error::MalformedReply(out));
    }
    let computed: u8 = checksum(SEED_REPLY, reply, 0, frame_len - 2);
    assert(reply@.subrange(0, frame_len - 1) =~= reply@.take(frame_len - 1));
    let expected: u8 = reply[frame_len - 1];
    if computed != expected {
        return Err(Error::Checksum { computed, expected });
    }
    if reply[2] != OP_CAPS_REPLY {
        return Err(
            Error::MalformedReply(
                two_numbers("expected caps op ", OP_CAPS_REPLY, ", got ", reply[2]),
            ),
        );
    }
    let offset: u16 = join_word(reply[3], reply[4]);
    if offset != expect_offset {
        let mut out = text::between(
            "caps chunk offset ",
            text::write_decimal(offset as u64).as_str(),
            ", expected ",
        );
        out.append(text::write_decimal(expect_offset as u64).as_str());
        return Err(Error::MalformedReply(out));
    }
    let mut data: Vec<u8> = Vec::new();
    let mut i: usize = 5;
    while i < frame_len - 1
        invariant
            5 <= i <= frame_len - 1,
            frame_len <= reply@.len(),
            data@ == reply@.subrange(5, i as int),
        decreases frame_len - i,
    {
        data.push(reply[i]);
        i = i + 1;
        assert(reply@.subrange(5, i as int) =~= reply@.subrange(5, i - 1).push(reply@[i - 1]));
    }
    Ok(data)
}

// ── Transactions ───────────────────────────────────────────────────────────

/// How often one packet is put on the wire.
pub open spec fn write_cycles(t: Timings) -> int {
    if t.num_write_cycles >= 1 {
        t.num_write_cycles as int
    } else {
        1
    }
}

/// Whether an event is a write of `packet` to the display.
pub open spec fn writes(e: BusEvent, packet: Seq<u8>) -> bool {
    e matches BusEvent::Write { chip_address, data_address, data, result } && chip_address
        == DISPLAY_7BIT_ADDRESS && data_address == HOST_ADDRESS && data == packet
}

/// Whether `ev` is one packet written: a wait and a write for each cycle. The
/// last write decides how it ended.
pub open spec fn wrote(
    ev: Seq<BusEvent>,
    t: Timings,
    packet: Seq<u8>,
    result: core::result::Result<(), Fault>,
) -> bool {
    &&& ev.len() == 2 * write_cycles(t)
    &&& forall|i: int|
        0 <= i < ev.len() ==> if i % 2 == 0 {
            #[trigger] ev[i] == BusEvent::Pause(t.write_sleep)
        } else {
            writes(ev[i], packet)
        }
    &&& ev.last()->Write_result == result
}

/// Whether an event is a read of `n` bytes from the display.
pub open spec fn reads(e: BusEvent, n: nat) -> bool {
    e matches BusEvent::Read { chip_address, offset, data, result } && chip_address
        == DISPLAY_7BIT_ADDRESS && offset == 0 && data.len() == n
}

/// What a read yields, where `parse` says what the bytes mean.
pub open spec fn read_outcome<V>(
    e: BusEvent,
    parse: spec_fn(Seq<u8>) -> core::result::Result<V, Fault>,
) -> core::result::Result<V, Fault> {
    match e->Read_result {
        Ok(_) => parse(e->Read_data),
        Err(f) => Err(f),
    }
}

/// One request whose write went through and whose reply was read.
pub open spec fn replied<V>(
    ev: Seq<BusEvent>,
    t: Timings,
    packet: Seq<u8>,
    n: nat,
    parse: spec_fn(Seq<u8>) -> core::result::Result<V, Fault>,
    r: core::result::Result<V, Fault>,
) -> bool {
    let c = 2 * write_cycles(t);
    &&& ev.len() == c + 2
    &&& wrote(ev.take(c), t, packet, Ok(()))
    &&& ev[c] == BusEvent::Pause(t.read_sleep)
    &&& reads(ev[c + 1], n)
    &&& read_outcome(ev[c + 1], parse) == r
}

/// One request that came to nothing, and the wait behind it. `last` is the
/// error to report: a write that fails leaves the earlier one, `prev`.
pub open spec fn failed_once<V>(
    ev: Seq<BusEvent>,
    t: Timings,
    packet: Seq<u8>,
    n: nat,
    parse: spec_fn(Seq<u8>) -> core::result::Result<V, Fault>,
    prev: Fault,
    last: Fault,
) -> bool {
    &&& ev.len() > 0
    &&& ev.last() == BusEvent::Pause(t.retry_sleep)
    &&& {
        ||| last == prev && exists|f: Fault| wrote(ev.drop_last(), t, packet, Err(f))
        ||| replied(ev.drop_last(), t, packet, n, parse, Err(last))
    }
}

/// `k` requests in a row that came to nothing.
pub open spec fn failed<V>(
    ev: Seq<BusEvent>,
    t: Timings,
    packet: Seq<u8>,
    n: nat,
    parse: spec_fn(Seq<u8>) -> core::result::Result<V, Fault>,
    k: nat,
    last: Fault,
) -> bool
    decreases k,
{
    if k == 0 {
        ev.len() == 0 && last == Fault::NoResponse(0)
    } else {
        exists|m: int, prev: Fault|
            {
                &&& 0 <= m <= ev.len()
                &&& failed(ev.take(m), t, packet, n, parse, (k - 1) as nat, prev)
                &&& #[trigger] failed_once(ev.skip(m), t, packet, n, parse, prev, last)
            }
    }
}

/// A request with retries: so many failures, and then either a usable reply or
/// no attempt left.
pub open spec fn exchanged<V>(
    ev: Seq<BusEvent>,
    t: Timings,
    packet: Seq<u8>,
    n: nat,
    parse: spec_fn(Seq<u8>) -> core::result::Result<V, Fault>,
    r: core::result::Result<V, Fault>,
) -> bool {
    match r {
        Ok(v) => exists|m: int, k: nat, last: Fault|
            {
                &&& 0 <= m <= ev.len()
                &&& k <= t.num_retries
                &&& #[trigger] failed(ev.take(m), t, packet, n, parse, k, last)
                &&& replied(ev.skip(m), t, packet, n, parse, Ok(v))
            },
        Err(f) => failed(ev, t, packet, n, parse, (t.num_retries + 1) as nat, f),
    }
}

/// One write of a packet that was refused, and the wait behind it.
pub open spec fn refused_once(
    ev: Seq<BusEvent>,
    t: Timings,
    packet: Seq<u8>,
    f: Fault,
) -> bool {
    &&& ev.len() > 0
    &&& ev.last() == BusEvent::Pause(t.retry_sleep)
    &&& wrote(ev.drop_last(), t, packet, Err(f))
}

/// `k` writes of a packet in a row that were refused.
pub open spec fn refused(ev: Seq<BusEvent>, t: Timings, packet: Seq<u8>, k: nat) -> bool
    decreases k,
{
    if k == 0 {
        ev.len() == 0
    } else {
        exists|m: int, f: Fault|
            {
                &&& 0 <= m <= ev.len()
                &&& refused(ev.take(m), t, packet, (k - 1) as nat)
                &&& #[trigger] refused_once(ev.skip(m), t, packet, f)
            }
    }
}

/// A write with retries: so many refusals, and then either a write that went
/// through or, with no attempt left, the error of the last one.
pub open spec fn delivered(
    ev: Seq<BusEvent>,
    t: Timings,
    packet: Seq<u8>,
    r: core::result::Result<(), Fault>,
) -> bool {
    exists|m: int, k: nat|
        {
            &&& 0 <= m <= ev.len()
            &&& k <= t.num_retries
            &&& #[trigger] refused(ev.take(m), t, packet, k)
            &&& match r {
                Ok(_) => wrote(ev.skip(m), t, packet, Ok(())),
                Err(f) => k == t.num_retries && refused_once(ev.skip(m), t, packet, f),
            }
        }
}

/// A code asked for, with retries.
pub open spec fn vcp_got(
    ev: Seq<BusEvent>,
    t: Timings,
    code: u8,
    r: core::result::Result<VcpReply, Fault>,
) -> bool {
    exchanged(
        ev,
        t,
        packet(OP_GET_VCP, seq![code], SEED_GET),
        11,
        |reply: Seq<u8>| vcp_reply(reply, code),
        r,
    )
}

/// A code set, with retries.
pub open spec fn vcp_set(
    ev: Seq<BusEvent>,
    t: Timings,
    code: u8,
    value: u16,
    r: core::result::Result<(), Fault>,
) -> bool {
    delivered(ev, t, packet(OP_SET_VCP, seq![code] + bytes_of(value), SEED_SET), r)
}

/// One chunk of the capability string asked for, with retries.
pub open spec fn chunk_exchanged(
    ev: Seq<BusEvent>,
    t: Timings,
    offset: u16,
    r: core::result::Result<Seq<u8>, Fault>,
) -> bool {
    exchanged(
        ev,
        t,
        packet(OP_CAPS_REQUEST, bytes_of(offset), SEED_GET),
        64,
        |reply: Seq<u8>| caps_chunk(reply, offset),
        r,
    )
}

/// One chunk read behind the bytes that are there already.
pub open spec fn chunk_read(
    ev: Seq<BusEvent>,
    t: Timings,
    prior: Seq<u8>,
    chunk: Seq<u8>,
) -> bool {
    chunk.len() > 0 && chunk_exchanged(ev, t, prior.len() as u16, Ok(chunk))
}

/// `k` chunks read, which make up `got`.
pub open spec fn gathered(ev: Seq<BusEvent>, t: Timings, k: nat, got: Seq<u8>) -> bool
    decreases k,
{
    if k == 0 {
        ev.len() == 0 && got.len() == 0
    } else {
        exists|m: int, prior: Seq<u8>, chunk: Seq<u8>|
            {
                &&& 0 <= m <= ev.len()
                &&& gathered(ev.take(m), t, (k - 1) as nat, prior)
                &&& #[trigger] chunk_read(ev.skip(m), t, prior, chunk)
                &&& got == prior + chunk
            }
    }
}

/// The capability string that bytes spell.
pub open spec fn spelled(bytes: Seq<u8>) -> core::result::Result<Seq<char>, Fault> {
    if vstd::utf8::valid_utf8(bytes) {
        Ok(vstd::utf8::decode_utf8(bytes))
    } else {
        Err(Fault::CapabilityParse(text::utf8_complaint(bytes)))
    }
}

/// How reading chunks ends behind `k` of them: at the bound, at an empty chunk,
/// or at one that could not be read.
pub open spec fn gathering_ends(
    ev: Seq<BusEvent>,
    t: Timings,
    k: nat,
    got: Seq<u8>,
    r: core::result::Result<Seq<char>, Fault>,
) -> bool {
    if k >= MAX_CHUNKS {
        ev.len() == 0 && r == spelled(got)
    } else {
        ||| chunk_exchanged(ev, t, got.len() as u16, Ok(Seq::empty())) && r == spelled(got)
        ||| r matches Err(f) && chunk_exchanged(ev, t, got.len() as u16, Err(f))
    }
}

/// A capability string read chunk by chunk.
pub open spec fn capability_read(
    ev: Seq<BusEvent>,
    t: Timings,
    r: core::result::Result<Seq<char>, Fault>,
) -> bool {
    exists|m: int, k: nat, got: Seq<u8>|
        {
            &&& 0 <= m <= ev.len()
            &&& k <= MAX_CHUNKS
            &&& #[trigger] gathered(ev.take(m), t, k, got)
            &&& gathering_ends(ev.skip(m), t, k, got, r)
        }
}

/// A result with its text as characters.
pub open spec fn text_outcome(r: Result<String>) -> core::result::Result<Seq<char>, Fault> {
    match r {
        Ok(s) => Ok(s@),
        Err(e) => Err(e@),
    }
}

/// A DDC/CI device over some I2C transport.
pub struct DdcDevice<T: I2cTransport> {
    pub transport: T,
    pub timings: Timings,
}

impl<T: I2cTransport> DdcDevice<T> {
    pub fn new(transport: T, timings: Timings) -> (d: Self)
        ensures
            d.transport == transport,
            d.timings == timings,
    {
        DdcDevice { transport, timings }
    }

    /// Write a framed packet, honouring the empirical write-cycle repetition.
    fn write_packet(&mut self, packet: &Vec<u8>) -> (r: Result<()>)
        ensures
            final(self).timings == old(self).timings,
            trace::extends(old(self).transport.history(), final(self).transport.history()),
            wrote(
                trace::since(old(self).transport.history(), final(self).transport.history()),
                old(self).timings,
                packet@,
                ddc::outcome(r),
            ),
    {
        let ghost h0 = self.transport.history();
        let t = self.timings;
        let cycles: u8 = if t.num_write_cycles >= 1 {
            t.num_write_cycles
        } else {
            1
        };
        self.transport.pause(t.write_sleep);
        let mut last = self.transport.write(
            DISPLAY_7BIT_ADDRESS,
            HOST_ADDRESS,
            packet.as_slice(),
        );
        let mut i: u8 = 1;
        assert(self.transport.history().take(h0.len() as int) =~= h0);
        while i < cycles
            invariant
                1 <= i <= cycles,
                cycles == write_cycles(t),
                self.timings == t,
                trace::extends(h0, self.transport.history()),
                trace::since(h0, self.transport.history()).len() == 2 * i,
                forall|j: int|
                    0 <= j < 2 * i ==> if j % 2 == 0 {
                        #[trigger] trace::since(h0, self.transport.history())[j] == BusEvent::Pause(
                            t.write_sleep,
                        )
                    } else {
                        writes(trace::since(h0, self.transport.history())[j], packet@)
                    },
                trace::since(h0, self.transport.history()).last()->Write_result == ddc::outcome(last),
            decreases cycles - i,
        {
            let ghost h1 = self.transport.history();
            self.transport.pause(t.write_sleep);
            last = self.transport.write(DISPLAY_7BIT_ADDRESS, HOST_ADDRESS, packet.as_slice());
            assert(self.transport.history().take(h0.len() as int) =~= h1.take(h0.len() as int));
            assert forall|j: int| 0 <= j < 2 * i implies trace::since(h0, self.transport.history())[j]
                == #[trigger] trace::since(h0, h1)[j] by {}
            assert forall|j: int| 0 <= j < 2 * i + 2 implies if j % 2 == 0 {
                #[trigger] trace::since(h0, self.transport.history())[j] == BusEvent::Pause(t.write_sleep)
            } else {
                writes(trace::since(h0, self.transport.history())[j], packet@)
            } by {
                if j < 2 * i {
                    assert(trace::since(h0, self.transport.history())[j] == trace::since(h0, h1)[j]);
                }
            }
            i = i + 1;
        }
        last
    }

    /// One attempt at a request: write it, wait, read `n` bytes. A write that
    /// fails reports no error of its own.
    fn attempt(&mut self, packet: &Vec<u8>, n: usize) -> (r: core::result::Result<
        Vec<u8>,
        Option<Error>,
    >)
        ensures
            final(self).timings == old(self).timings,
            trace::extends(old(self).transport.history(), final(self).transport.history()),
            ({
                let t = old(self).timings;
                let ev = trace::since(old(self).transport.history(), final(self).transport.history());
                let c = 2 * write_cycles(t);
                match r {
                    Ok(reply) => {
                        &&& ev.len() == c + 2
                        &&& wrote(ev.take(c), t, packet@, Ok(()))
                        &&& ev[c] == BusEvent::Pause(t.read_sleep)
                        &&& reads(ev[c + 1], n as nat)
                        &&& ev[c + 1]->Read_result == Ok::<(), Fault>(())
                        &&& ev[c + 1]->Read_data == reply@
                    },
                    Err(None) => exists|f: Fault| wrote(ev, t, packet@, Err(f)),
                    Err(Some(e)) => {
                        &&& ev.len() == c + 2
                        &&& wrote(ev.take(c), t, packet@, Ok(()))
                        &&& ev[c] == BusEvent::Pause(t.read_sleep)
                        &&& reads(ev[c + 1], n as nat)
                        &&& ev[c + 1]->Read_result == Err::<(), Fault>(e@)
                    },
                }
            }),
    {
        let ghost h0 = self.transport.history();
        match self.write_packet(packet) {
            Ok(_) => {},
            Err(e) => {
                assert(wrote(
                    trace::since(h0, self.transport.history()),
                    old(self).timings,
                    packet@,
                    Err(e@),
                ));
                return Err(None);
            },
        }
        let ghost h1 = self.transport.history();
        let t = self.timings;
        self.transport.pause(t.read_sleep);
        let mut reply: Vec<u8> = vec![0u8; n];
        let read = self.transport.read(DISPLAY_7BIT_ADDRESS, 0, reply.as_mut_slice());
        let ghost ev = trace::since(h0, self.transport.history());
        let ghost c = 2 * write_cycles(t);
        assert(self.transport.history().take(h0.len() as int) =~= h1.take(h0.len() as int));
        assert(ev.take(c) =~= trace::since(h0, h1));
        match read {
            Ok(_) => Ok(reply),
            Err(e) => Err(Some(e)),
        }
    }

    /// Get VCP Feature.
    pub fn get_vcp(&mut self, code: u8) -> (r: Result<VcpReply>)
        ensures
            final(self).timings == old(self).timings,
            trace::extends(old(self).transport.history(), final(self).transport.history()),
            vcp_got(
                trace::since(old(self).transport.history(), final(self).transport.history()),
                old(self).timings,
                code,
                ddc::outcome(r),
            ),
    {
        let ghost h0 = self.transport.history();
        let ghost parse = |reply: Seq<u8>| vcp_reply(reply, code);
        let mut operands: Vec<u8> = Vec::new();
        operands.push(code);
        assert(operands@ =~= seq![code]);
        let request = frame(OP_GET_VCP, operands.as_slice(), SEED_GET);
        let t = self.timings;
        let mut last_err = Error::NoResponse(0);
        let mut k: u16 = 0;
        assert(h0.take(h0.len() as int) =~= h0);
        while k <= t.num_retries as u16
            invariant
                k <= t.num_retries + 1,
                self.timings == t,
                t == old(self).timings,
                h0 == old(self).transport.history(),
                request@ == packet(OP_GET_VCP, seq![code], SEED_GET),
                parse == (|reply: Seq<u8>| vcp_reply(reply, code)),
                trace::extends(h0, self.transport.history()),
                failed(
                    trace::since(h0, self.transport.history()),
                    t,
                    request@,
                    11,
                    parse,
                    k as nat,
                    last_err@,
                ),
            decreases t.num_retries + 1 - k,
        {
            let ghost h1 = self.transport.history();
            let ghost prev = last_err@;
            let got = self.attempt(&request, 11);
            let ghost h2 = self.transport.history();
            match got {
                Ok(reply) => match parse_vcp_reply(reply.as_slice(), code) {
                    Ok(v) => {
                        assert(replied(trace::since(h1, h2), t, request@, 11, parse, Ok(v)));
                        proof {
                            lemma_answered(h0, h1, h2, t, request@, 11, parse, k as nat, prev, v);
                        }
                        return Ok(v);
                    },
                    Err(e) => {
                        assert(replied(trace::since(h1, h2), t, request@, 11, parse, Err(e@)));
                        last_err = e;
                    },
                },
                Err(Some(e)) => {
                    assert(replied(trace::since(h1, h2), t, request@, 11, parse, Err(e@)));
                    last_err = e;
                },
                Err(None) => {},
            }
            self.transport.pause(t.retry_sleep);
            let ghost h3 = self.transport.history();
            proof {
                lemma_failed_again(h0, h1, h2, h3, t, request@, 11, parse, k as nat, prev, last_err@);
            }
            k = k + 1;
        }
        Err(last_err)
    }

    /// Set VCP Feature. Fire-and-forget: DDC sends no acknowledgement.
    pub fn set_vcp(&mut self, code: u8, value: u16) -> (r: Result<()>)
        ensures
            final(self).timings == old(self).timings,
            trace::extends(old(self).transport.history(), final(self).transport.history()),
            vcp_set(
                trace::since(old(self).transport.history(), final(self).transport.history()),
                old(self).timings,
                code,
                value,
                ddc::outcome(r),
            ),
    {
        let ghost h0 = self.transport.history();
        let mut operands: Vec<u8> = Vec::new();
        operands.push(code);
        operands.push((value / 256) as u8);
        operands.push((value % 256) as u8);
        assert(operands@ =~= seq![code] + bytes_of(value));
        let request = frame(OP_SET_VCP, operands.as_slice(), SEED_SET);
        let t = self.timings;
        let mut k: u16 = 0;
        assert(h0.take(h0.len() as int) =~= h0);
        loop
            invariant
                k <= t.num_retries,
                self.timings == t,
                t == old(self).timings,
                h0 == old(self).transport.history(),
                request@ == packet(OP_SET_VCP, seq![code] + bytes_of(value), SEED_SET),
                trace::extends(h0, self.transport.history()),
                refused(trace::since(h0, self.transport.history()), t, request@, k as nat),
            decreases t.num_retries - k,
        {
            let ghost h1 = self.transport.history();
            let sent = self.write_packet(&request);
            let ghost h2 = self.transport.history();
            let ghost m = trace::since(h0, h1).len() as int;
            assert(h2.take(h0.len() as int) =~= h1.take(h0.len() as int));
            match sent {
                Ok(_) => {
                    assert(trace::since(h0, h2).take(m) =~= trace::since(h0, h1));
                    assert(trace::since(h0, h2).skip(m) =~= trace::since(h1, h2));
                    assert(refused(trace::since(h0, h2).take(m), t, request@, k as nat));
                    return Ok(());
                },
                Err(e) => {
                    self.transport.pause(t.retry_sleep);
                    let ghost h3 = self.transport.history();
                    assert(h3.take(h0.len() as int) =~= h1.take(h0.len() as int));
                    assert(trace::since(h0, h3).take(m) =~= trace::since(h0, h1));
                    assert(trace::since(h0, h3).skip(m).drop_last() =~= trace::since(h1, h2));
                    assert(refused_once(trace::since(h0, h3).skip(m), t, request@, e@));
                    if k >= t.num_retries as u16 {
                        assert(refused(trace::since(h0, h3).take(m), t, request@, k as nat));
                        return Err(e);
                    }
                    k = k + 1;
                },
            }
        }
    }

    /// Read the full capability string, which arrives in chunks. A zero-length
    /// run terminates.
    pub fn capability_string(&mut self) -> (r: Result<String>)
        ensures
            final(self).timings == old(self).timings,
            trace::extends(old(self).transport.history(), final(self).transport.history()),
            capability_read(
                trace::since(old(self).transport.history(), final(self).transport.history()),
                old(self).timings,
                text_outcome(r),
            ),
    {
        let ghost h0 = self.transport.history();
        let t = self.timings;
        let mut out: Vec<u8> = Vec::new();
        let mut k: usize = 0;
        let mut done: bool = false;
        let ghost mut hk = h0;
        assert(h0.take(h0.len() as int) =~= h0);
        while k < MAX_CHUNKS && !done
            invariant
                k <= MAX_CHUNKS,
                out@.len() <= 58 * k,
                self.timings == t,
                t == old(self).timings,
                h0 == old(self).transport.history(),
                trace::extends(h0, hk),
                trace::extends(hk, self.transport.history()),
                trace::extends(h0, self.transport.history()),
                gathered(trace::since(h0, hk), t, k as nat, out@),
                !done ==> hk == self.transport.history(),
                done ==> k < MAX_CHUNKS && chunk_exchanged(
                    trace::since(hk, self.transport.history()),
                    t,
                    out@.len() as u16,
                    Ok(Seq::empty()),
                ),
            decreases MAX_CHUNKS - k, if done { 0int } else { 1int },
        {
            let ghost h1 = self.transport.history();
            let read = self.capability_chunk(out.len() as u16);
            let ghost h2 = self.transport.history();
            let ghost m = trace::since(h0, h1).len() as int;
            assert(h2.take(h0.len() as int) =~= h1.take(h0.len() as int));
            assert(trace::since(h0, h2).take(m) =~= trace::since(h0, h1));
            assert(trace::since(h0, h2).skip(m) =~= trace::since(h1, h2));
            match read {
                Err(e) => {
                    assert(gathered(trace::since(h0, h2).take(m), t, k as nat, out@));
                    return Err(e);
                },
                Ok(chunk) => {
                    if chunk.len() == 0 {
                        assert(chunk@ =~= Seq::<u8>::empty());
                        done = true;
                    } else {
                        let ghost prior = out@;
                        let mut more = chunk;
                        let ghost run = more@;
                        out.append(&mut more);
                        assert(chunk_read(trace::since(h0, h2).skip(m), t, prior, run));
                        k = k + 1;
                        proof {
                            hk = h2;
                            assert(h2.take(h2.len() as int) =~= h2);
                        }
                    }
                },
            }
        }
        let ghost h3 = self.transport.history();
        let ghost m = trace::since(h0, hk).len() as int;
        let ghost bytes = out@;
        assert(trace::since(h0, h3).take(m) =~= trace::since(h0, hk)) by {
            assert(h3.take(hk.len() as int) == hk);
        }
        assert(trace::since(h0, h3).skip(m) =~= trace::since(hk, h3));
        assert(gathered(trace::since(h0, h3).take(m), t, k as nat, bytes));
        match text::utf8_string(out) {
            Ok(s) => Ok(s),
            Err(e) => Err(Error::CapabilityParse(e)),
        }
    }

    fn capability_chunk(&mut self, offset: u16) -> (r: Result<Vec<u8>>)
        ensures
            final(self).timings == old(self).timings,
            trace::extends(old(self).transport.history(), final(self).transport.history()),
            chunk_exchanged(
                trace::since(old(self).transport.history(), final(self).transport.history()),
                old(self).timings,
                offset,
                bytes_outcome(r),
            ),
            r matches Ok(data) ==> data@.len() <= 58,
    {
        let ghost h0 = self.transport.history();
        let ghost parse = |reply: Seq<u8>| caps_chunk(reply, offset);
        let mut operands: Vec<u8> = Vec::new();
        operands.push((offset / 256) as u8);
        operands.push((offset % 256) as u8);
        assert(operands@ =~= bytes_of(offset));
        let request = frame(OP_CAPS_REQUEST, operands.as_slice(), SEED_GET);
        let t = self.timings;
        let mut last_err = Error::NoResponse(0);
        let mut k: u16 = 0;
        assert(h0.take(h0.len() as int) =~= h0);
        while k <= t.num_retries as u16
            invariant
                k <= t.num_retries + 1,
                self.timings == t,
                t == old(self).timings,
                h0 == old(self).transport.history(),
                request@ == packet(OP_CAPS_REQUEST, bytes_of(offset), SEED_GET),
                parse == (|reply: Seq<u8>| caps_chunk(reply, offset)),
                trace::extends(h0, self.transport.history()),
                failed(
                    trace::since(h0, self.transport.history()),
                    t,
                    request@,
                    64,
                    parse,
                    k as nat,
                    last_err@,
                ),
            decreases t.num_retries + 1 - k,
        {
            let ghost h1 = self.transport.history();
            let ghost prev = last_err@;
            let got = self.attempt(&request, 64);
            let ghost h2 = self.transport.history();
            match got {
                Ok(reply) => match parse_capability_chunk(reply.as_slice(), offset) {
                    Ok(data) => {
                        assert(replied(trace::since(h1, h2), t, request@, 64, parse, Ok(data@)));
                        proof {
                            lemma_answered(
                                h0,
                                h1,
                                h2,
                                t,
                                request@,
                                64,
                                parse,
                                k as nat,
                                prev,
                                data@,
                            );
                        }
                        return Ok(data);
                    },
                    Err(e) => {
                        assert(replied(trace::since(h1, h2), t, request@, 64, parse, Err(e@)));
                        last_err = e;
                    },
                },
                Err(Some(e)) => {
                    assert(replied(trace::since(h1, h2), t, request@, 64, parse, Err(e@)));
                    last_err = e;
                },
                Err(None) => {},
            }
            self.transport.pause(t.retry_sleep);
            let ghost h3 = self.transport.history();
            proof {
                lemma_failed_again(h0, h1, h2, h3, t, request@, 64, parse, k as nat, prev, last_err@);
            }
            k = k + 1;
        }
        Err(last_err)
    }
}

/// A usable reply behind `k` failed requests.
proof fn lemma_answered<V>(
    h0: Seq<BusEvent>,
    h1: Seq<BusEvent>,
    h2: Seq<BusEvent>,
    t: Timings,
    request: Seq<u8>,
    n: nat,
    parse: spec_fn(Seq<u8>) -> core::result::Result<V, Fault>,
    k: nat,
    prev: Fault,
    v: V,
)
    requires
        trace::extends(h0, h1),
        trace::extends(h1, h2),
        k <= t.num_retries,
        failed(trace::since(h0, h1), t, request, n, parse, k, prev),
        replied(trace::since(h1, h2), t, request, n, parse, Ok(v)),
    ensures
        trace::extends(h0, h2),
        exchanged(trace::since(h0, h2), t, request, n, parse, Ok(v)),
{
    let m = trace::since(h0, h1).len() as int;
    assert(h1.take(h0.len() as int) =~= h2.take(h0.len() as int)) by {
        assert(h2.take(h1.len() as int) == h1);
    }
    assert(trace::since(h0, h2).take(m) =~= trace::since(h0, h1)) by {
        assert(h2.take(h1.len() as int) == h1);
    }
    assert(trace::since(h0, h2).skip(m) =~= trace::since(h1, h2));
    assert(failed(trace::since(h0, h2).take(m), t, request, n, parse, k, prev));
}

/// One more failed request behind `k` of them.
proof fn lemma_failed_again<V>(
    h0: Seq<BusEvent>,
    h1: Seq<BusEvent>,
    h2: Seq<BusEvent>,
    h3: Seq<BusEvent>,
    t: Timings,
    request: Seq<u8>,
    n: nat,
    parse: spec_fn(Seq<u8>) -> core::result::Result<V, Fault>,
    k: nat,
    prev: Fault,
    last: Fault,
)
    requires
        trace::extends(h0, h1),
        trace::extends(h1, h2),
        h3 == h2.push(BusEvent::Pause(t.retry_sleep)),
        failed(trace::since(h0, h1), t, request, n, parse, k, prev),
        (last == prev && exists|f: Fault| wrote(trace::since(h1, h2), t, request, Err(f))) || replied(
            trace::since(h1, h2),
            t,
            request,
            n,
            parse,
            Err(last),
        ),
    ensures
        trace::extends(h0, h3),
        failed(trace::since(h0, h3), t, request, n, parse, k + 1, last),
{
    let m = trace::since(h0, h1).len() as int;
    assert(h1.take(h0.len() as int) =~= h3.take(h0.len() as int)) by {
        assert(h2.take(h1.len() as int) == h1);
    }
    assert(trace::since(h0, h3).take(m) =~= trace::since(h0, h1)) by {
        assert(h2.take(h1.len() as int) == h1);
    }
    assert(trace::since(h0, h3).skip(m).drop_last() =~= trace::since(h1, h2));
    assert(trace::since(h0, h3).skip(m).last() == BusEvent::Pause(t.retry_sleep));
    assert(failed_once(trace::since(h0, h3).skip(m), t, request, n, parse, prev, last));
}

// ── Laws ───────────────────────────────────────────────────────────────────

/// The checksum closes a packet: all its bytes and the seed cancel out.
pub proof fn law_packet_checks_out(op: u8, operands: Seq<u8>, seed: u8)
    ensures
        xor_all(seed, packet(op, operands, seed)) == 0,
{
    let body = packet_body(op, operands);
    let sum = xor_all(seed, body);
    assert(packet(op, operands, seed).drop_last() =~= body);
    assert(sum ^ sum == 0) by (bit_vector);
}

/// The length byte counts the op code and the operands, and the op code stands
/// behind it, whatever the number of operands: no other request is ever taken
/// for a Set VCP.
pub proof fn law_packet_keeps_its_op(op: u8, operands: Seq<u8>, seed: u8)
    requires
        operands.len() < 127,
    ensures
        packet(op, operands, seed)[0] == 0x80 + 1 + operands.len(),
        packet(op, operands, seed)[1] == op,
        packet(op, operands, seed).len() == operands.len() + 3,
        packet(op, operands, seed).subrange(2, 2 + operands.len() as int) == operands,
{
    let n = (1 + operands.len()) as u8;
    assert(n < 128 ==> 0x80u8 | n == 0x80 + n) by (bit_vector);
    assert(packet(op, operands, seed).subrange(2, 2 + operands.len() as int) =~= operands);
}

/// A well-formed reply reads back as what the display put in it.
pub proof fn law_vcp_reply_reads_back(src: u8, ty: u8, code: u8, max: u16, current: u16)
    ensures
        ({
            let body = seq![src, 0x88u8, OP_GET_VCP_REPLY, 0x00u8, code, ty] + bytes_of(max)
                + bytes_of(current);
            vcp_reply(body.push(xor_all(SEED_REPLY, body)), code) == Ok::<VcpReply, Fault>(
                VcpReply { code, current, max, non_continuous: ty == 0x01 },
            )
        }),
{
    let body = seq![src, 0x88u8, OP_GET_VCP_REPLY, 0x00u8, code, ty] + bytes_of(max) + bytes_of(
        current,
    );
    let reply = body.push(xor_all(SEED_REPLY, body));
    assert(reply.drop_last() =~= body);
    assert(word_of(reply[6], reply[7]) == max);
    assert(word_of(reply[8], reply[9]) == current);
}

/// A reply whose checksum byte was altered is never taken for a reading.
pub proof fn law_altered_checksum_is_refused(reply: Seq<u8>, code: u8, last: u8)
    requires
        vcp_reply(reply, code) is Ok,
        last != reply.last(),
    ensures
        vcp_reply(reply.drop_last().push(last), code) == Err::<VcpReply, Fault>(
            Fault::Checksum { computed: reply.last(), expected: last },
        ),
{
    assert(reply.drop_last().push(last).drop_last() =~= reply.drop_last());
}

/// A reply that says "unsupported" is an error, never a reading of zero.
pub proof fn law_unsupported_is_no_reading(reply: Seq<u8>, code: u8)
    requires
        reply.len() >= 11,
        reply[3] != 0x00,
    ensures
        vcp_reply(reply, code) is Err,
{
}

/// A chunk of the capability string reads back whatever stands behind its frame
/// in the read buffer.
pub proof fn law_caps_chunk_reads_back(src: u8, offset: u16, data: Seq<u8>, rest: Seq<u8>)
    requires
        data.len() <= 124,
    ensures
        ({
            let body = seq![src, 0x80u8 | ((data.len() + 3) as u8), OP_CAPS_REPLY] + bytes_of(
                offset,
            ) + data;
            caps_chunk(body.push(xor_all(SEED_REPLY, body)) + rest, offset) == Ok::<Seq<u8>, Fault>(
                data,
            )
        }),
{
    let n = (data.len() + 3) as u8;
    let head = 0x80u8 | n;
    assert(n < 128 ==> (0x80u8 | n) & 0x7F == n && (0x80u8 | n) & 0x80 != 0) by (bit_vector);
    let body = seq![src, head, OP_CAPS_REPLY] + bytes_of(offset) + data;
    let reply = body.push(xor_all(SEED_REPLY, body)) + rest;
    assert(reply[1] == head);
    assert(caps_frame_len(head) == data.len() + 6);
    assert(reply.take(data.len() as int + 5) =~= body);
    assert(word_of(reply[3], reply[4]) == offset);
    assert(reply.subrange(5, data.len() as int + 5) =~= data);
}

/// Events that one attempt at a request takes at most.
pub open spec fn attempt_len(t: Timings) -> int {
    2 * write_cycles(t) + 3
}

/// `k` failed requests take at most `k` attempts' worth of events.
proof fn lemma_failed_len<V>(
    ev: Seq<BusEvent>,
    t: Timings,
    request: Seq<u8>,
    n: nat,
    parse: spec_fn(Seq<u8>) -> core::result::Result<V, Fault>,
    k: nat,
    last: Fault,
)
    requires
        failed(ev, t, request, n, parse, k, last),
    ensures
        ev.len() <= k * attempt_len(t),
    decreases k,
{
    if k > 0 {
        let (m, prev) = choose|m: int, prev: Fault|
            {
                &&& 0 <= m <= ev.len()
                &&& failed(ev.take(m), t, request, n, parse, (k - 1) as nat, prev)
                &&& #[trigger] failed_once(ev.skip(m), t, request, n, parse, prev, last)
            };
        lemma_failed_len(ev.take(m), t, request, n, parse, (k - 1) as nat, prev);
        assert(k * attempt_len(t) == (k - 1) * attempt_len(t) + attempt_len(t)) by (nonlinear_arith);
    }
}

/// A request ends after a bounded number of attempts, whatever the display does.
pub proof fn law_request_is_bounded<V>(
    ev: Seq<BusEvent>,
    t: Timings,
    request: Seq<u8>,
    n: nat,
    parse: spec_fn(Seq<u8>) -> core::result::Result<V, Fault>,
    r: core::result::Result<V, Fault>,
)
    requires
        exchanged(ev, t, request, n, parse, r),
    ensures
        ev.len() <= (t.num_retries + 1) * attempt_len(t),
{
    match r {
        Ok(v) => {
            let (m, k, last) = choose|m: int, k: nat, last: Fault|
                {
                    &&& 0 <= m <= ev.len()
                    &&& k <= t.num_retries
                    &&& #[trigger] failed(ev.take(m), t, request, n, parse, k, last)
                    &&& replied(ev.skip(m), t, request, n, parse, Ok(v))
                };
            lemma_failed_len(ev.take(m), t, request, n, parse, k, last);
            let a = attempt_len(t);
            let most = t.num_retries as int;
            assert(k * a + a <= (most + 1) * a) by (nonlinear_arith)
                requires
                    k <= most,
                    a >= 0,
            ;
        },
        Err(f) => {
            lemma_failed_len(ev, t, request, n, parse, (t.num_retries + 1) as nat, f);
        },
    }
}

/// A value that a request returns stands in a reply that was read.
pub proof fn law_value_was_read<V>(
    ev: Seq<BusEvent>,
    t: Timings,
    request: Seq<u8>,
    n: nat,
    parse: spec_fn(Seq<u8>) -> core::result::Result<V, Fault>,
    v: V,
)
    requires
        exchanged(ev, t, request, n, parse, Ok(v)),
    ensures
        ev.len() > 0,
        reads(ev.last(), n),
        ev.last()->Read_result is Ok,
        parse(ev.last()->Read_data) == Ok::<V, Fault>(v),
{
    let (m, k, last) = choose|m: int, k: nat, last: Fault|
        {
            &&& 0 <= m <= ev.len()
            &&& k <= t.num_retries
            &&& #[trigger] failed(ev.take(m), t, request, n, parse, k, last)
            &&& replied(ev.skip(m), t, request, n, parse, Ok(v))
        };
    assert(ev.last() == ev.skip(m).last());
}

/// `k` chunks take a bounded number of attempts.
proof fn lemma_gathered_len(ev: Seq<BusEvent>, t: Timings, k: nat, got: Seq<u8>)
    requires
        gathered(ev, t, k, got),
    ensures
        ev.len() <= k * ((t.num_retries + 1) * attempt_len(t)),
    decreases k,
{
    if k > 0 {
        let (m, prior, chunk) = choose|m: int, prior: Seq<u8>, chunk: Seq<u8>|
            {
                &&& 0 <= m <= ev.len()
                &&& gathered(ev.take(m), t, (k - 1) as nat, prior)
                &&& #[trigger] chunk_read(ev.skip(m), t, prior, chunk)
                &&& got == prior + chunk
            };
        lemma_gathered_len(ev.take(m), t, (k - 1) as nat, prior);
        let offset = prior.len() as u16;
        law_request_is_bounded(
            ev.skip(m),
            t,
            packet(OP_CAPS_REQUEST, bytes_of(offset), SEED_GET),
            64,
            |reply: Seq<u8>| caps_chunk(reply, offset),
            Ok(chunk),
        );
        let each = (t.num_retries + 1) * attempt_len(t);
        assert(k * each == (k - 1) * each + each) by (nonlinear_arith);
    }
}

/// Reading the capability string ends even where the display never sends an
/// empty chunk.
pub proof fn law_capability_read_is_bounded(
    ev: Seq<BusEvent>,
    t: Timings,
    r: core::result::Result<Seq<char>, Fault>,
)
    requires
        capability_read(ev, t, r),
    ensures
        ev.len() <= MAX_CHUNKS * ((t.num_retries + 1) * attempt_len(t)),
{
    let (m, k, got) = choose|m: int, k: nat, got: Seq<u8>|
        {
            &&& 0 <= m <= ev.len()
            &&& k <= MAX_CHUNKS
            &&& #[trigger] gathered(ev.take(m), t, k, got)
            &&& gathering_ends(ev.skip(m), t, k, got, r)
        };
    lemma_gathered_len(ev.take(m), t, k, got);
    let each = (t.num_retries + 1) * attempt_len(t);
    if k < MAX_CHUNKS {
        let offset = got.len() as u16;
        let parse = |reply: Seq<u8>| caps_chunk(reply, offset);
        let request = packet(OP_CAPS_REQUEST, bytes_of(offset), SEED_GET);
        if chunk_exchanged(ev.skip(m), t, offset, Ok(Seq::empty())) {
            law_request_is_bounded(ev.skip(m), t, request, 64, parse, Ok(Seq::empty()));
        } else {
            law_request_is_bounded(ev.skip(m), t, request, 64, parse, Err(r->Err_0));
        }
        assert(k * each + each <= 64 * each) by (nonlinear_arith)
            requires
                k < 64,
                each >= 0,
        ;
    }
}

/// How many of some events are writes.
pub open spec fn count_writes(ev: Seq<BusEvent>) -> nat {
    ev.filter(|e: BusEvent| e is Write).len()
}

/// How often a packet is to be written: as often as is set, and at least once.
pub open spec fn times(t: Timings) -> int {
    if t.num_write_cycles == 0 {
        1
    } else {
        t.num_write_cycles as int
    }
}

/// Whether all that goes on the wire is `request`, each time after the wait that it takes,
/// and all that is read back are `n` bytes, after the wait that takes.
pub open spec fn converses(ev: Seq<BusEvent>, t: Timings, request: Seq<u8>, n: nat) -> bool {
    forall|i: int| 0 <= i < ev.len() ==> well_timed(ev, t, request, n, i)
}

/// The same of the event at `i`.
pub open spec fn well_timed(ev: Seq<BusEvent>, t: Timings, request: Seq<u8>, n: nat, i: int) -> bool {
    &&& ev[i] is Write ==> {
        &&& ev[i]->Write_chip_address == 0x37
        &&& ev[i]->data_address == 0x51
        &&& ev[i]->Write_data == request
        &&& i > 0
        &&& ev[i - 1] == BusEvent::Pause(t.write_sleep)
    }
    &&& ev[i] is Read ==> {
        &&& ev[i]->Read_chip_address == 0x37
        &&& ev[i]->offset == 0
        &&& ev[i]->Read_data.len() == n
        &&& i > 1
        &&& ev[i - 1] == BusEvent::Pause(t.read_sleep)
        &&& ev[i - 2] is Write
        &&& ev[i - 2]->Write_result is Ok
    }
}

/// Two conversations in a row are one.
proof fn lemma_converses(ev: Seq<BusEvent>, m: int, t: Timings, request: Seq<u8>, n: nat)
    requires
        0 <= m <= ev.len(),
        converses(ev.take(m), t, request, n),
        converses(ev.skip(m), t, request, n),
    ensures
        converses(ev, t, request, n),
        count_writes(ev) == count_writes(ev.take(m)) + count_writes(ev.skip(m)),
{
    assert forall|i: int| 0 <= i < ev.len() implies well_timed(ev, t, request, n, i) by {
        if i < m {
            assert(well_timed(ev.take(m), t, request, n, i));
        } else {
            assert(well_timed(ev.skip(m), t, request, n, i - m));
            assert(ev.skip(m)[i - m] == ev[i]);
        }
    }
    assert(ev =~= ev.take(m) + ev.skip(m));
    Seq::filter_distributes_over_add(ev.take(m), ev.skip(m), |e: BusEvent| e is Write);
}

/// One event more that is no write.
proof fn lemma_one_more(ev: Seq<BusEvent>, e: BusEvent)
    ensures
        e is Write ==> count_writes(ev.push(e)) == count_writes(ev) + 1,
        !(e is Write) ==> count_writes(ev.push(e)) == count_writes(ev),
{
    reveal(Seq::filter);
    assert(ev.push(e).drop_last() =~= ev);
}

/// How many writes there are where every other event is one.
proof fn lemma_alternating(ev: Seq<BusEvent>, c: nat)
    requires
        ev.len() == 2 * c,
        forall|i: int| 0 <= i < ev.len() ==> ((#[trigger] ev[i]) is Write <==> i % 2 == 1),
    ensures
        count_writes(ev) == c,
    decreases c,
{
    reveal(Seq::filter);
    if c > 0 {
        let n = ev.len() as int;
        let rest = ev.take(n - 2);
        assert forall|i: int| 0 <= i < rest.len() implies ((#[trigger] rest[i]) is Write <==> i % 2
            == 1) by {
            assert(rest[i] == ev[i]);
        }
        lemma_alternating(rest, (c - 1) as nat);
        lemma_one_more(rest, ev[n - 2]);
        lemma_one_more(rest.push(ev[n - 2]), ev[n - 1]);
        assert(rest.push(ev[n - 2]).push(ev[n - 1]) =~= ev);
    }
}

/// A packet written is well timed, and as often as is set.
proof fn lemma_wrote(
    ev: Seq<BusEvent>,
    t: Timings,
    request: Seq<u8>,
    n: nat,
    result: core::result::Result<(), Fault>,
)
    requires
        wrote(ev, t, request, result),
    ensures
        converses(ev, t, request, n),
        count_writes(ev) == times(t),
        ev.len() > 0,
        ev.last() is Write,
        ev.last()->Write_result == result,
        forall|i: int| 0 <= i < ev.len() ==> !(#[trigger] ev[i] is Read),
{
    assert forall|i: int| 0 <= i < ev.len() implies well_timed(ev, t, request, n, i) && !(
    #[trigger] ev[i] is Read) by {
        if i % 2 == 1 {
            assert(ev[i - 1] == BusEvent::Pause(t.write_sleep));
        }
    }
    lemma_alternating(ev, times(t) as nat);
    let last = ev.len() - 1;
    assert(ev[last] is Write);
}

/// A request and its reply are well timed.
proof fn lemma_replied<V>(
    ev: Seq<BusEvent>,
    t: Timings,
    request: Seq<u8>,
    n: nat,
    parse: spec_fn(Seq<u8>) -> core::result::Result<V, Fault>,
    r: core::result::Result<V, Fault>,
)
    requires
        replied(ev, t, request, n, parse, r),
    ensures
        converses(ev, t, request, n),
        count_writes(ev) == times(t),
        ev.len() > 2,
        ev.last() is Read,
        read_outcome(ev.last(), parse) == r,
        forall|i: int| 0 <= i < ev.len() - 1 ==> !(#[trigger] ev[i] is Read),
{
    let c = 2 * write_cycles(t);
    let sent = ev.take(c);
    lemma_wrote(sent, t, request, n, Ok(()));
    assert(ev =~= sent.push(ev[c]).push(ev[c + 1]));
    lemma_one_more(sent, ev[c]);
    lemma_one_more(sent.push(ev[c]), ev[c + 1]);
    assert forall|i: int| 0 <= i < ev.len() implies well_timed(ev, t, request, n, i) by {
        if i < c {
            assert(well_timed(sent, t, request, n, i));
        } else if i == c + 1 {
            assert(ev[c - 1] == sent.last());
        }
    }
    assert forall|i: int| 0 <= i < ev.len() - 1 implies !(#[trigger] ev[i] is Read) by {
        if i < c {
            assert(sent[i] == ev[i]);
        }
    }
}

/// What the failed requests of an exchange leave to be reported: the fault of the last
/// reply that came, or that none came.
pub open spec fn reported<V>(
    ev: Seq<BusEvent>,
    parse: spec_fn(Seq<u8>) -> core::result::Result<V, Fault>,
    last: Fault,
) -> bool {
    ||| last == Fault::NoResponse(0) && forall|i: int|
        0 <= i < ev.len() ==> !(#[trigger] ev[i] is Read)
    ||| exists|j: int| #[trigger] last_reply(ev, parse, last, j)
}

/// Whether the event at `j` is the last read, and came to this fault.
pub open spec fn last_reply<V>(
    ev: Seq<BusEvent>,
    parse: spec_fn(Seq<u8>) -> core::result::Result<V, Fault>,
    last: Fault,
    j: int,
) -> bool {
    &&& 0 <= j < ev.len()
    &&& ev[j] is Read
    &&& forall|i: int| j < i < ev.len() ==> !(#[trigger] ev[i] is Read)
    &&& ev[j]->Read_result is Err ==> ev[j]->Read_result->Err_0 == last
    &&& ev[j]->Read_result is Ok ==> parse(ev[j]->Read_data) == Err::<V, Fault>(last)
}

/// Whether no reply among some events was of use.
pub open spec fn useless<V>(
    ev: Seq<BusEvent>,
    parse: spec_fn(Seq<u8>) -> core::result::Result<V, Fault>,
) -> bool {
    forall|i: int|
        0 <= i < ev.len() && (#[trigger] ev[i]) is Read && ev[i]->Read_result is Ok ==> parse(
            ev[i]->Read_data,
        ) is Err
}

/// Requests that came to nothing are well timed, and what they leave is the last fault.
proof fn lemma_failed<V>(
    ev: Seq<BusEvent>,
    t: Timings,
    request: Seq<u8>,
    n: nat,
    parse: spec_fn(Seq<u8>) -> core::result::Result<V, Fault>,
    k: nat,
    last: Fault,
)
    requires
        failed(ev, t, request, n, parse, k, last),
    ensures
        converses(ev, t, request, n),
        count_writes(ev) == k * times(t),
        reported(ev, parse, last),
        useless(ev, parse),
        k > 0 ==> ev.len() > 0 && ev.last() == BusEvent::Pause(t.retry_sleep),
    decreases k,
{
    if k == 0 {
        reveal(Seq::filter);
        assert(0 * times(t) == 0);
    } else {
        let (m, prev) = choose|m: int, prev: Fault|
            {
                &&& 0 <= m <= ev.len()
                &&& failed(ev.take(m), t, request, n, parse, (k - 1) as nat, prev)
                &&& #[trigger] failed_once(ev.skip(m), t, request, n, parse, prev, last)
            };
        let was = ev.take(m);
        let now = ev.skip(m);
        let body = now.drop_last();
        lemma_failed(was, t, request, n, parse, (k - 1) as nat, prev);
        assert(now =~= body.push(BusEvent::Pause(t.retry_sleep)));
        lemma_one_more(body, BusEvent::Pause(t.retry_sleep));
        assert(k * times(t) == (k - 1) * times(t) + times(t)) by (nonlinear_arith);
        assert(forall|i: int| 0 <= i < m ==> #[trigger] ev[i] == was[i]);
        assert(forall|i: int| m <= i < ev.len() ==> #[trigger] ev[i] == now[i - m]);
        assert(forall|i: int| 0 <= i < body.len() ==> #[trigger] now[i] == body[i]);
        if replied(body, t, request, n, parse, Err(last)) {
            lemma_replied(body, t, request, n, parse, Err(last));
            assert forall|i: int| 0 <= i < now.len() implies well_timed(now, t, request, n, i) by {
                if i < body.len() {
                    assert(well_timed(body, t, request, n, i));
                }
            }
            lemma_converses(ev, m, t, request, n);
            let j = m + body.len() - 1;
            assert(ev[j] == body.last());
            assert forall|i: int| j < i < ev.len() implies !(#[trigger] ev[i] is Read) by {
                assert(ev[i] == now[i - m]);
                assert(i - m == body.len());
            }
            assert(last_reply(ev, parse, last, j));
        } else {
            let f = choose|f: Fault| wrote(body, t, request, Err(f));
            lemma_wrote(body, t, request, n, Err(f));
            assert forall|i: int| 0 <= i < now.len() implies well_timed(now, t, request, n, i) by {
                if i < body.len() {
                    assert(well_timed(body, t, request, n, i));
                }
            }
            lemma_converses(ev, m, t, request, n);
            assert forall|i: int| m <= i < ev.len() implies !(#[trigger] ev[i] is Read) by {
                assert(ev[i] == now[i - m]);
                if i - m < body.len() {
                    assert(now[i - m] == body[i - m]);
                }
            }
            if exists|j: int| #[trigger] last_reply(was, parse, prev, j) {
                let j = choose|j: int| #[trigger] last_reply(was, parse, prev, j);
                assert(ev[j] == was[j]);
                assert forall|i: int| j < i < ev.len() implies !(#[trigger] ev[i] is Read) by {
                    if i < m {
                        assert(ev[i] == was[i]);
                    }
                }
                assert(last_reply(ev, parse, last, j));
            } else {
                assert forall|i: int| 0 <= i < ev.len() implies !(#[trigger] ev[i] is Read) by {
                    if i < m {
                        assert(ev[i] == was[i]);
                    }
                }
            }
        }
        assert(useless(ev, parse)) by {
            assert forall|i: int|
                0 <= i < ev.len() && (#[trigger] ev[i]) is Read && ev[i]->Read_result is Ok implies parse(
                ev[i]->Read_data,
            ) is Err by {
                if i < m {
                    assert(ev[i] == was[i]);
                } else {
                    assert(ev[i] == now[i - m]);
                    assert(i - m < body.len());
                    assert(now[i - m] == body[i - m]);
                }
            }
        }
        assert(ev.last() == now.last());
    }
}

/// Every request goes out as it is, each time after its wait; every reply is of the length
/// asked for and read after its wait, behind a write that went through. The first usable
/// reply ends it, and it is what is returned. With none, there is one attempt and one for
/// each retry, and the fault of the last reply is returned, or that none came.
pub proof fn law_requests_go_out_until_answered<V>(
    ev: Seq<BusEvent>,
    t: Timings,
    request: Seq<u8>,
    n: nat,
    parse: spec_fn(Seq<u8>) -> core::result::Result<V, Fault>,
    r: core::result::Result<V, Fault>,
)
    requires
        exchanged(ev, t, request, n, parse, r),
    ensures
        converses(ev, t, request, n),
        r is Ok ==> {
            &&& ev.len() > 0
            &&& ev.last() is Read
            &&& ev.last()->Read_result is Ok
            &&& parse(ev.last()->Read_data) == r
            &&& useless(ev.drop_last(), parse)
            &&& times(t) <= count_writes(ev) <= (t.num_retries + 1) * times(t)
        },
        r is Err ==> {
            &&& useless(ev, parse)
            &&& reported(ev, parse, r->Err_0)
            &&& count_writes(ev) == (t.num_retries + 1) * times(t)
        },
{
    match r {
        Ok(v) => {
            let (m, k, last) = choose|m: int, k: nat, last: Fault|
                {
                    &&& 0 <= m <= ev.len()
                    &&& k <= t.num_retries
                    &&& #[trigger] failed(ev.take(m), t, request, n, parse, k, last)
                    &&& replied(ev.skip(m), t, request, n, parse, Ok(v))
                };
            let was = ev.take(m);
            let now = ev.skip(m);
            lemma_failed(was, t, request, n, parse, k, last);
            lemma_replied(now, t, request, n, parse, Ok(v));
            lemma_converses(ev, m, t, request, n);
            assert(ev.last() == now.last());
            assert forall|i: int|
                0 <= i < ev.drop_last().len() && (#[trigger] ev.drop_last()[i]) is Read
                    && ev.drop_last()[i]->Read_result is Ok implies parse(
                ev.drop_last()[i]->Read_data,
            ) is Err by {
                if i < m {
                    assert(ev.drop_last()[i] == was[i]);
                } else {
                    assert(ev.drop_last()[i] == now[i - m]);
                }
            }
            let a = times(t);
            let most = t.num_retries as int;
            assert(0 <= k * a && k * a + a <= (most + 1) * a) by (nonlinear_arith)
                requires
                    0 <= k <= most,
                    a >= 0,
            ;
        },
        Err(f) => {
            lemma_failed(ev, t, request, n, parse, (t.num_retries + 1) as nat, f);
        },
    }
}

/// Writes that were refused are well timed.
proof fn lemma_refused(ev: Seq<BusEvent>, t: Timings, request: Seq<u8>, k: nat)
    requires
        refused(ev, t, request, k),
    ensures
        converses(ev, t, request, 0),
        count_writes(ev) == k * times(t),
        forall|i: int| 0 <= i < ev.len() ==> !(#[trigger] ev[i] is Read),
    decreases k,
{
    if k == 0 {
        reveal(Seq::filter);
        assert(0 * times(t) == 0);
    } else {
        let (m, f) = choose|m: int, f: Fault|
            {
                &&& 0 <= m <= ev.len()
                &&& refused(ev.take(m), t, request, (k - 1) as nat)
                &&& #[trigger] refused_once(ev.skip(m), t, request, f)
            };
        lemma_refused(ev.take(m), t, request, (k - 1) as nat);
        lemma_refused_once(ev.skip(m), t, request, f);
        lemma_converses(ev, m, t, request, 0);
        assert(k * times(t) == (k - 1) * times(t) + times(t)) by (nonlinear_arith);
        assert forall|i: int| 0 <= i < ev.len() implies !(#[trigger] ev[i] is Read) by {
            if i < m {
                assert(ev[i] == ev.take(m)[i]);
            } else {
                assert(ev[i] == ev.skip(m)[i - m]);
            }
        }
    }
}

/// One write that was refused is well timed.
proof fn lemma_refused_once(ev: Seq<BusEvent>, t: Timings, request: Seq<u8>, f: Fault)
    requires
        refused_once(ev, t, request, f),
    ensures
        converses(ev, t, request, 0),
        count_writes(ev) == times(t),
        ev.len() > 1,
        ev[ev.len() - 2] is Write,
        ev[ev.len() - 2]->Write_result == Err::<(), Fault>(f),
        forall|i: int| 0 <= i < ev.len() ==> !(#[trigger] ev[i] is Read),
{
    let body = ev.drop_last();
    lemma_wrote(body, t, request, 0, Err(f));
    assert(ev =~= body.push(BusEvent::Pause(t.retry_sleep)));
    lemma_one_more(body, BusEvent::Pause(t.retry_sleep));
    assert forall|i: int| 0 <= i < ev.len() implies well_timed(ev, t, request, 0, i) && !(
    #[trigger] ev[i] is Read) by {
        if i < body.len() {
            assert(well_timed(body, t, request, 0, i));
            assert(ev[i] == body[i]);
        }
    }
    assert(ev[ev.len() - 2] == body.last());
}

/// A value is set by six bytes to the display, `0x84`, `0x03`, the code, the high and the
/// low byte of the value, and the checksum of these, each time after its wait; nothing is
/// read. It is taken for set exactly where the last write went through, and else there was
/// one attempt and one for each retry, and the fault of the last write is returned.
pub proof fn law_setting_sends_the_code_and_the_value(
    ev: Seq<BusEvent>,
    t: Timings,
    code: u8,
    value: u16,
    r: core::result::Result<(), Fault>,
    hi: u8,
    lo: u8,
)
    requires
        vcp_set(ev, t, code, value, r),
        hi * 256 + lo == value,
    ensures
        converses(
            ev,
            t,
            seq![0x84u8, 0x03u8, code, hi, lo, 0x3Fu8 ^ 0x84u8 ^ 0x03u8 ^ code ^ hi ^ lo],
            0,
        ),
        forall|i: int| 0 <= i < ev.len() ==> !(#[trigger] ev[i] is Read),
        r is Ok ==> {
            &&& ev.len() > 0
            &&& ev.last() is Write
            &&& ev.last()->Write_result is Ok
            &&& times(t) <= count_writes(ev) <= (t.num_retries + 1) * times(t)
        },
        r is Err ==> {
            &&& ev.len() > 1
            &&& ev.last() == BusEvent::Pause(t.retry_sleep)
            &&& ev[ev.len() - 2] is Write
            &&& ev[ev.len() - 2]->Write_result == r
            &&& count_writes(ev) == (t.num_retries + 1) * times(t)
        },
{
    let request = packet(OP_SET_VCP, seq![code] + bytes_of(value), SEED_SET);
    lemma_set_bytes(code, value, hi, lo);
    let (m, k) = choose|m: int, k: nat|
        {
            &&& 0 <= m <= ev.len()
            &&& k <= t.num_retries
            &&& #[trigger] refused(ev.take(m), t, request, k)
            &&& match r {
                Ok(_) => wrote(ev.skip(m), t, request, Ok(())),
                Err(f) => k == t.num_retries && refused_once(ev.skip(m), t, request, f),
            }
        };
    let was = ev.take(m);
    let now = ev.skip(m);
    lemma_refused(was, t, request, k);
    match r {
        Ok(_) => {
            lemma_wrote(now, t, request, 0, Ok(()));
        },
        Err(f) => {
            lemma_refused_once(now, t, request, f);
            assert(ev[ev.len() - 2] == now[now.len() - 2]);
        },
    }
    lemma_converses(ev, m, t, request, 0);
    assert forall|i: int| 0 <= i < ev.len() implies !(#[trigger] ev[i] is Read) by {
        if i < m {
            assert(ev[i] == was[i]);
        } else {
            assert(ev[i] == now[i - m]);
        }
    }
    assert(ev.last() == now.last());
    let a = times(t);
    let most = t.num_retries as int;
    assert(0 <= k * a && k * a + a <= (most + 1) * a) by (nonlinear_arith)
        requires
            0 <= k <= most,
            a >= 0,
    ;
    assert(most * a + a == (most + 1) * a) by (nonlinear_arith);
}

/// The bytes that set a code.
proof fn lemma_set_bytes(code: u8, value: u16, hi: u8, lo: u8)
    requires
        hi * 256 + lo == value,
    ensures
        packet(OP_SET_VCP, seq![code] + bytes_of(value), SEED_SET) == seq![
            0x84u8,
            0x03u8,
            code,
            hi,
            lo,
            0x3Fu8 ^ 0x84u8 ^ 0x03u8 ^ code ^ hi ^ lo,
        ],
{
    let operands = seq![code] + bytes_of(value);
    assert(value / 256 == hi && value % 256 == lo);
    assert(operands =~= seq![code, hi, lo]);
    law_packet_keeps_its_op(OP_SET_VCP, operands, SEED_SET);
    let body = packet_body(OP_SET_VCP, operands);
    assert(body[0] == packet(OP_SET_VCP, operands, SEED_SET)[0]);
    assert(body =~= seq![0x84u8, 0x03u8, code, hi, lo]);
    lemma_five(0x3F, 0x84, 0x03, code, hi, lo);
}

/// The exclusive-or of a few bytes.
proof fn lemma_five(seed: u8, a: u8, b: u8, c: u8, d: u8, e: u8)
    ensures
        xor_all(seed, seq![a, b, c]) == seed ^ a ^ b ^ c,
        xor_all(seed, seq![a, b, c, d]) == seed ^ a ^ b ^ c ^ d,
        xor_all(seed, seq![a, b, c, d, e]) == seed ^ a ^ b ^ c ^ d ^ e,
{
    reveal_with_fuel(xor_all, 2);
    assert(seq![a].drop_last() =~= Seq::<u8>::empty());
    assert(xor_all(seed, seq![a]) == seed ^ a);
    assert(seq![a, b].drop_last() =~= seq![a]);
    assert(xor_all(seed, seq![a, b]) == seed ^ a ^ b);
    assert(seq![a, b, c].drop_last() =~= seq![a, b]);
    assert(xor_all(seed, seq![a, b, c]) == seed ^ a ^ b ^ c);
    assert(seq![a, b, c, d].drop_last() =~= seq![a, b, c]);
    assert(xor_all(seed, seq![a, b, c, d]) == seed ^ a ^ b ^ c ^ d);
    assert(seq![a, b, c, d, e].drop_last() =~= seq![a, b, c, d]);
}

/// A value is asked for by four bytes to the display, `0x82`, `0x01`, the code, and the
/// checksum of these, and stands in eleven bytes read back: a good reply to the code that
/// was asked for, whose bytes and seed cancel out, with the maximum and the current value
/// in it high byte first. The first such reply is what is returned.
pub proof fn law_getting_reads_the_value_of_the_code(
    ev: Seq<BusEvent>,
    t: Timings,
    code: u8,
    r: core::result::Result<VcpReply, Fault>,
)
    requires
        vcp_got(ev, t, code, r),
    ensures
        converses(ev, t, seq![0x82u8, 0x01u8, code, 0x6Eu8 ^ 0x82u8 ^ 0x01u8 ^ code], 11),
        r is Err ==> count_writes(ev) == (t.num_retries + 1) * times(t),
        r is Err ==> forall|i: int|
            0 <= i < ev.len() && (#[trigger] ev[i]) is Read && ev[i]->Read_result is Ok
                ==> !good_reply(ev[i]->Read_data, code),
        r is Err ==> reported(ev, |reply: Seq<u8>| vcp_reply(reply, code), r->Err_0),
        r is Ok ==> {
            let d = ev.last()->Read_data;
            &&& ev.len() > 0
            &&& ev.last() is Read
            &&& ev.last()->Read_result is Ok
            &&& good_reply(d, code)
            &&& r->Ok_0.code == code
            &&& r->Ok_0.max == d[6] * 256 + d[7]
            &&& r->Ok_0.current == d[8] * 256 + d[9]
            &&& r->Ok_0.non_continuous == (d[5] == 1)
            &&& forall|i: int|
                0 <= i < ev.len() - 1 && (#[trigger] ev[i]) is Read && ev[i]->Read_result is Ok
                    ==> !good_reply(ev[i]->Read_data, code)
        },
{
    let operands = seq![code];
    let request = packet(OP_GET_VCP, operands, SEED_GET);
    let parse = |reply: Seq<u8>| vcp_reply(reply, code);
    law_packet_keeps_its_op(OP_GET_VCP, operands, SEED_GET);
    let body = packet_body(OP_GET_VCP, operands);
    assert(body[0] == request[0]);
    assert(body =~= seq![0x82u8, 0x01u8, code]);
    lemma_five(0x6E, 0x82, 0x01, code, 0, 0);
    assert(request =~= seq![0x82u8, 0x01u8, code, 0x6Eu8 ^ 0x82u8 ^ 0x01u8 ^ code]);
    law_requests_go_out_until_answered(ev, t, request, 11, parse, r);
    let most = if r is Ok {
        ev.len() - 1
    } else {
        ev.len() as int
    };
    assert forall|i: int|
        0 <= i < most && (#[trigger] ev[i]) is Read && ev[i]->Read_result is Ok implies !good_reply(
        ev[i]->Read_data,
        code,
    ) by {
        assert(well_timed(ev, t, request, 11, i));
        law_good_replies_are_read(ev[i]->Read_data, code);
        if r is Ok {
            assert(ev.drop_last()[i] == ev[i]);
        }
    }
    if r is Ok {
        let last = ev.len() - 1;
        assert(well_timed(ev, t, request, 11, last));
        law_good_replies_are_read(ev.last()->Read_data, code);
    }
}

/// Whether eleven bytes are a good reply to a request for a code.
pub open spec fn good_reply(d: Seq<u8>, code: u8) -> bool {
    &&& d.len() == 11
    &&& 0x50u8 ^ d[0] ^ d[1] ^ d[2] ^ d[3] ^ d[4] ^ d[5] ^ d[6] ^ d[7] ^ d[8] ^ d[9] == d[10]
    &&& d[2] == 0x02
    &&& d[3] == 0x00
    &&& d[4] == code
}

/// Eleven bytes are read as a value exactly where they are a good reply, and as that value.
pub proof fn law_good_replies_are_read(d: Seq<u8>, code: u8)
    requires
        d.len() == 11,
    ensures
        vcp_reply(d, code) is Ok <==> good_reply(d, code),
        vcp_reply(d, code) is Ok ==> {
            let v = vcp_reply(d, code)->Ok_0;
            &&& v.code == code
            &&& v.max == d[6] * 256 + d[7]
            &&& v.current == d[8] * 256 + d[9]
            &&& v.non_continuous == (d[5] == 1)
        },
{
    let a = d.drop_last();
    assert(a =~= seq![d[0], d[1], d[2], d[3], d[4]].push(d[5]).push(d[6]).push(d[7]).push(d[8]).push(
        d[9],
    ));
    let h5 = seq![d[0], d[1], d[2], d[3], d[4]];
    let h6 = h5.push(d[5]);
    let h7 = h6.push(d[6]);
    let h8 = h7.push(d[7]);
    let h9 = h8.push(d[8]);
    lemma_five(0x50, d[0], d[1], d[2], d[3], d[4]);
    assert(h6.drop_last() =~= h5);
    assert(h7.drop_last() =~= h6);
    assert(h8.drop_last() =~= h7);
    assert(h9.drop_last() =~= h8);
    assert(a.drop_last() =~= h9);
    assert(xor_all(0x50, h6) == xor_all(0x50, h5) ^ d[5]);
    assert(xor_all(0x50, h7) == xor_all(0x50, h6) ^ d[6]);
    assert(xor_all(0x50, h8) == xor_all(0x50, h7) ^ d[7]);
    assert(xor_all(0x50, h9) == xor_all(0x50, h8) ^ d[8]);
    assert(xor_all(0x50, a) == xor_all(0x50, h9) ^ d[9]);
}

/// A reply is refused for its length first, then for its checksum, then for what it says,
/// and the fault says which.
pub proof fn law_bad_replies_are_told_apart(d: Seq<u8>, code: u8)
    ensures
        d.len() < 11 ==> vcp_reply(d, code) is Err && vcp_reply(d, code)->Err_0 is MalformedReply,
        d.len() >= 11 && xor_all(0x50, d.drop_last()) != d.last() ==> vcp_reply(d, code) is Err
            && vcp_reply(d, code)->Err_0 is Checksum && vcp_reply(d, code)->Err_0->computed
            == xor_all(0x50, d.drop_last()) && vcp_reply(d, code)->Err_0->expected == d.last(),
        d.len() >= 11 && xor_all(0x50, d.drop_last()) == d.last() ==> {
            &&& d[2] != 2 ==> vcp_reply(d, code) == Err::<VcpReply, Fault>(
                Fault::MalformedReply(
                    "expected op "@ + text::hex_number(2) + ", got "@ + text::hex_number(
                        d[2] as nat,
                    ),
                ),
            )
            &&& d[2] == 2 && d[3] != 0 ==> vcp_reply(d, code) == Err::<VcpReply, Fault>(
                Fault::MalformedReply(
                    "display reports VCP "@ + text::hex_number(code as nat)
                        + " unsupported (result "@ + text::hex_number(d[3] as nat) + ")"@,
                ),
            )
            &&& d[2] == 2 && d[3] == 0 && d[4] != code ==> vcp_reply(d, code) == Err::<
                VcpReply,
                Fault,
            >(
                Fault::MalformedReply(
                    "reply is for VCP "@ + text::hex_number(d[4] as nat) + ", expected "@
                        + text::hex_number(code as nat),
                ),
            )
            &&& d[2] == 2 && d[3] == 0 && d[4] == code ==> vcp_reply(d, code) is Ok
        },
{
}

/// Where one byte is altered, so is the exclusive-or of all.
proof fn lemma_altered(seed: u8, data: Seq<u8>, i: int, b: u8)
    requires
        0 <= i < data.len(),
        data[i] != b,
    ensures
        xor_all(seed, data) != xor_all(seed, data.update(i, b)),
    decreases data.len(),
{
    let rest = data.drop_last();
    let other = data.update(i, b);
    let x = xor_all(seed, rest);
    let y = xor_all(seed, other.drop_last());
    let p = data.last();
    let q = other.last();
    if i < rest.len() {
        lemma_altered(seed, rest, i, b);
        assert(other.drop_last() =~= rest.update(i, b));
        assert(x != y ==> x ^ p != y ^ p) by (bit_vector);
    } else {
        assert(other.drop_last() =~= rest);
        assert(p != q ==> x ^ p != x ^ q) by (bit_vector);
    }
}

/// A good reply with any one of its bytes altered is never taken for a reading.
pub proof fn law_any_altered_byte_is_noticed(d: Seq<u8>, code: u8, i: int, b: u8)
    requires
        vcp_reply(d, code) is Ok,
        0 <= i < d.len(),
        d[i] != b,
    ensures
        vcp_reply(d.update(i, b), code) is Err,
{
    let other = d.update(i, b);
    if i < d.len() - 1 {
        lemma_altered(SEED_REPLY, d.drop_last(), i, b);
        assert(other.drop_last() =~= d.drop_last().update(i, b));
    } else {
        assert(other.drop_last() =~= d.drop_last());
    }
}

/// Whether a buffer begins with a good chunk of the capability string from some offset on:
/// so many bytes behind a header that counts them, closed by their checksum.
pub open spec fn good_chunk(d: Seq<u8>, offset: u16, data: Seq<u8>) -> bool {
    &&& d.len() >= data.len() + 6
    &&& d[1] == 0x80 + data.len() + 3
    &&& d[2] == 0xE3
    &&& d[3] * 256 + d[4] == offset
    &&& forall|i: int| 0 <= i < data.len() ==> #[trigger] data[i] == d[5 + i]
    &&& xor_all(0x50, d.take(data.len() as int + 5)) == d[data.len() as int + 5]
}

/// A buffer is read as a chunk exactly where it begins with a good one, and as that one.
pub proof fn law_good_chunks_are_read(d: Seq<u8>, offset: u16, data: Seq<u8>)
    ensures
        caps_chunk(d, offset) == Ok::<Seq<u8>, Fault>(data) <==> good_chunk(d, offset, data),
{
    let b = d[1];
    assert(b & 0x80 != 0 ==> (b & 0x7F) + 128 == b) by (bit_vector);
    assert(b & 0x80 == 0 ==> b < 128) by (bit_vector);
    if good_chunk(d, offset, data) {
        assert(d.subrange(5, data.len() as int + 5) =~= data);
    }
    if caps_chunk(d, offset) == Ok::<Seq<u8>, Fault>(data) {
        assert(data.len() == (b & 0x7F) - 3);
        assert forall|i: int| 0 <= i < data.len() implies #[trigger] data[i] == d[5 + i] by {}
    }
}

/// A chunk is asked for by five bytes to the display, `0x83`, `0xF3`, the high and the low
/// byte of its offset, and the checksum of these, and stands in sixty-four bytes read back.
pub proof fn law_chunks_are_asked_for_by_offset(
    ev: Seq<BusEvent>,
    t: Timings,
    offset: u16,
    r: core::result::Result<Seq<u8>, Fault>,
    hi: u8,
    lo: u8,
)
    requires
        chunk_exchanged(ev, t, offset, r),
        hi * 256 + lo == offset,
    ensures
        converses(ev, t, seq![0x83u8, 0xF3u8, hi, lo, 0x6Eu8 ^ 0x83u8 ^ 0xF3u8 ^ hi ^ lo], 64),
        r is Ok ==> {
            &&& ev.len() > 0
            &&& ev.last() is Read
            &&& ev.last()->Read_result is Ok
            &&& good_chunk(ev.last()->Read_data, offset, r->Ok_0)
        },
        r is Err ==> count_writes(ev) == (t.num_retries + 1) * times(t),
{
    let operands = bytes_of(offset);
    let request = packet(OP_CAPS_REQUEST, operands, SEED_GET);
    let parse = |reply: Seq<u8>| caps_chunk(reply, offset);
    assert(offset / 256 == hi && offset % 256 == lo);
    assert(operands =~= seq![hi, lo]);
    law_packet_keeps_its_op(OP_CAPS_REQUEST, operands, SEED_GET);
    let body = packet_body(OP_CAPS_REQUEST, operands);
    assert(body[0] == request[0]);
    assert(body =~= seq![0x83u8, 0xF3u8, hi, lo]);
    lemma_five(0x6E, 0x83, 0xF3, hi, lo, 0);
    assert(request =~= seq![0x83u8, 0xF3u8, hi, lo, 0x6Eu8 ^ 0x83u8 ^ 0xF3u8 ^ hi ^ lo]);
    law_requests_go_out_until_answered(ev, t, request, 64, parse, r);
    if r is Ok {
        law_good_chunks_are_read(ev.last()->Read_data, offset, r->Ok_0);
    }
}

/// The bytes of chunks in a row.
pub open spec fn strung(chunks: Seq<Seq<u8>>) -> Seq<u8> {
    chunks.flatten()
}

/// The chunks that were read, and where each one's events end.
proof fn lemma_gathered(ev: Seq<BusEvent>, t: Timings, k: nat, got: Seq<u8>) -> (r: (
    Seq<Seq<u8>>,
    Seq<int>,
))
    requires
        gathered(ev, t, k, got),
    ensures
        r.0.len() == k,
        r.1.len() == k,
        got == strung(r.0),
        forall|j: int| 0 <= j < k ==> #[trigger] chunk_stands(ev, t, r.0, r.1, j),
        k > 0 ==> r.1.last() == ev.len(),
        k == 0 ==> ev.len() == 0,
    decreases k,
{
    if k == 0 {
        let none: Seq<Seq<u8>> = Seq::empty();
        assert(strung(none) =~= got);
        (none, Seq::empty())
    } else {
        let (m, prior, chunk) = choose|m: int, prior: Seq<u8>, chunk: Seq<u8>|
            {
                &&& 0 <= m <= ev.len()
                &&& gathered(ev.take(m), t, (k - 1) as nat, prior)
                &&& #[trigger] chunk_read(ev.skip(m), t, prior, chunk)
                &&& got == prior + chunk
            };
        let (chunks, ends) = lemma_gathered(ev.take(m), t, (k - 1) as nat, prior);
        let all = chunks.push(chunk);
        let marks = ends.push(ev.len() as int);
        all.lemma_flatten_and_flatten_alt_are_equivalent();
        chunks.lemma_flatten_and_flatten_alt_are_equivalent();
        assert(all.drop_last() =~= chunks);
        assert(strung(all) =~= prior + chunk);
        assert forall|j: int| 0 <= j < k implies #[trigger] chunk_stands(ev, t, all, marks, j) by {
            if j < k - 1 {
                assert(chunk_stands(ev.take(m), t, chunks, ends, j));
                assert(all.take(j) =~= chunks.take(j));
                assert(marks[j] == ends[j]);
                assert(ev.take(m).subrange(starts(ends, j), ends[j]) =~= ev.subrange(
                    starts(marks, j),
                    marks[j],
                ));
            } else {
                assert(all.take(j) =~= chunks);
                assert(starts(marks, j) == m);
                assert(ev.subrange(m, ev.len() as int) =~= ev.skip(m));
            }
        }
        (all, marks)
    }
}

/// Where the events of a chunk start: where those of the one before end.
pub open spec fn starts(ends: Seq<int>, j: int) -> int {
    if j == 0 {
        0
    } else {
        ends[j - 1]
    }
}

/// Whether the chunk at `j` was asked for behind those before it, and is not empty.
pub open spec fn chunk_stands(
    ev: Seq<BusEvent>,
    t: Timings,
    chunks: Seq<Seq<u8>>,
    ends: Seq<int>,
    j: int,
) -> bool {
    &&& 0 <= starts(ends, j) <= ends[j] <= ev.len()
    &&& chunks[j].len() > 0
    &&& chunk_exchanged(
        ev.subrange(starts(ends, j), ends[j]),
        t,
        strung(chunks.take(j)).len() as u16,
        Ok(chunks[j]),
    )
}

/// A capability string that was read is what its chunks say one after the other. Each was
/// asked for at the offset that those before it reach, none is empty, and there are at most
/// sixty-four; behind fewer an empty one says that it is over. It is an error where the
/// bytes are no text.
pub proof fn law_capability_strings_are_their_chunks(
    ev: Seq<BusEvent>,
    t: Timings,
    s: Seq<char>,
) -> (r: (Seq<Seq<u8>>, Seq<int>))
    requires
        capability_read(ev, t, Ok(s)),
    ensures
        r.0.len() == r.1.len(),
        r.0.len() <= 64,
        vstd::utf8::valid_utf8(strung(r.0)),
        s == vstd::utf8::decode_utf8(strung(r.0)),
        forall|j: int| 0 <= j < r.0.len() ==> #[trigger] chunk_stands(ev, t, r.0, r.1, j),
        r.0.len() < 64 ==> chunk_exchanged(
            ev.skip(starts(r.1, r.1.len() as int)),
            t,
            strung(r.0).len() as u16,
            Ok(Seq::empty()),
        ),
{
    let (m, k, got) = choose|m: int, k: nat, got: Seq<u8>|
        {
            &&& 0 <= m <= ev.len()
            &&& k <= MAX_CHUNKS
            &&& #[trigger] gathered(ev.take(m), t, k, got)
            &&& gathering_ends(ev.skip(m), t, k, got, Ok(s))
        };
    let (chunks, ends) = lemma_gathered(ev.take(m), t, k, got);
    assert forall|j: int| 0 <= j < chunks.len() implies #[trigger] chunk_stands(
        ev,
        t,
        chunks,
        ends,
        j,
    ) by {
        assert(chunk_stands(ev.take(m), t, chunks, ends, j));
        assert(ev.take(m).subrange(starts(ends, j), ends[j]) =~= ev.subrange(
            starts(ends, j),
            ends[j],
        ));
    }
    assert(starts(ends, ends.len() as int) == m);
    (chunks, ends)
}

} // verus!
