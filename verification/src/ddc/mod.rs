//! DDC/CI protocol: framing, VCP codes, capability strings.
//!
//! Transport-agnostic by construction. The platform supplies an
//! [`I2cTransport`]; on macOS that is IOAVService, on Linux it would be
//! `/dev/i2c-*`. Keeping the split here is what makes the protocol logic
//! testable against a mock, with no hardware present.

use crate::text;
use vstd::prelude::*;

pub mod caps;
pub mod protocol;
pub mod vcp;

verus! {

/// Why a DDC/CI operation failed.
#[derive(Debug)]
pub enum Error {
    Transport(String),
    Checksum { computed: u8, expected: u8 },
    NoResponse(u8),
    MalformedReply(String),
    CapabilityParse(String),
}

pub type Result<T> = core::result::Result<T, Error>;

/// An [`Error`] with its text as characters.
pub enum Fault {
    Transport(Seq<char>),
    Checksum { computed: u8, expected: u8 },
    NoResponse(u8),
    MalformedReply(Seq<char>),
    CapabilityParse(Seq<char>),
}

impl View for Error {
    type V = Fault;

    open spec fn view(&self) -> Fault {
        match *self {
            Error::Transport(s) => Fault::Transport(s@),
            Error::Checksum { computed, expected } => Fault::Checksum { computed, expected },
            Error::NoResponse(n) => Fault::NoResponse(n),
            Error::MalformedReply(s) => Fault::MalformedReply(s@),
            Error::CapabilityParse(s) => Fault::CapabilityParse(s@),
        }
    }
}

/// A result with its error as a [`Fault`].
pub open spec fn outcome<T>(r: Result<T>) -> core::result::Result<T, Fault> {
    match r {
        Ok(v) => Ok(v),
        Err(e) => Err(e@),
    }
}

/// What a fault reads as.
pub open spec fn fault_text(f: Fault) -> Seq<char> {
    match f {
        Fault::Transport(s) => "i2c transport error: "@ + s,
        Fault::Checksum { computed, expected } => "checksum mismatch: computed "@
            + text::hex_number(computed as nat) + ", expected "@ + text::hex_number(
            expected as nat,
        ),
        Fault::NoResponse(n) => "display did not respond after "@ + text::decimal(n as nat)
            + " attempts"@,
        Fault::MalformedReply(s) => "malformed reply: "@ + s,
        Fault::CapabilityParse(s) => "capability string parse error: "@ + s,
    }
}

impl Error {
    /// The error as a message for people.
    pub fn message(&self) -> (r: String)
        ensures
            r@ == fault_text(self@),
    {
        match self {
            Error::Transport(s) => text::after("i2c transport error: ", s.as_str()),
            Error::Checksum { computed, expected } => {
                let mut out = text::own("checksum mismatch: computed ");
                out.append(text::write_hex_number(*computed as u64).as_str());
                out.append(", expected ");
                out.append(text::write_hex_number(*expected as u64).as_str());
                out
            },
            Error::NoResponse(n) => {
                let mut out = text::own("display did not respond after ");
                out.append(text::write_decimal(*n as u64).as_str());
                out.append(" attempts");
                out
            },
            Error::MalformedReply(s) => text::after("malformed reply: ", s.as_str()),
            Error::CapabilityParse(s) => text::after("capability string parse error: ", s.as_str()),
        }
    }

    /// A copy of the error.
    pub fn copy(&self) -> (r: Error)
        ensures
            r == *self,
    {
        match self {
            Error::Transport(s) => Error::Transport(s.clone()),
            Error::Checksum { computed, expected } => Error::Checksum {
                computed: *computed,
                expected: *expected,
            },
            Error::NoResponse(n) => Error::NoResponse(*n),
            Error::MalformedReply(s) => Error::MalformedReply(s.clone()),
            Error::CapabilityParse(s) => Error::CapabilityParse(s.clone()),
        }
    }
}

/// One thing done on an I2C channel.
pub enum BusEvent {
    /// A write, and how it ended.
    Write {
        chip_address: u32,
        data_address: u32,
        data: Seq<u8>,
        result: core::result::Result<(), Fault>,
    },
    /// A read, what the buffer held afterwards, and how it ended.
    Read {
        chip_address: u32,
        offset: u32,
        data: Seq<u8>,
        result: core::result::Result<(), Fault>,
    },
    /// A wait of some microseconds.
    Pause(u64),
}

/// A raw I2C channel to a display.
pub trait I2cTransport {
    /// Everything done on the channel so far. It exists for contracts alone.
    ///
    /// The default only spares implementations that are compiled without being
    /// verified from naming a ghost type. It is one fixed sequence, to which
    /// nothing can be added, so an implementation that is to be verified has to
    /// keep a log of its own and give that.
    closed spec fn history(&self) -> Seq<BusEvent> {
        arbitrary()
    }

    /// Write `data` to a register of a chip.
    fn write(&mut self, chip_address: u32, data_address: u32, data: &[u8]) -> (r: Result<()>)
        ensures
            final(self).history() == old(self).history().push(
                BusEvent::Write { chip_address, data_address, data: data@, result: outcome(r) },
            ),
    ;

    /// Fill `buf` from a chip.
    fn read(&mut self, chip_address: u32, offset: u32, buf: &mut [u8]) -> (r: Result<()>)
        ensures
            final(buf)@.len() == old(buf)@.len(),
            final(self).history() == old(self).history().push(
                BusEvent::Read { chip_address, offset, data: final(buf)@, result: outcome(r) },
            ),
    ;

    /// Wait before the channel is used again.
    fn pause(&mut self, micros: u64)
        ensures
            final(self).history() == old(self).history().push(BusEvent::Pause(micros)),
    ;
}

/// Per-monitor timing tolerances, waits in microseconds.
///
/// These are empirical values, not spec requirements: they are what real
/// monitors were observed to tolerate. The doubled write cycle and the pre-write
/// sleep look redundant but are load-bearing.
#[derive(Clone, Copy, Debug)]
pub struct Timings {
    pub write_sleep: u64,
    pub num_write_cycles: u8,
    pub read_sleep: u64,
    pub num_retries: u8,
    pub retry_sleep: u64,
}

impl Default for Timings {
    fn default() -> (t: Timings)
        ensures
            t == (Timings {
                write_sleep: 10_000,
                num_write_cycles: 2,
                read_sleep: 50_000,
                num_retries: 4,
                retry_sleep: 20_000,
            }),
    {
        Timings {
            write_sleep: 10_000,
            num_write_cycles: 2,
            read_sleep: 50_000,
            num_retries: 4,
            retry_sleep: 20_000,
        }
    }
}

// ── Laws ───────────────────────────────────────────────────────────────────

/// Each fault is told by what it is and by the numbers or words that it carries.
pub proof fn law_faults_say_what_they_are(f: Fault)
    ensures
        f is Transport ==> fault_text(f) == "i2c transport error: "@ + f->Transport_0,
        f is Checksum ==> fault_text(f) == "checksum mismatch: computed "@ + text::hex_number(
            f->computed as nat,
        ) + ", expected "@ + text::hex_number(f->expected as nat),
        f is NoResponse ==> fault_text(f) == "display did not respond after "@ + text::decimal(
            f->NoResponse_0 as nat,
        ) + " attempts"@,
        f is MalformedReply ==> fault_text(f) == "malformed reply: "@ + f->MalformedReply_0,
        f is CapabilityParse ==> fault_text(f) == "capability string parse error: "@
            + f->CapabilityParse_0,
{
}

} // verus!
