//! Platform-independent display model and backend abstraction.
//!
//! Nothing here may reference IOKit, CoreGraphics, or any other macOS symbol:
//! a Linux `/dev/i2c-*` backend must be able to slot in behind
//! [`DisplayBackend`].

use crate::ddc;
use crate::ddc::caps::Capabilities;
use crate::ddc::vcp;
use crate::ddc::vcp::VcpCode;
use crate::text;
use vstd::prelude::*;

pub mod identity;
pub mod profile;
pub mod rules;

pub use identity::DisplayIdentity;
pub use profile::{DisplayProfile, Profile, ProfileError, ProfileStore};
pub use rules::{Action, PowerState, Rule, RuleSet, RulesError, RulesStore, Trigger};

verus! {

/// Why a display could not be driven.
#[derive(Debug)]
pub enum Error {
    NotFound(DisplayId),
    Unsupported(VcpCode),
    OutOfRange { code: VcpCode, value: u16, max: u16 },
    Transport(String),
    Ddc(ddc::Error),
}

pub type Result<T> = core::result::Result<T, Error>;

/// What an error reads as.
pub open spec fn error_text(e: Error) -> Seq<char> {
    match e {
        Error::NotFound(id) => "display not found: "@ + text::decimal(id.0 as nat),
        Error::Unsupported(code) => "display does not support "@ + vcp::code_text(code),
        Error::OutOfRange { code, value, max } => "value "@ + text::decimal(value as nat)
            + " out of range for "@ + vcp::code_text(code) + " (max "@ + text::decimal(max as nat)
            + ")"@,
        Error::Transport(s) => "transport failure: "@ + s@,
        Error::Ddc(d) => ddc::fault_text(d@),
    }
}

impl Error {
    /// The error as a message for people.
    pub fn message(&self) -> (r: String)
        ensures
            r@ == error_text(*self),
    {
        match self {
            Error::NotFound(id) => text::after(
                "display not found: ",
                text::write_decimal(id.0 as u64).as_str(),
            ),
            Error::Unsupported(code) => text::after(
                "display does not support ",
                code.describe().as_str(),
            ),
            Error::OutOfRange { code, value, max } => {
                let mut out = text::after("value ", text::write_decimal(*value as u64).as_str());
                out.append(" out of range for ");
                out.append(code.describe().as_str());
                out.append(" (max ");
                out.append(text::write_decimal(*max as u64).as_str());
                out.append(")");
                out
            },
            Error::Transport(s) => text::after("transport failure: ", s.as_str()),
            Error::Ddc(d) => d.message(),
        }
    }
}

/// Opaque handle to a display. On macOS this wraps a `CGDirectDisplayID`, but
/// callers must not depend on that.
#[derive(Debug, Clone, Copy, PartialEq, Eq, Hash, PartialOrd, Ord, Structural)]
pub struct DisplayId(pub u32);

impl DisplayId {
    /// The number of the display, in decimal.
    pub fn describe(self) -> (r: String)
        ensures
            r@ == text::decimal(self.0 as nat),
    {
        text::write_decimal(self.0 as u64)
    }
}

/// How a display is driven.
#[derive(Debug, Clone, Copy, PartialEq, Eq, Structural)]
pub enum ControlPath {
    /// External display speaking DDC/CI over I2C.
    Ddc,
    /// Built-in panel driven through the OS rather than DDC.
    Native,
    /// Detected but not controllable (no AV service, blocked converter, dummy).
    Uncontrollable,
}

/// A display as presented to callers.
#[derive(Debug, Clone)]
pub struct Monitor {
    pub id: DisplayId,
    pub identity: DisplayIdentity,
    pub control: ControlPath,
    /// Present only once capabilities have been probed.
    pub capabilities: Option<Capabilities>,
}

/// Whether a display can be driven at all.
pub open spec fn controllable(m: Monitor) -> bool {
    m.control != ControlPath::Uncontrollable
}

impl Monitor {
    /// Whether the display can be driven at all.
    pub fn is_controllable(&self) -> (b: bool)
        ensures
            b == controllable(*self),
    {
        !matches!(self.control, ControlPath::Uncontrollable)
    }
}

/// One call of a platform backend, with its result.
pub enum Call {
    List { result: Result<Vec<Monitor>> },
    OnlineIds { result: Result<Vec<DisplayId>> },
    GetVcp { id: DisplayId, code: VcpCode, result: Result<(u16, u16)> },
    SetVcp { id: DisplayId, code: VcpCode, value: u16, result: Result<()> },
    CapabilityString { id: DisplayId, result: Result<Option<String>> },
    PowerSource { result: Result<PowerState> },
}

/// A platform backend. A Linux `/dev/i2c-*` backend can be added without
/// touching the daemon.
pub trait DisplayBackend {
    /// Every call made of the backend so far. It exists for contracts alone.
    ///
    /// The default only spares implementations that are compiled without being
    /// verified from naming a ghost type. It is one fixed sequence, to which
    /// nothing can be added, so an implementation that is to be verified has to
    /// keep a log of its own and give that.
    closed spec fn calls(&self) -> Seq<Call> {
        arbitrary()
    }

    /// Every attached display.
    fn list(&mut self) -> (r: Result<Vec<Monitor>>)
        ensures
            final(self).calls() == old(self).calls().push(Call::List { result: r }),
    ;

    /// Ids of every currently-attached display.
    ///
    /// Must be cheap: callers poll it to notice hot-plug. Unlike `list` it may
    /// not touch I2C or rebuild any per-display state, because its whole purpose
    /// is to decide whether that expensive work is needed.
    fn online_ids(&mut self) -> (r: Result<Vec<DisplayId>>)
        ensures
            final(self).calls() == old(self).calls().push(Call::OnlineIds { result: r }),
    ;

    /// Current and maximum value of a code.
    fn get_vcp(&mut self, id: DisplayId, code: VcpCode) -> (r: Result<(u16, u16)>)
        ensures
            final(self).calls() == old(self).calls().push(Call::GetVcp { id, code, result: r }),
    ;

    /// Write a value.
    fn set_vcp(&mut self, id: DisplayId, code: VcpCode, value: u16) -> (r: Result<()>)
        ensures
            final(self).calls() == old(self).calls().push(
                Call::SetVcp { id, code, value, result: r },
            ),
    ;

    /// Raw capability string, unparsed. `None` if the display has no DDC path.
    fn capability_string(&mut self, id: DisplayId) -> (r: Result<Option<String>>)
        ensures
            final(self).calls() == old(self).calls().push(
                Call::CapabilityString { id, result: r },
            ),
    ;

    /// Current power source, for automation rules. Touches no display.
    ///
    /// The platform backend is the only thing that knows. Defaults to `Unknown`
    /// so a backend need not implement it; rules never fire on `Unknown`, so the
    /// default is inert rather than wrong. Nothing is called then.
    fn power_source(&mut self) -> (r: Result<PowerState>)
        ensures
            (final(self).calls() == old(self).calls() && r == Ok::<PowerState, Error>(
                PowerState::Unknown,
            )) || final(self).calls() == old(self).calls().push(Call::PowerSource { result: r }),
        default_ensures
            final(self).calls() == old(self).calls(),
            r == Ok::<PowerState, Error>(PowerState::Unknown),
    {
        Ok(PowerState::Unknown)
    }
}

// ── Laws ───────────────────────────────────────────────────────────────────

/// Each error is told by what it is, of which display or code, and by its numbers.
pub proof fn law_errors_say_what_they_are(e: Error)
    ensures
        e is NotFound ==> error_text(e) == "display not found: "@ + text::decimal(
            e->NotFound_0.0 as nat,
        ),
        e is Unsupported ==> error_text(e) == "display does not support "@ + vcp::code_text(
            e->Unsupported_0,
        ),
        e is OutOfRange ==> error_text(e) == "value "@ + text::decimal(e->value as nat)
            + " out of range for "@ + vcp::code_text(e->code) + " (max "@ + text::decimal(
            e->max as nat,
        ) + ")"@,
        e is Transport ==> error_text(e) == "transport failure: "@ + e->Transport_0@,
        e is Ddc ==> error_text(e) == ddc::fault_text(e->Ddc_0@),
{
}

/// A display can be driven over DDC/CI or by the OS, and not where there is no way to it.
pub proof fn law_which_displays_can_be_driven(m: Monitor)
    ensures
        controllable(m) <==> m.control is Ddc || m.control is Native,
{
}

} // verus!
