//! How a display is driven, and where a read or a write of it goes.

use crate::ddc::vcp::VcpCode;
use crate::macos::matching::Match;
use crate::model::{ControlPath, DisplayId, DisplayIdentity, Error, Monitor, PowerState, Result};
use crate::text;
use vstd::prelude::*;

verus! {

/// Full scale for built-in brightness.
///
/// Presented on the same 0–100 scale DDC monitors use, so callers can drive any
/// display's brightness without branching on its control path.
pub const NATIVE_BRIGHTNESS_MAX: u16 = 100;

/// Where the machine gets its power from, by the platform's name for it. A
/// source that is not understood never fires a rule.
pub open spec fn power_named(s: Seq<char>) -> PowerState {
    if s == "AC Power"@ {
        PowerState::Ac
    } else if s == "Battery Power"@ {
        PowerState::Battery
    } else {
        PowerState::Unknown
    }
}

/// Where the machine gets its power from, by the platform's name for it, where
/// it gave one.
pub fn power_state(name: &Option<String>) -> (p: PowerState)
    ensures
        p == match *name {
            Some(s) => power_named(s@),
            None => PowerState::Unknown,
        },
{
    match name {
        Some(s) => if text::same(s.as_str(), "AC Power") {
            PowerState::Ac
        } else if text::same(s.as_str(), "Battery Power") {
            PowerState::Battery
        } else {
            PowerState::Unknown
        },
        None => PowerState::Unknown,
    }
}

/// A display as the platform sees it.
#[derive(Debug, Clone, Copy, PartialEq, Eq, Structural)]
pub struct Panel {
    pub id: u32,
    /// Whether it is the built-in panel.
    pub builtin: bool,
}

/// The position of the first pairing of a display, or how many there are.
pub open spec fn first_match(matches: Seq<Match>, id: u32) -> int
    decreases matches.len(),
{
    if matches.len() == 0 || matches[0].display_id == id {
        0
    } else {
        1 + first_match(matches.drop_first(), id)
    }
}

/// How a display is driven: over DDC where it has an AV service, through the OS
/// where it is the built-in panel and the OS can, and else not at all.
pub open spec fn path_of(matched: Option<Match>, builtin: bool, native: bool) -> ControlPath {
    if matched matches Some(m) && m.service.service != 0 {
        ControlPath::Ddc
    } else if builtin && native {
        ControlPath::Native
    } else {
        ControlPath::Uncontrollable
    }
}

/// Whether an identity is the one that a pairing gives a display.
pub open spec fn identified(d: DisplayIdentity, matched: Option<Match>) -> bool {
    match matched {
        Some(m) => {
            &&& d.vendor@ == m.service.manufacturer_id@
            &&& d.product_name@ == m.service.product_name@
            &&& d.serial == m.service.serial_number
            &&& d.alphanumeric_serial@ == m.service.alphanumeric_serial@
            &&& d.location@ == m.service.io_display_location@
        },
        None => {
            &&& d.vendor@.len() == 0
            &&& d.product_name@.len() == 0
            &&& d.serial == 0
            &&& d.alphanumeric_serial@.len() == 0
            &&& d.location@.len() == 0
        },
    }
}

/// The pairing of a display, where it has one.
pub open spec fn match_of(matches: Seq<Match>, id: u32) -> Option<Match> {
    let i = first_match(matches, id);
    if i < matches.len() {
        Some(matches[i])
    } else {
        None
    }
}

/// Whether a monitor is what is known of a display.
pub open spec fn presents(m: Monitor, panel: Panel, matches: Seq<Match>, native: bool) -> bool {
    &&& m.id == DisplayId(panel.id)
    &&& identified(m.identity, match_of(matches, panel.id))
    &&& m.control == path_of(match_of(matches, panel.id), panel.builtin, native)
    &&& m.capabilities is None
}

/// The pairing of a display, where it has one.
fn find_match(matches: &Vec<Match>, id: u32) -> (r: Option<&Match>)
    ensures
        match match_of(matches@, id) {
            Some(m) => r matches Some(f) && *f == m,
            None => r is None,
        },
{
    let mut i: usize = 0;
    assert(matches@.skip(0) =~= matches@);
    while i < matches.len()
        invariant
            i <= matches@.len(),
            first_match(matches@, id) == i + first_match(matches@.skip(i as int), id),
        decreases matches@.len() - i,
    {
        if matches[i].display_id == id {
            return Some(&matches[i]);
        }
        assert(matches@.skip(i as int).drop_first() =~= matches@.skip(i + 1));
        i = i + 1;
    }
    None
}

/// The address of the AV service of a display, zero where it has none.
pub fn service_for(matches: &Vec<Match>, id: u32) -> (s: usize)
    ensures
        s == match match_of(matches@, id) {
            Some(m) => m.service.service,
            None => 0,
        },
{
    match find_match(matches, id) {
        Some(m) => m.service.service,
        None => 0,
    }
}

/// Every attached display. `native` says whether the OS can drive the built-in
/// panel.
pub fn monitors(panels: &Vec<Panel>, matches: &Vec<Match>, native: bool) -> (r: Vec<Monitor>)
    ensures
        r@.len() == panels@.len(),
        forall|i: int|
            0 <= i < r@.len() ==> presents(#[trigger] r@[i], panels@[i], matches@, native),
{
    let mut out: Vec<Monitor> = Vec::new();
    let mut i: usize = 0;
    while i < panels.len()
        invariant
            i <= panels@.len(),
            out@.len() == i,
            forall|k: int|
                0 <= k < i ==> presents(#[trigger] out@[k], panels@[k], matches@, native),
        decreases panels@.len() - i,
    {
        let panel = panels[i];
        let found = find_match(matches, panel.id);
        let identity = match found {
            Some(m) => DisplayIdentity {
                vendor: m.service.manufacturer_id.clone(),
                product_name: m.service.product_name.clone(),
                serial: m.service.serial_number,
                alphanumeric_serial: m.service.alphanumeric_serial.clone(),
                location: m.service.io_display_location.clone(),
            },
            None => DisplayIdentity::default(),
        };
        let driven: bool = match found {
            Some(m) => m.service.service != 0,
            None => false,
        };
        let control = if driven {
            ControlPath::Ddc
        } else if panel.builtin && native {
            ControlPath::Native
        } else {
            ControlPath::Uncontrollable
        };
        out.push(Monitor { id: DisplayId(panel.id), identity, control, capabilities: None });
        i = i + 1;
    }
    out
}

/// Where a read or a write goes.
#[derive(Debug, Clone, Copy, PartialEq, Eq, Structural)]
pub enum Route {
    /// To the OS, for the built-in panel's brightness.
    Native,
    /// To the display's I2C channel.
    Device,
}

/// Whether `r` says where a read goes. Contrast, input source and friends are
/// meaningless for the built-in panel: better said than answered with a bogus
/// value.
pub open spec fn read_routed(path: Option<ControlPath>, code: VcpCode, r: Result<Route>) -> bool {
    if path == Some(ControlPath::Native) {
        if code == VcpCode::Brightness {
            r == Ok::<Route, Error>(Route::Native)
        } else {
            r == Err::<Route, Error>(Error::Unsupported(code))
        }
    } else {
        r == Ok::<Route, Error>(Route::Device)
    }
}

/// Where a read goes.
pub fn route_read(path: Option<ControlPath>, code: VcpCode) -> (r: Result<Route>)
    ensures
        read_routed(path, code, r),
{
    let native: bool = match path {
        Some(ControlPath::Native) => true,
        _ => false,
    };
    if !native {
        Ok(Route::Device)
    } else if code == VcpCode::Brightness {
        Ok(Route::Native)
    } else {
        Err(Error::Unsupported(code))
    }
}

/// Whether `r` says where a write goes.
pub open spec fn write_routed(
    path: Option<ControlPath>,
    code: VcpCode,
    value: u16,
    r: Result<Route>,
) -> bool {
    if path == Some(ControlPath::Native) && code == VcpCode::Brightness && value
        > NATIVE_BRIGHTNESS_MAX {
        r == Err::<Route, Error>(Error::OutOfRange { code, value, max: NATIVE_BRIGHTNESS_MAX })
    } else {
        read_routed(path, code, r)
    }
}

/// Where a write goes.
pub fn route_write(path: Option<ControlPath>, code: VcpCode, value: u16) -> (r: Result<Route>)
    ensures
        write_routed(path, code, value, r),
{
    match route_read(path, code) {
        Ok(Route::Native) => if value > NATIVE_BRIGHTNESS_MAX {
            Err(Error::OutOfRange { code, value, max: NATIVE_BRIGHTNESS_MAX })
        } else {
            Ok(Route::Native)
        },
        other => other,
    }
}

// ── Laws ───────────────────────────────────────────────────────────────────

/// A display without an AV service that is not the built-in panel is listed but
/// not driven.
pub proof fn law_unmatched_displays_are_not_driven(matched: Option<Match>, native: bool)
    requires
        matched matches Some(m) ==> m.service.service == 0,
    ensures
        path_of(matched, false, native) == ControlPath::Uncontrollable,
{
}

/// Nothing but brightness within its scale is ever written to the built-in
/// panel.
pub proof fn law_native_takes_brightness_only(code: VcpCode, value: u16, r: Result<Route>)
    requires
        write_routed(Some(ControlPath::Native), code, value, r),
        r is Ok,
    ensures
        code == VcpCode::Brightness,
        value <= NATIVE_BRIGHTNESS_MAX,
        r == Ok::<Route, Error>(Route::Native),
{
}

/// Power is taken for mains or battery by the platform's own two names for them, and for
/// neither by any other.
pub proof fn law_power_goes_by_its_name(s: Seq<char>)
    ensures
        power_named(s) is Ac <==> s == "AC Power"@,
        power_named(s) is Battery <==> s == "Battery Power"@,
{
    reveal_strlit("AC Power");
    reveal_strlit("Battery Power");
    assert("AC Power"@.len() == 8);
    assert("Battery Power"@.len() == 13);
}

/// The first pairing of a display.
proof fn lemma_first_match(matches: Seq<Match>, id: u32)
    ensures
        0 <= first_match(matches, id) <= matches.len(),
        first_match(matches, id) < matches.len() ==> matches[first_match(matches, id)].display_id == id,
        forall|j: int| 0 <= j < first_match(matches, id) ==> #[trigger] matches[j].display_id != id,
    decreases matches.len(),
{
    if matches.len() > 0 && matches[0].display_id != id {
        let rest = matches.drop_first();
        lemma_first_match(rest, id);
        assert forall|j: int| 0 <= j < first_match(matches, id) implies #[trigger] matches[j].display_id
            != id by {
            if j > 0 {
                assert(rest[j - 1] == matches[j]);
            }
        }
    }
}

/// A display is what the first service paired with it says, field by field, and is driven
/// over DDC/CI exactly where that service has a channel. One without a channel is driven
/// by the OS where it is built in and the OS can, and else not at all.
pub proof fn law_displays_go_by_their_service(
    m: Monitor,
    panel: Panel,
    matches: Seq<Match>,
    native: bool,
    i: int,
)
    requires
        presents(m, panel, matches, native),
        0 <= i < matches.len(),
        matches[i].display_id == panel.id,
        forall|j: int| 0 <= j < i ==> #[trigger] matches[j].display_id != panel.id,
    ensures
        m.id.0 == panel.id,
        m.identity.vendor@ == matches[i].service.manufacturer_id@,
        m.identity.product_name@ == matches[i].service.product_name@,
        m.identity.serial == matches[i].service.serial_number,
        m.identity.alphanumeric_serial@ == matches[i].service.alphanumeric_serial@,
        m.identity.location@ == matches[i].service.io_display_location@,
        m.capabilities is None,
        m.control is Ddc <==> matches[i].service.service != 0,
        m.control is Native <==> matches[i].service.service == 0 && panel.builtin && native,
        m.control is Uncontrollable <==> matches[i].service.service == 0 && !(panel.builtin && native),
        match_of(matches, panel.id) matches Some(f) && f.service.service
            == matches[i].service.service,
{
    lemma_first_match(matches, panel.id);
    let k = first_match(matches, panel.id);
    if k < i {
        assert(matches[k].display_id != panel.id);
    }
    if i < k {
        assert(matches[i].display_id != panel.id);
    }
}

/// A display that no service is paired with says nothing of itself, has no channel, and
/// is driven by the OS where it is built in and the OS can, and else not at all.
pub proof fn law_displays_without_a_service_say_nothing(
    m: Monitor,
    panel: Panel,
    matches: Seq<Match>,
    native: bool,
)
    requires
        presents(m, panel, matches, native),
        forall|j: int| 0 <= j < matches.len() ==> #[trigger] matches[j].display_id != panel.id,
    ensures
        m.id.0 == panel.id,
        m.identity.vendor@.len() == 0,
        m.identity.product_name@.len() == 0,
        m.identity.serial == 0,
        m.identity.alphanumeric_serial@.len() == 0,
        m.identity.location@.len() == 0,
        m.capabilities is None,
        !(m.control is Ddc),
        m.control is Native <==> panel.builtin && native,
        match_of(matches, panel.id) is None,
{
    lemma_first_match(matches, panel.id);
}

/// The built-in panel is read and written through the OS, for brightness from 0 to 100
/// alone: another code is unsupported and a higher value out of range, and both errors
/// say which. Every other display is reached over its own channel, whatever the code and
/// the value.
pub proof fn law_where_reads_and_writes_go(
    path: Option<ControlPath>,
    code: VcpCode,
    value: u16,
    r: Result<Route>,
    w: Result<Route>,
)
    requires
        read_routed(path, code, r),
        write_routed(path, code, value, w),
    ensures
        !(path is Some && path->0 is Native) ==> r is Ok && r->Ok_0 is Device && w is Ok
            && w->Ok_0 is Device,
        path is Some && path->0 is Native && code is Brightness ==> r is Ok && r->Ok_0 is Native,
        path is Some && path->0 is Native && code is Brightness && value <= 100 ==> w is Ok
            && w->Ok_0 is Native,
        path is Some && path->0 is Native && code is Brightness && value > 100 ==> w is Err
            && w->Err_0 is OutOfRange && w->Err_0->code == code && w->Err_0->value == value
            && w->Err_0->max == 100,
        path is Some && path->0 is Native && !(code is Brightness) ==> r is Err && r->Err_0
            is Unsupported && r->Err_0->Unsupported_0 == code && w is Err && w->Err_0 is Unsupported
            && w->Err_0->Unsupported_0 == code,
{
}

} // verus!
