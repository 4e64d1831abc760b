//! Brightness keys of the keyboard.
//!
//! When the cursor is over an external display, the brightness keys drive that
//! display and the event is swallowed, so that the system does not also move the
//! built-in panel. Everything else passes straight through.
//!
//! Brightness only: audio output is rarely the external monitor, so taking the
//! volume keys usually does the wrong thing.

use vstd::prelude::*;

verus! {

/// The type of system-defined events.
pub const NX_SYSDEFINED: u32 = 14;

/// The system took the tap away because it was slow.
pub const TAP_DISABLED_TIMEOUT: u32 = 0xFFFF_FFFE;

/// The system took the tap away because of user input.
pub const TAP_DISABLED_USER_INPUT: u32 = 0xFFFF_FFFF;

/// The subtype of events that carry a media key.
pub const NX_SUBTYPE_AUX_CONTROL: i16 = 8;

pub const NX_KEYTYPE_BRIGHTNESS_UP: i64 = 2;

pub const NX_KEYTYPE_BRIGHTNESS_DOWN: i64 = 3;

pub const NX_KEYDOWN: i64 = 0x0A;

/// A key of the keyboard, and whether it was pressed.
#[derive(Debug, Clone, Copy, PartialEq, Eq, Structural)]
pub struct Key {
    pub code: i64,
    pub down: bool,
}

/// The key that an event carries: the code in the upper half of the low word, the
/// state in the byte below.
pub open spec fn key_of(subtype: i16, data1: i64) -> Option<Key> {
    if subtype == NX_SUBTYPE_AUX_CONTROL {
        Some(
            Key {
                code: (data1 & 0xFFFF_0000) >> 16,
                down: (data1 & 0x0000_FF00) >> 8 == NX_KEYDOWN,
            },
        )
    } else {
        None
    }
}

/// The key that an event carries, if it is one of a media key.
pub fn decode(subtype: i16, data1: i64) -> (r: Option<Key>)
    ensures
        r == key_of(subtype, data1),
{
    if subtype != NX_SUBTYPE_AUX_CONTROL {
        return None;
    }
    let code: i64 = (data1 & 0xFFFF_0000) >> 16;
    let state: i64 = (data1 & 0x0000_FF00) >> 8;
    Some(Key { code, down: state == NX_KEYDOWN })
}

/// What to do about an event.
#[derive(Debug, Clone, Copy, PartialEq, Eq, Structural)]
pub enum Reaction {
    /// Enable the tap again and pass the event on.
    Enable,
    /// Pass the event on.
    Pass,
    /// Make the display under the cursor brighter or darker, and swallow the
    /// event if there is one to drive.
    Brighter,
    Darker,
}

/// What to do about an event of a type that carries a key. Only a press counts: a
/// release is let through.
pub open spec fn reaction(etype: u32, key: Option<Key>) -> Reaction {
    if etype == TAP_DISABLED_TIMEOUT || etype == TAP_DISABLED_USER_INPUT {
        Reaction::Enable
    } else if etype != NX_SYSDEFINED {
        Reaction::Pass
    } else {
        match key {
            Some(k) => if k.down && k.code == NX_KEYTYPE_BRIGHTNESS_UP {
                Reaction::Brighter
            } else if k.down && k.code == NX_KEYTYPE_BRIGHTNESS_DOWN {
                Reaction::Darker
            } else {
                Reaction::Pass
            },
            None => Reaction::Pass,
        }
    }
}

/// What to do about an event.
pub fn handle_event(etype: u32, key: Option<Key>) -> (r: Reaction)
    ensures
        r == reaction(etype, key),
{
    if etype == TAP_DISABLED_TIMEOUT || etype == TAP_DISABLED_USER_INPUT {
        return Reaction::Enable;
    }
    if etype != NX_SYSDEFINED {
        return Reaction::Pass;
    }
    match key {
        Some(k) => {
            if !k.down {
                Reaction::Pass
            } else if k.code == NX_KEYTYPE_BRIGHTNESS_UP {
                Reaction::Brighter
            } else if k.code == NX_KEYTYPE_BRIGHTNESS_DOWN {
                Reaction::Darker
            } else {
                Reaction::Pass
            }
        },
        None => Reaction::Pass,
    }
}

/// The key of an event is sixteen bits, whatever else the event carries.
pub proof fn law_keys_are_small(subtype: i16, data1: i64)
    ensures
        key_of(subtype, data1) matches Some(k) ==> 0 <= k.code <= 0xFFFF,
{
    assert(0 <= (data1 & 0xFFFF_0000) >> 16 <= 0xFFFF) by (bit_vector);
}

/// A key that is let go, or that is no brightness key, never drives a display.
pub proof fn law_only_brightness_presses_count(etype: u32, key: Option<Key>)
    ensures
        reaction(etype, key) is Brighter || reaction(etype, key) is Darker ==> etype
            == NX_SYSDEFINED && (key matches Some(k) && k.down && (k.code
            == NX_KEYTYPE_BRIGHTNESS_UP || k.code == NX_KEYTYPE_BRIGHTNESS_DOWN)),
{
}

/// The key of an auxiliary control event is its third and fourth byte, and it is pressed
/// where the second byte is ten.
pub proof fn law_keys_are_taken_apart(code: u16, state: u8, low: u8)
    ensures
        key_of(8, (code as int * 65536 + state as int * 256 + low as int) as i64) == Some(
            (Key { code: code as i64, down: state == 10 }),
        ),
{
    let data1 = (code as int * 65536 + state as int * 256 + low as int) as i64;
    let c = code as i64;
    let s = state as i64;
    let l = low as i64;
    assert((data1 & 0xFFFF_0000) >> 16 == c && (data1 & 0x0000_FF00) >> 8 == s) by (bit_vector)
        requires
            data1 == c * 65536 + s * 256 + l,
            0 <= c <= 0xFFFF,
            0 <= s <= 0xFF,
            0 <= l <= 0xFF,
    ;
}

/// Events of other kinds carry no key.
pub proof fn law_other_events_carry_no_key(subtype: i16, data1: i64)
    ensures
        (key_of(subtype, data1) is Some) == (subtype == 8),
{
}

/// A press of key 2 makes brighter and of key 3 darker, in a system event and nowhere
/// else. A tap that was taken away is enabled again. Everything else passes.
pub proof fn law_brightness_keys_drive_brightness(etype: u32, key: Option<Key>)
    ensures
        (reaction(etype, key) is Brighter) == (etype == 14 && (key matches Some(k) && k.down && k.code
            == 2)),
        (reaction(etype, key) is Darker) == (etype == 14 && (key matches Some(k) && k.down && k.code
            == 3)),
        (reaction(etype, key) is Enable) == (etype == 0xFFFF_FFFE || etype == 0xFFFF_FFFF),
{
}

} // verus!
