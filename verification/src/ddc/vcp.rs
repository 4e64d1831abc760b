//! MCCS VCP code table.
//!
//! Not exhaustive: MCCS 2.2 defines well over a hundred codes and most are never
//! implemented by real monitors. This covers what the product drives plus the
//! codes worth surfacing in the capability explorer. Unknown codes stay
//! addressable through [`VcpCode::Raw`].

use crate::text;
use vstd::prelude::*;

verus! {

/// A VCP feature code.
#[derive(Debug, Clone, Copy, PartialEq, Eq, Hash, Structural)]
pub enum VcpCode {
    Brightness,
    Contrast,
    Volume,
    Mute,
    InputSource,
    PowerMode,
    RedGain,
    GreenGain,
    BlueGain,
    ColorPreset,
    OsdLanguage,
    SpeakerSelect,
    Sharpness,
    /// Write-only: signals that a control value changed.
    NewControlValue,
    /// Write-only: **resets the monitor to factory settings**.
    RestoreFactoryDefaults,
    /// Write-only: resets brightness and contrast to factory settings.
    RestoreFactoryLuminance,
    /// Write-only: resets colour settings to factory settings.
    RestoreFactoryColor,
    /// Any code not in the table above, vendor-specific ones among them.
    Raw(u8),
}

/// Whether a code carries a continuous range or an enumerated set.
#[derive(Debug, Clone, Copy, PartialEq, Eq, Structural)]
pub enum ValueKind {
    Continuous,
    NonContinuous,
    Unknown,
}

/// The number that a code has on the wire.
pub open spec fn code_number(c: VcpCode) -> u8 {
    match c {
        VcpCode::NewControlValue => 0x02,
        VcpCode::RestoreFactoryDefaults => 0x04,
        VcpCode::RestoreFactoryLuminance => 0x05,
        VcpCode::RestoreFactoryColor => 0x08,
        VcpCode::Brightness => 0x10,
        VcpCode::Contrast => 0x12,
        VcpCode::ColorPreset => 0x14,
        VcpCode::RedGain => 0x16,
        VcpCode::GreenGain => 0x18,
        VcpCode::BlueGain => 0x1A,
        VcpCode::InputSource => 0x60,
        VcpCode::Volume => 0x62,
        VcpCode::SpeakerSelect => 0x63,
        VcpCode::Sharpness => 0x87,
        VcpCode::Mute => 0x8D,
        VcpCode::OsdLanguage => 0xCC,
        VcpCode::PowerMode => 0xD6,
        VcpCode::Raw(n) => n,
    }
}

/// The code with a given number: a named one where the table has it.
pub open spec fn code_of(n: u8) -> VcpCode {
    if n == 0x02 {
        VcpCode::NewControlValue
    } else if n == 0x04 {
        VcpCode::RestoreFactoryDefaults
    } else if n == 0x05 {
        VcpCode::RestoreFactoryLuminance
    } else if n == 0x08 {
        VcpCode::RestoreFactoryColor
    } else if n == 0x10 {
        VcpCode::Brightness
    } else if n == 0x12 {
        VcpCode::Contrast
    } else if n == 0x14 {
        VcpCode::ColorPreset
    } else if n == 0x16 {
        VcpCode::RedGain
    } else if n == 0x18 {
        VcpCode::GreenGain
    } else if n == 0x1A {
        VcpCode::BlueGain
    } else if n == 0x60 {
        VcpCode::InputSource
    } else if n == 0x62 {
        VcpCode::Volume
    } else if n == 0x63 {
        VcpCode::SpeakerSelect
    } else if n == 0x87 {
        VcpCode::Sharpness
    } else if n == 0x8D {
        VcpCode::Mute
    } else if n == 0xCC {
        VcpCode::OsdLanguage
    } else if n == 0xD6 {
        VcpCode::PowerMode
    } else {
        VcpCode::Raw(n)
    }
}

/// The name of a modelled code.
pub open spec fn code_name(c: VcpCode) -> &'static str {
    match c {
        VcpCode::NewControlValue => "New Control Value",
        VcpCode::RestoreFactoryDefaults => "Restore Factory Defaults",
        VcpCode::RestoreFactoryLuminance => "Restore Factory Luminance",
        VcpCode::RestoreFactoryColor => "Restore Factory Color",
        VcpCode::Brightness => "Brightness",
        VcpCode::Contrast => "Contrast",
        VcpCode::ColorPreset => "Color Preset",
        VcpCode::RedGain => "Red Gain",
        VcpCode::GreenGain => "Green Gain",
        VcpCode::BlueGain => "Blue Gain",
        VcpCode::InputSource => "Input Source",
        VcpCode::Volume => "Volume",
        VcpCode::SpeakerSelect => "Speaker Select",
        VcpCode::Sharpness => "Sharpness",
        VcpCode::Mute => "Mute",
        VcpCode::OsdLanguage => "OSD Language",
        VcpCode::PowerMode => "Power Mode",
        VcpCode::Raw(_) => "Unknown",
    }
}

/// Whether a code's values form a range, an enumeration, or neither is known.
pub open spec fn code_kind(c: VcpCode) -> ValueKind {
    match c {
        VcpCode::Brightness
        | VcpCode::Contrast
        | VcpCode::Volume
        | VcpCode::RedGain
        | VcpCode::GreenGain
        | VcpCode::BlueGain
        | VcpCode::Sharpness => ValueKind::Continuous,
        VcpCode::Raw(_) => ValueKind::Unknown,
        _ => ValueKind::NonContinuous,
    }
}

/// Whether writing a code number wipes settings of the monitor: those whose
/// standard name says that factory settings are restored.
pub open spec fn restores_factory(n: u8) -> bool {
    n == 0x04 || n == 0x05 || n == 0x06 || n == 0x08 || n == 0x0A
}

/// Whether writing a code does something the user cannot casually undo: it
/// blanks the picture or wipes the monitor's settings. A code that goes by its
/// number alone is no less so.
pub open spec fn destructive(c: VcpCode) -> bool {
    ||| code_number(c) == code_number(VcpCode::InputSource)
    ||| code_number(c) == code_number(VcpCode::PowerMode)
    ||| restores_factory(code_number(c))
}

/// The label of a code: its name, the standard MCCS name of an unmodelled code,
/// or else its number.
pub open spec fn code_label(c: VcpCode) -> Seq<char> {
    match c {
        VcpCode::Raw(n) => match standard_label(n) {
            Some(name) => name@,
            None => "VCP "@ + text::hex_number(n as nat),
        },
        _ => code_name(c)@,
    }
}

/// A code with its number, as shown in reports.
pub open spec fn code_text(c: VcpCode) -> Seq<char> {
    match c {
        VcpCode::Raw(n) => "VCP "@ + text::hex_number(n as nat),
        _ => code_name(c)@ + " (VCP "@ + text::hex_number(code_number(c) as nat) + ")"@,
    }
}

impl VcpCode {
    /// The number that this code has on the wire.
    pub fn code(self) -> (n: u8)
        ensures
            n == code_number(self),
    {
        match self {
            VcpCode::NewControlValue => 0x02,
            VcpCode::RestoreFactoryDefaults => 0x04,
            VcpCode::RestoreFactoryLuminance => 0x05,
            VcpCode::RestoreFactoryColor => 0x08,
            VcpCode::Brightness => 0x10,
            VcpCode::Contrast => 0x12,
            VcpCode::ColorPreset => 0x14,
            VcpCode::RedGain => 0x16,
            VcpCode::GreenGain => 0x18,
            VcpCode::BlueGain => 0x1A,
            VcpCode::InputSource => 0x60,
            VcpCode::Volume => 0x62,
            VcpCode::SpeakerSelect => 0x63,
            VcpCode::Sharpness => 0x87,
            VcpCode::Mute => 0x8D,
            VcpCode::OsdLanguage => 0xCC,
            VcpCode::PowerMode => 0xD6,
            VcpCode::Raw(c) => c,
        }
    }

    /// The code with a given number.
    pub fn from_code(c: u8) -> (v: VcpCode)
        ensures
            v == code_of(c),
            code_number(v) == c,
    {
        match c {
            0x02 => VcpCode::NewControlValue,
            0x04 => VcpCode::RestoreFactoryDefaults,
            0x05 => VcpCode::RestoreFactoryLuminance,
            0x08 => VcpCode::RestoreFactoryColor,
            0x10 => VcpCode::Brightness,
            0x12 => VcpCode::Contrast,
            0x14 => VcpCode::ColorPreset,
            0x16 => VcpCode::RedGain,
            0x18 => VcpCode::GreenGain,
            0x1A => VcpCode::BlueGain,
            0x60 => VcpCode::InputSource,
            0x62 => VcpCode::Volume,
            0x63 => VcpCode::SpeakerSelect,
            0x87 => VcpCode::Sharpness,
            0x8D => VcpCode::Mute,
            0xCC => VcpCode::OsdLanguage,
            0xD6 => VcpCode::PowerMode,
            other => VcpCode::Raw(other),
        }
    }

    /// The name of a modelled code.
    pub fn name(self) -> (r: &'static str)
        ensures
            r@ == code_name(self)@,
    {
        match self {
            VcpCode::NewControlValue => "New Control Value",
            VcpCode::RestoreFactoryDefaults => "Restore Factory Defaults",
            VcpCode::RestoreFactoryLuminance => "Restore Factory Luminance",
            VcpCode::RestoreFactoryColor => "Restore Factory Color",
            VcpCode::Brightness => "Brightness",
            VcpCode::Contrast => "Contrast",
            VcpCode::ColorPreset => "Color Preset",
            VcpCode::RedGain => "Red Gain",
            VcpCode::GreenGain => "Green Gain",
            VcpCode::BlueGain => "Blue Gain",
            VcpCode::InputSource => "Input Source",
            VcpCode::Volume => "Volume",
            VcpCode::SpeakerSelect => "Speaker Select",
            VcpCode::Sharpness => "Sharpness",
            VcpCode::Mute => "Mute",
            VcpCode::OsdLanguage => "OSD Language",
            VcpCode::PowerMode => "Power Mode",
            VcpCode::Raw(_) => "Unknown",
        }
    }

    /// Human-readable label. For codes not modelled as a variant, consults the
    /// standard MCCS table before giving up, so that the 6-axis saturation codes
    /// and friends get real names.
    pub fn display_name(self) -> (r: String)
        ensures
            r@ == code_label(self),
    {
        match self {
            VcpCode::Raw(c) => match standard_name(c) {
                Some(n) => text::own(n),
                None => {
                    let mut out = text::own("VCP ");
                    out.append(text::write_hex_number(c as u64).as_str());
                    out
                },
            },
            _ => text::own(self.name()),
        }
    }

    /// The code with its number: `Brightness (VCP 0x10)`, or `VCP 0xe1` for a
    /// code outside the table.
    pub fn describe(self) -> (r: String)
        ensures
            r@ == code_text(self),
    {
        match self {
            VcpCode::Raw(c) => {
                let mut out = text::own("VCP ");
                out.append(text::write_hex_number(c as u64).as_str());
                out
            },
            _ => {
                let mut out = text::own(self.name());
                out.append(" (VCP ");
                out.append(text::write_hex_number(self.code() as u64).as_str());
                out.append(")");
                out
            },
        }
    }

    /// Whether the code's values form a range or an enumeration.
    pub fn kind(self) -> (k: ValueKind)
        ensures
            k == code_kind(self),
    {
        match self {
            VcpCode::Brightness
            | VcpCode::Contrast
            | VcpCode::Volume
            | VcpCode::RedGain
            | VcpCode::GreenGain
            | VcpCode::BlueGain
            | VcpCode::Sharpness => ValueKind::Continuous,
            VcpCode::Mute
            | VcpCode::InputSource
            | VcpCode::PowerMode
            | VcpCode::ColorPreset
            | VcpCode::OsdLanguage
            | VcpCode::SpeakerSelect
            | VcpCode::NewControlValue
            | VcpCode::RestoreFactoryDefaults
            | VcpCode::RestoreFactoryLuminance
            | VcpCode::RestoreFactoryColor => ValueKind::NonContinuous,
            VcpCode::Raw(_) => ValueKind::Unknown,
        }
    }

    /// Whether writing this code does something the user cannot casually undo.
    ///
    /// Two distinct hazards. Input source and power: a display sent to an input
    /// with no signal leaves no picture with which to undo it. Restore-factory
    /// codes: they wipe every setting on the monitor, ones this software never
    /// touched among them. Callers must require explicit confirmation.
    pub fn is_destructive(self) -> (b: bool)
        ensures
            b == destructive(self),
    {
        matches!(self.code(), 0x04 | 0x05 | 0x06 | 0x08 | 0x0A | 0x60 | 0xD6)
    }
}

/// The standard MCCS 2.2 name of a code, where the standard gives it one.
pub open spec fn standard_label(code: u8) -> Option<&'static str> {
    if code == 0x01 {
        Some("Degauss")
    } else if code == 0x02 {
        Some("New Control Value")
    } else if code == 0x03 {
        Some("Soft Controls")
    } else if code == 0x04 {
        Some("Restore Factory Defaults")
    } else if code == 0x05 {
        Some("Restore Factory Luminance/Contrast")
    } else if code == 0x06 {
        Some("Restore Factory Geometry")
    } else if code == 0x08 {
        Some("Restore Factory Color")
    } else if code == 0x0A {
        Some("Restore Factory TV Defaults")
    } else if code == 0x0B {
        Some("Color Temperature Increment")
    } else if code == 0x0C {
        Some("Color Temperature Request")
    } else if code == 0x0E {
        Some("Clock")
    } else if code == 0x10 {
        Some("Brightness")
    } else if code == 0x11 {
        Some("Flesh Tone Enhancement")
    } else if code == 0x12 {
        Some("Contrast")
    } else if code == 0x13 {
        Some("Backlight Control")
    } else if code == 0x14 {
        Some("Color Preset")
    } else if code == 0x16 {
        Some("Red Gain")
    } else if code == 0x17 {
        Some("User Color Vision Compensation")
    } else if code == 0x18 {
        Some("Green Gain")
    } else if code == 0x1A {
        Some("Blue Gain")
    } else if code == 0x1C {
        Some("Focus")
    } else if code == 0x1E {
        Some("Auto Setup")
    } else if code == 0x1F {
        Some("Auto Color Setup")
    } else if code == 0x20 {
        Some("Horizontal Position")
    } else if code == 0x22 {
        Some("Horizontal Size")
    } else if code == 0x30 {
        Some("Vertical Position")
    } else if code == 0x32 {
        Some("Vertical Size")
    } else if code == 0x3E {
        Some("Clock Phase")
    } else if code == 0x52 {
        Some("Active Control")
    } else if code == 0x54 {
        Some("Performance Preservation")
    } else if code == 0x56 {
        Some("Horizontal Moiré")
    } else if code == 0x58 {
        Some("Vertical Moiré")
    } else if code == 0x59 {
        Some("6-Axis Saturation: Red")
    } else if code == 0x5A {
        Some("6-Axis Saturation: Yellow")
    } else if code == 0x5B {
        Some("6-Axis Saturation: Green")
    } else if code == 0x5C {
        Some("6-Axis Saturation: Cyan")
    } else if code == 0x5D {
        Some("6-Axis Saturation: Blue")
    } else if code == 0x5E {
        Some("6-Axis Saturation: Magenta")
    } else if code == 0x60 {
        Some("Input Source")
    } else if code == 0x62 {
        Some("Volume")
    } else if code == 0x63 {
        Some("Speaker Select")
    } else if code == 0x64 {
        Some("Microphone Volume")
    } else if code == 0x66 {
        Some("Ambient Light Sensor")
    } else if code == 0x6C {
        Some("Red Black Level")
    } else if code == 0x6E {
        Some("Green Black Level")
    } else if code == 0x70 {
        Some("Blue Black Level")
    } else if code == 0x72 {
        Some("Gamma")
    } else if code == 0x7C {
        Some("Adjust Zoom")
    } else if code == 0x82 {
        Some("Horizontal Mirror")
    } else if code == 0x84 {
        Some("Vertical Mirror")
    } else if code == 0x86 {
        Some("Display Scaling")
    } else if code == 0x87 {
        Some("Sharpness")
    } else if code == 0x88 {
        Some("Velocity Scan Modulation")
    } else if code == 0x8A {
        Some("Color Saturation")
    } else if code == 0x8B {
        Some("TV Channel Up/Down")
    } else if code == 0x8C {
        Some("TV Sharpness")
    } else if code == 0x8D {
        Some("Mute / Screen Blank")
    } else if code == 0x8E {
        Some("TV Contrast")
    } else if code == 0x8F {
        Some("Audio Treble")
    } else if code == 0x90 {
        Some("Hue")
    } else if code == 0x91 {
        Some("Audio Bass")
    } else if code == 0x92 {
        Some("TV Black Level")
    } else if code == 0x94 {
        Some("Audio Balance")
    } else if code == 0x9B {
        Some("6-Axis Hue: Red")
    } else if code == 0x9C {
        Some("6-Axis Hue: Yellow")
    } else if code == 0x9D {
        Some("6-Axis Hue: Green")
    } else if code == 0x9E {
        Some("6-Axis Hue: Cyan")
    } else if code == 0x9F {
        Some("6-Axis Hue: Blue")
    } else if code == 0xA0 {
        Some("6-Axis Hue: Magenta")
    } else if code == 0xA2 {
        Some("Auto Setup On/Off")
    } else if code == 0xA4 {
        Some("Window Mask Control")
    } else if code == 0xA5 {
        Some("Change Selected Window")
    } else if code == 0xAA {
        Some("Screen Orientation")
    } else if code == 0xAC {
        Some("Horizontal Frequency")
    } else if code == 0xAE {
        Some("Vertical Frequency")
    } else if code == 0xB0 {
        Some("Settings (Store/Restore)")
    } else if code == 0xB2 {
        Some("Flat Panel Sub-Pixel Layout")
    } else if code == 0xB4 {
        Some("Source Timing Mode")
    } else if code == 0xB6 {
        Some("Display Technology Type")
    } else if code == 0xC0 {
        Some("Display Usage Time")
    } else if code == 0xC6 {
        Some("Application Enable Key")
    } else if code == 0xC8 {
        Some("Display Controller Type")
    } else if code == 0xC9 {
        Some("Display Firmware Level")
    } else if code == 0xCA {
        Some("OSD / Button Control")
    } else if code == 0xCC {
        Some("OSD Language")
    } else if code == 0xCD {
        Some("Status Indicators")
    } else if code == 0xCE {
        Some("Auxiliary Display Size")
    } else if code == 0xD0 {
        Some("Output Select")
    } else if code == 0xD4 {
        Some("Stereo Video Mode")
    } else if code == 0xD6 {
        Some("Power Mode")
    } else if code == 0xDA {
        Some("Scan Mode")
    } else if code == 0xDB {
        Some("Image Mode")
    } else if code == 0xDC {
        Some("Display Mode / Preset")
    } else if code == 0xDF {
        Some("VCP Version")
    } else {
        None
    }
}

/// Name for a standard MCCS 2.2 VCP code.
///
/// Covers the spec-defined codes, which are identical across every conforming
/// vendor. Codes `0xE0` to `0xFF` are the manufacturer-specific range and get no
/// name: their meaning varies per vendor and can only come from a per-model
/// database, never a guess. The flat-panel-relevant set is complete.
pub fn standard_name(code: u8) -> (r: Option<&'static str>)
    ensures
        r == standard_label(code),
{
    match code {
        0x01 => Some("Degauss"),
        0x02 => Some("New Control Value"),
        0x03 => Some("Soft Controls"),
        0x04 => Some("Restore Factory Defaults"),
        0x05 => Some("Restore Factory Luminance/Contrast"),
        0x06 => Some("Restore Factory Geometry"),
        0x08 => Some("Restore Factory Color"),
        0x0A => Some("Restore Factory TV Defaults"),
        0x0B => Some("Color Temperature Increment"),
        0x0C => Some("Color Temperature Request"),
        0x0E => Some("Clock"),
        0x10 => Some("Brightness"),
        0x11 => Some("Flesh Tone Enhancement"),
        0x12 => Some("Contrast"),
        0x13 => Some("Backlight Control"),
        0x14 => Some("Color Preset"),
        0x16 => Some("Red Gain"),
        0x17 => Some("User Color Vision Compensation"),
        0x18 => Some("Green Gain"),
        0x1A => Some("Blue Gain"),
        0x1C => Some("Focus"),
        0x1E => Some("Auto Setup"),
        0x1F => Some("Auto Color Setup"),
        0x20 => Some("Horizontal Position"),
        0x22 => Some("Horizontal Size"),
        0x30 => Some("Vertical Position"),
        0x32 => Some("Vertical Size"),
        0x3E => Some("Clock Phase"),
        0x52 => Some("Active Control"),
        0x54 => Some("Performance Preservation"),
        0x56 => Some("Horizontal Moiré"),
        0x58 => Some("Vertical Moiré"),
        0x59 => Some("6-Axis Saturation: Red"),
        0x5A => Some("6-Axis Saturation: Yellow"),
        0x5B => Some("6-Axis Saturation: Green"),
        0x5C => Some("6-Axis Saturation: Cyan"),
        0x5D => Some("6-Axis Saturation: Blue"),
        0x5E => Some("6-Axis Saturation: Magenta"),
        0x60 => Some("Input Source"),
        0x62 => Some("Volume"),
        0x63 => Some("Speaker Select"),
        0x64 => Some("Microphone Volume"),
        0x66 => Some("Ambient Light Sensor"),
        0x6C => Some("Red Black Level"),
        0x6E => Some("Green Black Level"),
        0x70 => Some("Blue Black Level"),
        0x72 => Some("Gamma"),
        0x7C => Some("Adjust Zoom"),
        0x82 => Some("Horizontal Mirror"),
        0x84 => Some("Vertical Mirror"),
        0x86 => Some("Display Scaling"),
        0x87 => Some("Sharpness"),
        0x88 => Some("Velocity Scan Modulation"),
        0x8A => Some("Color Saturation"),
        0x8B => Some("TV Channel Up/Down"),
        0x8C => Some("TV Sharpness"),
        0x8D => Some("Mute / Screen Blank"),
        0x8E => Some("TV Contrast"),
        0x8F => Some("Audio Treble"),
        0x90 => Some("Hue"),
        0x91 => Some("Audio Bass"),
        0x92 => Some("TV Black Level"),
        0x94 => Some("Audio Balance"),
        0x9B => Some("6-Axis Hue: Red"),
        0x9C => Some("6-Axis Hue: Yellow"),
        0x9D => Some("6-Axis Hue: Green"),
        0x9E => Some("6-Axis Hue: Cyan"),
        0x9F => Some("6-Axis Hue: Blue"),
        0xA0 => Some("6-Axis Hue: Magenta"),
        0xA2 => Some("Auto Setup On/Off"),
        0xA4 => Some("Window Mask Control"),
        0xA5 => Some("Change Selected Window"),
        0xAA => Some("Screen Orientation"),
        0xAC => Some("Horizontal Frequency"),
        0xAE => Some("Vertical Frequency"),
        0xB0 => Some("Settings (Store/Restore)"),
        0xB2 => Some("Flat Panel Sub-Pixel Layout"),
        0xB4 => Some("Source Timing Mode"),
        0xB6 => Some("Display Technology Type"),
        0xC0 => Some("Display Usage Time"),
        0xC6 => Some("Application Enable Key"),
        0xC8 => Some("Display Controller Type"),
        0xC9 => Some("Display Firmware Level"),
        0xCA => Some("OSD / Button Control"),
        0xCC => Some("OSD Language"),
        0xCD => Some("Status Indicators"),
        0xCE => Some("Auxiliary Display Size"),
        0xD0 => Some("Output Select"),
        0xD4 => Some("Stereo Video Mode"),
        0xD6 => Some("Power Mode"),
        0xDA => Some("Scan Mode"),
        0xDB => Some("Image Mode"),
        0xDC => Some("Display Mode / Preset"),
        0xDF => Some("VCP Version"),
        _ => None,
    }
}

/// The continuous controls that make sense as a slider.
pub open spec fn adjustable(code: u8) -> bool {
    ||| code == 0x10 || code == 0x12
    ||| code == 0x16 || code == 0x18 || code == 0x1A
    ||| 0x59 <= code <= 0x5E
    ||| code == 0x62 || code == 0x64
    ||| code == 0x6C || code == 0x6E || code == 0x70
    ||| code == 0x72
    ||| code == 0x87 || code == 0x8A
    ||| 0x8F <= code <= 0x91
    ||| 0x9B <= code <= 0xA0
}

/// Whether a code is a continuous control that makes sense as a slider.
///
/// Used to decide which advertised codes the menu can offer as sliders. Leaves
/// out enumerated codes (those are pickers or actions) and read-only ones.
pub fn is_adjustable(code: u8) -> (b: bool)
    ensures
        b == adjustable(code),
{
    matches!(
        code,
        0x10 // brightness
        | 0x12 // contrast
        | 0x16 | 0x18 | 0x1A // RGB gain
        | 0x59..=0x5E // 6-axis saturation
        | 0x62 // volume
        | 0x64 // microphone volume
        | 0x6C | 0x6E | 0x70 // RGB black level
        | 0x72 // gamma
        | 0x87 // sharpness
        | 0x8A // color saturation
        | 0x8F // treble
        | 0x90 // hue
        | 0x91 // bass
        | 0x9B..=0xA0 // 6-axis hue
    )
}

/// The name that MCCS gives an input source value.
pub open spec fn input_label(value: u8) -> Option<&'static str> {
    if value == 0x01 {
        Some("VGA-1")
    } else if value == 0x02 {
        Some("VGA-2")
    } else if value == 0x03 {
        Some("DVI-1")
    } else if value == 0x04 {
        Some("DVI-2")
    } else if value == 0x05 {
        Some("Composite-1")
    } else if value == 0x06 {
        Some("Composite-2")
    } else if value == 0x07 {
        Some("S-Video-1")
    } else if value == 0x08 {
        Some("S-Video-2")
    } else if value == 0x09 {
        Some("Tuner-1")
    } else if value == 0x0A {
        Some("Tuner-2")
    } else if value == 0x0B {
        Some("Tuner-3")
    } else if value == 0x0C {
        Some("Component-1")
    } else if value == 0x0D {
        Some("Component-2")
    } else if value == 0x0E {
        Some("Component-3")
    } else if value == 0x0F {
        Some("DisplayPort-1")
    } else if value == 0x10 {
        Some("DisplayPort-2")
    } else if value == 0x11 {
        Some("HDMI-1")
    } else if value == 0x12 {
        Some("HDMI-2")
    } else {
        None
    }
}

/// Names for input source values **defined by MCCS**.
///
/// MCCS 2.2 defines this enumeration only through `0x12`; every higher value is
/// vendor-specific. Leaving those unnamed is a safety property: input switching
/// is destructive, and a confidently wrong label invites the user to select an
/// input that shows nothing.
pub fn input_source_name(value: u8) -> (r: Option<&'static str>)
    ensures
        r == input_label(value),
{
    match value {
        0x01 => Some("VGA-1"),
        0x02 => Some("VGA-2"),
        0x03 => Some("DVI-1"),
        0x04 => Some("DVI-2"),
        0x05 => Some("Composite-1"),
        0x06 => Some("Composite-2"),
        0x07 => Some("S-Video-1"),
        0x08 => Some("S-Video-2"),
        0x09 => Some("Tuner-1"),
        0x0A => Some("Tuner-2"),
        0x0B => Some("Tuner-3"),
        0x0C => Some("Component-1"),
        0x0D => Some("Component-2"),
        0x0E => Some("Component-3"),
        0x0F => Some("DisplayPort-1"),
        0x10 => Some("DisplayPort-2"),
        0x11 => Some("HDMI-1"),
        0x12 => Some("HDMI-2"),
        _ => None,
    }
}

/// The standard name of a color preset value.
pub open spec fn preset_label(value: u8) -> Option<&'static str> {
    if value == 0x01 {
        Some("sRGB")
    } else if value == 0x02 {
        Some("Display Native")
    } else if value == 0x03 {
        Some("4000 K")
    } else if value == 0x04 {
        Some("5000 K")
    } else if value == 0x05 {
        Some("6500 K")
    } else if value == 0x06 {
        Some("7500 K")
    } else if value == 0x07 {
        Some("8200 K")
    } else if value == 0x08 {
        Some("9300 K")
    } else if value == 0x09 {
        Some("10000 K")
    } else if value == 0x0A {
        Some("11500 K")
    } else if value == 0x0B {
        Some("User 1")
    } else if value == 0x0C {
        Some("User 2")
    } else if value == 0x0D {
        Some("User 3")
    } else {
        None
    }
}

/// Standard names for color preset values.
pub fn color_preset_name(value: u8) -> (r: Option<&'static str>)
    ensures
        r == preset_label(value),
{
    match value {
        0x01 => Some("sRGB"),
        0x02 => Some("Display Native"),
        0x03 => Some("4000 K"),
        0x04 => Some("5000 K"),
        0x05 => Some("6500 K"),
        0x06 => Some("7500 K"),
        0x07 => Some("8200 K"),
        0x08 => Some("9300 K"),
        0x09 => Some("10000 K"),
        0x0A => Some("11500 K"),
        0x0B => Some("User 1"),
        0x0C => Some("User 2"),
        0x0D => Some("User 3"),
        _ => None,
    }
}

/// The standard name of a screen orientation value.
pub open spec fn orientation_label(value: u8) -> Option<&'static str> {
    if value == 0x01 {
        Some("0° (Landscape)")
    } else if value == 0x02 {
        Some("90°")
    } else if value == 0x03 {
        Some("180°")
    } else if value == 0x04 {
        Some("270°")
    } else if value == 0xFF {
        Some("Not Applicable")
    } else {
        None
    }
}

/// Standard names for screen orientation values.
pub fn orientation_name(value: u8) -> (r: Option<&'static str>)
    ensures
        r == orientation_label(value),
{
    match value {
        0x01 => Some("0° (Landscape)"),
        0x02 => Some("90°"),
        0x03 => Some("180°"),
        0x04 => Some("270°"),
        0xFF => Some("Not Applicable"),
        _ => None,
    }
}

/// The standard name of an OSD language value.
pub open spec fn language_label(value: u8) -> Option<&'static str> {
    if value == 0x01 {
        Some("Chinese (Traditional)")
    } else if value == 0x02 {
        Some("English")
    } else if value == 0x03 {
        Some("French")
    } else if value == 0x04 {
        Some("German")
    } else if value == 0x05 {
        Some("Italian")
    } else if value == 0x06 {
        Some("Japanese")
    } else if value == 0x07 {
        Some("Korean")
    } else if value == 0x08 {
        Some("Portuguese (Portugal)")
    } else if value == 0x09 {
        Some("Russian")
    } else if value == 0x0A {
        Some("Spanish")
    } else if value == 0x0B {
        Some("Swedish")
    } else if value == 0x0C {
        Some("Turkish")
    } else if value == 0x0D {
        Some("Chinese (Simplified)")
    } else if value == 0x0E {
        Some("Portuguese (Brazil)")
    } else if value == 0x0F {
        Some("Arabic")
    } else if value == 0x10 {
        Some("Bulgarian")
    } else if value == 0x11 {
        Some("Croatian")
    } else if value == 0x12 {
        Some("Czech")
    } else if value == 0x13 {
        Some("Danish")
    } else if value == 0x14 {
        Some("Dutch")
    } else if value == 0x15 {
        Some("Finnish")
    } else if value == 0x16 {
        Some("Greek")
    } else if value == 0x17 {
        Some("Hebrew")
    } else if value == 0x18 {
        Some("Hindi")
    } else if value == 0x19 {
        Some("Hungarian")
    } else if value == 0x1A {
        Some("Latvian")
    } else if value == 0x1B {
        Some("Lithuanian")
    } else if value == 0x1C {
        Some("Norwegian")
    } else if value == 0x1D {
        Some("Polish")
    } else if value == 0x1E {
        Some("Romanian")
    } else if value == 0x1F {
        Some("Serbian")
    } else if value == 0x20 {
        Some("Slovak")
    } else if value == 0x21 {
        Some("Slovenian")
    } else if value == 0x22 {
        Some("Thai")
    } else if value == 0x23 {
        Some("Ukrainian")
    } else if value == 0x24 {
        Some("Vietnamese")
    } else {
        None
    }
}

/// Standard names for OSD language values.
pub fn osd_language_name(value: u8) -> (r: Option<&'static str>)
    ensures
        r == language_label(value),
{
    match value {
        0x01 => Some("Chinese (Traditional)"),
        0x02 => Some("English"),
        0x03 => Some("French"),
        0x04 => Some("German"),
        0x05 => Some("Italian"),
        0x06 => Some("Japanese"),
        0x07 => Some("Korean"),
        0x08 => Some("Portuguese (Portugal)"),
        0x09 => Some("Russian"),
        0x0A => Some("Spanish"),
        0x0B => Some("Swedish"),
        0x0C => Some("Turkish"),
        0x0D => Some("Chinese (Simplified)"),
        0x0E => Some("Portuguese (Brazil)"),
        0x0F => Some("Arabic"),
        0x10 => Some("Bulgarian"),
        0x11 => Some("Croatian"),
        0x12 => Some("Czech"),
        0x13 => Some("Danish"),
        0x14 => Some("Dutch"),
        0x15 => Some("Finnish"),
        0x16 => Some("Greek"),
        0x17 => Some("Hebrew"),
        0x18 => Some("Hindi"),
        0x19 => Some("Hungarian"),
        0x1A => Some("Latvian"),
        0x1B => Some("Lithuanian"),
        0x1C => Some("Norwegian"),
        0x1D => Some("Polish"),
        0x1E => Some("Romanian"),
        0x1F => Some("Serbian"),
        0x20 => Some("Slovak"),
        0x21 => Some("Slovenian"),
        0x22 => Some("Thai"),
        0x23 => Some("Ukrainian"),
        0x24 => Some("Vietnamese"),
        _ => None,
    }
}

/// The submenu title of a code that is offered as a picker.
pub open spec fn picker_label(code: u8) -> Option<&'static str> {
    if code == 0x60 {
        Some("Input")
    } else if code == 0x14 {
        Some("Color Preset")
    } else if code == 0xAA {
        Some("Orientation")
    } else if code == 0xCC {
        Some("OSD Language")
    } else {
        None
    }
}

/// Codes that should be offered as an enumerated **picker** (a submenu of
/// choices), with the submenu title.
///
/// Deliberately curated: only enumerated codes whose values have standard names
/// and that a user would want to switch. Power mode is left out (it can blank the
/// screen), as are the restore-factory codes.
pub fn picker_title(code: u8) -> (r: Option<&'static str>)
    ensures
        r == picker_label(code),
{
    match code {
        0x60 => Some("Input"),
        0x14 => Some("Color Preset"),
        0xAA => Some("Orientation"),
        0xCC => Some("OSD Language"),
        _ => None,
    }
}

/// Whether a code is offered as an enumerated picker.
pub fn is_picker(code: u8) -> (b: bool)
    ensures
        b == (picker_label(code) is Some),
{
    picker_title(code).is_some()
}

/// The standard name of one value of a picker code.
pub open spec fn value_label(code: u8, value: u8) -> Option<&'static str> {
    if code == 0x60 {
        input_label(value)
    } else if code == 0x14 {
        preset_label(value)
    } else if code == 0xAA {
        orientation_label(value)
    } else if code == 0xCC {
        language_label(value)
    } else {
        None
    }
}

/// The text shown for one value of a picker code: its standard name, or else
/// the raw value.
pub open spec fn value_text(code: u8, value: u8) -> Seq<char> {
    match value_label(code, value) {
        Some(n) => n@,
        None => hex_key(value),
    }
}

/// Friendly name for one value of an enumerated picker code. Falls back to the
/// raw value for vendor-specific values.
pub fn enum_value_name(code: u8, value: u8) -> (r: String)
    ensures
        r@ == value_text(code, value),
{
    let named = match code {
        0x60 => input_source_name(value),
        0x14 => color_preset_name(value),
        0xAA => orientation_name(value),
        0xCC => osd_language_name(value),
        _ => None,
    };
    match named {
        Some(n) => text::own(n),
        None => write_hex_key(value),
    }
}

/// A code number as `0x` and two upper-case hexadecimal digits.
pub open spec fn hex_key(n: u8) -> Seq<char> {
    "0x"@ + text::hex(n as nat, 2, true)
}

/// Write a code number as `0x` and two upper-case hexadecimal digits.
pub fn write_hex_key(n: u8) -> (r: String)
    ensures
        r@ == hex_key(n),
{
    let mut out = text::own("0x");
    out.append(text::write_hex(n as u64, 2, true).as_str());
    out
}

// ── Parsing ────────────────────────────────────────────────────────────────

/// `s` without hyphens, underscores and spaces.
pub open spec fn unseparated(s: Seq<char>) -> Seq<char>
    decreases s.len(),
{
    if s.len() == 0 {
        s
    } else if s.last() == '-' || s.last() == '_' || s.last() == ' ' {
        unseparated(s.drop_last())
    } else {
        unseparated(s.drop_last()).push(s.last())
    }
}

/// Drop hyphens, underscores and spaces.
fn without_separators(s: &str) -> (r: String)
    ensures
        r@ == unseparated(s@),
{
    let cs = text::chars_of(s);
    let mut out = String::new();
    let mut i: usize = 0;
    while i < cs.len()
        invariant
            i <= cs@.len(),
            out@ == unseparated(cs@.take(i as int)),
        decreases cs@.len() - i,
    {
        let c: char = cs[i];
        assert(cs@.take(i + 1).drop_last() =~= cs@.take(i as int));
        if !(c == '-' || c == '_' || c == ' ') {
            out.push(c);
        }
        i = i + 1;
    }
    assert(cs@.take(i as int) =~= cs@);
    out
}

/// The code that a normalised name stands for.
pub open spec fn code_named(n: Seq<char>) -> Option<VcpCode> {
    if n == "brightness"@ {
        Some(VcpCode::Brightness)
    } else if n == "contrast"@ {
        Some(VcpCode::Contrast)
    } else if n == "volume"@ {
        Some(VcpCode::Volume)
    } else if n == "mute"@ {
        Some(VcpCode::Mute)
    } else if n == "input"@ || n == "inputsource"@ {
        Some(VcpCode::InputSource)
    } else if n == "power"@ || n == "powermode"@ {
        Some(VcpCode::PowerMode)
    } else if n == "red"@ || n == "redgain"@ {
        Some(VcpCode::RedGain)
    } else if n == "green"@ || n == "greengain"@ {
        Some(VcpCode::GreenGain)
    } else if n == "blue"@ || n == "bluegain"@ {
        Some(VcpCode::BlueGain)
    } else if n == "sharpness"@ {
        Some(VcpCode::Sharpness)
    } else if n == "colorpreset"@ {
        Some(VcpCode::ColorPreset)
    } else if n == "osdlanguage"@ {
        Some(VcpCode::OsdLanguage)
    } else if n == "speakerselect"@ {
        Some(VcpCode::SpeakerSelect)
    } else if n == "newcontrolvalue"@ {
        Some(VcpCode::NewControlValue)
    } else {
        None
    }
}

/// The number written in `t`: hexadecimal behind `0x` or `0X`, else decimal.
pub open spec fn numeral(t: Seq<char>, max: nat) -> Option<nat> {
    if t.len() >= 2 && t[0] == '0' && (t[1] == 'x' || t[1] == 'X') {
        text::parsed_number(t.skip(2), 16, max)
    } else {
        text::parsed_number(t, 10, max)
    }
}

/// Read a number: hexadecimal behind `0x` or `0X`, else decimal.
pub fn parse_numeral(t: &str, max: u64) -> (r: Option<u64>)
    requires
        max <= u32::MAX,
    ensures
        match numeral(t@, max as nat) {
            Some(n) => r == Some(n as u64) && n <= max,
            None => r is None,
        },
{
    let cs = text::chars_of(t);
    if cs.len() >= 2 && cs[0] == '0' && (cs[1] == 'x' || cs[1] == 'X') {
        let rest = text::string_from(&cs, 2, cs.len());
        assert(rest@ =~= t@.skip(2));
        text::parse_number(rest.as_str(), 16, max)
    } else {
        text::parse_number(t, 10, max)
    }
}

/// The code that user input names: by name, case and separators aside, or by
/// number.
pub open spec fn code_parsed(s: Seq<char>) -> Option<VcpCode> {
    let t = text::trimmed(s);
    match code_named(unseparated(text::ascii_lowered(t))) {
        Some(c) => Some(c),
        None => match numeral(t, 255) {
            Some(n) => Some(code_of(n as u8)),
            None => None,
        },
    }
}

/// The code that a normalised name stands for.
fn by_name(n: &str) -> (r: Option<VcpCode>)
    ensures
        r == code_named(n@),
{
    if text::same(n, "brightness") {
        Some(VcpCode::Brightness)
    } else if text::same(n, "contrast") {
        Some(VcpCode::Contrast)
    } else if text::same(n, "volume") {
        Some(VcpCode::Volume)
    } else if text::same(n, "mute") {
        Some(VcpCode::Mute)
    } else if text::same(n, "input") || text::same(n, "inputsource") {
        Some(VcpCode::InputSource)
    } else if text::same(n, "power") || text::same(n, "powermode") {
        Some(VcpCode::PowerMode)
    } else if text::same(n, "red") || text::same(n, "redgain") {
        Some(VcpCode::RedGain)
    } else if text::same(n, "green") || text::same(n, "greengain") {
        Some(VcpCode::GreenGain)
    } else if text::same(n, "blue") || text::same(n, "bluegain") {
        Some(VcpCode::BlueGain)
    } else if text::same(n, "sharpness") {
        Some(VcpCode::Sharpness)
    } else if text::same(n, "colorpreset") {
        Some(VcpCode::ColorPreset)
    } else if text::same(n, "osdlanguage") {
        Some(VcpCode::OsdLanguage)
    } else if text::same(n, "speakerselect") {
        Some(VcpCode::SpeakerSelect)
    } else if text::same(n, "newcontrolvalue") {
        Some(VcpCode::NewControlValue)
    } else {
        None
    }
}

/// Parse a code from user input: a name ("brightness") or a number ("0x10",
/// "16").
pub fn parse_code(s: &str) -> (r: Option<VcpCode>)
    ensures
        r == code_parsed(s@),
{
    let t = text::trim(s);
    let normalized = without_separators(text::lower_ascii(t.as_str()).as_str());
    let named = by_name(normalized.as_str());
    if named.is_some() {
        return named;
    }
    match parse_numeral(t.as_str(), 255) {
        Some(n) => Some(VcpCode::from_code(n as u8)),
        None => None,
    }
}

// ── Laws ───────────────────────────────────────────────────────────────────

/// A code keeps its number through decoding and encoding.
pub proof fn law_number_round_trip(n: u8)
    ensures
        code_number(code_of(n)) == n,
{
}

/// A modelled code is never decoded as a raw one, which would lose its name and
/// its value kind.
pub proof fn law_modelled_code_round_trip(c: VcpCode)
    requires
        c !is Raw,
    ensures
        code_of(code_number(c)) == c,
{
}

/// Codes of the manufacturer-specific range get no standard name, and are shown
/// by their number.
pub proof fn law_vendor_codes_stay_unnamed(n: u8)
    requires
        n >= 0xE0,
    ensures
        standard_label(n) is None,
        code_label(code_of(n)) == "VCP "@ + text::hex_number(n as nat),
{
}

/// Input sources above the standard range are never named.
pub proof fn law_vendor_inputs_stay_unnamed(value: u8)
    requires
        value > 0x12,
    ensures
        input_label(value) is None,
        value_text(0x60, value) == hex_key(value),
{
}

/// What is offered as a slider is never destructive and never an enumeration.
pub proof fn law_sliders_are_harmless(code: u8)
    requires
        adjustable(code),
    ensures
        !destructive(code_of(code)),
        code_kind(code_of(code)) != ValueKind::NonContinuous,
        picker_label(code) is None,
{
}

/// No picker blanks the screen by power mode or restores factory settings.
pub proof fn law_pickers_keep_power_and_factory_settings(code: u8)
    requires
        picker_label(code) is Some,
    ensures
        destructive(code_of(code)) ==> code_of(code) == VcpCode::InputSource,
        code_kind(code_of(code)) != ValueKind::Continuous,
{
}

/// What the letters of the standard names tell: the code of each apart from every
/// other, and whether it restores factory settings.
#[verifier::rlimit(30)]
proof fn lemma_standard_labels(a: u8, b: u8)
    requires
        standard_label(a) is Some,
        standard_label(b) is Some,
    ensures
        standard_label(a)->Some_0@ == standard_label(b)->Some_0@ ==> a == b,
        standard_label(a)->Some_0@.len() >= 15 && standard_label(a)->Some_0@.take(15)
            == "Restore Factory"@ ==> destructive(code_of(a)) && destructive(VcpCode::Raw(a)),
{
    reveal_strlit("Degauss");
    reveal_strlit("New Control Value");
    reveal_strlit("Soft Controls");
    reveal_strlit("Restore Factory Defaults");
    reveal_strlit("Restore Factory Luminance/Contrast");
    reveal_strlit("Restore Factory Geometry");
    reveal_strlit("Restore Factory Color");
    reveal_strlit("Restore Factory TV Defaults");
    reveal_strlit("Color Temperature Increment");
    reveal_strlit("Color Temperature Request");
    reveal_strlit("Clock");
    reveal_strlit("Brightness");
    reveal_strlit("Flesh Tone Enhancement");
    reveal_strlit("Contrast");
    reveal_strlit("Backlight Control");
    reveal_strlit("Color Preset");
    reveal_strlit("Red Gain");
    reveal_strlit("User Color Vision Compensation");
    reveal_strlit("Green Gain");
    reveal_strlit("Blue Gain");
    reveal_strlit("Focus");
    reveal_strlit("Auto Setup");
    reveal_strlit("Auto Color Setup");
    reveal_strlit("Horizontal Position");
    reveal_strlit("Horizontal Size");
    reveal_strlit("Vertical Position");
    reveal_strlit("Vertical Size");
    reveal_strlit("Clock Phase");
    reveal_strlit("Active Control");
    reveal_strlit("Performance Preservation");
    reveal_strlit("Horizontal Moiré");
    reveal_strlit("Vertical Moiré");
    reveal_strlit("6-Axis Saturation: Red");
    reveal_strlit("6-Axis Saturation: Yellow");
    reveal_strlit("6-Axis Saturation: Green");
    reveal_strlit("6-Axis Saturation: Cyan");
    reveal_strlit("6-Axis Saturation: Blue");
    reveal_strlit("6-Axis Saturation: Magenta");
    reveal_strlit("Input Source");
    reveal_strlit("Volume");
    reveal_strlit("Speaker Select");
    reveal_strlit("Microphone Volume");
    reveal_strlit("Ambient Light Sensor");
    reveal_strlit("Red Black Level");
    reveal_strlit("Green Black Level");
    reveal_strlit("Blue Black Level");
    reveal_strlit("Gamma");
    reveal_strlit("Adjust Zoom");
    reveal_strlit("Horizontal Mirror");
    reveal_strlit("Vertical Mirror");
    reveal_strlit("Display Scaling");
    reveal_strlit("Sharpness");
    reveal_strlit("Velocity Scan Modulation");
    reveal_strlit("Color Saturation");
    reveal_strlit("TV Channel Up/Down");
    reveal_strlit("TV Sharpness");
    reveal_strlit("Mute / Screen Blank");
    reveal_strlit("TV Contrast");
    reveal_strlit("Audio Treble");
    reveal_strlit("Hue");
    reveal_strlit("Audio Bass");
    reveal_strlit("TV Black Level");
    reveal_strlit("Audio Balance");
    reveal_strlit("6-Axis Hue: Red");
    reveal_strlit("6-Axis Hue: Yellow");
    reveal_strlit("6-Axis Hue: Green");
    reveal_strlit("6-Axis Hue: Cyan");
    reveal_strlit("6-Axis Hue: Blue");
    reveal_strlit("6-Axis Hue: Magenta");
    reveal_strlit("Auto Setup On/Off");
    reveal_strlit("Window Mask Control");
    reveal_strlit("Change Selected Window");
    reveal_strlit("Screen Orientation");
    reveal_strlit("Horizontal Frequency");
    reveal_strlit("Vertical Frequency");
    reveal_strlit("Settings (Store/Restore)");
    reveal_strlit("Flat Panel Sub-Pixel Layout");
    reveal_strlit("Source Timing Mode");
    reveal_strlit("Display Technology Type");
    reveal_strlit("Display Usage Time");
    reveal_strlit("Application Enable Key");
    reveal_strlit("Display Controller Type");
    reveal_strlit("Display Firmware Level");
    reveal_strlit("OSD / Button Control");
    reveal_strlit("OSD Language");
    reveal_strlit("Status Indicators");
    reveal_strlit("Auxiliary Display Size");
    reveal_strlit("Output Select");
    reveal_strlit("Stereo Video Mode");
    reveal_strlit("Power Mode");
    reveal_strlit("Scan Mode");
    reveal_strlit("Image Mode");
    reveal_strlit("Display Mode / Preset");
    reveal_strlit("VCP Version");
    reveal_strlit("Restore Factory");
    let x = standard_label(a)->Some_0@;
    let y = standard_label(b)->Some_0@;
    if x == y {
        assert(x.len() == y.len());
        assert(x[0] == y[0]);
        assert(x[3] == y[3]);
        assert(x[12] == y[12]);
        assert(x[19] == y[19]);
    }
    if x.len() >= 15 && x.take(15) == "Restore Factory"@ {
        assert(x.take(15)[0] == 'R');
        assert(x.take(15)[3] == 't');
    }
}

/// Every code whose standard name says that factory settings are restored is
/// destructive.
pub proof fn law_restoring_factory_settings_is_destructive(n: u8)
    requires
        standard_label(n) matches Some(label) && label@.len() >= 15 && label@.take(15)
            == "Restore Factory"@,
    ensures
        destructive(code_of(n)),
        destructive(VcpCode::Raw(n)),
{
    lemma_standard_labels(n, n);
}

/// The characters of a code number.
pub proof fn lemma_hex_key(n: u8)
    ensures
        hex_key(n) == seq![
            '0',
            'x',
            text::digit_char((n / 16) as nat, true),
            text::digit_char((n % 16) as nat, true),
        ],
{
    reveal_strlit("0x");
    text::lemma_hex_pair(n);
    assert(hex_key(n) =~= seq![
        '0',
        'x',
        text::digit_char((n / 16) as nat, true),
        text::digit_char((n % 16) as nat, true),
    ]);
}

/// Text that starts with a digit and holds no separator is no name.
pub proof fn lemma_digit_starts_no_name(t: Seq<char>)
    requires
        t.len() > 0,
        '0' <= t[0] <= '9',
    ensures
        code_named(t) is None,
{
    reveal_strlit("brightness");
    reveal_strlit("contrast");
    reveal_strlit("volume");
    reveal_strlit("mute");
    reveal_strlit("input");
    reveal_strlit("inputsource");
    reveal_strlit("power");
    reveal_strlit("powermode");
    reveal_strlit("red");
    reveal_strlit("redgain");
    reveal_strlit("green");
    reveal_strlit("greengain");
    reveal_strlit("blue");
    reveal_strlit("bluegain");
    reveal_strlit("sharpness");
    reveal_strlit("colorpreset");
    reveal_strlit("osdlanguage");
    reveal_strlit("speakerselect");
    reveal_strlit("newcontrolvalue");
}

/// The names of codes are all different, so each stands for its own code.
pub proof fn lemma_names_differ()
    ensures
        code_named(seq!['b', 'r', 'i', 'g', 'h', 't', 'n', 'e', 's', 's']) == Some(VcpCode::Brightness),
        code_named(seq!['c', 'o', 'n', 't', 'r', 'a', 's', 't']) == Some(VcpCode::Contrast),
        code_named(seq!['v', 'o', 'l', 'u', 'm', 'e']) == Some(VcpCode::Volume),
        code_named(seq!['m', 'u', 't', 'e']) == Some(VcpCode::Mute),
        code_named(seq!['i', 'n', 'p', 'u', 't', 's', 'o', 'u', 'r', 'c', 'e']) == Some(VcpCode::InputSource),
        code_named(seq!['p', 'o', 'w', 'e', 'r', 'm', 'o', 'd', 'e']) == Some(VcpCode::PowerMode),
        code_named(seq!['r', 'e', 'd', 'g', 'a', 'i', 'n']) == Some(VcpCode::RedGain),
        code_named(seq!['g', 'r', 'e', 'e', 'n', 'g', 'a', 'i', 'n']) == Some(VcpCode::GreenGain),
        code_named(seq!['b', 'l', 'u', 'e', 'g', 'a', 'i', 'n']) == Some(VcpCode::BlueGain),
        code_named(seq!['s', 'h', 'a', 'r', 'p', 'n', 'e', 's', 's']) == Some(VcpCode::Sharpness),
        code_named(seq!['c', 'o', 'l', 'o', 'r', 'p', 'r', 'e', 's', 'e', 't']) == Some(VcpCode::ColorPreset),
        code_named(seq!['o', 's', 'd', 'l', 'a', 'n', 'g', 'u', 'a', 'g', 'e']) == Some(VcpCode::OsdLanguage),
        code_named(seq!['s', 'p', 'e', 'a', 'k', 'e', 'r', 's', 'e', 'l', 'e', 'c', 't']) == Some(VcpCode::SpeakerSelect),
        code_named(seq!['n', 'e', 'w', 'c', 'o', 'n', 't', 'r', 'o', 'l', 'v', 'a', 'l', 'u', 'e']) == Some(VcpCode::NewControlValue),
{
    reveal_strlit("brightness");
    reveal_strlit("contrast");
    reveal_strlit("volume");
    reveal_strlit("mute");
    reveal_strlit("input");
    reveal_strlit("inputsource");
    reveal_strlit("power");
    reveal_strlit("powermode");
    reveal_strlit("red");
    reveal_strlit("redgain");
    reveal_strlit("green");
    reveal_strlit("greengain");
    reveal_strlit("blue");
    reveal_strlit("bluegain");
    reveal_strlit("sharpness");
    reveal_strlit("colorpreset");
    reveal_strlit("osdlanguage");
    reveal_strlit("speakerselect");
    reveal_strlit("newcontrolvalue");
    assert("brightness"@ =~= seq!['b', 'r', 'i', 'g', 'h', 't', 'n', 'e', 's', 's']);
    assert("contrast"@ =~= seq!['c', 'o', 'n', 't', 'r', 'a', 's', 't']);
    assert("volume"@ =~= seq!['v', 'o', 'l', 'u', 'm', 'e']);
    assert("mute"@ =~= seq!['m', 'u', 't', 'e']);
    assert("input"@ =~= seq!['i', 'n', 'p', 'u', 't']);
    assert("inputsource"@ =~= seq!['i', 'n', 'p', 'u', 't', 's', 'o', 'u', 'r', 'c', 'e']);
    assert("power"@ =~= seq!['p', 'o', 'w', 'e', 'r']);
    assert("powermode"@ =~= seq!['p', 'o', 'w', 'e', 'r', 'm', 'o', 'd', 'e']);
    assert("red"@ =~= seq!['r', 'e', 'd']);
    assert("redgain"@ =~= seq!['r', 'e', 'd', 'g', 'a', 'i', 'n']);
    assert("green"@ =~= seq!['g', 'r', 'e', 'e', 'n']);
    assert("greengain"@ =~= seq!['g', 'r', 'e', 'e', 'n', 'g', 'a', 'i', 'n']);
    assert("blue"@ =~= seq!['b', 'l', 'u', 'e']);
    assert("bluegain"@ =~= seq!['b', 'l', 'u', 'e', 'g', 'a', 'i', 'n']);
    assert("sharpness"@ =~= seq!['s', 'h', 'a', 'r', 'p', 'n', 'e', 's', 's']);
    assert("colorpreset"@ =~= seq!['c', 'o', 'l', 'o', 'r', 'p', 'r', 'e', 's', 'e', 't']);
    assert("osdlanguage"@ =~= seq!['o', 's', 'd', 'l', 'a', 'n', 'g', 'u', 'a', 'g', 'e']);
    assert("speakerselect"@ =~= seq!['s', 'p', 'e', 'a', 'k', 'e', 'r', 's', 'e', 'l', 'e', 'c', 't']);
    assert("newcontrolvalue"@ =~= seq!['n', 'e', 'w', 'c', 'o', 'n', 't', 'r', 'o', 'l', 'v', 'a', 'l', 'u', 'e']);
    assert("brightness"@.len() == 10 && "brightness"@[0] == 'b');
    assert("contrast"@.len() == 8 && "contrast"@[0] == 'c');
    assert("volume"@.len() == 6 && "volume"@[0] == 'v');
    assert("mute"@.len() == 4 && "mute"@[0] == 'm');
    assert("input"@.len() == 5 && "input"@[0] == 'i');
    assert("inputsource"@.len() == 11 && "inputsource"@[0] == 'i');
    assert("power"@.len() == 5 && "power"@[0] == 'p');
    assert("powermode"@.len() == 9 && "powermode"@[0] == 'p');
    assert("red"@.len() == 3 && "red"@[0] == 'r');
    assert("redgain"@.len() == 7 && "redgain"@[0] == 'r');
    assert("green"@.len() == 5 && "green"@[0] == 'g');
    assert("greengain"@.len() == 9 && "greengain"@[0] == 'g');
    assert("blue"@.len() == 4 && "blue"@[0] == 'b');
    assert("bluegain"@.len() == 8 && "bluegain"@[0] == 'b');
    assert("sharpness"@.len() == 9 && "sharpness"@[0] == 's');
    assert("colorpreset"@.len() == 11 && "colorpreset"@[0] == 'c');
    assert("osdlanguage"@.len() == 11 && "osdlanguage"@[0] == 'o');
    assert("speakerselect"@.len() == 13 && "speakerselect"@[0] == 's');
    assert("newcontrolvalue"@.len() == 15 && "newcontrolvalue"@[0] == 'n');
}

/// Separators stay out of text that has none.
pub proof fn lemma_unseparated_of_plain(s: Seq<char>)
    requires
        forall|i: int| 0 <= i < s.len() ==> s[i] != '-' && s[i] != '_' && s[i] != ' ',
    ensures
        unseparated(s) == s,
    decreases s.len(),
{
    if s.len() > 0 {
        lemma_unseparated_of_plain(s.drop_last());
        assert(s.drop_last().push(s.last()) =~= s);
    }
}

/// Every code number, written in hexadecimal, is read back as its code.
pub proof fn law_hex_key_reads_back(n: u8)
    ensures
        code_parsed(hex_key(n)) == Some(code_of(n)),
{
    lemma_hex_key(n);
    let t = hex_key(n);
    text::lemma_trimmed_of_tight(t);
    let low = text::ascii_lowered(t);
    lemma_unseparated_of_plain(low);
    lemma_digit_starts_no_name(low);
    let body = t.skip(2);
    reveal_with_fuel(text::number_value, 3);
    assert(body.drop_last().drop_last() =~= Seq::empty());
    assert(text::number_value(body, 16) == (n / 16) * 16 + n % 16);
    assert(text::is_number(body, 16));
}

/// No two codes share a standard name.
pub proof fn law_standard_names_are_distinct(a: u8, b: u8)
    requires
        standard_label(a) is Some,
        standard_label(b) is Some,
        a != b,
    ensures
        standard_label(a)->Some_0@ != standard_label(b)->Some_0@,
{
    lemma_standard_labels(a, b);
}

/// No two values share an OSD language name.
pub proof fn law_language_names_are_distinct(a: u8, b: u8)
    requires
        language_label(a) is Some,
        language_label(b) is Some,
        a != b,
    ensures
        language_label(a)->Some_0@ != language_label(b)->Some_0@,
{
    reveal_strlit("Chinese (Traditional)");
    reveal_strlit("English");
    reveal_strlit("French");
    reveal_strlit("German");
    reveal_strlit("Italian");
    reveal_strlit("Japanese");
    reveal_strlit("Korean");
    reveal_strlit("Portuguese (Portugal)");
    reveal_strlit("Russian");
    reveal_strlit("Spanish");
    reveal_strlit("Swedish");
    reveal_strlit("Turkish");
    reveal_strlit("Chinese (Simplified)");
    reveal_strlit("Portuguese (Brazil)");
    reveal_strlit("Arabic");
    reveal_strlit("Bulgarian");
    reveal_strlit("Croatian");
    reveal_strlit("Czech");
    reveal_strlit("Danish");
    reveal_strlit("Dutch");
    reveal_strlit("Finnish");
    reveal_strlit("Greek");
    reveal_strlit("Hebrew");
    reveal_strlit("Hindi");
    reveal_strlit("Hungarian");
    reveal_strlit("Latvian");
    reveal_strlit("Lithuanian");
    reveal_strlit("Norwegian");
    reveal_strlit("Polish");
    reveal_strlit("Romanian");
    reveal_strlit("Serbian");
    reveal_strlit("Slovak");
    reveal_strlit("Slovenian");
    reveal_strlit("Thai");
    reveal_strlit("Ukrainian");
    reveal_strlit("Vietnamese");
    let x = language_label(a)->Some_0@;
    let y = language_label(b)->Some_0@;
    if x == y {
        assert(x.len() == y.len());
        assert(x[0] == y[0]);
        assert(x[1] == y[1]);
    }
}

/// A name, however its letters are cased and whatever hyphens, underscores and spaces
/// it holds, stands for the code of its number. Nothing else than a name and a
/// number of at most a byte stands for any.
pub proof fn law_names_stand_for_their_numbers(s: Seq<char>)
    ensures
        ({
            let plain = unseparated(text::ascii_lowered(text::trimmed(s)));
            let n = match code_parsed(s) {
                Some(c) => code_number(c) as int,
                None => -1,
            };
            &&& plain == "brightness"@ ==> n == 0x10
            &&& plain == "contrast"@ ==> n == 0x12
            &&& plain == "volume"@ ==> n == 0x62
            &&& plain == "mute"@ ==> n == 0x8D
            &&& plain == "input"@ || plain == "inputsource"@ ==> n == 0x60
            &&& plain == "power"@ || plain == "powermode"@ ==> n == 0xD6
            &&& plain == "red"@ || plain == "redgain"@ ==> n == 0x16
            &&& plain == "green"@ || plain == "greengain"@ ==> n == 0x18
            &&& plain == "blue"@ || plain == "bluegain"@ ==> n == 0x1A
            &&& plain == "sharpness"@ ==> n == 0x87
            &&& plain == "colorpreset"@ ==> n == 0x14
            &&& plain == "osdlanguage"@ ==> n == 0xCC
            &&& plain == "speakerselect"@ ==> n == 0x63
            &&& plain == "newcontrolvalue"@ ==> n == 0x02
            &&& code_named(plain) is None ==> match numeral(text::trimmed(s), 255) {
                Some(m) => n == m && m <= 255,
                None => n == -1,
            }
        }),
{
    reveal_strlit("brightness");
    reveal_strlit("contrast");
    reveal_strlit("volume");
    reveal_strlit("mute");
    reveal_strlit("input");
    reveal_strlit("inputsource");
    reveal_strlit("power");
    reveal_strlit("powermode");
    reveal_strlit("red");
    reveal_strlit("redgain");
    reveal_strlit("green");
    reveal_strlit("greengain");
    reveal_strlit("blue");
    reveal_strlit("bluegain");
    reveal_strlit("sharpness");
    reveal_strlit("colorpreset");
    reveal_strlit("osdlanguage");
    reveal_strlit("speakerselect");
    reveal_strlit("newcontrolvalue");
    let plain = unseparated(text::ascii_lowered(text::trimmed(s)));
    lemma_names_are_apart(plain);
    if let Some(m) = numeral(text::trimmed(s), 255) {
        law_number_round_trip(m as u8);
    }
}

/// The names of codes can be told apart by their letters.
proof fn lemma_names_are_apart(plain: Seq<char>)
    ensures
        plain == "brightness"@ ==> code_named(plain) == Some(VcpCode::Brightness),
        plain == "contrast"@ ==> code_named(plain) == Some(VcpCode::Contrast),
        plain == "volume"@ ==> code_named(plain) == Some(VcpCode::Volume),
        plain == "mute"@ ==> code_named(plain) == Some(VcpCode::Mute),
        plain == "input"@ ==> code_named(plain) == Some(VcpCode::InputSource),
        plain == "inputsource"@ ==> code_named(plain) == Some(VcpCode::InputSource),
        plain == "power"@ ==> code_named(plain) == Some(VcpCode::PowerMode),
        plain == "powermode"@ ==> code_named(plain) == Some(VcpCode::PowerMode),
        plain == "red"@ ==> code_named(plain) == Some(VcpCode::RedGain),
        plain == "redgain"@ ==> code_named(plain) == Some(VcpCode::RedGain),
        plain == "green"@ ==> code_named(plain) == Some(VcpCode::GreenGain),
        plain == "greengain"@ ==> code_named(plain) == Some(VcpCode::GreenGain),
        plain == "blue"@ ==> code_named(plain) == Some(VcpCode::BlueGain),
        plain == "bluegain"@ ==> code_named(plain) == Some(VcpCode::BlueGain),
        plain == "sharpness"@ ==> code_named(plain) == Some(VcpCode::Sharpness),
        plain == "colorpreset"@ ==> code_named(plain) == Some(VcpCode::ColorPreset),
        plain == "osdlanguage"@ ==> code_named(plain) == Some(VcpCode::OsdLanguage),
        plain == "speakerselect"@ ==> code_named(plain) == Some(VcpCode::SpeakerSelect),
        plain == "newcontrolvalue"@ ==> code_named(plain) == Some(VcpCode::NewControlValue),
{
    reveal_strlit("brightness");
    reveal_strlit("contrast");
    reveal_strlit("volume");
    reveal_strlit("mute");
    reveal_strlit("input");
    reveal_strlit("inputsource");
    reveal_strlit("power");
    reveal_strlit("powermode");
    reveal_strlit("red");
    reveal_strlit("redgain");
    reveal_strlit("green");
    reveal_strlit("greengain");
    reveal_strlit("blue");
    reveal_strlit("bluegain");
    reveal_strlit("sharpness");
    reveal_strlit("colorpreset");
    reveal_strlit("osdlanguage");
    reveal_strlit("speakerselect");
    reveal_strlit("newcontrolvalue");
    assert("brightness"@.len() == 10);
    assert("contrast"@.len() == 8);
    assert("volume"@.len() == 6);
    assert("mute"@.len() == 4);
    assert("input"@.len() == 5);
    assert("inputsource"@.len() == 11);
    assert("power"@.len() == 5);
    assert("powermode"@.len() == 9);
    assert("red"@.len() == 3);
    assert("redgain"@.len() == 7);
    assert("green"@.len() == 5);
    assert("greengain"@.len() == 9);
    assert("blue"@.len() == 4);
    assert("bluegain"@.len() == 8);
    assert("sharpness"@.len() == 9);
    assert("colorpreset"@.len() == 11);
    assert("osdlanguage"@.len() == 11);
    assert("speakerselect"@.len() == 13);
    assert("newcontrolvalue"@.len() == 15);
    assert("brightness"@[0] == 'b' && "brightness"@[2] == 'i');
    assert("contrast"@[0] == 'c' && "contrast"@[2] == 'n');
    assert("volume"@[0] == 'v' && "volume"@[2] == 'l');
    assert("mute"@[0] == 'm' && "mute"@[2] == 't');
    assert("input"@[0] == 'i' && "input"@[2] == 'p');
    assert("inputsource"@[0] == 'i' && "inputsource"@[2] == 'p');
    assert("power"@[0] == 'p' && "power"@[2] == 'w');
    assert("powermode"@[0] == 'p' && "powermode"@[2] == 'w');
    assert("red"@[0] == 'r' && "red"@[2] == 'd');
    assert("redgain"@[0] == 'r' && "redgain"@[2] == 'd');
    assert("green"@[0] == 'g' && "green"@[2] == 'e');
    assert("greengain"@[0] == 'g' && "greengain"@[2] == 'e');
    assert("blue"@[0] == 'b' && "blue"@[2] == 'u');
    assert("bluegain"@[0] == 'b' && "bluegain"@[2] == 'u');
    assert("sharpness"@[0] == 's' && "sharpness"@[2] == 'a');
    assert("colorpreset"@[0] == 'c' && "colorpreset"@[2] == 'l');
    assert("osdlanguage"@[0] == 'o' && "osdlanguage"@[2] == 'd');
    assert("speakerselect"@[0] == 's' && "speakerselect"@[2] == 'e');
    assert("newcontrolvalue"@[0] == 'n' && "newcontrolvalue"@[2] == 'w');
}

/// A modelled code goes by the name that the standard gives its number, a little
/// shortened for two of them.
pub proof fn law_modelled_codes_have_their_standard_names(c: VcpCode)
    requires
        c !is Raw,
    ensures
        standard_label(code_number(c)) is Some,
        c != VcpCode::Mute && c != VcpCode::RestoreFactoryLuminance ==> code_name(c)@
            == standard_label(code_number(c))->Some_0@,
        c == VcpCode::Mute ==> standard_label(code_number(c))->Some_0@ == "Mute / Screen Blank"@,
        c == VcpCode::RestoreFactoryLuminance ==> standard_label(code_number(c))->Some_0@
            == "Restore Factory Luminance/Contrast"@,
        code_label(c) == code_name(c)@,
        code_label(VcpCode::Raw(code_number(c))) == standard_label(code_number(c))->Some_0@,
{
}

/// The numbers of the codes that programs speak of are those of the standard, and no
/// two codes share one.
pub proof fn law_codes_have_their_standard_numbers(c: VcpCode, d: VcpCode)
    ensures
        code_number(VcpCode::NewControlValue) == 0x02,
        code_number(VcpCode::RestoreFactoryDefaults) == 0x04,
        code_number(VcpCode::RestoreFactoryLuminance) == 0x05,
        code_number(VcpCode::RestoreFactoryColor) == 0x08,
        code_number(VcpCode::Brightness) == 0x10,
        code_number(VcpCode::Contrast) == 0x12,
        code_number(VcpCode::ColorPreset) == 0x14,
        code_number(VcpCode::RedGain) == 0x16,
        code_number(VcpCode::GreenGain) == 0x18,
        code_number(VcpCode::BlueGain) == 0x1A,
        code_number(VcpCode::InputSource) == 0x60,
        code_number(VcpCode::Volume) == 0x62,
        code_number(VcpCode::SpeakerSelect) == 0x63,
        code_number(VcpCode::Sharpness) == 0x87,
        code_number(VcpCode::Mute) == 0x8D,
        code_number(VcpCode::OsdLanguage) == 0xCC,
        code_number(VcpCode::PowerMode) == 0xD6,
        c !is Raw && d !is Raw && code_number(c) == code_number(d) ==> c == d,
{
}

/// A range is what a slider can move: the modelled codes whose values form one are
/// adjustable, the enumerated ones are not, and of a code that goes by its number
/// alone neither is known.
pub proof fn law_ranges_are_adjustable(c: VcpCode)
    ensures
        c !is Raw ==> (code_kind(c) == ValueKind::Continuous) == adjustable(code_number(c)),
        c !is Raw ==> (code_kind(c) == ValueKind::NonContinuous) == !adjustable(code_number(c)),
        c is Raw ==> code_kind(c) == ValueKind::Unknown,
{
}

/// Destructive are the five numbers that restore factory settings, the input source
/// and the power mode, by name or by number, and nothing else is.
pub proof fn law_destructive_codes_are_seven(c: VcpCode)
    ensures
        destructive(c) == (code_number(c) == 0x04 || code_number(c) == 0x05 || code_number(c) == 0x06
            || code_number(c) == 0x08 || code_number(c) == 0x0A || code_number(c) == 0x60
            || code_number(c) == 0xD6),
        destructive(code_of(code_number(c))) == destructive(c),
{
}

/// A number is read as what it is written as: in decimal, or behind `0x` in
/// hexadecimal, up to a limit.
pub proof fn law_numbers_are_read(n: nat, max: nat)
    ensures
        numeral(text::decimal(n), max) == (if n <= max {
            Some(n)
        } else {
            None
        }),
{
    text::lemma_decimal_reads_back(n);
    let t = text::decimal(n);
    assert('0' <= t[0] <= '9');
    if t.len() >= 2 {
        assert('0' <= t[1] <= '9');
    }
}

/// The values of a code that is picked from are shown by their standard names, the
/// input sources, color presets, orientations and languages each by their own, and
/// by their number where they have none.
pub proof fn law_values_go_by_their_standard_names(value: u8)
    ensures
        value_text(0x60, value) == (match input_label(value) {
            Some(n) => n@,
            None => "0x"@ + text::hex(value as nat, 2, true),
        }),
        value_text(0x14, value) == (match preset_label(value) {
            Some(n) => n@,
            None => "0x"@ + text::hex(value as nat, 2, true),
        }),
        value_text(0xAA, value) == (match orientation_label(value) {
            Some(n) => n@,
            None => "0x"@ + text::hex(value as nat, 2, true),
        }),
        value_text(0xCC, value) == (match language_label(value) {
            Some(n) => n@,
            None => "0x"@ + text::hex(value as nat, 2, true),
        }),
        value_text(0x60, 0x01) == "VGA-1"@,
        value_text(0x60, 0x02) == "VGA-2"@,
        value_text(0x60, 0x03) == "DVI-1"@,
        value_text(0x60, 0x04) == "DVI-2"@,
        value_text(0x60, 0x05) == "Composite-1"@,
        value_text(0x60, 0x06) == "Composite-2"@,
        value_text(0x60, 0x07) == "S-Video-1"@,
        value_text(0x60, 0x08) == "S-Video-2"@,
        value_text(0x60, 0x09) == "Tuner-1"@,
        value_text(0x60, 0x0A) == "Tuner-2"@,
        value_text(0x60, 0x0B) == "Tuner-3"@,
        value_text(0x60, 0x0C) == "Component-1"@,
        value_text(0x60, 0x0D) == "Component-2"@,
        value_text(0x60, 0x0E) == "Component-3"@,
        value_text(0x60, 0x0F) == "DisplayPort-1"@,
        value_text(0x60, 0x10) == "DisplayPort-2"@,
        value_text(0x60, 0x11) == "HDMI-1"@,
        value_text(0x60, 0x12) == "HDMI-2"@,
        value_text(0x14, 0x01) == "sRGB"@,
        value_text(0x14, 0x02) == "Display Native"@,
        value_text(0x14, 0x03) == "4000 K"@,
        value_text(0x14, 0x04) == "5000 K"@,
        value_text(0x14, 0x05) == "6500 K"@,
        value_text(0x14, 0x06) == "7500 K"@,
        value_text(0x14, 0x07) == "8200 K"@,
        value_text(0x14, 0x08) == "9300 K"@,
        value_text(0x14, 0x09) == "10000 K"@,
        value_text(0x14, 0x0A) == "11500 K"@,
        value_text(0x14, 0x0B) == "User 1"@,
        value_text(0x14, 0x0C) == "User 2"@,
        value_text(0x14, 0x0D) == "User 3"@,
        picker_label(0x60) == Some("Input"),
        picker_label(0x14) == Some("Color Preset"),
        picker_label(0xAA) == Some("Orientation"),
        picker_label(0xCC) == Some("OSD Language"),
        picker_label(value) is Some ==> value == 0x60 || value == 0x14 || value == 0xAA || value
            == 0xCC,
{
}

/// Orientations and languages go by their standard names, and by none outside the standard.
/// So do inputs and color presets.
pub proof fn law_which_values_have_names(value: u8)
    ensures
        value == 0x01 ==> orientation_label(value) == Some("0° (Landscape)"),
        value == 0x02 ==> orientation_label(value) == Some("90°"),
        value == 0x03 ==> orientation_label(value) == Some("180°"),
        value == 0x04 ==> orientation_label(value) == Some("270°"),
        value == 0xFF ==> orientation_label(value) == Some("Not Applicable"),
        value == 0x01 ==> language_label(value) == Some("Chinese (Traditional)"),
        value == 0x02 ==> language_label(value) == Some("English"),
        value == 0x03 ==> language_label(value) == Some("French"),
        value == 0x04 ==> language_label(value) == Some("German"),
        value == 0x05 ==> language_label(value) == Some("Italian"),
        value == 0x06 ==> language_label(value) == Some("Japanese"),
        value == 0x07 ==> language_label(value) == Some("Korean"),
        value == 0x08 ==> language_label(value) == Some("Portuguese (Portugal)"),
        value == 0x09 ==> language_label(value) == Some("Russian"),
        value == 0x0A ==> language_label(value) == Some("Spanish"),
        value == 0x0B ==> language_label(value) == Some("Swedish"),
        value == 0x0C ==> language_label(value) == Some("Turkish"),
        value == 0x0D ==> language_label(value) == Some("Chinese (Simplified)"),
        value == 0x0E ==> language_label(value) == Some("Portuguese (Brazil)"),
        value == 0x0F ==> language_label(value) == Some("Arabic"),
        value == 0x10 ==> language_label(value) == Some("Bulgarian"),
        value == 0x11 ==> language_label(value) == Some("Croatian"),
        value == 0x12 ==> language_label(value) == Some("Czech"),
        value == 0x13 ==> language_label(value) == Some("Danish"),
        value == 0x14 ==> language_label(value) == Some("Dutch"),
        value == 0x15 ==> language_label(value) == Some("Finnish"),
        value == 0x16 ==> language_label(value) == Some("Greek"),
        value == 0x17 ==> language_label(value) == Some("Hebrew"),
        value == 0x18 ==> language_label(value) == Some("Hindi"),
        value == 0x19 ==> language_label(value) == Some("Hungarian"),
        value == 0x1A ==> language_label(value) == Some("Latvian"),
        value == 0x1B ==> language_label(value) == Some("Lithuanian"),
        value == 0x1C ==> language_label(value) == Some("Norwegian"),
        value == 0x1D ==> language_label(value) == Some("Polish"),
        value == 0x1E ==> language_label(value) == Some("Romanian"),
        value == 0x1F ==> language_label(value) == Some("Serbian"),
        value == 0x20 ==> language_label(value) == Some("Slovak"),
        value == 0x21 ==> language_label(value) == Some("Slovenian"),
        value == 0x22 ==> language_label(value) == Some("Thai"),
        value == 0x23 ==> language_label(value) == Some("Ukrainian"),
        value == 0x24 ==> language_label(value) == Some("Vietnamese"),
        orientation_label(value) is Some <==> 1 <= value <= 4 || value == 255,
        language_label(value) is Some <==> 1 <= value <= 36,
        input_label(value) is Some <==> 1 <= value <= 18,
        preset_label(value) is Some <==> 1 <= value <= 13,
{
}

/// A value of any other code goes by its number.
pub proof fn law_other_values_go_by_their_number(code: u8, value: u8)
    ensures
        code != 0x60 && code != 0x14 && code != 0xAA && code != 0xCC ==> value_text(code, value)
            == "0x"@ + text::hex(value as nat, 2, true),
{
}

} // verus!
