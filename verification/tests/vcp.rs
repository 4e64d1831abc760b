//! VCP codes: numbers, names and what user input stands for.

use display_studio::ddc::vcp::{
    input_source_name, osd_language_name, parse_code, standard_name, VcpCode,
};

#[test]
fn code_roundtrips_through_from_code() {
    for c in 0u8..=255 {
        assert_eq!(
            VcpCode::from_code(c).code(),
            c,
            "roundtrip failed for {c:#04x}"
        );
    }
}

/// A known code must never fall through to Raw, or it would print as
/// "Unknown" and lose its value kind.
#[test]
fn known_codes_do_not_decode_as_raw() {
    for c in [
        0x10, 0x12, 0x14, 0x16, 0x18, 0x1A, 0x60, 0x62, 0x63, 0x87, 0x8D, 0xCC, 0xD6,
    ] {
        assert!(
            !matches!(VcpCode::from_code(c), VcpCode::Raw(_)),
            "{c:#04x} decoded as Raw"
        );
    }
}

/// Unknown codes must render as their number, not "Unknown".
#[test]
fn raw_codes_display_as_their_number() {
    assert_eq!(VcpCode::Raw(0xE1).display_name(), "VCP 0xe1");
    assert_eq!(VcpCode::Brightness.display_name(), "Brightness");
}

#[test]
fn input_and_power_are_flagged_destructive() {
    assert!(VcpCode::InputSource.is_destructive());
    assert!(VcpCode::PowerMode.is_destructive());
    assert!(!VcpCode::Brightness.is_destructive());
}

/// Vendor-specific inputs must stay unnamed rather than be guessed at.
/// Observed on the dev bench: MB169CK advertises 0x1A and 0x1B.
#[test]
fn input_sources_above_the_standard_range_are_not_named() {
    assert_eq!(input_source_name(0x11), Some("HDMI-1"));
    assert_eq!(input_source_name(0x12), Some("HDMI-2"));
    for v in 0x13..=0xFF {
        assert_eq!(input_source_name(v), None, "{v:#04x} must not be named");
    }
}

#[test]
fn parses_names_and_numbers() {
    assert_eq!(parse_code("brightness"), Some(VcpCode::Brightness));
    assert_eq!(parse_code("Input-Source"), Some(VcpCode::InputSource));
    assert_eq!(parse_code("0x10"), Some(VcpCode::Brightness));
    assert_eq!(parse_code("16"), Some(VcpCode::Brightness));
    assert_eq!(parse_code("0xE1"), Some(VcpCode::Raw(0xE1)));
    assert_eq!(parse_code("nonsense"), None);
    assert_eq!(parse_code("999"), None);
}

#[test]
fn restoring_factory_settings_is_destructive() {
    for c in 0u8..=255 {
        let restores = standard_name(c).map_or(false, |n| n.starts_with("Restore Factory"));
        let expected = restores || c == 0x60 || c == 0xD6;
        assert_eq!(VcpCode::from_code(c).is_destructive(), expected, "{c:#04x}");
        assert_eq!(VcpCode::Raw(c).is_destructive(), expected, "{c:#04x}");
    }
    assert!(VcpCode::from_code(0x06).is_destructive());
    assert!(VcpCode::from_code(0x0A).is_destructive());
}

#[test]
fn names_in_profiles_are_understood() {
    assert_eq!(parse_code("color-preset"), Some(VcpCode::ColorPreset));
    assert_eq!(parse_code("osd-language"), Some(VcpCode::OsdLanguage));
    assert_eq!(parse_code("speaker-select"), Some(VcpCode::SpeakerSelect));
    assert_eq!(parse_code("new-control-value"), Some(VcpCode::NewControlValue));
}

#[test]
fn no_name_stands_for_two_numbers() {
    for a in 0u8..=255 {
        for b in 0..a {
            if let (Some(x), Some(y)) = (standard_name(a), standard_name(b)) {
                assert_ne!(x, y, "{a:#04x} and {b:#04x}");
            }
            if let (Some(x), Some(y)) = (osd_language_name(a), osd_language_name(b)) {
                assert_ne!(x, y, "{a:#04x} and {b:#04x}");
            }
        }
    }
    assert_eq!(standard_name(0x10), Some("Brightness"));
    assert_eq!(osd_language_name(0x02), Some("English"));
}
