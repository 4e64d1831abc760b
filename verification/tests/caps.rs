//! Capability strings, well-formed and otherwise.

use display_studio::ddc::caps::parse;
use display_studio::ddc::vcp::VcpCode;

const REAL: &str = "(prot(monitor)type(lcd)model(MB169CK)cmds(01 02 03 07 0C E3 F3)vcp(02 04 08 10 12 14(05 08 0B) 16 18 1A 60(0F 11 1B) AC AE B6 C6 C8 CC(02 03) DF)mccs_ver(2.1))";

#[test]
fn parses_a_realistic_string() {
    let c = parse(REAL).unwrap();
    assert_eq!(c.protocol.as_deref(), Some("monitor"));
    assert_eq!(c.display_type.as_deref(), Some("lcd"));
    assert_eq!(c.model.as_deref(), Some("MB169CK"));
    assert_eq!(c.mccs_version.as_deref(), Some("2.1"));
    assert_eq!(c.commands, vec![0x01, 0x02, 0x03, 0x07, 0x0C, 0xE3, 0xF3]);
    assert!(c.supports(VcpCode::Brightness));
    assert!(c.supports(VcpCode::Contrast));
    assert!(c.supports(VcpCode::InputSource));
    assert!(!c.supports(VcpCode::Volume));
}

#[test]
fn attaches_value_lists_to_the_right_code() {
    let c = parse(REAL).unwrap();
    let input = c.feature(VcpCode::InputSource).unwrap();
    assert_eq!(input.values, vec![0x0F, 0x11, 0x1B]);
    // Brightness is continuous: no value list, and it must not inherit the
    // list belonging to a neighbouring code.
    assert!(c.feature(VcpCode::Brightness).unwrap().values.is_empty());
}

#[test]
fn value_list_does_not_leak_to_following_code() {
    let c = parse("(vcp(14(05 08) 16))").unwrap();
    assert_eq!(c.feature(VcpCode::ColorPreset).unwrap().values, vec![5, 8]);
    assert!(c.feature(VcpCode::RedGain).unwrap().values.is_empty());
}

#[test]
fn tolerates_missing_outer_parens() {
    let c = parse("prot(monitor)vcp(10 12)").unwrap();
    assert!(c.supports(VcpCode::Brightness));
}

/// Truncated mid-string: earlier sections must survive.
#[test]
fn tolerates_unbalanced_parens() {
    let c = parse("(prot(monitor)type(lcd)vcp(10 12").unwrap();
    assert_eq!(c.protocol.as_deref(), Some("monitor"));
    assert!(c.supports(VcpCode::Brightness));
}

#[test]
fn tolerates_junk_tokens_in_vcp_list() {
    let c = parse("(vcp(10 ZZ 12 !! 60))").unwrap();
    assert!(c.supports(VcpCode::Brightness));
    assert!(c.supports(VcpCode::Contrast));
    assert!(c.supports(VcpCode::InputSource));
}

#[test]
fn collects_unknown_sections_rather_than_dropping_them() {
    let c = parse("(prot(monitor)vcp(10)asciicode(42)vendorthing(x))").unwrap();
    assert!(c.unknown_sections.contains(&"asciicode".to_string()));
    assert!(c.unknown_sections.contains(&"vendorthing".to_string()));
}

#[test]
fn extra_whitespace_is_harmless() {
    let c = parse("(  vcp( 10   12  )  )").unwrap();
    assert_eq!(c.vcp.len(), 2);
}

#[test]
fn rejects_a_string_with_nothing_recoverable() {
    assert!(parse("garbage without sections").is_err());
    assert!(parse("").is_err());
}

/// Must terminate and not panic on adversarial input.
#[test]
fn does_not_hang_or_panic_on_pathological_input() {
    assert!(parse(&"(".repeat(500)).is_err());
    let _ = parse(&")".repeat(500));
    let _ = parse(&"(vcp(".repeat(200));
    let _ = parse("(vcp(10(((((");
}

/// A list behind a word that is no code belongs to nobody.
#[test]
fn stray_value_lists_are_dropped() {
    for raw in ["(vcp(10 ZZ(05 08) 12))", "(vcp(10 ZZ (05 08) 12))"] {
        let c = parse(raw).unwrap();
        let codes: Vec<VcpCode> = c.vcp.iter().map(|f| f.code).collect();
        assert_eq!(codes, vec![VcpCode::Brightness, VcpCode::Contrast]);
        assert!(c.feature(VcpCode::Brightness).unwrap().values.is_empty());
        assert!(c.feature(VcpCode::Contrast).unwrap().values.is_empty());
    }
    let c = parse("(vcp(14 (05 08) 16))").unwrap();
    assert_eq!(c.feature(VcpCode::ColorPreset).unwrap().values, vec![5, 8]);
}

#[test]
fn any_recognised_section_is_worth_keeping() {
    let c = parse("(type(lcd)cmds(01 02)mccs_ver(2.1))").unwrap();
    assert_eq!(c.display_type.as_deref(), Some("lcd"));
    assert_eq!(c.commands, vec![0x01, 0x02]);
    assert_eq!(c.mccs_version.as_deref(), Some("2.1"));
    assert!(parse("(cmds(01))").is_ok());
    assert!(parse("(mccs_ver(2.2))").is_ok());
    assert!(parse("(cmds(zz)vcp())").is_err());
}
