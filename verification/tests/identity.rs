//! What tells displays apart.

use display_studio::model::DisplayIdentity;

fn ident(serial: i64) -> DisplayIdentity {
    DisplayIdentity {
        vendor: "AUS".into(),
        product_name: "MB169CK".into(),
        serial,
        location: "/IOService/foo@1".into(),
        ..Default::default()
    }
}

#[test]
fn observed_placeholder_serial_is_not_trusted() {
    // Value read from real hardware.
    assert_eq!(16843009, 0x0101_0101);
    assert!(!ident(16843009).has_trustworthy_serial());
}

#[test]
fn zero_and_repeated_byte_serials_are_not_trusted() {
    assert!(!ident(0).has_trustworthy_serial());
    assert!(!ident(0x0202_0202).has_trustworthy_serial());
    assert!(!ident(0xFFFF_FFFFu32 as i64).has_trustworthy_serial());
}

#[test]
fn genuine_serial_is_trusted() {
    assert!(ident(0x1A2B_3C4D).has_trustworthy_serial());
}

#[test]
fn untrustworthy_serial_falls_back_to_location_not_serial() {
    let key = ident(16843009).settings_key();
    assert!(
        key.contains("loc:"),
        "expected location fallback, got {key}"
    );
    assert!(!key.contains("16843009"));
}

/// Two identical units on different ports must not collide.
#[test]
fn placeholder_serial_units_are_distinguished_by_port() {
    let mut a = ident(16843009);
    let mut b = ident(16843009);
    a.location = "/IOService/port@1".into();
    b.location = "/IOService/port@2".into();
    assert_ne!(a.settings_key(), b.settings_key());
}

#[test]
fn alphanumeric_serial_preferred_over_location() {
    let mut d = ident(16843009);
    d.alphanumeric_serial = "R3LMTF001234".into();
    assert!(d.settings_key().contains("alnum:R3LMTF001234"));
}
