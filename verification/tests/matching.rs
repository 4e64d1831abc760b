//! Pairing displays with AV services.

use display_studio::macos::ioreg::IoregService;
use display_studio::macos::matching::{
    assign, match_score, product_name, uuid_field, Candidate, DisplayInfo, LOCATION_WEIGHT,
    MAX_MATCH_SCORE,
};

#[test]
fn uuid_field_extracts_by_character_offset() {
    let uuid = "0610AF00-0000-0000-1D1C-0104B53C2278";
    assert_eq!(uuid_field(uuid, 0).as_deref(), Some("0610"));
    assert_eq!(uuid_field(uuid, 4).as_deref(), Some("AF00"));
}

/// Must not panic on a short or missing UUID — plenty of displays have none.
#[test]
fn uuid_field_handles_short_input() {
    assert_eq!(uuid_field("", 0), None);
    assert_eq!(uuid_field("06", 0), None);
    assert_eq!(uuid_field("0610AF00", 30), None);
}

/// The core invariant: location must outweigh every identity signal
/// combined, so identical panels on different ports stay distinguishable.
#[test]
fn location_outweighs_all_identity_signals_combined() {
    let identity_max = 4 /* uuid fields */ + 1 /* name */ + 1 /* serial */;
    assert!(
        LOCATION_WEIGHT > identity_max,
        "location weight {LOCATION_WEIGHT} must exceed identity total {identity_max}"
    );
    assert!(MAX_MATCH_SCORE >= LOCATION_WEIGHT + identity_max);
}

fn info(location: &str) -> DisplayInfo {
    DisplayInfo {
        vendor_id: None,
        product_id: None,
        year: None,
        week: None,
        horizontal_size: None,
        vertical_size: None,
        location: Some(location.into()),
        product_name: Some("MB169CK".into()),
        serial: Some(0x0101_0101),
    }
}

fn service(location: &str, address: usize, number: usize) -> IoregService {
    IoregService {
        product_name: "MB169CK".into(),
        serial_number: 0x0101_0101,
        io_display_location: location.into(),
        service: address,
        service_location: number,
        ..Default::default()
    }
}

#[test]
fn scores_add_up() {
    let s = service("/port@1", 1, 1);
    assert_eq!(match_score(&None, &s), 0);
    // Location, name and serial.
    assert_eq!(match_score(&Some(info("/port@1")), &s), 12);
    // Name and serial alone.
    assert_eq!(match_score(&Some(info("/port@2")), &s), 2);
}

/// Two of the same monitor: the port decides, whichever is listed first.
#[test]
fn identical_panels_are_told_apart_by_port() {
    let displays = vec![
        Candidate {
            id: 7,
            info: Some(info("/port@2")),
        },
        Candidate {
            id: 8,
            info: Some(info("/port@1")),
        },
    ];
    let services = vec![service("/port@1", 0x1000, 1), service("/port@2", 0x2000, 2)];
    let found = assign(&displays, &services);
    assert_eq!(found.len(), 2);
    for m in &found {
        match m.display_id {
            7 => assert_eq!(m.service.service, 0x2000),
            8 => assert_eq!(m.service.service, 0x1000),
            other => panic!("unknown display {other}"),
        }
    }
}

#[test]
fn the_english_name_is_preferred() {
    let names = vec![
        ("de_DE".to_string(), "Bildschirm".to_string()),
        ("en_US".to_string(), "Display".to_string()),
    ];
    assert_eq!(product_name(&names).as_deref(), Some("Display"));
    assert_eq!(
        product_name(&names[..1].to_vec()).as_deref(),
        Some("Bildschirm")
    );
    assert_eq!(product_name(&vec![]), None);
}

#[test]
fn better_pairings_are_taken_first() {
    let displays = vec![
        Candidate { id: 1, info: Some(info("elsewhere")) },
        Candidate { id: 2, info: Some(info("port-b")) },
    ];
    let services = vec![service("port-a", 10, 1), service("port-b", 20, 2)];
    let found = assign(&displays, &services);
    assert_eq!(found.len(), 2);
    assert_eq!(found[0].display_id, 2, "the port decides before the identity");
    assert_eq!(found[1].display_id, 1);
    assert!(found[0].score > found[1].score);
}
