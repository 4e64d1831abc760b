//! Where reads and writes of a display go.

use display_studio::ddc::vcp::VcpCode;
use display_studio::macos::ioreg::IoregService;
use display_studio::macos::matching::Match;
use display_studio::macos::routing::{
    monitors, power_state, route_read, route_write, service_for, Panel, Route,
    NATIVE_BRIGHTNESS_MAX,
};
use display_studio::model::{ControlPath, DisplayId, Error, PowerState};

fn paired(id: u32, service: usize) -> Match {
    Match {
        display_id: id,
        service: IoregService {
            manufacturer_id: "AUS".into(),
            product_name: "MB169CK".into(),
            serial_number: 17,
            io_display_location: "/port@1".into(),
            service,
            ..Default::default()
        },
        score: 12,
    }
}

#[test]
fn power_sources_are_told_apart() {
    assert_eq!(power_state(&Some("AC Power".into())), PowerState::Ac);
    assert_eq!(
        power_state(&Some("Battery Power".into())),
        PowerState::Battery
    );
    assert_eq!(power_state(&Some("UPS Power".into())), PowerState::Unknown);
    assert_eq!(power_state(&None), PowerState::Unknown);
}

#[test]
fn a_display_is_driven_as_its_pairing_allows() {
    let panels = vec![
        Panel {
            id: 1,
            builtin: true,
        },
        Panel {
            id: 2,
            builtin: false,
        },
        Panel {
            id: 3,
            builtin: false,
        },
    ];
    let matches = vec![paired(2, 0x1000), paired(3, 0)];
    let found = monitors(&panels, &matches, true);
    let paths: Vec<ControlPath> = found.iter().map(|m| m.control).collect();
    assert_eq!(
        paths,
        vec![
            ControlPath::Native,
            ControlPath::Ddc,
            ControlPath::Uncontrollable
        ]
    );
    assert_eq!(found[1].id, DisplayId(2));
    assert_eq!(found[1].identity.vendor, "AUS");
    assert_eq!(found[1].identity.serial, 17);
    assert_eq!(found[1].identity.location, "/port@1");
    assert_eq!(found[0].identity.vendor, "");
    // Without the OS's help the built-in panel cannot be driven.
    assert_eq!(
        monitors(&panels, &matches, false)[0].control,
        ControlPath::Uncontrollable
    );
    assert_eq!(service_for(&matches, 2), 0x1000);
    assert_eq!(service_for(&matches, 9), 0);
}

#[test]
fn the_built_in_panel_knows_only_brightness() {
    let native = Some(ControlPath::Native);
    assert!(matches!(
        route_read(native, VcpCode::Brightness),
        Ok(Route::Native)
    ));
    assert!(matches!(
        route_read(native, VcpCode::Contrast),
        Err(Error::Unsupported(VcpCode::Contrast))
    ));
    assert!(matches!(
        route_read(Some(ControlPath::Ddc), VcpCode::Contrast),
        Ok(Route::Device)
    ));
    assert!(matches!(
        route_write(native, VcpCode::Brightness, NATIVE_BRIGHTNESS_MAX),
        Ok(Route::Native)
    ));
    assert!(matches!(
        route_write(native, VcpCode::Brightness, NATIVE_BRIGHTNESS_MAX + 1),
        Err(Error::OutOfRange {
            code: VcpCode::Brightness,
            value: 101,
            max: 100
        })
    ));
}
