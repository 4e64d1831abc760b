//! The report on a display.

use display_studio::ddc::vcp::VcpCode;
use display_studio::model::{
    ControlPath, DisplayBackend, DisplayId, DisplayIdentity, Error, Monitor, Result,
};
use display_studio::probe::{describe_monitor, probe_ddc, report_value};

/// A display that answers three codes.
struct Bench {
    caps: Option<String>,
    writes: usize,
}

impl DisplayBackend for Bench {
    fn list(&mut self) -> Result<Vec<Monitor>> {
        Ok(Vec::new())
    }
    fn online_ids(&mut self) -> Result<Vec<DisplayId>> {
        Ok(Vec::new())
    }
    fn get_vcp(&mut self, _id: DisplayId, code: VcpCode) -> Result<(u16, u16)> {
        match code {
            VcpCode::Brightness => Ok((42, 100)),
            VcpCode::InputSource => Ok((0x0F, 3)),
            VcpCode::PowerMode => Ok((1, 5)),
            _ => Err(Error::Transport("no response".into())),
        }
    }
    fn set_vcp(&mut self, _id: DisplayId, _code: VcpCode, _value: u16) -> Result<()> {
        self.writes += 1;
        Ok(())
    }
    fn capability_string(&mut self, _id: DisplayId) -> Result<Option<String>> {
        Ok(self.caps.clone())
    }
}

#[test]
fn a_report_shows_capabilities_and_values() {
    let mut b = Bench {
        caps: Some("(prot(monitor)type(lcd)vcp(10 60(11 1A))mccs_ver(2.1)asset(x))".into()),
        writes: 0,
    };
    let lines = probe_ddc(&mut b, DisplayId(3));
    assert_eq!(
        lines,
        vec![
            "",
            "   Capability string:",
            "     raw: (prot(monitor)type(lcd)vcp(10 60(11 1A))mccs_ver(2.1)asset(x))",
            "     MCCS version: 2.1",
            "     type: lcd",
            "     advertises 2 VCP code(s):",
            "       Brightness (VCP 0x10)",
            "       Input Source (VCP 0x60)  [0x11=HDMI-1, 0x1a]",
            "     unknown sections: asset",
            "",
            "   Live VCP values:",
            "     Brightness (VCP 0x10)        42 / 100",
            "     Contrast (VCP 0x12)          —  (transport failure: no response)",
            "     Volume (VCP 0x62)            —  (transport failure: no response)",
            "     Input Source (VCP 0x60)      0x0f (DisplayPort-1)",
            "     Power Mode (VCP 0xd6)        0x01",
            "     Red Gain (VCP 0x16)          —  (transport failure: no response)",
            "     Green Gain (VCP 0x18)        —  (transport failure: no response)",
            "     Blue Gain (VCP 0x1a)         —  (transport failure: no response)",
        ]
    );
    assert_eq!(b.writes, 0, "a report writes nothing");
}

#[test]
fn a_display_without_capabilities_says_so() {
    let mut b = Bench {
        caps: None,
        writes: 0,
    };
    assert_eq!(probe_ddc(&mut b, DisplayId(3))[2], "     (no DDC path)");
    b.caps = Some("garbage".into());
    let lines = probe_ddc(&mut b, DisplayId(3));
    assert_eq!(lines[2], "     raw: garbage");
    assert!(lines[3].starts_with("     parse failed: "), "{}", lines[3]);
    assert!(lines[3].contains("\"garbage\""), "{}", lines[3]);
}

#[test]
fn vendor_inputs_stay_unnamed() {
    assert_eq!(
        report_value(VcpCode::InputSource, &Ok((0x1A, 3))),
        "     Input Source (VCP 0x60)      0x1a (vendor-specific)"
    );
}

#[test]
fn a_placeholder_serial_is_pointed_out() {
    let mut m = Monitor {
        id: DisplayId(3),
        identity: DisplayIdentity {
            vendor: "AUS".into(),
            product_name: "MB169CK".into(),
            serial: 0x0101_0101,
            location: "/port@1".into(),
            ..Default::default()
        },
        control: ControlPath::Ddc,
        capabilities: None,
    };
    let lines = describe_monitor(&m);
    assert_eq!(lines[1], "   control:  DDC/CI");
    assert_eq!(lines[2], "   location: /port@1");
    assert_eq!(
        lines[3],
        "   serial:   16843009 (PLACEHOLDER — identity falls back to physical port)"
    );
    assert!(lines[4].starts_with("   key:      "));
    m.identity.serial = 0x1A2B_3C4D;
    m.identity.location = "".into();
    m.control = ControlPath::Native;
    let lines = describe_monitor(&m);
    assert_eq!(lines[1], "   control:  built-in (DisplayServices)");
    assert_eq!(lines[2], "   serial:   439041101 (trustworthy)");
}
