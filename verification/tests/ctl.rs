//! The command line tool.

use display_studio::api::{
    ApplyOutcome, ApplyResult, ApplyStatus, CapsResult, ControlPath, MonitorInfo, ProfileSummary,
    RuleFired, RuleInfo, SetResult, ValueKind, VcpValue, VersionInfo,
};
use display_studio::ctl::{
    guard_destructive, parse_input_value, parse_value, plan, print_apply, print_caps,
    print_deleted, print_fired, print_list, print_profiles, print_reloaded, print_rules,
    print_rules_path, print_saved, print_version, render_value, report_set, set_took, Access, Command,
    Op,
};

#[test]
fn values_are_decimal_or_hexadecimal() {
    assert_eq!(parse_value("75"), Ok(75));
    assert_eq!(parse_value(" 0x4B "), Ok(75));
    assert_eq!(parse_value("0X4b"), Ok(75));
    assert_eq!(parse_value("65535"), Ok(65535));
    assert_eq!(
        parse_value("65536"),
        Err("bad value \"65536\" — use a decimal like 75 or hex like 0x4B".to_string())
    );
    assert_eq!(
        parse_value("0xZZ"),
        Err("bad hex value \"0xZZ\"".to_string())
    );
    let e = parse_input_value("hdmi").unwrap_err();
    assert!(e.starts_with("bad value \"hdmi\""), "{e}");
    assert!(e.ends_with("`displayctl caps` is the way to find yours."), "{e}");
}

#[test]
fn destructive_writes_need_an_explicit_yes() {
    assert!(guard_destructive("brightness", false).is_ok());
    assert!(guard_destructive("no such code", false).is_ok());
    assert!(guard_destructive("0x04", true).is_ok());
    let e = guard_destructive("0x04", false).unwrap_err();
    assert!(e.starts_with("refusing to write "), "{e}");
    assert!(e.contains("There is no undo."), "{e}");
    let e = guard_destructive("0xD6", false).unwrap_err();
    assert!(e.contains("standby"), "{e}");
    let e = guard_destructive("input", false).unwrap_err();
    assert!(e.contains("goes blank"), "{e}");
}

fn write(code: &str, value: &str, yes: bool) -> Command {
    Command::Write {
        code: code.into(),
        value: value.into(),
        display: "3".into(),
        yes,
    }
}

#[test]
fn the_guard_comes_before_the_value() {
    let e = plan(write("0x60", "nonsense", false), false).unwrap_err();
    assert!(e.starts_with("refusing to write "), "{e}");
    let e = plan(write("0x60", "nonsense", true), false).unwrap_err();
    assert!(e.starts_with("bad value "), "{e}");
    match plan(write("contrast", "0x32", false), true) {
        Ok(Op::Write {
            display,
            code,
            value,
            verify,
            label,
        }) => {
            assert_eq!((display.as_str(), code.as_str()), ("3", "contrast"));
            assert_eq!((value, verify, label.as_str()), (50, true, "contrast"));
        }
        other => panic!("{other:?}"),
    }
}

#[test]
fn switching_inputs_needs_a_yes_however_it_is_asked_for() {
    let ask = |yes| Command::Input {
        value: "0x11".into(),
        display: "".into(),
        yes,
    };
    let e = plan(ask(false), false).unwrap_err();
    assert!(e.contains("If 0x11 has no signal"), "{e}");
    match plan(ask(true), false) {
        Ok(Op::Write {
            code, value, label, ..
        }) => assert_eq!((code.as_str(), value, label.as_str()), ("0x60", 17, "input")),
        other => panic!("{other:?}"),
    }
}

#[test]
fn shorthands_read_without_a_value() {
    match plan(
        Command::Brightness {
            value: None,
            display: "3".into(),
        },
        false,
    ) {
        Ok(Op::Get { display, code }) => {
            assert_eq!((display.as_str(), code.as_str()), ("3", "brightness"))
        }
        other => panic!("{other:?}"),
    }
    match plan(
        Command::Volume {
            value: Some(9),
            display: "3".into(),
        },
        false,
    ) {
        Ok(Op::Write { code, value, .. }) => assert_eq!((code.as_str(), value), ("volume", 9)),
        other => panic!("{other:?}"),
    }
}

fn value(code: u8, name: &str, current: u16, max: u16, kind: ValueKind) -> VcpValue {
    VcpValue {
        code,
        name: name.into(),
        current,
        max,
        kind,
    }
}

#[test]
fn enumerated_values_show_no_range() {
    assert_eq!(
        render_value(&value(0x10, "Brightness", 42, 100, ValueKind::Continuous)),
        "Brightness: 42 / 100"
    );
    assert_eq!(
        render_value(&value(0x60, "Input Source", 0x11, 3, ValueKind::NonContinuous)),
        "Input Source: 0x11 (HDMI-1)"
    );
    assert_eq!(
        render_value(&value(0x60, "Input Source", 0x1A, 3, ValueKind::NonContinuous)),
        "Input Source: 0x1a (vendor-specific)"
    );
    assert_eq!(
        render_value(&value(0xD6, "Power Mode", 1, 5, ValueKind::NonContinuous)),
        "Power Mode: 0x01"
    );
}

#[test]
fn ignored_writes_are_warned_of() {
    let r = SetResult {
        displays: 2,
        ignored: vec![],
    };
    let o = report_set("contrast", 50, &r);
    assert_eq!(o.out, vec!["set contrast = 50 on 2 displays"]);
    assert!(o.warnings.is_empty());
    let r = SetResult {
        displays: 1,
        ignored: vec![3, 4],
    };
    let o = report_set("contrast", 50, &r);
    assert_eq!(o.out, vec!["set contrast = 50 on 1 display"]);
    assert_eq!(o.warnings.len(), 1);
    assert!(o.warnings[0].starts_with("warning: display 3, 4 ignored the write"));
}

fn monitor(product: &str, trustworthy: bool, alphanumeric: &str) -> MonitorInfo {
    MonitorInfo {
        id: 3,
        vendor: "DEL".into(),
        product: product.into(),
        serial: -5,
        alphanumeric_serial: alphanumeric.into(),
        serial_trustworthy: trustworthy,
        location: "".into(),
        control: ControlPath::Ddc,
        key: "k".into(),
    }
}

#[test]
fn displays_are_listed_with_the_serial_that_counts() {
    assert_eq!(print_list(&vec![]), vec!["no displays found"]);
    assert_eq!(
        print_list(&vec![monitor("U2720Q", true, "X")]),
        vec!["[3] DEL U2720Q  —  DDC/CI", "     serial: -5"]
    );
    assert_eq!(
        print_list(&vec![monitor("", false, "ABC")]),
        vec![
            "[3] DEL (unnamed)  —  DDC/CI",
            "     serial: ABC (numeric serial is a placeholder)"
        ]
    );
    assert_eq!(print_list(&vec![monitor("U", false, "")]).len(), 1);
}

#[test]
fn capabilities_are_listed() {
    let mut c = CapsResult {
        raw: None,
        vcp_codes: vec![0x10],
        mccs_version: Some("2.1".into()),
        unknown_sections: vec!["a".into(), "b".into()],
        value_lists: vec![],
    };
    assert_eq!(
        print_caps(&c),
        vec!["no capability string (display has no DDC path)"]
    );
    c.raw = Some("(raw)".into());
    assert_eq!(
        print_caps(&c),
        vec![
            "MCCS version: 2.1",
            "advertises 1 VCP code(s):",
            "  Brightness (VCP 0x10)",
            "unknown sections: a, b",
            "",
            "raw: (raw)",
        ]
    );
}

#[test]
fn versions_and_sources_are_named() {
    let v = Access::direct_version();
    assert_eq!(
        print_version(&v, Access::Direct.describe()),
        vec![
            "displayctl   0.1.0",
            "daemon       not running",
            "protocol     1",
            "source       direct hardware access (displayd not running)",
        ]
    );
    let v = VersionInfo {
        protocol: 1,
        daemon: "0.1.0".into(),
    };
    assert_eq!(
        print_version(&v, Access::Daemon.describe())[3],
        "source       displayd (socket)"
    );
    assert!(Access::no_automation().starts_with("automation needs displayd running"));
}

#[test]
fn profiles_are_listed_padded() {
    let list = vec![
        ProfileSummary {
            name: "coding".into(),
            displays: Some(2),
        },
        ProfileSummary {
            name: "broken".into(),
            displays: None,
        },
    ];
    assert_eq!(
        print_profiles(&list),
        vec![
            "coding               2 display(s)",
            "broken               (unreadable — check the TOML)",
        ]
    );
    assert_eq!(print_profiles(&vec![]).len(), 1);
    assert_eq!(
        print_saved(&list[0]),
        "saved profile \"coding\" with 2 display(s)"
    );
    assert_eq!(
        print_saved(&list[1]),
        "saved profile \"broken\" with 0 display(s)"
    );
    assert_eq!(print_deleted("coding"), "deleted profile \"coding\"");
}

fn outcome(status: ApplyStatus) -> ApplyOutcome {
    ApplyOutcome {
        display: Some(3),
        selector: "U2720Q".into(),
        code: 0x10,
        name: "Brightness".into(),
        value: 60,
        status,
    }
}

#[test]
fn an_unverified_apply_claims_nothing() {
    let r = ApplyResult {
        profile: "coding".into(),
        outcomes: vec![outcome(ApplyStatus::Unverified)],
    };
    let lines = print_apply(&r, false);
    assert_eq!(lines[0], "  [3] Brightness             = 60");
    assert_eq!(lines[2], "applied profile \"coding\"");
    assert!(lines[3].starts_with("  note: writes were not verified."));
}

#[test]
fn a_verified_apply_says_what_landed() {
    let mut r = ApplyResult {
        profile: "coding".into(),
        outcomes: vec![outcome(ApplyStatus::Applied)],
    };
    assert_eq!(
        print_apply(&r, true),
        vec![
            "  [3] Brightness             = 60 ✓",
            "",
            "applied profile \"coding\"",
            "  all 1 setting(s) confirmed",
        ]
    );
    r.outcomes.push(outcome(ApplyStatus::Ignored));
    r.outcomes.push(outcome(ApplyStatus::NotConnected));
    assert_eq!(
        print_apply(&r, true)[1..],
        [
            "  [3] Brightness             = 60 — IGNORED by display",
            "  U2720Q                   — not connected",
            "",
            "applied profile \"coding\"",
            "  1 setting(s) were IGNORED — the display does not implement them",
            "  1 display(s) in this profile are not connected",
        ]
    );
}

#[test]
fn rules_are_listed() {
    assert_eq!(
        print_rules(&vec![], "/d/rules.toml"),
        vec!["no rules loaded — create /d/rules.toml"]
    );
    let rule = |enabled, force| RuleInfo {
        name: "night".into(),
        trigger: "at 22:00".into(),
        action: "profile dim".into(),
        enabled,
        force,
    };
    assert_eq!(
        print_rules(&vec![rule(true, false), rule(false, true)], ""),
        vec![
            "night",
            "    when: at 22:00",
            "    do:   profile dim",
            "night  (disabled)  [force]",
            "    when: at 22:00",
            "    do:   profile dim",
        ]
    );
    assert_eq!(print_reloaded(2), "reloaded 2 rule(s)");
    assert_eq!(print_fired(&vec![]), vec!["no rules fired"]);
    let fired = |ok| RuleFired {
        name: "night".into(),
        ok,
        detail: "done".into(),
    };
    assert_eq!(
        print_fired(&vec![fired(true), fired(false)]),
        vec!["✓ night: done", "✗ night: done"]
    );
}

#[test]
fn a_rules_file_that_others_may_write_is_warned_of() {
    let o = print_rules_path("/d/rules.toml", Some(0o100600));
    assert_eq!(o.out, vec!["/d/rules.toml"]);
    assert!(o.warnings.is_empty());
    assert_eq!(print_rules_path("/d", Some(0o100620)).warnings.len(), 1);
    assert_eq!(print_rules_path("/d", Some(0o100602)).warnings.len(), 1);
    assert!(print_rules_path("/d", None).warnings.is_empty());
}

#[test]
fn a_write_took_unless_a_display_ignored_it() {
    assert!(set_took(&SetResult { displays: 2, ignored: vec![] }));
    assert!(!set_took(&SetResult { displays: 2, ignored: vec![7] }));
}
