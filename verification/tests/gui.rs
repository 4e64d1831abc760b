//! The menu bar app.

use display_studio::api::{
    CapsResult, ControlPath, MonitorInfo, ProfileSummary, ValueKind, VcpValue,
};
use display_studio::gui::batch::{daemon_candidates, may_spawn, process_batch, Cmd, Task};
use display_studio::gui::client::{build_pickers, Snapshot};
use display_studio::gui::config::GuiConfig;
use display_studio::gui::login::{agent_file, plist, plist_path, set_enabled, Change};
use display_studio::gui::mediakeys::{decode, handle_event, Key, Reaction, NX_SYSDEFINED};
use display_studio::gui::menu::{Effect, Item, Menu};
use display_studio::gui::refresh::{Ask, Refresh, Reply};
use display_studio::gui::settings::{
    build_tabs, name_given, prompt_name, settings_tick, Deed, Kind, Window,
};
use display_studio::paths::FilePath;

fn monitor(id: u32, product: &str, control: ControlPath) -> MonitorInfo {
    MonitorInfo {
        id,
        vendor: "DEL".into(),
        product: product.into(),
        serial: 1,
        alphanumeric_serial: "".into(),
        serial_trustworthy: true,
        location: "".into(),
        control,
        key: format!("key{id}"),
    }
}

fn caps() -> CapsResult {
    CapsResult {
        raw: Some("(raw)".into()),
        vcp_codes: vec![0x10, 0x12, 0x60, 0x59],
        mccs_version: Some("2.1".into()),
        unknown_sections: vec!["asset".into()],
        value_lists: vec![(0x60, vec![0x0F, 0x11]), (0x14, vec![0x05]), (0xD6, vec![1, 4])],
    }
}

fn value(current: u16, max: u16) -> Reply {
    Reply::Value(VcpValue {
        code: 0,
        name: "".into(),
        current,
        max,
        kind: ValueKind::Continuous,
    })
}

fn profiles(names: &[&str]) -> Reply {
    Reply::Profiles(
        names
            .iter()
            .map(|n| ProfileSummary {
                name: n.to_string(),
                displays: Some(1),
            })
            .collect(),
    )
}

/// What a daemon answers.
struct Daemon {
    monitors: Option<Vec<MonitorInfo>>,
    caps: bool,
    awake: bool,
    profiles: Vec<&'static str>,
    asked: Vec<String>,
}

impl Daemon {
    fn new(monitors: Vec<MonitorInfo>) -> Daemon {
        Daemon {
            monitors: Some(monitors),
            caps: true,
            awake: true,
            profiles: vec!["coding"],
            asked: Vec::new(),
        }
    }

    fn answer(&mut self, ask: Ask) -> Option<Reply> {
        self.asked.push(format!("{ask:?}"));
        Some(match ask {
            Ask::List => match &self.monitors {
                Some(m) => Reply::Monitors(m.clone()),
                None => Reply::Failed,
            },
            Ask::Caps { .. } => {
                if self.caps {
                    Reply::Caps(caps())
                } else {
                    Reply::Failed
                }
            }
            Ask::Get { code, .. } => {
                if !self.awake {
                    Reply::Failed
                } else if code == "0x60" {
                    value(0x0111, 3)
                } else {
                    value(42, 100)
                }
            }
            Ask::Profiles => profiles(&self.profiles.clone()),
            Ask::Nothing => Reply::Failed,
            Ask::Finished => return None,
        })
    }

    fn refresh(&mut self, s: &mut Snapshot, cfg: &GuiConfig) {
        let mut r = Refresh::begin();
        while let Some(reply) = self.answer(r.ask(s)) {
            r = r.step(s, cfg, reply);
        }
    }
}

#[test]
fn a_refresh_fills_the_snapshot() {
    let mut d = Daemon::new(vec![
        monitor(1, "", ControlPath::Native),
        monitor(3, "U2720Q", ControlPath::Ddc),
        monitor(4, "TV", ControlPath::Uncontrollable),
    ]);
    let mut s = Snapshot::default();
    d.refresh(&mut s, &GuiConfig::default());
    assert!(s.daemon_up);
    assert_eq!(s.monitors.len(), 2, "what cannot be driven is not shown");
    assert_eq!(s.monitors[0].name, "DEL");
    assert_eq!(s.monitors[1].name, "DEL U2720Q");
    let codes: Vec<u8> = s.monitors[0].sliders.iter().map(|v| v.code).collect();
    assert_eq!(codes, vec![0x10], "a built-in panel has brightness only");
    let codes: Vec<u8> = s.monitors[1].sliders.iter().map(|v| v.code).collect();
    assert_eq!(codes, vec![0x10, 0x12], "visible and adjustable");
    assert_eq!(s.monitors[1].sliders[0].label, "Brightness");
    assert_eq!(s.monitors[1].sliders[0].current, 42);
    assert_eq!(s.monitors[1].pickers.len(), 1);
    assert_eq!(s.monitors[1].pickers[0].current, Some(0x11), "the low byte");
    assert_eq!(s.profiles, vec!["coding"]);
    assert!(d.asked.iter().any(|a| a == "Get { display: \"3\", code: \"0x12\" }"));
}

#[test]
fn capabilities_are_fetched_once() {
    let mut d = Daemon::new(vec![monitor(3, "U2720Q", ControlPath::Ddc)]);
    let mut s = Snapshot::default();
    let cfg = GuiConfig::default();
    d.refresh(&mut s, &cfg);
    let asked = |d: &Daemon| d.asked.iter().filter(|a| a.starts_with("Caps")).count();
    assert_eq!(asked(&d), 1);
    let generation = s.generation;
    d.refresh(&mut s, &cfg);
    assert_eq!(asked(&d), 1);
    assert_eq!(s.generation, generation, "a routine poll is quiet");
}

#[test]
fn a_sleeping_display_keeps_its_values() {
    let mut d = Daemon::new(vec![monitor(3, "U2720Q", ControlPath::Ddc)]);
    let mut s = Snapshot::default();
    let mut cfg = GuiConfig::default();
    d.refresh(&mut s, &cfg);
    d.awake = false;
    d.refresh(&mut s, &cfg);
    assert_eq!(s.monitors[0].sliders.len(), 2, "prior values are kept");
    assert!(s.daemon_up);
    // Hiding everything is not the same as reading nothing.
    for code in [0x10, 0x12] {
        cfg.set_visible("key3", code, false);
    }
    d.refresh(&mut s, &cfg);
    assert!(s.monitors[0].sliders.is_empty());
}

#[test]
fn a_lost_daemon_clears_the_displays_but_not_what_is_known_of_them() {
    let mut d = Daemon::new(vec![monitor(3, "U2720Q", ControlPath::Ddc)]);
    let mut s = Snapshot::default();
    d.refresh(&mut s, &GuiConfig::default());
    let generation = s.generation;
    d.monitors = None;
    d.refresh(&mut s, &GuiConfig::default());
    assert!(!s.daemon_up);
    assert!(s.monitors.is_empty());
    assert!(s.caps.contains_key(&3));
    assert_eq!(s.generation, generation + 1);
}

#[test]
fn values_out_of_range_make_no_slider() {
    let mut s = Snapshot::default();
    let cfg = GuiConfig::default();
    let mut r = Refresh::begin();
    r = r.step(
        &mut s,
        &cfg,
        Reply::Monitors(vec![monitor(1, "", ControlPath::Native)]),
    );
    r = r.step(&mut s, &cfg, Reply::Failed); // on to the sliders
    r = r.step(&mut s, &cfg, value(5, 1001));
    r = r.step(&mut s, &cfg, Reply::Failed); // settle
    assert!(s.monitors[0].sliders.is_empty());
    assert!(matches!(r.ask(&s), Ask::Nothing));
}

#[test]
fn fetched_capabilities_are_kept_for_ids_only() {
    let mut s = Snapshot::default();
    s.learn_fetched("U2720Q", caps());
    assert!(s.caps.is_empty());
    s.learn_fetched("3", caps());
    assert_eq!(s.caps[&3].codes[0], (0x10, "Brightness".to_string()));
    assert_eq!(s.generation, 1);
}

#[test]
fn only_curated_codes_with_a_choice_become_pickers() {
    let lists = caps().value_lists;
    let p = build_pickers(&lists);
    assert_eq!(p.len(), 1);
    assert_eq!(p[0].title, "Input");
    assert_eq!(
        p[0].values,
        vec![
            (0x0F, "DisplayPort-1".to_string()),
            (0x11, "HDMI-1".to_string())
        ]
    );
    assert_eq!(p[0].current, None);
}

fn write(display: &str, code: u8, value: u16) -> Cmd {
    Cmd::Write {
        display: display.into(),
        code,
        value,
    }
}

#[test]
fn a_drag_comes_down_to_its_last_value() {
    let b = process_batch(&vec![
        write("3", 0x10, 1),
        write("4", 0x10, 7),
        write("3", 0x12, 9),
        write("3", 0x10, 2),
        write("3", 0x10, 3),
    ]);
    let writes: Vec<(&str, u8, u16)> = b
        .writes
        .iter()
        .map(|w| (w.display.as_str(), w.code, w.value))
        .collect();
    assert_eq!(
        writes,
        vec![("3", 0x10, 3), ("4", 0x10, 7), ("3", 0x12, 9)]
    );
    assert!(b.tasks.is_empty());
    assert!(!b.refresh, "a write needs no read-back");
}

#[test]
fn tasks_keep_their_order() {
    let b = process_batch(&vec![
        Cmd::ApplyProfile("a".into()),
        Cmd::FetchCaps("3".into()),
        Cmd::DeleteProfile("b".into()),
        Cmd::SaveProfile("c".into()),
    ]);
    assert!(matches!(&b.tasks[0], Task::Apply(n) if n == "a"));
    assert!(matches!(&b.tasks[1], Task::Fetch(n) if n == "3"));
    assert!(matches!(&b.tasks[2], Task::Delete(n) if n == "b"));
    assert!(matches!(&b.tasks[3], Task::Save(n) if n == "c"));
    assert!(b.refresh);
    assert!(!process_batch(&vec![Cmd::FetchCaps("3".into())]).refresh);
    assert!(process_batch(&vec![Cmd::Refresh]).refresh);
}

#[test]
fn profiles_are_shown_ahead_of_the_daemon() {
    let mut s = Snapshot::default();
    s.remember_profile("b");
    s.remember_profile("a");
    s.remember_profile("b");
    assert_eq!(s.profiles, vec!["a", "b"]);
    s.forget_profile("a");
    assert_eq!(s.profiles, vec!["b"]);
    assert_eq!(s.generation, 4);
    s.generation = u64::MAX;
    s.forget_profile("none");
    assert_eq!(s.generation, 0, "the counter wraps");
}

#[test]
fn the_daemon_is_not_started_twice_in_a_row() {
    assert!(may_spawn(100, 0));
    assert!(!may_spawn(102, 100));
    assert!(may_spawn(103, 100));
    assert!(!may_spawn(99, 100), "a clock that went back is no reason");
    let all = |list: &[&str]| -> Vec<FilePath> { list.iter().map(|p| FilePath::of(p)).collect() };
    assert_eq!(
        daemon_candidates(Some(FilePath::of("/a/MacOS")), Some(FilePath::of("/a"))),
        all(&["/a/MacOS/displayd", "/a/Helpers/displayd", "displayd"])
    );
    assert_eq!(
        daemon_candidates(None, Some(FilePath::of("/a"))),
        all(&["displayd"])
    );
}

fn shown() -> Snapshot {
    let mut d = Daemon::new(vec![
        monitor(1, "", ControlPath::Native),
        monitor(3, "U2720Q", ControlPath::Ddc),
    ]);
    let mut s = Snapshot::default();
    d.refresh(&mut s, &GuiConfig::default());
    s
}

fn titles(m: &Menu) -> Vec<String> {
    m.items
        .iter()
        .map(|i| match i {
            Item::Separator => "-".to_string(),
            Item::Disabled { title } => format!("({title})"),
            Item::Slider { label, .. } => format!("{label}="),
            Item::Entry { title, .. } => title.clone(),
            Item::Submenu { title, .. } => format!("{title}>"),
        })
        .collect()
}

#[test]
fn the_menu_shows_what_is_known() {
    let m = Menu::populate(&shown());
    assert_eq!(
        titles(&m),
        vec![
            "-",
            "(DEL)",
            "Brightness=",
            "-",
            "(DEL U2720Q)",
            "Brightness=",
            "Contrast=",
            "⏻  Off",
            "☀  On",
            "Input>",
            "-",
            "(Apply Profile)",
            "  coding",
            "-",
            "Settings…",
            "Quit Display Studio",
        ]
    );
    match &m.items[9] {
        Item::Submenu { choices, .. } => {
            assert_eq!(choices[1].title, "HDMI-1");
            assert!(choices[1].checked && !choices[0].checked);
            match m.run_action(choices[1].tag) {
                Effect::Post(Cmd::Write {
                    display,
                    code,
                    value,
                }) => assert_eq!((display.as_str(), code, value), ("3", 0x60, 0x11)),
                other => panic!("{other:?}"),
            }
        }
        other => panic!("{other:?}"),
    }
}

#[test]
fn a_click_does_what_its_item_says() {
    let m = Menu::populate(&shown());
    for item in &m.items {
        match item {
            Item::Slider { label, tag, .. } => {
                assert!(matches!(m.run_action(*tag), Effect::Nothing));
                match m.slider_changed(*tag, 7) {
                    Some(Cmd::Write { code, value, .. }) => {
                        assert_eq!(value, 7);
                        assert_eq!(code, if label == "Brightness" { 0x10 } else { 0x12 });
                    }
                    other => panic!("{other:?}"),
                }
            }
            Item::Entry { title, tag, key } => {
                assert!(m.slider_changed(*tag, 7).is_none());
                match (title.as_str(), m.run_action(*tag)) {
                    ("⏻  Off", Effect::Post(Cmd::Write { code, value, .. })) => {
                        assert_eq!((code, value), (0xD6, 4))
                    }
                    ("☀  On", Effect::Post(Cmd::Write { code, value, .. })) => {
                        assert_eq!((code, value), (0xD6, 1))
                    }
                    ("  coding", Effect::Post(Cmd::ApplyProfile(n))) => assert_eq!(n, "coding"),
                    ("Settings…", Effect::OpenSettings) => {}
                    ("Quit Display Studio", Effect::Quit) => assert_eq!(key, "q"),
                    other => panic!("{other:?}"),
                }
            }
            _ => {}
        }
    }
    assert!(matches!(m.run_action(9999), Effect::Nothing));
    assert!(m.slider_changed(9999, 1).is_none());
}

#[test]
fn quit_works_without_a_daemon() {
    let m = Menu::populate(&Snapshot::default());
    assert_eq!(
        titles(&m),
        vec![
            "(displayd not running)",
            "-",
            "Settings…",
            "Quit Display Studio"
        ]
    );
    assert!(matches!(m.run_action(1), Effect::Quit));
    let mut s = Snapshot::default();
    s.daemon_up = true;
    assert_eq!(titles(&Menu::populate(&s))[0], "(No displays found)");
}

fn rows(w: &Window, tab: usize) -> Vec<String> {
    w.tabs[tab]
        .rows
        .iter()
        .map(|r| match &r.kind {
            Kind::Label { text, .. } => text.clone(),
            Kind::Checkbox { title, checked, .. } => format!("[{checked}] {title}"),
            Kind::Button { title, .. } => format!("<{title}>"),
            Kind::Space => format!("+{}", r.advance),
        })
        .collect()
}

#[test]
fn the_settings_window_shows_what_is_known() {
    let mut cfg = GuiConfig::default();
    cfg.set_visible("key3", 0x12, false);
    let w = build_tabs(&shown(), &cfg);
    let names: Vec<&str> = w.tabs.iter().map(|t| t.title).collect();
    assert_eq!(names, vec!["Displays", "Capabilities", "Profiles", "General"]);
    assert_eq!(
        rows(&w, 0),
        vec![
            "DEL",
            "[true] Show Brightness in menu",
            "+6",
            "DEL U2720Q",
            "[true] Show Brightness in menu",
            "[false] Show Contrast in menu",
            "[false] Show 6-Axis Saturation: Red in menu",
            "+6",
        ]
    );
    assert_eq!(w.tabs[0].lines, 6);
    assert_eq!(
        rows(&w, 1),
        vec![
            "DEL U2720Q",
            "<Refresh>",
            "  MCCS 2.1 · 4 VCP code(s) advertised",
            "  0x10  Brightness",
            "  0x12  Contrast",
            "  0x60  Input Source",
            "  0x59  6-Axis Saturation: Red",
            "  vendor sections: asset",
            "+10",
        ]
    );
    assert_eq!(w.tabs[1].lines, 8);
    assert_eq!(
        rows(&w, 2),
        vec![
            "<Save current settings as profile…>",
            "coding",
            "<Apply>",
            "<Delete>"
        ]
    );
    assert_eq!(
        rows(&w, 3),
        vec![
            "[false] Launch Display Studio at login",
            "Display Studio 0.1.0",
            "displayd: connected",
        ]
    );
}

#[test]
fn the_settings_window_says_what_is_missing() {
    let cfg = GuiConfig::default();
    let w = build_tabs(&Snapshot::default(), &cfg);
    assert_eq!(rows(&w, 0), vec!["displayd is not running."]);
    assert_eq!(
        rows(&w, 1),
        vec!["No DDC displays. Capabilities are read over DDC/CI."]
    );
    assert_eq!(rows(&w, 2)[1], "No saved profiles yet.");
    assert_eq!(rows(&w, 3)[2], "displayd: not running");
    let mut d = Daemon::new(vec![monitor(3, "U2720Q", ControlPath::Ddc)]);
    d.caps = false;
    let mut s = Snapshot::default();
    d.refresh(&mut s, &cfg);
    let w = build_tabs(&s, &cfg);
    assert_eq!(rows(&w, 0)[1], "  reading capabilities…");
    assert_eq!(rows(&w, 1)[1], "<Fetch>");
    assert_eq!(
        rows(&w, 1)[2],
        "  Click Fetch to read this display's capabilities."
    );
}

#[test]
fn a_control_does_what_its_row_says() {
    let w = build_tabs(&shown(), &GuiConfig::default());
    for tab in &w.tabs {
        for r in &tab.rows {
            match &r.kind {
                Kind::Checkbox { title, tag, .. } => {
                    let d = w.control(*tag, true);
                    assert_eq!(d.len(), 1);
                    match &d[0] {
                        Deed::Show { key, code, on } => {
                            assert!(*on && title.starts_with("Show "));
                            assert!(key == "key1" || key == "key3");
                            assert_eq!(*code == 0x12, title.contains("Contrast"));
                        }
                        Deed::Login(on) => assert!(*on && title.starts_with("Launch ")),
                        other => panic!("{other:?}"),
                    }
                }
                Kind::Button { title, tag } => {
                    let d = w.control(*tag, false);
                    match title.as_str() {
                        "Refresh" => {
                            assert!(matches!(&d[..], [Deed::Post(Cmd::FetchCaps(x))] if x == "3"))
                        }
                        "Apply" => assert!(matches!(
                            &d[..],
                            [Deed::Post(Cmd::ApplyProfile(n)), Deed::Reopen] if n == "coding"
                        )),
                        "Delete" => assert!(matches!(
                            &d[..],
                            [Deed::Forget(a), Deed::Post(Cmd::DeleteProfile(b)), Deed::Reopen]
                                if a == "coding" && b == "coding"
                        )),
                        _ => assert!(matches!(&d[..], [Deed::PromptName])),
                    }
                }
                _ => {}
            }
        }
    }
    assert!(w.control(9999, true).is_empty());
}

#[test]
fn profile_names_are_checked_before_they_are_sent() {
    assert_eq!(prompt_name("  movie-night "), Some("movie-night".into()));
    assert_eq!(prompt_name("   "), None);
    assert_eq!(prompt_name("a/b"), None);
    assert_eq!(prompt_name(&"x".repeat(65)), None);
    assert!(name_given(None).is_empty());
    assert!(matches!(
        &name_given(Some("a".into()))[..],
        [Deed::Remember(x), Deed::Post(Cmd::SaveProfile(y)), Deed::Reopen] if x == "a" && y == "a"
    ));
}

#[test]
fn the_window_is_rebuilt_only_when_something_changed() {
    assert!(settings_tick(true, 1, 2));
    assert!(!settings_tick(true, 2, 2));
    assert!(!settings_tick(false, 1, 2));
}

#[test]
fn the_launch_agent_starts_the_app() {
    let text = plist("/Applications/Display Studio.app/x");
    assert!(text.starts_with("<?xml version=\"1.0\" encoding=\"UTF-8\"?>\n<!DOCTYPE plist"));
    assert!(text.contains("<string>io.github.displaymanager.gui</string>"));
    assert!(text.contains("<array><string>/Applications/Display Studio.app/x</string></array>"));
    assert!(text.ends_with("</dict>\n</plist>"));
    assert!(matches!(set_enabled(true, Some("/x")), Change::Put(t) if t == plist("/x")));
    assert!(matches!(set_enabled(true, None), Change::Keep));
    assert!(matches!(set_enabled(false, Some("/x")), Change::Take));
    assert_eq!(
        agent_file(Some(FilePath::of("/home/u"))).describe(),
        "/home/u/Library/LaunchAgents/io.github.displaymanager.gui.plist"
    );
    assert!(agent_file(None).describe().starts_with("/tmp/Library/"));
    assert!(plist_path().describe().ends_with("/Library/LaunchAgents/io.github.displaymanager.gui.plist"));
}

#[test]
fn only_brightness_keys_are_taken() {
    let press = |code: i64| decode(8, (code << 16) | 0x0A00);
    assert_eq!(
        press(2),
        Some(Key {
            code: 2,
            down: true
        })
    );
    assert_eq!(decode(7, 0x20A00), None);
    assert_eq!(handle_event(NX_SYSDEFINED, press(2)), Reaction::Brighter);
    assert_eq!(handle_event(NX_SYSDEFINED, press(3)), Reaction::Darker);
    assert_eq!(handle_event(NX_SYSDEFINED, press(0)), Reaction::Pass);
    let release = decode(8, (2 << 16) | 0x0B00);
    assert_eq!(handle_event(NX_SYSDEFINED, release), Reaction::Pass);
    assert_eq!(handle_event(NX_SYSDEFINED, None), Reaction::Pass);
    assert_eq!(handle_event(10, press(2)), Reaction::Pass);
    assert_eq!(handle_event(0xFFFF_FFFE, None), Reaction::Enable);
    assert_eq!(handle_event(0xFFFF_FFFF, None), Reaction::Enable);
}

/// One read failing says nothing of the others.
#[test]
fn a_failed_read_keeps_its_own_slider() {
    let mut d = Daemon::new(vec![monitor(3, "U2720Q", ControlPath::Ddc)]);
    let mut s = Snapshot::default();
    let cfg = GuiConfig::default();
    d.refresh(&mut s, &cfg);
    s.monitors[0].sliders[0].current = 40;
    s.monitors[0].sliders[1].current = 70;
    let mut r = Refresh::begin();
    loop {
        let reply = match r.ask(&s) {
            Ask::Get { ref code, .. } if code == "0x10" => value(55, 100),
            Ask::Get { ref code, .. } if code == "0x12" => Reply::Failed,
            other => match d.answer(other) {
                Some(reply) => reply,
                None => break,
            },
        };
        r = r.step(&mut s, &cfg, reply);
    }
    let shown: Vec<(u8, u16, u16)> = s.monitors[0]
        .sliders
        .iter()
        .map(|v| (v.code, v.current, v.max))
        .collect();
    assert_eq!(shown, vec![(0x10, 55, 100), (0x12, 70, 100)]);
}

#[test]
fn forgetting_a_profile_just_remembered_gives_the_list_back() {
    let mut s = Snapshot::default();
    s.profiles = vec!["day".into(), "night".into()];
    s.remember_profile("evening");
    assert_eq!(s.profiles, vec!["day", "evening", "night"]);
    s.forget_profile("evening");
    assert_eq!(s.profiles, vec!["day", "night"]);
}
