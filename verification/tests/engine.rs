//! What requests do to the displays.

use display_studio::api;
use display_studio::daemon::engine::{value_matches, Engine};
use display_studio::daemon::selection::EngineError;
use display_studio::daemon::snapshot::Snapshot;
use display_studio::ddc::vcp::{ValueKind, VcpCode};
use display_studio::keyed::TextMap;
use display_studio::model::profile::{Listing, Reading};
use display_studio::model::{
    ControlPath, DisplayBackend, DisplayId, DisplayIdentity, DisplayProfile, Error as CoreError,
    Monitor, Profile, ProfileError, ProfileStore, Result as CoreResult,
};
use display_studio::paths::FilePath;
use std::collections::HashMap;

/// Scripted backend, including misbehaving personalities. Lets the protocol
/// and selector logic be tested with no hardware present.
#[derive(Default)]
struct MockBackend {
    monitors: Vec<Monitor>,
    values: HashMap<(u32, u8), (u16, u16)>,
    caps: HashMap<u32, String>,
    /// Displays that fail every transaction, like a monitor asleep.
    dead: Vec<u32>,
    /// Codes the display accepts writes for but silently ignores — the
    /// dominant real-world behaviour, not an edge case. The MB169CK
    /// advertises 32 codes and honours 2.
    ignores: Vec<u8>,
    sets: Vec<(u32, u8, u16)>,
    list_calls: usize,
    online_calls: usize,
    /// Whether asking which displays are online fails.
    unlisted: bool,
}

impl MockBackend {
    fn with(monitors: Vec<Monitor>) -> Self {
        MockBackend {
            monitors,
            ..Default::default()
        }
    }
}

impl DisplayBackend for MockBackend {
    fn online_ids(&mut self) -> CoreResult<Vec<DisplayId>> {
        self.online_calls += 1;
        if self.unlisted {
            return Err(CoreError::Transport("hub gone".into()));
        }
        Ok(self.monitors.iter().map(|m| m.id).collect())
    }
    fn list(&mut self) -> CoreResult<Vec<Monitor>> {
        self.list_calls += 1;
        Ok(self.monitors.clone())
    }
    fn get_vcp(&mut self, id: DisplayId, code: VcpCode) -> CoreResult<(u16, u16)> {
        if self.dead.contains(&id.0) {
            return Err(CoreError::Transport("no response".into()));
        }
        self.values
            .get(&(id.0, code.code()))
            .copied()
            .ok_or(CoreError::Unsupported(code))
    }
    fn set_vcp(&mut self, id: DisplayId, code: VcpCode, value: u16) -> CoreResult<()> {
        if self.dead.contains(&id.0) {
            return Err(CoreError::Transport("no response".into()));
        }
        self.sets.push((id.0, code.code(), value));
        // DDC has no write ack, so an ignored write still "succeeds".
        if !self.ignores.contains(&code.code()) {
            self.values.insert((id.0, code.code()), (value, 100));
        }
        Ok(())
    }
    fn capability_string(&mut self, id: DisplayId) -> CoreResult<Option<String>> {
        Ok(self.caps.get(&id.0).cloned())
    }
}

fn mon(id: u32, vendor: &str, product: &str, control: ControlPath) -> Monitor {
    Monitor {
        id: DisplayId(id),
        identity: DisplayIdentity {
            vendor: vendor.into(),
            product_name: product.into(),
            serial: 0x1A2B_3C4D,
            location: format!("/port@{id}"),
            ..Default::default()
        },
        control,
        capabilities: None,
    }
}

fn engine(monitors: Vec<Monitor>) -> Engine<MockBackend> {
    Engine::new(MockBackend::with(monitors))
}

/// A profile directory in memory: what the owner of the file system does on the
/// store's behalf.
#[derive(Default)]
struct Disk {
    files: HashMap<String, Option<Profile>>,
}

impl Disk {
    fn store() -> ProfileStore {
        ProfileStore::new(FilePath::of("/profiles"))
    }

    fn has(&self, name: &str) -> bool {
        match Disk::store().path_for(name) {
            Ok(path) => self.files.contains_key(&path.describe()),
            Err(_) => false,
        }
    }

    fn read(&self, name: &str) -> Reading {
        match Disk::store().path_for(name) {
            Ok(path) => match self.files.get(&path.describe()) {
                Some(Some(p)) => Reading::Parsed(p.clone()),
                Some(None) => Reading::Unparseable("expected a value".into()),
                None => Reading::Missing,
            },
            Err(_) => Reading::Missing,
        }
    }

    fn save(&mut self, p: &Profile, force: bool) -> Result<String, ProfileError> {
        let plan = Disk::store().save(p, force, self.has(&p.name))?;
        self.files.insert(plan.path.describe(), Some(p.clone()));
        Ok(plan.path.describe())
    }

    fn keep(&mut self, s: Snapshot) -> api::ProfileSummary {
        self.files.insert(s.plan.path.describe(), Some(s.profile));
        s.summary
    }
}

/// Engine with a throwaway profile directory, so tests never touch the user's
/// real profiles.
fn engine_with_profiles(monitors: Vec<Monitor>) -> (Disk, Engine<MockBackend>) {
    (
        Disk::default(),
        Engine::with_profiles(MockBackend::with(monitors), Disk::store()),
    )
}

/// Take a profile and keep it.
fn save(d: &mut Disk, e: &mut Engine<MockBackend>, name: &str, codes: &[VcpCode]) -> api::ProfileSummary {
    let s = e
        .profile_save(name, &codes.to_vec(), false, d.has(name))
        .unwrap();
    d.keep(s)
}

fn settings(list: &[(&str, u16)]) -> TextMap<u16> {
    let mut m = TextMap::new();
    for (k, v) in list {
        m.insert(k.to_string(), *v);
    }
    m
}

#[test]
fn empty_selector_auto_picks_the_only_display() {
    let mut e = engine(vec![mon(1, "AUS", "MB169CK", ControlPath::Ddc)]);
    assert_eq!(e.resolve("").unwrap(), vec![DisplayId(1)]);
}

/// Must refuse rather than pick one: a wrong guess on an input switch costs
/// the user their picture.
#[test]
fn empty_selector_refuses_when_ambiguous() {
    let mut e = engine(vec![
        mon(1, "AUS", "MB169CK", ControlPath::Ddc),
        mon(2, "DEL", "U2720Q", ControlPath::Ddc),
    ]);
    assert!(matches!(e.resolve(""), Err(EngineError::NeedsSelector(2))));
}

#[test]
fn resolves_by_id_and_by_name_substring() {
    let mut e = engine(vec![
        mon(1, "AUS", "MB169CK", ControlPath::Ddc),
        mon(3, "DEL", "U2720Q", ControlPath::Ddc),
    ]);
    assert_eq!(e.resolve("3").unwrap(), vec![DisplayId(3)]);
    assert_eq!(e.resolve("u2720q").unwrap(), vec![DisplayId(3)]);
    assert_eq!(e.resolve("DEL").unwrap(), vec![DisplayId(3)]);
}

#[test]
fn all_selects_every_controllable_display() {
    let mut e = engine(vec![
        mon(1, "AUS", "MB169CK", ControlPath::Ddc),
        mon(2, "APP", "Built-in", ControlPath::Native),
        mon(9, "XXX", "Dummy", ControlPath::Uncontrollable),
    ]);
    let ids = e.resolve("all").unwrap();
    assert_eq!(ids, vec![DisplayId(1), DisplayId(2)]);
    assert!(
        !ids.contains(&DisplayId(9)),
        "uncontrollable must be excluded"
    );
}

#[test]
fn ambiguous_name_is_an_error_listing_candidates() {
    let mut e = engine(vec![
        mon(1, "DEL", "U2720Q", ControlPath::Ddc),
        mon(2, "DEL", "U2723QE", ControlPath::Ddc),
    ]);
    let err = e.resolve("DEL").unwrap_err().message();
    assert!(err.contains("ambiguous"), "{err}");
    assert!(err.contains("id 1") && err.contains("id 2"), "{err}");
}

#[test]
fn unmatched_selector_reports_no_match() {
    let mut e = engine(vec![mon(1, "AUS", "MB169CK", ControlPath::Ddc)]);
    assert!(matches!(e.resolve("nope"), Err(EngineError::NoMatch(_))));
}

#[test]
fn bad_vcp_code_is_rejected_before_touching_hardware() {
    let mut e = engine(vec![mon(1, "AUS", "MB169CK", ControlPath::Ddc)]);
    assert!(matches!(
        e.get("", "not-a-code"),
        Err(EngineError::BadCode(_))
    ));
    assert!(e.backend.sets.is_empty());
}

#[test]
fn set_all_writes_to_every_display() {
    let mut e = engine(vec![
        mon(1, "AUS", "MB169CK", ControlPath::Ddc),
        mon(2, "DEL", "U2720Q", ControlPath::Ddc),
    ]);
    let r = e.set("all", "brightness", 42, false).unwrap();
    assert_eq!(r.displays, 2);
    assert_eq!(e.backend.sets, vec![(1, 0x10, 42), (2, 0x10, 42)]);
}

/// The behaviour that motivated `verify`: the monitor accepts the write,
/// reports success, and changes nothing.
#[test]
fn verify_detects_a_silently_ignored_write() {
    let mut e = engine(vec![mon(1, "AUS", "MB169CK", ControlPath::Ddc)]);
    e.backend.ignores.push(0x16); // red gain, as the real MB169CK does
    e.backend.values.insert((1, 0x16), (100, 100));

    let r = e.set("", "0x16", 90, true).unwrap();
    assert_eq!(r.displays, 1);
    assert_eq!(r.ignored, vec![1], "ignored write must be reported");
}

#[test]
fn verify_passes_when_the_write_lands() {
    let mut e = engine(vec![mon(1, "AUS", "MB169CK", ControlPath::Ddc)]);
    let r = e.set("", "brightness", 42, true).unwrap();
    assert!(r.ignored.is_empty());
}

/// Without verify we cannot know, so `ignored` must stay empty rather than
/// implying the write was confirmed.
#[test]
fn without_verify_ignored_is_empty_even_for_a_lying_display() {
    let mut e = engine(vec![mon(1, "AUS", "MB169CK", ControlPath::Ddc)]);
    e.backend.ignores.push(0x10);
    let r = e.set("", "brightness", 42, false).unwrap();
    assert!(r.ignored.is_empty());
}

/// Non-continuous read-backs carry junk in the high byte; comparing the
/// full u16 would report a successful write as ignored. Real case: the
/// MB169CK answers Mute with 0x0202.
#[test]
fn verify_compares_non_continuous_values_on_the_low_byte() {
    assert!(value_matches(ValueKind::NonContinuous, 0x0202, 0x02));
    assert!(!value_matches(ValueKind::NonContinuous, 0x0203, 0x02));
    // Continuous values must still compare exactly.
    assert!(!value_matches(ValueKind::Continuous, 0x0202, 0x02));
    assert!(value_matches(ValueKind::Continuous, 42, 42));
}

/// A monitor that ignores reads for a code must not be accused of ignoring
/// the write — absence of evidence is not evidence.
#[test]
fn unreadable_code_is_not_reported_as_ignored() {
    let mut e = engine(vec![mon(1, "AUS", "MB169CK", ControlPath::Ddc)]);
    e.backend.ignores.push(0x87);
    // No entry in `values`, so get_vcp errors with Unsupported.
    let r = e.set("", "0x87", 40, true).unwrap();
    assert!(r.ignored.is_empty());
}

/// A display that NACKs everything must surface an error, not report zeros.
#[test]
fn unresponsive_display_surfaces_a_transport_error() {
    let mut e = engine(vec![mon(1, "AUS", "MB169CK", ControlPath::Ddc)]);
    e.backend.dead.push(1);
    assert!(matches!(
        e.get("", "brightness"),
        Err(EngineError::Backend(CoreError::Transport(_)))
    ));
}

#[test]
fn get_reports_kind_so_clients_do_not_invent_a_range() {
    let mut e = engine(vec![mon(1, "AUS", "MB169CK", ControlPath::Ddc)]);
    e.backend.values.insert((1, 0x60), (0x1A, 3));
    let v = e.get("", "input").unwrap();
    assert_eq!(v.kind, api::ValueKind::NonContinuous);
    assert_eq!(v.current, 0x1A);
}

#[test]
fn no_controllable_displays_is_distinct_from_no_match() {
    let mut e = engine(vec![mon(9, "XXX", "Dummy", ControlPath::Uncontrollable)]);
    assert!(matches!(e.resolve("all"), Err(EngineError::NoDisplays)));
}

#[test]
fn caps_reports_parsed_codes_and_survives_absent_string() {
    let mut e = engine(vec![mon(1, "AUS", "MB169CK", ControlPath::Ddc)]);
    e.backend
        .caps
        .insert(1, "(prot(monitor)vcp(10 12 60))".into());
    let c = e.caps("").unwrap();
    assert_eq!(c.vcp_codes, vec![0x10, 0x12, 0x60]);

    let mut e2 = engine(vec![mon(1, "AUS", "MB169CK", ControlPath::Ddc)]);
    let c2 = e2.caps("").unwrap();
    assert!(c2.raw.is_none());
    assert!(c2.vcp_codes.is_empty());
}

/// Garbage capability strings must not fail the call — the monitor still works.
#[test]
fn unparseable_caps_string_still_returns_the_raw_text() {
    let mut e = engine(vec![mon(1, "AUS", "MB169CK", ControlPath::Ddc)]);
    e.backend.caps.insert(1, "total garbage".into());
    let c = e.caps("").unwrap();
    assert_eq!(c.raw.as_deref(), Some("total garbage"));
    assert!(c.vcp_codes.is_empty());
}

/// Hot-plug invalidates cached I2C channels. The engine must notice a
/// changed display set rather than driving a dead service.
#[test]
fn hot_plug_forces_re_enumeration() {
    let mut e = engine(vec![mon(1, "AUS", "MB169CK", ControlPath::Ddc)]);
    e.resolve("").unwrap();
    let after_first = e.backend.list_calls;

    // A second display appears.
    e.backend
        .monitors
        .push(mon(2, "DEL", "U2720Q", ControlPath::Ddc));
    e.resolve("all").unwrap();
    assert!(
        e.backend.list_calls > after_first,
        "changed display set must trigger re-enumeration"
    );
    assert_eq!(e.resolve("all").unwrap().len(), 2);
}

#[test]
fn unplug_forces_re_enumeration() {
    let mut e = engine(vec![
        mon(1, "AUS", "MB169CK", ControlPath::Ddc),
        mon(2, "DEL", "U2720Q", ControlPath::Ddc),
    ]);
    assert_eq!(e.resolve("all").unwrap().len(), 2);
    e.backend.monitors.retain(|m| m.id.0 != 2);
    assert_eq!(e.resolve("all").unwrap(), vec![DisplayId(1)]);
}

/// The steady-state path must stay cheap: no enumeration when nothing moved.
#[test]
fn unchanged_display_set_does_not_re_enumerate() {
    let mut e = engine(vec![mon(1, "AUS", "MB169CK", ControlPath::Ddc)]);
    e.resolve("").unwrap();
    let baseline = e.backend.list_calls;
    for _ in 0..5 {
        e.resolve("").unwrap();
    }
    assert_eq!(e.backend.list_calls, baseline, "should not re-enumerate");
    assert!(e.backend.online_calls >= 5, "but should check cheaply");
}

// ── Profiles ───────────────────────────────────────────────────────────

#[test]
fn save_then_apply_round_trips() {
    let (mut d, mut e) = engine_with_profiles(vec![mon(1, "AUS", "MB169CK", ControlPath::Ddc)]);
    e.backend.values.insert((1, 0x10), (60, 100));
    e.backend.values.insert((1, 0x12), (75, 100));

    let s = save(&mut d, &mut e, "coding", &[VcpCode::Brightness, VcpCode::Contrast]);
    assert_eq!(s.displays, Some(1));

    e.backend.values.insert((1, 0x10), (10, 100));
    let r = e.profile_apply("coding", d.read("coding"), true, false).unwrap();
    assert_eq!(r.count(api::ApplyStatus::Applied), 2);
    assert_eq!(e.backend.values[&(1, 0x10)].0, 60);
}

/// A profile must be portable between machines, where display ids differ.
#[test]
fn save_uses_product_name_as_selector_when_unique() {
    let (mut d, mut e) = engine_with_profiles(vec![mon(7, "AUS", "MB169CK", ControlPath::Ddc)]);
    e.backend.values.insert((7, 0x10), (60, 100));
    save(&mut d, &mut e, "p", &[VcpCode::Brightness]);
    assert_eq!(e.profile_show("p", d.read("p")).unwrap().displays[0].selector, "MB169CK");
}

/// Two identical models cannot be told apart by name, so fall back to ids
/// rather than writing a profile that applies to the wrong one.
#[test]
fn save_falls_back_to_id_for_duplicate_models() {
    let (mut d, mut e) = engine_with_profiles(vec![
        mon(1, "DEL", "U2720Q", ControlPath::Ddc),
        mon(2, "DEL", "U2720Q", ControlPath::Ddc),
    ]);
    e.backend.values.insert((1, 0x10), (60, 100));
    e.backend.values.insert((2, 0x10), (60, 100));
    save(&mut d, &mut e, "p", &[VcpCode::Brightness]);
    let p = e.profile_show("p", d.read("p")).unwrap();
    let selectors: Vec<&str> = p.displays.iter().map(|d| d.selector.as_str()).collect();
    assert_eq!(selectors, vec!["1", "2"]);
}

/// Each of two identical models gets its own values back.
#[test]
fn identical_models_get_their_own_values_back() {
    let (mut d, mut e) = engine_with_profiles(vec![
        mon(1, "DEL", "U2720Q", ControlPath::Ddc),
        mon(2, "DEL", "U2720Q", ControlPath::Ddc),
    ]);
    e.backend.values.insert((1, 0x10), (60, 100));
    e.backend.values.insert((2, 0x10), (70, 100));
    save(&mut d, &mut e, "p", &[VcpCode::Brightness]);
    e.backend.values.insert((1, 0x10), (1, 100));
    e.backend.values.insert((2, 0x10), (2, 100));
    let r = e.profile_apply("p", d.read("p"), true, false).unwrap();
    assert_eq!(r.count(api::ApplyStatus::Applied), 2);
    assert_eq!(e.backend.values[&(1, 0x10)].0, 60);
    assert_eq!(e.backend.values[&(2, 0x10)].0, 70);
}

/// Only codes the display actually reports get captured.
#[test]
fn save_skips_unreadable_codes() {
    let (mut d, mut e) = engine_with_profiles(vec![mon(1, "AUS", "MB169CK", ControlPath::Ddc)]);
    e.backend.values.insert((1, 0x10), (60, 100));
    // 0x12 absent from `values`, so reads fail.
    save(&mut d, &mut e, "p", &[VcpCode::Brightness, VcpCode::Contrast]);
    let p = e.profile_show("p", d.read("p")).unwrap();
    assert_eq!(p.displays[0].settings.len(), 1);
    assert!(p.displays[0].settings.contains_key("brightness"));
}

/// A profile that silently switched inputs on apply would be a trap.
#[test]
fn save_never_captures_destructive_codes() {
    let (mut d, mut e) = engine_with_profiles(vec![mon(1, "AUS", "MB169CK", ControlPath::Ddc)]);
    e.backend.values.insert((1, 0x60), (0x11, 3));
    e.backend.values.insert((1, 0x10), (60, 100));
    save(&mut d, &mut e, "p", &[VcpCode::Brightness, VcpCode::InputSource]);
    let p = e.profile_show("p", d.read("p")).unwrap();
    assert!(!p.displays[0].settings.contains_key("input-source"));
}

/// Note the profile values must differ from what the display currently
/// holds: writing a value a display already has is indistinguishable from
/// an ignored write, because the read-back matches either way.
#[test]
fn apply_reports_settings_the_display_ignores() {
    let (mut d, mut e) = engine_with_profiles(vec![mon(1, "AUS", "MB169CK", ControlPath::Ddc)]);
    e.backend.values.insert((1, 0x10), (5, 100));
    e.backend.values.insert((1, 0x16), (100, 100));
    e.backend.ignores.push(0x16); // as the real MB169CK does

    let p = Profile {
        name: "p".into(),
        displays: vec![DisplayProfile {
            selector: "MB169CK".into(),
            settings: settings(&[("brightness", 60),
                ("red-gain", 90),]),
        }],
    };
    d.save(&p, true).unwrap();

    let r = e.profile_apply("p", d.read("p"), true, false).unwrap();
    assert_eq!(
        r.count(api::ApplyStatus::Applied),
        1,
        "brightness should land"
    );
    assert_eq!(r.count(api::ApplyStatus::Ignored), 1, "red gain is ignored");
}

/// Without verification we cannot claim anything was applied.
#[test]
fn apply_without_verify_reports_unverified_not_applied() {
    let (mut d, mut e) = engine_with_profiles(vec![mon(1, "AUS", "MB169CK", ControlPath::Ddc)]);
    e.backend.values.insert((1, 0x10), (60, 100));
    save(&mut d, &mut e, "p", &[VcpCode::Brightness]);

    let r = e.profile_apply("p", d.read("p"), false, false).unwrap();
    assert_eq!(r.count(api::ApplyStatus::Unverified), 1);
    assert_eq!(r.count(api::ApplyStatus::Applied), 0);
}

/// Dock/undock: a profile covering absent displays must still apply to the
/// ones that are present.
#[test]
fn apply_tolerates_displays_that_are_not_connected() {
    let (mut d, mut e) = engine_with_profiles(vec![mon(1, "AUS", "MB169CK", ControlPath::Ddc)]);
    e.backend.values.insert((1, 0x10), (60, 100));
    save(&mut d, &mut e, "p", &[VcpCode::Brightness]);

    // Hand-edit in a display that isn't attached.
    let mut p = e.profile_show("p", d.read("p")).unwrap();
    p.displays.push(DisplayProfile {
        selector: "U2720Q".into(),
        settings: settings(&[("brightness", 30)]),
    });
    d.save(&p, true).unwrap();

    let r = e.profile_apply("p", d.read("p"), true, false).unwrap();
    assert_eq!(r.count(api::ApplyStatus::NotConnected), 1);
    assert_eq!(r.count(api::ApplyStatus::Applied), 1);
}

/// A hand-edited profile containing an input switch must not fire silently.
#[test]
fn apply_refuses_destructive_profile_without_confirmation() {
    let (mut d, mut e) = engine_with_profiles(vec![mon(1, "AUS", "MB169CK", ControlPath::Ddc)]);
    let p = Profile {
        name: "risky".into(),
        displays: vec![DisplayProfile {
            selector: "MB169CK".into(),
            settings: settings(&[("0x60", 0x11)]),
        }],
    };
    d.save(&p, true).unwrap();

    assert!(matches!(
        e.profile_apply("risky", d.read("risky"), true, false),
        Err(EngineError::DestructiveProfile { .. })
    ));
    // Nothing was written.
    assert!(e.backend.sets.is_empty());

    e.backend.values.insert((1, 0x60), (0x1A, 3));
    assert!(e.profile_apply("risky", d.read("risky"), true, true).is_ok());
}

/// A transport failure part-way through must restore what it changed.
#[test]
fn apply_rolls_back_on_transport_failure() {
    let (mut d, mut e) = engine_with_profiles(vec![
        mon(1, "AUS", "MB169CK", ControlPath::Ddc),
        mon(2, "DEL", "U2720Q", ControlPath::Ddc),
    ]);
    e.backend.values.insert((1, 0x10), (60, 100));
    e.backend.values.insert((2, 0x10), (70, 100));

    let p = Profile {
        name: "two".into(),
        displays: vec![
            DisplayProfile {
                selector: "MB169CK".into(),
                settings: settings(&[("brightness", 10)]),
            },
            DisplayProfile {
                selector: "U2720Q".into(),
                settings: settings(&[("brightness", 20)]),
            },
        ],
    };
    d.save(&p, true).unwrap();

    // The second display dies mid-apply.
    e.refresh().unwrap();
    e.backend.dead.push(2);

    assert!(e.profile_apply("two", d.read("two"), false, false).is_err());
    // The first display's change must have been undone.
    assert_eq!(
        e.backend.values[&(1, 0x10)].0,
        60,
        "display 1 should have been rolled back to its prior value"
    );
}

#[test]
fn profile_list_reports_unparseable_profiles_rather_than_hiding_them() {
    let (mut d, mut e) = engine_with_profiles(vec![mon(1, "AUS", "MB169CK", ControlPath::Ddc)]);
    d.files.insert("/profiles/broken.toml".into(), None);
    let names = e
        .profiles()
        .list(Listing::Files(vec!["broken.toml".into()]))
        .unwrap();
    let list = e.profile_list(names.into_iter().map(|n| (n.clone(), d.read(&n))).collect());
    assert_eq!(list.len(), 1);
    assert_eq!(list[0].name, "broken");
    assert!(list[0].displays.is_none());
}

#[test]
fn profile_names_are_validated_before_hitting_the_filesystem() {
    let (mut d, mut e) = engine_with_profiles(vec![mon(1, "AUS", "MB169CK", ControlPath::Ddc)]);
    assert!(e
        .profile_save("../escape", &vec![VcpCode::Brightness], false, d.has("../escape"))
        .is_err());
    assert!(e.profile_apply("../escape", d.read("../escape"), false, false).is_err());
}

#[test]
fn info_flags_placeholder_serials() {
    let mut m = mon(1, "AUS", "MB169CK", ControlPath::Ddc);
    m.identity.serial = 0x0101_0101;
    let mut e = engine(vec![m]);
    let list = e.list().unwrap();
    assert!(!list[0].serial_trustworthy);
}

fn two_entries(first: &[(&str, u16)], second: &[(&str, u16)]) -> Profile {
    Profile {
        name: "two".into(),
        displays: vec![
            DisplayProfile {
                selector: "MB169CK".into(),
                settings: settings(first),
            },
            DisplayProfile {
                selector: "U2720Q".into(),
                settings: settings(second),
            },
        ],
    }
}

fn two_displays() -> Vec<Monitor> {
    vec![
        mon(1, "AUS", "MB169CK", ControlPath::Ddc),
        mon(2, "DEL", "U2720Q", ControlPath::Ddc),
    ]
}

/// What cannot be restored is reported.
#[test]
fn rollback_counts_what_it_cannot_restore() {
    let (mut d, mut e) = engine_with_profiles(two_displays());
    // Brightness takes writes but cannot be read beforehand.
    e.backend.values.insert((1, 0x12), (75, 100));
    let p = two_entries(&[("brightness", 10), ("contrast", 20)], &[("contrast", 30)]);
    d.save(&p, true).unwrap();
    e.refresh().unwrap();
    e.backend.dead.push(2);
    match e.profile_apply("two", d.read("two"), false, false) {
        Err(EngineError::Backend(CoreError::Transport(s))) => assert!(
            s.ends_with("applying Contrast to display 2; rolled back 1 of 2 earlier change(s)"),
            "{s}"
        ),
        other => panic!("{other:?}"),
    }
    assert_eq!(e.backend.values[&(1, 0x12)].0, 75);
    assert_eq!(e.backend.values[&(1, 0x10)].0, 10);
}

/// A platform that stops listing displays is a transport error like any other.
#[test]
fn apply_rolls_back_when_displays_cannot_be_listed() {
    let (mut d, mut e) = engine_with_profiles(two_displays());
    e.backend.values.insert((1, 0x10), (60, 100));
    d.save(&two_entries(&[("brightness", 10)], &[("brightness", 20)]), true)
        .unwrap();
    e.backend.unlisted = true;
    match e.profile_apply("two", d.read("two"), true, false) {
        Err(EngineError::Backend(CoreError::Transport(s))) => assert_eq!(
            s,
            "transport failure: hub gone; rolled back 1 of 1 earlier change(s)"
        ),
        other => panic!("{other:?}"),
    }
    assert_eq!(e.backend.values[&(1, 0x10)].0, 60);
    // With nothing changed yet there is nothing to report.
    match e.profile_apply("two", d.read("two"), true, false) {
        Err(EngineError::Backend(CoreError::Transport(s))) => assert_eq!(s, "hub gone"),
        other => panic!("{other:?}"),
    }
}

/// Whatever a profile can hold, it can be applied with.
#[test]
fn every_captured_code_is_restored() {
    let codes = [
        VcpCode::ColorPreset,
        VcpCode::OsdLanguage,
        VcpCode::SpeakerSelect,
        VcpCode::NewControlValue,
        VcpCode::RedGain,
        VcpCode::Raw(0xE1),
    ];
    let (mut d, mut e) = engine_with_profiles(vec![mon(1, "AUS", "MB169CK", ControlPath::Ddc)]);
    for (i, c) in codes.iter().enumerate() {
        e.backend.values.insert((1, c.code()), (i as u16 + 1, 100));
    }
    save(&mut d, &mut e, "all", &codes);
    for c in &codes {
        e.backend.values.insert((1, c.code()), (50, 100));
    }
    let r = e.profile_apply("all", d.read("all"), true, false).unwrap();
    assert_eq!(r.count(api::ApplyStatus::Applied), codes.len());
    for (i, c) in codes.iter().enumerate() {
        assert_eq!(e.backend.values[&(1, c.code())].0, i as u16 + 1);
    }
}

#[test]
fn a_deleted_profile_is_not_found() {
    let (mut d, e) = engine_with_profiles(two_displays());
    d.save(&two_entries(&[("brightness", 1)], &[]), true).unwrap();
    let mut other = two_entries(&[("contrast", 2)], &[]);
    other.name = "other".into();
    d.save(&other, true).unwrap();
    d.files.remove("/profiles/two.toml");
    assert!(matches!(
        e.profile_show("two", d.read("two")),
        Err(EngineError::Profile(ProfileError::NotFound(n))) if n == "two"
    ));
    assert_eq!(e.profile_show("other", d.read("other")).unwrap().name, "other");
}
