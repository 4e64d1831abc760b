//! Rules: what is accepted and what is not.

use display_studio::model::rules::{parse_time, Reading};
use display_studio::model::{Action, PowerState, Rule, RuleSet, RulesError, RulesStore, Trigger};
use display_studio::paths::FilePath;

/// What the rules file holds.
#[derive(Clone)]
enum File {
    Holds(RuleSet),
    Broken(String),
}

/// A rules file in memory: what the owner of the file system does on the store's
/// behalf.
struct Disk {
    store: RulesStore,
    file: Option<File>,
    mode: u32,
}

impl Disk {
    fn load(&self) -> Result<RuleSet, RulesError> {
        self.store.load(match &self.file {
            None => Reading::Missing,
            Some(File::Holds(set)) => Reading::Parsed(set.clone()),
            Some(File::Broken(why)) => Reading::Unparseable(why.clone()),
        })
    }

    fn save(&mut self, set: &RuleSet) -> Result<(), RulesError> {
        self.store.save(set)?;
        self.file = Some(File::Holds(set.clone()));
        Ok(())
    }

    fn is_insecure(&self) -> bool {
        self.store.is_insecure(self.file.as_ref().map(|_| self.mode))
    }
}

fn store() -> Disk {
    Disk {
        store: RulesStore::new(FilePath::of("/data/rules.toml")),
        file: None,
        mode: 0o644,
    }
}

fn rule(name: &str, trigger: Trigger, action: Action, enabled: bool) -> Rule {
    Rule {
        name: name.into(),
        trigger,
        action,
        force: false,
        enabled,
    }
}

/// Hand-editing is the supported workflow, so this shape is a contract.
#[test]
fn parses_the_documented_toml_shape() {
    let mut s = store();
    s.file = Some(File::Holds(RuleSet {
        rules: vec![
            rule(
                "docked",
                Trigger::DisplayConnected("U2720Q".into()),
                Action::Profile("docked".into()),
                true,
            ),
            rule(
                "dim-on-battery",
                Trigger::Power(PowerState::Battery),
                Action::Write {
                    display: "all".into(),
                    code: "brightness".into(),
                    value: 30,
                },
                true,
            ),
            rule(
                "night",
                Trigger::Time("22:00".into()),
                Action::Run("echo goodnight".into()),
                false,
            ),
        ],
    }));
    let set = s.load().unwrap();

    assert_eq!(set.rules.len(), 3);
    assert_eq!(
        set.rules[0].trigger,
        Trigger::DisplayConnected("U2720Q".into())
    );
    assert_eq!(set.rules[0].action, Action::Profile("docked".into()));
    assert_eq!(set.rules[1].trigger, Trigger::Power(PowerState::Battery));
    assert_eq!(
        set.rules[1].action,
        Action::Write {
            display: "all".into(),
            code: "brightness".into(),
            value: 30
        }
    );
    assert_eq!(set.rules[2].trigger, Trigger::Time("22:00".into()));
    assert!(!set.rules[2].enabled);
    // Rules are enabled unless disabled.
    assert!(set.rules[0].enabled);
    // And non-destructive unless opted in.
    assert!(!set.rules[0].force);
}

#[test]
fn round_trips_through_save_and_load() {
    let mut s = store();
    let set = RuleSet {
        rules: vec![Rule {
            name: "r".into(),
            trigger: Trigger::Time("07:30".into()),
            action: Action::Profile("morning".into()),
            force: false,
            enabled: true,
        }],
    };
    s.save(&set).unwrap();
    assert_eq!(s.load().unwrap(), set);
}

#[test]
fn missing_file_means_no_rules() {
    let s = RulesStore::new(FilePath::of("/nonexistent/rules.toml"));
    assert!(s.load(Reading::Missing).unwrap().rules.is_empty());
}

/// Catch a bad time at load, not when it should have fired.
#[test]
fn rejects_invalid_times_at_load() {
    for bad in ["25:00", "12:60", "noon", "12", "", "-1:00"] {
        let set = RuleSet {
            rules: vec![Rule {
                name: "r".into(),
                trigger: Trigger::Time(bad.into()),
                action: Action::Profile("p".into()),
                force: false,
                enabled: true,
            }],
        };
        assert!(set.validate().is_err(), "{bad:?} must be rejected");
    }
}

#[test]
fn accepts_valid_times() {
    for ok in ["00:00", "23:59", "7:05", " 22:00 "] {
        assert!(parse_time(ok).is_some(), "{ok:?} should parse");
    }
    assert_eq!(parse_time("22:00"), Some((22, 0)));
    assert_eq!(parse_time("07:05"), Some((7, 5)));
}

#[test]
fn rejects_unnamed_rules() {
    let set = RuleSet {
        rules: vec![Rule {
            name: "  ".into(),
            trigger: Trigger::Power(PowerState::Ac),
            action: Action::Profile("p".into()),
            force: false,
            enabled: true,
        }],
    };
    assert!(set.validate().is_err());
}

/// A rule must not fire because the platform could not tell us the state.
#[test]
fn rejects_a_power_trigger_on_unknown() {
    let set = RuleSet {
        rules: vec![Rule {
            name: "r".into(),
            trigger: Trigger::Power(PowerState::Unknown),
            action: Action::Profile("p".into()),
            force: false,
            enabled: true,
        }],
    };
    assert!(set.validate().is_err());
}

#[test]
fn malformed_toml_names_the_file() {
    let mut s = store();
    s.file = Some(File::Broken("unexpected `=`".into()));
    let err = s.load().unwrap_err().message();
    assert!(err.contains("rules.toml"), "{err}");
}

#[test]
fn a_world_writable_rules_file_is_flagged() {
    let mut s = store();
    s.save(&RuleSet::default()).unwrap();
    assert!(!s.is_insecure());
    s.mode = 0o666;
    assert!(s.is_insecure(), "0666 rules file must be flagged");
}

#[test]
fn rules_are_written_beside_their_file() {
    let beside = |p: &str| RulesStore::new(FilePath::of(p)).temporary().describe();
    assert_eq!(beside("/data/rules.toml"), "/data/rules.toml.tmp");
    assert_eq!(beside("rules.toml"), "rules.toml.tmp");
    assert_eq!(beside("/data/rules.conf"), "/data/rules.toml.tmp");
    assert_eq!(beside("/data/a.b.toml"), "/data/a.b.toml.tmp");
    assert_eq!(beside("/data.d/rules"), "/data.d/rules.toml.tmp");
    assert_eq!(beside("/data/.rules"), "/data/.rules.toml.tmp");
    assert_eq!(beside("/data/rules.toml/."), "/data/rules.toml.tmp");
    for p in ["", "/", ".", "..", "/data/..", "./"] {
        assert_eq!(beside(p), p);
    }
}

/// The same as the platform's own paths.
#[test]
fn extensions_are_those_of_the_platform() {
    for dir in ["", "/", "a/", "a.b/", "./", "../", "//", "a/./"] {
        for name in ["", "a", "a.b", ".a", "a.", "a.b.c", ".a.b", "a b", "..", "."] {
            for tail in ["", "/", "//", "/.", "/./", "/.."] {
                let p = format!("{dir}{name}{tail}");
                let expected = std::path::Path::new(&p).with_extension("toml.tmp");
                let found = FilePath::of(&p).with_extension("toml.tmp").describe();
                assert_eq!(Some(found.as_str()), expected.to_str(), "{p:?}");
            }
        }
    }
}

#[test]
fn what_may_be_saved_is_what_loads() {
    let s = store().store;
    let at = |time: &str| RuleSet {
        rules: vec![rule(
            "morning",
            Trigger::Time(time.into()),
            Action::Profile("day".into()),
            true,
        )],
    };
    assert!(s.save(&at("07:30")).is_ok());
    let back = s.load(Reading::Parsed(at("07:30"))).unwrap();
    assert_eq!(back.rules.len(), 1);
    assert_eq!(back.rules[0].name, "morning");
    assert!(s.save(&at("25:00")).is_err());
    assert!(s.load(Reading::Parsed(at("25:00"))).is_err());
}
