//! When rules fire.

use display_studio::daemon::automation::{matches_any, Automation, Date, WorldState};
use display_studio::model::{Action, PowerState, Rule, RuleSet, Trigger};

fn rule(name: &str, trigger: Trigger) -> Rule {
    Rule {
        name: name.into(),
        trigger,
        action: Action::Profile("p".into()),
        force: false,
        enabled: true,
    }
}

fn state(displays: &[&str], power: PowerState, h: u32, m: u32) -> WorldState {
    WorldState {
        displays: displays.iter().map(|s| s.to_string()).collect(),
        power,
        hour: h,
        minute: m,
        date: Date {
            year: 2026,
            month: 7,
            day: 16,
        },
    }
}

fn automation(rules: Vec<Rule>) -> Automation {
    Automation::new(RuleSet { rules })
}

/// The daemon starting must not look like everything was just plugged in.
#[test]
fn first_tick_establishes_a_baseline_and_fires_nothing() {
    let mut a = automation(vec![
        rule("c", Trigger::DisplayConnected("U2720Q".into())),
        rule("p", Trigger::Power(PowerState::Battery)),
    ]);
    let fired = a.tick(&state(&["U2720Q"], PowerState::Battery, 12, 0));
    assert!(
        fired.is_empty(),
        "nothing may fire on the first observation"
    );
}

#[test]
fn display_connect_fires_once_on_the_edge() {
    let mut a = automation(vec![rule("c", Trigger::DisplayConnected("U2720Q".into()))]);
    a.tick(&state(&["MB169CK"], PowerState::Ac, 12, 0));

    let fired = a.tick(&state(&["MB169CK", "U2720Q"], PowerState::Ac, 12, 0));
    assert_eq!(fired.len(), 1);

    // Still attached: must not fire again.
    let again = a.tick(&state(&["MB169CK", "U2720Q"], PowerState::Ac, 12, 1));
    assert!(again.is_empty(), "level, not edge — fired twice");
}

#[test]
fn display_disconnect_fires_on_removal() {
    let mut a = automation(vec![rule(
        "d",
        Trigger::DisplayDisconnected("U2720Q".into()),
    )]);
    a.tick(&state(&["U2720Q"], PowerState::Ac, 12, 0));
    assert_eq!(a.tick(&state(&[], PowerState::Ac, 12, 0)).len(), 1);
    assert!(a.tick(&state(&[], PowerState::Ac, 12, 0)).is_empty());
}

#[test]
fn power_change_fires_only_on_transition_into_the_target() {
    let mut a = automation(vec![rule("b", Trigger::Power(PowerState::Battery))]);
    a.tick(&state(&[], PowerState::Ac, 12, 0));
    assert_eq!(a.tick(&state(&[], PowerState::Battery, 12, 0)).len(), 1);
    assert!(a.tick(&state(&[], PowerState::Battery, 12, 1)).is_empty());
    // Back to AC, then to battery again: fires again.
    a.tick(&state(&[], PowerState::Ac, 12, 2));
    assert_eq!(a.tick(&state(&[], PowerState::Battery, 12, 3)).len(), 1);
}

/// Unknown means "could not tell", so it must not trigger anything.
#[test]
fn unknown_power_never_fires_a_rule() {
    let mut a = automation(vec![
        rule("b", Trigger::Power(PowerState::Battery)),
        rule("a", Trigger::Power(PowerState::Ac)),
    ]);
    a.tick(&state(&[], PowerState::Ac, 12, 0));
    assert!(a.tick(&state(&[], PowerState::Unknown, 12, 0)).is_empty());
}

#[test]
fn time_rule_fires_once_per_day() {
    let mut a = automation(vec![rule("n", Trigger::Time("22:00".into()))]);
    a.tick(&state(&[], PowerState::Ac, 21, 59));
    assert_eq!(a.tick(&state(&[], PowerState::Ac, 22, 0)).len(), 1);
    assert!(a.tick(&state(&[], PowerState::Ac, 22, 1)).is_empty());
    assert!(a.tick(&state(&[], PowerState::Ac, 23, 30)).is_empty());

    // Next day it fires again.
    let mut tomorrow = state(&[], PowerState::Ac, 22, 0);
    tomorrow.date = Date {
        year: 2026,
        month: 7,
        day: 17,
    };
    assert_eq!(a.tick(&tomorrow).len(), 1);
}

/// A poll that lands late, or a machine asleep at the target, must still run.
#[test]
fn time_rule_fires_when_the_poll_is_late() {
    let mut a = automation(vec![rule("n", Trigger::Time("22:00".into()))]);
    a.tick(&state(&[], PowerState::Ac, 21, 0));
    assert_eq!(
        a.tick(&state(&[], PowerState::Ac, 22, 47)).len(),
        1,
        "a late poll must still fire the rule"
    );
}

/// Starting the daemon in the evening must not replay the day's rules.
#[test]
fn time_rule_does_not_fire_retroactively_on_startup() {
    let mut a = automation(vec![rule("n", Trigger::Time("22:00".into()))]);
    assert!(a.tick(&state(&[], PowerState::Ac, 23, 0)).is_empty());
}

#[test]
fn disabled_rules_never_fire() {
    let mut r = rule("c", Trigger::DisplayConnected("U2720Q".into()));
    r.enabled = false;
    let mut a = automation(vec![r]);
    a.tick(&state(&[], PowerState::Ac, 12, 0));
    assert!(a
        .tick(&state(&["U2720Q"], PowerState::Ac, 12, 0))
        .is_empty());
}

#[test]
fn selector_matching_is_case_insensitive_and_substring() {
    let mut a = automation(vec![rule("c", Trigger::DisplayConnected("u2720".into()))]);
    a.tick(&state(&[], PowerState::Ac, 12, 0));
    assert_eq!(
        a.tick(&state(&["DEL U2720Q"], PowerState::Ac, 12, 0)).len(),
        1
    );
}

/// Editing rules must not replay connect events for displays already there.
#[test]
fn reloading_rules_does_not_refire_for_already_attached_displays() {
    let mut a = automation(vec![]);
    a.tick(&state(&["U2720Q"], PowerState::Ac, 12, 0));

    a.replace(RuleSet {
        rules: vec![rule("c", Trigger::DisplayConnected("U2720Q".into()))],
    });
    assert!(
        a.tick(&state(&["U2720Q"], PowerState::Ac, 12, 1))
            .is_empty(),
        "already-attached display must not fire a connect rule after reload"
    );
}

#[test]
fn multiple_rules_can_fire_from_one_observation() {
    let mut a = automation(vec![
        rule("c", Trigger::DisplayConnected("U2720Q".into())),
        rule("b", Trigger::Power(PowerState::Battery)),
    ]);
    a.tick(&state(&[], PowerState::Ac, 12, 0));
    let fired = a.tick(&state(&["U2720Q"], PowerState::Battery, 12, 0));
    assert_eq!(fired.len(), 2);
}

#[test]
fn fired_rules_keep_their_order() {
    let mut a = automation(vec![
        rule("second", Trigger::Power(PowerState::Battery)),
        rule("first", Trigger::DisplayConnected("U2720Q".into())),
    ]);
    a.tick(&state(&[], PowerState::Ac, 12, 0));
    let fired = a.tick(&state(&["U2720Q"], PowerState::Battery, 12, 0));
    let names: Vec<&str> = fired.iter().map(|r| r.name.as_str()).collect();
    assert_eq!(names, vec!["second", "first"]);
}

#[test]
fn all_matches_any_attached_display() {
    assert!(matches_any(&vec!["3".to_string()], "ALL"));
    assert!(!matches_any(&vec![], "all"));
    assert!(!matches_any(&vec!["MB169CK".to_string()], "U2720Q"));
    // Case folding is not only of ASCII.
    assert!(matches_any(&vec!["BÜRO".to_string()], "büro"));
}

#[test]
fn a_time_that_is_none_never_fires() {
    let mut a = automation(vec![rule("n", Trigger::Time("25:00".into()))]);
    a.tick(&state(&[], PowerState::Ac, 21, 0));
    assert!(a.tick(&state(&[], PowerState::Ac, 23, 59)).is_empty());
}

/// The clock is read, so only what holds of every moment can be tested.
#[test]
fn the_world_now_has_a_time_of_day() {
    let w = WorldState::now(vec!["3".to_string()], PowerState::Ac);
    assert!(w.hour < 24 && w.minute < 60);
    assert!((1..=12).contains(&w.date.month) && (1..=31).contains(&w.date.day));
    assert!(w.date.year >= 2024);
    assert_eq!(w.displays, vec!["3".to_string()]);
    assert_eq!(w.power, PowerState::Ac);
}

/// A start late in the day rests the day's earlier rules for that day, and only
/// those.
#[test]
fn a_late_start_does_not_replay_the_day() {
    let mut a = automation(vec![
        rule("n", Trigger::Time("22:00".into())),
        rule("m", Trigger::Time("23:30".into())),
    ]);
    assert!(a.tick(&state(&[], PowerState::Ac, 23, 0)).is_empty());
    assert!(a.tick(&state(&[], PowerState::Ac, 23, 1)).is_empty());
    let fired = a.tick(&state(&[], PowerState::Ac, 23, 45));
    assert_eq!(fired.len(), 1);
    assert_eq!(fired[0].name, "m");
    let mut tomorrow = state(&[], PowerState::Ac, 22, 10);
    tomorrow.date.day = 17;
    let fired = a.tick(&tomorrow);
    assert_eq!(fired.len(), 1, "the next day is a new one");
    assert_eq!(fired[0].name, "n");
}

#[test]
fn no_rule_fires_on_unknown_power() {
    let mut a = automation(vec![rule("u", Trigger::Power(PowerState::Unknown))]);
    a.tick(&state(&[], PowerState::Ac, 12, 0));
    assert!(a.tick(&state(&[], PowerState::Unknown, 12, 0)).is_empty());
}

/// A reload is no reason to fire a rule twice a day.
#[test]
fn reloading_rules_does_not_refire_time_rules() {
    let rules = || vec![rule("n", Trigger::Time("22:00".into()))];
    let mut a = automation(rules());
    a.tick(&state(&[], PowerState::Ac, 21, 59));
    assert_eq!(a.tick(&state(&[], PowerState::Ac, 22, 0)).len(), 1);
    a.replace(RuleSet { rules: rules() });
    assert!(a.tick(&state(&[], PowerState::Ac, 22, 1)).is_empty());
}
