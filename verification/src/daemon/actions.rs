//! Running what a rule asks for.
//!
//! What the engine can do itself it does. A profile has to be read and a command
//! has to be started first: for those [`Engine::execute`] says what is needed,
//! and the matching second half takes what came of it.

use crate::api;
use crate::api::ApplyStatus;
use crate::daemon::apply;
use crate::daemon::automation;
use crate::daemon::automation::{Automation, WorldState};
use crate::daemon::engine;
use crate::daemon::engine::Engine;
use crate::daemon::selection::{EngineError, Result};
use crate::ddc::vcp;
use crate::model;
use crate::model::profile::Reading;
use crate::model::rules;
use crate::model::{Action, Call, DisplayBackend, Monitor, PowerState, Rule, RuleSet};
use crate::text;
use crate::trace;
use vstd::prelude::*;

verus! {

// ── Observing ──────────────────────────────────────────────────────────────

/// The names of a display for rule matching: its id, and vendor and product
/// where it has a product name, so a selector can use either.
pub open spec fn names_of(m: Monitor) -> Seq<Seq<char>> {
    if m.identity.product_name@.len() == 0 {
        seq![text::decimal(m.id.0 as nat)]
    } else {
        seq![
            text::decimal(m.id.0 as nat),
            m.identity.vendor@ + " "@ + m.identity.product_name@,
        ]
    }
}

/// The names of displays for rule matching.
pub open spec fn all_names(monitors: Seq<Monitor>) -> Seq<Seq<char>>
    decreases monitors.len(),
{
    if monitors.len() == 0 {
        Seq::empty()
    } else {
        all_names(monitors.drop_last()) + names_of(monitors.last())
    }
}

/// What the platform says of power, as a result of the engine.
pub open spec fn power_said(answer: model::Result<PowerState>, r: Result<PowerState>) -> bool {
    match answer {
        Ok(p) => r == Ok::<PowerState, EngineError>(p),
        Err(e) => r == Err::<PowerState, EngineError>(EngineError::Backend(e)),
    }
}

/// Whether these are the calls of a backend that is asked for its power source and
/// gives this answer: one call of the platform, or none where the backend leaves
/// the question alone and does not know.
pub open spec fn power_asked(cs: Seq<Call>, answer: model::Result<PowerState>) -> bool {
    ||| cs.len() == 0 && answer == Ok::<PowerState, model::Error>(PowerState::Unknown)
    ||| cs.len() == 1 && cs[0] == (Call::PowerSource { result: answer })
}

/// Whether `answer` is the backend's own: one that a call of its `power_source`
/// gives.
pub open spec fn power_given<B: DisplayBackend>(
    backend: B,
    answer: model::Result<PowerState>,
) -> bool {
    exists|b: &mut B| *b == backend && #[trigger] call_ensures(B::power_source, (b,), answer)
}

/// What the platform says of power, as a result of the engine.
pub fn take_power(answer: model::Result<PowerState>) -> (r: Result<PowerState>)
    ensures
        power_said(answer, r),
{
    match answer {
        Ok(p) => Ok(p),
        Err(e) => Err(EngineError::Backend(e)),
    }
}

impl<B: DisplayBackend> Engine<B> {
    /// Names attached displays for rule matching: product name plus id, so a
    /// selector can use either.
    pub fn display_names(&mut self) -> (r: Result<Vec<String>>)
        ensures
            final(self).rest_kept(*old(self)),
            final(self).follows(*old(self)),
            engine::checked(
                final(self).calls_since(*old(self)),
                old(self).monitors@,
                final(self).monitors@,
            ),
            match engine::fault_in(final(self).calls_since(*old(self))) {
                Some(e) => r == Err::<Vec<String>, EngineError>(EngineError::Backend(e)),
                None => r matches Ok(v) && text::texts(v@) == all_names(final(self).monitors@),
            },
    {
        match self.ensure() {
            Ok(_) => {},
            Err(e) => return Err(e),
        }
        let mut out: Vec<String> = Vec::new();
        let mut i: usize = 0;
        assert(text::texts(out@) =~= Seq::<Seq<char>>::empty());
        while i < self.monitors.len()
            invariant
                i <= self.monitors@.len(),
                text::texts(out@) == all_names(self.monitors@.take(i as int)),
            decreases self.monitors@.len() - i,
        {
            assert(self.monitors@.take(i + 1).drop_last() =~= self.monitors@.take(i as int));
            let ghost before = text::texts(out@);
            let m = &self.monitors[i];
            out.push(m.id.describe());
            if !text::empty(m.identity.product_name.as_str()) {
                out.push(
                    text::between(
                        m.identity.vendor.as_str(),
                        " ",
                        m.identity.product_name.as_str(),
                    ),
                );
            }
            assert(text::texts(out@) =~= before + names_of(*m));
            i = i + 1;
        }
        assert(self.monitors@.take(i as int) =~= self.monitors@);
        Ok(out)
    }

    /// Where the machine gets its power from, by the backend's own answer.
    pub fn power_source(&mut self) -> (r: Result<PowerState>)
        ensures
            final(self).rest_kept(*old(self)),
            final(self).monitors == old(self).monitors,
            final(self).follows(*old(self)),
            exists|answer: model::Result<PowerState>| #[trigger]
                power_asked(final(self).calls_since(*old(self)), answer) && power_given(
                    old(self).backend,
                    answer,
                ) && power_said(answer, r),
    {
        let ghost c0 = self.backend.calls();
        let ghost before = self.backend;
        let answer = self.backend.power_source();
        let ghost said = answer;
        proof {
            assert(power_given(before, said));
            trace::lemma_same(c0);
            trace::lemma_one(c0, Call::PowerSource { result: said });
            assert(power_asked(self.calls_since(*old(self)), said));
        }
        take_power(answer)
    }
}

// ── Acting ─────────────────────────────────────────────────────────────────

/// What running a rule's action amounts to so far.
#[derive(Debug)]
pub enum Step {
    /// It is over.
    Done(Result<String>),
    /// The profile of this name has to be read.
    LoadProfile(String),
    /// This shell command has to be started.
    Spawn(String),
}

/// What is said of a value that a rule wrote.
pub open spec fn write_text(code: Seq<char>, value: u16, done: api::SetResult) -> Seq<char> {
    let head = "set "@ + code + "="@ + text::decimal(value as nat) + " on "@ + text::decimal(
        done.displays as nat,
    ) + " display(s)"@;
    if done.ignored@.len() == 0 {
        head
    } else {
        head + " ("@ + text::decimal(done.ignored@.len()) + " ignored it)"@
    }
}

/// What is said of a profile that a rule applied.
pub open spec fn apply_text(name: Seq<char>, done: api::ApplyResult) -> Seq<char> {
    "applied profile "@ + text::quoted(name) + ": "@ + text::decimal(
        api::status_count(done.outcomes@, ApplyStatus::Applied),
    ) + " confirmed, "@ + text::decimal(
        api::status_count(done.outcomes@, ApplyStatus::Ignored),
    ) + " ignored"@
}

/// Whether a rule must not write this code: it cannot be undone, and the rule
/// did not opt in.
pub open spec fn forbidden(code: Seq<char>, force: bool) -> bool {
    vcp::code_parsed(code) matches Some(c) && vcp::destructive(c) && !force
}

/// Whether `cs` is a rule's value written, read back, and put in words.
pub open spec fn wrote_by_rule(
    cs: Seq<Call>,
    m0: Seq<Monitor>,
    m1: Seq<Monitor>,
    cool0: Map<u32, u128>,
    cool1: Map<u32, u128>,
    display: Seq<char>,
    code: Seq<char>,
    value: u16,
    r: Result<String>,
) -> bool {
    exists|done: Result<api::SetResult>| #[trigger]
        engine::set_done(cs, m0, m1, cool0, cool1, display, code, value, true, done) && match done {
            Ok(d) => r matches Ok(s) && s@ == write_text(code, value, d),
            Err(e) => r == Err::<String, EngineError>(e),
        }
}

/// Whether `cs` is what running a rule's action does at first.
pub open spec fn executed(
    cs: Seq<Call>,
    m0: Seq<Monitor>,
    m1: Seq<Monitor>,
    cool0: Map<u32, u128>,
    cool1: Map<u32, u128>,
    rule: Rule,
    step: Step,
) -> bool {
    match rule.action {
        Action::Profile(name) => {
            &&& cs.len() == 0
            &&& m1 == m0
            &&& cool1 == cool0
            &&& step matches Step::LoadProfile(n) && n@ == name@
        },
        Action::Run(cmd) => {
            &&& cs.len() == 0
            &&& m1 == m0
            &&& cool1 == cool0
            &&& step matches Step::Spawn(c) && c@ == cmd@
        },
        Action::Write { display, code, value } => if forbidden(code@, rule.force) {
            &&& cs.len() == 0
            &&& m1 == m0
            &&& cool1 == cool0
            &&& step matches Step::Done(Err(EngineError::DestructiveProfile { name, code: c }))
                && name@ == rule.name@ && c@ == vcp::code_label(vcp::code_parsed(code@)->Some_0)
        } else {
            step matches Step::Done(r) && wrote_by_rule(
                cs,
                m0,
                m1,
                cool0,
                cool1,
                display@,
                code@,
                value,
                r,
            )
        },
    }
}

/// Whether `cs` is a rule's profile applied and put in words.
pub open spec fn applied_by_rule(
    cs: Seq<Call>,
    m0: Seq<Monitor>,
    m1: Seq<Monitor>,
    dir: Seq<u8>,
    name: Seq<char>,
    found: Reading,
    force: bool,
    r: Result<String>,
) -> bool {
    exists|done: Result<api::ApplyResult>| #[trigger]
        apply::applied(cs, m0, m1, dir, name, found, true, force, done) && match done {
            Ok(d) => r matches Ok(s) && s@ == apply_text(name, d),
            Err(e) => r == Err::<String, EngineError>(e),
        }
}

impl<B: DisplayBackend> Engine<B> {
    /// Run a rule's action, as far as the engine alone can.
    ///
    /// `force` comes from the rule, not from a global: a rule that switches
    /// inputs must opt in explicitly, because it fires unattended and a wrong
    /// input leaves the user with no picture to fix it with.
    pub fn execute(&mut self, rule: &Rule) -> (step: Step)
        ensures
            final(self).profiles == old(self).profiles,
            final(self).clock == old(self).clock,
            final(self).follows(*old(self)),
            executed(
                final(self).calls_since(*old(self)),
                old(self).monitors@,
                final(self).monitors@,
                old(self).read_cooldown@,
                final(self).read_cooldown@,
                *rule,
                step,
            ),
    {
        proof {
            trace::lemma_same(self.backend.calls());
        }
        match &rule.action {
            Action::Profile(name) => Step::LoadProfile(name.clone()),
            Action::Run(cmd) => Step::Spawn(cmd.clone()),
            Action::Write { display, code, value } => {
                if let Some(c) = vcp::parse_code(code.as_str()) {
                    if c.is_destructive() && !rule.force {
                        return Step::Done(
                            Err(
                                EngineError::DestructiveProfile {
                                    name: rule.name.clone(),
                                    code: c.display_name(),
                                },
                            ),
                        );
                    }
                }
                let done = self.set(display.as_str(), code.as_str(), *value, true);
                assert(engine::set_done(
                    self.calls_since(*old(self)),
                    old(self).monitors@,
                    self.monitors@,
                    old(self).read_cooldown@,
                    self.read_cooldown@,
                    display@,
                    code@,
                    *value,
                    true,
                    done,
                ));
                match done {
                    Ok(d) => {
                        let mut out = text::between("set ", code.as_str(), "=");
                        out.append(text::write_decimal(*value as u64).as_str());
                        out.append(" on ");
                        out.append(text::write_decimal(d.displays as u64).as_str());
                        out.append(" display(s)");
                        if d.ignored.len() > 0 {
                            out.append(" (");
                            out.append(text::write_decimal(d.ignored.len() as u64).as_str());
                            out.append(" ignored it)");
                        }
                        Step::Done(Ok(out))
                    },
                    Err(e) => Step::Done(Err(e)),
                }
            },
        }
    }

    /// Apply the profile that a rule names, given what reading its file came to.
    pub fn execute_profile(&mut self, rule: &Rule, name: &str, found: Reading) -> (r: Result<
        String,
    >)
        ensures
            final(self).rest_kept(*old(self)),
            final(self).follows(*old(self)),
            applied_by_rule(
                final(self).calls_since(*old(self)),
                old(self).monitors@,
                final(self).monitors@,
                old(self).profiles.dir@,
                name@,
                found,
                rule.force,
                r,
            ),
    {
        let done = self.profile_apply(name, found, true, rule.force);
        assert(apply::applied(
            self.calls_since(*old(self)),
            old(self).monitors@,
            self.monitors@,
            old(self).profiles.dir@,
            name@,
            found,
            true,
            rule.force,
            done,
        ));
        match done {
            Ok(d) => {
                let confirmed: usize = d.count(ApplyStatus::Applied);
                let ignored: usize = d.count(ApplyStatus::Ignored);
                let mut out = text::between("applied profile ", text::quote(name).as_str(), ": ");
                out.append(text::write_decimal(confirmed as u64).as_str());
                out.append(" confirmed, ");
                out.append(text::write_decimal(ignored as u64).as_str());
                out.append(" ignored");
                Ok(out)
            },
            Err(e) => Err(e),
        }
    }
}

/// What is said of a command, by whether it could be started.
pub open spec fn started(
    cmd: Seq<char>,
    outcome: core::result::Result<u32, String>,
    r: Result<String>,
) -> bool {
    match outcome {
        Ok(pid) => r matches Ok(s) && s@ == "spawned "@ + text::quoted(cmd) + " (pid "@
            + text::decimal(pid as nat) + ")"@,
        Err(why) => r matches Err(EngineError::Backend(model::Error::Transport(s))) && s@
            == "cannot run "@ + text::quoted(cmd) + ": "@ + why@,
    }
}

/// Put in words whether a rule's command could be started.
///
/// It is not waited on: a rule that launches a long-running program must not
/// wedge the I2C worker, which is shared by every other request.
pub fn report_command(cmd: &str, outcome: core::result::Result<u32, String>) -> (r: Result<String>)
    ensures
        started(cmd@, outcome, r),
{
    match outcome {
        Ok(pid) => {
            let mut out = text::between("spawned ", text::quote(cmd).as_str(), " (pid ");
            out.append(text::write_decimal(pid as u64).as_str());
            out.append(")");
            Ok(out)
        },
        Err(why) => {
            let mut out = text::between("cannot run ", text::quote(cmd).as_str(), ": ");
            out.append(why.as_str());
            Err(EngineError::Backend(model::Error::Transport(out)))
        },
    }
}

/// Whether a report says what became of a rule that fired.
pub open spec fn reports_rule(f: api::RuleFired, rule: Rule, outcome: Result<String>) -> bool {
    &&& f.name@ == rule.name@
    &&& f.ok == (outcome is Ok)
    &&& match outcome {
        Ok(s) => f.detail@ == s@,
        Err(e) => f.detail@ == crate::daemon::selection::error_text(e),
    }
}

/// Say what became of a rule that fired. One failing rule must not stop the
/// others: they are independent, and a monitor that does not answer should not
/// disable the user's whole automation.
pub fn report_rule(rule: &Rule, outcome: Result<String>) -> (f: api::RuleFired)
    ensures
        reports_rule(f, *rule, outcome),
{
    match outcome {
        Ok(detail) => api::RuleFired { name: rule.name.clone(), ok: true, detail },
        Err(e) => api::RuleFired { name: rule.name.clone(), ok: false, detail: e.message() },
    }
}

/// Whether `infos` lists rules as clients see them.
pub open spec fn lists_rules(infos: Seq<api::RuleInfo>, list: Seq<Rule>) -> bool {
    &&& infos.len() == list.len()
    &&& forall|i: int|
        0 <= i < infos.len() ==> {
            &&& (#[trigger] infos[i]).name@ == list[i].name@
            &&& infos[i].trigger@ == rules::trigger_text(list[i].trigger)
            &&& infos[i].action@ == rules::action_text(list[i].action)
            &&& infos[i].enabled == list[i].enabled
            &&& infos[i].force == list[i].force
        }
}

/// Rules as clients see them.
pub fn rule_infos(set: &RuleSet) -> (r: Vec<api::RuleInfo>)
    ensures
        lists_rules(r@, set.rules@),
{
    let mut out: Vec<api::RuleInfo> = Vec::new();
    let mut i: usize = 0;
    while i < set.rules.len()
        invariant
            i <= set.rules@.len(),
            lists_rules(out@, set.rules@.take(i as int)),
        decreases set.rules@.len() - i,
    {
        let r = &set.rules[i];
        let info = api::RuleInfo {
            name: r.name.clone(),
            trigger: r.trigger.describe(),
            action: r.action.describe(),
            enabled: r.enabled,
            force: r.force,
        };
        let ghost before = out@;
        out.push(info);
        i = i + 1;
        assert forall|k: int| 0 <= k < out@.len() implies {
            &&& (#[trigger] out@[k]).name@ == set.rules@.take(i as int)[k].name@
            &&& out@[k].trigger@ == rules::trigger_text(set.rules@.take(i as int)[k].trigger)
            &&& out@[k].action@ == rules::action_text(set.rules@.take(i as int)[k].action)
            &&& out@[k].enabled == set.rules@.take(i as int)[k].enabled
            &&& out@[k].force == set.rules@.take(i as int)[k].force
        } by {
            if k < i - 1 {
                assert(out@[k] == before[k]);
                assert(set.rules@.take(i as int)[k] == set.rules@.take(i - 1)[k]);
            }
        }
    }
    assert(set.rules@.take(i as int) =~= set.rules@);
    out
}

// ── A tick ─────────────────────────────────────────────────────────────────

/// Which rules fire for a world observed at a time.
pub open spec fn tick_fires(
    a: Automation,
    b: Automation,
    w: WorldState,
    fired: Seq<Rule>,
) -> bool {
    let (rules, times) = automation::fired_of(a.rules.rules@, a.last, a.since, w, a.time_fired@);
    &&& fired == rules
    &&& b.time_fired@ == times
    &&& b.rules == a.rules
    &&& b.last matches Some(l) && automation::same_world(l, w)
    &&& b.since == Some(automation::begun(a.since, w))
}

/// Whether `w` is the world with these displays and this power at a time that the
/// local clock gives.
pub open spec fn observed(w: WorldState, monitors: Seq<Monitor>, power: PowerState) -> bool {
    &&& text::texts(w.displays@) == all_names(monitors)
    &&& w.power == power
    &&& automation::told(w.time())
    &&& w.hour < 24
    &&& w.minute < 60
    &&& 1 <= w.date.month <= 12
    &&& 1 <= w.date.day <= 31
}

/// Whether `r` is what comes of the platform's answer on power: the rules that
/// fire for the world with that power, or the platform's error and no change.
pub open spec fn weighed(
    answer: model::Result<PowerState>,
    monitors: Seq<Monitor>,
    a0: Automation,
    a1: Automation,
    r: Result<Vec<Rule>>,
) -> bool {
    match answer {
        Ok(power) => r matches Ok(fired) && exists|w: WorldState| #[trigger]
            observed(w, monitors, power) && tick_fires(a0, a1, w, fired@),
        Err(e) => a1 == a0 && r == Err::<Vec<Rule>, EngineError>(EngineError::Backend(e)),
    }
}

/// Whether `answer` is what the backend gave, once it had made these calls, when it
/// was asked for its power source.
pub open spec fn power_given_after<B: DisplayBackend>(
    cs: Seq<Call>,
    answer: model::Result<PowerState>,
) -> bool {
    exists|b: B| b.calls() == cs && #[trigger] power_given(b, answer)
}

/// Whether `cs`, after the calls `past`, is a tick: a check of the displays and,
/// where that goes well, the platform asked for its power source.
pub open spec fn ticked<B: DisplayBackend>(
    past: Seq<Call>,
    cs: Seq<Call>,
    m0: Seq<Monitor>,
    m1: Seq<Monitor>,
    a0: Automation,
    a1: Automation,
    r: Result<Vec<Rule>>,
) -> bool {
    exists|n: int|
        {
            &&& 0 <= n <= cs.len()
            &&& engine::checked(#[trigger] cs.take(n), m0, m1)
            &&& match engine::fault_in(cs.take(n)) {
                Some(f) => n == cs.len() && a1 == a0 && r == Err::<Vec<Rule>, EngineError>(
                    EngineError::Backend(f),
                ),
                None => exists|answer: model::Result<PowerState>| #[trigger]
                    power_asked(cs.skip(n), answer) && power_given_after::<B>(
                        past + cs.take(n),
                        answer,
                    ) && weighed(answer, m1, a0, a1, r),
            }
        }
}

/// Gather the world and say which rules fire. The rest of a tick is
/// [`Engine::execute`] and [`report_rule`] for each of them in turn.
pub fn begin_tick<B: DisplayBackend>(e: &mut Engine<B>, a: &mut Automation) -> (r: Result<Vec<Rule>>)
    ensures
        final(e).rest_kept(*old(e)),
        final(e).follows(*old(e)),
        ticked::<B>(
            old(e).backend.calls(),
            final(e).calls_since(*old(e)),
            old(e).monitors@,
            final(e).monitors@,
            *old(a),
            *final(a),
            r,
        ),
{
    let ghost c0 = e.backend.calls();
    let listed = e.display_names();
    let ghost c1 = e.backend.calls();
    let ghost n = trace::since(c0, c1).len() as int;
    proof {
        trace::lemma_same(c1);
        trace::lemma_chain(c0, c1, c1);
        assert(trace::since(c0, c1).take(n) =~= trace::since(c0, c1));
    }
    let displays = match listed {
        Ok(d) => d,
        Err(f) => return Err(f),
    };
    let ghost there = e.backend;
    let asked = e.power_source();
    let ghost c2 = e.backend.calls();
    let ghost answer = choose|answer: model::Result<PowerState>| #[trigger]
        power_asked(trace::since(c1, c2), answer) && power_given(there, answer) && power_said(
            answer,
            asked,
        );
    proof {
        assert(c0 + trace::since(c0, c1) =~= c1);
        assert(power_given_after::<B>(c1, answer));
        trace::lemma_chain(c0, c1, c2);
        assert(engine::checked(trace::since(c0, c2).take(n), old(e).monitors@, e.monitors@));
        assert(power_asked(trace::since(c0, c2).skip(n), answer));
    }
    let power = match asked {
        Ok(p) => p,
        Err(f) => return Err(f),
    };
    let now = WorldState::now(displays, power);
    let fired = a.tick(&now);
    assert(observed(now, e.monitors@, power));
    Ok(fired)
}

// ── Laws ───────────────────────────────────────────────────────────────────

/// A rule finds a display by its number, and by its maker and its product where it has a
/// product name. No rule finds a display by anything else.
pub proof fn law_displays_are_found_by_number_and_name(monitors: Seq<Monitor>, i: int, n: Seq<char>)
    ensures
        0 <= i < monitors.len() ==> all_names(monitors).contains(
            text::decimal(monitors[i].id.0 as nat),
        ),
        0 <= i < monitors.len() && monitors[i].identity.product_name@.len() > 0 ==> all_names(
            monitors,
        ).contains(monitors[i].identity.vendor@ + " "@ + monitors[i].identity.product_name@),
        all_names(monitors).contains(n) ==> exists|k: int| #[trigger] goes_by(monitors, k, n),
    decreases monitors.len(),
{
    if monitors.len() > 0 {
        let rest = monitors.drop_last();
        let last = monitors.last();
        let own = names_of(last);
        let was = all_names(rest);
        let all = all_names(monitors);
        let end = monitors.len() - 1;
        law_displays_are_found_by_number_and_name(rest, i, n);
        assert(own[0] == text::decimal(last.id.0 as nat));
        assert(all[was.len() as int] == own[0]);
        if last.identity.product_name@.len() > 0 {
            assert(all[was.len() as int + 1] == own[1]);
        }
        if 0 <= i < rest.len() {
            assert(rest[i] == monitors[i]);
            let id = text::decimal(monitors[i].id.0 as nat);
            let k = choose|k: int| 0 <= k < was.len() && was[k] == id;
            assert(all[k] == id);
            if monitors[i].identity.product_name@.len() > 0 {
                let name = monitors[i].identity.vendor@ + " "@ + monitors[i].identity.product_name@;
                let k = choose|k: int| 0 <= k < was.len() && was[k] == name;
                assert(all[k] == name);
            }
        }
        if all.contains(n) {
            let k = choose|k: int| 0 <= k < all.len() && all[k] == n;
            if k < was.len() {
                assert(was[k] == n);
                let j = choose|j: int| #[trigger] goes_by(rest, j, n);
                assert(goes_by(monitors, j, n));
            } else {
                assert(own[k - was.len()] == n);
                assert(goes_by(monitors, end, n));
            }
        }
    }
}

/// Whether a display goes by a name: its number, or its maker and product.
pub open spec fn goes_by(monitors: Seq<Monitor>, k: int, n: Seq<char>) -> bool {
    &&& 0 <= k < monitors.len()
    &&& {
        ||| n == text::decimal(monitors[k].id.0 as nat)
        ||| monitors[k].identity.product_name@.len() > 0 && n == monitors[k].identity.vendor@ + " "@
            + monitors[k].identity.product_name@
    }
}

/// The platform's answer on power, or its error, is passed on as it is.
pub proof fn law_power_is_passed_on(answer: model::Result<PowerState>, r: Result<PowerState>)
    requires
        power_said(answer, r),
    ensures
        r is Ok <==> answer is Ok,
        answer is Ok ==> r->Ok_0 == answer->Ok_0,
        answer is Err ==> r->Err_0 is Backend && r->Err_0->Backend_0 == answer->Err_0,
{
}

/// A rule that would write a code that cannot be undone, and that was not told to, writes
/// nothing and says which rule it is and which code. Every other rule that writes does,
/// with the value, the code and the displays that it names, and checks what it wrote.
pub proof fn law_rules_write_what_they_may(
    cs: Seq<Call>,
    m0: Seq<Monitor>,
    m1: Seq<Monitor>,
    cool0: Map<u32, u128>,
    cool1: Map<u32, u128>,
    rule: Rule,
    step: Step,
) -> (done: Result<api::SetResult>)
    requires
        executed(cs, m0, m1, cool0, cool1, rule, step),
        rule.action is Write,
    ensures
        ({
            let code = rule.action->code@;
            let parsed = vcp::code_parsed(code);
            let refused = parsed is Some && vcp::destructive(parsed->Some_0) && !rule.force;
            &&& step is Done
            &&& refused ==> {
                &&& cs.len() == 0
                &&& step->Done_0 is Err
                &&& step->Done_0->Err_0 is DestructiveProfile
                &&& step->Done_0->Err_0->DestructiveProfile_name@ == rule.name@
                &&& step->Done_0->Err_0->DestructiveProfile_code@ == vcp::code_label(
                    parsed->Some_0,
                )
            }
            &&& !refused ==> {
                &&& engine::set_done(
                    cs,
                    m0,
                    m1,
                    cool0,
                    cool1,
                    rule.action->display@,
                    code,
                    rule.action->value,
                    true,
                    done,
                )
                &&& done is Err ==> step->Done_0 is Err && step->Done_0->Err_0 == done->Err_0
                &&& done is Ok ==> step->Done_0 is Ok && step->Done_0->Ok_0@ == ("set "@ + code
                    + "="@ + text::decimal(rule.action->value as nat) + " on "@ + text::decimal(
                    done->Ok_0.displays as nat,
                ) + " display(s)"@ + if done->Ok_0.ignored@.len() > 0 {
                    " ("@ + text::decimal(done->Ok_0.ignored@.len()) + " ignored it)"@
                } else {
                    Seq::empty()
                })
            }
        }),
{
    let code = rule.action->code@;
    let value = rule.action->value;
    let display = rule.action->display@;
    if forbidden(code, rule.force) {
        Err(EngineError::Backend(model::Error::Transport(arbitrary())))
    } else {
        let r = step->Done_0;
        assert(wrote_by_rule(cs, m0, m1, cool0, cool1, display, code, value, r));
        let done = choose|done: Result<api::SetResult>| #[trigger]
            engine::set_done(cs, m0, m1, cool0, cool1, display, code, value, true, done)
                && match done {
                Ok(d) => r matches Ok(s) && s@ == write_text(code, value, d),
                Err(e) => r == Err::<String, EngineError>(e),
            };
        if let Ok(d) = done {
            let head = "set "@ + code + "="@ + text::decimal(value as nat) + " on "@
                + text::decimal(d.displays as nat) + " display(s)"@;
            assert(head + Seq::<char>::empty() =~= head);
            if d.ignored@.len() > 0 {
                assert(head + " ("@ + text::decimal(d.ignored@.len()) + " ignored it)"@ =~= head + (
                " ("@ + text::decimal(d.ignored@.len()) + " ignored it)"@));
            }
        }
        done
    }
}

/// A rule that applies a profile asks for the profile of its own name, and one that runs a
/// command for that command. Neither touches a display before.
pub proof fn law_rules_ask_for_their_profile_or_command(
    cs: Seq<Call>,
    m0: Seq<Monitor>,
    m1: Seq<Monitor>,
    cool0: Map<u32, u128>,
    cool1: Map<u32, u128>,
    rule: Rule,
    step: Step,
)
    requires
        executed(cs, m0, m1, cool0, cool1, rule, step),
        !(rule.action is Write),
    ensures
        cs.len() == 0,
        m1 == m0,
        cool1 == cool0,
        rule.action is Profile ==> step is LoadProfile && step->LoadProfile_0@
            == rule.action->Profile_0@,
        rule.action is Run ==> step is Spawn && step->Spawn_0@ == rule.action->Run_0@,
{
}

/// A rule applies its profile with every value checked, and past the question whether to
/// only where it was told to. It says how many values were confirmed and how many ignored,
/// and passes on why it could not.
pub proof fn law_rules_apply_checked_profiles(
    cs: Seq<Call>,
    m0: Seq<Monitor>,
    m1: Seq<Monitor>,
    dir: Seq<u8>,
    name: Seq<char>,
    found: Reading,
    force: bool,
    r: Result<String>,
) -> (done: Result<api::ApplyResult>)
    requires
        applied_by_rule(cs, m0, m1, dir, name, found, force, r),
    ensures
        apply::applied(cs, m0, m1, dir, name, found, true, force, done),
        r is Ok <==> done is Ok,
        r is Err ==> r->Err_0 == done->Err_0,
        r is Ok ==> r->Ok_0@ == "applied profile "@ + text::quoted(name) + ": "@ + text::decimal(
            done->Ok_0.outcomes@.filter(|o: api::ApplyOutcome| o.status is Applied).len(),
        ) + " confirmed, "@ + text::decimal(
            done->Ok_0.outcomes@.filter(|o: api::ApplyOutcome| o.status is Ignored).len(),
        ) + " ignored"@,
{
    let done = choose|done: Result<api::ApplyResult>| #[trigger]
        apply::applied(cs, m0, m1, dir, name, found, true, force, done) && match done {
            Ok(d) => r matches Ok(s) && s@ == apply_text(name, d),
            Err(e) => r == Err::<String, EngineError>(e),
        };
    if let Ok(d) = done {
        let v = d.outcomes@;
        api::law_outcomes_are_counted_by_status(v, ApplyStatus::Applied);
        api::law_outcomes_are_counted_by_status(v, ApplyStatus::Ignored);
        assert((|o: api::ApplyOutcome| o.status is Applied) =~= (|o: api::ApplyOutcome|
            o.status == ApplyStatus::Applied));
        assert((|o: api::ApplyOutcome| o.status is Ignored) =~= (|o: api::ApplyOutcome|
            o.status == ApplyStatus::Ignored));
    }
    done
}

/// A command that was started is told by its process, and one that was not by why.
pub proof fn law_commands_are_told_of(
    cmd: Seq<char>,
    outcome: core::result::Result<u32, String>,
    r: Result<String>,
)
    requires
        started(cmd, outcome, r),
    ensures
        outcome is Ok ==> r is Ok && r->Ok_0@ == "spawned "@ + text::quoted(cmd) + " (pid "@
            + text::decimal(outcome->Ok_0 as nat) + ")"@,
        outcome is Err ==> r is Err && r->Err_0 is Backend && r->Err_0->Backend_0 is Transport
            && r->Err_0->Backend_0->Transport_0@ == "cannot run "@ + text::quoted(cmd) + ": "@
            + outcome->Err_0@,
{
}

/// A report is on its own rule, good exactly where the rule succeeded, and says what it did
/// or why it could not.
pub proof fn law_reports_say_how_it_went(f: api::RuleFired, rule: Rule, outcome: Result<String>)
    requires
        reports_rule(f, rule, outcome),
    ensures
        f.name@ == rule.name@,
        f.ok <==> outcome is Ok,
        outcome is Ok ==> f.detail@ == outcome->Ok_0@,
        outcome is Err ==> f.detail@ == crate::daemon::selection::error_text(outcome->Err_0),
{
}

/// Rules are listed one by one and in order, each by its own name, what sets it off, what it
/// does, whether it is on, and whether it was told to write what cannot be undone.
pub proof fn law_rules_are_listed_as_they_are(infos: Seq<api::RuleInfo>, list: Seq<Rule>, i: int)
    requires
        lists_rules(infos, list),
        0 <= i < list.len(),
    ensures
        infos.len() == list.len(),
        infos[i].name@ == list[i].name@,
        infos[i].trigger@ == rules::trigger_text(list[i].trigger),
        infos[i].action@ == rules::action_text(list[i].action),
        infos[i].enabled == list[i].enabled,
        infos[i].force == list[i].force,
{
}

/// A tick weighs the rules against the displays that are there, under the names they go by,
/// and against the power that the platform gives. What was seen is what the next tick is
/// held against. Where the platform gives no power, no rule fires and nothing changes.
pub proof fn law_ticks_weigh_what_is_there(
    answer: model::Result<PowerState>,
    monitors: Seq<Monitor>,
    a0: Automation,
    a1: Automation,
    r: Result<Vec<Rule>>,
) -> (w: WorldState)
    requires
        weighed(answer, monitors, a0, a1, r),
    ensures
        answer is Err ==> a1 == a0 && r is Err && r->Err_0 is Backend && r->Err_0->Backend_0
            == answer->Err_0,
        answer is Ok ==> {
            &&& r is Ok
            &&& w.power == answer->Ok_0
            &&& text::texts(w.displays@) == all_names(monitors)
            &&& w.hour < 24
            &&& w.minute < 60
            &&& a1.rules == a0.rules
            &&& a1.last is Some
            &&& a1.last->0.displays@ == w.displays@
            &&& a1.last->0.power == w.power
            &&& a1.last->0.hour == w.hour
            &&& a1.last->0.minute == w.minute
            &&& a1.last->0.date == w.date
            &&& a0.since is Some ==> a1.since == a0.since
            &&& a0.since is None ==> a1.since is Some && a1.since->0.hour == w.hour
                && a1.since->0.minute == w.minute && a1.since->0.date == w.date
            &&& r->Ok_0@ == automation::fired_of(
                a0.rules.rules@,
                a0.last,
                a0.since,
                w,
                a0.time_fired@,
            ).0
        },
{
    if let Ok(power) = answer {
        choose|w: WorldState| #[trigger]
            observed(w, monitors, power) && tick_fires(a0, a1, w, r->Ok_0@)
    } else {
        arbitrary()
    }
}

/// A tick checks the displays first. Where that fails, the failure is passed on, the power
/// is not asked for, no rule fires, and nothing that was seen is forgotten. Else the power
/// is asked for, at most once, and weighed.
pub proof fn law_ticks_check_before_they_ask<B: DisplayBackend>(
    past: Seq<Call>,
    cs: Seq<Call>,
    m0: Seq<Monitor>,
    m1: Seq<Monitor>,
    a0: Automation,
    a1: Automation,
    r: Result<Vec<Rule>>,
) -> (res: (int, model::Result<PowerState>))
    requires
        ticked::<B>(past, cs, m0, m1, a0, a1, r),
    ensures
        0 <= res.0 <= cs.len(),
        engine::checked(cs.take(res.0), m0, m1),
        engine::fault_in(cs.take(res.0)) is Some ==> {
            &&& res.0 == cs.len()
            &&& a1 == a0
            &&& r is Err
            &&& r->Err_0 is Backend
            &&& r->Err_0->Backend_0 == engine::fault_in(cs)->Some_0
        },
        engine::fault_in(cs.take(res.0)) is None ==> {
            &&& cs.len() <= res.0 + 1
            &&& cs.len() == res.0 ==> res.1 is Ok && res.1->Ok_0 is Unknown
            &&& cs.len() == res.0 + 1 ==> cs[res.0] is PowerSource && cs[res.0]->PowerSource_result
                == res.1
            &&& weighed(res.1, m1, a0, a1, r)
        },
{
    let n = choose|n: int|
        {
            &&& 0 <= n <= cs.len()
            &&& engine::checked(#[trigger] cs.take(n), m0, m1)
            &&& match engine::fault_in(cs.take(n)) {
                Some(f) => n == cs.len() && a1 == a0 && r == Err::<Vec<Rule>, EngineError>(
                    EngineError::Backend(f),
                ),
                None => exists|answer: model::Result<PowerState>| #[trigger]
                    power_asked(cs.skip(n), answer) && power_given_after::<B>(
                        past + cs.take(n),
                        answer,
                    ) && weighed(answer, m1, a0, a1, r),
            }
        };
    if engine::fault_in(cs.take(n)) is None {
        let answer = choose|answer: model::Result<PowerState>| #[trigger]
            power_asked(cs.skip(n), answer) && power_given_after::<B>(past + cs.take(n), answer)
                && weighed(answer, m1, a0, a1, r);
        if cs.skip(n).len() == 1 {
            assert(cs.skip(n)[0] == cs[n]);
        }
        (n, answer)
    } else {
        assert(cs.take(n) =~= cs);
        (n, Ok(PowerState::Unknown))
    }
}

} // verus!
