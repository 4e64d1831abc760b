//! Rule evaluation.
//!
//! Separated from execution and from the poll loop so the firing logic needs no
//! hardware, no clock and no running daemon: [`Automation::tick`] is a function
//! of the state handed to it.

use crate::keyed::TextMap;
use crate::model::rules;
use crate::model::{PowerState, Rule, RuleSet, Trigger};
use crate::text;
use vstd::prelude::*;

verus! {

/// A day of the calendar.
#[derive(Debug, Clone, Copy, PartialEq, Eq, Structural)]
pub struct Date {
    pub year: i32,
    pub month: u32,
    pub day: u32,
}

/// Local wall-clock time and date.
#[derive(Debug, Clone, Copy, PartialEq, Eq, Structural)]
pub struct LocalTime {
    pub hour: u32,
    pub minute: u32,
    pub date: Date,
}

/// A snapshot of the world, gathered by the caller.
#[derive(Debug)]
pub struct WorldState {
    /// Display selector-ish names currently attached (product names and ids).
    pub displays: Vec<String>,
    pub power: PowerState,
    /// Local wall-clock time and date.
    pub hour: u32,
    pub minute: u32,
    pub date: Date,
}

/// `chrono::Local::now`: the local time, taken apart. An hour below 24, a minute
/// below 60, a month from 1 to 12 and a day from 1 to 31, as `Timelike` and
/// `Datelike` promise; nothing more is promised of it.
#[verifier::external_body]
pub(crate) fn local_time() -> (t: LocalTime)
    ensures
        t.hour < 24,
        t.minute < 60,
        1 <= t.date.month <= 12,
        1 <= t.date.day <= 31,
{
    let now = chrono::Local::now();
    LocalTime {
        hour: chrono::Timelike::hour(&now),
        minute: chrono::Timelike::minute(&now),
        date: Date {
            year: chrono::Datelike::year(&now),
            month: chrono::Datelike::month(&now),
            day: chrono::Datelike::day(&now),
        },
    }
}

/// Whether a time is one that a call of `local_time` gives.
pub closed spec fn told(time: LocalTime) -> bool {
    call_ensures(local_time, (), time)
}

impl WorldState {
    /// When the world was like this.
    pub open spec fn time(self) -> LocalTime {
        LocalTime { hour: self.hour, minute: self.minute, date: self.date }
    }

    /// The world at a time.
    pub fn at(displays: Vec<String>, power: PowerState, time: LocalTime) -> (w: Self)
        ensures
            w.displays == displays,
            w.power == power,
            w.time() == time,
    {
        WorldState { displays, power, hour: time.hour, minute: time.minute, date: time.date }
    }

    /// The world now.
    pub fn now(displays: Vec<String>, power: PowerState) -> (w: Self)
        ensures
            w.displays == displays,
            w.power == power,
            told(w.time()),
            w.hour < 24,
            w.minute < 60,
            1 <= w.date.month <= 12,
            1 <= w.date.day <= 31,
    {
        WorldState::at(displays, power, local_time())
    }
}

/// Whether two observations are of the same world.
pub open spec fn same_world(a: WorldState, b: WorldState) -> bool {
    &&& a.displays@ == b.displays@
    &&& a.power == b.power
    &&& a.hour == b.hour
    &&& a.minute == b.minute
    &&& a.date == b.date
}

impl Clone for WorldState {
    fn clone(&self) -> (w: WorldState)
        ensures
            same_world(w, *self),
    {
        WorldState {
            displays: text::copy_texts(&self.displays),
            power: self.power,
            hour: self.hour,
            minute: self.minute,
            date: self.date,
        }
    }
}

/// Whether some display is called by a name that holds the selector, case aside.
/// `all` stands for any display.
pub open spec fn any_matches(displays: Seq<String>, selector: Seq<char>) -> bool {
    let needle = text::lowercase(selector);
    if needle == "all"@ {
        displays.len() > 0
    } else {
        exists|i: int|
            0 <= i < displays.len() && text::has_text(
                text::lowercase((#[trigger] displays[i])@),
                needle,
            )
    }
}

/// Case-insensitive substring match against any attached display's name/id.
pub fn matches_any(displays: &Vec<String>, selector: &str) -> (b: bool)
    ensures
        b == any_matches(displays@, selector@),
{
    let needle = text::lower(selector);
    if text::same(needle.as_str(), "all") {
        return displays.len() > 0;
    }
    let mut i: usize = 0;
    while i < displays.len()
        invariant
            i <= displays@.len(),
            needle@ == text::lowercase(selector@),
            needle@ != "all"@,
            forall|k: int|
                0 <= k < i ==> !text::has_text(
                    text::lowercase((#[trigger] displays@[k])@),
                    needle@,
                ),
        decreases displays@.len() - i,
    {
        if text::contains_text(text::lower(displays[i].as_str()).as_str(), needle.as_str()) {
            return true;
        }
        i = i + 1;
    }
    false
}

/// Minutes since midnight.
pub open spec fn minutes_of(hour: int, minute: int) -> int {
    hour * 60 + minute
}

/// Whether a time of the day was already past when observation began, on that
/// same day.
pub open spec fn past_at_start(since: LocalTime, date: Date, hour: int, minute: int) -> bool {
    since.date == date && minutes_of(hour, minute) < minutes_of(
        since.hour as int,
        since.minute as int,
    )
}

/// Whether a time rule is due and has not already fired today.
///
/// Due when the clock is at or past the target, rather than exactly on it, so a
/// poll that lands late, or a machine that was asleep at the target time, still
/// runs the rule. A target that was already past when observation began rests
/// for that day: after a daemon start at 23:00, a 22:00 rule must not fire
/// retroactively.
pub open spec fn time_is_due(
    name: Seq<char>,
    target: Seq<char>,
    now: WorldState,
    since: Option<LocalTime>,
    time_fired: Map<Seq<char>, Date>,
) -> bool {
    match rules::time_of(target) {
        Some((h, m)) => {
            &&& since matches Some(start) && !past_at_start(start, now.date, h as int, m as int)
            &&& !(time_fired.contains_key(name) && time_fired[name] == now.date)
            &&& minutes_of(now.hour as int, now.minute as int) >= minutes_of(h as int, m as int)
        },
        None => false,
    }
}

/// Whether a trigger is met: displays and power on the transition only, a time
/// once it is due. A power state that nobody knows meets none.
pub open spec fn triggered(
    r: Rule,
    previous: Option<WorldState>,
    since: Option<LocalTime>,
    now: WorldState,
    time_fired: Map<Seq<char>, Date>,
) -> bool {
    match r.trigger {
        Trigger::DisplayConnected(sel) => previous matches Some(p) && !any_matches(
            p.displays@,
            sel@,
        ) && any_matches(now.displays@, sel@),
        Trigger::DisplayDisconnected(sel) => previous matches Some(p) && any_matches(
            p.displays@,
            sel@,
        ) && !any_matches(now.displays@, sel@),
        Trigger::Power(want) => previous matches Some(p) && want != PowerState::Unknown && p.power
            != now.power && now.power == want,
        Trigger::Time(t) => time_is_due(r.name@, t@, now, since, time_fired),
    }
}

/// Whether a rule fires.
pub open spec fn fires(
    r: Rule,
    previous: Option<WorldState>,
    since: Option<LocalTime>,
    now: WorldState,
    time_fired: Map<Seq<char>, Date>,
) -> bool {
    r.enabled && triggered(r, previous, since, now, time_fired)
}

/// The rules that fire, in order, and when each time rule last fired after that.
pub open spec fn fired_of(
    list: Seq<Rule>,
    previous: Option<WorldState>,
    since: Option<LocalTime>,
    now: WorldState,
    time_fired: Map<Seq<char>, Date>,
) -> (Seq<Rule>, Map<Seq<char>, Date>)
    decreases list.len(),
{
    if list.len() == 0 {
        (Seq::empty(), time_fired)
    } else {
        let (fired, times) = fired_of(list.drop_last(), previous, since, now, time_fired);
        let r = list.last();
        if fires(r, previous, since, now, times) {
            (
                fired.push(r),
                if r.trigger is Time {
                    times.insert(r.name@, now.date)
                } else {
                    times
                },
            )
        } else {
            (fired, times)
        }
    }
}

/// When observation began, once `now` has been observed.
pub open spec fn begun(since: Option<LocalTime>, now: WorldState) -> LocalTime {
    match since {
        Some(start) => start,
        None => LocalTime { hour: now.hour, minute: now.minute, date: now.date },
    }
}

/// Tracks what has already been seen, so edge-triggered rules fire once.
pub struct Automation {
    pub rules: RuleSet,
    /// None until the first tick: the initial observation establishes a
    /// baseline. Without this, every rule would fire on daemon start as though
    /// every display had just been plugged in.
    pub last: Option<WorldState>,
    /// When the first tick was. What was past by then is not made up for.
    pub since: Option<LocalTime>,
    /// Last date each time-rule fired, so `22:00` fires once per day rather than
    /// on every poll for the rest of the evening.
    pub time_fired: TextMap<Date>,
}

impl Automation {
    pub fn new(rules: RuleSet) -> (a: Self)
        ensures
            a.rules == rules,
            a.last is None,
            a.since is None,
            a.time_fired@ == Map::<Seq<char>, Date>::empty(),
    {
        Automation { rules, last: None, since: None, time_fired: TextMap::new() }
    }

    /// The rules in force.
    pub fn rules(&self) -> (r: &RuleSet)
        ensures
            *r == self.rules,
    {
        &self.rules
    }

    /// Put other rules in force.
    ///
    /// Keeps the last observation, so a reload does not re-fire connect rules
    /// for displays that were already attached before the edit, and the days on
    /// which time rules fired, so it does not fire one twice a day.
    pub fn replace(&mut self, rules: RuleSet)
        ensures
            final(self).rules == rules,
            final(self).last == old(self).last,
            final(self).since == old(self).since,
            final(self).time_fired@ == old(self).time_fired@,
    {
        self.rules = rules;
    }

    /// Which rules fire for this observation. Advances internal state.
    pub fn tick(&mut self, now: &WorldState) -> (fired: Vec<Rule>)
        ensures
            fired@ == fired_of(
                old(self).rules.rules@,
                old(self).last,
                old(self).since,
                *now,
                old(self).time_fired@,
            ).0,
            final(self).time_fired@ == fired_of(
                old(self).rules.rules@,
                old(self).last,
                old(self).since,
                *now,
                old(self).time_fired@,
            ).1,
            final(self).rules == old(self).rules,
            final(self).last matches Some(w) && same_world(w, *now),
            final(self).since == Some(begun(old(self).since, *now)),
    {
        let mut fired: Vec<Rule> = Vec::new();
        let ghost list = self.rules.rules@;
        let ghost times0 = self.time_fired@;
        let mut i: usize = 0;
        while i < self.rules.rules.len()
            invariant
                i <= list.len(),
                list == self.rules.rules@,
                self.rules == old(self).rules,
                self.last == old(self).last,
                self.since == old(self).since,
                times0 == old(self).time_fired@,
                fired@ == fired_of(list.take(i as int), self.last, self.since, *now, times0).0,
                self.time_fired@ == fired_of(list.take(i as int), self.last, self.since, *now, times0).1,
            decreases list.len() - i,
        {
            assert(list.take(i + 1).drop_last() =~= list.take(i as int));
            let rule = &self.rules.rules[i];
            let matched: bool = rule.enabled && self.is_met(rule, now);
            if matched {
                let timed: bool = match &rule.trigger {
                    Trigger::Time(_) => true,
                    _ => false,
                };
                let copy = rule.clone();
                if timed {
                    self.time_fired.insert(copy.name.clone(), now.date);
                }
                fired.push(copy);
            }
            i = i + 1;
        }
        assert(list.take(i as int) =~= list);
        self.last = Some(now.clone());
        if self.since.is_none() {
            self.since = Some(LocalTime { hour: now.hour, minute: now.minute, date: now.date });
        }
        fired
    }

    /// Whether a trigger is met.
    fn is_met(&self, rule: &Rule, now: &WorldState) -> (b: bool)
        ensures
            b == triggered(*rule, self.last, self.since, *now, self.time_fired@),
    {
        match &rule.trigger {
            Trigger::DisplayConnected(sel) => match &self.last {
                // Edge, not level: fire on the transition only.
                Some(p) => !matches_any(&p.displays, sel.as_str()) && matches_any(
                    &now.displays,
                    sel.as_str(),
                ),
                None => false,
            },
            Trigger::DisplayDisconnected(sel) => match &self.last {
                Some(p) => matches_any(&p.displays, sel.as_str()) && !matches_any(
                    &now.displays,
                    sel.as_str(),
                ),
                None => false,
            },
            Trigger::Power(want) => match &self.last {
                Some(p) => *want != PowerState::Unknown && p.power != now.power && now.power
                    == *want,
                None => false,
            },
            Trigger::Time(t) => self.time_due(rule.name.as_str(), t.as_str(), now),
        }
    }

    /// Whether a time rule is due and has not already fired today.
    fn time_due(&self, name: &str, target: &str, now: &WorldState) -> (b: bool)
        ensures
            b == time_is_due(name@, target@, *now, self.since, self.time_fired@),
    {
        let (h, m) = match rules::parse_time(target) {
            Some(t) => t,
            None => return false,
        };
        if let Some(day) = self.time_fired.get(name) {
            if *day == now.date {
                return false;
            }
        }
        let due: u64 = (h as u64) * 60 + (m as u64);
        match &self.since {
            Some(start) => {
                if start.date == now.date && due < (start.hour as u64) * 60 + (start.minute as u64) {
                    return false;
                }
            },
            None => return false,
        }
        (now.hour as u64) * 60 + (now.minute as u64) >= due
    }
}

// ── Laws ───────────────────────────────────────────────────────────────────

/// The first observation establishes a baseline and fires nothing.
pub proof fn law_first_tick_fires_nothing(
    list: Seq<Rule>,
    now: WorldState,
    time_fired: Map<Seq<char>, Date>,
)
    ensures
        fired_of(list, None, None, now, time_fired).0.len() == 0,
        fired_of(list, None, None, now, time_fired).1 == time_fired,
    decreases list.len(),
{
    if list.len() > 0 {
        law_first_tick_fires_nothing(list.drop_last(), now, time_fired);
    }
}

/// Whatever fires is one of the rules, and enabled: a disabled rule never fires.
pub proof fn law_only_enabled_rules_fire(
    list: Seq<Rule>,
    previous: Option<WorldState>,
    since: Option<LocalTime>,
    now: WorldState,
    time_fired: Map<Seq<char>, Date>,
    k: int,
)
    requires
        0 <= k < fired_of(list, previous, since, now, time_fired).0.len(),
    ensures
        list.contains(fired_of(list, previous, since, now, time_fired).0[k]),
        fired_of(list, previous, since, now, time_fired).0[k].enabled,
    decreases list.len(),
{
    let (fired, times) = fired_of(list.drop_last(), previous, since, now, time_fired);
    if k < fired.len() {
        law_only_enabled_rules_fire(list.drop_last(), previous, since, now, time_fired, k);
        let r = fired[k];
        let i = choose|i: int| 0 <= i < list.drop_last().len() && list.drop_last()[i] == r;
        assert(list[i] == r);
    } else {
        assert(list[list.len() - 1] == list.last());
    }
}

/// While displays and power stay as they are, no display or power rule fires:
/// they fire on the edge, not on the level.
pub proof fn law_edges_fire_once(
    r: Rule,
    previous: WorldState,
    since: Option<LocalTime>,
    now: WorldState,
    time_fired: Map<Seq<char>, Date>,
)
    requires
        previous.displays@ == now.displays@,
        previous.power == now.power,
        r.trigger !is Time,
    ensures
        !fires(r, Some(previous), since, now, time_fired),
{
}

/// A connect rule fires exactly when the display was not there and now is, a
/// disconnect rule exactly when it was and no longer is.
pub proof fn law_display_rules_fire_on_the_edge(
    r: Rule,
    sel: String,
    previous: WorldState,
    since: Option<LocalTime>,
    now: WorldState,
    time_fired: Map<Seq<char>, Date>,
)
    requires
        r.enabled,
    ensures
        r.trigger == Trigger::DisplayConnected(sel) ==> fires(r, Some(previous), since, now, time_fired)
            == (any_matches(now.displays@, sel@) && !any_matches(previous.displays@, sel@)),
        r.trigger == Trigger::DisplayDisconnected(sel) ==> fires(r, Some(previous), since, now, time_fired)
            == (any_matches(previous.displays@, sel@) && !any_matches(now.displays@, sel@)),
{
}

/// A power state that nobody knows fires no power rule, and no rule that waits
/// for it ever fires.
pub proof fn law_unknown_power_fires_nothing(
    r: Rule,
    previous: Option<WorldState>,
    since: Option<LocalTime>,
    now: WorldState,
    time_fired: Map<Seq<char>, Date>,
)
    requires
        r.trigger is Power,
        now.power == PowerState::Unknown || r.trigger == Trigger::Power(PowerState::Unknown),
    ensures
        !fires(r, previous, since, now, time_fired),
{
}

/// What is remembered of time rules is kept through a tick, and only ever set to
/// the day of the tick.
proof fn lemma_times_kept(
    list: Seq<Rule>,
    previous: Option<WorldState>,
    since: Option<LocalTime>,
    now: WorldState,
    time_fired: Map<Seq<char>, Date>,
    name: Seq<char>,
)
    requires
        time_fired.contains_key(name),
        time_fired[name] == now.date,
    ensures
        fired_of(list, previous, since, now, time_fired).1.contains_key(name),
        fired_of(list, previous, since, now, time_fired).1[name] == now.date,
    decreases list.len(),
{
    if list.len() > 0 {
        lemma_times_kept(list.drop_last(), previous, since, now, time_fired, name);
    }
}

/// A time rule that fired is remembered as fired on that day.
pub proof fn law_fired_time_rules_are_remembered(
    list: Seq<Rule>,
    previous: Option<WorldState>,
    since: Option<LocalTime>,
    now: WorldState,
    time_fired: Map<Seq<char>, Date>,
    k: int,
)
    requires
        0 <= k < fired_of(list, previous, since, now, time_fired).0.len(),
        fired_of(list, previous, since, now, time_fired).0[k].trigger is Time,
    ensures
        ({
            let (fired, times) = fired_of(list, previous, since, now, time_fired);
            times.contains_key(fired[k].name@) && times[fired[k].name@] == now.date
        }),
    decreases list.len(),
{
    let (fired, times) = fired_of(list.drop_last(), previous, since, now, time_fired);
    if k < fired.len() {
        law_fired_time_rules_are_remembered(list.drop_last(), previous, since, now, time_fired, k);
    }
}

/// A time rule that has fired today does not fire again today, however often the
/// world is observed.
pub proof fn law_time_rules_fire_once_a_day(
    list: Seq<Rule>,
    previous: Option<WorldState>,
    since: Option<LocalTime>,
    now: WorldState,
    time_fired: Map<Seq<char>, Date>,
    k: int,
)
    requires
        0 <= k < fired_of(list, previous, since, now, time_fired).0.len(),
        fired_of(list, previous, since, now, time_fired).0[k].trigger is Time,
    ensures
        ({
            let r = fired_of(list, previous, since, now, time_fired).0[k];
            !(time_fired.contains_key(r.name@) && time_fired[r.name@] == now.date)
        }),
    decreases list.len(),
{
    let (fired, times) = fired_of(list.drop_last(), previous, since, now, time_fired);
    if k < fired.len() {
        law_time_rules_fire_once_a_day(list.drop_last(), previous, since, now, time_fired, k);
    } else {
        let r = list.last();
        if time_fired.contains_key(r.name@) && time_fired[r.name@] == now.date {
            lemma_times_kept(list.drop_last(), previous, since, now, time_fired, r.name@);
        }
    }
}

/// Two time rules of one name never fire on the same day, whatever was observed
/// in between, and though other rules were put in force in between.
pub proof fn law_time_rule_rests_for_the_day(
    list: Seq<Rule>,
    previous: Option<WorldState>,
    since: Option<LocalTime>,
    now: WorldState,
    time_fired: Map<Seq<char>, Date>,
    k: int,
    later_list: Seq<Rule>,
    later_previous: Option<WorldState>,
    later: WorldState,
    j: int,
)
    requires
        0 <= k < fired_of(list, previous, since, now, time_fired).0.len(),
        fired_of(list, previous, since, now, time_fired).0[k].trigger is Time,
        later.date == now.date,
        ({
            let times = fired_of(list, previous, since, now, time_fired).1;
            let again = fired_of(later_list, later_previous, since, later, times).0;
            0 <= j < again.len() && again[j].trigger is Time
        }),
    ensures
        ({
            let (fired, times) = fired_of(list, previous, since, now, time_fired);
            fired_of(later_list, later_previous, since, later, times).0[j].name@ != fired[k].name@
        }),
{
    let times = fired_of(list, previous, since, now, time_fired).1;
    law_fired_time_rules_are_remembered(list, previous, since, now, time_fired, k);
    law_time_rules_fire_once_a_day(later_list, later_previous, since, later, times, j);
}

/// Starting late in the day does not replay the day's rules: a target that was
/// past at the first observation does not fire on that day, however often the
/// world is observed.
pub proof fn law_a_start_replays_nothing(
    r: Rule,
    t: String,
    previous: Option<WorldState>,
    first: WorldState,
    now: WorldState,
    time_fired: Map<Seq<char>, Date>,
)
    requires
        r.trigger == Trigger::Time(t),
        rules::time_of(t@) matches Some((h, m)) && minutes_of(h as int, m as int) < minutes_of(
            first.hour as int,
            first.minute as int,
        ),
        now.date == first.date,
    ensures
        !fires(r, previous, Some(begun(None, first)), now, time_fired),
{
}

/// A poll that lands late still runs a rule that has not fired today and was not
/// past when observation began.
pub proof fn law_late_polls_still_fire(
    r: Rule,
    t: String,
    previous: Option<WorldState>,
    since: LocalTime,
    now: WorldState,
    time_fired: Map<Seq<char>, Date>,
)
    requires
        r.enabled,
        r.trigger == Trigger::Time(t),
        rules::time_of(t@) matches Some((h, m)) && minutes_of(now.hour as int, now.minute as int)
            >= minutes_of(h as int, m as int) && !past_at_start(
            since,
            now.date,
            h as int,
            m as int,
        ),
        !time_fired.contains_key(r.name@) || time_fired[r.name@] != now.date,
    ensures
        fires(r, previous, Some(since), now, time_fired),
{
}

/// Of the rules that wait for displays or power, those that fire are those that are
/// enabled and met, whatever other rules there are.
proof fn lemma_fired_contains(
    list: Seq<Rule>,
    previous: Option<WorldState>,
    since: Option<LocalTime>,
    now: WorldState,
    time_fired: Map<Seq<char>, Date>,
    r: Rule,
)
    requires
        r.trigger !is Time,
    ensures
        fired_of(list, previous, since, now, time_fired).0.contains(r) == (list.contains(r)
            && fires(r, previous, since, now, time_fired)),
    decreases list.len(),
{
    let (fired, times) = fired_of(list, previous, since, now, time_fired);
    if list.len() > 0 {
        let rest = list.drop_last();
        let (before, times0) = fired_of(rest, previous, since, now, time_fired);
        lemma_fired_contains(rest, previous, since, now, time_fired, r);
        if list.contains(r) {
            let i = choose|i: int| 0 <= i < list.len() && list[i] == r;
            if i < rest.len() {
                assert(rest[i] == r);
            }
        }
        if rest.contains(r) {
            let i = choose|i: int| 0 <= i < rest.len() && rest[i] == r;
            assert(list[i] == r);
        }
        if before.contains(r) {
            let k = choose|k: int| 0 <= k < before.len() && before[k] == r;
            assert(fired[k] == r);
        }
        if list.last() == r {
            assert(list[list.len() - 1] == r);
            if fires(r, previous, since, now, times0) {
                assert(fired[fired.len() - 1] == r);
            }
        }
        if fired.contains(r) {
            let k = choose|k: int| 0 <= k < fired.len() && fired[k] == r;
            if k < before.len() {
                assert(before[k] == r);
            }
        }
    }
}

/// A power rule fires exactly when it is in force and enabled, the power was
/// another at the last observation, and now is the one that it waits for, which is
/// not an unknown one. So a rule never fires on a power that is not its own.
pub proof fn law_power_rules_fire_on_their_power(
    list: Seq<Rule>,
    previous: Option<WorldState>,
    since: Option<LocalTime>,
    now: WorldState,
    time_fired: Map<Seq<char>, Date>,
    r: Rule,
    want: PowerState,
)
    requires
        r.trigger == Trigger::Power(want),
    ensures
        fired_of(list, previous, since, now, time_fired).0.contains(r) == (list.contains(r)
            && r.enabled && (previous matches Some(p) && p.power != now.power) && now.power == want
            && want != PowerState::Unknown),
{
    lemma_fired_contains(list, previous, since, now, time_fired, r);
}

/// Whether a display of a name that holds a text, case aside, is among these.
pub open spec fn attached(displays: Seq<String>, selector: Seq<char>) -> bool {
    exists|i: int, at: int|
        0 <= i < displays.len() && 0 <= at && at + text::lowercase(selector).len()
            <= text::lowercase(displays[i]@).len() && #[trigger] text::lowercase(
            displays[i]@,
        ).subrange(at, at + text::lowercase(selector).len()) == text::lowercase(selector)
}

/// A selector finds displays by a part of their name, case aside; `all`, in any
/// case, finds any.
pub proof fn law_selectors_find_parts_of_names(displays: Seq<String>, selector: Seq<char>)
    ensures
        text::lowercase(selector) != "all"@ ==> any_matches(displays, selector) == attached(
            displays,
            selector,
        ),
        text::lowercase(selector) == "all"@ ==> any_matches(displays, selector) == (displays.len()
            > 0),
        displays.len() == 0 ==> !any_matches(displays, selector),
{
    let needle = text::lowercase(selector);
    if needle != "all"@ {
        if any_matches(displays, selector) {
            let i = choose|i: int|
                0 <= i < displays.len() && text::has_text(
                    text::lowercase((#[trigger] displays[i])@),
                    needle,
                );
            let hay = text::lowercase(displays[i]@);
            let at = choose|at: int| text::occurs_at(hay, needle, at);
            assert(hay.subrange(at, at + needle.len()) == needle);
            assert(attached(displays, selector));
        }
        if attached(displays, selector) {
            let (i, at) = choose|i: int, at: int|
                0 <= i < displays.len() && 0 <= at && at + text::lowercase(selector).len()
                    <= text::lowercase(displays[i]@).len() && #[trigger] text::lowercase(
                    displays[i]@,
                ).subrange(at, at + text::lowercase(selector).len()) == text::lowercase(selector);
            assert(text::occurs_at(text::lowercase(displays[i]@), needle, at));
            assert(text::has_text(text::lowercase(displays[i]@), needle));
        }
    }
}

/// A connect rule fires exactly when it is in force and enabled, its display was not
/// there at the last observation and now is; a disconnect rule when it was there and
/// now is not.
pub proof fn law_display_rules_fire_on_their_display(
    list: Seq<Rule>,
    previous: Option<WorldState>,
    since: Option<LocalTime>,
    now: WorldState,
    time_fired: Map<Seq<char>, Date>,
    r: Rule,
    sel: String,
)
    requires
        text::lowercase(sel@) != "all"@,
    ensures
        r.trigger == Trigger::DisplayConnected(sel) ==> fired_of(
            list,
            previous,
            since,
            now,
            time_fired,
        ).0.contains(r) == (list.contains(r) && r.enabled && (previous matches Some(p) && !attached(
            p.displays@,
            sel@,
        )) && attached(now.displays@, sel@)),
        r.trigger == Trigger::DisplayDisconnected(sel) ==> fired_of(
            list,
            previous,
            since,
            now,
            time_fired,
        ).0.contains(r) == (list.contains(r) && r.enabled && (previous matches Some(p) && attached(
            p.displays@,
            sel@,
        )) && !attached(now.displays@, sel@)),
{
    if r.trigger !is Time {
        lemma_fired_contains(list, previous, since, now, time_fired, r);
    }
    law_selectors_find_parts_of_names(now.displays@, sel@);
    if let Some(p) = previous {
        law_selectors_find_parts_of_names(p.displays@, sel@);
    }
}

/// A time rule that is alone of its name fires exactly when it is in force and
/// enabled, its time of the day has come, it has not fired today, and its time was
/// not past already when observation began on this day.
pub proof fn law_time_rules_fire_at_their_time(
    list: Seq<Rule>,
    previous: Option<WorldState>,
    since: LocalTime,
    now: WorldState,
    time_fired: Map<Seq<char>, Date>,
    i: int,
    t: String,
    hour: nat,
    minute: nat,
)
    requires
        0 <= i < list.len(),
        list[i].trigger == Trigger::Time(t),
        rules::time_of(t@) == Some((hour, minute)),
        forall|k: int| 0 <= k < list.len() && k != i ==> (#[trigger] list[k]).name@ != list[i].name@,
    ensures
        fired_of(list, previous, Some(since), now, time_fired).0.contains(list[i]) == (
        list[i].enabled && (now.hour * 60 + now.minute >= hour * 60 + minute) && !(
        time_fired.contains_key(list[i].name@) && time_fired[list[i].name@] == now.date) && !(
        since.date == now.date && since.hour * 60 + since.minute > hour * 60 + minute)),
    decreases list.len(),
{
    let r = list[i];
    let rest = list.drop_last();
    let (fired, times) = fired_of(list, previous, Some(since), now, time_fired);
    let (before, times0) = fired_of(rest, previous, Some(since), now, time_fired);
    if i < rest.len() {
        assert(rest[i] == r);
        law_time_rules_fire_at_their_time(
            rest,
            previous,
            since,
            now,
            time_fired,
            i,
            t,
            hour,
            minute,
        );
        assert(list[list.len() - 1].name@ != r.name@);
        if before.contains(r) {
            let k = choose|k: int| 0 <= k < before.len() && before[k] == r;
            assert(fired[k] == r);
        }
        if fired.contains(r) {
            let k = choose|k: int| 0 <= k < fired.len() && fired[k] == r;
            if k < before.len() {
                assert(before[k] == r);
            }
        }
    } else {
        lemma_other_times_kept(rest, previous, Some(since), now, time_fired, r.name@);
        if before.contains(r) {
            let k = choose|k: int| 0 <= k < before.len() && before[k] == r;
            law_only_enabled_rules_fire(rest, previous, Some(since), now, time_fired, k);
            let m = choose|m: int| 0 <= m < rest.len() && rest[m] == r;
            assert(list[m].name@ == r.name@);
        }
        if fires(r, previous, Some(since), now, times0) {
            assert(fired[fired.len() - 1] == r);
        }
        if fired.contains(r) {
            let k = choose|k: int| 0 <= k < fired.len() && fired[k] == r;
            if k < before.len() {
                assert(before[k] == r);
            }
        }
    }
}

/// What is remembered of a time rule is what it was where no rule of its name is in
/// force.
proof fn lemma_other_times_kept(
    list: Seq<Rule>,
    previous: Option<WorldState>,
    since: Option<LocalTime>,
    now: WorldState,
    time_fired: Map<Seq<char>, Date>,
    name: Seq<char>,
)
    requires
        forall|k: int| 0 <= k < list.len() ==> (#[trigger] list[k]).name@ != name,
    ensures
        fired_of(list, previous, since, now, time_fired).1.contains_key(name)
            == time_fired.contains_key(name),
        time_fired.contains_key(name) ==> fired_of(list, previous, since, now, time_fired).1[name]
            == time_fired[name],
    decreases list.len(),
{
    if list.len() > 0 {
        let rest = list.drop_last();
        assert forall|k: int| 0 <= k < rest.len() implies (#[trigger] rest[k]).name@ != name by {
            assert(list[k] == rest[k]);
        }
        assert(list[list.len() - 1].name@ != name);
        lemma_other_times_kept(rest, previous, since, now, time_fired, name);
    }
}

/// Rules fire in the order in which they are written: what fires is the rules, with
/// those that do not fire left out.
pub proof fn law_rules_fire_in_order(
    list: Seq<Rule>,
    previous: Option<WorldState>,
    since: Option<LocalTime>,
    now: WorldState,
    time_fired: Map<Seq<char>, Date>,
) -> (places: Seq<int>)
    ensures
        places.len() == fired_of(list, previous, since, now, time_fired).0.len(),
        forall|k: int|
            0 <= k < places.len() ==> 0 <= #[trigger] places[k] < list.len()
                && list[places[k]] == fired_of(list, previous, since, now, time_fired).0[k],
        forall|j: int, k: int| 0 <= j < k < places.len() ==> #[trigger] places[j] < #[trigger] places[k],
    decreases list.len(),
{
    if list.len() == 0 {
        Seq::empty()
    } else {
        let rest = list.drop_last();
        let (before, times0) = fired_of(rest, previous, since, now, time_fired);
        let places = law_rules_fire_in_order(rest, previous, since, now, time_fired);
        if fires(list.last(), previous, since, now, times0) {
            places.push(list.len() - 1)
        } else {
            places
        }
    }
}

} // verus!
