//! Automation rules: trigger → action.
//!
//! Stored as a single hand-editable TOML file, so rules are versionable in a
//! dotfiles repo:
//!
//! ```toml
//! [[rule]]
//! name = "docked"
//! trigger = { display_connected = "U2720Q" }
//! action = { profile = "docked" }
//!
//! [[rule]]
//! name = "dim-on-battery"
//! trigger = { power = "battery" }
//! action = { set = { display = "all", code = "brightness", value = 30 } }
//! ```

use crate::paths;
use crate::paths::FilePath;
use crate::text;
use vstd::prelude::*;

verus! {

/// Why rules could not be had or kept.
#[derive(Debug)]
pub enum RulesError {
    Io(String),
    Parse { path: String, source: String },
    Invalid { name: String, problem: String },
    Serialize(String),
}

pub type Result<T> = core::result::Result<T, RulesError>;

/// What an error reads as.
pub open spec fn error_text(e: RulesError) -> Seq<char> {
    match e {
        RulesError::Io(s) => "io: "@ + s@,
        RulesError::Parse { path, source } => "parse "@ + path@ + ": "@ + source@,
        RulesError::Invalid { name, problem } => "rule "@ + text::quoted(name@) + ": "@ + problem@,
        RulesError::Serialize(s) => "serialize: "@ + s@,
    }
}

impl RulesError {
    /// The error as a message for people.
    pub fn message(&self) -> (r: String)
        ensures
            r@ == error_text(*self),
    {
        match self {
            RulesError::Io(s) => text::after("io: ", s.as_str()),
            RulesError::Parse { path, source } => {
                let mut out = text::between("parse ", path.as_str(), ": ");
                out.append(source.as_str());
                out
            },
            RulesError::Invalid { name, problem } => {
                let mut out = text::between("rule ", text::quote(name.as_str()).as_str(), ": ");
                out.append(problem.as_str());
                out
            },
            RulesError::Serialize(s) => text::after("serialize: ", s.as_str()),
        }
    }
}

/// Where the machine gets its power from.
#[derive(Debug, Clone, Copy, PartialEq, Eq, Structural)]
pub enum PowerState {
    Ac,
    Battery,
    /// Platform could not report it. Never matches a `power` trigger: a rule
    /// must not fire on a guess.
    Unknown,
}

/// What a power state reads as.
pub open spec fn power_text(p: PowerState) -> Seq<char> {
    match p {
        PowerState::Ac => "AC power"@,
        PowerState::Battery => "battery"@,
        PowerState::Unknown => "unknown"@,
    }
}

impl PowerState {
    /// The state in words.
    pub fn describe(self) -> (r: String)
        ensures
            r@ == power_text(self),
    {
        match self {
            PowerState::Ac => text::own("AC power"),
            PowerState::Battery => text::own("battery"),
            PowerState::Unknown => text::own("unknown"),
        }
    }
}

/// What causes a rule to fire.
#[derive(Debug, PartialEq, Eq)]
pub enum Trigger {
    /// A display matching this selector was attached.
    DisplayConnected(String),
    /// A display matching this selector went away.
    DisplayDisconnected(String),
    /// Local wall-clock time, `HH:MM`. Fires once per day.
    Time(String),
    /// Power source changed to this state.
    Power(PowerState),
}

impl Clone for Trigger {
    fn clone(&self) -> (r: Trigger)
        ensures
            r == *self,
    {
        match self {
            Trigger::DisplayConnected(s) => Trigger::DisplayConnected(s.clone()),
            Trigger::DisplayDisconnected(s) => Trigger::DisplayDisconnected(s.clone()),
            Trigger::Time(t) => Trigger::Time(t.clone()),
            Trigger::Power(p) => Trigger::Power(*p),
        }
    }
}

/// What a rule does when it fires.
#[derive(Debug, PartialEq, Eq)]
pub enum Action {
    /// Apply a named profile.
    Profile(String),
    /// Write one VCP value.
    Write { display: String, code: String, value: u16 },
    /// Run a shell command.
    ///
    /// The daemon runs as the user, so this is no more privileged than the
    /// user's own shell. It does mean anything that can write the rules file can
    /// run code at login, which is why the loader warns on world-writable files.
    Run(String),
}

impl Clone for Action {
    fn clone(&self) -> (r: Action)
        ensures
            r == *self,
    {
        match self {
            Action::Profile(n) => Action::Profile(n.clone()),
            Action::Write { display, code, value } => Action::Write {
                display: display.clone(),
                code: code.clone(),
                value: *value,
            },
            Action::Run(c) => Action::Run(c.clone()),
        }
    }
}

/// A trigger in words.
pub open spec fn trigger_text(t: Trigger) -> Seq<char> {
    match t {
        Trigger::DisplayConnected(s) => "display "@ + text::quoted(s@) + " is connected"@,
        Trigger::DisplayDisconnected(s) => "display "@ + text::quoted(s@) + " is disconnected"@,
        Trigger::Time(t) => "the clock reaches "@ + t@,
        Trigger::Power(p) => "power switches to "@ + power_text(p),
    }
}

impl Trigger {
    /// The trigger in words, as shown to users.
    pub fn describe(&self) -> (r: String)
        ensures
            r@ == trigger_text(*self),
    {
        match self {
            Trigger::DisplayConnected(s) => text::between(
                "display ",
                text::quote(s.as_str()).as_str(),
                " is connected",
            ),
            Trigger::DisplayDisconnected(s) => text::between(
                "display ",
                text::quote(s.as_str()).as_str(),
                " is disconnected",
            ),
            Trigger::Time(t) => text::after("the clock reaches ", t.as_str()),
            Trigger::Power(p) => text::after("power switches to ", p.describe().as_str()),
        }
    }
}

/// An action in words.
pub open spec fn action_text(a: Action) -> Seq<char> {
    match a {
        Action::Profile(name) => "apply profile "@ + text::quoted(name@),
        Action::Write { display, code, value } => "set "@ + code@ + " = "@ + text::decimal(
            value as nat,
        ) + " on "@ + display@,
        Action::Run(cmd) => "run "@ + text::quoted(cmd@),
    }
}

impl Action {
    /// The action in words, as shown to users.
    pub fn describe(&self) -> (r: String)
        ensures
            r@ == action_text(*self),
    {
        match self {
            Action::Profile(name) => text::after(
                "apply profile ",
                text::quote(name.as_str()).as_str(),
            ),
            Action::Write { display, code, value } => {
                let mut out = text::between("set ", code.as_str(), " = ");
                out.append(text::write_decimal(*value as u64).as_str());
                out.append(" on ");
                out.append(display.as_str());
                out
            },
            Action::Run(cmd) => text::after("run ", text::quote(cmd.as_str()).as_str()),
        }
    }
}

/// A rule.
#[derive(Debug, PartialEq, Eq)]
pub struct Rule {
    pub name: String,
    pub trigger: Trigger,
    pub action: Action,
    /// Allow an action that cannot be undone (input switch, factory reset).
    ///
    /// Off by default: a rule that silently switched inputs on hot-plug could
    /// leave the user with a blank screen and no way back.
    pub force: bool,
    pub enabled: bool,
}

impl Clone for Rule {
    fn clone(&self) -> (r: Rule)
        ensures
            r == *self,
    {
        Rule {
            name: self.name.clone(),
            trigger: self.trigger.clone(),
            action: self.action.clone(),
            force: self.force,
            enabled: self.enabled,
        }
    }
}

/// All rules, in the order of the file.
#[derive(Debug, Clone, PartialEq, Eq)]
pub struct RuleSet {
    pub rules: Vec<Rule>,
}

impl Default for RuleSet {
    fn default() -> (r: RuleSet)
        ensures
            r.rules@.len() == 0,
    {
        RuleSet { rules: Vec::new() }
    }
}

/// The hour and minute that `HH:MM` denotes.
pub open spec fn time_of(s: Seq<char>) -> Option<(nat, nat)> {
    let t = text::trimmed(s);
    let colon = text::first_index(t, ':');
    if colon >= t.len() {
        None
    } else {
        let h = text::parsed_number(text::trimmed(t.take(colon)), 10, u32::MAX as nat);
        let m = text::parsed_number(text::trimmed(t.skip(colon + 1)), 10, u32::MAX as nat);
        match (h, m) {
            (Some(h), Some(m)) => if h < 24 && m < 60 {
                Some((h, m))
            } else {
                None
            },
            _ => None,
        }
    }
}

/// Parse `HH:MM` into (hour, minute).
pub fn parse_time(s: &str) -> (r: Option<(u32, u32)>)
    ensures
        match time_of(s@) {
            Some((h, m)) => r == Some((h as u32, m as u32)) && h < 24 && m < 60,
            None => r is None,
        },
{
    let t = text::trim(s);
    let cs = text::chars_of(t.as_str());
    let colon: usize = text::find_char(&cs, ':');
    if colon >= cs.len() {
        return None;
    }
    let left = text::string_from(&cs, 0, colon);
    let right = text::string_from(&cs, colon + 1, cs.len());
    assert(left@ =~= t@.take(colon as int));
    assert(right@ =~= t@.skip(colon + 1));
    let h = match text::parse_number(text::trim(left.as_str()).as_str(), 10, 0xFFFF_FFFF) {
        Some(h) => h,
        None => return None,
    };
    let m = match text::parse_number(text::trim(right.as_str()).as_str(), 10, 0xFFFF_FFFF) {
        Some(m) => m,
        None => return None,
    };
    if h < 24 && m < 60 {
        Some((h as u32, m as u32))
    } else {
        None
    }
}

/// What keeps a rule from working, where something does.
pub open spec fn problem_of(r: Rule) -> Option<Seq<char>> {
    if text::trimmed(r.name@).len() == 0 {
        Some("name must not be empty"@)
    } else {
        match r.trigger {
            Trigger::Time(t) => if time_of(t@) is None {
                Some(text::quoted(t@) + " is not a valid HH:MM time"@)
            } else {
                None
            },
            Trigger::Power(PowerState::Unknown) => Some(
                "power trigger must be \"ac\" or \"battery\""@,
            ),
            _ => None,
        }
    }
}

/// What keeps a rule from working, where something does.
fn find_problem(r: &Rule) -> (p: Option<String>)
    ensures
        text::opt_text(p) == problem_of(*r),
{
    if text::empty(text::trim(r.name.as_str()).as_str()) {
        return Some(text::own("name must not be empty"));
    }
    match &r.trigger {
        Trigger::Time(t) => if parse_time(t.as_str()).is_none() {
            Some(
                text::after(text::quote(t.as_str()).as_str(), " is not a valid HH:MM time"),
            )
        } else {
            None
        },
        Trigger::Power(p) => match p {
            PowerState::Unknown => Some(
                text::own("power trigger must be \"ac\" or \"battery\""),
            ),
            _ => None,
        },
        _ => None,
    }
}

/// Whether every rule can work.
pub open spec fn sound(rules: Seq<Rule>) -> bool {
    forall|i: int| 0 <= i < rules.len() ==> problem_of(#[trigger] rules[i]) is None
}

/// Whether rule `i` is the first that cannot work.
pub open spec fn first_unsound(rules: Seq<Rule>, i: int) -> bool {
    &&& 0 <= i < rules.len()
    &&& problem_of(rules[i]) is Some
    &&& sound(rules.take(i))
}

/// Whether `e` names the first rule that cannot work, and why.
pub open spec fn blames(e: RulesError, rules: Seq<Rule>) -> bool {
    e matches RulesError::Invalid { name, problem } && exists|i: int|
        #[trigger] first_unsound(rules, i) && name@ == rules[i].name@ && problem_of(rules[i])
            == Some(problem@)
}

impl RuleSet {
    /// Reject rules that cannot work, at load time rather than at 3am when the
    /// trigger would have fired.
    pub fn validate(&self) -> (r: Result<()>)
        ensures
            match r {
                Ok(_) => sound(self.rules@),
                Err(e) => !sound(self.rules@) && blames(e, self.rules@),
            },
    {
        let mut i: usize = 0;
        while i < self.rules.len()
            invariant
                i <= self.rules@.len(),
                forall|k: int| 0 <= k < i ==> problem_of(#[trigger] self.rules@[k]) is None,
            decreases self.rules@.len() - i,
        {
            if let Some(problem) = find_problem(&self.rules[i]) {
                assert(first_unsound(self.rules@, i as int));
                return Err(RulesError::Invalid { name: self.rules[i].name.clone(), problem });
            }
            i = i + 1;
        }
        Ok(())
    }
}

/// What came of reading the rules file.
#[derive(Debug)]
pub enum Reading {
    /// There is no such file.
    Missing,
    /// It could not be read.
    Failed(String),
    /// It holds no rules.
    Unparseable(String),
    /// It holds these rules.
    Parsed(RuleSet),
}

/// Where rules live.
#[derive(Debug, Clone)]
pub struct RulesStore {
    pub path: FilePath,
}

/// Whether a file mode lets anyone but the owner write.
pub open spec fn writable_by_others(mode: u32) -> bool {
    mode & 0o022 != 0
}

/// Whether `r` is what reading the rules file amounts to. A missing file means
/// no rules, not an error.
pub open spec fn loads(path: Seq<u8>, found: Reading, r: Result<RuleSet>) -> bool {
    match found {
        Reading::Missing => r matches Ok(s) && s.rules@.len() == 0,
        Reading::Failed(why) => r == Err::<RuleSet, RulesError>(RulesError::Io(why)),
        Reading::Unparseable(why) => r matches Err(RulesError::Parse { path: p, source }) && p@
            == paths::path_text(path) && source == why,
        Reading::Parsed(set) => match r {
            Ok(s) => s == set && sound(set.rules@),
            Err(e) => !sound(set.rules@) && blames(e, set.rules@),
        },
    }
}

impl RulesStore {
    pub fn new(path: FilePath) -> (s: Self)
        ensures
            s.path == path,
    {
        RulesStore { path }
    }

    /// The default per-user location.
    pub fn default_location() -> (s: Self)
        ensures
            paths::for_user(s.path@, "rules.toml"@),
    {
        RulesStore::new(paths::user_file("rules.toml"))
    }

    /// The file that rules are kept in.
    pub fn path(&self) -> (p: &FilePath)
        ensures
            *p == self.path,
    {
        &self.path
    }

    /// The rules, from what reading their file came to. A missing file means no
    /// rules, not an error.
    pub fn load(&self, found: Reading) -> (r: Result<RuleSet>)
        ensures
            loads(self.path@, found, r),
    {
        match found {
            Reading::Missing => Ok(RuleSet::default()),
            Reading::Failed(why) => Err(RulesError::Io(why)),
            Reading::Unparseable(why) => Err(
                RulesError::Parse { path: self.path.describe(), source: why },
            ),
            Reading::Parsed(set) => match set.validate() {
                Ok(_) => Ok(set),
                Err(e) => Err(e),
            },
        }
    }

    /// Where rules are written before they take the place of the former ones, so
    /// that no reader finds half of a file.
    pub fn temporary(&self) -> (p: FilePath)
        ensures
            p@ == paths::extended(self.path@, "toml.tmp"@),
    {
        self.path.with_extension("toml.tmp")
    }

    /// Whether rules may be written to the file.
    pub fn save(&self, set: &RuleSet) -> (r: Result<()>)
        ensures
            match r {
                Ok(_) => sound(set.rules@),
                Err(e) => !sound(set.rules@) && blames(e, set.rules@),
            },
    {
        set.validate()
    }

    /// True if the rules file is writable by anyone other than its owner, given
    /// its mode, where it has one.
    ///
    /// The file can run shell commands, so a world-writable one is a privilege
    /// escalation vector worth naming rather than silently honouring.
    pub fn is_insecure(&self, mode: Option<u32>) -> (b: bool)
        ensures
            b == (mode matches Some(m) && writable_by_others(m)),
    {
        match mode {
            Some(m) => m & 0o022 != 0,
            None => false,
        }
    }
}

// ── Laws ───────────────────────────────────────────────────────────────────

/// What may be written is accepted when it is read again.
pub proof fn law_saved_rules_load(path: Seq<u8>, set: RuleSet, r: Result<RuleSet>)
    requires
        sound(set.rules@),
        loads(path, Reading::Parsed(set), r),
    ensures
        r == Ok::<RuleSet, RulesError>(set),
{
}

/// Rules that may not be written are refused when they are read, too, and the same
/// rule is blamed.
pub proof fn law_unsound_rules_are_refused(path: Seq<u8>, set: RuleSet, r: Result<RuleSet>)
    requires
        !sound(set.rules@),
        loads(path, Reading::Parsed(set), r),
    ensures
        r matches Err(e) && blames(e, set.rules@),
{
}

/// A time is always one of the day.
pub proof fn law_times_are_of_the_day(s: Seq<char>)
    ensures
        time_of(s) matches Some((h, m)) ==> h < 24 && m < 60,
{
}

/// A rule never waits for a power state that nobody knows.
pub proof fn law_no_rule_waits_for_unknown_power(rules: Seq<Rule>, i: int)
    requires
        sound(rules),
        0 <= i < rules.len(),
    ensures
        rules[i].trigger != Trigger::Power(PowerState::Unknown),
{
    assert(problem_of(rules[i]) is None);
}

/// A rule cannot work exactly where its name is blank, its time is no time of the day,
/// or it waits for a power state that nobody knows.
pub proof fn law_which_rules_cannot_work(r: Rule)
    ensures
        (problem_of(r) is Some) == (text::trimmed(r.name@).len() == 0 || (
        r.trigger matches Trigger::Time(t) && time_of(t@) is None) || r.trigger == Trigger::Power(
            PowerState::Unknown,
        )),
{
}

/// The first colon of digits, a colon and digits is the one between them.
proof fn lemma_colon(a: Seq<char>, b: Seq<char>)
    requires
        forall|i: int| 0 <= i < a.len() ==> '0' <= #[trigger] a[i] <= '9',
    ensures
        text::first_index(a + seq![':'] + b, ':') == a.len(),
    decreases a.len(),
{
    let s = a + seq![':'] + b;
    if a.len() > 0 {
        lemma_colon(a.drop_first(), b);
        assert(s.drop_first() =~= a.drop_first() + seq![':'] + b);
        assert(s[0] == a[0]);
        assert('0' <= a[0] <= '9');
    } else {
        assert(s[0] == ':');
    }
}

/// Digits, a colon and digits are the hour and the minute that the digits denote,
/// where there are so many in a day, and no time otherwise.
proof fn lemma_time(a: Seq<char>, b: Seq<char>)
    requires
        a.len() > 0,
        b.len() > 0,
        forall|i: int| 0 <= i < a.len() ==> '0' <= #[trigger] a[i] <= '9',
        forall|i: int| 0 <= i < b.len() ==> '0' <= #[trigger] b[i] <= '9',
    ensures
        time_of(a + seq![':'] + b) == (if text::number_value(a, 10) < 24 && text::number_value(b, 10)
            < 60 {
            Some((text::number_value(a, 10), text::number_value(b, 10)))
        } else {
            None
        }),
{
    let s = a + seq![':'] + b;
    assert(s[0] == a[0] && '0' <= a[0] <= '9');
    assert(s.last() == b.last() && '0' <= b[b.len() - 1] <= '9');
    text::lemma_trimmed_of_tight(s);
    lemma_colon(a, b);
    assert(s.take(a.len() as int) =~= a);
    assert(s.skip(a.len() as int + 1) =~= b);
    assert('0' <= a[a.len() - 1] <= '9');
    assert('0' <= b[0] <= '9');
    text::lemma_trimmed_of_tight(a);
    text::lemma_trimmed_of_tight(b);
    assert(text::is_number(a, 10));
    assert(text::is_number(b, 10));
}

/// A time is read as it is written, the hour and the minute in decimal with a colon
/// between them, with or without a leading zero. What no day has is no time.
pub proof fn law_times_are_read(h: nat, m: nat)
    ensures
        time_of(text::decimal(h) + ":"@ + text::decimal(m)) == (if h < 24 && m < 60 {
            Some((h, m))
        } else {
            None
        }),
        time_of("0"@ + text::decimal(h) + ":"@ + "0"@ + text::decimal(m)) == (if h < 24 && m < 60 {
            Some((h, m))
        } else {
            None
        }),
{
    reveal_strlit(":");
    reveal_strlit("0");
    let a = text::decimal(h);
    let b = text::decimal(m);
    text::lemma_decimal_reads_back(h);
    text::lemma_decimal_reads_back(m);
    lemma_time(a, b);
    assert(":"@ =~= seq![':']);
    assert("0"@ =~= seq!['0']);
    let x = "0"@ + a;
    let y = "0"@ + b;
    lemma_leading_zero(a);
    lemma_leading_zero(b);
    lemma_time(x, y);
    assert("0"@ + a + ":"@ + "0"@ + b =~= x + seq![':'] + y);
}

/// A leading zero changes no number.
proof fn lemma_leading_zero(s: Seq<char>)
    ensures
        text::number_value(seq!['0'] + s, 10) == text::number_value(s, 10),
    decreases s.len(),
{
    reveal_with_fuel(text::number_value, 2);
    let t = seq!['0'] + s;
    if s.len() == 0 {
        assert(t.drop_last() =~= Seq::<char>::empty());
    } else {
        lemma_leading_zero(s.drop_last());
        assert(t.drop_last() =~= seq!['0'] + s.drop_last());
    }
}

/// What has no colon is no time.
pub proof fn law_a_time_has_a_colon(s: Seq<char>)
    requires
        !s.contains(':'),
    ensures
        time_of(s) is None,
{
    let t = text::trimmed(s);
    let at = text::law_trimming_takes_white_space_alone(s);
    assert forall|i: int| 0 <= i < t.len() implies t[i] != ':' by {
        assert(t[i] == s[at + i]);
        assert(s.contains(s[at + i]));
    }
    lemma_no_colon(t);
}

/// What is not there is not found.
proof fn lemma_no_colon(t: Seq<char>)
    requires
        forall|i: int| 0 <= i < t.len() ==> t[i] != ':',
    ensures
        text::first_index(t, ':') == t.len(),
    decreases t.len(),
{
    if t.len() > 0 {
        assert(t[0] != ':');
        lemma_no_colon(t.drop_first());
    }
}

/// The file is in others' hands exactly where the group or everyone may write it.
pub proof fn law_insecure_means_writable_by_others(mode: u32)
    ensures
        writable_by_others(mode) == (mode & 0o020 != 0 || mode & 0o002 != 0),
{
    assert((mode & 0o022 != 0) == (mode & 0o020 != 0 || mode & 0o002 != 0)) by (bit_vector);
}

/// Missing rules are no rules, and rules that cannot be read are an error: nothing is
/// made of what could not be read.
pub proof fn law_rules_load_as_they_are(path: Seq<u8>, found: Reading, r: Result<RuleSet>)
    requires
        loads(path, found, r),
    ensures
        found is Missing ==> (r matches Ok(s) && s.rules@.len() == 0),
        (r matches Err(RulesError::Io(why))) == (found is Failed),
        (r matches Err(RulesError::Parse { path: p, source })) == (found is Unparseable),
        r matches Ok(s) ==> found is Missing || found == Reading::Parsed(s),
{
}

/// What sets a rule off, and what it does, is told in words that name it.
pub proof fn law_rules_are_put_in_words(t: Trigger, a: Action)
    ensures
        t is DisplayConnected ==> trigger_text(t) == "display "@ + text::quoted(
            t->DisplayConnected_0@,
        ) + " is connected"@,
        t is DisplayDisconnected ==> trigger_text(t) == "display "@ + text::quoted(
            t->DisplayDisconnected_0@,
        ) + " is disconnected"@,
        t is Time ==> trigger_text(t) == "the clock reaches "@ + t->Time_0@,
        t is Power && t->Power_0 is Ac ==> trigger_text(t) == "power switches to "@ + "AC power"@,
        t is Power && t->Power_0 is Battery ==> trigger_text(t) == "power switches to "@
            + "battery"@,
        a is Profile ==> action_text(a) == "apply profile "@ + text::quoted(a->Profile_0@),
        a is Run ==> action_text(a) == "run "@ + text::quoted(a->Run_0@),
        a is Write ==> action_text(a) == "set "@ + a->code@ + " = "@ + text::decimal(
            a->value as nat,
        ) + " on "@ + a->display@,
{
}

/// Each error is told by what it is and of which rule or file.
pub proof fn law_errors_say_what_they_are(e: RulesError)
    ensures
        e is Io ==> error_text(e) == "io: "@ + e->Io_0@,
        e is Parse ==> error_text(e) == "parse "@ + e->path@ + ": "@ + e->source@,
        e is Invalid ==> error_text(e) == "rule "@ + text::quoted(e->name@) + ": "@ + e->problem@,
        e is Serialize ==> error_text(e) == "serialize: "@ + e->Serialize_0@,
{
}

} // verus!
