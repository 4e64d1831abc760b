//! What the I2C worker does with a command.
//!
//! There is exactly one thread that may touch I2C, so concurrent access cannot
//! happen. It takes commands one at a time: [`needs`] says what has to be had
//! from the file system first, and [`run`] does the rest.

use crate::api;
use crate::daemon::actions;
use crate::daemon::apply;
use crate::daemon::automation::Automation;
use crate::daemon::engine;
use crate::daemon::engine::Engine;
use crate::daemon::selection::{EngineError, Result};
use crate::daemon::snapshot;
use crate::daemon::snapshot::Snapshot;
use crate::ddc::vcp::VcpCode;
use crate::model;
use crate::model::profile;
use crate::model::profile::{Reading, Removal};
use crate::model::rules;
use crate::model::{DisplayBackend, Profile, ProfileStore, Rule, RuleSet, RulesStore};
use crate::paths::FilePath;
use crate::text;
use crate::trace;
use vstd::prelude::*;

verus! {

/// Something to do.
#[derive(Debug)]
pub enum Command {
    List,
    Get { display: String, code: String },
    Write { display: String, code: String, value: u16, verify: bool },
    Caps { display: String },
    ProfileList,
    ProfileApply { name: String, verify: bool, yes: bool },
    ProfileSave { name: String, codes: Vec<VcpCode>, force: bool },
    ProfileDelete { name: String },
    ProfileShow { name: String },
    /// Poll the world and say which rules fired. Driven by the daemon's timer;
    /// all automation state stays in the worker so nothing else needs a view of
    /// the hardware.
    AutomationTick,
    RulesList,
    RulesReload,
}

/// What has to be had from the file system for a command.
#[derive(Debug)]
pub enum Need {
    Nothing,
    /// The profiles in this directory.
    Profiles(FilePath),
    /// What this profile file holds.
    Profile(FilePath),
    /// Whether there is this profile file.
    Presence(FilePath),
    /// This profile file removed.
    Absence(FilePath),
    /// What this rules file holds.
    Rules(FilePath),
}

/// What was had from the file system.
#[derive(Debug)]
pub enum Supply {
    Nothing,
    Profiles(profile::Result<Vec<(String, Reading)>>),
    Profile(Reading),
    Presence(bool),
    Absence(Removal),
    Rules(rules::Reading),
}

/// What came of a command.
#[derive(Debug)]
pub enum Answer {
    Monitors(Result<Vec<api::MonitorInfo>>),
    Value(Result<api::VcpValue>),
    Written(Result<api::SetResult>),
    Caps(Result<api::CapsResult>),
    Profiles(Result<Vec<api::ProfileSummary>>),
    Applied(Result<api::ApplyResult>),
    Saved(Result<Snapshot>),
    Deleted(Result<()>),
    Shown(Result<Profile>),
    Fired(Result<Vec<Rule>>),
    Rules(Result<Vec<api::RuleInfo>>),
}

/// Whether a need is that of a command. A profile whose name is not valid needs
/// nothing: no path is ever made of it.
pub open spec fn need_of(n: Need, cmd: Command, dir: Seq<u8>, rules_path: Seq<u8>) -> bool {
    match cmd {
        Command::ProfileList => n matches Need::Profiles(d) && d@ == dir,
        Command::ProfileApply { name, .. } => if profile::valid_name(name@) {
            n matches Need::Profile(p) && p@ == profile::profile_path(dir, name@)
        } else {
            n is Nothing
        },
        Command::ProfileShow { name } => if profile::valid_name(name@) {
            n matches Need::Profile(p) && p@ == profile::profile_path(dir, name@)
        } else {
            n is Nothing
        },
        Command::ProfileSave { name, .. } => if profile::valid_name(name@) {
            n matches Need::Presence(p) && p@ == profile::profile_path(dir, name@)
        } else {
            n is Nothing
        },
        Command::ProfileDelete { name } => if profile::valid_name(name@) {
            n matches Need::Absence(p) && p@ == profile::profile_path(dir, name@)
        } else {
            n is Nothing
        },
        Command::RulesReload => n matches Need::Rules(p) && p@ == rules_path,
        _ => n is Nothing,
    }
}

/// What has to be had from the file system for a command.
pub fn needs(cmd: &Command, profiles: &ProfileStore, store: &RulesStore) -> (n: Need)
    ensures
        need_of(n, *cmd, profiles.dir@, store.path@),
{
    match cmd {
        Command::ProfileList => Need::Profiles(profiles.dir.clone()),
        Command::ProfileApply { name, .. } => match profiles.path_for(name.as_str()) {
            Ok(p) => Need::Profile(p),
            Err(_) => Need::Nothing,
        },
        Command::ProfileShow { name } => match profiles.path_for(name.as_str()) {
            Ok(p) => Need::Profile(p),
            Err(_) => Need::Nothing,
        },
        Command::ProfileSave { name, .. } => match profiles.path_for(name.as_str()) {
            Ok(p) => Need::Presence(p),
            Err(_) => Need::Nothing,
        },
        Command::ProfileDelete { name } => match profiles.path_for(name.as_str()) {
            Ok(p) => Need::Absence(p),
            Err(_) => Need::Nothing,
        },
        Command::RulesReload => Need::Rules(store.path.clone()),
        _ => Need::Nothing,
    }
}

/// What reading a profile came to: nothing found where nothing was supplied.
pub open spec fn reading_in(s: Supply) -> Reading {
    match s {
        Supply::Profile(r) => r,
        _ => Reading::Missing,
    }
}

/// What removing a profile came to: nothing found where nothing was supplied.
pub open spec fn removal_in(s: Supply) -> Removal {
    match s {
        Supply::Absence(r) => r,
        _ => Removal::Missing,
    }
}

/// Whether there is a profile by that name: not where nothing was supplied.
pub open spec fn presence_in(s: Supply) -> bool {
    s matches Supply::Presence(b) && b
}

/// What reading the rules came to: nothing found where nothing was supplied.
pub open spec fn rules_in(s: Supply) -> rules::Reading {
    match s {
        Supply::Rules(r) => r,
        _ => rules::Reading::Missing,
    }
}

/// Whether summaries are those of the profiles that were supplied.
pub open spec fn summarised(s: Supply, r: Result<Vec<api::ProfileSummary>>) -> bool {
    match s {
        Supply::Profiles(Ok(found)) => {
            &&& r matches Ok(v) && v@.len() == found@.len() && forall|i: int|
                0 <= i < v@.len() ==> (#[trigger] v@[i]).name@ == found@[i].0@ && v@[i].displays
                    == snapshot::size_of(found@[i].0@, found@[i].1)
        },
        Supply::Profiles(Err(e)) => r == Err::<Vec<api::ProfileSummary>, EngineError>(
            EngineError::Profile(e),
        ),
        _ => r matches Ok(v) && v@.len() == 0,
    }
}

/// Whether rules that were read are in force, or were refused and changed
/// nothing.
pub open spec fn reloaded(
    a0: Automation,
    a1: Automation,
    path: Seq<u8>,
    found: rules::Reading,
    r: Result<Vec<api::RuleInfo>>,
) -> bool {
    exists|loaded: rules::Result<RuleSet>| #[trigger]
        rules::loads(path, found, loaded) && match loaded {
            Ok(set) => {
                &&& a1.rules == set
                &&& a1.last == a0.last
                &&& a1.since == a0.since
                &&& a1.time_fired@ == a0.time_fired@
                &&& r matches Ok(infos) && actions::lists_rules(infos@, set.rules@)
            },
            Err(e) => a1 == a0 && r == Err::<Vec<api::RuleInfo>, EngineError>(EngineError::Rules(e)),
        }
}

/// Whether an answer, and what became of the engine and the rules, are those of
/// a command.
pub open spec fn ran<B: DisplayBackend>(
    e0: Engine<B>,
    e1: Engine<B>,
    a0: Automation,
    a1: Automation,
    rules_path: Seq<u8>,
    cmd: Command,
    supply: Supply,
    answer: Answer,
) -> bool {
    let cs = e1.calls_since(e0);
    let m0 = e0.monitors@;
    let m1 = e1.monitors@;
    let dir = e0.profiles.dir@;
    match cmd {
        Command::List => {
            &&& a1 == a0
            &&& e1.rest_kept(e0)
            &&& engine::enumerated(cs, m0, m1)
            &&& answer matches Answer::Monitors(r) && engine::listed(cs, m1, r)
        },
        Command::Get { display, code } => {
            &&& a1 == a0
            &&& answer matches Answer::Value(r) && engine::got(
                cs,
                e0.clock,
                m0,
                m1,
                e0.read_cooldown@,
                e1.read_cooldown@,
                display@,
                code@,
                r,
            )
        },
        Command::Write { display, code, value, verify } => {
            &&& a1 == a0
            &&& answer matches Answer::Written(r) && engine::set_done(
                cs,
                m0,
                m1,
                e0.read_cooldown@,
                e1.read_cooldown@,
                display@,
                code@,
                value,
                verify,
                r,
            )
        },
        Command::Caps { display } => {
            &&& a1 == a0
            &&& e1.rest_kept(e0)
            &&& answer matches Answer::Caps(r) && engine::caps_done(cs, m0, m1, display@, r)
        },
        Command::ProfileList => {
            &&& a1 == a0
            &&& e1 == e0
            &&& answer matches Answer::Profiles(r) && summarised(supply, r)
        },
        Command::ProfileApply { name, verify, yes } => {
            &&& a1 == a0
            &&& e1.rest_kept(e0)
            &&& answer matches Answer::Applied(r) && apply::applied(
                cs,
                m0,
                m1,
                dir,
                name@,
                reading_in(supply),
                verify,
                yes,
                r,
            )
        },
        Command::ProfileSave { name, codes, force } => {
            &&& a1 == a0
            &&& e1.rest_kept(e0)
            &&& answer matches Answer::Saved(r) && snapshot::saved(
                cs,
                m0,
                m1,
                dir,
                name@,
                codes@,
                force,
                presence_in(supply),
                r,
            )
        },
        Command::ProfileDelete { name } => {
            &&& a1 == a0
            &&& e1 == e0
            &&& answer matches Answer::Deleted(r) && snapshot::deletes(
                name@,
                removal_in(supply),
                r,
            )
        },
        Command::ProfileShow { name } => {
            &&& a1 == a0
            &&& e1 == e0
            &&& answer matches Answer::Shown(r) && snapshot::shows(
                dir,
                name@,
                reading_in(supply),
                r,
            )
        },
        Command::AutomationTick => {
            &&& e1.rest_kept(e0)
            &&& answer matches Answer::Fired(r) && actions::ticked::<B>(
                e0.backend.calls(),
                cs,
                m0,
                m1,
                a0,
                a1,
                r,
            )
        },
        Command::RulesList => {
            &&& a1 == a0
            &&& e1 == e0
            &&& answer matches Answer::Rules(Ok(infos)) && actions::lists_rules(
                infos@,
                a0.rules.rules@,
            )
        },
        Command::RulesReload => {
            &&& e1 == e0
            &&& answer matches Answer::Rules(r) && reloaded(
                a0,
                a1,
                rules_path,
                rules_in(supply),
                r,
            )
        },
    }
}

/// Do what a command asks for.
pub fn run<B: DisplayBackend>(
    e: &mut Engine<B>,
    a: &mut Automation,
    store: &RulesStore,
    cmd: Command,
    supply: Supply,
) -> (answer: Answer)
    ensures
        final(e).profiles == old(e).profiles,
        final(e).clock == old(e).clock,
        final(e).follows(*old(e)),
        ran(*old(e), *final(e), *old(a), *final(a), store.path@, cmd, supply, answer),
{
    proof {
        trace::lemma_same(e.backend.calls());
    }
    match cmd {
        Command::List => Answer::Monitors(e.list()),
        Command::Get { display, code } => Answer::Value(e.get(display.as_str(), code.as_str())),
        Command::Write { display, code, value, verify } => Answer::Written(
            e.set(display.as_str(), code.as_str(), value, verify),
        ),
        Command::Caps { display } => Answer::Caps(e.caps(display.as_str())),
        Command::ProfileList => Answer::Profiles(
            match supply {
                Supply::Profiles(Ok(found)) => Ok(e.profile_list(found)),
                Supply::Profiles(Err(why)) => Err(EngineError::Profile(why)),
                _ => Ok(Vec::new()),
            },
        ),
        Command::ProfileApply { name, verify, yes } => {
            let found = match supply {
                Supply::Profile(r) => r,
                _ => Reading::Missing,
            };
            Answer::Applied(e.profile_apply(name.as_str(), found, verify, yes))
        },
        Command::ProfileSave { name, codes, force } => {
            let taken: bool = match supply {
                Supply::Presence(b) => b,
                _ => false,
            };
            Answer::Saved(e.profile_save(name.as_str(), &codes, force, taken))
        },
        Command::ProfileDelete { name } => {
            let done = match supply {
                Supply::Absence(r) => r,
                _ => Removal::Missing,
            };
            Answer::Deleted(e.profile_delete(name.as_str(), done))
        },
        Command::ProfileShow { name } => {
            let found = match supply {
                Supply::Profile(r) => r,
                _ => Reading::Missing,
            };
            Answer::Shown(e.profile_show(name.as_str(), found))
        },
        Command::AutomationTick => Answer::Fired(actions::begin_tick(e, a)),
        Command::RulesList => Answer::Rules(Ok(actions::rule_infos(&a.rules))),
        Command::RulesReload => {
            let found = match supply {
                Supply::Rules(r) => r,
                _ => rules::Reading::Missing,
            };
            let loaded = store.load(found);
            assert(rules::loads(store.path@, rules_in(supply), loaded));
            Answer::Rules(
                match loaded {
                    Ok(set) => {
                        let infos = actions::rule_infos(&set);
                        a.replace(set);
                        Ok(infos)
                    },
                    Err(why) => Err(EngineError::Rules(why)),
                },
            )
        },
    }
}

/// Whether rules are those to start with: the ones that were loaded, or none.
pub open spec fn starts_with(loaded: rules::Result<RuleSet>, r: RuleSet) -> bool {
    match loaded {
        Ok(set) => r == set,
        Err(_) => r.rules@.len() == 0,
    }
}

/// The rules to start with. Bad rules must not stop the daemon serving
/// brightness.
pub fn starting_rules(loaded: rules::Result<RuleSet>) -> (r: RuleSet)
    ensures
        starts_with(loaded, r),
{
    match loaded {
        Ok(set) => set,
        Err(_) => RuleSet::default(),
    }
}

/// How a command can be lost on its way.
#[derive(Debug, Clone, Copy, PartialEq, Eq, Structural)]
pub enum Loss {
    /// Nobody takes commands any more.
    Gone,
    /// The command was taken and never answered.
    Dropped,
}

/// Whether an error is the one that a lost command comes to.
pub open spec fn tells_of_loss(loss: Loss, e: EngineError) -> bool {
    e matches EngineError::Backend(model::Error::Transport(s)) && s@ == match loss {
        Loss::Gone => "worker thread is gone"@,
        Loss::Dropped => "worker dropped the request"@,
    }
}

/// What is said of a lost command: an error rather than a hang.
pub fn loss_error(loss: Loss) -> (e: EngineError)
    ensures
        tells_of_loss(loss, e),
{
    EngineError::Backend(
        model::Error::Transport(
            match loss {
                Loss::Gone => text::own("worker thread is gone"),
                Loss::Dropped => text::own("worker dropped the request"),
            },
        ),
    )
}

// ── Laws ───────────────────────────────────────────────────────────────────

/// A command on a profile needs that profile's own file: its contents to apply or to show
/// it, whether it is there to save it, and its removal to delete it. A name that is not
/// valid needs no file.
pub proof fn law_profile_commands_need_their_file(
    n: Need,
    cmd: Command,
    dir: Seq<u8>,
    rules_path: Seq<u8>,
    name: Seq<char>,
)
    requires
        need_of(n, cmd, dir, rules_path),
        (cmd is ProfileApply && cmd->ProfileApply_name@ == name) || (cmd is ProfileShow
            && cmd->ProfileShow_name@ == name) || (cmd is ProfileSave && cmd->ProfileSave_name@
            == name) || (cmd is ProfileDelete && cmd->ProfileDelete_name@ == name),
    ensures
        !profile::valid_name(name) ==> n is Nothing,
        profile::valid_name(name) ==> {
            &&& cmd is ProfileApply || cmd is ProfileShow ==> n is Profile && n->Profile_0@
                == profile::profile_path(dir, name)
            &&& cmd is ProfileSave ==> n is Presence && n->Presence_0@ == profile::profile_path(
                dir,
                name,
            )
            &&& cmd is ProfileDelete ==> n is Absence && n->Absence_0@ == profile::profile_path(
                dir,
                name,
            )
        },
{
}

/// Listing profiles needs their directory and reloading rules the rules file. No other
/// command needs a file, and only deleting a profile ever needs one removed.
pub proof fn law_other_commands_need_no_profile(
    n: Need,
    cmd: Command,
    dir: Seq<u8>,
    rules_path: Seq<u8>,
)
    requires
        need_of(n, cmd, dir, rules_path),
    ensures
        n is Profiles <==> cmd is ProfileList,
        n is Profiles ==> n->Profiles_0@ == dir,
        n is Rules <==> cmd is RulesReload,
        n is Rules ==> n->Rules_0@ == rules_path,
        n is Absence ==> cmd is ProfileDelete,
        n is Presence ==> cmd is ProfileSave,
        n is Profile ==> cmd is ProfileApply || cmd is ProfileShow,
{
}

/// What was had is what a command goes by; what was not had is taken for missing.
pub proof fn law_what_was_not_had_is_missing(s: Supply)
    ensures
        s is Profile ==> reading_in(s) == s->Profile_0,
        !(s is Profile) ==> reading_in(s) is Missing,
        s is Absence ==> removal_in(s) == s->Absence_0,
        !(s is Absence) ==> removal_in(s) is Missing,
        presence_in(s) <==> s is Presence && s->Presence_0,
        s is Rules ==> rules_in(s) == s->Rules_0,
        !(s is Rules) ==> rules_in(s) is Missing,
{
}

/// A list of profiles has one summary for each that was found, in order, by its own name,
/// with how many displays it is for where it could be read and its name is valid.
pub proof fn law_profiles_are_summed_up(s: Supply, r: Result<Vec<api::ProfileSummary>>, i: int)
    requires
        summarised(s, r),
    ensures
        !(s is Profiles) ==> r is Ok && r->Ok_0@.len() == 0,
        s is Profiles && s->Profiles_0 is Err ==> r is Err && r->Err_0 is Profile
            && r->Err_0->Profile_0 == s->Profiles_0->Err_0,
        s is Profiles && s->Profiles_0 is Ok ==> {
            let found = s->Profiles_0->Ok_0@;
            &&& r is Ok
            &&& r->Ok_0@.len() == found.len()
            &&& 0 <= i < found.len() ==> {
                &&& r->Ok_0@[i].name@ == found[i].0@
                &&& found[i].1 is Parsed && profile::valid_name(found[i].0@)
                    && found[i].1->Parsed_0.displays@.len() <= usize::MAX ==> r->Ok_0@[i].displays
                    is Some && r->Ok_0@[i].displays->0 == found[i].1->Parsed_0.displays@.len()
                &&& !(found[i].1 is Parsed) || !profile::valid_name(found[i].0@)
                    ==> r->Ok_0@[i].displays is None
            }
        },
{
}

/// Rules that load are put in force whole, and nothing that was seen is forgotten. Rules
/// that do not load change nothing, and why is passed on.
pub proof fn law_reloading_is_all_or_nothing(
    a0: Automation,
    a1: Automation,
    path: Seq<u8>,
    found: rules::Reading,
    r: Result<Vec<api::RuleInfo>>,
) -> (loaded: rules::Result<RuleSet>)
    requires
        reloaded(a0, a1, path, found, r),
    ensures
        rules::loads(path, found, loaded),
        r is Ok <==> loaded is Ok,
        a1.last == a0.last,
        a1.since == a0.since,
        a1.time_fired@ == a0.time_fired@,
        loaded is Ok ==> a1.rules == loaded->Ok_0 && actions::lists_rules(
            r->Ok_0@,
            loaded->Ok_0.rules@,
        ),
        loaded is Err ==> a1.rules == a0.rules && r->Err_0 is Rules && r->Err_0->Rules_0
            == loaded->Err_0,
{
    choose|loaded: rules::Result<RuleSet>| #[trigger]
        rules::loads(path, found, loaded) && match loaded {
            Ok(set) => {
                &&& a1.rules == set
                &&& a1.last == a0.last
                &&& a1.since == a0.since
                &&& a1.time_fired@ == a0.time_fired@
                &&& r matches Ok(infos) && actions::lists_rules(infos@, set.rules@)
            },
            Err(e) => a1 == a0 && r == Err::<Vec<api::RuleInfo>, EngineError>(EngineError::Rules(e)),
        }
}

/// A command is answered in kind, and changes no more than it is for: only a tick and a
/// reload touch the rules' state, and what is done on files alone makes no call of any
/// display and leaves the engine as it was.
pub proof fn law_commands_keep_to_themselves<B: DisplayBackend>(
    e0: Engine<B>,
    e1: Engine<B>,
    a0: Automation,
    a1: Automation,
    rules_path: Seq<u8>,
    cmd: Command,
    supply: Supply,
    answer: Answer,
)
    requires
        ran(e0, e1, a0, a1, rules_path, cmd, supply, answer),
    ensures
        !(cmd is AutomationTick) && !(cmd is RulesReload) ==> a1 == a0,
        cmd is ProfileList || cmd is ProfileDelete || cmd is ProfileShow || cmd is RulesList || cmd
            is RulesReload ==> e1 == e0,
        answer is Monitors <==> cmd is List,
        answer is Value <==> cmd is Get,
        answer is Written <==> cmd is Write,
        answer is Caps <==> cmd is Caps,
        answer is Profiles <==> cmd is ProfileList,
        answer is Applied <==> cmd is ProfileApply,
        answer is Saved <==> cmd is ProfileSave,
        answer is Deleted <==> cmd is ProfileDelete,
        answer is Shown <==> cmd is ProfileShow,
        answer is Fired <==> cmd is AutomationTick,
        answer is Rules <==> cmd is RulesList || cmd is RulesReload,
{
}

/// A value is read and written on the displays, for the code and with the value and the
/// check that the command names.
pub proof fn law_values_go_where_the_command_says<B: DisplayBackend>(
    e0: Engine<B>,
    e1: Engine<B>,
    a0: Automation,
    a1: Automation,
    rules_path: Seq<u8>,
    cmd: Command,
    supply: Supply,
    answer: Answer,
)
    requires
        ran(e0, e1, a0, a1, rules_path, cmd, supply, answer),
    ensures
        cmd is Get ==> engine::got(
            e1.calls_since(e0),
            e0.clock,
            e0.monitors@,
            e1.monitors@,
            e0.read_cooldown@,
            e1.read_cooldown@,
            cmd->Get_display@,
            cmd->Get_code@,
            answer->Value_0,
        ),
        cmd is Write ==> engine::set_done(
            e1.calls_since(e0),
            e0.monitors@,
            e1.monitors@,
            e0.read_cooldown@,
            e1.read_cooldown@,
            cmd->Write_display@,
            cmd->Write_code@,
            cmd->value,
            cmd->Write_verify,
            answer->Written_0,
        ),
        cmd is Caps ==> engine::caps_done(
            e1.calls_since(e0),
            e0.monitors@,
            e1.monitors@,
            cmd->Caps_display@,
            answer->Caps_0,
        ),
        cmd is List ==> engine::listed(e1.calls_since(e0), e1.monitors@, answer->Monitors_0),
{
}

/// A profile is applied, saved, deleted or shown under the name that the command gives,
/// from what was had for it, and with the leave that the command gives.
pub proof fn law_profiles_go_by_the_command<B: DisplayBackend>(
    e0: Engine<B>,
    e1: Engine<B>,
    a0: Automation,
    a1: Automation,
    rules_path: Seq<u8>,
    cmd: Command,
    supply: Supply,
    answer: Answer,
)
    requires
        ran(e0, e1, a0, a1, rules_path, cmd, supply, answer),
    ensures
        cmd is ProfileApply && supply is Profile ==> apply::applied(
            e1.calls_since(e0),
            e0.monitors@,
            e1.monitors@,
            e0.profiles.dir@,
            cmd->ProfileApply_name@,
            supply->Profile_0,
            cmd->ProfileApply_verify,
            cmd->yes,
            answer->Applied_0,
        ),
        cmd is ProfileSave && supply is Presence ==> snapshot::saved(
            e1.calls_since(e0),
            e0.monitors@,
            e1.monitors@,
            e0.profiles.dir@,
            cmd->ProfileSave_name@,
            cmd->codes@,
            cmd->force,
            supply->Presence_0,
            answer->Saved_0,
        ),
        cmd is ProfileDelete && supply is Absence ==> snapshot::deletes(
            cmd->ProfileDelete_name@,
            supply->Absence_0,
            answer->Deleted_0,
        ),
        cmd is ProfileShow && supply is Profile ==> snapshot::shows(
            e0.profiles.dir@,
            cmd->ProfileShow_name@,
            supply->Profile_0,
            answer->Shown_0,
        ),
        cmd is RulesList ==> answer->Rules_0 is Ok && actions::lists_rules(
            answer->Rules_0->Ok_0@,
            a0.rules.rules@,
        ),
{
}

/// The daemon starts with the rules that were loaded, and with none where they were bad.
pub proof fn law_bad_rules_start_as_none(loaded: rules::Result<RuleSet>, r: RuleSet)
    requires
        starts_with(loaded, r),
    ensures
        loaded is Ok ==> r == loaded->Ok_0,
        loaded is Err ==> r.rules@.len() == 0,
{
}

/// A lost command comes to an error that says whether it was never taken or never answered.
pub proof fn law_losses_are_told_apart(loss: Loss, e: EngineError)
    requires
        tells_of_loss(loss, e),
    ensures
        e is Backend,
        e->Backend_0 is Transport,
        loss is Gone ==> e->Backend_0->Transport_0@ == "worker thread is gone"@,
        loss is Dropped ==> e->Backend_0->Transport_0@ == "worker dropped the request"@,
{
}

} // verus!
