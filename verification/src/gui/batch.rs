//! What the menu asks for, and how it is carried out.

use crate::gui::client;
use crate::gui::client::{Shown, Snapshot};
use crate::paths;
use crate::paths::FilePath;
use crate::text;
use vstd::prelude::*;

verus! {

/// Something the user asked for. All fire-and-forget from the menu's side.
#[derive(Debug)]
pub enum Cmd {
    /// Write a value.
    Write { display: String, code: u8, value: u16 },
    ApplyProfile(String),
    DeleteProfile(String),
    /// Snapshot current settings into a new (or overwritten) profile.
    SaveProfile(String),
    /// Read a display's capability string (chunked, slow) and cache it.
    FetchCaps(String),
    /// Force a snapshot refresh (e.g. just after the menu opens).
    Refresh,
}

/// Something to ask of the daemon before the writes.
#[derive(Debug)]
pub enum Task {
    /// Apply without verifying and without consent to destructive codes.
    Apply(String),
    Delete(String),
    /// Save the default codes, over what there is.
    Save(String),
    Fetch(String),
}

/// A write.
#[derive(Debug)]
pub struct Write {
    pub display: String,
    pub code: u8,
    pub value: u16,
}

/// What a write says.
pub type Written = (Seq<char>, u8, u16);

/// What writes say.
pub open spec fn write_views(v: Seq<Write>) -> Seq<Written> {
    Seq::new(v.len(), |i: int| (v[i].display@, v[i].code, v[i].value))
}

/// What a batch of commands comes down to: the tasks in order, then the writes,
/// then a refresh if one is due.
#[derive(Debug)]
pub struct Batch {
    pub tasks: Vec<Task>,
    pub writes: Vec<Write>,
    pub refresh: bool,
}

/// The control that a command writes, and the value.
pub open spec fn write_of(c: Cmd) -> Option<Written> {
    match c {
        Cmd::Write { display, code, value } => Some((display@, code, value)),
        _ => None,
    }
}

/// Whether two writes go to the same control.
pub open spec fn same_control(a: Written, b: Written) -> bool {
    a.0 == b.0 && a.1 == b.1
}

/// Where the first write to a control stands; past the end if there is none.
pub open spec fn place_of(ws: Seq<Written>, w: Written) -> int
    decreases ws.len(),
{
    if ws.len() == 0 {
        0
    } else if place_of(ws.drop_last(), w) < ws.len() - 1 {
        place_of(ws.drop_last(), w)
    } else if same_control(ws.last(), w) {
        ws.len() - 1
    } else {
        ws.len() as int
    }
}

/// Writes with one more: in the place of the one to the same control, or behind
/// the others.
pub open spec fn merged(ws: Seq<Written>, w: Written) -> Seq<Written> {
    if place_of(ws, w) < ws.len() {
        ws.update(place_of(ws, w), w)
    } else {
        ws.push(w)
    }
}

/// The writes of commands: for each control the last value, in the order in which
/// the controls were first written.
pub open spec fn writes_in(cmds: Seq<Cmd>) -> Seq<Written>
    decreases cmds.len(),
{
    if cmds.len() == 0 {
        Seq::empty()
    } else {
        match write_of(cmds.last()) {
            Some(w) => merged(writes_in(cmds.drop_last()), w),
            None => writes_in(cmds.drop_last()),
        }
    }
}

/// Whether a task is what a command asks for.
pub open spec fn task_for(c: Cmd, t: Task) -> bool {
    match (c, t) {
        (Cmd::ApplyProfile(n), Task::Apply(m)) => n@ == m@,
        (Cmd::DeleteProfile(n), Task::Delete(m)) => n@ == m@,
        (Cmd::SaveProfile(n), Task::Save(m)) => n@ == m@,
        (Cmd::FetchCaps(n), Task::Fetch(m)) => n@ == m@,
        _ => false,
    }
}

/// Whether a command is carried out by a task.
pub open spec fn is_task(c: Cmd) -> bool {
    c is ApplyProfile || c is DeleteProfile || c is SaveProfile || c is FetchCaps
}

/// Whether a command makes a refresh due. A write needs none: the slider already
/// shows the value the user chose.
pub open spec fn is_refreshing(c: Cmd) -> bool {
    c is ApplyProfile || c is DeleteProfile || c is SaveProfile || c is Refresh
}

/// Whether `tasks` are those of `cmds`, in order.
pub open spec fn tasks_in(cmds: Seq<Cmd>, tasks: Seq<Task>) -> bool
    decreases cmds.len(),
{
    if cmds.len() == 0 {
        tasks.len() == 0
    } else if is_task(cmds.last()) {
        tasks.len() > 0 && task_for(cmds.last(), tasks.last()) && tasks_in(
            cmds.drop_last(),
            tasks.drop_last(),
        )
    } else {
        tasks_in(cmds.drop_last(), tasks)
    }
}

/// Whether a refresh is due after commands.
pub open spec fn refresh_in(cmds: Seq<Cmd>) -> bool {
    exists|i: int| 0 <= i < cmds.len() && is_refreshing(#[trigger] cmds[i])
}

/// Where the first write to a control stands.
fn find_place(ws: &Vec<Write>, display: &str, code: u8) -> (r: usize)
    ensures
        forall|value: u16|
            r == #[trigger] place_of(write_views(ws@), (display@, code, value)),
        r <= ws@.len(),
{
    let ghost all = write_views(ws@);
    let mut i: usize = 0;
    let mut found: usize = 0;
    while i < ws.len()
        invariant
            found <= i <= ws@.len(),
            all == write_views(ws@),
            all.len() == ws@.len(),
            forall|value: u16|
                found == #[trigger] place_of(all.take(i as int), (display@, code, value)),
        decreases ws@.len() - i,
    {
        let same: bool = text::same(ws[i].display.as_str(), display) && ws[i].code == code;
        proof {
            assert(all.take(i + 1).drop_last() =~= all.take(i as int));
            assert(all.take(i + 1).last() == all[i as int]);
            assert forall|value: u16|
                (if found < i || same { found as int } else { i + 1 }) == #[trigger] place_of(
                    all.take(i + 1),
                    (display@, code, value),
                ) by {
                assert(place_of(all.take(i as int), (display@, code, value)) == found);
                assert(same == same_control(all[i as int], (display@, code, value)));
            }
        }
        if found == i && !same {
            found = i + 1;
        }
        i = i + 1;
    }
    assert(all.take(i as int) =~= all);
    found
}

/// What a batch of commands comes down to.
///
/// A continuous slider drag posts dozens of writes; without this each would be a
/// separate DDC write and the worker would fall seconds behind the user's finger.
pub fn process_batch(cmds: &Vec<Cmd>) -> (b: Batch)
    ensures
        tasks_in(cmds@, b.tasks@),
        write_views(b.writes@) == writes_in(cmds@),
        b.refresh == refresh_in(cmds@),
{
    let mut tasks: Vec<Task> = Vec::new();
    let mut writes: Vec<Write> = Vec::new();
    let mut refresh: bool = false;
    let mut i: usize = 0;
    assert(write_views(writes@) =~= writes_in(cmds@.take(0)));
    while i < cmds.len()
        invariant
            i <= cmds@.len(),
            tasks_in(cmds@.take(i as int), tasks@),
            write_views(writes@) == writes_in(cmds@.take(i as int)),
            refresh == refresh_in(cmds@.take(i as int)),
        decreases cmds@.len() - i,
    {
        let ghost done = cmds@.take(i as int);
        let ghost next = cmds@.take(i + 1);
        let ghost before = tasks@;
        let ghost queued = write_views(writes@);
        assert(next.drop_last() =~= done);
        assert(next.last() == cmds@[i as int]);
        match &cmds[i] {
            Cmd::Write { display, code, value } => {
                let p: usize = find_place(&writes, display.as_str(), *code);
                let w = Write { display: display.clone(), code: *code, value: *value };
                let ghost view = (w.display@, w.code, w.value);
                assert(p == place_of(queued, view));
                if p < writes.len() {
                    writes.set(p, w);
                    assert(write_views(writes@) =~= queued.update(p as int, view));
                } else {
                    writes.push(w);
                    assert(write_views(writes@) =~= queued.push(view));
                }
            },
            Cmd::ApplyProfile(name) => {
                tasks.push(Task::Apply(name.clone()));
                refresh = true;
            },
            Cmd::DeleteProfile(name) => {
                tasks.push(Task::Delete(name.clone()));
                refresh = true;
            },
            Cmd::SaveProfile(name) => {
                tasks.push(Task::Save(name.clone()));
                refresh = true;
            },
            Cmd::FetchCaps(display) => {
                tasks.push(Task::Fetch(display.clone()));
            },
            Cmd::Refresh => {
                refresh = true;
            },
        }
        proof {
            if is_task(cmds@[i as int]) {
                assert(tasks@.drop_last() =~= before);
            }
            assert(refresh == refresh_in(next)) by {
                if refresh_in(done) {
                    let k = choose|k: int| 0 <= k < done.len() && is_refreshing(#[trigger] done[k]);
                    assert(next[k] == done[k]);
                }
                if is_refreshing(cmds@[i as int]) {
                    assert(is_refreshing(next[i as int]));
                }
                if refresh_in(next) {
                    let k = choose|k: int| 0 <= k < next.len() && is_refreshing(#[trigger] next[k]);
                    if k < i {
                        assert(done[k] == next[k]);
                    }
                }
            }
        }
        i = i + 1;
    }
    assert(cmds@.take(i as int) =~= cmds@);
    Batch { tasks, writes, refresh }
}

// ── Profiles, ahead of the daemon ──────────────────────────────────────────

/// Names without one.
pub open spec fn without(names: Seq<Seq<char>>, name: Seq<char>) -> Seq<Seq<char>>
    decreases names.len(),
{
    if names.len() == 0 {
        Seq::empty()
    } else if names.last() == name {
        without(names.drop_last(), name)
    } else {
        without(names.drop_last(), name).push(names.last())
    }
}

/// Whether `after` shows a name among the profiles of `before`: in dictionary
/// order with the others if it was not among them.
pub open spec fn remembered(before: Shown, after: Shown, name: Seq<char>) -> bool {
    &&& after == (Shown {
        profiles: after.profiles,
        generation: client::bumped(before.generation),
        ..before
    })
    &&& if before.profiles.contains(name) {
        after.profiles == before.profiles
    } else {
        text::ordered(after.profiles) && after.profiles.to_multiset() == before.profiles.push(
            name,
        ).to_multiset()
    }
}

impl Snapshot {
    /// Drop a profile from the list at once, so that the settings window reflects
    /// a delete immediately rather than after the next refresh. The real delete
    /// (asked for separately) confirms it.
    pub fn forget_profile(&mut self, name: &str)
        ensures
            final(self)@ == (Shown {
                profiles: without(old(self)@.profiles, name@),
                generation: client::bumped(old(self).generation),
                ..old(self)@
            }),
    {
        let ghost all = self@.profiles;
        let mut kept: Vec<String> = Vec::new();
        let mut i: usize = 0;
        assert(text::texts(kept@) =~= without(all.take(0), name@));
        while i < self.profiles.len()
            invariant
                i <= self.profiles@.len(),
                all == text::texts(self.profiles@),
                text::texts(kept@) == without(all.take(i as int), name@),
            decreases self.profiles@.len() - i,
        {
            assert(all.take(i + 1).drop_last() =~= all.take(i as int));
            assert(all.take(i + 1).last() == self.profiles@[i as int]@);
            if !text::same(self.profiles[i].as_str(), name) {
                let ghost before = text::texts(kept@);
                text::push_text(&mut kept, self.profiles[i].clone());
                assert(text::texts(kept@) =~= before.push(all[i as int]));
            }
            i = i + 1;
        }
        assert(all.take(i as int) =~= all);
        self.profiles = kept;
        self.bump();
    }

    /// Whether a profile is among those shown.
    fn shows_profile(&self, name: &str) -> (b: bool)
        ensures
            b == self@.profiles.contains(name@),
    {
        let mut i: usize = 0;
        while i < self.profiles.len()
            invariant
                i <= self.profiles@.len(),
                forall|k: int| 0 <= k < i ==> (#[trigger] self.profiles@[k])@ != name@,
            decreases self.profiles@.len() - i,
        {
            if text::same(self.profiles[i].as_str(), name) {
                assert(self@.profiles[i as int] == name@);
                return true;
            }
            i = i + 1;
        }
        assert forall|k: int| 0 <= k < self@.profiles.len() implies self@.profiles[k] != name@ by {
            assert(self.profiles@[k]@ != name@);
        }
        false
    }

    /// Add a profile name to the list at once.
    pub fn remember_profile(&mut self, name: &str)
        ensures
            remembered(old(self)@, final(self)@, name@),
    {
        let ghost before = self@;
        if !self.shows_profile(name) {
            let mut names = text::copy_texts(&self.profiles);
            text::push_text(&mut names, text::own(name));
            assert(text::texts(names@) =~= before.profiles.push(name@));
            self.profiles = text::sort_texts(names);
        }
        self.bump();
    }
}

// ── Bringing the daemon up ─────────────────────────────────────────────────

/// The least time between two attempts to start the daemon, in seconds.
pub const SPAWN_INTERVAL_S: u64 = 3;

/// Whether a start is due at `now`, after one at `last`.
pub open spec fn spawn_due(now: u64, last: u64) -> bool {
    now >= last + SPAWN_INTERVAL_S
}

/// Whether the daemon may be started, after `last`, at `now`: a persistent failure
/// must not start one after the other.
pub fn may_spawn(now: u64, last: u64) -> (b: bool)
    ensures
        b == spawn_due(now, last),
{
    now >= last && now - last >= SPAWN_INTERVAL_S
}

/// The bytes of paths.
pub open spec fn paths_of(list: Seq<FilePath>) -> Seq<Seq<u8>> {
    Seq::new(list.len(), |i: int| list[i]@)
}

/// Where the daemon is looked for, in order.
pub open spec fn places_of_daemon(dir: Option<FilePath>, contents: Option<FilePath>) -> Seq<
    Seq<u8>,
> {
    (match dir {
        Some(d) => seq![paths::inside(d@, "displayd"@)] + match contents {
            Some(c) => seq![paths::inside(paths::inside(c@, "Helpers"@), "displayd"@)],
            None => Seq::empty(),
        },
        None => Seq::empty(),
    }) + seq![vstd::utf8::encode_utf8("displayd"@)]
}

/// Where the daemon may be: beside the app's own executable (`dir`) as in a
/// development build, among the helpers of the app bundle (`contents`), and on
/// the search path.
pub fn daemon_candidates(dir: Option<FilePath>, contents: Option<FilePath>) -> (r: Vec<FilePath>)
    ensures
        paths_of(r@) == places_of_daemon(dir, contents),
{
    let mut out: Vec<FilePath> = Vec::new();
    let ghost mut found: Seq<Seq<u8>> = Seq::empty();
    if let Some(d) = dir {
        let beside = d.join("displayd");
        proof {
            found = found.push(beside@);
        }
        out.push(beside);
        if let Some(c) = contents {
            let helper = c.join("Helpers").join("displayd");
            proof {
                found = found.push(helper@);
            }
            out.push(helper);
        }
    }
    assert(paths_of(out@) =~= found);
    out.push(FilePath::of("displayd"));
    assert(paths_of(out@) =~= found + seq![vstd::utf8::encode_utf8("displayd"@)]);
    out
}

// ── Laws ───────────────────────────────────────────────────────────────────

/// Where a control stands, it is written; where none stands, it is not.
proof fn lemma_place(ws: Seq<Written>, w: Written)
    ensures
        0 <= place_of(ws, w) <= ws.len(),
        place_of(ws, w) < ws.len() ==> same_control(ws[place_of(ws, w)], w),
        forall|j: int|
            0 <= j < place_of(ws, w) && j < ws.len() ==> !same_control(#[trigger] ws[j], w),
    decreases ws.len(),
{
    if ws.len() > 0 {
        lemma_place(ws.drop_last(), w);
        assert forall|j: int| 0 <= j < place_of(ws, w) && j < ws.len() implies !same_control(
            #[trigger] ws[j],
            w,
        ) by {
            if j < ws.len() - 1 {
                assert(ws.drop_last()[j] == ws[j]);
            }
        }
    }
}

/// However often a control was moved, it is written once.
pub proof fn law_one_write_per_control(cmds: Seq<Cmd>, i: int, j: int)
    requires
        0 <= i < j < writes_in(cmds).len(),
    ensures
        !same_control(writes_in(cmds)[i], writes_in(cmds)[j]),
    decreases cmds.len(),
{
    if cmds.len() > 0 {
        let before = writes_in(cmds.drop_last());
        if let Some(w) = write_of(cmds.last()) {
            lemma_place(before, w);
            let p = place_of(before, w);
            if j < before.len() {
                law_one_write_per_control(cmds.drop_last(), i, j);
            }
        } else {
            law_one_write_per_control(cmds.drop_last(), i, j);
        }
    }
}

/// The last write wins: a value that no later command replaced is the one that
/// is written.
pub proof fn law_last_write_wins(cmds: Seq<Cmd>, i: int, w: Written)
    requires
        0 <= i < cmds.len(),
        write_of(cmds[i]) == Some(w),
        forall|j: int|
            i < j < cmds.len() ==> !(write_of(#[trigger] cmds[j]) matches Some(v) && same_control(
                v,
                w,
            )),
    ensures
        writes_in(cmds).contains(w),
    decreases cmds.len(),
{
    let before = writes_in(cmds.drop_last());
    if i == cmds.len() - 1 {
        lemma_place(before, w);
        assert(writes_in(cmds)[place_of(before, w)] == w);
    } else {
        assert forall|j: int| i < j < cmds.drop_last().len() implies !(write_of(
            #[trigger] cmds.drop_last()[j],
        ) matches Some(v) && same_control(v, w)) by {
            assert(cmds.drop_last()[j] == cmds[j]);
        }
        law_last_write_wins(cmds.drop_last(), i, w);
        let k = choose|k: int| 0 <= k < before.len() && before[k] == w;
        match write_of(cmds.last()) {
            Some(v) => {
                lemma_place(before, v);
                assert(cmds[cmds.len() - 1] == cmds.last());
                assert(!same_control(v, w));
                assert(writes_in(cmds)[k] == w);
            },
            None => {},
        }
    }
}

/// Nothing is written that was not asked for.
pub proof fn law_only_asked_values_are_written(cmds: Seq<Cmd>, j: int)
    requires
        0 <= j < writes_in(cmds).len(),
    ensures
        exists|i: int|
            0 <= i < cmds.len() && write_of(#[trigger] cmds[i]) == Some(writes_in(cmds)[j]),
    decreases cmds.len(),
{
    let last = cmds.len() - 1;
    let before = writes_in(cmds.drop_last());
    let asked = write_of(cmds[last]);
    assert(cmds[last] == cmds.last());
    if asked is Some {
        lemma_place(before, asked->0);
    }
    if asked != Some(writes_in(cmds)[j]) {
        assert(writes_in(cmds)[j] == before[j]);
        law_only_asked_values_are_written(cmds.drop_last(), j);
        let i = choose|i: int|
            0 <= i < cmds.drop_last().len() && write_of(#[trigger] cmds.drop_last()[i]) == Some(
                before[j],
            );
        assert(cmds[i] == cmds.drop_last()[i]);
    }
}

/// Controls are written in the order in which they were first moved: a later
/// command never changes which control a place is for.
pub proof fn law_first_seen_order(cmds: Seq<Cmd>, c: Cmd, j: int)
    requires
        0 <= j < writes_in(cmds).len(),
    ensures
        writes_in(cmds).len() <= writes_in(cmds.push(c)).len(),
        same_control(writes_in(cmds.push(c))[j], writes_in(cmds)[j]),
{
    assert(cmds.push(c).drop_last() =~= cmds);
    if let Some(w) = write_of(c) {
        lemma_place(writes_in(cmds), w);
    }
}

/// A forgotten profile is not shown, and every other one still is.
pub proof fn law_forgotten_profiles_are_gone(names: Seq<Seq<char>>, name: Seq<char>, n: Seq<char>)
    ensures
        without(names, name).contains(n) == (names.contains(n) && n != name),
    decreases names.len(),
{
    if names.len() > 0 {
        let rest = names.drop_last();
        law_forgotten_profiles_are_gone(rest, name, n);
        let kept = without(rest, name);
        if names.contains(n) {
            let k = choose|k: int| 0 <= k < names.len() && names[k] == n;
            if k < rest.len() {
                assert(rest[k] == n);
            }
        }
        if rest.contains(n) {
            let k = choose|k: int| 0 <= k < rest.len() && rest[k] == n;
            assert(names[k] == n);
        }
        if names.last() == n {
            assert(names[names.len() - 1] == n);
        }
        if names.last() != name {
            let now = kept.push(names.last());
            if kept.contains(n) {
                let k = choose|k: int| 0 <= k < kept.len() && kept[k] == n;
                assert(now[k] == n);
            }
            if names.last() == n {
                assert(now[kept.len() as int] == n);
            }
            if now.contains(n) {
                let k = choose|k: int| 0 <= k < now.len() && now[k] == n;
                if k < kept.len() {
                    assert(kept[k] == n);
                }
            }
        }
    }
}

/// A remembered profile is shown, and every one that was shown still is.
pub proof fn law_remembered_profiles_are_shown(
    before: Shown,
    after: Shown,
    name: Seq<char>,
    n: Seq<char>,
)
    requires
        remembered(before, after, name),
    ensures
        after.profiles.contains(n) == (before.profiles.contains(n) || n == name),
{
    if !before.profiles.contains(name) {
        let more = before.profiles.push(name);
        vstd::seq_lib::to_multiset_contains(more, n);
        vstd::seq_lib::to_multiset_contains(after.profiles, n);
        if before.profiles.contains(n) {
            let k = choose|k: int| 0 <= k < before.profiles.len() && before.profiles[k] == n;
            assert(more[k] == n);
        }
        assert(more[before.profiles.len() as int] == name);
        if more.contains(n) {
            let k = choose|k: int| 0 <= k < more.len() && more[k] == n;
            if k < before.profiles.len() {
                assert(before.profiles[k] == n);
            }
        }
    }
}

/// Leaving a name out keeps the order of the others, and takes nothing else.
proof fn lemma_without(names: Seq<Seq<char>>, name: Seq<char>)
    ensures
        text::ordered(names) ==> text::ordered(without(names, name)),
        forall|k: int| 0 <= k < without(names, name).len() ==> names.contains(#[trigger] without(names, name)[k]),
        forall|n: Seq<char>| #[trigger]
            without(names, name).to_multiset().count(n) == if n == name {
                0
            } else {
                names.to_multiset().count(n)
            },
    decreases names.len(),
{
    broadcast use vstd::seq_lib::group_to_multiset_ensures;

    if names.len() == 0 {
        assert(names =~= Seq::<Seq<char>>::empty());
    } else {
        let rest = names.drop_last();
        let kept = without(rest, name);
        let now = without(names, name);
        lemma_without(rest, name);
        assert(names =~= rest.push(names.last()));
        assert(names.to_multiset() == rest.to_multiset().insert(names.last()));
        assert forall|k: int| 0 <= k < now.len() implies names.contains(#[trigger] now[k]) by {
            if k < kept.len() {
                assert(now[k] == kept[k]);
                let j = choose|j: int| 0 <= j < rest.len() && rest[j] == kept[k];
                assert(names[j] == now[k]);
            } else {
                assert(names[names.len() - 1] == now[k]);
            }
        }
        if text::ordered(names) {
            assert(text::ordered(rest));
            assert forall|i: int, j: int| 0 <= i < j < now.len() implies !text::text_before(
                #[trigger] now[j],
                #[trigger] now[i],
            ) by {
                assert(now[i] == kept[i]);
                if j < kept.len() {
                    assert(now[j] == kept[j]);
                } else {
                    let m = choose|m: int| 0 <= m < rest.len() && rest[m] == kept[i];
                    assert(names[m] == now[i]);
                    assert(names[names.len() - 1] == now[j]);
                }
            }
        }
    }
}

/// Forgetting a profile that was just remembered gives the list back.
pub proof fn law_forgetting_undoes_remembering(before: Shown, after: Shown, name: Seq<char>)
    requires
        text::ordered(before.profiles),
        !before.profiles.contains(name),
        remembered(before, after, name),
    ensures
        without(after.profiles, name) == before.profiles,
{
    broadcast use vstd::seq_lib::group_to_multiset_ensures;

    let back = without(after.profiles, name);
    lemma_without(after.profiles, name);
    assert(before.profiles.push(name).to_multiset() == before.profiles.to_multiset().insert(name));
    vstd::seq_lib::to_multiset_contains(before.profiles, name);
    assert(back.to_multiset() =~= before.profiles.to_multiset());
    text::lemma_order_is_unique(back, before.profiles);
}

/// Of all writes to one code of one display the last is done, with its value, and is
/// done once; a write to another code, or to another display, replaces none.
pub proof fn law_no_write_is_lost(cmds: Seq<Cmd>, i: int, display: String, code: u8, value: u16)
    requires
        0 <= i < cmds.len(),
        cmds[i] == (Cmd::Write { display, code, value }),
        forall|j: int|
            i < j < cmds.len() ==> !((#[trigger] cmds[j]) matches Cmd::Write {
                display: d,
                code: c,
                value: v,
            } && d@ == display@ && c == code),
    ensures
        exists|k: int|
            0 <= k < writes_in(cmds).len() && (#[trigger] writes_in(cmds)[k]).0 == display@
                && writes_in(cmds)[k].1 == code && writes_in(cmds)[k].2 == value,
        forall|a: int, b: int|
            0 <= a < b < writes_in(cmds).len() ==> (#[trigger] writes_in(cmds)[a]).0 != (
            #[trigger] writes_in(cmds)[b]).0 || writes_in(cmds)[a].1 != writes_in(cmds)[b].1,
{
    let w = (display@, code, value);
    assert forall|j: int| i < j < cmds.len() implies !(write_of(#[trigger] cmds[j]) matches Some(v)
        && same_control(v, w)) by {
        assert(!(cmds[j] matches Cmd::Write { display: d, code: c, value: v } && d@ == display@ && c
            == code));
    }
    law_last_write_wins(cmds, i, w);
    let k = choose|k: int| 0 <= k < writes_in(cmds).len() && writes_in(cmds)[k] == w;
    assert(writes_in(cmds)[k].0 == display@);
    assert forall|a: int, b: int| 0 <= a < b < writes_in(cmds).len() implies (
    #[trigger] writes_in(cmds)[a]).0 != (#[trigger] writes_in(cmds)[b]).0 || writes_in(cmds)[a].1
        != writes_in(cmds)[b].1 by {
        law_one_write_per_control(cmds, a, b);
    }
}

/// Nothing is written but what some command asked to write, to the display and the code
/// that it named.
pub proof fn law_writes_are_those_that_were_posted(cmds: Seq<Cmd>, j: int)
    requires
        0 <= j < writes_in(cmds).len(),
    ensures
        exists|i: int|
            0 <= i < cmds.len() && ((#[trigger] cmds[i]) matches Cmd::Write { display, code, value }
                && display@ == writes_in(cmds)[j].0 && code == writes_in(cmds)[j].1 && value
                == writes_in(cmds)[j].2),
{
    law_only_asked_values_are_written(cmds, j);
    let i = choose|i: int|
        0 <= i < cmds.len() && write_of(#[trigger] cmds[i]) == Some(writes_in(cmds)[j]);
    assert(cmds[i] is Write);
}

/// Every profile that is to be applied, saved or deleted, and every display that is to be
/// asked for its capabilities, gets its task, in the order of the commands, and nothing
/// else does.
pub proof fn law_every_task_is_done_in_order(cmds: Seq<Cmd>, tasks: Seq<Task>) -> (places: Seq<int>)
    requires
        tasks_in(cmds, tasks),
    ensures
        places.len() == tasks.len(),
        forall|k: int|
            0 <= k < places.len() ==> 0 <= #[trigger] places[k] < cmds.len() && match tasks[k] {
                Task::Apply(n) => cmds[places[k]] matches Cmd::ApplyProfile(m) && m@ == n@,
                Task::Delete(n) => cmds[places[k]] matches Cmd::DeleteProfile(m) && m@ == n@,
                Task::Save(n) => cmds[places[k]] matches Cmd::SaveProfile(m) && m@ == n@,
                Task::Fetch(n) => cmds[places[k]] matches Cmd::FetchCaps(m) && m@ == n@,
            },
        forall|j: int, k: int|
            0 <= j < k < places.len() ==> #[trigger] places[j] < #[trigger] places[k],
        forall|i: int|
            0 <= i < cmds.len() && !((#[trigger] cmds[i]) is Write) && !(cmds[i] is Refresh)
                ==> places.contains(i),
    decreases cmds.len(),
{
    if cmds.len() == 0 {
        Seq::empty()
    } else {
        let rest = cmds.drop_last();
        let n = cmds.len() - 1;
        if is_task(cmds.last()) {
            let before = law_every_task_is_done_in_order(rest, tasks.drop_last());
            let places = before.push(n);
            assert forall|i: int|
                0 <= i < cmds.len() && !((#[trigger] cmds[i]) is Write) && !(cmds[i] is Refresh) implies places.contains(
                i,
            ) by {
                if i < n {
                    assert(rest[i] == cmds[i]);
                    let k = choose|k: int| 0 <= k < before.len() && before[k] == i;
                    assert(places[k] == i);
                } else {
                    assert(places[before.len() as int] == i);
                }
            }
            assert forall|k: int| 0 <= k < places.len() implies 0 <= #[trigger] places[k]
                < cmds.len() && match tasks[k] {
                Task::Apply(n) => cmds[places[k]] matches Cmd::ApplyProfile(m) && m@ == n@,
                Task::Delete(n) => cmds[places[k]] matches Cmd::DeleteProfile(m) && m@ == n@,
                Task::Save(n) => cmds[places[k]] matches Cmd::SaveProfile(m) && m@ == n@,
                Task::Fetch(n) => cmds[places[k]] matches Cmd::FetchCaps(m) && m@ == n@,
            } by {
                if k < before.len() {
                    assert(places[k] == before[k]);
                    assert(tasks.drop_last()[k] == tasks[k]);
                    assert(rest[before[k]] == cmds[before[k]]);
                }
            }
            places
        } else {
            let places = law_every_task_is_done_in_order(rest, tasks);
            assert forall|i: int|
                0 <= i < cmds.len() && !((#[trigger] cmds[i]) is Write) && !(cmds[i] is Refresh) implies places.contains(
                i,
            ) by {
                assert(i < n);
                assert(rest[i] == cmds[i]);
            }
            assert forall|k: int| 0 <= k < places.len() implies 0 <= #[trigger] places[k]
                < cmds.len() && match tasks[k] {
                Task::Apply(n) => cmds[places[k]] matches Cmd::ApplyProfile(m) && m@ == n@,
                Task::Delete(n) => cmds[places[k]] matches Cmd::DeleteProfile(m) && m@ == n@,
                Task::Save(n) => cmds[places[k]] matches Cmd::SaveProfile(m) && m@ == n@,
                Task::Fetch(n) => cmds[places[k]] matches Cmd::FetchCaps(m) && m@ == n@,
            } by {
                assert(rest[places[k]] == cmds[places[k]]);
            }
            places
        }
    }
}

/// Commands call for a refresh exactly where one of them asks for it or changes the
/// profiles: moving a slider does not.
pub proof fn law_moving_sliders_refreshes_nothing(cmds: Seq<Cmd>)
    ensures
        refresh_in(cmds) == exists|i: int|
            0 <= i < cmds.len() && !((#[trigger] cmds[i]) is Write) && !(cmds[i] is FetchCaps),
{
    if exists|i: int|
        0 <= i < cmds.len() && !((#[trigger] cmds[i]) is Write) && !(cmds[i] is FetchCaps) {
        let i = choose|i: int|
            0 <= i < cmds.len() && !((#[trigger] cmds[i]) is Write) && !(cmds[i] is FetchCaps);
        assert(is_refreshing(cmds[i]));
    }
    if refresh_in(cmds) {
        let i = choose|i: int| 0 <= i < cmds.len() && is_refreshing(#[trigger] cmds[i]);
        assert(!(cmds[i] is Write));
    }
}

/// The daemon is started again three seconds after the last start and no sooner.
pub proof fn law_starts_are_three_seconds_apart(now: u64, last: u64)
    ensures
        spawn_due(now, last) <==> now - last >= 3,
{
}

/// The daemon is looked for beside the program first, then among the helpers of its bundle
/// where the program has one, and on the search path at last.
pub proof fn law_where_the_daemon_is_looked_for(dir: Option<FilePath>, contents: Option<FilePath>)
    ensures
        ({
            let places = places_of_daemon(dir, contents);
            &&& places.last() == vstd::utf8::encode_utf8("displayd"@)
            &&& dir is None ==> places.len() == 1
            &&& dir is Some ==> places[0] == paths::inside(dir->0@, "displayd"@)
            &&& dir is Some && contents is None ==> places.len() == 2
            &&& dir is Some && contents is Some ==> places.len() == 3 && places[1]
                == paths::inside(paths::inside(contents->0@, "Helpers"@), "displayd"@)
        }),
{
}

} // verus!
