//! Backend-agnostic operations behind the RPC surface.
//!
//! Lives in the library so `displayctl` can run the exact same code when it
//! falls back to direct hardware access: a divergence between "with daemon" and
//! "without daemon" behaviour would be a bug factory.

use crate::api;
use crate::daemon::clock;
use crate::daemon::clock::Clock;
use crate::daemon::selection;
use crate::daemon::selection::{EngineError, Result};
use crate::ddc::caps;
use crate::ddc::vcp;
use crate::ddc::vcp::{ValueKind, VcpCode};
use crate::model;
use crate::model::identity;
use crate::model::{Call, ControlPath, DisplayBackend, DisplayId, Monitor, ProfileStore};
use crate::paths;
use crate::text;
use crate::trace;
use std::collections::HashMap;
use vstd::prelude::*;
use vstd::std_specs::hash::*;

verus! {

broadcast use vstd::std_specs::hash::group_hash_axioms;

/// How long to skip DDC reads to a display after one fails, in nanoseconds.
///
/// A sleeping display makes a read block for seconds per attempt, and with
/// retries a single read can wedge the (single) worker, starving every other
/// client. After a failure reads to that display fail fast for this window
/// instead of re-wedging on every poll. Writes bypass it, so waking the display
/// still works.
pub const READ_COOLDOWN: u128 = 15_000_000_000;

/// What a request does to the displays.
pub struct Engine<B: DisplayBackend> {
    pub backend: B,
    pub monitors: Vec<Monitor>,
    pub profiles: ProfileStore,
    /// display id → time its read-cooldown expires.
    pub read_cooldown: HashMap<u32, u128>,
    pub clock: Clock,
}

// ── Enumeration ────────────────────────────────────────────────────────────

/// Whether `cs` is one enumeration, which took the displays from `m0` to `m1`.
pub open spec fn enumerated(cs: Seq<Call>, m0: Seq<Monitor>, m1: Seq<Monitor>) -> bool {
    &&& cs.len() == 1
    &&& cs[0] matches Call::List { result } && match result {
        Ok(v) => m1 == v@,
        Err(_) => m1 == m0,
    }
}

/// Whether `r` describes the displays that an enumeration found.
pub open spec fn listed(
    cs: Seq<Call>,
    m1: Seq<Monitor>,
    r: Result<Vec<api::MonitorInfo>>,
) -> bool {
    match fault_in(cs) {
        Some(e) => r == Err::<Vec<api::MonitorInfo>, EngineError>(EngineError::Backend(e)),
        None => r matches Ok(v) && v@.len() == m1.len() && forall|i: int|
            0 <= i < v@.len() ==> describes(#[trigger] v@[i], m1[i]),
    }
}

/// Whether ids are those of the displays, in whatever order.
pub open spec fn same_ids(online: Seq<DisplayId>, monitors: Seq<Monitor>) -> bool {
    online.to_multiset() == selection::ids_of(monitors).to_multiset()
}

/// Whether `cs` is a check that the displays are still those that were
/// enumerated, with an enumeration where they are not or where there are none.
pub open spec fn checked(cs: Seq<Call>, m0: Seq<Monitor>, m1: Seq<Monitor>) -> bool {
    if m0.len() == 0 {
        enumerated(cs, m0, m1)
    } else {
        &&& cs.len() >= 1
        &&& cs[0] matches Call::OnlineIds { result } && match result {
            Err(_) => cs.len() == 1 && m1 == m0,
            Ok(online) => if same_ids(online@, m0) {
                cs.len() == 1 && m1 == m0
            } else {
                enumerated(cs.skip(1), m0, m1)
            },
        }
    }
}

/// The error that an enumeration or a check ended with, where it did.
pub open spec fn fault_in(cs: Seq<Call>) -> Option<model::Error> {
    match cs.last() {
        Call::List { result: Err(e) } => Some(e),
        Call::OnlineIds { result: Err(e) } => Some(e),
        _ => None,
    }
}

/// Whether `cs` is a selector resolved among the displays that are attached.
pub open spec fn resolved(
    cs: Seq<Call>,
    m0: Seq<Monitor>,
    m1: Seq<Monitor>,
    selector: Seq<char>,
    r: Result<Vec<DisplayId>>,
) -> bool {
    &&& checked(cs, m0, m1)
    &&& match fault_in(cs) {
        Some(e) => r == Err::<Vec<DisplayId>, EngineError>(EngineError::Backend(e)),
        None => selection::selects(m1, selector, r),
    }
}

/// Whether `cs` is a selector resolved to one display.
pub open spec fn located(
    cs: Seq<Call>,
    m0: Seq<Monitor>,
    m1: Seq<Monitor>,
    selector: Seq<char>,
    r: Result<DisplayId>,
) -> bool {
    exists|ids: Result<Vec<DisplayId>>| #[trigger]
        resolved(cs, m0, m1, selector, ids) && match ids {
            Ok(v) => if v@.len() == 1 {
                r == Ok::<DisplayId, EngineError>(v@[0])
            } else {
                r matches Err(EngineError::Ambiguous(s, l)) && s@ == selector && l@
                    == text::decimal(v@.len()) + " displays"@
            },
            Err(e) => r == Err::<DisplayId, EngineError>(e),
        }
}

/// Whether ids are those of the displays, in whatever order.
fn ids_match(online: &Vec<DisplayId>, monitors: &Vec<Monitor>) -> (b: bool)
    ensures
        b == same_ids(online@, monitors@),
{
    let ghost cached = selection::ids_of(monitors@);
    let mut rest: Vec<DisplayId> = Vec::new();
    let mut i: usize = 0;
    while i < monitors.len()
        invariant
            i <= monitors@.len(),
            cached == selection::ids_of(monitors@),
            rest@ == cached.take(i as int),
        decreases monitors@.len() - i,
    {
        rest.push(monitors[i].id);
        i = i + 1;
        assert(cached.take(i as int) =~= cached.take(i - 1).push(cached[i - 1]));
    }
    assert(rest@ =~= cached);
    let mut k: usize = 0;
    broadcast use vstd::seq_lib::group_to_multiset_ensures;
    assert(online@.take(0) =~= Seq::<DisplayId>::empty());
    while k < online.len()
        invariant
            k <= online@.len(),
            cached == selection::ids_of(monitors@),
            forall|id: DisplayId| #[trigger]
                cached.to_multiset().count(id) == rest@.to_multiset().count(id) + online@.take(
                    k as int,
                ).to_multiset().count(id),
        decreases online@.len() - k,
    {
        let id = online[k];
        let mut p: usize = 0;
        while p < rest.len() && rest[p] != id
            invariant
                p <= rest@.len(),
                forall|j: int| 0 <= j < p ==> rest@[j] != id,
            decreases rest@.len() - p,
        {
            p = p + 1;
        }
        let ghost head = online@.take(k as int);
        let ghost next = online@.take(k + 1);
        assert(next =~= head.push(id));
        proof {
            vstd::seq_lib::to_multiset_build(head, id);
        }
        if p >= rest.len() {
            proof {
                assert(!rest@.contains(id));
                vstd::seq_lib::to_multiset_contains(rest@, id);
                lemma_count_of_prefix(online@, k + 1, id);
                assert(cached.to_multiset().count(id) < online@.to_multiset().count(id));
            }
            return false;
        }
        let ghost was = rest@;
        rest.remove(p);
        assert(rest@ =~= was.remove(p as int));
        proof {
            vstd::seq_lib::to_multiset_remove(was, p as int);
        }
        assert(was.contains(id));
        proof {
            vstd::seq_lib::to_multiset_contains(was, id);
        }
        assert forall|x: DisplayId| #[trigger]
            cached.to_multiset().count(x) == rest@.to_multiset().count(x) + next.to_multiset().count(
            x,
        ) by {
            assert(cached.to_multiset().count(x) == was.to_multiset().count(x)
                + head.to_multiset().count(x));
        }
        k = k + 1;
    }
    assert(online@.take(k as int) =~= online@);
    if rest.len() == 0 {
        assert(rest@ =~= Seq::<DisplayId>::empty());
        assert(online@.to_multiset() =~= cached.to_multiset());
        true
    } else {
        proof {
            let id = rest@[0];
            assert(rest@.contains(id));
            assert(rest@.to_multiset().count(id) > 0);
            assert(cached.to_multiset().count(id) > online@.to_multiset().count(id));
        }
        false
    }
}

/// A prefix holds an id no more often than the whole.
proof fn lemma_count_of_prefix(s: Seq<DisplayId>, k: int, id: DisplayId)
    requires
        0 <= k <= s.len(),
    ensures
        s.take(k).to_multiset().count(id) <= s.to_multiset().count(id),
    decreases s.len() - k,
{
    broadcast use vstd::seq_lib::group_to_multiset_ensures;

    if k == s.len() {
        assert(s.take(k) =~= s);
    } else {
        lemma_count_of_prefix(s, k + 1, id);
        assert(s.take(k + 1) =~= s.take(k).push(s[k]));
    }
}

impl<B: DisplayBackend> Engine<B> {
    pub fn new(backend: B) -> (e: Self)
        ensures
            e.backend == backend,
            e.monitors@.len() == 0,
            paths::for_user(e.profiles.dir@, "profiles"@),
            e.read_cooldown@ == Map::<u32, u128>::empty(),
            clock::shown(e.clock.started),
    {
        Engine::with_profiles(backend, ProfileStore::default_location())
    }

    pub fn with_profiles(backend: B, profiles: ProfileStore) -> (e: Self)
        ensures
            e.backend == backend,
            e.monitors@.len() == 0,
            e.profiles == profiles,
            e.read_cooldown@ == Map::<u32, u128>::empty(),
            clock::shown(e.clock.started),
    {
        Engine {
            backend,
            monitors: Vec::new(),
            profiles,
            read_cooldown: HashMap::new(),
            clock: Clock::new(),
        }
    }

    /// Where profiles live.
    pub fn profiles(&self) -> (p: &ProfileStore)
        ensures
            *p == self.profiles,
    {
        &self.profiles
    }

    /// Whether nothing but the backend and the displays differs from `before`.
    pub open spec fn rest_kept(self, before: Self) -> bool {
        &&& self.profiles == before.profiles
        &&& self.read_cooldown@ == before.read_cooldown@
        &&& self.clock == before.clock
    }

    /// What was called since `before`.
    pub open spec fn calls_since(self, before: Self) -> Seq<Call> {
        trace::since(before.backend.calls(), self.backend.calls())
    }

    /// Whether the calls are those of `before` and more.
    pub open spec fn follows(self, before: Self) -> bool {
        trace::extends(before.backend.calls(), self.backend.calls())
    }

    /// Re-enumerate. Required after hot-plug: AV services do not survive it.
    pub fn refresh(&mut self) -> (r: Result<()>)
        ensures
            final(self).rest_kept(*old(self)),
            final(self).follows(*old(self)),
            enumerated(
                final(self).calls_since(*old(self)),
                old(self).monitors@,
                final(self).monitors@,
            ),
            match fault_in(final(self).calls_since(*old(self))) {
                Some(e) => r == Err::<(), EngineError>(EngineError::Backend(e)),
                None => r is Ok,
            },
    {
        let ghost before = self.backend.calls();
        match self.backend.list() {
            Ok(v) => {
                proof {
                    trace::lemma_one(before, Call::List { result: Ok(v) });
                }
                self.monitors = v;
                Ok(())
            },
            Err(e) => {
                proof {
                    trace::lemma_one(before, Call::List { result: Err(e) });
                }
                Err(EngineError::Backend(e))
            },
        }
    }

    /// Re-enumerate if the set of attached displays has changed.
    ///
    /// The daemon is long-lived and caches an I2C channel per display; those
    /// channels do **not** survive hot-plug. Without this check, a dock/undock
    /// would leave every later `get`/`set` talking to a dead service. The id
    /// comparison costs one cheap call, far less than the enumeration it avoids.
    ///
    /// Known gap: if a display is unplugged and replugged between two calls
    /// *and* is assigned the same id, this cannot tell.
    pub(crate) fn ensure(&mut self) -> (r: Result<()>)
        ensures
            final(self).rest_kept(*old(self)),
            final(self).follows(*old(self)),
            checked(
                final(self).calls_since(*old(self)),
                old(self).monitors@,
                final(self).monitors@,
            ),
            match fault_in(final(self).calls_since(*old(self))) {
                Some(e) => r == Err::<(), EngineError>(EngineError::Backend(e)),
                None => r is Ok,
            },
    {
        if self.monitors.len() == 0 {
            return self.refresh();
        }
        let ghost c0 = self.backend.calls();
        let asked = self.backend.online_ids();
        let ghost c1 = self.backend.calls();
        proof {
            trace::lemma_one(c0, Call::OnlineIds { result: asked });
        }
        match asked {
            Err(e) => Err(EngineError::Backend(e)),
            Ok(online) => {
                if ids_match(&online, &self.monitors) {
                    return Ok(());
                }
                let r = self.refresh();
                proof {
                    let c2 = self.backend.calls();
                    trace::lemma_chain(c0, c1, c2);
                    assert(trace::since(c0, c2).last() == trace::since(c1, c2).last());
                }
                r
            },
        }
    }

    /// Every attached display, enumerated anew.
    pub fn list(&mut self) -> (r: Result<Vec<api::MonitorInfo>>)
        ensures
            final(self).rest_kept(*old(self)),
            final(self).follows(*old(self)),
            enumerated(
                final(self).calls_since(*old(self)),
                old(self).monitors@,
                final(self).monitors@,
            ),
            listed(final(self).calls_since(*old(self)), final(self).monitors@, r),
    {
        match self.refresh() {
            Ok(_) => {},
            Err(e) => return Err(e),
        }
        let ghost c1 = self.backend.calls();
        let mut out: Vec<api::MonitorInfo> = Vec::new();
        let mut i: usize = 0;
        while i < self.monitors.len()
            invariant
                i <= self.monitors@.len(),
                out@.len() == i,
                forall|k: int|
                    0 <= k < i ==> describes(#[trigger] out@[k], self.monitors@[k]),
            decreases self.monitors@.len() - i,
        {
            out.push(to_info(&self.monitors[i]));
            i = i + 1;
        }
        Ok(out)
    }

    /// Resolve a selector to display ids.
    pub fn resolve(&mut self, selector: &str) -> (r: Result<Vec<DisplayId>>)
        ensures
            final(self).rest_kept(*old(self)),
            final(self).follows(*old(self)),
            resolved(
                final(self).calls_since(*old(self)),
                old(self).monitors@,
                final(self).monitors@,
                selector@,
                r,
            ),
    {
        match self.ensure() {
            Ok(_) => selection::select(&self.monitors, selector),
            Err(e) => Err(e),
        }
    }

    /// Resolve a selector to one display.
    pub(crate) fn single(&mut self, selector: &str) -> (r: Result<DisplayId>)
        ensures
            final(self).rest_kept(*old(self)),
            final(self).follows(*old(self)),
            located(
                final(self).calls_since(*old(self)),
                old(self).monitors@,
                final(self).monitors@,
                selector@,
                r,
            ),
    {
        let ids = self.resolve(selector);
        assert(resolved(
            self.calls_since(*old(self)),
            old(self).monitors@,
            self.monitors@,
            selector@,
            ids,
        ));
        match ids {
            Ok(v) => if v.len() == 1 {
                Ok(v[0])
            } else {
                Err(
                    EngineError::Ambiguous(
                        text::own(selector),
                        text::after(text::write_decimal(v.len() as u64).as_str(), " displays"),
                    ),
                )
            },
            Err(e) => Err(e),
        }
    }

    /// Look up a monitor for display purposes. Does not re-enumerate.
    pub fn monitor(&self, id: DisplayId) -> (r: Option<&Monitor>)
        ensures
            match r {
                Some(m) => exists|i: int|
                    first_with_id(self.monitors@, id, i) && *m == self.monitors@[i],
                None => forall|i: int|
                    0 <= i < self.monitors@.len() ==> (#[trigger] self.monitors@[i]).id != id,
            },
    {
        let mut i: usize = 0;
        while i < self.monitors.len()
            invariant
                i <= self.monitors@.len(),
                forall|j: int| 0 <= j < i ==> (#[trigger] self.monitors@[j]).id != id,
            decreases self.monitors@.len() - i,
        {
            if self.monitors[i].id == id {
                assert(first_with_id(self.monitors@, id, i as int));
                return Some(&self.monitors[i]);
            }
            i = i + 1;
        }
        None
    }
}

/// Whether display `i` is the first with this id.
pub open spec fn first_with_id(monitors: Seq<Monitor>, id: DisplayId, i: int) -> bool {
    &&& 0 <= i < monitors.len()
    &&& monitors[i].id == id
    &&& forall|j: int| 0 <= j < i ==> (#[trigger] monitors[j]).id != id
}

// ── Reading ────────────────────────────────────────────────────────────────

/// Whether reads to a display are being skipped.
pub open spec fn cooling(cooldown: Map<u32, u128>, id: DisplayId, now: u128) -> bool {
    cooldown.contains_key(id.0) && now < cooldown[id.0]
}

/// When a cooldown that starts now expires.
pub open spec fn cooled_at(now: u128) -> u128 {
    if now <= u128::MAX - READ_COOLDOWN {
        (now + READ_COOLDOWN) as u128
    } else {
        u128::MAX
    }
}

/// Whether a value says what was read of a code.
pub open spec fn is_reading(v: api::VcpValue, code: VcpCode, current: u16, max: u16) -> bool {
    &&& v.code == vcp::code_number(code)
    &&& v.name@ == vcp::code_label(code)
    &&& v.current == current
    &&& v.max == max
    &&& v.kind == wire_kind(vcp::code_kind(code))
}

/// What an answer to a read amounts to. A display that answered has no cooldown
/// left; one that did not has a new one.
pub open spec fn concluded(
    id: DisplayId,
    code: VcpCode,
    answer: model::Result<(u16, u16)>,
    now: u128,
    cool0: Map<u32, u128>,
    cool1: Map<u32, u128>,
    r: Result<api::VcpValue>,
) -> bool {
    match answer {
        Ok((current, max)) => {
            &&& cool1 == cool0.remove(id.0)
            &&& r matches Ok(v) && is_reading(v, code, current, max)
        },
        Err(e) => {
            &&& cool1 == cool0.insert(id.0, cooled_at(now))
            &&& r == Err::<api::VcpValue, EngineError>(EngineError::Backend(e))
        },
    }
}

/// What a read that is skipped is answered.
pub open spec fn skipped(r: Result<api::VcpValue>) -> bool {
    r matches Err(EngineError::Backend(model::Error::Transport(s))) && s@
        == "display not responding (recently failed a read; cooling down)"@
}

/// Whether `cs` is one read of a display, begun at `now` and over at `later`.
pub open spec fn read_once(
    cs: Seq<Call>,
    id: DisplayId,
    code: VcpCode,
    now: u128,
    later: u128,
    cool0: Map<u32, u128>,
    cool1: Map<u32, u128>,
    r: Result<api::VcpValue>,
) -> bool {
    if cooling(cool0, id, now) {
        cs.len() == 0 && cool1 == cool0 && skipped(r)
    } else {
        &&& cs.len() == 1
        &&& cs[0] matches Call::GetVcp { id: i, code: c, result } && i == id && c == code
            && concluded(id, code, result, later, cool0, cool1, r)
    }
}

/// Whether `cs` is what a request to read a code does, by what the clock shows
/// before and after the read.
pub open spec fn got(
    cs: Seq<Call>,
    watch: Clock,
    m0: Seq<Monitor>,
    m1: Seq<Monitor>,
    cool0: Map<u32, u128>,
    cool1: Map<u32, u128>,
    selector: Seq<char>,
    code_str: Seq<char>,
    r: Result<api::VcpValue>,
) -> bool {
    match vcp::code_parsed(code_str) {
        None => {
            &&& cs.len() == 0
            &&& m1 == m0
            &&& cool1 == cool0
            &&& r matches Err(EngineError::BadCode(s)) && s@ == code_str
        },
        Some(code) => exists|m: int, at: Result<DisplayId>|
            {
                &&& 0 <= m <= cs.len()
                &&& #[trigger] located(cs.take(m), m0, m1, selector, at)
                &&& match at {
                    Err(e) => m == cs.len() && cool1 == cool0 && r == Err::<
                        api::VcpValue,
                        EngineError,
                    >(e),
                    Ok(id) => exists|now: u128, later: u128|
                        watch.shows(now) && watch.shows(later) && #[trigger] read_once(
                            cs.skip(m),
                            id,
                            code,
                            now,
                            later,
                            cool0,
                            cool1,
                            r,
                        ),
                }
            },
    }
}

impl<B: DisplayBackend> Engine<B> {
    /// Whether reads to a display are being skipped.
    pub fn is_cooling(&self, id: DisplayId, now: u128) -> (b: bool)
        ensures
            b == cooling(self.read_cooldown@, id, now),
    {
        match self.read_cooldown.get(&id.0) {
            Some(until) => now < *until,
            None => false,
        }
    }

    /// What an answer to a read amounts to.
    pub fn conclude(
        &mut self,
        id: DisplayId,
        code: VcpCode,
        answer: model::Result<(u16, u16)>,
        now: u128,
    ) -> (r: Result<api::VcpValue>)
        ensures
            final(self).backend == old(self).backend,
            final(self).monitors == old(self).monitors,
            final(self).profiles == old(self).profiles,
            final(self).clock == old(self).clock,
            concluded(
                id,
                code,
                answer,
                now,
                old(self).read_cooldown@,
                final(self).read_cooldown@,
                r,
            ),
    {
        match answer {
            Ok((current, max)) => {
                // It answered; clear any cooldown.
                self.read_cooldown.remove(&id.0);
                Ok(
                    api::VcpValue {
                        code: code.code(),
                        name: code.display_name(),
                        current,
                        max,
                        kind: to_kind(code.kind()),
                    },
                )
            },
            Err(e) => {
                let until: u128 = if now <= u128::MAX - READ_COOLDOWN {
                    now + READ_COOLDOWN
                } else {
                    u128::MAX
                };
                self.read_cooldown.insert(id.0, until);
                Err(EngineError::Backend(e))
            },
        }
    }

    /// Read a value.
    ///
    /// Fails fast if the display recently wedged a read, rather than blocking
    /// the worker on it again.
    pub fn get(&mut self, selector: &str, code_str: &str) -> (r: Result<api::VcpValue>)
        ensures
            final(self).profiles == old(self).profiles,
            final(self).clock == old(self).clock,
            final(self).follows(*old(self)),
            got(
                final(self).calls_since(*old(self)),
                old(self).clock,
                old(self).monitors@,
                final(self).monitors@,
                old(self).read_cooldown@,
                final(self).read_cooldown@,
                selector@,
                code_str@,
                r,
            ),
    {
        let ghost c0 = self.backend.calls();
        proof {
            trace::lemma_same(c0);
        }
        let code = match vcp::parse_code(code_str) {
            Some(c) => c,
            None => return Err(EngineError::BadCode(text::own(code_str))),
        };
        let at = self.single(selector);
        let ghost c1 = self.backend.calls();
        let ghost cool0 = self.read_cooldown@;
        proof {
            trace::lemma_same(c1);
            trace::lemma_chain(c0, c1, c1);
        }
        assert(located(
            trace::since(c0, c1).take(trace::since(c0, c1).len() as int),
            old(self).monitors@,
            self.monitors@,
            selector@,
            at,
        ));
        let id = match at {
            Ok(id) => id,
            Err(e) => return Err(e),
        };
        let now: u128 = self.clock.now();
        if self.is_cooling(id, now) {
            let r: Result<api::VcpValue> = Err(
                EngineError::Backend(
                    model::Error::Transport(
                        text::own("display not responding (recently failed a read; cooling down)"),
                    ),
                ),
            );
            assert(read_once(trace::since(c1, c1), id, code, now, now, cool0, cool0, r));
            return r;
        }
        let answer = self.backend.get_vcp(id, code);
        let ghost c2 = self.backend.calls();
        let ghost event = Call::GetVcp { id, code, result: answer };
        let later: u128 = self.clock.now();
        let r = self.conclude(id, code, answer, later);
        proof {
            trace::lemma_one(c1, event);
            trace::lemma_chain(c0, c1, c2);
            assert(read_once(
                trace::since(c1, c2),
                id,
                code,
                now,
                later,
                cool0,
                self.read_cooldown@,
                r,
            ));
        }
        r
    }
}

// ── Writing ────────────────────────────────────────────────────────────────

/// Whether a read-back value corresponds to what was written.
///
/// Non-continuous codes are compared on the low byte only: MCCS puts the value
/// in the low byte, and monitors put arbitrary things in the high one.
pub open spec fn matches_written(kind: ValueKind, current: u16, written: u16) -> bool {
    match kind {
        ValueKind::NonContinuous => current % 256 == written % 256,
        _ => current == written,
    }
}

/// Whether a read-back value corresponds to what was written.
pub fn value_matches(kind: ValueKind, current: u16, written: u16) -> (b: bool)
    ensures
        b == matches_written(kind, current, written),
{
    match kind {
        ValueKind::NonContinuous => current % 256 == written % 256,
        _ => current == written,
    }
}

/// Whether a read-back shows that a write was ignored. A read failure is not
/// proof of it: the monitor may simply not answer reads for this code.
pub open spec fn shows_ignored(code: VcpCode, value: u16, back: model::Result<(u16, u16)>) -> bool {
    back matches Ok((current, _)) && !matches_written(vcp::code_kind(code), current, value)
}

/// Whether an event is a write that was sent.
pub open spec fn sent(e: Call, id: DisplayId, code: VcpCode, value: u16) -> bool {
    e matches Call::SetVcp { id: i, code: c, value: v, result } && i == id && c == code && v
        == value && result is Ok
}

/// Whether an event is a write that failed.
pub open spec fn failed_to_send(
    e: Call,
    id: DisplayId,
    code: VcpCode,
    value: u16,
    why: model::Error,
) -> bool {
    e matches Call::SetVcp { id: i, code: c, value: v, result } && i == id && c == code && v
        == value && result == Err::<(), model::Error>(why)
}

/// Whether an event is a read of a code.
pub open spec fn asks(e: Call, id: DisplayId, code: VcpCode) -> bool {
    e matches Call::GetVcp { id: i, code: c, result } && i == id && c == code
}

/// Whether `cs` is a value sent to each display in turn, and read back from each
/// where that is asked for. `ignored` lists those that did not take it.
pub open spec fn sent_to_all(
    cs: Seq<Call>,
    ids: Seq<DisplayId>,
    code: VcpCode,
    value: u16,
    verify: bool,
    ignored: Seq<u32>,
) -> bool
    decreases ids.len(),
{
    let n = cs.len() as int;
    if ids.len() == 0 {
        n == 0 && ignored.len() == 0
    } else if !verify {
        &&& n >= 1
        &&& sent(cs[n - 1], ids.last(), code, value)
        &&& sent_to_all(cs.take(n - 1), ids.drop_last(), code, value, verify, ignored)
    } else {
        &&& n >= 2
        &&& sent(cs[n - 2], ids.last(), code, value)
        &&& asks(cs[n - 1], ids.last(), code)
        &&& if shows_ignored(code, value, cs[n - 1]->GetVcp_result) {
            &&& ignored.len() > 0
            &&& ignored.last() == ids.last().0
            &&& sent_to_all(
                cs.take(n - 2),
                ids.drop_last(),
                code,
                value,
                verify,
                ignored.drop_last(),
            )
        } else {
            sent_to_all(cs.take(n - 2), ids.drop_last(), code, value, verify, ignored)
        }
    }
}

/// The cooldowns without those of some displays.
pub open spec fn without(cooldown: Map<u32, u128>, ids: Seq<DisplayId>) -> Map<u32, u128>
    decreases ids.len(),
{
    if ids.len() == 0 {
        cooldown
    } else {
        without(cooldown, ids.drop_last()).remove(ids.last().0)
    }
}

/// Whether `cs` is a value written to some displays: to all of them, or up to
/// the first that failed.
pub open spec fn written(
    cs: Seq<Call>,
    ids: Seq<DisplayId>,
    code: VcpCode,
    value: u16,
    verify: bool,
    cool0: Map<u32, u128>,
    cool1: Map<u32, u128>,
    r: Result<api::SetResult>,
) -> bool {
    match r {
        Ok(done) => {
            &&& done.displays == ids.len()
            &&& sent_to_all(cs, ids, code, value, verify, done.ignored@)
            &&& cool1 == without(cool0, ids)
        },
        Err(EngineError::Backend(e)) => exists|k: int, ignored: Seq<u32>|
            {
                &&& 0 <= k < ids.len()
                &&& cs.len() > 0
                &&& #[trigger] sent_to_all(
                    cs.drop_last(),
                    ids.take(k),
                    code,
                    value,
                    verify,
                    ignored,
                )
                &&& failed_to_send(cs.last(), ids[k], code, value, e)
                &&& cool1 == without(cool0, ids.take(k))
            },
        Err(_) => false,
    }
}

/// Whether `cs` is what a request to write a code does.
pub open spec fn set_done(
    cs: Seq<Call>,
    m0: Seq<Monitor>,
    m1: Seq<Monitor>,
    cool0: Map<u32, u128>,
    cool1: Map<u32, u128>,
    selector: Seq<char>,
    code_str: Seq<char>,
    value: u16,
    verify: bool,
    r: Result<api::SetResult>,
) -> bool {
    match vcp::code_parsed(code_str) {
        None => {
            &&& cs.len() == 0
            &&& m1 == m0
            &&& cool1 == cool0
            &&& r matches Err(EngineError::BadCode(s)) && s@ == code_str
        },
        Some(code) => exists|m: int, ids: Result<Vec<DisplayId>>|
            {
                &&& 0 <= m <= cs.len()
                &&& #[trigger] resolved(cs.take(m), m0, m1, selector, ids)
                &&& match ids {
                    Err(e) => m == cs.len() && cool1 == cool0 && r == Err::<
                        api::SetResult,
                        EngineError,
                    >(e),
                    Ok(v) => written(cs.skip(m), v@, code, value, verify, cool0, cool1, r),
                }
            },
    }
}

impl<B: DisplayBackend> Engine<B> {
    /// Write a value, optionally reading it back to see whether it stuck.
    ///
    /// DDC has no write acknowledgement, so without `verify` a successful return
    /// means only that the bytes were sent. Monitors commonly advertise codes
    /// they ignore.
    pub fn set(&mut self, selector: &str, code_str: &str, value: u16, verify: bool) -> (r: Result<
        api::SetResult,
    >)
        ensures
            final(self).profiles == old(self).profiles,
            final(self).clock == old(self).clock,
            final(self).follows(*old(self)),
            set_done(
                final(self).calls_since(*old(self)),
                old(self).monitors@,
                final(self).monitors@,
                old(self).read_cooldown@,
                final(self).read_cooldown@,
                selector@,
                code_str@,
                value,
                verify,
                r,
            ),
    {
        let ghost c0 = self.backend.calls();
        proof {
            trace::lemma_same(c0);
        }
        let code = match vcp::parse_code(code_str) {
            Some(c) => c,
            None => return Err(EngineError::BadCode(text::own(code_str))),
        };
        let found = self.resolve(selector);
        let ghost c1 = self.backend.calls();
        let ghost m = trace::since(c0, c1).len() as int;
        proof {
            trace::lemma_same(c1);
            trace::lemma_chain(c0, c1, c1);
            assert(resolved(
                trace::since(c0, c1).take(m),
                old(self).monitors@,
                self.monitors@,
                selector@,
                found,
            ));
        }
        let ids = match found {
            Ok(v) => v,
            Err(e) => return Err(e),
        };
        let r = self.write_all(&ids, code, value, verify);
        proof {
            let c2 = self.backend.calls();
            trace::lemma_chain(c0, c1, c2);
            assert(resolved(
                trace::since(c0, c2).take(m),
                old(self).monitors@,
                self.monitors@,
                selector@,
                Ok(ids),
            ));
        }
        r
    }

    /// Write a value to each display in turn, up to the first that fails.
    fn write_all(&mut self, ids: &Vec<DisplayId>, code: VcpCode, value: u16, verify: bool) -> (r:
        Result<api::SetResult>)
        ensures
            final(self).monitors == old(self).monitors,
            final(self).profiles == old(self).profiles,
            final(self).clock == old(self).clock,
            final(self).follows(*old(self)),
            written(
                final(self).calls_since(*old(self)),
                ids@,
                code,
                value,
                verify,
                old(self).read_cooldown@,
                final(self).read_cooldown@,
                r,
            ),
    {
        let ghost c0 = self.backend.calls();
        let ghost cool0 = self.read_cooldown@;
        let mut ignored: Vec<u32> = Vec::new();
        let mut i: usize = 0;
        proof {
            trace::lemma_same(c0);
        }
        while i < ids.len()
            invariant
                i <= ids@.len(),
                c0 == old(self).backend.calls(),
                cool0 == old(self).read_cooldown@,
                self.monitors == old(self).monitors,
                self.profiles == old(self).profiles,
                self.clock == old(self).clock,
                trace::extends(c0, self.backend.calls()),
                sent_to_all(
                    trace::since(c0, self.backend.calls()),
                    ids@.take(i as int),
                    code,
                    value,
                    verify,
                    ignored@,
                ),
                self.read_cooldown@ == without(cool0, ids@.take(i as int)),
            decreases ids@.len() - i,
        {
            let id = ids[i];
            let ghost c1 = self.backend.calls();
            let ghost done = trace::since(c0, c1);
            let ghost marks = ignored@;
            let wrote = self.backend.set_vcp(id, code, value);
            let ghost c2 = self.backend.calls();
            proof {
                trace::lemma_one(c1, Call::SetVcp { id, code, value, result: wrote });
                trace::lemma_chain(c0, c1, c2);
                assert(trace::since(c0, c2).drop_last() =~= done);
                assert(ids@.take(i + 1).drop_last() =~= ids@.take(i as int));
                assert(ids@.take(i + 1).last() == id);
            }
            if let Err(e) = wrote {
                assert(sent_to_all(
                    trace::since(c0, c2).drop_last(),
                    ids@.take(i as int),
                    code,
                    value,
                    verify,
                    ignored@,
                ));
                return Err(EngineError::Backend(e));
            }
            // A write went through, so the display is reachable: let reads try
            // again immediately (e.g. right after "Turn On").
            self.read_cooldown.remove(&id.0);
            if verify {
                // Only a successful read showing a different value is evidence.
                let back = self.backend.get_vcp(id, code);
                let ghost c3 = self.backend.calls();
                proof {
                    trace::lemma_one(c2, Call::GetVcp { id, code, result: back });
                    trace::lemma_chain(c0, c2, c3);
                    let n = trace::since(c0, c3).len() as int;
                    assert(trace::since(c0, c3).take(n - 2) =~= done);
                    assert(trace::since(c0, c3)[n - 2] == trace::since(c0, c2).last());
                }
                if let Ok((current, _)) = back {
                    if !value_matches(code.kind(), current, value) {
                        ignored.push(id.0);
                        assert(ignored@.drop_last() =~= marks);
                    }
                }
            } else {
                assert(trace::since(c0, c2).take(trace::since(c0, c2).len() - 1) =~= done);
            }
            i = i + 1;
        }
        assert(ids@.take(i as int) =~= ids@);
        Ok(api::SetResult { displays: ids.len(), ignored })
    }
}

// ── Capabilities ───────────────────────────────────────────────────────────

/// The codes of features.
pub open spec fn codes_of(features: Seq<caps::Feature>) -> Seq<u8> {
    Seq::new(features.len(), |i: int| vcp::code_number(features[i].0))
}

/// The value lists of features that have one.
pub open spec fn value_lists_of(features: Seq<caps::Feature>) -> Seq<(u8, Seq<u8>)>
    decreases features.len(),
{
    if features.len() == 0 {
        Seq::empty()
    } else if features.last().1.len() == 0 {
        value_lists_of(features.drop_last())
    } else {
        value_lists_of(features.drop_last()).push(
            (vcp::code_number(features.last().0), features.last().1),
        )
    }
}

/// Value lists as the wire has them.
pub open spec fn lists_view(v: Seq<(u8, Vec<u8>)>) -> Seq<(u8, Seq<u8>)> {
    Seq::new(v.len(), |i: int| (v[i].0, v[i].1@))
}

/// Whether a result says what a capability string says. One that cannot be
/// parsed is handed on as it is, with nothing made of it.
pub open spec fn caps_say(c: api::CapsResult, raw: Option<String>) -> bool {
    &&& c.raw == raw
    &&& match raw {
        Some(s) if caps::meaningful(caps::sections_in(s@)) => {
            let secs = caps::sections_in(s@);
            &&& c.vcp_codes@ == codes_of(caps::vcp_of(secs))
            &&& text::opt_text(c.mccs_version) == caps::label_of(secs, "mccs_ver"@)
            &&& text::texts(c.unknown_sections@) == caps::unknown_of(secs)
            &&& lists_view(c.value_lists@) == value_lists_of(caps::vcp_of(secs))
        },
        _ => {
            &&& c.vcp_codes@.len() == 0
            &&& c.mccs_version is None
            &&& c.unknown_sections@.len() == 0
            &&& c.value_lists@.len() == 0
        },
    }
}

/// Make of a capability string what can be made of it.
pub fn read_caps(raw: Option<String>) -> (r: api::CapsResult)
    ensures
        caps_say(r, raw),
{
    let parsed = match &raw {
        Some(s) => match caps::parse(s.as_str()) {
            Ok(c) => Some(c),
            Err(_) => None,
        },
        None => None,
    };
    let c = match parsed {
        Some(c) => c,
        None => {
            return api::CapsResult {
                raw,
                vcp_codes: Vec::new(),
                mccs_version: None,
                unknown_sections: Vec::new(),
                value_lists: Vec::new(),
            };
        },
    };
    let ghost features = caps::features_of(c.vcp@);
    let mut codes: Vec<u8> = Vec::new();
    let mut lists: Vec<(u8, Vec<u8>)> = Vec::new();
    let mut i: usize = 0;
    assert(lists_view(lists@) =~= Seq::<(u8, Seq<u8>)>::empty());
    while i < c.vcp.len()
        invariant
            i <= c.vcp@.len(),
            features == caps::features_of(c.vcp@),
            codes@ == codes_of(features.take(i as int)),
            lists_view(lists@) == value_lists_of(features.take(i as int)),
        decreases c.vcp@.len() - i,
    {
        let f = &c.vcp[i];
        let n: u8 = f.code.code();
        assert(features.take(i + 1).drop_last() =~= features.take(i as int));
        let ghost before = lists_view(lists@);
        codes.push(n);
        assert(codes@ =~= codes_of(features.take(i + 1)));
        if f.values.len() > 0 {
            let values = copy_bytes(&f.values);
            let ghost list = values@;
            lists.push((n, values));
            assert(lists_view(lists@) =~= before.push((n, list)));
        }
        i = i + 1;
    }
    assert(features.take(i as int) =~= features);
    api::CapsResult {
        raw,
        vcp_codes: codes,
        mccs_version: c.mccs_version,
        unknown_sections: c.unknown_sections,
        value_lists: lists,
    }
}

/// A copy of some bytes.
pub(crate) fn copy_bytes(v: &Vec<u8>) -> (r: Vec<u8>)
    ensures
        r@ == v@,
{
    let mut out: Vec<u8> = Vec::new();
    out.extend_from_slice(v.as_slice());
    assert(out@ =~= v@);
    out
}

/// Whether `cs` is what a request for the capabilities of a display does.
pub open spec fn caps_done(
    cs: Seq<Call>,
    m0: Seq<Monitor>,
    m1: Seq<Monitor>,
    selector: Seq<char>,
    r: Result<api::CapsResult>,
) -> bool {
    exists|m: int, at: Result<DisplayId>|
        {
            &&& 0 <= m <= cs.len()
            &&& #[trigger] located(cs.take(m), m0, m1, selector, at)
            &&& match at {
                Err(e) => m == cs.len() && r == Err::<api::CapsResult, EngineError>(e),
                Ok(id) => {
                    &&& cs.len() == m + 1
                    &&& cs[m] matches Call::CapabilityString { id: i, result } && i == id
                        && match result {
                        Err(e) => r == Err::<api::CapsResult, EngineError>(EngineError::Backend(e)),
                        Ok(raw) => r matches Ok(c) && caps_say(c, raw),
                    }
                },
            }
        }
}

impl<B: DisplayBackend> Engine<B> {
    /// What a display says of itself.
    pub fn caps(&mut self, selector: &str) -> (r: Result<api::CapsResult>)
        ensures
            final(self).rest_kept(*old(self)),
            final(self).follows(*old(self)),
            caps_done(
                final(self).calls_since(*old(self)),
                old(self).monitors@,
                final(self).monitors@,
                selector@,
                r,
            ),
    {
        let ghost c0 = self.backend.calls();
        let at = self.single(selector);
        let ghost c1 = self.backend.calls();
        let ghost m = trace::since(c0, c1).len() as int;
        proof {
            trace::lemma_same(c1);
            trace::lemma_chain(c0, c1, c1);
            assert(located(
                trace::since(c0, c1).take(m),
                old(self).monitors@,
                self.monitors@,
                selector@,
                at,
            ));
        }
        let id = match at {
            Ok(id) => id,
            Err(e) => return Err(e),
        };
        let asked = self.backend.capability_string(id);
        proof {
            let c2 = self.backend.calls();
            trace::lemma_one(c1, Call::CapabilityString { id, result: asked });
            trace::lemma_chain(c0, c1, c2);
            assert(trace::since(c0, c2)[m] == trace::since(c1, c2)[0]);
            assert(located(
                trace::since(c0, c2).take(m),
                old(self).monitors@,
                self.monitors@,
                selector@,
                Ok(id),
            ));
        }
        match asked {
            Ok(raw) => Ok(read_caps(raw)),
            Err(e) => Err(EngineError::Backend(e)),
        }
    }
}

// ── Wire shapes ────────────────────────────────────────────────────────────

/// A value kind as the wire has it.
pub open spec fn wire_kind(k: ValueKind) -> api::ValueKind {
    match k {
        ValueKind::Continuous => api::ValueKind::Continuous,
        ValueKind::NonContinuous => api::ValueKind::NonContinuous,
        ValueKind::Unknown => api::ValueKind::Unknown,
    }
}

/// A value kind as the wire has it.
pub fn to_kind(k: ValueKind) -> (r: api::ValueKind)
    ensures
        r == wire_kind(k),
{
    match k {
        ValueKind::Continuous => api::ValueKind::Continuous,
        ValueKind::NonContinuous => api::ValueKind::NonContinuous,
        ValueKind::Unknown => api::ValueKind::Unknown,
    }
}

/// A control path as the wire has it.
pub open spec fn wire_control(c: ControlPath) -> api::ControlPath {
    match c {
        ControlPath::Ddc => api::ControlPath::Ddc,
        ControlPath::Native => api::ControlPath::Native,
        ControlPath::Uncontrollable => api::ControlPath::Uncontrollable,
    }
}

/// Whether `info` says of a display what there is to say.
pub open spec fn describes(info: api::MonitorInfo, m: Monitor) -> bool {
    &&& info.id == m.id.0
    &&& info.vendor@ == m.identity.vendor@
    &&& info.product@ == m.identity.product_name@
    &&& info.serial == m.identity.serial
    &&& info.alphanumeric_serial@ == m.identity.alphanumeric_serial@
    &&& info.serial_trustworthy == identity::trustworthy(m.identity.serial)
    &&& info.location@ == m.identity.location@
    &&& info.control == wire_control(m.control)
    &&& info.key@ == identity::key_of(m.identity)
}

/// A display as clients see it.
pub fn to_info(m: &Monitor) -> (r: api::MonitorInfo)
    ensures
        describes(r, *m),
{
    api::MonitorInfo {
        id: m.id.0,
        vendor: m.identity.vendor.clone(),
        product: m.identity.product_name.clone(),
        serial: m.identity.serial,
        alphanumeric_serial: m.identity.alphanumeric_serial.clone(),
        serial_trustworthy: m.identity.has_trustworthy_serial(),
        location: m.identity.location.clone(),
        control: match m.control {
            ControlPath::Ddc => api::ControlPath::Ddc,
            ControlPath::Native => api::ControlPath::Native,
            ControlPath::Uncontrollable => api::ControlPath::Uncontrollable,
        },
        key: m.identity.settings_key(),
    }
}

// ── Laws ───────────────────────────────────────────────────────────────────

/// While the displays stay the same, resolving a selector costs one cheap call
/// and no enumeration.
pub proof fn law_unchanged_displays_are_not_enumerated(
    cs: Seq<Call>,
    m0: Seq<Monitor>,
    m1: Seq<Monitor>,
    online: Vec<DisplayId>,
)
    requires
        m0.len() > 0,
        checked(cs, m0, m1),
        cs[0] == (Call::OnlineIds { result: Ok(online) }),
        same_ids(online@, m0),
    ensures
        cs.len() == 1,
        m1 == m0,
{
}

/// A display that came or went is noticed: the displays are enumerated before
/// anything is resolved among them.
pub proof fn law_changed_displays_are_enumerated(
    cs: Seq<Call>,
    m0: Seq<Monitor>,
    m1: Seq<Monitor>,
    online: Vec<DisplayId>,
)
    requires
        m0.len() > 0,
        checked(cs, m0, m1),
        cs[0] == (Call::OnlineIds { result: Ok(online) }),
        !same_ids(online@, m0),
    ensures
        cs.len() == 2,
        cs[1] is List,
        cs[1]->List_result matches Ok(v) ==> m1 == v@,
{
}

/// Without a read-back nothing is said to have been ignored.
pub proof fn law_nothing_is_ignored_unverified(
    cs: Seq<Call>,
    ids: Seq<DisplayId>,
    code: VcpCode,
    value: u16,
    ignored: Seq<u32>,
)
    requires
        sent_to_all(cs, ids, code, value, false, ignored),
    ensures
        ignored.len() == 0,
        cs.len() == ids.len(),
        forall|i: int| 0 <= i < ids.len() ==> sent(#[trigger] cs[i], ids[i], code, value),
    decreases ids.len(),
{
    if ids.len() > 0 {
        let n = cs.len() as int;
        law_nothing_is_ignored_unverified(cs.take(n - 1), ids.drop_last(), code, value, ignored);
        assert forall|i: int| 0 <= i < ids.len() implies sent(#[trigger] cs[i], ids[i], code, value) by {
            if i < n - 1 {
                assert(cs.take(n - 1)[i] == cs[i]);
                assert(ids.drop_last()[i] == ids[i]);
            }
        }
    }
}

/// A display is said to have ignored a write only where it was one of those
/// written to and a value that differs was read back from it.
pub proof fn law_ignored_displays_answered_otherwise(
    cs: Seq<Call>,
    ids: Seq<DisplayId>,
    code: VcpCode,
    value: u16,
    ignored: Seq<u32>,
    k: int,
)
    requires
        sent_to_all(cs, ids, code, value, true, ignored),
        0 <= k < ignored.len(),
    ensures
        exists|i: int, j: int|
            {
                &&& 0 <= i < cs.len()
                &&& 0 <= j < ids.len()
                &&& #[trigger] asks(cs[i], #[trigger] ids[j], code)
                &&& ids[j].0 == ignored[k]
                &&& shows_ignored(code, value, cs[i]->GetVcp_result)
            },
    decreases ids.len(),
{
    let n = cs.len() as int;
    if shows_ignored(code, value, cs[n - 1]->GetVcp_result) {
        if k == ignored.len() - 1 {
            assert(asks(cs[n - 1], ids[ids.len() - 1], code));
            return;
        }
        law_ignored_displays_answered_otherwise(
            cs.take(n - 2),
            ids.drop_last(),
            code,
            value,
            ignored.drop_last(),
            k,
        );
    } else {
        law_ignored_displays_answered_otherwise(
            cs.take(n - 2),
            ids.drop_last(),
            code,
            value,
            ignored,
            k,
        );
    }
    let (i, j) = choose|i: int, j: int|
        {
            &&& 0 <= i < cs.take(n - 2).len()
            &&& 0 <= j < ids.drop_last().len()
            &&& #[trigger] asks(cs.take(n - 2)[i], #[trigger] ids.drop_last()[j], code)
            &&& ids.drop_last()[j].0 == ignored[k]
            &&& shows_ignored(code, value, cs.take(n - 2)[i]->GetVcp_result)
        };
    assert(asks(cs[i], ids[j], code));
}

/// A display that answered a read is not cooling down, and one that failed to is
/// until the window is over.
pub proof fn law_failed_reads_cool_down(
    id: DisplayId,
    code: VcpCode,
    answer: model::Result<(u16, u16)>,
    now: u128,
    cool0: Map<u32, u128>,
    cool1: Map<u32, u128>,
    r: Result<api::VcpValue>,
    then: u128,
)
    requires
        concluded(id, code, answer, now, cool0, cool1, r),
        now <= u128::MAX - READ_COOLDOWN,
    ensures
        cooling(cool1, id, then) == (answer is Err && then < now + READ_COOLDOWN),
{
}

/// A write that goes through lets reads try again at once.
pub proof fn law_writes_end_the_cooldown(cooldown: Map<u32, u128>, ids: Seq<DisplayId>, i: int)
    requires
        0 <= i < ids.len(),
    ensures
        !without(cooldown, ids).contains_key(ids[i].0),
    decreases ids.len(),
{
    if i < ids.len() - 1 {
        law_writes_end_the_cooldown(cooldown, ids.drop_last(), i);
    }
}

/// Whether a value that was read back is another than the one that was written. Of
/// an enumerated code only the low bytes count; of any other, the whole value.
pub open spec fn differs(code: VcpCode, read: u16, value: u16) -> bool {
    if vcp::code_kind(code) == ValueKind::NonContinuous {
        read as int - read as int / 256 * 256 != value as int - value as int / 256 * 256
    } else {
        read < value || read > value
    }
}

/// Whether a call sent a value to a code of a display, and went through.
pub open spec fn sends(e: Call, id: DisplayId, code: VcpCode, value: u16) -> bool {
    e is SetVcp && e->SetVcp_id == id && e->SetVcp_code == code && e->SetVcp_value == value
        && e->SetVcp_result is Ok
}

/// Whether a call read a code of a display.
pub open spec fn reads(e: Call, id: DisplayId, code: VcpCode) -> bool {
    e is GetVcp && e->GetVcp_id == id && e->GetVcp_code == code
}

/// A verified write sends the value to each display in turn and reads it back from
/// it. A display is listed as having ignored it exactly where it was read back with
/// another value, higher or lower: a read that failed says nothing.
pub proof fn law_ignored_writes_are_listed(
    cs: Seq<Call>,
    ids: Seq<DisplayId>,
    code: VcpCode,
    value: u16,
    ignored: Seq<u32>,
    id: u32,
)
    requires
        sent_to_all(cs, ids, code, value, true, ignored),
    ensures
        cs.len() == 2 * ids.len(),
        forall|i: int|
            0 <= i < ids.len() ==> sends(cs[2 * i], #[trigger] ids[i], code, value),
        forall|i: int|
            0 <= i < ids.len() ==> reads(cs[2 * i + 1], #[trigger] ids[i], code),
        ignored.contains(id) == exists|i: int|
            0 <= i < ids.len() && (#[trigger] ids[i]).0 == id && (cs[2 * i + 1]->GetVcp_result matches Ok(
                v,
            ) && differs(code, v.0, value)),
    decreases ids.len(),
{
    if ids.len() > 0 {
        let n = cs.len() as int;
        let rest = ids.drop_last();
        let last = cs[n - 1]->GetVcp_result;
        let marks = if shows_ignored(code, value, last) {
            ignored.drop_last()
        } else {
            ignored
        };
        law_ignored_writes_are_listed(cs.take(n - 2), rest, code, value, marks, id);
        assert(n == 2 * ids.len());
        assert(shows_ignored(code, value, last) == (last matches Ok(v) && differs(code, v.0, value)));
        assert forall|i: int| 0 <= i < ids.len() implies sends(cs[2 * i], #[trigger] ids[i], code, value) by {
            if i < rest.len() {
                assert(rest[i] == ids[i]);
                assert(cs.take(n - 2)[2 * i] == cs[2 * i]);
            }
        }
        assert forall|i: int| 0 <= i < ids.len() implies reads(cs[2 * i + 1], #[trigger] ids[i], code) by {
            if i < rest.len() {
                assert(rest[i] == ids[i]);
                assert(cs.take(n - 2)[2 * i + 1] == cs[2 * i + 1]);
            }
        }
        if ignored.contains(id) {
            let k = choose|k: int| 0 <= k < ignored.len() && ignored[k] == id;
            if k < marks.len() {
                assert(marks[k] == id);
                let i = choose|i: int|
                    0 <= i < rest.len() && (#[trigger] rest[i]).0 == id && (cs.take(n - 2)[2 * i
                        + 1]->GetVcp_result matches Ok(v) && differs(code, v.0, value));
                assert(ids[i] == rest[i]);
                assert(cs.take(n - 2)[2 * i + 1] == cs[2 * i + 1]);
            } else {
                assert(ids[ids.len() - 1].0 == id);
            }
        }
        if exists|i: int|
            0 <= i < ids.len() && (#[trigger] ids[i]).0 == id && (cs[2 * i + 1]->GetVcp_result matches Ok(
                v,
            ) && differs(code, v.0, value)) {
            let i = choose|i: int|
                0 <= i < ids.len() && (#[trigger] ids[i]).0 == id && (cs[2 * i
                    + 1]->GetVcp_result matches Ok(v) && differs(code, v.0, value));
            if i < rest.len() {
                assert(rest[i] == ids[i]);
                assert(cs.take(n - 2)[2 * i + 1] == cs[2 * i + 1]);
                assert(marks.contains(id));
                let k = choose|k: int| 0 <= k < marks.len() && marks[k] == id;
                assert(ignored[k] == id);
            } else {
                assert(ignored[ignored.len() - 1] == id);
            }
        }
    }
}

/// A request to write that went through: the code's own number was understood, every
/// display that the selector stands for was sent the value, and no other; those that
/// are listed as having ignored it are those that were read back with another value.
/// Where nothing is read back, nothing is listed.
pub proof fn law_set_writes_and_tells(
    cs: Seq<Call>,
    m0: Seq<Monitor>,
    m1: Seq<Monitor>,
    cool0: Map<u32, u128>,
    cool1: Map<u32, u128>,
    selector: Seq<char>,
    code_str: Seq<char>,
    value: u16,
    verify: bool,
    done: api::SetResult,
) -> (at: (int, Seq<DisplayId>))
    requires
        set_done(
            cs,
            m0,
            m1,
            cool0,
            cool1,
            selector,
            code_str,
            value,
            verify,
            Ok::<api::SetResult, EngineError>(done),
        ),
    ensures
        ({
            let (m, ids) = at;
            let step: int = if verify {
                2
            } else {
                1
            };
            &&& vcp::code_parsed(code_str) is Some
            &&& selection::selection(m1, selector) == selection::Selection::Ids(ids)
            &&& done.displays == ids.len()
            &&& 0 <= m
            &&& cs.len() == m + step * ids.len()
            &&& forall|k: int|
                0 <= k < m ==> (#[trigger] cs[k]) is List || cs[k] is OnlineIds
            &&& forall|i: int|
                0 <= i < ids.len() ==> sends(cs[m + step * i], #[trigger] ids[i], vcp::code_parsed(code_str)->Some_0, value)
            &&& !verify ==> done.ignored@.len() == 0
            &&& verify ==> forall|id: u32| #[trigger]
                done.ignored@.contains(id) == exists|i: int|
                    0 <= i < ids.len() && (#[trigger] ids[i]).0 == id && (cs[m + 2 * i
                        + 1]->GetVcp_result matches Ok(v) && differs(
                        vcp::code_parsed(code_str)->Some_0,
                        v.0,
                        value,
                    ))
        }),
{
    let code = vcp::code_parsed(code_str)->Some_0;
    let (m, found) = choose|m: int, found: Result<Vec<DisplayId>>|
        {
            &&& 0 <= m <= cs.len()
            &&& #[trigger] resolved(cs.take(m), m0, m1, selector, found)
            &&& match found {
                Err(e) => m == cs.len() && cool1 == cool0 && Ok::<api::SetResult, EngineError>(done)
                    == Err::<api::SetResult, EngineError>(e),
                Ok(v) => written(
                    cs.skip(m),
                    v@,
                    code,
                    value,
                    verify,
                    cool0,
                    cool1,
                    Ok::<api::SetResult, EngineError>(done),
                ),
            }
        };
    let ids = found->Ok_0@;
    let rest = cs.skip(m);
    lemma_checks_only(cs.take(m), m0, m1);
    assert forall|k: int| 0 <= k < m implies (#[trigger] cs[k]) is List || cs[k] is OnlineIds by {
        assert(cs.take(m)[k] == cs[k]);
    }
    if verify {
        law_ignored_writes_are_listed(rest, ids, code, value, done.ignored@, 0);
        assert forall|i: int| 0 <= i < ids.len() implies sends(cs[m + 2 * i], #[trigger] ids[i], code, value) by {
            assert(rest[2 * i] == cs[m + 2 * i]);
        }
        assert forall|id: u32| #[trigger] done.ignored@.contains(id) == exists|i: int|
            0 <= i < ids.len() && (#[trigger] ids[i]).0 == id && (cs[m + 2 * i
                + 1]->GetVcp_result matches Ok(v) && differs(code, v.0, value)) by {
            law_ignored_writes_are_listed(rest, ids, code, value, done.ignored@, id);
            if done.ignored@.contains(id) {
                let i = choose|i: int|
                    0 <= i < ids.len() && (#[trigger] ids[i]).0 == id && (rest[2 * i
                        + 1]->GetVcp_result matches Ok(v) && differs(code, v.0, value));
                assert(rest[2 * i + 1] == cs[m + 2 * i + 1]);
            }
            if exists|i: int|
                0 <= i < ids.len() && (#[trigger] ids[i]).0 == id && (cs[m + 2 * i
                    + 1]->GetVcp_result matches Ok(v) && differs(code, v.0, value)) {
                let i = choose|i: int|
                    0 <= i < ids.len() && (#[trigger] ids[i]).0 == id && (cs[m + 2 * i
                        + 1]->GetVcp_result matches Ok(v) && differs(code, v.0, value));
                assert(rest[2 * i + 1] == cs[m + 2 * i + 1]);
            }
        }
    } else {
        law_nothing_is_ignored_unverified(rest, ids, code, value, done.ignored@);
        assert forall|i: int| 0 <= i < ids.len() implies sends(cs[m + i], #[trigger] ids[i], code, value) by {
            assert(rest[i] == cs[m + i]);
            assert(sent(rest[i], ids[i], code, value));
        }
    }
    (m, ids)
}

/// A check of the displays asks which there are, and nothing else.
pub proof fn lemma_checks_only(cs: Seq<Call>, m0: Seq<Monitor>, m1: Seq<Monitor>)
    requires
        checked(cs, m0, m1),
    ensures
        1 <= cs.len() <= 2,
        forall|k: int| 0 <= k < cs.len() ==> (#[trigger] cs[k]) is List || cs[k] is OnlineIds,
{
    if m0.len() > 0 && cs.len() > 1 {
        assert(cs.skip(1)[0] == cs[1]);
    }
}

/// A value that a request to read gives is the one that the display gave, under the
/// number and kind of the code that was asked for: the last call was that read, of
/// the one display that the selector stands for.
pub proof fn law_get_gives_what_was_read(
    cs: Seq<Call>,
    watch: Clock,
    m0: Seq<Monitor>,
    m1: Seq<Monitor>,
    cool0: Map<u32, u128>,
    cool1: Map<u32, u128>,
    selector: Seq<char>,
    code_str: Seq<char>,
    v: api::VcpValue,
) -> (id: DisplayId)
    requires
        got(
            cs,
            watch,
            m0,
            m1,
            cool0,
            cool1,
            selector,
            code_str,
            Ok::<api::VcpValue, EngineError>(v),
        ),
    ensures
        selection::selection(m1, selector) == selection::Selection::Ids(seq![id]),
        cs.len() >= 2,
        vcp::code_parsed(code_str) is Some,
        cs.last() == (Call::GetVcp {
            id,
            code: vcp::code_parsed(code_str)->Some_0,
            result: Ok((v.current, v.max)),
        }),
        forall|k: int| 0 <= k < cs.len() - 1 ==> (#[trigger] cs[k]) is List || cs[k] is OnlineIds,
        v.code == vcp::code_number(vcp::code_parsed(code_str)->Some_0),
        v.name@ == vcp::code_label(vcp::code_parsed(code_str)->Some_0),
        (v.kind is Continuous) == (vcp::code_kind(vcp::code_parsed(code_str)->Some_0) is Continuous),
        (v.kind is NonContinuous) == (vcp::code_kind(
            vcp::code_parsed(code_str)->Some_0,
        ) is NonContinuous),
        !cool1.contains_key(id.0),
{
    let code = vcp::code_parsed(code_str)->Some_0;
    let r = Ok::<api::VcpValue, EngineError>(v);
    let (m, at) = choose|m: int, at: Result<DisplayId>|
        {
            &&& 0 <= m <= cs.len()
            &&& #[trigger] located(cs.take(m), m0, m1, selector, at)
            &&& match at {
                Err(e) => m == cs.len() && cool1 == cool0 && r == Err::<api::VcpValue, EngineError>(e),
                Ok(id) => exists|now: u128, later: u128|
                    watch.shows(now) && watch.shows(later) && #[trigger] read_once(
                        cs.skip(m),
                        id,
                        code,
                        now,
                        later,
                        cool0,
                        cool1,
                        r,
                    ),
            }
        };
    let id = at->Ok_0;
    let ids = choose|ids: Result<Vec<DisplayId>>| #[trigger]
        resolved(cs.take(m), m0, m1, selector, ids) && match ids {
            Ok(v) => if v@.len() == 1 {
                at == Ok::<DisplayId, EngineError>(v@[0])
            } else {
                at matches Err(EngineError::Ambiguous(s, l)) && s@ == selector && l@
                    == text::decimal(v@.len()) + " displays"@
            },
            Err(e) => at == Err::<DisplayId, EngineError>(e),
        };
    assert(ids->Ok_0@ =~= seq![id]);
    lemma_checks_only(cs.take(m), m0, m1);
    assert(cs.skip(m)[0] == cs[m]);
    assert forall|k: int| 0 <= k < cs.len() - 1 implies (#[trigger] cs[k]) is List
        || cs[k] is OnlineIds by {
        assert(cs.take(m)[k] == cs[k]);
    }
    id
}

/// While a display cools down, a read of it touches nothing and fails.
pub proof fn law_cooling_reads_touch_nothing(
    cs: Seq<Call>,
    id: DisplayId,
    code: VcpCode,
    now: u128,
    later: u128,
    cool0: Map<u32, u128>,
    cool1: Map<u32, u128>,
    r: Result<api::VcpValue>,
)
    requires
        read_once(cs, id, code, now, later, cool0, cool1, r),
    ensures
        (cs.len() == 0) == (cool0.contains_key(id.0) && cool0[id.0] > now),
        cs.len() == 0 ==> r is Err && cool1 == cool0,
        cs.len() != 0 ==> cs.len() == 1 && (r is Ok) == (cs[0]->GetVcp_result is Ok),
        cs.len() != 0 && r is Err ==> cool1.contains_key(id.0),
        READ_COOLDOWN == 15 * 1_000_000_000,
{
}

/// The features that have values, and no others, stand in the value lists, each with
/// its code and its values, in the order in which they are advertised. Every
/// advertised code is listed.
pub proof fn law_value_lists_are_those_of_features(c: api::CapsResult, s: String) -> (places: Seq<int>)
    requires
        caps_say(c, Some(s)),
        caps::meaningful(caps::sections_in(s@)),
    ensures
        ({
            let features = caps::vcp_of(caps::sections_in(s@));
            &&& c.vcp_codes@.len() == features.len()
            &&& forall|i: int|
                0 <= i < features.len() ==> #[trigger] c.vcp_codes@[i] == vcp::code_number(
                    features[i].0,
                )
            &&& places.len() == c.value_lists@.len()
            &&& forall|k: int|
                0 <= k < places.len() ==> 0 <= #[trigger] places[k] < features.len()
                    && features[places[k]].1.len() > 0 && c.value_lists@[k].0 == vcp::code_number(
                    features[places[k]].0,
                ) && c.value_lists@[k].1@ == features[places[k]].1
            &&& forall|j: int, k: int|
                0 <= j < k < places.len() ==> #[trigger] places[j] < #[trigger] places[k]
            &&& forall|i: int|
                0 <= i < features.len() && (#[trigger] features[i]).1.len() > 0 ==> places.contains(i)
        }),
{
    let features = caps::vcp_of(caps::sections_in(s@));
    let places = lemma_value_lists(features);
    let lists = value_lists_of(features);
    assert(lists_view(c.value_lists@) == lists);
    assert forall|k: int| 0 <= k < places.len() implies 0 <= #[trigger] places[k] < features.len()
        && features[places[k]].1.len() > 0 && c.value_lists@[k].0 == vcp::code_number(
        features[places[k]].0,
    ) && c.value_lists@[k].1@ == features[places[k]].1 by {
        assert(lists_view(c.value_lists@)[k] == lists[k]);
    }
    places
}

/// Where the features that have values stand.
proof fn lemma_value_lists(features: Seq<caps::Feature>) -> (places: Seq<int>)
    ensures
        places.len() == value_lists_of(features).len(),
        forall|k: int|
            0 <= k < places.len() ==> 0 <= #[trigger] places[k] < features.len()
                && features[places[k]].1.len() > 0 && value_lists_of(features)[k].0
                == vcp::code_number(features[places[k]].0) && value_lists_of(features)[k].1
                == features[places[k]].1,
        forall|j: int, k: int|
            0 <= j < k < places.len() ==> #[trigger] places[j] < #[trigger] places[k],
        forall|i: int|
            0 <= i < features.len() && (#[trigger] features[i]).1.len() > 0 ==> places.contains(i),
    decreases features.len(),
{
    if features.len() == 0 {
        Seq::empty()
    } else {
        let rest = features.drop_last();
        let before = lemma_value_lists(rest);
        let n = features.len() - 1;
        if features.last().1.len() == 0 {
            assert forall|i: int|
                0 <= i < features.len() && (#[trigger] features[i]).1.len() > 0 implies before.contains(
                i,
            ) by {
                assert(rest[i] == features[i]);
            }
            before
        } else {
            let places = before.push(n);
            assert forall|i: int|
                0 <= i < features.len() && (#[trigger] features[i]).1.len() > 0 implies places.contains(
                i,
            ) by {
                if i < n {
                    assert(rest[i] == features[i]);
                    let k = choose|k: int| 0 <= k < before.len() && before[k] == i;
                    assert(places[k] == i);
                } else {
                    assert(places[before.len() as int] == i);
                }
            }
            places
        }
    }
}

/// A display without a capability string, or with one that says nothing, is reported
/// with what it gave and nothing made of it.
pub proof fn law_nothing_is_made_of_nothing(c: api::CapsResult, raw: Option<String>)
    requires
        caps_say(c, raw),
    ensures
        c.raw == raw,
        raw is None || !caps::meaningful(caps::sections_in(raw->Some_0@)) ==> c.vcp_codes@.len() == 0
            && c.value_lists@.len() == 0 && c.unknown_sections@.len() == 0 && c.mccs_version is None,
{
}

/// A listing has one entry for each display that the platform gave, in its order,
/// with the display's own id, names, serials, place and control.
pub proof fn law_listing_says_what_is_known(
    cs: Seq<Call>,
    m0: Seq<Monitor>,
    m1: Seq<Monitor>,
    v: Vec<api::MonitorInfo>,
    i: int,
)
    requires
        enumerated(cs, m0, m1),
        listed(cs, m1, Ok::<Vec<api::MonitorInfo>, EngineError>(v)),
    ensures
        cs.len() == 1,
        cs[0] matches Call::List { result } && (result matches Ok(found) && v@.len() == found@.len()
            && (0 <= i < v@.len() ==> {
            let d = found@[i];
            &&& v@[i].id == d.id.0
            &&& v@[i].vendor@ == d.identity.vendor@
            &&& v@[i].product@ == d.identity.product_name@
            &&& v@[i].serial == d.identity.serial
            &&& v@[i].alphanumeric_serial@ == d.identity.alphanumeric_serial@
            &&& v@[i].location@ == d.identity.location@
            &&& (v@[i].control is Ddc) == (d.control is Ddc)
            &&& (v@[i].control is Native) == (d.control is Native)
            &&& v@[i].serial_trustworthy == identity::trustworthy(d.identity.serial)
        })),
{
    if 0 <= i < v@.len() {
        assert(describes(v@[i], m1[i]));
    }
}

/// Whether a write went through, failed, or was a read is told by the call itself.
pub proof fn law_calls_are_what_they_say(e: Call, id: DisplayId, code: VcpCode, value: u16, why: model::Error)
    ensures
        sent(e, id, code, value) == sends(e, id, code, value),
        asks(e, id, code) == reads(e, id, code),
        failed_to_send(e, id, code, value, why) == (e is SetVcp && e->SetVcp_id == id
            && e->SetVcp_code == code && e->SetVcp_value == value && e->SetVcp_result
            == Err::<(), model::Error>(why)),
{
}

/// Which cooldowns are left.
proof fn lemma_without(cooldown: Map<u32, u128>, ids: Seq<DisplayId>, key: u32)
    ensures
        (exists|i: int| 0 <= i < ids.len() && (#[trigger] ids[i]).0 == key) ==> !without(
            cooldown,
            ids,
        ).contains_key(key),
        (forall|i: int| 0 <= i < ids.len() ==> (#[trigger] ids[i]).0 != key) ==> (without(
            cooldown,
            ids,
        ).contains_key(key) == cooldown.contains_key(key) && (cooldown.contains_key(key) ==> without(
            cooldown,
            ids,
        )[key] == cooldown[key])),
    decreases ids.len(),
{
    if ids.len() > 0 {
        let rest = ids.drop_last();
        lemma_without(cooldown, rest, key);
        assert(ids.last() == ids[ids.len() - 1]);
        assert(forall|i: int| 0 <= i < rest.len() ==> #[trigger] rest[i] == ids[i]);
        if exists|i: int| 0 <= i < ids.len() && (#[trigger] ids[i]).0 == key {
            let i = choose|i: int| 0 <= i < ids.len() && (#[trigger] ids[i]).0 == key;
            if i < rest.len() {
                assert(rest[i].0 == key);
            }
        }
    }
}

/// A display that took a write is asked again at once: its cooldown is over. The cooldown of
/// no other display is touched.
pub proof fn law_writes_end_cooldowns(
    cs: Seq<Call>,
    m0: Seq<Monitor>,
    m1: Seq<Monitor>,
    cool0: Map<u32, u128>,
    cool1: Map<u32, u128>,
    selector: Seq<char>,
    code_str: Seq<char>,
    value: u16,
    verify: bool,
    done: api::SetResult,
    key: u32,
) -> (ids: Seq<DisplayId>)
    requires
        set_done(
            cs,
            m0,
            m1,
            cool0,
            cool1,
            selector,
            code_str,
            value,
            verify,
            Ok::<api::SetResult, EngineError>(done),
        ),
    ensures
        selection::selection(m1, selector) == selection::Selection::Ids(ids),
        (exists|i: int| 0 <= i < ids.len() && (#[trigger] ids[i]).0 == key) ==> !cool1.contains_key(
            key,
        ),
        (forall|i: int| 0 <= i < ids.len() ==> (#[trigger] ids[i]).0 != key) ==> (
        cool1.contains_key(key) == cool0.contains_key(key) && (cool0.contains_key(key)
            ==> cool1[key] == cool0[key])),
{
    let code = vcp::code_parsed(code_str)->Some_0;
    let (m, found) = choose|m: int, found: Result<Vec<DisplayId>>|
        {
            &&& 0 <= m <= cs.len()
            &&& #[trigger] resolved(cs.take(m), m0, m1, selector, found)
            &&& match found {
                Err(e) => m == cs.len() && cool1 == cool0 && Ok::<api::SetResult, EngineError>(done)
                    == Err::<api::SetResult, EngineError>(e),
                Ok(v) => written(
                    cs.skip(m),
                    v@,
                    code,
                    value,
                    verify,
                    cool0,
                    cool1,
                    Ok::<api::SetResult, EngineError>(done),
                ),
            }
        };
    let ids = found->Ok_0@;
    lemma_without(cool0, ids, key);
    ids
}

} // verus!
