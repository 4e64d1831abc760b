//! Applying a profile.
//!
//! True atomicity is not achievable over DDC: writes are unacknowledged, so a
//! write that lands and a write that vanishes are indistinguishable without
//! reading back, and the read itself can fail. Instead:
//!
//! - A **transport error** aborts the apply and restores every value already
//!   written in this call, best-effort (values that could not be read beforehand
//!   cannot be restored, and are reported).
//! - A **silently ignored** write is not an error: the monitor simply does not
//!   implement that code. It is reported as `ignored` so the caller can say so
//!   rather than claiming success.

use crate::api;
use crate::api::{ApplyOutcome, ApplyStatus};
use crate::daemon::engine;
use crate::daemon::engine::Engine;
use crate::daemon::selection;
use crate::daemon::selection::{EngineError, Result};
use crate::daemon::snapshot;
use crate::ddc::vcp;
use crate::ddc::vcp::VcpCode;
use crate::keyed;
use crate::model;
use crate::model::profile;
use crate::model::profile::Reading;
use crate::model::{Call, DisplayBackend, DisplayId, DisplayProfile, Monitor, Profile};
use crate::text;
use crate::trace;
use vstd::prelude::*;

verus! {

/// A value to put back.
#[derive(Debug, Clone, Copy, PartialEq, Eq, Structural)]
pub struct Undo {
    pub id: DisplayId,
    pub code: VcpCode,
    pub value: u16,
}

// ── Refusing ───────────────────────────────────────────────────────────────

/// The destructive code that a setting names, where it names one.
pub open spec fn destructive_setting(key: Seq<char>) -> Option<VcpCode> {
    match vcp::code_parsed(key) {
        Some(c) if vcp::destructive(c) => Some(c),
        _ => None,
    }
}

/// The first destructive code among settings.
pub open spec fn destructive_among(settings: Seq<(String, u16)>) -> Option<VcpCode>
    decreases settings.len(),
{
    if settings.len() == 0 {
        None
    } else {
        match destructive_among(settings.drop_last()) {
            Some(c) => Some(c),
            None => destructive_setting(settings.last().0@),
        }
    }
}

/// The first destructive code in a profile.
pub open spec fn destructive_in(displays: Seq<DisplayProfile>) -> Option<VcpCode>
    decreases displays.len(),
{
    if displays.len() == 0 {
        None
    } else {
        match destructive_in(displays.drop_last()) {
            Some(c) => Some(c),
            None => destructive_among(displays.last().settings.listed()),
        }
    }
}

/// What is first in a part is first in the whole.
proof fn lemma_first_among(settings: Seq<(String, u16)>, k: int)
    requires
        0 <= k <= settings.len(),
        destructive_among(settings.take(k)) is Some,
    ensures
        destructive_among(settings) == destructive_among(settings.take(k)),
    decreases settings.len() - k,
{
    if k == settings.len() {
        assert(settings.take(k) =~= settings);
    } else {
        assert(settings.take(k + 1).drop_last() =~= settings.take(k));
        lemma_first_among(settings, k + 1);
    }
}

/// What is first in a part is first in the whole.
proof fn lemma_first_in(displays: Seq<DisplayProfile>, k: int)
    requires
        0 <= k <= displays.len(),
        destructive_in(displays.take(k)) is Some,
    ensures
        destructive_in(displays) == destructive_in(displays.take(k)),
    decreases displays.len() - k,
{
    if k == displays.len() {
        assert(displays.take(k) =~= displays);
    } else {
        assert(displays.take(k + 1).drop_last() =~= displays.take(k));
        lemma_first_in(displays, k + 1);
    }
}

/// Find the first destructive code in a profile.
pub fn find_destructive(displays: &Vec<DisplayProfile>) -> (r: Option<VcpCode>)
    ensures
        r == destructive_in(displays@),
{
    let mut i: usize = 0;
    while i < displays.len()
        invariant
            i <= displays@.len(),
            destructive_in(displays@.take(i as int)) is None,
        decreases displays@.len() - i,
    {
        assert(displays@.take(i + 1).drop_last() =~= displays@.take(i as int));
        let settings = &displays[i].settings;
        let ghost all = settings.listed();
        let size: usize = settings.len();
        let mut j: usize = 0;
        while j < size
            invariant
                i < displays@.len(),
                *settings == displays@[i as int].settings,
                j <= size,
                size == all.len(),
                all == settings.listed(),
                destructive_among(all.take(j as int)) is None,
                destructive_in(displays@.take(i as int)) is None,
                displays@.take(i + 1).drop_last() == displays@.take(i as int),
            decreases size - j,
        {
            assert(all.take(j + 1).drop_last() =~= all.take(j as int));
            if let Some(code) = vcp::parse_code(settings.key(j).as_str()) {
                if code.is_destructive() {
                    proof {
                        lemma_first_among(all, j + 1);
                        lemma_first_in(displays@, i + 1);
                    }
                    return Some(code);
                }
            }
            j = j + 1;
        }
        assert(all.take(j as int) =~= all);
        i = i + 1;
    }
    assert(displays@.take(i as int) =~= displays@);
    None
}

// ── One setting on one display ─────────────────────────────────────────────

/// How many calls a setting that goes through takes.
pub open spec fn calls_each(verify: bool) -> int {
    if verify {
        3
    } else {
        2
    }
}

/// Whether `cs` is a setting that was sent: read, written, and read back where
/// that is asked for.
pub open spec fn put(cs: Seq<Call>, id: DisplayId, code: VcpCode, value: u16, verify: bool) -> bool {
    &&& cs.len() == calls_each(verify)
    &&& engine::asks(cs[0], id, code)
    &&& engine::sent(cs[1], id, code, value)
    &&& verify ==> engine::asks(cs[2], id, code)
}

/// How to undo a setting: what was read before it was written, if anything was.
pub open spec fn undo_of(before: model::Result<(u16, u16)>, id: DisplayId, code: VcpCode) -> Seq<
    Undo,
> {
    match before {
        Ok((current, _)) => seq![Undo { id, code, value: current }],
        Err(_) => Seq::empty(),
    }
}

/// What became of a setting, by the value read back. A value that cannot be read
/// back is absence of evidence.
pub open spec fn status_of(back: model::Result<(u16, u16)>, code: VcpCode, value: u16) -> ApplyStatus {
    match back {
        Ok((current, _)) => if engine::matches_written(vcp::code_kind(code), current, value) {
            ApplyStatus::Applied
        } else {
            ApplyStatus::Ignored
        },
        Err(_) => ApplyStatus::Unverified,
    }
}

/// What became of a setting that was sent.
pub open spec fn fate(cs: Seq<Call>, code: VcpCode, value: u16, verify: bool) -> ApplyStatus {
    if verify {
        status_of(cs[2]->GetVcp_result, code, value)
    } else {
        ApplyStatus::Unverified
    }
}

/// Whether an outcome reports a setting.
pub open spec fn reports(
    o: ApplyOutcome,
    selector: Seq<char>,
    id: DisplayId,
    code: VcpCode,
    value: u16,
    status: ApplyStatus,
) -> bool {
    &&& o.display == Some(id.0)
    &&& o.selector@ == selector
    &&& o.code == vcp::code_number(code)
    &&& o.name@ == vcp::code_label(code)
    &&& o.value == value
    &&& o.status == status
}

/// Whether an outcome reports a display that is not attached.
pub open spec fn reports_absent(o: ApplyOutcome, selector: Seq<char>) -> bool {
    &&& o.display is None
    &&& o.selector@ == selector
    &&& o.code == 0
    &&& o.name@.len() == 0
    &&& o.value == 0
    &&& o.status == ApplyStatus::NotConnected
}

/// Whether an event puts a value back.
pub open spec fn puts_back(e: Call, u: Undo) -> bool {
    e matches Call::SetVcp { id, code, value, result } && id == u.id && code == u.code && value
        == u.value
}

/// Whether `cs` is everything undone, the last change first.
pub open spec fn rolled_back(cs: Seq<Call>, undo: Seq<Undo>) -> bool {
    &&& cs.len() == undo.len()
    &&& forall|i: int| 0 <= i < cs.len() ==> puts_back(#[trigger] cs[i], undo[undo.len() - 1 - i])
}

/// How many writes went through.
pub open spec fn restored(cs: Seq<Call>) -> nat
    decreases cs.len(),
{
    if cs.len() == 0 {
        0
    } else if cs.last()->SetVcp_result is Ok {
        restored(cs.drop_last()) + 1
    } else {
        restored(cs.drop_last())
    }
}

/// How many outcomes report a setting that was written.
pub open spec fn changed(outcomes: Seq<ApplyOutcome>) -> nat
    decreases outcomes.len(),
{
    if outcomes.len() == 0 {
        0
    } else if outcomes.last().display is Some {
        changed(outcomes.drop_last()) + 1
    } else {
        changed(outcomes.drop_last())
    }
}

/// Count the outcomes that report a setting that was written.
fn count_changed(outcomes: &Vec<ApplyOutcome>) -> (n: usize)
    ensures
        n == changed(outcomes@),
{
    let mut n: usize = 0;
    let mut i: usize = 0;
    while i < outcomes.len()
        invariant
            n <= i <= outcomes@.len(),
            n == changed(outcomes@.take(i as int)),
        decreases outcomes@.len() - i,
    {
        assert(outcomes@.take(i + 1).drop_last() =~= outcomes@.take(i as int));
        if outcomes[i].display.is_some() {
            n = n + 1;
        }
        i = i + 1;
    }
    assert(outcomes@.take(i as int) =~= outcomes@);
    n
}

/// What is said of a rollback: how many changes were put back, of all that were
/// made. Those that could not be read beforehand are made and not put back.
pub open spec fn rollback_text(back: nat, of: nat) -> Seq<char> {
    "; rolled back "@ + text::decimal(back) + " of "@ + text::decimal(of) + " earlier change(s)"@
}

/// Put a rollback in words.
fn write_rollback(out: &mut String, back: usize, of: usize)
    ensures
        final(out)@ == old(out)@ + rollback_text(back as nat, of as nat),
{
    let ghost head = out@;
    out.append("; rolled back ");
    out.append(text::write_decimal(back as u64).as_str());
    out.append(" of ");
    out.append(text::write_decimal(of as u64).as_str());
    out.append(" earlier change(s)");
    assert(out@ =~= head + rollback_text(back as nat, of as nat));
}

/// What is said of a write that failed.
pub open spec fn write_failure_text(
    why: model::Error,
    code: VcpCode,
    id: DisplayId,
    back: nat,
    of: nat,
) -> Seq<char> {
    model::error_text(why) + " — applying "@ + vcp::code_label(code) + " to display "@
        + text::decimal(id.0 as nat) + rollback_text(back, of)
}

/// Whether `cs` is a setting that ended the whole application: its code is none,
/// or the write failed and everything before it was undone. `done` is what had
/// been reported before.
pub open spec fn broke(
    cs: Seq<Call>,
    id: DisplayId,
    key: Seq<char>,
    value: u16,
    undo: Seq<Undo>,
    done: Seq<ApplyOutcome>,
    why: EngineError,
) -> bool {
    match vcp::code_parsed(key) {
        None => cs.len() == 0 && (why matches EngineError::BadCode(s) && s@ == key),
        Some(code) => {
            &&& cs.len() == 2 + undo.len()
            &&& engine::asks(cs[0], id, code)
            &&& rolled_back(cs.skip(2), undo)
            &&& exists|e: model::Error| #[trigger]
                engine::failed_to_send(cs[1], id, code, value, e) && (why matches
                    EngineError::Backend(model::Error::Transport(s)) && s@ == write_failure_text(
                    e,
                    code,
                    id,
                    restored(cs.skip(2)),
                    changed(done),
                ))
        },
    }
}

/// Whether `cs` is everything undone because the platform failed to say which
/// displays there are. `done` is what had been reported before.
pub open spec fn gave_up(
    cs: Seq<Call>,
    e: model::Error,
    undo: Seq<Undo>,
    done: Seq<ApplyOutcome>,
    why: EngineError,
) -> bool {
    &&& rolled_back(cs, undo)
    &&& if changed(done) == 0 {
        why == EngineError::Backend(e)
    } else {
        why matches EngineError::Backend(model::Error::Transport(s)) && s@ == model::error_text(e)
            + rollback_text(restored(cs), changed(done))
    }
}

impl<B: DisplayBackend> Engine<B> {
    /// Best-effort restore. Returns how many were put back.
    fn rollback(&mut self, undo: &Vec<Undo>) -> (n: usize)
        ensures
            final(self).rest_kept(*old(self)),
            final(self).monitors == old(self).monitors,
            final(self).follows(*old(self)),
            rolled_back(final(self).calls_since(*old(self)), undo@),
            n == restored(final(self).calls_since(*old(self))),
    {
        let ghost c0 = self.backend.calls();
        let mut n: usize = 0;
        let size: usize = undo.len();
        let mut i: usize = size;
        proof {
            trace::lemma_same(c0);
        }
        while i > 0
            invariant
                i <= size,
                size == undo@.len(),
                n <= size - i,
                c0 == old(self).backend.calls(),
                self.rest_kept(*old(self)),
                self.monitors == old(self).monitors,
                trace::extends(c0, self.backend.calls()),
                trace::since(c0, self.backend.calls()).len() == undo@.len() - i,
                forall|k: int|
                    0 <= k < undo@.len() - i ==> puts_back(
                        #[trigger] trace::since(c0, self.backend.calls())[k],
                        undo@[undo@.len() - 1 - k],
                    ),
                n == restored(trace::since(c0, self.backend.calls())),
            decreases i,
        {
            let u = undo[i - 1];
            let ghost c1 = self.backend.calls();
            let ghost done = trace::since(c0, c1);
            let wrote = self.backend.set_vcp(u.id, u.code, u.value);
            let ghost c2 = self.backend.calls();
            let ghost event = Call::SetVcp {
                id: u.id,
                code: u.code,
                value: u.value,
                result: wrote,
            };
            proof {
                trace::lemma_one(c1, event);
                trace::lemma_chain(c0, c1, c2);
                assert(trace::since(c0, c2).drop_last() =~= done);
                assert forall|k: int| 0 <= k < undo@.len() - (i - 1) implies puts_back(
                    #[trigger] trace::since(c0, c2)[k],
                    undo@[undo@.len() - 1 - k],
                ) by {
                    if k < done.len() {
                        assert(trace::since(c0, c2)[k] == done[k]);
                    } else {
                        assert(trace::since(c0, c2)[k] == event);
                    }
                }
            }
            if wrote.is_ok() {
                n = n + 1;
            }
            i = i - 1;
        }
        n
    }

    /// Apply one setting to one display.
    fn apply_setting(
        &mut self,
        id: DisplayId,
        key: &str,
        value: u16,
        selector: &str,
        verify: bool,
        undo: &mut Vec<Undo>,
        outcomes: &mut Vec<ApplyOutcome>,
    ) -> (r: Result<()>)
        ensures
            final(self).rest_kept(*old(self)),
            final(self).monitors == old(self).monitors,
            final(self).follows(*old(self)),
            match r {
                Ok(_) => {
                    let cs = final(self).calls_since(*old(self));
                    &&& vcp::code_parsed(key@) matches Some(code) && {
                        &&& put(cs, id, code, value, verify)
                        &&& final(undo)@ == old(undo)@ + undo_of(cs[0]->GetVcp_result, id, code)
                        &&& final(outcomes)@.len() == old(outcomes)@.len() + 1
                        &&& final(outcomes)@.drop_last() == old(outcomes)@
                        &&& reports(
                            final(outcomes)@.last(),
                            selector@,
                            id,
                            code,
                            value,
                            fate(cs, code, value, verify),
                        )
                    }
                },
                Err(e) => broke(
                    final(self).calls_since(*old(self)),
                    id,
                    key@,
                    value,
                    old(undo)@,
                    old(outcomes)@,
                    e,
                ),
            },
    {
        let ghost c0 = self.backend.calls();
        let ghost prior = outcomes@;
        let code = match vcp::parse_code(key) {
            Some(c) => c,
            None => {
                proof {
                    trace::lemma_same(c0);
                }
                return Err(EngineError::BadCode(text::own(key)));
            },
        };
        let before = self.backend.get_vcp(id, code);
        let ghost c1 = self.backend.calls();
        let wrote = self.backend.set_vcp(id, code, value);
        let ghost c2 = self.backend.calls();
        proof {
            trace::lemma_one(c0, Call::GetVcp { id, code, result: before });
            trace::lemma_one(c1, Call::SetVcp { id, code, value, result: wrote });
            trace::lemma_chain(c0, c1, c2);
        }
        if let Err(e) = wrote {
            // Transport failure: undo what this call changed.
            let back: usize = self.rollback(undo);
            let ghost c3 = self.backend.calls();
            proof {
                trace::lemma_chain(c0, c2, c3);
                assert(trace::since(c0, c3).skip(2) =~= trace::since(c2, c3));
                assert(trace::since(c0, c3)[1] == trace::since(c0, c2)[1]);
                assert(trace::since(c0, c3)[0] == trace::since(c0, c2)[0]);
                assert(engine::failed_to_send(trace::since(c0, c3)[1], id, code, value, e));
            }
            let mut out = e.message();
            out.append(" — applying ");
            out.append(code.display_name().as_str());
            out.append(" to display ");
            out.append(id.describe().as_str());
            write_rollback(&mut out, back, count_changed(outcomes));
            return Err(EngineError::Backend(model::Error::Transport(out)));
        }
        let ghost undone = undo@;
        if let Ok((current, _)) = before {
            undo.push(Undo { id, code, value: current });
        }
        assert(undo@ =~= undone + undo_of(before, id, code));
        let status = if !verify {
            ApplyStatus::Unverified
        } else {
            let back = self.backend.get_vcp(id, code);
            let ghost c3 = self.backend.calls();
            proof {
                trace::lemma_one(c2, Call::GetVcp { id, code, result: back });
                trace::lemma_chain(c0, c2, c3);
                assert(trace::since(c0, c3)[0] == trace::since(c0, c2)[0]);
                assert(trace::since(c0, c3)[1] == trace::since(c0, c2)[1]);
            }
            match back {
                Ok((current, _)) => if engine::value_matches(code.kind(), current, value) {
                    ApplyStatus::Applied
                } else {
                    ApplyStatus::Ignored
                },
                Err(_) => ApplyStatus::Unverified,
            }
        };
        outcomes.push(
            ApplyOutcome {
                display: Some(id.0),
                selector: text::own(selector),
                code: code.code(),
                name: code.display_name(),
                value,
                status,
            },
        );
        assert(outcomes@.drop_last() =~= prior);
        Ok(())
    }
}

// ── All settings on one display ────────────────────────────────────────────

/// Whether `cs` is every setting put on a display, in order.
pub open spec fn put_all(
    cs: Seq<Call>,
    id: DisplayId,
    settings: Seq<(String, u16)>,
    selector: Seq<char>,
    verify: bool,
    undo: Seq<Undo>,
    outcomes: Seq<ApplyOutcome>,
) -> bool
    decreases settings.len(),
{
    if settings.len() == 0 {
        cs.len() == 0 && undo.len() == 0 && outcomes.len() == 0
    } else {
        let n = cs.len() - calls_each(verify);
        let block = cs.skip(n);
        let value = settings.last().1;
        &&& n >= 0
        &&& vcp::code_parsed(settings.last().0@) matches Some(code) && {
            let u = undo_of(block[0]->GetVcp_result, id, code);
            let k = undo.len() - u.len();
            &&& put(block, id, code, value, verify)
            &&& k >= 0
            &&& undo.skip(k) == u
            &&& outcomes.len() > 0
            &&& reports(
                outcomes.last(),
                selector,
                id,
                code,
                value,
                fate(block, code, value, verify),
            )
            &&& put_all(
                cs.take(n),
                id,
                settings.drop_last(),
                selector,
                verify,
                undo.take(k),
                outcomes.drop_last(),
            )
        }
    }
}

/// Whether `cs` is settings put on a display up to one that ended the whole
/// application. `undo` is what was there to undo before, and `done` what had been
/// reported.
pub open spec fn broke_on(
    cs: Seq<Call>,
    id: DisplayId,
    settings: Seq<(String, u16)>,
    selector: Seq<char>,
    verify: bool,
    undo: Seq<Undo>,
    done: Seq<ApplyOutcome>,
    why: EngineError,
) -> bool {
    exists|m: int, j: int, more: Seq<Undo>, outcomes: Seq<ApplyOutcome>|
        {
            &&& 0 <= m <= cs.len()
            &&& 0 <= j < settings.len()
            &&& #[trigger] put_all(
                cs.take(m),
                id,
                settings.take(j),
                selector,
                verify,
                more,
                outcomes,
            )
            &&& broke(
                cs.skip(m),
                id,
                settings[j].0@,
                settings[j].1,
                undo + more,
                done + outcomes,
                why,
            )
        }
}

impl<B: DisplayBackend> Engine<B> {
    /// Apply all settings of one display.
    fn apply_to(
        &mut self,
        id: DisplayId,
        d: &DisplayProfile,
        verify: bool,
        undo: &mut Vec<Undo>,
        outcomes: &mut Vec<ApplyOutcome>,
    ) -> (r: Result<()>)
        ensures
            final(self).rest_kept(*old(self)),
            final(self).monitors == old(self).monitors,
            final(self).follows(*old(self)),
            match r {
                Ok(_) => {
                    &&& trace::extends(old(undo)@, final(undo)@)
                    &&& trace::extends(old(outcomes)@, final(outcomes)@)
                    &&& put_all(
                        final(self).calls_since(*old(self)),
                        id,
                        d.settings.listed(),
                        d.selector@,
                        verify,
                        trace::since(old(undo)@, final(undo)@),
                        trace::since(old(outcomes)@, final(outcomes)@),
                    )
                },
                Err(e) => broke_on(
                    final(self).calls_since(*old(self)),
                    id,
                    d.settings.listed(),
                    d.selector@,
                    verify,
                    old(undo)@,
                    old(outcomes)@,
                    e,
                ),
            },
    {
        let ghost c0 = self.backend.calls();
        let ghost u0 = undo@;
        let ghost o0 = outcomes@;
        let ghost all = d.settings.listed();
        let size: usize = d.settings.len();
        let mut j: usize = 0;
        proof {
            trace::lemma_same(c0);
            trace::lemma_same(u0);
            trace::lemma_same(o0);
        }
        while j < size
            invariant
                j <= size,
                size == all.len(),
                all == d.settings.listed(),
                c0 == old(self).backend.calls(),
                u0 == old(undo)@,
                o0 == old(outcomes)@,
                self.rest_kept(*old(self)),
                self.monitors == old(self).monitors,
                trace::extends(c0, self.backend.calls()),
                trace::extends(u0, undo@),
                trace::extends(o0, outcomes@),
                put_all(
                    trace::since(c0, self.backend.calls()),
                    id,
                    all.take(j as int),
                    d.selector@,
                    verify,
                    trace::since(u0, undo@),
                    trace::since(o0, outcomes@),
                ),
            decreases size - j,
        {
            let ghost c1 = self.backend.calls();
            let ghost u1 = undo@;
            let ghost o1 = outcomes@;
            let key = d.settings.key(j);
            let value: u16 = *d.settings.value(j);
            let step = self.apply_setting(
                id,
                key.as_str(),
                value,
                d.selector.as_str(),
                verify,
                undo,
                outcomes,
            );
            let ghost c2 = self.backend.calls();
            proof {
                trace::lemma_chain(c0, c1, c2);
            }
            match step {
                Ok(_) => {
                    proof {
                        let cs = trace::since(c0, c2);
                        let n = cs.len() - calls_each(verify);
                        assert(cs.skip(n) == trace::since(c1, c2));
                        assert(cs.take(n) == trace::since(c0, c1));
                        assert(all.take(j + 1).drop_last() =~= all.take(j as int));
                        assert(all.take(j + 1).last() == all[j as int]);
                        let u2 = undo@;
                        let o2 = outcomes@;
                        assert(u2.take(u0.len() as int) =~= u1.take(u0.len() as int));
                        assert(o2.take(o0.len() as int) =~= o0) by {
                            assert(o2.drop_last().take(o0.len() as int) =~= o2.take(
                                o0.len() as int,
                            ));
                        }
                        let code = vcp::code_parsed(key@)->Some_0;
                        let u = undo_of(trace::since(c1, c2)[0]->GetVcp_result, id, code);
                        let k = trace::since(u0, u2).len() - u.len();
                        assert(trace::since(u0, u2).skip(k) =~= u);
                        assert(trace::since(u0, u2).take(k) =~= trace::since(u0, u1));
                        assert(trace::since(o0, o2).drop_last() =~= trace::since(o0, o1));
                        assert(trace::since(o0, o2).last() == o2.last());
                    }
                },
                Err(e) => {
                    proof {
                        let m = trace::since(c0, c1).len() as int;
                        assert(u0 + trace::since(u0, u1) =~= u1);
                        assert(o0 + trace::since(o0, o1) =~= o1);
                        assert(put_all(
                            trace::since(c0, c2).take(m),
                            id,
                            all.take(j as int),
                            d.selector@,
                            verify,
                            trace::since(u0, u1),
                            trace::since(o0, o1),
                        ));
                    }
                    return Err(e);
                },
            }
            j = j + 1;
        }
        assert(all.take(j as int) =~= all);
        Ok(())
    }
}

// ── Several displays ───────────────────────────────────────────────────────

/// Whether `cs` is every setting put on each of several displays in turn.
pub open spec fn put_on_each(
    cs: Seq<Call>,
    ids: Seq<DisplayId>,
    settings: Seq<(String, u16)>,
    selector: Seq<char>,
    verify: bool,
    undo: Seq<Undo>,
    outcomes: Seq<ApplyOutcome>,
) -> bool
    decreases ids.len(),
{
    if ids.len() == 0 {
        cs.len() == 0 && undo.len() == 0 && outcomes.len() == 0
    } else {
        exists|m: int, k: int, j: int|
            {
                &&& 0 <= m <= cs.len()
                &&& 0 <= k <= undo.len()
                &&& 0 <= j <= outcomes.len()
                &&& put_on_each(
                    cs.take(m),
                    ids.drop_last(),
                    settings,
                    selector,
                    verify,
                    undo.take(k),
                    outcomes.take(j),
                )
                &&& #[trigger] put_all(
                    cs.skip(m),
                    ids.last(),
                    settings,
                    selector,
                    verify,
                    undo.skip(k),
                    outcomes.skip(j),
                )
            }
    }
}

/// Whether `cs` is settings put on several displays up to one that ended the
/// whole application.
pub open spec fn broke_among(
    cs: Seq<Call>,
    ids: Seq<DisplayId>,
    settings: Seq<(String, u16)>,
    selector: Seq<char>,
    verify: bool,
    undo: Seq<Undo>,
    done: Seq<ApplyOutcome>,
    why: EngineError,
) -> bool {
    exists|m: int, i: int, more: Seq<Undo>, outcomes: Seq<ApplyOutcome>|
        {
            &&& 0 <= m <= cs.len()
            &&& 0 <= i < ids.len()
            &&& #[trigger] put_on_each(
                cs.take(m),
                ids.take(i),
                settings,
                selector,
                verify,
                more,
                outcomes,
            )
            &&& broke_on(
                cs.skip(m),
                ids[i],
                settings,
                selector,
                verify,
                undo + more,
                done + outcomes,
                why,
            )
        }
}

/// Settings put on some displays and on one more are put on all of them.
proof fn lemma_put_on_one_more(
    cs: Seq<Call>,
    m: int,
    ids: Seq<DisplayId>,
    settings: Seq<(String, u16)>,
    selector: Seq<char>,
    verify: bool,
    undo: Seq<Undo>,
    k: int,
    outcomes: Seq<ApplyOutcome>,
    j: int,
)
    requires
        ids.len() > 0,
        0 <= m <= cs.len(),
        0 <= k <= undo.len(),
        0 <= j <= outcomes.len(),
        put_on_each(
            cs.take(m),
            ids.drop_last(),
            settings,
            selector,
            verify,
            undo.take(k),
            outcomes.take(j),
        ),
        put_all(
            cs.skip(m),
            ids.last(),
            settings,
            selector,
            verify,
            undo.skip(k),
            outcomes.skip(j),
        ),
    ensures
        put_on_each(cs, ids, settings, selector, verify, undo, outcomes),
{
}

/// Settings put on some displays up to one that ended the application.
proof fn lemma_broke_at_one(
    cs: Seq<Call>,
    m: int,
    ids: Seq<DisplayId>,
    i: int,
    settings: Seq<(String, u16)>,
    selector: Seq<char>,
    verify: bool,
    undo: Seq<Undo>,
    more: Seq<Undo>,
    done: Seq<ApplyOutcome>,
    outcomes: Seq<ApplyOutcome>,
    why: EngineError,
)
    requires
        0 <= m <= cs.len(),
        0 <= i < ids.len(),
        put_on_each(cs.take(m), ids.take(i), settings, selector, verify, more, outcomes),
        broke_on(
            cs.skip(m),
            ids[i],
            settings,
            selector,
            verify,
            undo + more,
            done + outcomes,
            why,
        ),
    ensures
        broke_among(cs, ids, settings, selector, verify, undo, done, why),
{
}

impl<B: DisplayBackend> Engine<B> {
    /// Apply all settings to each of several displays.
    #[verifier::rlimit(30)]
    fn apply_to_each(
        &mut self,
        ids: &Vec<DisplayId>,
        d: &DisplayProfile,
        verify: bool,
        undo: &mut Vec<Undo>,
        outcomes: &mut Vec<ApplyOutcome>,
    ) -> (r: Result<()>)
        ensures
            final(self).rest_kept(*old(self)),
            final(self).monitors == old(self).monitors,
            final(self).follows(*old(self)),
            match r {
                Ok(_) => {
                    &&& trace::extends(old(undo)@, final(undo)@)
                    &&& trace::extends(old(outcomes)@, final(outcomes)@)
                    &&& put_on_each(
                        final(self).calls_since(*old(self)),
                        ids@,
                        d.settings.listed(),
                        d.selector@,
                        verify,
                        trace::since(old(undo)@, final(undo)@),
                        trace::since(old(outcomes)@, final(outcomes)@),
                    )
                },
                Err(e) => broke_among(
                    final(self).calls_since(*old(self)),
                    ids@,
                    d.settings.listed(),
                    d.selector@,
                    verify,
                    old(undo)@,
                    old(outcomes)@,
                    e,
                ),
            },
    {
        let ghost c0 = self.backend.calls();
        let ghost u0 = undo@;
        let ghost o0 = outcomes@;
        let ghost all = d.settings.listed();
        let mut i: usize = 0;
        proof {
            trace::lemma_same(c0);
            trace::lemma_same(u0);
            trace::lemma_same(o0);
        }
        while i < ids.len()
            invariant
                i <= ids@.len(),
                all == d.settings.listed(),
                c0 == old(self).backend.calls(),
                u0 == old(undo)@,
                o0 == old(outcomes)@,
                self.rest_kept(*old(self)),
                self.monitors == old(self).monitors,
                trace::extends(c0, self.backend.calls()),
                trace::extends(u0, undo@),
                trace::extends(o0, outcomes@),
                put_on_each(
                    trace::since(c0, self.backend.calls()),
                    ids@.take(i as int),
                    all,
                    d.selector@,
                    verify,
                    trace::since(u0, undo@),
                    trace::since(o0, outcomes@),
                ),
            decreases ids@.len() - i,
        {
            let ghost c1 = self.backend.calls();
            let ghost u1 = undo@;
            let ghost o1 = outcomes@;
            let step = self.apply_to(ids[i], d, verify, undo, outcomes);
            let ghost c2 = self.backend.calls();
            let ghost m = trace::since(c0, c1).len() as int;
            proof {
                trace::lemma_chain(c0, c1, c2);
            }
            match step {
                Ok(_) => {
                    proof {
                        let u2 = undo@;
                        let o2 = outcomes@;
                        trace::lemma_chain(u0, u1, u2);
                        trace::lemma_chain(o0, o1, o2);
                        assert(ids@.take(i + 1).drop_last() =~= ids@.take(i as int));
                        lemma_put_on_one_more(
                            trace::since(c0, c2),
                            m,
                            ids@.take(i + 1),
                            all,
                            d.selector@,
                            verify,
                            trace::since(u0, u2),
                            trace::since(u0, u1).len() as int,
                            trace::since(o0, o2),
                            trace::since(o0, o1).len() as int,
                        );
                    }
                },
                Err(e) => {
                    proof {
                        assert(u0 + trace::since(u0, u1) =~= u1);
                        assert(o0 + trace::since(o0, o1) =~= o1);
                        lemma_broke_at_one(
                            trace::since(c0, c2),
                            m,
                            ids@,
                            i as int,
                            all,
                            d.selector@,
                            verify,
                            u0,
                            trace::since(u0, u1),
                            o0,
                            trace::since(o0, o1),
                            e,
                        );
                    }
                    return Err(e);
                },
            }
            i = i + 1;
        }
        assert(ids@.take(i as int) =~= ids@);
        Ok(())
    }
}

// ── One entry of a profile ─────────────────────────────────────────────────

/// Whether an error says that no display answers to a selector. A profile naming
/// a display that is not attached is normal (dock/undock), not a failure.
pub open spec fn absent(e: EngineError) -> bool {
    e is NoMatch || e is NoDisplays
}

/// Whether `cs` is one entry of a profile applied.
pub open spec fn entry_applied(
    cs: Seq<Call>,
    m0: Seq<Monitor>,
    m1: Seq<Monitor>,
    d: DisplayProfile,
    verify: bool,
    undo: Seq<Undo>,
    outcomes: Seq<ApplyOutcome>,
) -> bool {
    exists|m: int, ids: Result<Vec<DisplayId>>|
        {
            &&& 0 <= m <= cs.len()
            &&& #[trigger] engine::resolved(cs.take(m), m0, m1, d.selector@, ids)
            &&& match ids {
                Ok(v) => put_on_each(
                    cs.skip(m),
                    v@,
                    d.settings.listed(),
                    d.selector@,
                    verify,
                    undo,
                    outcomes,
                ),
                Err(e) => {
                    &&& absent(e)
                    &&& m == cs.len()
                    &&& undo.len() == 0
                    &&& outcomes.len() == 1
                    &&& reports_absent(outcomes[0], d.selector@)
                },
            }
        }
}

/// Whether `cs` is one entry of a profile that ended the whole application. A
/// platform that fails to say which displays there are has everything undone.
pub open spec fn entry_broke(
    cs: Seq<Call>,
    m0: Seq<Monitor>,
    m1: Seq<Monitor>,
    d: DisplayProfile,
    verify: bool,
    undo: Seq<Undo>,
    done: Seq<ApplyOutcome>,
    why: EngineError,
) -> bool {
    exists|m: int, ids: Result<Vec<DisplayId>>|
        {
            &&& 0 <= m <= cs.len()
            &&& #[trigger] engine::resolved(cs.take(m), m0, m1, d.selector@, ids)
            &&& match ids {
                Ok(v) => broke_among(
                    cs.skip(m),
                    v@,
                    d.settings.listed(),
                    d.selector@,
                    verify,
                    undo,
                    done,
                    why,
                ),
                Err(EngineError::Backend(e)) => gave_up(cs.skip(m), e, undo, done, why),
                Err(e) => !absent(e) && m == cs.len() && why == e,
            }
        }
}

impl<B: DisplayBackend> Engine<B> {
    /// Apply one entry of a profile.
    fn apply_entry(
        &mut self,
        d: &DisplayProfile,
        verify: bool,
        undo: &mut Vec<Undo>,
        outcomes: &mut Vec<ApplyOutcome>,
    ) -> (r: Result<()>)
        ensures
            final(self).rest_kept(*old(self)),
            final(self).follows(*old(self)),
            match r {
                Ok(_) => {
                    &&& trace::extends(old(undo)@, final(undo)@)
                    &&& trace::extends(old(outcomes)@, final(outcomes)@)
                    &&& entry_applied(
                        final(self).calls_since(*old(self)),
                        old(self).monitors@,
                        final(self).monitors@,
                        *d,
                        verify,
                        trace::since(old(undo)@, final(undo)@),
                        trace::since(old(outcomes)@, final(outcomes)@),
                    )
                },
                Err(e) => entry_broke(
                    final(self).calls_since(*old(self)),
                    old(self).monitors@,
                    final(self).monitors@,
                    *d,
                    verify,
                    old(undo)@,
                    old(outcomes)@,
                    e,
                ),
            },
    {
        let ghost c0 = self.backend.calls();
        let ghost m0 = self.monitors@;
        let found = self.resolve(d.selector.as_str());
        let ghost c1 = self.backend.calls();
        let ghost m1 = self.monitors@;
        let ghost m = trace::since(c0, c1).len() as int;
        let ghost asked = found;
        proof {
            trace::lemma_same(c1);
            trace::lemma_chain(c0, c1, c1);
            assert(engine::resolved(trace::since(c0, c1).take(m), m0, m1, d.selector@, found));
        }
        match found {
            Ok(ids) => {
                let r = self.apply_to_each(&ids, d, verify, undo, outcomes);
                proof {
                    let c2 = self.backend.calls();
                    trace::lemma_chain(c0, c1, c2);
                    assert(engine::resolved(
                        trace::since(c0, c2).take(m),
                        m0,
                        m1,
                        d.selector@,
                        asked,
                    ));
                }
                r
            },
            Err(e) => {
                let gone: bool = match &e {
                    EngineError::NoMatch(_) => true,
                    EngineError::NoDisplays => true,
                    _ => false,
                };
                if !gone {
                    return match e {
                        EngineError::Backend(f) => {
                            let back: usize = self.rollback(undo);
                            proof {
                                let c2 = self.backend.calls();
                                trace::lemma_chain(c0, c1, c2);
                                assert(engine::resolved(
                                    trace::since(c0, c2).take(m),
                                    m0,
                                    m1,
                                    d.selector@,
                                    asked,
                                ));
                            }
                            let of: usize = count_changed(outcomes);
                            if of == 0 {
                                Err(EngineError::Backend(f))
                            } else {
                                let mut out = f.message();
                                write_rollback(&mut out, back, of);
                                Err(EngineError::Backend(model::Error::Transport(out)))
                            }
                        },
                        other => Err(other),
                    };
                }
                let ghost o0 = outcomes@;
                let absence = ApplyOutcome {
                    display: None,
                    selector: d.selector.clone(),
                    code: 0,
                    name: String::new(),
                    value: 0,
                    status: ApplyStatus::NotConnected,
                };
                let ghost one = absence;
                outcomes.push(absence);
                proof {
                    trace::lemma_same(undo@);
                    trace::lemma_one(o0, one);
                }
                Ok(())
            },
        }
    }
}

// ── A whole profile ────────────────────────────────────────────────────────

/// Whether `cs` is the entries of a profile applied in order.
pub open spec fn entries_applied(
    cs: Seq<Call>,
    m0: Seq<Monitor>,
    m1: Seq<Monitor>,
    displays: Seq<DisplayProfile>,
    verify: bool,
    undo: Seq<Undo>,
    outcomes: Seq<ApplyOutcome>,
) -> bool
    decreases displays.len(),
{
    if displays.len() == 0 {
        cs.len() == 0 && m1 == m0 && undo.len() == 0 && outcomes.len() == 0
    } else {
        exists|m: int, k: int, j: int, mid: Seq<Monitor>|
            {
                &&& 0 <= m <= cs.len()
                &&& 0 <= k <= undo.len()
                &&& 0 <= j <= outcomes.len()
                &&& entries_applied(
                    cs.take(m),
                    m0,
                    mid,
                    displays.drop_last(),
                    verify,
                    undo.take(k),
                    outcomes.take(j),
                )
                &&& #[trigger] entry_applied(
                    cs.skip(m),
                    mid,
                    m1,
                    displays.last(),
                    verify,
                    undo.skip(k),
                    outcomes.skip(j),
                )
            }
    }
}

/// Whether `cs` is the entries of a profile applied up to one that ended it.
pub open spec fn entries_broke(
    cs: Seq<Call>,
    m0: Seq<Monitor>,
    m1: Seq<Monitor>,
    displays: Seq<DisplayProfile>,
    verify: bool,
    why: EngineError,
) -> bool {
    exists|m: int, i: int, mid: Seq<Monitor>, undo: Seq<Undo>, outcomes: Seq<ApplyOutcome>|
        {
            &&& 0 <= m <= cs.len()
            &&& 0 <= i < displays.len()
            &&& #[trigger] entries_applied(
                cs.take(m),
                m0,
                mid,
                displays.take(i),
                verify,
                undo,
                outcomes,
            )
            &&& entry_broke(cs.skip(m), mid, m1, displays[i], verify, undo, outcomes, why)
        }
}

/// Whether `cs` is all entries of a profile applied, with these outcomes.
pub open spec fn completed(
    cs: Seq<Call>,
    m0: Seq<Monitor>,
    m1: Seq<Monitor>,
    displays: Seq<DisplayProfile>,
    verify: bool,
    outcomes: Seq<ApplyOutcome>,
) -> bool {
    exists|undo: Seq<Undo>| #[trigger]
        entries_applied(cs, m0, m1, displays, verify, undo, outcomes)
}

/// Whether `cs` is what applying a profile does. One that would write something
/// that cannot be undone is refused before anything is touched, unless the user
/// confirmed it.
pub open spec fn ran(
    cs: Seq<Call>,
    m0: Seq<Monitor>,
    m1: Seq<Monitor>,
    name: Seq<char>,
    displays: Seq<DisplayProfile>,
    verify: bool,
    yes: bool,
    r: Result<api::ApplyResult>,
) -> bool {
    if !yes && destructive_in(displays) is Some {
        &&& cs.len() == 0
        &&& m1 == m0
        &&& r matches Err(EngineError::DestructiveProfile { name: n, code }) && n@ == name && code@
            == vcp::code_label(destructive_in(displays)->Some_0)
    } else {
        match r {
            Ok(done) => done.profile@ == name && completed(
                cs,
                m0,
                m1,
                displays,
                verify,
                done.outcomes@,
            ),
            Err(e) => entries_broke(cs, m0, m1, displays, verify, e),
        }
    }
}

/// Whether `cs` is what a request to apply a profile does, given what reading its
/// file came to.
pub open spec fn applied(
    cs: Seq<Call>,
    m0: Seq<Monitor>,
    m1: Seq<Monitor>,
    dir: Seq<u8>,
    name: Seq<char>,
    found: Reading,
    verify: bool,
    yes: bool,
    r: Result<api::ApplyResult>,
) -> bool {
    exists|loaded: profile::Result<Profile>| #[trigger]
        profile::loads(dir, name, found, loaded) && match loaded {
            Ok(p) => ran(cs, m0, m1, name, p.displays@, verify, yes, r),
            Err(e) => cs.len() == 0 && m1 == m0 && r == Err::<api::ApplyResult, EngineError>(
                EngineError::Profile(e),
            ),
        }
}

impl<B: DisplayBackend> Engine<B> {
    /// Apply a profile, given what reading its file came to.
    pub fn profile_apply(&mut self, name: &str, found: Reading, verify: bool, yes: bool) -> (r:
        Result<api::ApplyResult>)
        ensures
            final(self).rest_kept(*old(self)),
            final(self).follows(*old(self)),
            applied(
                final(self).calls_since(*old(self)),
                old(self).monitors@,
                final(self).monitors@,
                old(self).profiles.dir@,
                name@,
                found,
                verify,
                yes,
                r,
            ),
    {
        let ghost c0 = self.backend.calls();
        proof {
            trace::lemma_same(c0);
        }
        let loaded = self.profiles.load(name, found);
        assert(profile::loads(self.profiles.dir@, name@, found, loaded));
        match loaded {
            Ok(p) => self.run_profile(name, &p, verify, yes),
            Err(e) => Err(EngineError::Profile(e)),
        }
    }

    /// Apply a profile that was loaded.
    pub fn run_profile(&mut self, name: &str, profile: &Profile, verify: bool, yes: bool) -> (r:
        Result<api::ApplyResult>)
        ensures
            final(self).rest_kept(*old(self)),
            final(self).follows(*old(self)),
            ran(
                final(self).calls_since(*old(self)),
                old(self).monitors@,
                final(self).monitors@,
                name@,
                profile.displays@,
                verify,
                yes,
                r,
            ),
    {
        let ghost c0 = self.backend.calls();
        let ghost m0 = self.monitors@;
        let ghost all = profile.displays@;
        proof {
            trace::lemma_same(c0);
        }
        // Refuse the whole profile before touching anything, rather than
        // discovering a destructive code halfway through.
        if !yes {
            if let Some(code) = find_destructive(&profile.displays) {
                return Err(
                    EngineError::DestructiveProfile {
                        name: text::own(name),
                        code: code.display_name(),
                    },
                );
            }
        }
        let mut outcomes: Vec<ApplyOutcome> = Vec::new();
        let mut undo: Vec<Undo> = Vec::new();
        let mut i: usize = 0;
        while i < profile.displays.len()
            invariant
                i <= all.len(),
                all == profile.displays@,
                !(!yes && destructive_in(all) is Some),
                c0 == old(self).backend.calls(),
                m0 == old(self).monitors@,
                self.rest_kept(*old(self)),
                trace::extends(c0, self.backend.calls()),
                entries_applied(
                    trace::since(c0, self.backend.calls()),
                    m0,
                    self.monitors@,
                    all.take(i as int),
                    verify,
                    undo@,
                    outcomes@,
                ),
            decreases all.len() - i,
        {
            let ghost c1 = self.backend.calls();
            let ghost m1 = self.monitors@;
            let ghost u1 = undo@;
            let ghost o1 = outcomes@;
            let ghost m = trace::since(c0, c1).len() as int;
            let step = self.apply_entry(&profile.displays[i], verify, &mut undo, &mut outcomes);
            let ghost c2 = self.backend.calls();
            proof {
                trace::lemma_chain(c0, c1, c2);
            }
            match step {
                Ok(_) => {
                    proof {
                        assert(all.take(i + 1).drop_last() =~= all.take(i as int));
                        assert(entry_applied(
                            trace::since(c0, c2).skip(m),
                            m1,
                            self.monitors@,
                            all.take(i + 1).last(),
                            verify,
                            undo@.skip(u1.len() as int),
                            outcomes@.skip(o1.len() as int),
                        ));
                    }
                },
                Err(e) => {
                    assert(entries_applied(
                        trace::since(c0, c2).take(m),
                        m0,
                        m1,
                        all.take(i as int),
                        verify,
                        u1,
                        o1,
                    ));
                    return Err(e);
                },
            }
            i = i + 1;
        }
        assert(all.take(i as int) =~= all);
        assert(completed(self.calls_since(*old(self)), m0, self.monitors@, all, verify, outcomes@));
        Ok(api::ApplyResult { profile: text::own(name), outcomes })
    }
}

// ── Laws ───────────────────────────────────────────────────────────────────

/// A profile that would write something that cannot be undone touches nothing
/// unless the user confirmed it.
pub proof fn law_refused_profile_touches_nothing(
    cs: Seq<Call>,
    m0: Seq<Monitor>,
    m1: Seq<Monitor>,
    name: Seq<char>,
    displays: Seq<DisplayProfile>,
    verify: bool,
    r: Result<api::ApplyResult>,
)
    requires
        ran(cs, m0, m1, name, displays, verify, false, r),
        destructive_in(displays) is Some,
    ensures
        cs.len() == 0,
        r matches Err(EngineError::DestructiveProfile { .. }),
{
}

/// Without a read-back no setting is said to have been applied or ignored.
proof fn lemma_put_all_unverified(
    cs: Seq<Call>,
    id: DisplayId,
    settings: Seq<(String, u16)>,
    selector: Seq<char>,
    undo: Seq<Undo>,
    outcomes: Seq<ApplyOutcome>,
)
    requires
        put_all(cs, id, settings, selector, false, undo, outcomes),
    ensures
        forall|i: int|
            0 <= i < outcomes.len() ==> (#[trigger] outcomes[i]).status == ApplyStatus::Unverified,
    decreases settings.len(),
{
    if settings.len() > 0 {
        let n = cs.len() - calls_each(false);
        let code = vcp::code_parsed(settings.last().0@)->Some_0;
        let k = undo.len() - undo_of(cs.skip(n)[0]->GetVcp_result, id, code).len();
        lemma_put_all_unverified(
            cs.take(n),
            id,
            settings.drop_last(),
            selector,
            undo.take(k),
            outcomes.drop_last(),
        );
        assert forall|i: int| 0 <= i < outcomes.len() implies (#[trigger] outcomes[i]).status
            == ApplyStatus::Unverified by {
            if i < outcomes.len() - 1 {
                assert(outcomes.drop_last()[i] == outcomes[i]);
            }
        }
    }
}

/// The same of several displays.
proof fn lemma_put_on_each_unverified(
    cs: Seq<Call>,
    ids: Seq<DisplayId>,
    settings: Seq<(String, u16)>,
    selector: Seq<char>,
    undo: Seq<Undo>,
    outcomes: Seq<ApplyOutcome>,
)
    requires
        put_on_each(cs, ids, settings, selector, false, undo, outcomes),
    ensures
        forall|i: int|
            0 <= i < outcomes.len() ==> (#[trigger] outcomes[i]).status == ApplyStatus::Unverified,
    decreases ids.len(),
{
    if ids.len() > 0 {
        let (m, k, j) = choose|m: int, k: int, j: int|
            {
                &&& 0 <= m <= cs.len()
                &&& 0 <= k <= undo.len()
                &&& 0 <= j <= outcomes.len()
                &&& put_on_each(
                    cs.take(m),
                    ids.drop_last(),
                    settings,
                    selector,
                    false,
                    undo.take(k),
                    outcomes.take(j),
                )
                &&& #[trigger] put_all(
                    cs.skip(m),
                    ids.last(),
                    settings,
                    selector,
                    false,
                    undo.skip(k),
                    outcomes.skip(j),
                )
            };
        lemma_put_on_each_unverified(
            cs.take(m),
            ids.drop_last(),
            settings,
            selector,
            undo.take(k),
            outcomes.take(j),
        );
        lemma_put_all_unverified(
            cs.skip(m),
            ids.last(),
            settings,
            selector,
            undo.skip(k),
            outcomes.skip(j),
        );
        assert forall|i: int| 0 <= i < outcomes.len() implies (#[trigger] outcomes[i]).status
            == ApplyStatus::Unverified by {
            if i < j {
                assert(outcomes.take(j)[i] == outcomes[i]);
            } else {
                assert(outcomes.skip(j)[i - j] == outcomes[i]);
            }
        }
    }
}

/// Without verification nothing is claimed: every setting is reported as
/// unverified, and every absent display as not connected.
pub proof fn law_unverified_apply_claims_nothing(
    cs: Seq<Call>,
    m0: Seq<Monitor>,
    m1: Seq<Monitor>,
    displays: Seq<DisplayProfile>,
    undo: Seq<Undo>,
    outcomes: Seq<ApplyOutcome>,
)
    requires
        entries_applied(cs, m0, m1, displays, false, undo, outcomes),
    ensures
        forall|i: int|
            0 <= i < outcomes.len() ==> (#[trigger] outcomes[i]).status == ApplyStatus::Unverified
                || outcomes[i].status == ApplyStatus::NotConnected,
    decreases displays.len(),
{
    if displays.len() > 0 {
        let (m, k, j, mid) = choose|m: int, k: int, j: int, mid: Seq<Monitor>|
            {
                &&& 0 <= m <= cs.len()
                &&& 0 <= k <= undo.len()
                &&& 0 <= j <= outcomes.len()
                &&& entries_applied(
                    cs.take(m),
                    m0,
                    mid,
                    displays.drop_last(),
                    false,
                    undo.take(k),
                    outcomes.take(j),
                )
                &&& #[trigger] entry_applied(
                    cs.skip(m),
                    mid,
                    m1,
                    displays.last(),
                    false,
                    undo.skip(k),
                    outcomes.skip(j),
                )
            };
        law_unverified_apply_claims_nothing(
            cs.take(m),
            m0,
            mid,
            displays.drop_last(),
            undo.take(k),
            outcomes.take(j),
        );
        let d = displays.last();
        let (n, ids) = choose|n: int, ids: Result<Vec<DisplayId>>|
            {
                &&& 0 <= n <= cs.skip(m).len()
                &&& #[trigger] engine::resolved(cs.skip(m).take(n), mid, m1, d.selector@, ids)
                &&& match ids {
                    Ok(v) => put_on_each(
                        cs.skip(m).skip(n),
                        v@,
                        d.settings.listed(),
                        d.selector@,
                        false,
                        undo.skip(k),
                        outcomes.skip(j),
                    ),
                    Err(e) => {
                        &&& absent(e)
                        &&& n == cs.skip(m).len()
                        &&& undo.skip(k).len() == 0
                        &&& outcomes.skip(j).len() == 1
                        &&& reports_absent(outcomes.skip(j)[0], d.selector@)
                    },
                }
            };
        if let Ok(v) = ids {
            lemma_put_on_each_unverified(
                cs.skip(m).skip(n),
                v@,
                d.settings.listed(),
                d.selector@,
                undo.skip(k),
                outcomes.skip(j),
            );
        }
        assert forall|i: int| 0 <= i < outcomes.len() implies (#[trigger] outcomes[i]).status
            == ApplyStatus::Unverified || outcomes[i].status == ApplyStatus::NotConnected by {
            if i < j {
                assert(outcomes.take(j)[i] == outcomes[i]);
            } else {
                assert(outcomes.skip(j)[i - j] == outcomes[i]);
            }
        }
    }
}

/// After a failed write every value that was changed and had been read is put
/// back, the last change first.
pub proof fn law_failed_write_undoes_all(
    cs: Seq<Call>,
    id: DisplayId,
    key: Seq<char>,
    value: u16,
    undo: Seq<Undo>,
    done: Seq<ApplyOutcome>,
    why: EngineError,
    i: int,
)
    requires
        broke(cs, id, key, value, undo, done, why),
        vcp::code_parsed(key) is Some,
        0 <= i < undo.len(),
    ensures
        puts_back(cs[2 + i], undo[undo.len() - 1 - i]),
{
    assert(cs.skip(2)[i] == cs[2 + i]);
}

/// Whether a call failed in a way that ends an application: a write that failed,
/// or a platform that failed to say which displays there are.
pub open spec fn fails(e: Call) -> bool {
    match e {
        Call::SetVcp { id, code, value, result } => result is Err,
        Call::List { result } => result is Err,
        Call::OnlineIds { result } => result is Err,
        _ => false,
    }
}

/// Whether `write` went through right after `before` read the same code, and what
/// was read is there to undo.
pub open spec fn noted(before: Call, write: Call, undo: Seq<Undo>) -> bool {
    write matches Call::SetVcp { id, code, value, result } && result is Ok && (before matches
        Call::GetVcp { id: d, code: c, result: r } && d == id && c == code && (r matches Ok(v)
        ==> undo.contains(Undo { id, code, value: v.0 })))
}

/// Whether nothing of `cs` failed in a way that ends an application, and every
/// write can be undone as far as its code could be read.
#[verifier::opaque]
pub open spec fn all_noted(cs: Seq<Call>, undo: Seq<Undo>) -> bool {
    forall|i: int|
        0 <= i < cs.len() ==> !fails(#[trigger] cs[i]) && (cs[i] is SetVcp ==> i > 0 && noted(
            cs[i - 1],
            cs[i],
            undo,
        ))
}

/// What holds of two stretches of calls holds of both together.
proof fn lemma_noted_join(a: Seq<Call>, b: Seq<Call>, u: Seq<Undo>, w: Seq<Undo>)
    requires
        all_noted(a, u),
        all_noted(b, w),
    ensures
        all_noted(a + b, u + w),
{
    reveal(all_noted);
    let cs = a + b;
    assert forall|i: int| 0 <= i < cs.len() implies !fails(#[trigger] cs[i]) && (cs[i] is SetVcp
        ==> i > 0 && noted(cs[i - 1], cs[i], u + w)) by {
        if i < a.len() {
            assert(cs[i] == a[i]);
            assert forall|x: Undo| u.contains(x) implies (u + w).contains(x) by {
                let t = u.index_of(x);
                assert((u + w)[t] == x);
            }
        } else {
            let k = i - a.len();
            assert(cs[i] == b[k]);
            assert forall|x: Undo| w.contains(x) implies (u + w).contains(x) by {
                let t = w.index_of(x);
                assert((u + w)[u.len() + t] == x);
            }
        }
    }
}

/// Settings that were put on a display can be undone.
proof fn lemma_put_all_noted(
    cs: Seq<Call>,
    id: DisplayId,
    settings: Seq<(String, u16)>,
    selector: Seq<char>,
    verify: bool,
    undo: Seq<Undo>,
    outcomes: Seq<ApplyOutcome>,
)
    requires
        put_all(cs, id, settings, selector, verify, undo, outcomes),
    ensures
        all_noted(cs, undo),
    decreases settings.len(),
{
    if settings.len() > 0 {
        let n = cs.len() - calls_each(verify);
        let block = cs.skip(n);
        let code = vcp::code_parsed(settings.last().0@)->Some_0;
        let u = undo_of(block[0]->GetVcp_result, id, code);
        let k = undo.len() - u.len();
        lemma_put_all_noted(
            cs.take(n),
            id,
            settings.drop_last(),
            selector,
            verify,
            undo.take(k),
            outcomes.drop_last(),
        );
        assert(all_noted(block, u)) by {
            reveal(all_noted);
            if let Ok(v) = block[0]->GetVcp_result {
                assert(u[0] == Undo { id, code, value: v.0 });
            }
        }
        lemma_noted_join(cs.take(n), block, undo.take(k), u);
        assert(cs.take(n) + block =~= cs);
        assert(undo.take(k) + u =~= undo);
    } else {
        reveal(all_noted);
    }
}

/// Settings that were put on several displays can be undone.
#[verifier::rlimit(30)]
proof fn lemma_put_on_each_noted(
    cs: Seq<Call>,
    ids: Seq<DisplayId>,
    settings: Seq<(String, u16)>,
    selector: Seq<char>,
    verify: bool,
    undo: Seq<Undo>,
    outcomes: Seq<ApplyOutcome>,
)
    requires
        put_on_each(cs, ids, settings, selector, verify, undo, outcomes),
    ensures
        all_noted(cs, undo),
    decreases ids.len(),
{
    if ids.len() > 0 {
        let (m, k, j) = choose|m: int, k: int, j: int|
            {
                &&& 0 <= m <= cs.len()
                &&& 0 <= k <= undo.len()
                &&& 0 <= j <= outcomes.len()
                &&& put_on_each(
                    cs.take(m),
                    ids.drop_last(),
                    settings,
                    selector,
                    verify,
                    undo.take(k),
                    outcomes.take(j),
                )
                &&& #[trigger] put_all(
                    cs.skip(m),
                    ids.last(),
                    settings,
                    selector,
                    verify,
                    undo.skip(k),
                    outcomes.skip(j),
                )
            };
        lemma_put_on_each_noted(
            cs.take(m),
            ids.drop_last(),
            settings,
            selector,
            verify,
            undo.take(k),
            outcomes.take(j),
        );
        lemma_put_all_noted(
            cs.skip(m),
            ids.last(),
            settings,
            selector,
            verify,
            undo.skip(k),
            outcomes.skip(j),
        );
        lemma_noted_join(cs.take(m), cs.skip(m), undo.take(k), undo.skip(k));
        assert(cs.take(m) + cs.skip(m) =~= cs);
        assert(undo.take(k) + undo.skip(k) =~= undo);
    } else {
        reveal(all_noted);
    }
}

/// Resolving a selector writes nothing, and where the platform fails it is the
/// last call that does.
proof fn lemma_resolving_noted(
    cs: Seq<Call>,
    m0: Seq<Monitor>,
    m1: Seq<Monitor>,
    selector: Seq<char>,
    r: Result<Vec<DisplayId>>,
)
    requires
        engine::resolved(cs, m0, m1, selector, r),
    ensures
        cs.len() > 0,
        all_noted(cs.drop_last(), Seq::empty()),
        !(cs.last() is SetVcp),
        fails(cs.last()) == (r matches Err(EngineError::Backend(_))),
        !fails(cs.last()) ==> all_noted(cs, Seq::empty()),
{
    reveal(all_noted);
    if cs.len() > 1 {
        assert(cs.skip(1)[0] == cs[1]);
    }
}

/// One entry of a profile that was applied can be undone.
proof fn lemma_entry_noted(
    cs: Seq<Call>,
    m0: Seq<Monitor>,
    m1: Seq<Monitor>,
    d: DisplayProfile,
    verify: bool,
    undo: Seq<Undo>,
    outcomes: Seq<ApplyOutcome>,
)
    requires
        entry_applied(cs, m0, m1, d, verify, undo, outcomes),
    ensures
        all_noted(cs, undo),
{
    let (n, ids) = choose|n: int, ids: Result<Vec<DisplayId>>|
        {
            &&& 0 <= n <= cs.len()
            &&& #[trigger] engine::resolved(cs.take(n), m0, m1, d.selector@, ids)
            &&& match ids {
                Ok(v) => put_on_each(
                    cs.skip(n),
                    v@,
                    d.settings.listed(),
                    d.selector@,
                    verify,
                    undo,
                    outcomes,
                ),
                Err(e) => {
                    &&& absent(e)
                    &&& n == cs.len()
                    &&& undo.len() == 0
                    &&& outcomes.len() == 1
                    &&& reports_absent(outcomes[0], d.selector@)
                },
            }
        };
    lemma_resolving_noted(cs.take(n), m0, m1, d.selector@, ids);
    if let Ok(v) = ids {
        lemma_put_on_each_noted(
            cs.skip(n),
            v@,
            d.settings.listed(),
            d.selector@,
            verify,
            undo,
            outcomes,
        );
    } else {
        reveal(all_noted);
    }
    lemma_noted_join(cs.take(n), cs.skip(n), Seq::empty(), undo);
    assert(cs.take(n) + cs.skip(n) =~= cs);
    assert(Seq::<Undo>::empty() + undo =~= undo);
}

/// While a profile is applied, every write comes right after a read of the same
/// code on the same display, and what was read is kept to be put back.
pub proof fn law_every_change_can_be_undone(
    cs: Seq<Call>,
    m0: Seq<Monitor>,
    m1: Seq<Monitor>,
    displays: Seq<DisplayProfile>,
    verify: bool,
    undo: Seq<Undo>,
    outcomes: Seq<ApplyOutcome>,
)
    requires
        entries_applied(cs, m0, m1, displays, verify, undo, outcomes),
    ensures
        all_noted(cs, undo),
    decreases displays.len(),
{
    if displays.len() > 0 {
        let (m, k, j, mid) = choose|m: int, k: int, j: int, mid: Seq<Monitor>|
            {
                &&& 0 <= m <= cs.len()
                &&& 0 <= k <= undo.len()
                &&& 0 <= j <= outcomes.len()
                &&& entries_applied(
                    cs.take(m),
                    m0,
                    mid,
                    displays.drop_last(),
                    verify,
                    undo.take(k),
                    outcomes.take(j),
                )
                &&& #[trigger] entry_applied(
                    cs.skip(m),
                    mid,
                    m1,
                    displays.last(),
                    verify,
                    undo.skip(k),
                    outcomes.skip(j),
                )
            };
        law_every_change_can_be_undone(
            cs.take(m),
            m0,
            mid,
            displays.drop_last(),
            verify,
            undo.take(k),
            outcomes.take(j),
        );
        lemma_entry_noted(
            cs.skip(m),
            mid,
            m1,
            displays.last(),
            verify,
            undo.skip(k),
            outcomes.skip(j),
        );
        lemma_noted_join(cs.take(m), cs.skip(m), undo.take(k), undo.skip(k));
        assert(cs.take(m) + cs.skip(m) =~= cs);
        assert(undo.take(k) + undo.skip(k) =~= undo);
    } else {
        reveal(all_noted);
    }
}

/// Whether the write at `i` came right after a read of the same code on the same
/// display, and what was read is put back after `f`.
pub open spec fn put_back_after(cs: Seq<Call>, i: int, f: int) -> bool {
    cs[i] matches Call::SetVcp { id, code, value, result } && (cs[i - 1] matches Call::GetVcp {
        id: d,
        code: c,
        result: before,
    } && d == id && c == code && (before matches Ok(v) ==> exists|j: int|
        f < j < cs.len() && #[trigger] puts_back(cs[j], Undo { id, code, value: v.0 })))
}

/// Whether the first call that failed is the one at `f`, and the one at `i` is a
/// write before it.
#[verifier::opaque]
pub open spec fn fell_after(cs: Seq<Call>, f: int, i: int) -> bool {
    &&& 0 <= i < f < cs.len()
    &&& fails(cs[f])
    &&& forall|k: int| 0 <= k < f ==> !fails(#[trigger] cs[k])
    &&& cs[i] is SetVcp
}

/// What is put back after a call that failed is everything before it.
proof fn lemma_rolled_back_puts_back(
    pre: Seq<Call>,
    mid: Seq<Call>,
    end: Seq<Call>,
    undo: Seq<Undo>,
    f: int,
    i: int,
)
    requires
        all_noted(pre, undo),
        rolled_back(end, undo),
        mid.len() > 0,
        forall|k: int| 0 <= k < mid.len() - 1 ==> !((#[trigger] mid[k]) is SetVcp),
        fails(mid.last()),
        forall|k: int| 0 <= k < mid.len() - 1 ==> !fails(#[trigger] mid[k]),
        fell_after(pre + mid + end, f, i),
    ensures
        i > 0,
        put_back_after(pre + mid + end, i, f),
{
    reveal(all_noted);
    reveal(fell_after);
    let cs = pre + mid + end;
    let n = pre.len() as int;
    let last = n + mid.len() - 1;
    assert(cs[last] == mid.last());
    assert(f == last) by {
        if f < n {
            assert(cs[f] == pre[f]);
        } else if f < last {
            assert(cs[f] == mid[f - n]);
        }
    }
    if i >= n {
        assert(cs[i] == mid[i - n]);
    }
    assert(cs[i] == pre[i]);
    assert(noted(pre[i - 1], pre[i], undo));
    assert(cs[i - 1] == pre[i - 1]);
    if let Ok(v) = cs[i - 1]->GetVcp_result {
        let u = Undo { id: cs[i]->SetVcp_id, code: cs[i]->SetVcp_code, value: v.0 };
        let t = undo.index_of(u);
        let b = undo.len() - 1 - t;
        assert(puts_back(end[b], undo[t]));
        assert(cs[last + 1 + b] == end[b]);
    }
}

/// What ends an application puts back everything before it, where it is a write
/// that failed.
proof fn lemma_broke_puts_back(
    pre: Seq<Call>,
    end: Seq<Call>,
    id: DisplayId,
    key: Seq<char>,
    value: u16,
    undo: Seq<Undo>,
    done: Seq<ApplyOutcome>,
    why: EngineError,
    f: int,
    i: int,
)
    requires
        all_noted(pre, undo),
        broke(end, id, key, value, undo, done, why),
        fell_after(pre + end, f, i),
    ensures
        i > 0,
        put_back_after(pre + end, i, f),
{
    match vcp::code_parsed(key) {
        None => {
            assert(pre + end =~= pre);
            lemma_noted_falls_nowhere(pre, undo, f, i);
        },
        Some(_) => {
            let mid = end.take(2);
            assert(mid.last() == end[1]);
            assert(pre + mid + end.skip(2) =~= pre + end);
            lemma_rolled_back_puts_back(pre, mid, end.skip(2), undo, f, i);
        },
    }
}

/// The same of the settings of one display.
#[verifier::rlimit(30)]
proof fn lemma_on_puts_back(
    pre: Seq<Call>,
    end: Seq<Call>,
    id: DisplayId,
    settings: Seq<(String, u16)>,
    selector: Seq<char>,
    verify: bool,
    undo: Seq<Undo>,
    done: Seq<ApplyOutcome>,
    why: EngineError,
    f: int,
    i: int,
)
    requires
        all_noted(pre, undo),
        broke_on(end, id, settings, selector, verify, undo, done, why),
        fell_after(pre + end, f, i),
    ensures
        i > 0,
        put_back_after(pre + end, i, f),
{
    let (m, j, more, outcomes) = choose|
        m: int,
        j: int,
        more: Seq<Undo>,
        outcomes: Seq<ApplyOutcome>,
    |
        {
            &&& 0 <= m <= end.len()
            &&& 0 <= j < settings.len()
            &&& #[trigger] put_all(
                end.take(m),
                id,
                settings.take(j),
                selector,
                verify,
                more,
                outcomes,
            )
            &&& broke(
                end.skip(m),
                id,
                settings[j].0@,
                settings[j].1,
                undo + more,
                done + outcomes,
                why,
            )
        };
    lemma_put_all_noted(end.take(m), id, settings.take(j), selector, verify, more, outcomes);
    lemma_noted_join(pre, end.take(m), undo, more);
    assert(pre + end.take(m) + end.skip(m) =~= pre + end);
    lemma_broke_puts_back(
        pre + end.take(m),
        end.skip(m),
        id,
        settings[j].0@,
        settings[j].1,
        undo + more,
        done + outcomes,
        why,
        f,
        i,
    );
}

/// The same of several displays.
#[verifier::rlimit(30)]
proof fn lemma_among_puts_back(
    pre: Seq<Call>,
    end: Seq<Call>,
    ids: Seq<DisplayId>,
    settings: Seq<(String, u16)>,
    selector: Seq<char>,
    verify: bool,
    undo: Seq<Undo>,
    done: Seq<ApplyOutcome>,
    why: EngineError,
    f: int,
    i: int,
)
    requires
        all_noted(pre, undo),
        broke_among(end, ids, settings, selector, verify, undo, done, why),
        fell_after(pre + end, f, i),
    ensures
        i > 0,
        put_back_after(pre + end, i, f),
{
    let (m, j, more, outcomes) = choose|
        m: int,
        j: int,
        more: Seq<Undo>,
        outcomes: Seq<ApplyOutcome>,
    |
        {
            &&& 0 <= m <= end.len()
            &&& 0 <= j < ids.len()
            &&& #[trigger] put_on_each(
                end.take(m),
                ids.take(j),
                settings,
                selector,
                verify,
                more,
                outcomes,
            )
            &&& broke_on(
                end.skip(m),
                ids[j],
                settings,
                selector,
                verify,
                undo + more,
                done + outcomes,
                why,
            )
        };
    lemma_put_on_each_noted(
        end.take(m),
        ids.take(j),
        settings,
        selector,
        verify,
        more,
        outcomes,
    );
    lemma_noted_join(pre, end.take(m), undo, more);
    assert(pre + end.take(m) + end.skip(m) =~= pre + end);
    lemma_on_puts_back(
        pre + end.take(m),
        end.skip(m),
        ids[j],
        settings,
        selector,
        verify,
        undo + more,
        done + outcomes,
        why,
        f,
        i,
    );
}

/// Calls all of which can be undone hold none that failed.
proof fn lemma_noted_falls_nowhere(cs: Seq<Call>, undo: Seq<Undo>, f: int, i: int)
    requires
        all_noted(cs, undo),
    ensures
        !fell_after(cs, f, i),
{
    reveal(all_noted);
    reveal(fell_after);
}

/// Resolving a selector leaves everything that can be undone.
proof fn lemma_found_noted(
    pre: Seq<Call>,
    asked: Seq<Call>,
    m0: Seq<Monitor>,
    m1: Seq<Monitor>,
    selector: Seq<char>,
    ids: Result<Vec<DisplayId>>,
    undo: Seq<Undo>,
)
    requires
        all_noted(pre, undo),
        engine::resolved(asked, m0, m1, selector, ids),
        !(ids matches Err(EngineError::Backend(_))),
    ensures
        all_noted(pre + asked, undo),
{
    lemma_resolving_noted(asked, m0, m1, selector, ids);
    lemma_noted_join(pre, asked, undo, Seq::empty());
    assert(undo + Seq::<Undo>::empty() =~= undo);
}

/// The same of a platform that fails to say which displays there are.
proof fn lemma_gave_up_puts_back(
    pre: Seq<Call>,
    asked: Seq<Call>,
    end: Seq<Call>,
    m0: Seq<Monitor>,
    m1: Seq<Monitor>,
    selector: Seq<char>,
    ids: Result<Vec<DisplayId>>,
    undo: Seq<Undo>,
    f: int,
    i: int,
)
    requires
        all_noted(pre, undo),
        engine::resolved(asked, m0, m1, selector, ids),
        ids matches Err(EngineError::Backend(_)),
        rolled_back(end, undo),
        fell_after(pre + asked + end, f, i),
    ensures
        i > 0,
        put_back_after(pre + asked + end, i, f),
{
    lemma_resolving_noted(asked, m0, m1, selector, ids);
    let rest = asked.drop_last();
    let one = seq![asked.last()];
    lemma_noted_join(pre, rest, undo, Seq::empty());
    assert(undo + Seq::<Undo>::empty() =~= undo);
    assert(pre + rest + one + end =~= pre + asked + end);
    lemma_rolled_back_puts_back(pre + rest, one, end, undo, f, i);
}

/// The same of one entry of a profile.
#[verifier::rlimit(30)]
proof fn lemma_entry_puts_back(
    pre: Seq<Call>,
    end: Seq<Call>,
    m0: Seq<Monitor>,
    m1: Seq<Monitor>,
    d: DisplayProfile,
    verify: bool,
    undo: Seq<Undo>,
    done: Seq<ApplyOutcome>,
    why: EngineError,
    f: int,
    i: int,
)
    requires
        all_noted(pre, undo),
        entry_broke(end, m0, m1, d, verify, undo, done, why),
        fell_after(pre + end, f, i),
    ensures
        i > 0,
        put_back_after(pre + end, i, f),
{
    let (n, ids) = choose|n: int, ids: Result<Vec<DisplayId>>|
        {
            &&& 0 <= n <= end.len()
            &&& #[trigger] engine::resolved(end.take(n), m0, m1, d.selector@, ids)
            &&& match ids {
                Ok(v) => broke_among(
                    end.skip(n),
                    v@,
                    d.settings.listed(),
                    d.selector@,
                    verify,
                    undo,
                    done,
                    why,
                ),
                Err(EngineError::Backend(e)) => gave_up(end.skip(n), e, undo, done, why),
                Err(e) => !absent(e) && n == end.len() && why == e,
            }
        };
    let asked = end.take(n);
    assert(pre + asked + end.skip(n) =~= pre + end);
    if ids matches Err(EngineError::Backend(_)) {
        lemma_gave_up_puts_back(pre, asked, end.skip(n), m0, m1, d.selector@, ids, undo, f, i);
    } else {
        lemma_found_noted(pre, asked, m0, m1, d.selector@, ids, undo);
        match ids {
            Ok(v) => {
                lemma_among_puts_back(
                    pre + asked,
                    end.skip(n),
                    v@,
                    d.settings.listed(),
                    d.selector@,
                    verify,
                    undo,
                    done,
                    why,
                    f,
                    i,
                );
            },
            Err(_) => {
                assert(pre + asked =~= pre + end);
                lemma_noted_falls_nowhere(pre + asked, undo, f, i);
            },
        }
    }
}

/// A write that fails ends the application, and so does a platform that fails to
/// say which displays there are. Every value that was changed before that is put
/// back as far as it could be read: each write up to the failure, on whatever
/// display, came right after a read of the same code, and what was read is
/// written again afterwards.
#[verifier::rlimit(30)]
pub proof fn law_failed_apply_restores_what_it_read(
    cs: Seq<Call>,
    m0: Seq<Monitor>,
    m1: Seq<Monitor>,
    displays: Seq<DisplayProfile>,
    verify: bool,
    why: EngineError,
    f: int,
    i: int,
)
    requires
        entries_broke(cs, m0, m1, displays, verify, why),
        0 <= i < f < cs.len(),
        fails(cs[f]),
        forall|k: int| 0 <= k < f ==> !fails(#[trigger] cs[k]),
        cs[i] is SetVcp,
    ensures
        i > 0,
        put_back_after(cs, i, f),
{
    assert(fell_after(cs, f, i)) by {
        reveal(fell_after);
    }
    let (m, e, mid, undo, outcomes) = choose|
        m: int,
        e: int,
        mid: Seq<Monitor>,
        undo: Seq<Undo>,
        outcomes: Seq<ApplyOutcome>,
    |
        {
            &&& 0 <= m <= cs.len()
            &&& 0 <= e < displays.len()
            &&& #[trigger] entries_applied(
                cs.take(m),
                m0,
                mid,
                displays.take(e),
                verify,
                undo,
                outcomes,
            )
            &&& entry_broke(cs.skip(m), mid, m1, displays[e], verify, undo, outcomes, why)
        };
    law_every_change_can_be_undone(
        cs.take(m),
        m0,
        mid,
        displays.take(e),
        verify,
        undo,
        outcomes,
    );
    assert(cs.take(m) + cs.skip(m) =~= cs);
    lemma_entry_puts_back(
        cs.take(m),
        cs.skip(m),
        mid,
        m1,
        displays[e],
        verify,
        undo,
        outcomes,
        why,
        f,
        i,
    );
}

/// No more is put back than was changed.
pub proof fn law_rollback_counts_what_it_restored(cs: Seq<Call>)
    ensures
        restored(cs) <= cs.len(),
        (forall|i: int| 0 <= i < cs.len() ==> (#[trigger] cs[i])->SetVcp_result is Ok) ==> restored(
            cs,
        ) == cs.len(),
    decreases cs.len(),
{
    if cs.len() > 0 {
        law_rollback_counts_what_it_restored(cs.drop_last());
        if forall|i: int| 0 <= i < cs.len() ==> (#[trigger] cs[i])->SetVcp_result is Ok {
            assert forall|i: int| 0 <= i < cs.drop_last().len() implies (
            #[trigger] cs.drop_last()[i])->SetVcp_result is Ok by {
                assert(cs.drop_last()[i] == cs[i]);
            }
            assert(cs[cs.len() - 1]->SetVcp_result is Ok);
        }
    }
}

/// Settings none of which is destructive.
proof fn lemma_harmless_settings(settings: Seq<(String, u16)>)
    requires
        forall|j: int|
            0 <= j < settings.len() ==> destructive_setting((#[trigger] settings[j]).0@) is None,
    ensures
        destructive_among(settings) is None,
    decreases settings.len(),
{
    if settings.len() > 0 {
        assert forall|j: int| 0 <= j < settings.drop_last().len() implies destructive_setting(
            (#[trigger] settings.drop_last()[j]).0@,
        ) is None by {
            assert(settings.drop_last()[j] == settings[j]);
        }
        lemma_harmless_settings(settings.drop_last());
        assert(destructive_setting(settings[settings.len() - 1].0@) is None);
    }
}

/// Entries none of which is destructive.
proof fn lemma_harmless_entries(displays: Seq<DisplayProfile>)
    requires
        forall|i: int|
            0 <= i < displays.len() ==> destructive_among(
                (#[trigger] displays[i]).settings.listed(),
            ) is None,
    ensures
        destructive_in(displays) is None,
    decreases displays.len(),
{
    if displays.len() > 0 {
        assert forall|i: int| 0 <= i < displays.drop_last().len() implies destructive_among(
            (#[trigger] displays.drop_last()[i]).settings.listed(),
        ) is None by {
            assert(displays.drop_last()[i] == displays[i]);
        }
        lemma_harmless_entries(displays.drop_last());
        assert(destructive_among(displays[displays.len() - 1].settings.listed()) is None);
    }
}

/// A profile that was taken of displays applies without confirmation, and every
/// one of its settings names a code.
pub proof fn law_snapshot_applies_unconfirmed(
    cs: Seq<Call>,
    ms: Seq<Monitor>,
    all: Seq<Monitor>,
    codes: Seq<VcpCode>,
    displays: Seq<DisplayProfile>,
)
    requires
        snapshot::captured(cs, ms, all, snapshot::capturable(codes), displays),
    ensures
        destructive_in(displays) is None,
        forall|i: int, j: int|
            0 <= i < displays.len() && 0 <= j < displays[i].settings.listed().len()
                ==> vcp::code_parsed((#[trigger] displays[i].settings.listed()[j]).0@) is Some,
{
    assert forall|i: int, j: int|
        0 <= i < displays.len() && 0 <= j < displays[i].settings.listed().len() implies ({
        let key = (#[trigger] displays[i].settings.listed()[j]).0@;
        vcp::code_parsed(key) is Some && destructive_setting(key) is None
    }) by {
        let list = displays[i].settings.listed();
        let key = list[j].0@;
        assert(keyed::at_key(list, key, j));
        assert(displays[i].settings@.contains_key(key));
        snapshot::law_nothing_destructive_is_captured(cs, ms, all, codes, displays, i, key);
        let c = choose|c: VcpCode| #[trigger]
            codes.contains(c) && !vcp::destructive(c) && key == snapshot::key_for(c);
        snapshot::law_setting_key_reads_back(c);
    }
    assert forall|i: int| 0 <= i < displays.len() implies destructive_among(
        (#[trigger] displays[i]).settings.listed(),
    ) is None by {
        let list = displays[i].settings.listed();
        assert forall|j: int| 0 <= j < list.len() implies destructive_setting(
            (#[trigger] list[j]).0@,
        ) is None by {
            let key = displays[i].settings.listed()[j].0@;
            assert(destructive_setting(key) is None);
        }
        lemma_harmless_settings(list);
    }
    lemma_harmless_entries(displays);
}

/// Settings that were put on a display are written in order, each under the code
/// that it names.
pub proof fn lemma_put_all_sends(
    cs: Seq<Call>,
    id: DisplayId,
    settings: Seq<(String, u16)>,
    selector: Seq<char>,
    verify: bool,
    undo: Seq<Undo>,
    outcomes: Seq<ApplyOutcome>,
    j: int,
)
    requires
        put_all(cs, id, settings, selector, verify, undo, outcomes),
        0 <= j <= settings.len(),
    ensures
        cs.len() == (if verify {
            3 * settings.len()
        } else {
            2 * settings.len()
        }),
        outcomes.len() == settings.len(),
        j < settings.len() ==> (vcp::code_parsed(settings[j].0@) matches Some(code)
            && engine::sent(cs[write_of(j, verify)], id, code, settings[j].1) && (verify
            ==> engine::asks(cs[3 * j + 2], id, code)) && reports(
            outcomes[j],
            selector,
            id,
            code,
            settings[j].1,
            told(cs, j, code, settings[j].1, verify),
        )),
    decreases settings.len(),
{
    if settings.len() > 0 {
        let n = cs.len() - calls_each(verify);
        let code = vcp::code_parsed(settings.last().0@)->Some_0;
        let k = undo.len() - undo_of(cs.skip(n)[0]->GetVcp_result, id, code).len();
        let rest = settings.drop_last();
        lemma_put_all_sends(
            cs.take(n),
            id,
            rest,
            selector,
            verify,
            undo.take(k),
            outcomes.drop_last(),
            if j < rest.len() {
                j
            } else {
                0
            },
        );
        if j < rest.len() {
            assert(rest[j] == settings[j]);
            assert(cs.take(n)[write_of(j, verify)] == cs[write_of(j, verify)]);
            assert(verify ==> cs.take(n)[3 * j + 2] == cs[3 * j + 2]);
            assert(outcomes.drop_last()[j] == outcomes[j]);
        } else if j == rest.len() {
            assert(cs.skip(n)[1] == cs[n + 1]);
            assert(verify ==> cs.skip(n)[2] == cs[n + 2]);
        }
    }
}

/// Where the write of the `j`th setting stands among the calls that put settings
/// on a display.
pub open spec fn write_of(j: int, verify: bool) -> int {
    if verify {
        3 * j + 1
    } else {
        2 * j + 1
    }
}

/// What is reported of the `j`th setting, by what was read back of it.
pub open spec fn told(cs: Seq<Call>, j: int, code: VcpCode, value: u16, verify: bool) -> ApplyStatus {
    if verify {
        status_of(cs[3 * j + 2]->GetVcp_result, code, value)
    } else {
        ApplyStatus::Unverified
    }
}

/// Whether a display is sent, under the same code number, the value that a read
/// gave.
pub open spec fn written_back(read: Call, write: Call, id: DisplayId) -> bool {
    read matches Call::GetVcp { id: d, code, result } && (result matches Ok(v) && engine::sent(
        write,
        id,
        vcp::code_of(vcp::code_number(code)),
        v.0,
    ))
}

/// Saving a profile and applying it restores what was read: every setting of an
/// entry that is put on a display is the value that a display of that selector
/// answered when the profile was taken, written under the code it was read from.
/// Each is reported once, as applied where the display, asked again, answers that
/// value.
pub proof fn law_saved_settings_are_written_back(
    taken: Seq<Call>,
    ms: Seq<Monitor>,
    all: Seq<Monitor>,
    codes: Seq<VcpCode>,
    displays: Seq<DisplayProfile>,
    i: int,
    cs: Seq<Call>,
    id: DisplayId,
    verify: bool,
    undo: Seq<Undo>,
    outcomes: Seq<ApplyOutcome>,
    j: int,
)
    requires
        snapshot::captured(taken, ms, all, snapshot::capturable(codes), displays),
        0 <= i < displays.len(),
        keyed::ascending(displays[i].settings.listed()),
        put_all(
            cs,
            id,
            displays[i].settings.listed(),
            displays[i].selector@,
            verify,
            undo,
            outcomes,
        ),
        0 <= j < displays[i].settings.listed().len(),
    ensures
        exists|k: int, q: int|
            0 <= k < taken.len() && 0 <= q < ms.len() && displays[i].selector@
                == snapshot::selector_text(#[trigger] ms[q], all) && taken[k]->GetVcp_id == ms[q].id
                && written_back(#[trigger] taken[k], cs[write_of(j, verify)], id),
        outcomes.len() == displays[i].settings.listed().len(),
        outcomes[j].display == Some(id.0),
        outcomes[j].value == displays[i].settings.listed()[j].1,
        verify ==> (cs[3 * j + 2]->GetVcp_result matches Ok(v) && v.0
            == displays[i].settings.listed()[j].1 ==> outcomes[j].status == ApplyStatus::Applied),
{
    let safe = snapshot::capturable(codes);
    let list = displays[i].settings.listed();
    let key = list[j].0@;
    keyed::lemma_entry_map(list, j);
    lemma_put_all_sends(cs, id, list, displays[i].selector@, verify, undo, outcomes, j);
    snapshot::law_snapshot_holds_what_was_read(taken, ms, all, safe, displays, i, key);
    let (k, q) = choose|k: int, q: int|
        0 <= k < taken.len() && 0 <= q < ms.len() && displays[i].selector@
            == snapshot::selector_text(ms[q], all) && #[trigger] snapshot::answered_with(
            taken[k],
            ms[q],
            safe,
            key,
            displays[i].settings@[key],
        );
    let code = taken[k]->GetVcp_code;
    let p = |c: VcpCode| !vcp::destructive(c);
    codes.lemma_filter_pred(p, safe.index_of(code));
    snapshot::law_setting_key_reads_back(code);
    assert(written_back(taken[k], cs[write_of(j, verify)], id));
}

/// How many writes there are among calls.
pub open spec fn writes(cs: Seq<Call>) -> nat
    decreases cs.len(),
{
    if cs.len() == 0 {
        0
    } else if cs.last() is SetVcp {
        writes(cs.drop_last()) + 1
    } else {
        writes(cs.drop_last())
    }
}

/// Writes add up.
proof fn lemma_writes_join(a: Seq<Call>, b: Seq<Call>)
    ensures
        writes(a + b) == writes(a) + writes(b),
    decreases b.len(),
{
    if b.len() == 0 {
        assert(a + b =~= a);
    } else {
        assert((a + b).drop_last() =~= a + b.drop_last());
        lemma_writes_join(a, b.drop_last());
    }
}

/// Changes add up.
proof fn lemma_changed_join(a: Seq<ApplyOutcome>, b: Seq<ApplyOutcome>)
    ensures
        changed(a + b) == changed(a) + changed(b),
    decreases b.len(),
{
    if b.len() == 0 {
        assert(a + b =~= a);
    } else {
        assert((a + b).drop_last() =~= a + b.drop_last());
        lemma_changed_join(a, b.drop_last());
    }
}

/// Every setting put on a display is one write and one report of it.
proof fn lemma_put_all_counts(
    cs: Seq<Call>,
    id: DisplayId,
    settings: Seq<(String, u16)>,
    selector: Seq<char>,
    verify: bool,
    undo: Seq<Undo>,
    outcomes: Seq<ApplyOutcome>,
)
    requires
        put_all(cs, id, settings, selector, verify, undo, outcomes),
    ensures
        changed(outcomes) == writes(cs),
    decreases settings.len(),
{
    if settings.len() > 0 {
        let n = cs.len() - calls_each(verify);
        let block = cs.skip(n);
        let code = vcp::code_parsed(settings.last().0@)->Some_0;
        let k = undo.len() - undo_of(block[0]->GetVcp_result, id, code).len();
        lemma_put_all_counts(
            cs.take(n),
            id,
            settings.drop_last(),
            selector,
            verify,
            undo.take(k),
            outcomes.drop_last(),
        );
        lemma_writes_join(cs.take(n), block);
        assert(cs.take(n) + block =~= cs);
        reveal_with_fuel(writes, 4);
        assert(writes(block) == 1);
    }
}

/// The same of several displays.
#[verifier::spinoff_prover]
#[verifier::rlimit(60)]
proof fn lemma_put_on_each_counts(
    cs: Seq<Call>,
    ids: Seq<DisplayId>,
    settings: Seq<(String, u16)>,
    selector: Seq<char>,
    verify: bool,
    undo: Seq<Undo>,
    outcomes: Seq<ApplyOutcome>,
)
    requires
        put_on_each(cs, ids, settings, selector, verify, undo, outcomes),
    ensures
        changed(outcomes) == writes(cs),
    decreases ids.len(),
{
    if ids.len() > 0 {
        let (m, k, j) = choose|m: int, k: int, j: int|
            {
                &&& 0 <= m <= cs.len()
                &&& 0 <= k <= undo.len()
                &&& 0 <= j <= outcomes.len()
                &&& put_on_each(
                    cs.take(m),
                    ids.drop_last(),
                    settings,
                    selector,
                    verify,
                    undo.take(k),
                    outcomes.take(j),
                )
                &&& #[trigger] put_all(
                    cs.skip(m),
                    ids.last(),
                    settings,
                    selector,
                    verify,
                    undo.skip(k),
                    outcomes.skip(j),
                )
            };
        lemma_put_on_each_counts(
            cs.take(m),
            ids.drop_last(),
            settings,
            selector,
            verify,
            undo.take(k),
            outcomes.take(j),
        );
        lemma_put_all_counts(
            cs.skip(m),
            ids.last(),
            settings,
            selector,
            verify,
            undo.skip(k),
            outcomes.skip(j),
        );
        lemma_writes_join(cs.take(m), cs.skip(m));
        lemma_changed_join(outcomes.take(j), outcomes.skip(j));
        assert(cs.take(m) + cs.skip(m) =~= cs);
        assert(outcomes.take(j) + outcomes.skip(j) =~= outcomes);
    }
}

/// Resolving a selector writes nothing.
proof fn lemma_resolving_writes_nothing(
    cs: Seq<Call>,
    m0: Seq<Monitor>,
    m1: Seq<Monitor>,
    selector: Seq<char>,
    r: Result<Vec<DisplayId>>,
)
    requires
        engine::resolved(cs, m0, m1, selector, r),
    ensures
        writes(cs) == 0,
{
    reveal_with_fuel(writes, 3);
    if cs.len() > 1 {
        assert(cs.skip(1)[0] == cs[1]);
    }
}

/// The same of one entry of a profile.
proof fn lemma_entry_counts(
    cs: Seq<Call>,
    m0: Seq<Monitor>,
    m1: Seq<Monitor>,
    d: DisplayProfile,
    verify: bool,
    undo: Seq<Undo>,
    outcomes: Seq<ApplyOutcome>,
)
    requires
        entry_applied(cs, m0, m1, d, verify, undo, outcomes),
    ensures
        changed(outcomes) == writes(cs),
{
    let (n, ids) = choose|n: int, ids: Result<Vec<DisplayId>>|
        {
            &&& 0 <= n <= cs.len()
            &&& #[trigger] engine::resolved(cs.take(n), m0, m1, d.selector@, ids)
            &&& match ids {
                Ok(v) => put_on_each(
                    cs.skip(n),
                    v@,
                    d.settings.listed(),
                    d.selector@,
                    verify,
                    undo,
                    outcomes,
                ),
                Err(e) => {
                    &&& absent(e)
                    &&& n == cs.len()
                    &&& undo.len() == 0
                    &&& outcomes.len() == 1
                    &&& reports_absent(outcomes[0], d.selector@)
                },
            }
        };
    lemma_resolving_writes_nothing(cs.take(n), m0, m1, d.selector@, ids);
    lemma_writes_join(cs.take(n), cs.skip(n));
    assert(cs.take(n) + cs.skip(n) =~= cs);
    match ids {
        Ok(v) => {
            lemma_put_on_each_counts(
                cs.skip(n),
                v@,
                d.settings.listed(),
                d.selector@,
                verify,
                undo,
                outcomes,
            );
        },
        Err(_) => {
            reveal_with_fuel(changed, 2);
        },
    }
}

/// What a rollback is said to be a part of is every write made: changes are
/// counted by the writes, those that cannot be put back among them.
pub proof fn law_every_change_is_counted(
    cs: Seq<Call>,
    m0: Seq<Monitor>,
    m1: Seq<Monitor>,
    displays: Seq<DisplayProfile>,
    verify: bool,
    undo: Seq<Undo>,
    outcomes: Seq<ApplyOutcome>,
)
    requires
        entries_applied(cs, m0, m1, displays, verify, undo, outcomes),
    ensures
        changed(outcomes) == writes(cs),
    decreases displays.len(),
{
    if displays.len() > 0 {
        let (m, k, j, mid) = choose|m: int, k: int, j: int, mid: Seq<Monitor>|
            {
                &&& 0 <= m <= cs.len()
                &&& 0 <= k <= undo.len()
                &&& 0 <= j <= outcomes.len()
                &&& entries_applied(
                    cs.take(m),
                    m0,
                    mid,
                    displays.drop_last(),
                    verify,
                    undo.take(k),
                    outcomes.take(j),
                )
                &&& #[trigger] entry_applied(
                    cs.skip(m),
                    mid,
                    m1,
                    displays.last(),
                    verify,
                    undo.skip(k),
                    outcomes.skip(j),
                )
            };
        law_every_change_is_counted(
            cs.take(m),
            m0,
            mid,
            displays.drop_last(),
            verify,
            undo.take(k),
            outcomes.take(j),
        );
        lemma_entry_counts(
            cs.skip(m),
            mid,
            m1,
            displays.last(),
            verify,
            undo.skip(k),
            outcomes.skip(j),
        );
        lemma_writes_join(cs.take(m), cs.skip(m));
        lemma_changed_join(outcomes.take(j), outcomes.skip(j));
        assert(cs.take(m) + cs.skip(m) =~= cs);
        assert(outcomes.take(j) + outcomes.skip(j) =~= outcomes);
    }
}

/// Whether every setting names a code.
pub open spec fn all_named(settings: Seq<(String, u16)>) -> bool {
    forall|j: int|
        0 <= j < settings.len() ==> vcp::code_parsed((#[trigger] settings[j]).0@) is Some
}

/// Settings that all name a code end an application only by a write that failed.
proof fn lemma_broke_on_fails(
    cs: Seq<Call>,
    id: DisplayId,
    settings: Seq<(String, u16)>,
    selector: Seq<char>,
    verify: bool,
    undo: Seq<Undo>,
    done: Seq<ApplyOutcome>,
    why: EngineError,
)
    requires
        broke_on(cs, id, settings, selector, verify, undo, done, why),
        all_named(settings),
    ensures
        exists|k: int| 0 <= k < cs.len() && fails(#[trigger] cs[k]),
{
    let (m, j, more, outcomes) = choose|
        m: int,
        j: int,
        more: Seq<Undo>,
        outcomes: Seq<ApplyOutcome>,
    |
        {
            &&& 0 <= m <= cs.len()
            &&& 0 <= j < settings.len()
            &&& #[trigger] put_all(
                cs.take(m),
                id,
                settings.take(j),
                selector,
                verify,
                more,
                outcomes,
            )
            &&& broke(
                cs.skip(m),
                id,
                settings[j].0@,
                settings[j].1,
                undo + more,
                done + outcomes,
                why,
            )
        };
    assert(vcp::code_parsed(settings[j].0@) is Some);
    assert(cs.skip(m)[1] == cs[m + 1]);
    assert(fails(cs[m + 1]));
}

/// The same of several displays.
pub proof fn lemma_broke_among_fails(
    cs: Seq<Call>,
    ids: Seq<DisplayId>,
    settings: Seq<(String, u16)>,
    selector: Seq<char>,
    verify: bool,
    undo: Seq<Undo>,
    done: Seq<ApplyOutcome>,
    why: EngineError,
)
    requires
        broke_among(cs, ids, settings, selector, verify, undo, done, why),
        all_named(settings),
    ensures
        exists|k: int| 0 <= k < cs.len() && fails(#[trigger] cs[k]),
{
    let (m, j, more, outcomes) = choose|
        m: int,
        j: int,
        more: Seq<Undo>,
        outcomes: Seq<ApplyOutcome>,
    |
        {
            &&& 0 <= m <= cs.len()
            &&& 0 <= j < ids.len()
            &&& #[trigger] put_on_each(
                cs.take(m),
                ids.take(j),
                settings,
                selector,
                verify,
                more,
                outcomes,
            )
            &&& broke_on(
                cs.skip(m),
                ids[j],
                settings,
                selector,
                verify,
                undo + more,
                done + outcomes,
                why,
            )
        };
    let rest = cs.skip(m);
    lemma_broke_on_fails(
        rest,
        ids[j],
        settings,
        selector,
        verify,
        undo + more,
        done + outcomes,
        why,
    );
    let k = choose|k: int| 0 <= k < rest.len() && fails(#[trigger] rest[k]);
    assert(cs[m + k] == rest[k]);
}

/// An entry whose settings all name a code, and none of whose calls fails, ends
/// an application only where its selector does not tell displays apart.
proof fn lemma_entry_breaks_by_selector(
    cs: Seq<Call>,
    m0: Seq<Monitor>,
    m1: Seq<Monitor>,
    d: DisplayProfile,
    verify: bool,
    undo: Seq<Undo>,
    done: Seq<ApplyOutcome>,
    why: EngineError,
)
    requires
        entry_broke(cs, m0, m1, d, verify, undo, done, why),
        all_named(d.settings.listed()),
        forall|k: int| 0 <= k < cs.len() ==> !fails(#[trigger] cs[k]),
    ensures
        why is Ambiguous || why is NeedsSelector,
{
    let (n, ids) = choose|n: int, ids: Result<Vec<DisplayId>>|
        {
            &&& 0 <= n <= cs.len()
            &&& #[trigger] engine::resolved(cs.take(n), m0, m1, d.selector@, ids)
            &&& match ids {
                Ok(v) => broke_among(
                    cs.skip(n),
                    v@,
                    d.settings.listed(),
                    d.selector@,
                    verify,
                    undo,
                    done,
                    why,
                ),
                Err(EngineError::Backend(e)) => gave_up(cs.skip(n), e, undo, done, why),
                Err(e) => !absent(e) && n == cs.len() && why == e,
            }
        };
    lemma_resolving_noted(cs.take(n), m0, m1, d.selector@, ids);
    assert(cs.take(n).last() == cs[n - 1]);
    if let Ok(v) = ids {
        let rest = cs.skip(n);
        lemma_broke_among_fails(
            rest,
            v@,
            d.settings.listed(),
            d.selector@,
            verify,
            undo,
            done,
            why,
        );
        let k = choose|k: int| 0 <= k < rest.len() && fails(#[trigger] rest[k]);
        assert(cs[n + k] == rest[k]);
    }
}

/// A saved profile can be applied: as long as the platform lists its displays
/// and no write fails, applying it, even unconfirmed, succeeds, unless one of its
/// selectors has come to stand for several displays.
pub proof fn law_saved_profile_applies(
    taken: Seq<Call>,
    ms: Seq<Monitor>,
    all: Seq<Monitor>,
    codes: Seq<VcpCode>,
    displays: Seq<DisplayProfile>,
    cs: Seq<Call>,
    m0: Seq<Monitor>,
    m1: Seq<Monitor>,
    name: Seq<char>,
    verify: bool,
    yes: bool,
    r: Result<api::ApplyResult>,
)
    requires
        snapshot::captured(taken, ms, all, snapshot::capturable(codes), displays),
        ran(cs, m0, m1, name, displays, verify, yes, r),
        forall|k: int| 0 <= k < cs.len() ==> !fails(#[trigger] cs[k]),
    ensures
        r matches Err(why) ==> why is Ambiguous || why is NeedsSelector,
{
    law_snapshot_applies_unconfirmed(taken, ms, all, codes, displays);
    if let Err(why) = r {
        let (m, e, mid, undo, outcomes) = choose|
            m: int,
            e: int,
            mid: Seq<Monitor>,
            undo: Seq<Undo>,
            outcomes: Seq<ApplyOutcome>,
        |
            {
                &&& 0 <= m <= cs.len()
                &&& 0 <= e < displays.len()
                &&& #[trigger] entries_applied(
                    cs.take(m),
                    m0,
                    mid,
                    displays.take(e),
                    verify,
                    undo,
                    outcomes,
                )
                &&& entry_broke(cs.skip(m), mid, m1, displays[e], verify, undo, outcomes, why)
            };
        let d = displays[e];
        assert forall|j: int| 0 <= j < d.settings.listed().len() implies vcp::code_parsed(
            (#[trigger] d.settings.listed()[j]).0@,
        ) is Some by {
            assert(vcp::code_parsed(displays[e].settings.listed()[j].0@) is Some);
        }
        assert forall|k: int| 0 <= k < cs.skip(m).len() implies !fails(
            #[trigger] cs.skip(m)[k],
        ) by {
            assert(cs.skip(m)[k] == cs[m + k]);
        }
        lemma_entry_breaks_by_selector(cs.skip(m), mid, m1, d, verify, undo, outcomes, why);
    }
}

/// A profile needs confirmation exactly where one of its settings stands for one of the
/// codes that switch the input or the power, or restore factory settings, by whatever
/// name or number it is written.
pub proof fn law_which_profiles_need_confirmation(displays: Seq<DisplayProfile>)
    ensures
        (destructive_in(displays) is Some) == exists|i: int, j: int|
            0 <= i < displays.len() && 0 <= j < displays[i].settings.listed().len()
                && risky_key((#[trigger] displays[i].settings.listed()[j]).0@),
        destructive_in(displays) matches Some(c) ==> vcp::destructive(c),
    decreases displays.len(),
{
    if displays.len() > 0 {
        let rest = displays.drop_last();
        law_which_profiles_need_confirmation(rest);
        let last = displays.last().settings.listed();
        lemma_risky_among(last);
        if destructive_in(rest) is Some {
            let (i, j) = choose|i: int, j: int|
                0 <= i < rest.len() && 0 <= j < rest[i].settings.listed().len() && risky_key(
                    (#[trigger] rest[i].settings.listed()[j]).0@,
                );
            assert(displays[i].settings.listed()[j] == rest[i].settings.listed()[j]);
        } else if destructive_among(last) is Some {
            let j = choose|j: int| 0 <= j < last.len() && risky_key((#[trigger] last[j]).0@);
            assert(displays[displays.len() - 1].settings.listed()[j] == last[j]);
        }
        if exists|i: int, j: int|
            0 <= i < displays.len() && 0 <= j < displays[i].settings.listed().len() && risky_key(
                (#[trigger] displays[i].settings.listed()[j]).0@,
            ) {
            let (i, j) = choose|i: int, j: int|
                0 <= i < displays.len() && 0 <= j < displays[i].settings.listed().len() && risky_key(
                    (#[trigger] displays[i].settings.listed()[j]).0@,
                );
            if i < rest.len() {
                assert(rest[i].settings.listed()[j] == displays[i].settings.listed()[j]);
            } else {
                assert(last[j] == displays[i].settings.listed()[j]);
            }
        }
    }
}

/// Whether a setting stands for a code that blanks the screen or wipes settings.
pub open spec fn risky_key(key: Seq<char>) -> bool {
    vcp::code_parsed(key) matches Some(c) && {
        let n = vcp::code_number(c);
        n == 0x04 || n == 0x05 || n == 0x06 || n == 0x08 || n == 0x0A || n == 0x60 || n == 0xD6
    }
}

/// The same of one entry.
proof fn lemma_risky_among(settings: Seq<(String, u16)>)
    ensures
        (destructive_among(settings) is Some) == exists|j: int|
            0 <= j < settings.len() && risky_key((#[trigger] settings[j]).0@),
        destructive_among(settings) matches Some(c) ==> vcp::destructive(c),
    decreases settings.len(),
{
    if settings.len() > 0 {
        let rest = settings.drop_last();
        lemma_risky_among(rest);
        let n = settings.len() - 1;
        if let Some(c) = vcp::code_parsed(settings[n].0@) {
            vcp::law_destructive_codes_are_seven(c);
        }
        if destructive_among(rest) is Some {
            let j = choose|j: int| 0 <= j < rest.len() && risky_key((#[trigger] rest[j]).0@);
            assert(settings[j] == rest[j]);
        } else if risky_key(settings[n].0@) {
            assert(destructive_setting(settings.last().0@) is Some);
        }
        if exists|j: int| 0 <= j < settings.len() && risky_key((#[trigger] settings[j]).0@) {
            let j = choose|j: int| 0 <= j < settings.len() && risky_key((#[trigger] settings[j]).0@);
            if j < rest.len() {
                assert(rest[j] == settings[j]);
            }
        }
    }
}

/// Confirmed or harmless, a profile is applied; neither, it is refused and nothing is
/// touched.
pub proof fn law_risky_profiles_are_refused_unconfirmed(
    cs: Seq<Call>,
    m0: Seq<Monitor>,
    m1: Seq<Monitor>,
    name: Seq<char>,
    displays: Seq<DisplayProfile>,
    verify: bool,
    yes: bool,
    r: Result<api::ApplyResult>,
    i: int,
    j: int,
)
    requires
        ran(cs, m0, m1, name, displays, verify, yes, r),
        0 <= i < displays.len(),
        0 <= j < displays[i].settings.listed().len(),
        risky_key(displays[i].settings.listed()[j].0@),
        !yes,
    ensures
        cs.len() == 0,
        m1 == m0,
        r matches Err(EngineError::DestructiveProfile { name: n, code }) && n@ == name,
{
    law_which_profiles_need_confirmation(displays);
    assert(risky_key(displays[i].settings.listed()[j].0@));
}

/// What became of a setting goes by the value that was read back: applied where it is
/// the one that was written, ignored where it is another, higher or lower, and
/// unverified where nothing was read.
pub proof fn law_status_goes_by_what_was_read_back(
    back: model::Result<(u16, u16)>,
    code: VcpCode,
    value: u16,
)
    ensures
        (status_of(back, code, value) == ApplyStatus::Applied) == (back matches Ok(v)
            && !engine::differs(code, v.0, value)),
        (status_of(back, code, value) == ApplyStatus::Ignored) == (back matches Ok(v)
            && engine::differs(code, v.0, value)),
        (status_of(back, code, value) == ApplyStatus::Unverified) == (back is Err),
{
}

/// Whether a run read a code, wrote the value, and, where that was asked for, read it
/// back, one right after the other, and an outcome reports it by what was read back.
pub open spec fn carried_out(
    cs: Seq<Call>,
    outcomes: Seq<ApplyOutcome>,
    id: DisplayId,
    selector: Seq<char>,
    code: VcpCode,
    value: u16,
    verify: bool,
    q: int,
    o: int,
) -> bool {
    &&& 0 < q < cs.len()
    &&& engine::reads(cs[q - 1], id, code)
    &&& engine::sends(cs[q], id, code, value)
    &&& verify ==> q + 1 < cs.len() && engine::reads(cs[q + 1], id, code)
    &&& 0 <= o < outcomes.len()
    &&& outcomes[o].display == Some(id.0)
    &&& outcomes[o].selector@ == selector
    &&& outcomes[o].code == vcp::code_number(code)
    &&& outcomes[o].value == value
    &&& !verify ==> outcomes[o].status == ApplyStatus::Unverified
    &&& verify ==> outcomes[o].status == (match cs[q + 1]->GetVcp_result {
        Ok(v) => if engine::differs(code, v.0, value) {
            ApplyStatus::Ignored
        } else {
            ApplyStatus::Applied
        },
        Err(_) => ApplyStatus::Unverified,
    })
}

/// What a part carried out, the whole did.
proof fn lemma_carried_out_in_whole(
    cs: Seq<Call>,
    outcomes: Seq<ApplyOutcome>,
    m: int,
    j: int,
    front: bool,
    id: DisplayId,
    selector: Seq<char>,
    code: VcpCode,
    value: u16,
    verify: bool,
    q: int,
    o: int,
)
    requires
        0 <= m <= cs.len(),
        0 <= j <= outcomes.len(),
        front ==> carried_out(cs.take(m), outcomes.take(j), id, selector, code, value, verify, q, o),
        !front ==> carried_out(cs.skip(m), outcomes.skip(j), id, selector, code, value, verify, q, o),
    ensures
        front ==> carried_out(cs, outcomes, id, selector, code, value, verify, q, o),
        !front ==> carried_out(cs, outcomes, id, selector, code, value, verify, q + m, o + j),
{
}

/// Every setting of one display is carried out.
proof fn lemma_put_all_carries_out(
    cs: Seq<Call>,
    id: DisplayId,
    settings: Seq<(String, u16)>,
    selector: Seq<char>,
    verify: bool,
    undo: Seq<Undo>,
    outcomes: Seq<ApplyOutcome>,
    j: int,
)
    requires
        put_all(cs, id, settings, selector, verify, undo, outcomes),
        0 <= j < settings.len(),
    ensures
        vcp::code_parsed(settings[j].0@) is Some,
        carried_out(
            cs,
            outcomes,
            id,
            selector,
            vcp::code_parsed(settings[j].0@)->Some_0,
            settings[j].1,
            verify,
            write_of(j, verify),
            j,
        ),
        outcomes.len() == settings.len(),
    decreases settings.len(),
{
    let code = vcp::code_parsed(settings[j].0@)->Some_0;
    lemma_put_all_sends(cs, id, settings, selector, verify, undo, outcomes, j);
    let n = cs.len() - calls_each(verify);
    let last = vcp::code_parsed(settings.last().0@)->Some_0;
    let k = undo.len() - undo_of(cs.skip(n)[0]->GetVcp_result, id, last).len();
    if j < settings.len() - 1 {
        lemma_put_all_carries_out(
            cs.take(n),
            id,
            settings.drop_last(),
            selector,
            verify,
            undo.take(k),
            outcomes.drop_last(),
            j,
        );
        assert(settings.drop_last()[j] == settings[j]);
        let q = write_of(j, verify);
        assert(cs.take(n)[q] == cs[q]);
        assert(cs.take(n)[q - 1] == cs[q - 1]);
    } else {
        let q = write_of(j, verify);
        assert(q == n + 1);
        assert(cs.skip(n)[0] == cs[n]);
        assert(cs.skip(n)[1] == cs[n + 1]);
        if verify {
            assert(cs.skip(n)[2] == cs[n + 2]);
        }
    }
    if verify {
        law_status_goes_by_what_was_read_back(cs[3 * j + 2]->GetVcp_result, code, settings[j].1);
    }
}

/// Every setting of an entry is carried out on every display that its selector stands
/// for, and reported for it. A selector that stands for nothing is reported as not
/// connected, once; one that stands for several displays, and is not `all`, is never
/// applied.
pub proof fn law_every_setting_reaches_every_display(
    cs: Seq<Call>,
    m0: Seq<Monitor>,
    m1: Seq<Monitor>,
    d: DisplayProfile,
    verify: bool,
    undo: Seq<Undo>,
    outcomes: Seq<ApplyOutcome>,
    i: int,
    j: int,
)
    requires
        entry_applied(cs, m0, m1, d, verify, undo, outcomes),
    ensures
        match selection::selection(m1, d.selector@) {
            selection::Selection::Ids(ids) => 0 <= i < ids.len() && 0 <= j
                < d.settings.listed().len() ==> (vcp::code_parsed(d.settings.listed()[j].0@) matches Some(
                code,
            ) && exists|q: int, o: int| #[trigger]
                carried_out(
                    cs,
                    outcomes,
                    ids[i],
                    d.selector@,
                    code,
                    d.settings.listed()[j].1,
                    verify,
                    q,
                    o,
                )),
            selection::Selection::NoMatch | selection::Selection::NoDisplays => outcomes.len() == 1
                && outcomes[0].status == ApplyStatus::NotConnected && outcomes[0].display is None
                && outcomes[0].selector@ == d.selector@ && forall|k: int|
                0 <= k < cs.len() ==> !((#[trigger] cs[k]) is SetVcp),
            _ => false,
        },
{
    let (m, found) = choose|m: int, found: Result<Vec<DisplayId>>|
        {
            &&& 0 <= m <= cs.len()
            &&& #[trigger] engine::resolved(cs.take(m), m0, m1, d.selector@, found)
            &&& match found {
                Ok(v) => put_on_each(
                    cs.skip(m),
                    v@,
                    d.settings.listed(),
                    d.selector@,
                    verify,
                    undo,
                    outcomes,
                ),
                Err(e) => {
                    &&& absent(e)
                    &&& m == cs.len()
                    &&& undo.len() == 0
                    &&& outcomes.len() == 1
                    &&& reports_absent(outcomes[0], d.selector@)
                },
            }
        };
    engine::lemma_checks_only(cs.take(m), m0, m1);
    if engine::fault_in(cs.take(m)) is None {
        selection::law_selectors_are_answered(m1, d.selector@, found);
    }
    match found {
        Ok(v) => {
            if 0 <= i < v@.len() && 0 <= j < d.settings.listed().len() {
                let (q, o) = lemma_put_on_each_carries_out(
                    cs.skip(m),
                    v@,
                    d.settings.listed(),
                    d.selector@,
                    verify,
                    undo,
                    outcomes,
                    i,
                    j,
                );
                let code = vcp::code_parsed(d.settings.listed()[j].0@)->Some_0;
                assert(outcomes.skip(0) =~= outcomes);
                lemma_carried_out_in_whole(
                    cs,
                    outcomes,
                    m,
                    0,
                    false,
                    v@[i],
                    d.selector@,
                    code,
                    d.settings.listed()[j].1,
                    verify,
                    q,
                    o,
                );
            }
        },
        Err(e) => {
            assert(cs.take(m) =~= cs);
        },
    }
}

/// Every setting is carried out on each of several displays.
proof fn lemma_put_on_each_carries_out(
    cs: Seq<Call>,
    ids: Seq<DisplayId>,
    settings: Seq<(String, u16)>,
    selector: Seq<char>,
    verify: bool,
    undo: Seq<Undo>,
    outcomes: Seq<ApplyOutcome>,
    i: int,
    j: int,
) -> (at: (int, int))
    requires
        put_on_each(cs, ids, settings, selector, verify, undo, outcomes),
        0 <= i < ids.len(),
        0 <= j < settings.len(),
    ensures
        vcp::code_parsed(settings[j].0@) is Some,
        carried_out(
            cs,
            outcomes,
            ids[i],
            selector,
            vcp::code_parsed(settings[j].0@)->Some_0,
            settings[j].1,
            verify,
            at.0,
            at.1,
        ),
    decreases ids.len(),
{
    let (m, k, n) = choose|m: int, k: int, n: int|
        {
            &&& 0 <= m <= cs.len()
            &&& 0 <= k <= undo.len()
            &&& 0 <= n <= outcomes.len()
            &&& put_on_each(
                cs.take(m),
                ids.drop_last(),
                settings,
                selector,
                verify,
                undo.take(k),
                outcomes.take(n),
            )
            &&& #[trigger] put_all(
                cs.skip(m),
                ids.last(),
                settings,
                selector,
                verify,
                undo.skip(k),
                outcomes.skip(n),
            )
        };
    let code = vcp::code_parsed(settings[j].0@)->Some_0;
    if i < ids.len() - 1 {
        let (q, o) = lemma_put_on_each_carries_out(
            cs.take(m),
            ids.drop_last(),
            settings,
            selector,
            verify,
            undo.take(k),
            outcomes.take(n),
            i,
            j,
        );
        assert(ids.drop_last()[i] == ids[i]);
        lemma_carried_out_in_whole(
            cs,
            outcomes,
            m,
            n,
            true,
            ids[i],
            selector,
            code,
            settings[j].1,
            verify,
            q,
            o,
        );
        (q, o)
    } else {
        let q = write_of(j, verify);
        lemma_put_all_carries_out(
            cs.skip(m),
            ids.last(),
            settings,
            selector,
            verify,
            undo.skip(k),
            outcomes.skip(n),
            j,
        );
        lemma_carried_out_in_whole(
            cs,
            outcomes,
            m,
            n,
            false,
            ids[i],
            selector,
            code,
            settings[j].1,
            verify,
            q,
            j,
        );
        (q + m, j + n)
    }
}

/// A value is put back where the same code of the same display is written the value that
/// it had.
pub proof fn law_putting_back_writes_the_old_value(e: Call, u: Undo)
    ensures
        puts_back(e, u) == (e is SetVcp && e->SetVcp_id == u.id && e->SetVcp_code == u.code
            && e->SetVcp_value == u.value),
{
}

/// What there is to undo of a setting is the value that was read before it was written,
/// and nothing where none was read.
pub proof fn law_undoing_goes_by_what_was_read(before: model::Result<(u16, u16)>, id: DisplayId, code: VcpCode)
    ensures
        undo_of(before, id, code).len() == (if before is Ok {
            1int
        } else {
            0
        }),
        before matches Ok(v) ==> undo_of(before, id, code)[0] == (Undo { id, code, value: v.0 }),
{
}

/// How many settings were written, and how many put back, is counted one by one.
pub proof fn law_changes_are_counted_one_by_one(done: Seq<ApplyOutcome>, cs: Seq<Call>)
    ensures
        changed(done) == done.filter(|o: ApplyOutcome| o.display is Some).len(),
        restored(cs) == cs.filter(|c: Call| c->SetVcp_result is Ok).len(),
    decreases done.len() + cs.len(),
{
    reveal(Seq::filter);
    if done.len() > 0 {
        law_changes_are_counted_one_by_one(done.drop_last(), cs);
    }
    if cs.len() > 0 {
        law_changes_are_counted_one_by_one(done, cs.drop_last());
    }
}

/// An application that is given up puts back what it wrote, the latest first. Where it had
/// written nothing, the failure is passed on as it is; where it had, the failure comes with
/// how much of it was put back.
pub proof fn law_giving_up_says_what_was_put_back(
    cs: Seq<Call>,
    e: model::Error,
    undo: Seq<Undo>,
    done: Seq<ApplyOutcome>,
    why: EngineError,
    i: int,
)
    requires
        gave_up(cs, e, undo, done, why),
    ensures
        cs.len() == undo.len(),
        0 <= i < cs.len() ==> puts_back(cs[i], undo[undo.len() - 1 - i]),
        (forall|k: int| 0 <= k < done.len() ==> (#[trigger] done[k]).display is None) ==> why
            is Backend && why->Backend_0 == e,
        0 <= i < done.len() && done[i].display is Some ==> why is Backend && why->Backend_0
            is Transport && why->Backend_0->Transport_0@ == model::error_text(e) + (
        "; rolled back "@ + text::decimal(cs.filter(|c: Call| c->SetVcp_result is Ok).len())
            + " of "@ + text::decimal(done.filter(|o: ApplyOutcome| o.display is Some).len())
            + " earlier change(s)"@),
{
    law_changes_are_counted_one_by_one(done, cs);
    lemma_none_changed(done, i);
}

/// Where nothing was written nothing was changed, and where something was it was.
proof fn lemma_none_changed(done: Seq<ApplyOutcome>, i: int)
    ensures
        (forall|k: int| 0 <= k < done.len() ==> (#[trigger] done[k]).display is None) ==> changed(
            done,
        ) == 0,
        0 <= i < done.len() && done[i].display is Some ==> changed(done) > 0,
    decreases done.len(),
{
    if done.len() > 0 {
        let rest = done.drop_last();
        assert(forall|k: int| 0 <= k < rest.len() ==> #[trigger] rest[k] == done[k]);
        assert(done.last() == done[done.len() - 1]);
        lemma_none_changed(rest, i);
        if 0 <= i < rest.len() {
            assert(rest[i] == done[i]);
        }
    }
}

/// A write that failed is told by why, by the code and the display, and by how much of what
/// was written before was put back. A setting that names no code is told by what it names,
/// and touches no display.
pub proof fn law_failed_writes_say_where(
    cs: Seq<Call>,
    id: DisplayId,
    key: Seq<char>,
    value: u16,
    undo: Seq<Undo>,
    done: Seq<ApplyOutcome>,
    why: EngineError,
)
    requires
        broke(cs, id, key, value, undo, done, why),
    ensures
        vcp::code_parsed(key) is None ==> cs.len() == 0 && why is BadCode && why->BadCode_0@ == key,
        vcp::code_parsed(key) is Some ==> {
            &&& cs.len() == 2 + undo.len()
            &&& cs[0] is GetVcp && cs[0]->GetVcp_id == id
            &&& cs[1] is SetVcp && cs[1]->SetVcp_id == id && cs[1]->SetVcp_value == value
            &&& cs[1]->SetVcp_result is Err
            &&& why is Backend && why->Backend_0 is Transport
            &&& why->Backend_0->Transport_0@ == model::error_text(cs[1]->SetVcp_result->Err_0)
                + " — applying "@ + vcp::code_label(vcp::code_parsed(key)->Some_0)
                + " to display "@ + text::decimal(id.0 as nat) + ("; rolled back "@ + text::decimal(
                cs.skip(2).filter(|c: Call| c->SetVcp_result is Ok).len(),
            ) + " of "@ + text::decimal(done.filter(|o: ApplyOutcome| o.display is Some).len())
                + " earlier change(s)"@)
        },
{
    if vcp::code_parsed(key) is Some {
        law_changes_are_counted_one_by_one(done, cs.skip(2));
    }
}

} // verus!
