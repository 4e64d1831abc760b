//! What saving a profile and applying it amounts to together.

use crate::api;
use crate::api::{ApplyOutcome, ApplyStatus};
use crate::daemon::apply;
use crate::daemon::apply::Undo;
use crate::daemon::engine;
use crate::daemon::selection;
use crate::daemon::selection::{EngineError, Result};
use crate::daemon::snapshot;
use crate::daemon::snapshot::Snapshot;
use crate::ddc::vcp;
use crate::ddc::vcp::VcpCode;
use crate::keyed;
use crate::model::profile;
use crate::model::{Call, DisplayId, DisplayProfile, Monitor, Profile};
use vstd::prelude::*;

verus! {

// ── Where a profile was taken ──────────────────────────────────────────────

/// The displays that the entries of a snapshot were taken of, in order: those
/// that answered anything.
pub open spec fn sources(cs: Seq<Call>, ms: Seq<Monitor>, codes: Seq<VcpCode>) -> Seq<Monitor>
    decreases ms.len(),
{
    if ms.len() == 0 {
        Seq::empty()
    } else {
        let n = cs.len() - codes.len();
        let rest = sources(cs.take(n), ms.drop_last(), codes);
        if snapshot::settings_from(cs.skip(n), codes) == Map::<Seq<char>, u16>::empty() {
            rest
        } else {
            rest.push(ms.last())
        }
    }
}

/// There is one display for each entry, and its selector is the entry's.
proof fn lemma_sources(
    cs: Seq<Call>,
    ms: Seq<Monitor>,
    all: Seq<Monitor>,
    codes: Seq<VcpCode>,
    displays: Seq<DisplayProfile>,
)
    requires
        snapshot::captured(cs, ms, all, codes, displays),
    ensures
        sources(cs, ms, codes).len() == displays.len(),
    decreases ms.len(),
{
    if ms.len() > 0 {
        let n = cs.len() - codes.len();
        if snapshot::settings_from(cs.skip(n), codes) == Map::<Seq<char>, u16>::empty() {
            lemma_sources(cs.take(n), ms.drop_last(), all, codes, displays);
        } else {
            lemma_sources(cs.take(n), ms.drop_last(), all, codes, displays.drop_last());
        }
    }
}

/// Every value of an entry is an answer of the display that it was taken of.
proof fn lemma_source_answered(
    cs: Seq<Call>,
    ms: Seq<Monitor>,
    all: Seq<Monitor>,
    codes: Seq<VcpCode>,
    displays: Seq<DisplayProfile>,
    i: int,
    key: Seq<char>,
)
    requires
        snapshot::captured(cs, ms, all, codes, displays),
        0 <= i < displays.len(),
        displays[i].settings@.contains_key(key),
    ensures
        displays[i].selector@ == snapshot::selector_text(sources(cs, ms, codes)[i], all),
        exists|k: int|
            0 <= k < cs.len() && #[trigger] snapshot::answered_with(
                cs[k],
                sources(cs, ms, codes)[i],
                codes,
                key,
                displays[i].settings@[key],
            ),
    decreases ms.len(),
{
    let n = cs.len() - codes.len();
    let block = cs.skip(n);
    let value = displays[i].settings@[key];
    let all_sources = sources(cs, ms, codes);
    let silent = snapshot::settings_from(block, codes) == Map::<Seq<char>, u16>::empty();
    let rest = if silent {
        displays
    } else {
        displays.drop_last()
    };
    lemma_sources(cs.take(n), ms.drop_last(), all, codes, rest);
    if !silent && i == displays.len() - 1 {
        snapshot::lemma_settings_values(block, ms.last(), codes, key);
        let b = choose|b: int|
            0 <= b < block.len() && #[trigger] snapshot::answered_with(
                block[b],
                ms.last(),
                codes,
                key,
                value,
            );
        assert(all_sources[i] == ms.last());
        assert(snapshot::answered_with(cs[n + b], all_sources[i], codes, key, value));
    } else {
        assert(rest[i] == displays[i]);
        lemma_source_answered(cs.take(n), ms.drop_last(), all, codes, rest, i, key);
        let m = sources(cs.take(n), ms.drop_last(), codes)[i];
        assert(all_sources[i] == m);
        let k = choose|k: int|
            0 <= k < cs.take(n).len() && #[trigger] snapshot::answered_with(
                cs.take(n)[k],
                m,
                codes,
                key,
                value,
            );
        assert(snapshot::answered_with(cs[k], m, codes, key, value));
    }
}

// ── What an application does ───────────────────────────────────────────────

/// Whether a call gives this list of displays.
pub open spec fn gives(e: Call, monitors: Seq<Monitor>) -> bool {
    e matches Call::List { result } && (result matches Ok(v) && v@ == monitors)
}

/// Whether this is a list of displays that selectors are looked up in: the one
/// that was known, if it holds any, or one that the platform gave meanwhile.
pub open spec fn consulted(cs: Seq<Call>, m0: Seq<Monitor>, monitors: Seq<Monitor>) -> bool {
    ||| monitors == m0 && m0.len() > 0
    ||| exists|k: int| 0 <= k < cs.len() && gives(#[trigger] cs[k], monitors)
}

/// Whether a selector, wherever it is looked up, stands for this one display.
#[verifier::opaque]
pub open spec fn selector_holds(
    cs: Seq<Call>,
    m0: Seq<Monitor>,
    selector: Seq<char>,
    id: DisplayId,
) -> bool {
    forall|monitors: Seq<Monitor>|
        consulted(cs, m0, monitors) ==> #[trigger] selection::selection(monitors, selector)
            == selection::Selection::Ids(seq![id])
}

/// Whether every selector, wherever it is looked up, stands for its one display.
pub open spec fn selectors_hold(
    cs: Seq<Call>,
    m0: Seq<Monitor>,
    displays: Seq<DisplayProfile>,
    ids: Seq<DisplayId>,
) -> bool {
    forall|i: int|
        0 <= i < displays.len() ==> selector_holds(
            cs,
            m0,
            (#[trigger] displays[i]).selector@,
            ids[i],
        )
}

/// Whether nothing fails, and what is read right after a write is what was
/// written.
#[verifier::opaque]
pub open spec fn writes_take(cs: Seq<Call>) -> bool {
    &&& forall|k: int| 0 <= k < cs.len() ==> !apply::fails(#[trigger] cs[k])
    &&& forall|k: int|
        0 < k < cs.len() && cs[k - 1] is SetVcp && (#[trigger] cs[k]) is GetVcp ==> (
        cs[k]->GetVcp_result matches Ok(v) && v.0 == cs[k - 1]->SetVcp_value)
}

/// Whether a call reads a value of a code.
pub open spec fn shows(e: Call, id: DisplayId, code: VcpCode, value: u16) -> bool {
    engine::asks(e, id, code) && (e->GetVcp_result matches Ok(v) && v.0 == value)
}

/// Whether a display was sent a value and showed it right afterwards.
pub open spec fn took(cs: Seq<Call>, q: int, id: DisplayId, code: VcpCode, value: u16) -> bool {
    &&& 0 <= q < cs.len() - 1
    &&& engine::sent(cs[q], id, code, value)
    &&& shows(cs[q + 1], id, code, value)
}

/// Whether a setting is reported as applied to a display, and was.
pub open spec fn restored(
    cs: Seq<Call>,
    o: ApplyOutcome,
    id: DisplayId,
    selector: Seq<char>,
    setting: (String, u16),
) -> bool {
    vcp::code_parsed(setting.0@) matches Some(code) && apply::reports(
        o,
        selector,
        id,
        code,
        setting.1,
        ApplyStatus::Applied,
    ) && exists|q: int| #[trigger] took(cs, q, id, code, setting.1)
}

/// How many settings entries hold.
pub open spec fn settings_in(displays: Seq<DisplayProfile>) -> nat
    decreases displays.len(),
{
    if displays.len() == 0 {
        0
    } else {
        settings_in(displays.drop_last()) + displays.last().settings.listed().len()
    }
}

/// Whether every setting of every entry is restored, one outcome for each.
pub open spec fn all_restored(
    cs: Seq<Call>,
    displays: Seq<DisplayProfile>,
    ids: Seq<DisplayId>,
    outcomes: Seq<ApplyOutcome>,
) -> bool
    decreases displays.len(),
{
    if displays.len() == 0 {
        outcomes.len() == 0
    } else {
        let d = displays.last();
        let n = outcomes.len() - d.settings.listed().len();
        &&& n >= 0
        &&& forall|j: int|
            0 <= j < d.settings.listed().len() ==> #[trigger] restored(
                cs,
                outcomes[n + j],
                ids.last(),
                d.selector@,
                d.settings.listed()[j],
            )
        &&& all_restored(cs, displays.drop_last(), ids.drop_last(), outcomes.take(n))
    }
}

/// What a part of a run restored, the whole did.
proof fn lemma_restored_in_whole(
    cs: Seq<Call>,
    m: int,
    o: ApplyOutcome,
    id: DisplayId,
    selector: Seq<char>,
    setting: (String, u16),
)
    requires
        0 <= m <= cs.len(),
        restored(cs.take(m), o, id, selector, setting) || restored(
            cs.skip(m),
            o,
            id,
            selector,
            setting,
        ),
    ensures
        restored(cs, o, id, selector, setting),
{
    let code = vcp::code_parsed(setting.0@)->Some_0;
    if restored(cs.take(m), o, id, selector, setting) {
        let q = choose|q: int| #[trigger] took(cs.take(m), q, id, code, setting.1);
        assert(took(cs, q, id, code, setting.1));
    } else {
        let q = choose|q: int| #[trigger] took(cs.skip(m), q, id, code, setting.1);
        assert(took(cs, m + q, id, code, setting.1));
    }
}

/// The same of all entries.
proof fn lemma_all_restored_in_whole(
    cs: Seq<Call>,
    m: int,
    displays: Seq<DisplayProfile>,
    ids: Seq<DisplayId>,
    outcomes: Seq<ApplyOutcome>,
)
    requires
        0 <= m <= cs.len(),
        all_restored(cs.take(m), displays, ids, outcomes),
    ensures
        all_restored(cs, displays, ids, outcomes),
    decreases displays.len(),
{
    if displays.len() > 0 {
        let d = displays.last();
        let n = outcomes.len() - d.settings.listed().len();
        lemma_all_restored_in_whole(
            cs,
            m,
            displays.drop_last(),
            ids.drop_last(),
            outcomes.take(n),
        );
        assert forall|j: int| 0 <= j < d.settings.listed().len() implies #[trigger] restored(
            cs,
            outcomes[n + j],
            ids.last(),
            d.selector@,
            d.settings.listed()[j],
        ) by {
            let setting = d.settings.listed()[j];
            assert(restored(cs.take(m), outcomes[n + j], ids.last(), d.selector@, setting));
            lemma_restored_in_whole(cs, m, outcomes[n + j], ids.last(), d.selector@, setting);
        }
    }
}

/// A selector that was resolved in a run was looked up in the displays that were
/// known, if any, or in those that the platform gave.
proof fn lemma_resolving_consults(
    cs: Seq<Call>,
    n: int,
    m0: Seq<Monitor>,
    m1: Seq<Monitor>,
    selector: Seq<char>,
    r: Result<Vec<DisplayId>>,
)
    requires
        0 <= n <= cs.len(),
        engine::resolved(cs.take(n), m0, m1, selector, r),
        writes_take(cs),
    ensures
        consulted(cs, m0, m1),
        selection::selects(m1, selector, r),
{
    reveal(writes_take);
    let part = cs.take(n);
    assert(part.last() == cs[n - 1]);
    assert(part[0] == cs[0]);
    if m0.len() == 0 {
        assert(gives(cs[0], m1));
    } else if part.len() > 1 {
        assert(part.skip(1)[0] == cs[1]);
        assert(gives(cs[1], m1));
    }
}

/// An entry whose selector stands for one display is restored on it.
proof fn lemma_entry_restored(
    cs: Seq<Call>,
    m0: Seq<Monitor>,
    m1: Seq<Monitor>,
    d: DisplayProfile,
    id: DisplayId,
    undo: Seq<Undo>,
    outcomes: Seq<ApplyOutcome>,
)
    requires
        apply::entry_applied(cs, m0, m1, d, true, undo, outcomes),
        writes_take(cs),
        selector_holds(cs, m0, d.selector@, id),
    ensures
        consulted(cs, m0, m1),
        outcomes.len() == d.settings.listed().len(),
        forall|j: int|
            0 <= j < outcomes.len() ==> restored(
                cs,
                #[trigger] outcomes[j],
                id,
                d.selector@,
                d.settings.listed()[j],
            ),
{
    let list = d.settings.listed();
    let (n, ids) = choose|n: int, ids: Result<Vec<DisplayId>>|
        {
            &&& 0 <= n <= cs.len()
            &&& #[trigger] engine::resolved(cs.take(n), m0, m1, d.selector@, ids)
            &&& match ids {
                Ok(v) => apply::put_on_each(
                    cs.skip(n),
                    v@,
                    list,
                    d.selector@,
                    true,
                    undo,
                    outcomes,
                ),
                Err(e) => {
                    &&& apply::absent(e)
                    &&& n == cs.len()
                    &&& undo.len() == 0
                    &&& outcomes.len() == 1
                    &&& apply::reports_absent(outcomes[0], d.selector@)
                },
            }
        };
    lemma_resolving_consults(cs, n, m0, m1, d.selector@, ids);
    assert(selection::selection(m1, d.selector@) == selection::Selection::Ids(seq![id])) by {
        reveal(selector_holds);
    }
    let rest = cs.skip(n);
    assert(apply::put_on_each(rest, seq![id], list, d.selector@, true, undo, outcomes));
    lemma_one_display(rest, id, list, d.selector@, undo, outcomes);
    assert forall|j: int| 0 <= j < outcomes.len() implies restored(
        cs,
        #[trigger] outcomes[j],
        id,
        d.selector@,
        list[j],
    ) by {
        lemma_setting_restored(cs, n, id, list, d.selector@, undo, outcomes, j);
    }
    apply::lemma_put_all_sends(rest, id, list, d.selector@, true, undo, outcomes, 0);
}

/// Settings that were put on each of one display were put on that display.
proof fn lemma_one_display(
    cs: Seq<Call>,
    id: DisplayId,
    settings: Seq<(String, u16)>,
    selector: Seq<char>,
    undo: Seq<Undo>,
    outcomes: Seq<ApplyOutcome>,
)
    requires
        apply::put_on_each(cs, seq![id], settings, selector, true, undo, outcomes),
    ensures
        apply::put_all(cs, id, settings, selector, true, undo, outcomes),
{
    let ids = seq![id];
    let (m, k, j) = choose|m: int, k: int, j: int|
        {
            &&& 0 <= m <= cs.len()
            &&& 0 <= k <= undo.len()
            &&& 0 <= j <= outcomes.len()
            &&& apply::put_on_each(
                cs.take(m),
                ids.drop_last(),
                settings,
                selector,
                true,
                undo.take(k),
                outcomes.take(j),
            )
            &&& #[trigger] apply::put_all(
                cs.skip(m),
                ids.last(),
                settings,
                selector,
                true,
                undo.skip(k),
                outcomes.skip(j),
            )
        };
    reveal_with_fuel(apply::put_on_each, 2);
    assert(ids.drop_last().len() == 0);
    assert(cs.skip(m) =~= cs);
    assert(undo.skip(k) =~= undo);
    assert(outcomes.skip(j) =~= outcomes);
}

/// A setting that was put on a display whose writes take is restored.
proof fn lemma_setting_restored(
    cs: Seq<Call>,
    n: int,
    id: DisplayId,
    settings: Seq<(String, u16)>,
    selector: Seq<char>,
    undo: Seq<Undo>,
    outcomes: Seq<ApplyOutcome>,
    j: int,
)
    requires
        0 <= n <= cs.len(),
        writes_take(cs),
        apply::put_all(cs.skip(n), id, settings, selector, true, undo, outcomes),
        0 <= j < outcomes.len(),
    ensures
        outcomes.len() == settings.len(),
        restored(cs, outcomes[j], id, selector, settings[j]),
{
    let rest = cs.skip(n);
    apply::lemma_put_all_sends(rest, id, settings, selector, true, undo, outcomes, 0);
    apply::lemma_put_all_sends(rest, id, settings, selector, true, undo, outcomes, j);
    reveal(writes_take);
    let code = vcp::code_parsed(settings[j].0@)->Some_0;
    let q = n + 3 * j + 1;
    assert(rest[3 * j + 1] == cs[q]);
    assert(rest[3 * j + 2] == cs[q + 1]);
    assert(cs[q + 1] is GetVcp);
    assert(took(cs, q, id, code, settings[j].1));
}

/// Whether these are the displays that were known, or some that the platform gave.
pub open spec fn current(cs: Seq<Call>, m0: Seq<Monitor>, m1: Seq<Monitor>) -> bool {
    m1 == m0 || consulted(cs, m0, m1)
}

/// What is true of a run is true of its parts.
proof fn lemma_writes_take_in_parts(cs: Seq<Call>, m: int)
    requires
        0 <= m <= cs.len(),
        writes_take(cs),
    ensures
        writes_take(cs.take(m)),
        writes_take(cs.skip(m)),
{
    reveal(writes_take);
    let a = cs.take(m);
    let b = cs.skip(m);
    assert forall|k: int| 0 <= k < b.len() implies !apply::fails(#[trigger] b[k]) by {
        assert(b[k] == cs[m + k]);
    }
    assert forall|k: int|
        0 < k < b.len() && b[k - 1] is SetVcp && (#[trigger] b[k]) is GetVcp implies (
    b[k]->GetVcp_result matches Ok(v) && v.0 == b[k - 1]->SetVcp_value) by {
        assert(b[k] == cs[m + k] && b[k - 1] == cs[m + k - 1]);
    }
}

/// What is consulted in a part of a run is consulted in the whole.
proof fn lemma_consulted_in_whole(
    cs: Seq<Call>,
    m: int,
    m0: Seq<Monitor>,
    mid: Seq<Monitor>,
    monitors: Seq<Monitor>,
)
    requires
        0 <= m <= cs.len(),
        current(cs.take(m), m0, mid),
        consulted(cs.skip(m), mid, monitors),
    ensures
        consulted(cs, m0, monitors),
{
    if monitors == mid && mid.len() > 0 {
        if mid != m0 {
            let k = choose|k: int|
                0 <= k < cs.take(m).len() && gives(#[trigger] cs.take(m)[k], mid);
            assert(gives(cs[k], monitors));
        }
    } else {
        let k = choose|k: int|
            0 <= k < cs.skip(m).len() && gives(#[trigger] cs.skip(m)[k], monitors);
        assert(gives(cs[m + k], monitors));
    }
}

/// What is consulted in the first part of a run is consulted in the whole.
proof fn lemma_consulted_from_start(
    cs: Seq<Call>,
    m: int,
    m0: Seq<Monitor>,
    monitors: Seq<Monitor>,
)
    requires
        0 <= m <= cs.len(),
        consulted(cs.take(m), m0, monitors),
    ensures
        consulted(cs, m0, monitors),
{
    if !(monitors == m0 && m0.len() > 0) {
        let k = choose|k: int|
            0 <= k < cs.take(m).len() && gives(#[trigger] cs.take(m)[k], monitors);
        assert(gives(cs[k], monitors));
    }
}

/// Entries whose selectors hold are all restored.
proof fn lemma_entries_restored(
    cs: Seq<Call>,
    m0: Seq<Monitor>,
    m1: Seq<Monitor>,
    displays: Seq<DisplayProfile>,
    ids: Seq<DisplayId>,
    undo: Seq<Undo>,
    outcomes: Seq<ApplyOutcome>,
)
    requires
        apply::entries_applied(cs, m0, m1, displays, true, undo, outcomes),
        writes_take(cs),
        selectors_hold(cs, m0, displays, ids),
        ids.len() == displays.len(),
    ensures
        current(cs, m0, m1),
        all_restored(cs, displays, ids, outcomes),
    decreases displays.len(),
{
    if displays.len() > 0 {
        let (m, k, j, mid) = choose|m: int, k: int, j: int, mid: Seq<Monitor>|
            {
                &&& 0 <= m <= cs.len()
                &&& 0 <= k <= undo.len()
                &&& 0 <= j <= outcomes.len()
                &&& apply::entries_applied(
                    cs.take(m),
                    m0,
                    mid,
                    displays.drop_last(),
                    true,
                    undo.take(k),
                    outcomes.take(j),
                )
                &&& #[trigger] apply::entry_applied(
                    cs.skip(m),
                    mid,
                    m1,
                    displays.last(),
                    true,
                    undo.skip(k),
                    outcomes.skip(j),
                )
            };
        lemma_last_entry_restored(cs, m0, mid, m1, displays, ids, undo, outcomes, m, k, j);
    }
}

/// The step from all entries but the last to all.
proof fn lemma_last_entry_restored(
    cs: Seq<Call>,
    m0: Seq<Monitor>,
    mid: Seq<Monitor>,
    m1: Seq<Monitor>,
    displays: Seq<DisplayProfile>,
    ids: Seq<DisplayId>,
    undo: Seq<Undo>,
    outcomes: Seq<ApplyOutcome>,
    m: int,
    k: int,
    j: int,
)
    requires
        displays.len() > 0,
        ids.len() == displays.len(),
        0 <= m <= cs.len(),
        0 <= k <= undo.len(),
        0 <= j <= outcomes.len(),
        apply::entries_applied(
            cs.take(m),
            m0,
            mid,
            displays.drop_last(),
            true,
            undo.take(k),
            outcomes.take(j),
        ),
        apply::entry_applied(
            cs.skip(m),
            mid,
            m1,
            displays.last(),
            true,
            undo.skip(k),
            outcomes.skip(j),
        ),
        writes_take(cs),
        selectors_hold(cs, m0, displays, ids),
    ensures
        current(cs, m0, m1),
        all_restored(cs, displays, ids, outcomes),
    decreases displays.len(), 0int,
{
    let d = displays.last();
    let id = ids.last();
    let list = d.settings.listed();
    lemma_writes_take_in_parts(cs, m);
    let e = displays.len() - 1;
    assert(displays.take(e) =~= displays.drop_last());
    assert(ids.take(e) =~= ids.drop_last());
    lemma_selectors_hold_at_first(cs, m, m0, displays, ids, e);
    lemma_entries_restored(
        cs.take(m),
        m0,
        mid,
        displays.drop_last(),
        ids.drop_last(),
        undo.take(k),
        outcomes.take(j),
    );
    lemma_selector_holds_afterwards(cs, m, m0, mid, displays, ids, e);
    let mine = outcomes.skip(j);
    lemma_entry_restored(cs.skip(m), mid, m1, d, id, undo.skip(k), mine);
    lemma_consulted_in_whole(cs, m, m0, mid, m1);
    lemma_join_restored(cs, m, displays, ids, outcomes, j);
}

/// What the first entries and the last one restored is restored by all.
proof fn lemma_join_restored(
    cs: Seq<Call>,
    m: int,
    displays: Seq<DisplayProfile>,
    ids: Seq<DisplayId>,
    outcomes: Seq<ApplyOutcome>,
    j: int,
)
    requires
        displays.len() > 0,
        0 <= m <= cs.len(),
        0 <= j <= outcomes.len(),
        all_restored(cs.take(m), displays.drop_last(), ids.drop_last(), outcomes.take(j)),
        outcomes.skip(j).len() == displays.last().settings.listed().len(),
        forall|t: int|
            0 <= t < outcomes.skip(j).len() ==> restored(
                cs.skip(m),
                #[trigger] outcomes.skip(j)[t],
                ids.last(),
                displays.last().selector@,
                displays.last().settings.listed()[t],
            ),
    ensures
        all_restored(cs, displays, ids, outcomes),
{
    let d = displays.last();
    let list = d.settings.listed();
    lemma_all_restored_in_whole(
        cs,
        m,
        displays.drop_last(),
        ids.drop_last(),
        outcomes.take(j),
    );
    assert(outcomes.len() - list.len() == j);
    assert forall|t: int| 0 <= t < list.len() implies #[trigger] restored(
        cs,
        outcomes[j + t],
        ids.last(),
        d.selector@,
        list[t],
    ) by {
        assert(outcomes.skip(j)[t] == outcomes[j + t]);
        lemma_restored_in_whole(cs, m, outcomes[j + t], ids.last(), d.selector@, list[t]);
    }
}

/// Selectors that hold in a run hold in its first part.
proof fn lemma_selectors_hold_at_first(
    cs: Seq<Call>,
    m: int,
    m0: Seq<Monitor>,
    displays: Seq<DisplayProfile>,
    ids: Seq<DisplayId>,
    e: int,
)
    requires
        0 <= m <= cs.len(),
        0 <= e <= displays.len(),
        ids.len() == displays.len(),
        selectors_hold(cs, m0, displays, ids),
    ensures
        selectors_hold(cs.take(m), m0, displays.take(e), ids.take(e)),
{
    reveal(selector_holds);
    assert forall|i: int| 0 <= i < displays.take(e).len() implies selector_holds(
        cs.take(m),
        m0,
        (#[trigger] displays.take(e)[i]).selector@,
        ids.take(e)[i],
    ) by {
        assert(selector_holds(cs, m0, displays[i].selector@, ids[i]));
        assert forall|monitors: Seq<Monitor>|
            consulted(cs.take(m), m0, monitors) implies #[trigger] selection::selection(
            monitors,
            displays[i].selector@,
        ) == selection::Selection::Ids(seq![ids[i]]) by {
            lemma_consulted_from_start(cs, m, m0, monitors);
        }
    }
}

/// Selectors that hold in a run hold in what comes after its first part.
proof fn lemma_selector_holds_afterwards(
    cs: Seq<Call>,
    m: int,
    m0: Seq<Monitor>,
    mid: Seq<Monitor>,
    displays: Seq<DisplayProfile>,
    ids: Seq<DisplayId>,
    e: int,
)
    requires
        0 <= m <= cs.len(),
        0 <= e < displays.len(),
        selectors_hold(cs, m0, displays, ids),
        current(cs.take(m), m0, mid),
    ensures
        selector_holds(cs.skip(m), mid, displays[e].selector@, ids[e]),
{
    reveal(selector_holds);
    assert(selector_holds(cs, m0, displays[e].selector@, ids[e]));
    assert forall|monitors: Seq<Monitor>|
        consulted(cs.skip(m), mid, monitors) implies #[trigger] selection::selection(
        monitors,
        displays[e].selector@,
    ) == selection::Selection::Ids(seq![ids[e]]) by {
        lemma_consulted_in_whole(cs, m, m0, mid, monitors);
    }
}

/// An entry whose selector holds, whose settings all name a code, and none of
/// whose calls fails ends no application.
proof fn lemma_entry_cannot_break(
    cs: Seq<Call>,
    m0: Seq<Monitor>,
    m1: Seq<Monitor>,
    d: DisplayProfile,
    id: DisplayId,
    undo: Seq<Undo>,
    done: Seq<ApplyOutcome>,
    why: EngineError,
)
    requires
        writes_take(cs),
        selector_holds(cs, m0, d.selector@, id),
        apply::all_named(d.settings.listed()),
    ensures
        !apply::entry_broke(cs, m0, m1, d, true, undo, done, why),
{
    if apply::entry_broke(cs, m0, m1, d, true, undo, done, why) {
        let (n, ids) = choose|n: int, ids: Result<Vec<DisplayId>>|
            {
                &&& 0 <= n <= cs.len()
                &&& #[trigger] engine::resolved(cs.take(n), m0, m1, d.selector@, ids)
                &&& match ids {
                    Ok(v) => apply::broke_among(
                        cs.skip(n),
                        v@,
                        d.settings.listed(),
                        d.selector@,
                        true,
                        undo,
                        done,
                        why,
                    ),
                    Err(EngineError::Backend(e)) => apply::gave_up(
                        cs.skip(n),
                        e,
                        undo,
                        done,
                        why,
                    ),
                    Err(e) => !apply::absent(e) && n == cs.len() && why == e,
                }
            };
        lemma_resolving_consults(cs, n, m0, m1, d.selector@, ids);
        assert(selection::selection(m1, d.selector@) == selection::Selection::Ids(seq![id])) by {
            reveal(selector_holds);
        }
        let rest = cs.skip(n);
        apply::lemma_broke_among_fails(
            rest,
            ids->Ok_0@,
            d.settings.listed(),
            d.selector@,
            true,
            undo,
            done,
            why,
        );
        let k = choose|k: int| 0 <= k < rest.len() && apply::fails(#[trigger] rest[k]);
        reveal(writes_take);
        assert(cs[n + k] == rest[k]);
    }
}

/// What it means that all entries are restored, setting by setting.
proof fn lemma_all_restored_says(
    cs: Seq<Call>,
    displays: Seq<DisplayProfile>,
    ids: Seq<DisplayId>,
    outcomes: Seq<ApplyOutcome>,
    i: int,
    j: int,
)
    requires
        all_restored(cs, displays, ids, outcomes),
        ids.len() == displays.len(),
    ensures
        outcomes.len() == settings_in(displays),
        forall|o: int|
            0 <= o < outcomes.len() ==> (#[trigger] outcomes[o]).status == ApplyStatus::Applied,
        0 <= i < displays.len() && 0 <= j < displays[i].settings.listed().len() ==> {
            &&& 0 <= settings_in(displays.take(i)) + j < outcomes.len()
            &&& restored(
                cs,
                outcomes[settings_in(displays.take(i)) + j],
                ids[i],
                displays[i].selector@,
                displays[i].settings.listed()[j],
            )
        },
    decreases displays.len(),
{
    if displays.len() > 0 {
        let d = displays.last();
        let list = d.settings.listed();
        let n = outcomes.len() - list.len();
        let rest = displays.drop_last();
        lemma_all_restored_says(cs, rest, ids.drop_last(), outcomes.take(n), i, j);
        assert forall|o: int| 0 <= o < outcomes.len() implies (#[trigger] outcomes[o]).status
            == ApplyStatus::Applied by {
            if o < n {
                assert(outcomes.take(n)[o] == outcomes[o]);
            } else {
                assert(restored(cs, outcomes[n + (o - n)], ids.last(), d.selector@, list[o - n]));
            }
        }
        if 0 <= i < displays.len() && 0 <= j < displays[i].settings.listed().len() {
            if i < rest.len() {
                assert(rest[i] == displays[i]);
                assert(rest.take(i) =~= displays.take(i));
                assert(outcomes.take(n)[settings_in(rest.take(i)) + j]
                    == outcomes[settings_in(rest.take(i)) + j]);
            } else {
                assert(displays.take(i) =~= rest);
                assert(restored(cs, outcomes[n + j], ids.last(), d.selector@, list[j]));
            }
        }
    }
}

// ── Laws ───────────────────────────────────────────────────────────────────

/// Whether a display got back, under the code that it was read from, the value
/// that it gave when it was read, showed it right afterwards, and is reported so.
pub open spec fn got_back(read: Call, cs: Seq<Call>, q: int, o: ApplyOutcome, m: Monitor) -> bool {
    read matches Call::GetVcp { id, code, result } && id == m.id && (result matches Ok(v) && took(
        cs,
        q,
        m.id,
        vcp::code_of(vcp::code_number(code)),
        v.0,
    ) && o.display == Some(m.id.0) && o.code == vcp::code_number(code) && o.value == v.0
        && o.status == ApplyStatus::Applied)
}

/// Saving a profile and applying it restores everything that was captured.
///
/// As long as no call fails, what is read after a write is what was written, and
/// every saved selector still stands for the display that it was taken of,
/// applying the profile, unconfirmed, succeeds. There is one outcome for each
/// captured code of each display, and each says applied. Every captured value goes
/// back to the display that gave it, under the code that it was read from, and the
/// display shows it afterwards.
pub proof fn law_saved_profile_is_restored(
    taken: Seq<Call>,
    ms: Seq<Monitor>,
    all: Seq<Monitor>,
    codes: Seq<VcpCode>,
    displays: Seq<DisplayProfile>,
    cs: Seq<Call>,
    m0: Seq<Monitor>,
    m1: Seq<Monitor>,
    name: Seq<char>,
    r: Result<api::ApplyResult>,
    i: int,
    j: int,
)
    requires
        snapshot::captured(taken, ms, all, snapshot::capturable(codes), displays),
        forall|e: int|
            0 <= e < displays.len() ==> keyed::ascending(
                (#[trigger] displays[e]).settings.listed(),
            ),
        apply::ran(cs, m0, m1, name, displays, true, false, r),
        writes_take(cs),
        selectors_hold(
            cs,
            m0,
            displays,
            selection::ids_of(sources(taken, ms, snapshot::capturable(codes))),
        ),
    ensures
        r matches Ok(done) && {
            &&& done.profile@ == name
            &&& done.outcomes@.len() == settings_in(displays)
            &&& forall|o: int|
                0 <= o < done.outcomes@.len() ==> (#[trigger] done.outcomes@[o]).status
                    == ApplyStatus::Applied
            &&& 0 <= i < displays.len() && 0 <= j < displays[i].settings.listed().len()
                ==> exists|k: int, q: int|
                0 <= k < taken.len() && #[trigger] got_back(
                    taken[k],
                    cs,
                    q,
                    done.outcomes@[settings_in(displays.take(i)) + j],
                    sources(taken, ms, snapshot::capturable(codes))[i],
                )
        },
{
    let safe = snapshot::capturable(codes);
    let from = sources(taken, ms, safe);
    let ids = selection::ids_of(from);
    lemma_sources(taken, ms, all, safe, displays);
    apply::law_snapshot_applies_unconfirmed(taken, ms, all, codes, displays);
    if r is Err {
        lemma_saved_profile_cannot_break(cs, m0, m1, displays, ids, r->Err_0);
    }
    let done = r->Ok_0;
    let undo = choose|undo: Seq<Undo>| #[trigger]
        apply::entries_applied(cs, m0, m1, displays, true, undo, done.outcomes@);
    lemma_entries_restored(cs, m0, m1, displays, ids, undo, done.outcomes@);
    lemma_all_restored_says(cs, displays, ids, done.outcomes@, i, j);
    if 0 <= i < displays.len() && 0 <= j < displays[i].settings.listed().len() {
        lemma_setting_got_back(taken, ms, all, codes, displays, cs, done.outcomes@, i, j);
    }
}

/// The same from request to request: a profile that a request took, that was kept
/// where it was to go, and that a later request applied, is restored.
pub proof fn law_save_then_apply_restores(
    saving: Seq<Call>,
    b0: Seq<Monitor>,
    b1: Seq<Monitor>,
    dir: Seq<u8>,
    name: Seq<char>,
    codes: Seq<VcpCode>,
    force: bool,
    exists: bool,
    s: Snapshot,
    files: Map<Seq<u8>, Profile>,
    cs: Seq<Call>,
    m0: Seq<Monitor>,
    m1: Seq<Monitor>,
    r: Result<api::ApplyResult>,
    i: int,
    j: int,
)
    requires
        snapshot::saved(saving, b0, b1, dir, name, codes, force, exists, Ok(s)),
        forall|e: int|
            0 <= e < s.profile.displays@.len() ==> keyed::ascending(
                (#[trigger] s.profile.displays@[e]).settings.listed(),
            ),
        apply::applied(
            cs,
            m0,
            m1,
            dir,
            name,
            profile::read_at(
                profile::kept_by(files, s.plan, s.profile),
                profile::profile_path(dir, name),
            ),
            true,
            false,
            r,
        ),
        writes_take(cs),
        selectors_hold(
            cs,
            m0,
            s.profile.displays@,
            selection::ids_of(
                sources(saving.skip(1), selection::reachable(b1), snapshot::capturable(codes)),
            ),
        ),
    ensures
        r matches Ok(done) && {
            let displays = s.profile.displays@;
            &&& done.profile@ == name
            &&& done.outcomes@.len() == settings_in(displays)
            &&& forall|o: int|
                0 <= o < done.outcomes@.len() ==> (#[trigger] done.outcomes@[o]).status
                    == ApplyStatus::Applied
            &&& 0 <= i < displays.len() && 0 <= j < displays[i].settings.listed().len()
                ==> exists|k: int, q: int|
                0 <= k < saving.skip(1).len() && #[trigger] got_back(
                    saving.skip(1)[k],
                    cs,
                    q,
                    done.outcomes@[settings_in(displays.take(i)) + j],
                    sources(
                        saving.skip(1),
                        selection::reachable(b1),
                        snapshot::capturable(codes),
                    )[i],
                )
        },
{
    let ms = selection::reachable(b1);
    let p = s.profile;
    let found = profile::read_at(
        profile::kept_by(files, s.plan, p),
        profile::profile_path(dir, name),
    );
    let displays = choose|displays: Seq<DisplayProfile>| #[trigger]
        snapshot::captured(saving.skip(1), ms, ms, snapshot::capturable(codes), displays)
            && snapshot::kept(displays, dir, name, force, exists, Ok(s));
    assert(displays == p.displays@);
    let loaded = choose|loaded: profile::Result<Profile>| #[trigger]
        profile::loads(dir, name, found, loaded) && match loaded {
            Ok(q) => apply::ran(cs, m0, m1, name, q.displays@, true, false, r),
            Err(e) => cs.len() == 0 && m1 == m0 && r == Err::<api::ApplyResult, EngineError>(
                EngineError::Profile(e),
            ),
        };
    profile::law_saved_profile_is_loaded(dir, p, force, exists, s.plan, files, loaded, name);
    law_saved_profile_is_restored(
        saving.skip(1),
        ms,
        ms,
        codes,
        displays,
        cs,
        m0,
        m1,
        name,
        r,
        i,
        j,
    );
}

/// A saved profile whose selectors hold ends no application.
proof fn lemma_saved_profile_cannot_break(
    cs: Seq<Call>,
    m0: Seq<Monitor>,
    m1: Seq<Monitor>,
    displays: Seq<DisplayProfile>,
    ids: Seq<DisplayId>,
    why: EngineError,
)
    requires
        writes_take(cs),
        selectors_hold(cs, m0, displays, ids),
        ids.len() == displays.len(),
        forall|i: int, j: int|
            0 <= i < displays.len() && 0 <= j < displays[i].settings.listed().len()
                ==> vcp::code_parsed((#[trigger] displays[i].settings.listed()[j]).0@) is Some,
    ensures
        !apply::entries_broke(cs, m0, m1, displays, true, why),
{
    if apply::entries_broke(cs, m0, m1, displays, true, why) {
        let (m, e, mid, undo, outcomes) = choose|
            m: int,
            e: int,
            mid: Seq<Monitor>,
            undo: Seq<Undo>,
            outcomes: Seq<ApplyOutcome>,
        |
            {
                &&& 0 <= m <= cs.len()
                &&& 0 <= e < displays.len()
                &&& #[trigger] apply::entries_applied(
                    cs.take(m),
                    m0,
                    mid,
                    displays.take(e),
                    true,
                    undo,
                    outcomes,
                )
                &&& apply::entry_broke(
                    cs.skip(m),
                    mid,
                    m1,
                    displays[e],
                    true,
                    undo,
                    outcomes,
                    why,
                )
            };
        let d = displays[e];
        lemma_writes_take_in_parts(cs, m);
        lemma_selectors_hold_at_first(cs, m, m0, displays, ids, e);
        lemma_entries_restored(
            cs.take(m),
            m0,
            mid,
            displays.take(e),
            ids.take(e),
            undo,
            outcomes,
        );
        lemma_selector_holds_afterwards(cs, m, m0, mid, displays, ids, e);
        assert forall|j: int| 0 <= j < d.settings.listed().len() implies vcp::code_parsed(
            (#[trigger] d.settings.listed()[j]).0@,
        ) is Some by {
            assert(vcp::code_parsed(displays[e].settings.listed()[j].0@) is Some);
        }
        lemma_entry_cannot_break(cs.skip(m), mid, m1, d, ids[e], undo, outcomes, why);
    }
}

/// A restored setting of a snapshot is what its display gave when it was read.
proof fn lemma_setting_got_back(
    taken: Seq<Call>,
    ms: Seq<Monitor>,
    all: Seq<Monitor>,
    codes: Seq<VcpCode>,
    displays: Seq<DisplayProfile>,
    cs: Seq<Call>,
    outcomes: Seq<ApplyOutcome>,
    i: int,
    j: int,
)
    requires
        snapshot::captured(taken, ms, all, snapshot::capturable(codes), displays),
        0 <= i < displays.len(),
        0 <= j < displays[i].settings.listed().len(),
        keyed::ascending(displays[i].settings.listed()),
        restored(
            cs,
            outcomes[settings_in(displays.take(i)) + j],
            sources(taken, ms, snapshot::capturable(codes))[i].id,
            displays[i].selector@,
            displays[i].settings.listed()[j],
        ),
    ensures
        exists|k: int, q: int|
            0 <= k < taken.len() && #[trigger] got_back(
                taken[k],
                cs,
                q,
                outcomes[settings_in(displays.take(i)) + j],
                sources(taken, ms, snapshot::capturable(codes))[i],
            ),
{
    let safe = snapshot::capturable(codes);
    let m = sources(taken, ms, safe)[i];
    let list = displays[i].settings.listed();
    let key = list[j].0@;
    let o = outcomes[settings_in(displays.take(i)) + j];
    keyed::lemma_entry_map(list, j);
    lemma_source_answered(taken, ms, all, safe, displays, i, key);
    let k = choose|k: int|
        0 <= k < taken.len() && #[trigger] snapshot::answered_with(
            taken[k],
            m,
            safe,
            key,
            displays[i].settings@[key],
        );
    let code = taken[k]->GetVcp_code;
    let p = |c: VcpCode| !vcp::destructive(c);
    codes.lemma_filter_pred(p, safe.index_of(code));
    snapshot::law_setting_key_reads_back(code);
    let same = vcp::code_of(vcp::code_number(code));
    let q = choose|q: int| #[trigger] took(cs, q, m.id, same, list[j].1);
    assert(got_back(taken[k], cs, q, o, m));
}

} // verus!
