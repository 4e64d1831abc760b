//! Which displays a selector stands for.

use crate::model;
use crate::model::identity;
use crate::model::profile;
use crate::model::rules;
use crate::model::{DisplayId, Monitor, ProfileError, RulesError};
use crate::text;
use vstd::prelude::*;

verus! {

/// Why a request could not be met.
#[derive(Debug)]
pub enum EngineError {
    NoMatch(String),
    Ambiguous(String, String),
    NeedsSelector(usize),
    NoDisplays,
    BadCode(String),
    DestructiveProfile { name: String, code: String },
    Backend(model::Error),
    Profile(ProfileError),
    Rules(RulesError),
}

pub type Result<T> = core::result::Result<T, EngineError>;

/// What an error reads as.
pub open spec fn error_text(e: EngineError) -> Seq<char> {
    match e {
        EngineError::NoMatch(s) => "no display matches "@ + text::quoted(s@),
        EngineError::Ambiguous(s, list) => text::quoted(s@) + " is ambiguous — matches "@ + list@
            + ". Use --display with an id or a longer name."@,
        EngineError::NeedsSelector(n) => "no display specified and "@ + text::decimal(n as nat)
            + " displays are controllable — use --display"@,
        EngineError::NoDisplays => "no controllable displays found"@,
        EngineError::BadCode(s) => "unknown VCP code "@ + text::quoted(s@)
            + " — use a name like \"brightness\" or a number like \"0x10\""@,
        EngineError::DestructiveProfile { name, code } => "profile "@ + text::quoted(name@)
            + " writes "@ + code@ + ", which cannot be undone — pass --yes to confirm"@,
        EngineError::Backend(e) => model::error_text(e),
        EngineError::Profile(e) => profile::error_text(e),
        EngineError::Rules(e) => rules::error_text(e),
    }
}

impl EngineError {
    /// The error as a message for people.
    pub fn message(&self) -> (r: String)
        ensures
            r@ == error_text(*self),
    {
        match self {
            EngineError::NoMatch(s) => text::after(
                "no display matches ",
                text::quote(s.as_str()).as_str(),
            ),
            EngineError::Ambiguous(s, list) => {
                let mut out = text::between(
                    text::quote(s.as_str()).as_str(),
                    " is ambiguous — matches ",
                    list.as_str(),
                );
                out.append(". Use --display with an id or a longer name.");
                out
            },
            EngineError::NeedsSelector(n) => text::between(
                "no display specified and ",
                text::write_decimal(*n as u64).as_str(),
                " displays are controllable — use --display",
            ),
            EngineError::NoDisplays => text::own("no controllable displays found"),
            EngineError::BadCode(s) => text::between(
                "unknown VCP code ",
                text::quote(s.as_str()).as_str(),
                " — use a name like \"brightness\" or a number like \"0x10\"",
            ),
            EngineError::DestructiveProfile { name, code } => {
                let mut out = text::between(
                    "profile ",
                    text::quote(name.as_str()).as_str(),
                    " writes ",
                );
                out.append(code.as_str());
                out.append(", which cannot be undone — pass --yes to confirm");
                out
            },
            EngineError::Backend(e) => e.message(),
            EngineError::Profile(e) => e.message(),
            EngineError::Rules(e) => e.message(),
        }
    }
}

/// The displays that can be driven, in order.
pub open spec fn reachable(monitors: Seq<Monitor>) -> Seq<Monitor> {
    monitors.filter(|m: Monitor| model::controllable(m))
}

/// The ids of displays.
pub open spec fn ids_of(monitors: Seq<Monitor>) -> Seq<DisplayId> {
    Seq::new(monitors.len(), |i: int| monitors[i].id)
}

/// Whether a display is called by a name that holds `needle`, case aside.
pub open spec fn called(m: Monitor, needle: Seq<char>) -> bool {
    ||| text::has_text(text::lowercase(m.identity.product_name@), needle)
    ||| text::has_text(text::lowercase(m.identity.vendor@), needle)
}

/// The displays that are called by a name that holds `needle`.
pub open spec fn named(monitors: Seq<Monitor>, needle: Seq<char>) -> Seq<Monitor> {
    monitors.filter(|m: Monitor| called(m, needle))
}

/// A display as a candidate: its name and its id.
pub open spec fn candidate(m: Monitor) -> Seq<char> {
    identity::title_of(m.identity) + " (id "@ + text::decimal(m.id.0 as nat) + ")"@
}

/// The candidates, one after the other.
pub open spec fn candidates(monitors: Seq<Monitor>) -> Seq<char> {
    text::joined(Seq::new(monitors.len(), |i: int| candidate(monitors[i])), ", "@)
}

/// What a selector stands for.
pub enum Selection {
    Ids(Seq<DisplayId>),
    NoDisplays,
    NeedsSelector(nat),
    NoMatch,
    Ambiguous(Seq<char>),
}

/// Whether one of the displays has this number.
pub open spec fn has_number(monitors: Seq<Monitor>, n: nat) -> bool {
    exists|i: int| 0 <= i < monitors.len() && (#[trigger] monitors[i]).id.0 == n
}

/// What a selector stands for among displays that can be driven: `all`, an id,
/// or part of a name, case aside. An empty one stands for the only display, and
/// for none where there are several.
pub open spec fn selection_among(c: Seq<Monitor>, sel: Seq<char>) -> Selection {
    if text::ascii_lowered(sel) == "all"@ {
        Selection::Ids(ids_of(c))
    } else if sel.len() == 0 {
        if c.len() == 1 {
            Selection::Ids(ids_of(c))
        } else {
            Selection::NeedsSelector(c.len())
        }
    } else if text::parsed_number(sel, 10, u32::MAX as nat) is Some && has_number(
        c,
        text::parsed_number(sel, 10, u32::MAX as nat)->Some_0,
    ) {
        Selection::Ids(
            seq![DisplayId(text::parsed_number(sel, 10, u32::MAX as nat)->Some_0 as u32)],
        )
    } else {
        let hits = named(c, text::lowercase(sel));
        if hits.len() == 0 {
            Selection::NoMatch
        } else if hits.len() == 1 {
            Selection::Ids(ids_of(hits))
        } else {
            Selection::Ambiguous(candidates(hits))
        }
    }
}

/// What a selector stands for among attached displays.
pub open spec fn selection(monitors: Seq<Monitor>, selector: Seq<char>) -> Selection {
    let c = reachable(monitors);
    if c.len() == 0 {
        Selection::NoDisplays
    } else {
        selection_among(c, text::trimmed(selector))
    }
}

/// Whether a result says what the selector stands for.
pub open spec fn selects(
    monitors: Seq<Monitor>,
    selector: Seq<char>,
    r: Result<Vec<DisplayId>>,
) -> bool {
    match selection(monitors, selector) {
        Selection::Ids(ids) => r matches Ok(v) && v@ == ids,
        Selection::NoDisplays => r matches Err(EngineError::NoDisplays),
        Selection::NeedsSelector(n) => r matches Err(EngineError::NeedsSelector(m)) && m == n,
        Selection::NoMatch => r matches Err(EngineError::NoMatch(s)) && s@ == selector,
        Selection::Ambiguous(list) => r matches Err(EngineError::Ambiguous(s, l)) && s@ == selector
            && l@ == list,
    }
}

/// Filtering one more element.
pub proof fn lemma_filter_next(v: Seq<Monitor>, p: spec_fn(Monitor) -> bool, i: int)
    requires
        0 <= i < v.len(),
    ensures
        v.take(i + 1).filter(p) == if p(v[i]) {
            v.take(i).filter(p).push(v[i])
        } else {
            v.take(i).filter(p)
        },
{
    reveal(Seq::filter);
    assert(v.take(i + 1).drop_last() =~= v.take(i));
}

/// The displays that can be driven.
pub(crate) fn driven(monitors: &Vec<Monitor>) -> (r: Vec<&Monitor>)
    ensures
        r@.len() == reachable(monitors@).len(),
        forall|i: int| 0 <= i < r@.len() ==> *(#[trigger] r@[i]) == reachable(monitors@)[i],
{
    let mut out: Vec<&Monitor> = Vec::new();
    let mut i: usize = 0;
    let ghost p = |m: Monitor| model::controllable(m);
    proof {
        reveal(Seq::filter);
    }
    while i < monitors.len()
        invariant
            i <= monitors@.len(),
            p == (|m: Monitor| model::controllable(m)),
            out@.len() == monitors@.take(i as int).filter(p).len(),
            forall|k: int|
                0 <= k < out@.len() ==> *(#[trigger] out@[k]) == monitors@.take(i as int).filter(
                    p,
                )[k],
        decreases monitors@.len() - i,
    {
        proof {
            lemma_filter_next(monitors@, p, i as int);
        }
        if monitors[i].is_controllable() {
            out.push(&monitors[i]);
        }
        i = i + 1;
    }
    assert(monitors@.take(i as int) =~= monitors@);
    out
}

/// The ids of displays.
fn list_ids(c: &Vec<&Monitor>, Ghost(all): Ghost<Seq<Monitor>>) -> (r: Vec<DisplayId>)
    requires
        c@.len() == all.len(),
        forall|i: int| 0 <= i < c@.len() ==> *(#[trigger] c@[i]) == all[i],
    ensures
        r@ == ids_of(all),
{
    let mut out: Vec<DisplayId> = Vec::new();
    let mut i: usize = 0;
    while i < c.len()
        invariant
            i <= c@.len(),
            c@.len() == all.len(),
            forall|k: int| 0 <= k < c@.len() ==> *(#[trigger] c@[k]) == all[k],
            out@ == ids_of(all).take(i as int),
        decreases c@.len() - i,
    {
        out.push(c[i].id);
        i = i + 1;
        assert(ids_of(all).take(i as int) =~= ids_of(all).take(i - 1).push(ids_of(all)[i - 1]));
    }
    assert(ids_of(all).take(i as int) =~= ids_of(all));
    out
}

/// Whether a display is called by a name that holds `needle`.
fn is_called(m: &Monitor, needle: &str) -> (b: bool)
    ensures
        b == called(*m, needle@),
{
    text::contains_text(text::lower(m.identity.product_name.as_str()).as_str(), needle)
        || text::contains_text(text::lower(m.identity.vendor.as_str()).as_str(), needle)
}

/// A display as a candidate: its name and its id.
fn write_candidate(m: &Monitor) -> (r: String)
    ensures
        r@ == candidate(*m),
{
    let mut out = m.identity.describe();
    out.append(" (id ");
    out.append(m.id.describe().as_str());
    out.append(")");
    out
}

/// Resolve a selector to display ids.
///
/// Accepts `all`, a numeric id, or a case-insensitive substring of the
/// vendor/product. An empty selector auto-picks when exactly one display is
/// controllable, and otherwise refuses rather than guessing: guessing wrong on
/// an input switch costs the user their picture.
pub fn select(monitors: &Vec<Monitor>, selector: &str) -> (r: Result<Vec<DisplayId>>)
    ensures
        selects(monitors@, selector@, r),
{
    let c = driven(monitors);
    let ghost all = reachable(monitors@);
    if c.len() == 0 {
        return Err(EngineError::NoDisplays);
    }
    let sel = text::trim(selector);
    if text::same(text::lower_ascii(sel.as_str()).as_str(), "all") {
        return Ok(list_ids(&c, Ghost(all)));
    }
    if text::empty(sel.as_str()) {
        return if c.len() == 1 {
            Ok(list_ids(&c, Ghost(all)))
        } else {
            Err(EngineError::NeedsSelector(c.len()))
        };
    }
    if let Some(n) = text::parse_number(sel.as_str(), 10, 0xFFFF_FFFF) {
        let mut i: usize = 0;
        while i < c.len()
            invariant
                i <= c@.len(),
                n <= u32::MAX,
                c@.len() == all.len(),
                all == reachable(monitors@),
                all.len() > 0,
                sel@ == text::trimmed(selector@),
                sel@.len() > 0,
                text::ascii_lowered(sel@) != "all"@,
                text::parsed_number(sel@, 10, u32::MAX as nat) == Some(n as nat),
                forall|k: int| 0 <= k < c@.len() ==> *(#[trigger] c@[k]) == all[k],
                forall|k: int| 0 <= k < i ==> (#[trigger] all[k]).id.0 != n,
            decreases c@.len() - i,
        {
            if c[i].id.0 == n as u32 {
                let mut one: Vec<DisplayId> = Vec::new();
                one.push(c[i].id);
                assert(all[i as int].id.0 == n);
                assert(one@ =~= seq![DisplayId(n as u32)]);
                return Ok(one);
            }
            i = i + 1;
        }
    }
    let needle = text::lower(sel.as_str());
    let ghost p = |m: Monitor| called(m, needle@);
    let mut hits: Vec<DisplayId> = Vec::new();
    let mut labels: Vec<String> = Vec::new();
    let mut i: usize = 0;
    proof {
        reveal(Seq::filter);
    }
    assert(hits@ =~= ids_of(all.take(0).filter(p)));
    while i < c.len()
        invariant
            i <= c@.len(),
            c@.len() == all.len(),
            forall|k: int| 0 <= k < c@.len() ==> *(#[trigger] c@[k]) == all[k],
            p == (|m: Monitor| called(m, needle@)),
            hits@ == ids_of(all.take(i as int).filter(p)),
            labels@.len() == hits@.len(),
            forall|k: int|
                0 <= k < labels@.len() ==> (#[trigger] labels@[k])@ == candidate(
                    all.take(i as int).filter(p)[k],
                ),
        decreases c@.len() - i,
    {
        proof {
            lemma_filter_next(all, p, i as int);
        }
        let ghost before = all.take(i as int).filter(p);
        if is_called(c[i], needle.as_str()) {
            hits.push(c[i].id);
            labels.push(write_candidate(c[i]));
            assert(hits@ =~= ids_of(before.push(all[i as int])));
        }
        i = i + 1;
    }
    assert(all.take(i as int) =~= all);
    if hits.len() == 0 {
        Err(EngineError::NoMatch(text::own(selector)))
    } else if hits.len() == 1 {
        Ok(hits)
    } else {
        let list = text::join(&labels, ", ");
        let ghost found = named(all, needle@);
        assert(text::texts(labels@) =~= Seq::new(found.len(), |k: int| candidate(found[k])));
        Err(EngineError::Ambiguous(text::own(selector), list))
    }
}

// ── Laws ───────────────────────────────────────────────────────────────────

/// `all`, in any case and with white space round it, is every display that can
/// be driven.
pub proof fn law_all_is_every_driven_display(monitors: Seq<Monitor>, selector: Seq<char>)
    requires
        reachable(monitors).len() > 0,
        text::ascii_lowered(text::trimmed(selector)) == "all"@,
    ensures
        selection(monitors, selector) == Selection::Ids(ids_of(reachable(monitors))),
{
}

/// Only `all` ever stands for more than one display.
pub proof fn law_only_all_stands_for_several(monitors: Seq<Monitor>, selector: Seq<char>)
    ensures
        selection(monitors, selector) matches Selection::Ids(ids) ==> ids.len() == 1
            || text::ascii_lowered(text::trimmed(selector)) == "all"@,
{
}

/// An id that is one of the displays' own is never taken for part of a name.
pub proof fn law_an_id_is_that_display(monitors: Seq<Monitor>, selector: Seq<char>, n: nat)
    requires
        text::parsed_number(text::trimmed(selector), 10, u32::MAX as nat) == Some(n),
        has_number(reachable(monitors), n),
    ensures
        selection(monitors, selector) == Selection::Ids(seq![DisplayId(n as u32)]),
{
    let sel = text::trimmed(selector);
    reveal_strlit("all");
    if text::ascii_lowered(sel) == "all"@ {
        assert(text::ascii_lowered(sel)[0] == 'a');
        assert(text::ascii_lower_char(sel[0]) == 'a');
        assert(sel.len() == 3);
        assert("all"@[1] == 'l');
        assert(text::ascii_lowered(sel)[1] == 'l');
        let body = text::unsigned_part(sel);
        assert(text::digit_value(body[1]) >= 10);
    }
}

/// Every display that a selector stands for is attached and can be driven.
pub proof fn law_selected_displays_can_be_driven(
    monitors: Seq<Monitor>,
    selector: Seq<char>,
    k: int,
)
    ensures
        selection(monitors, selector) matches Selection::Ids(ids) ==> (0 <= k < ids.len() ==>
            exists|i: int|
            0 <= i < monitors.len() && (#[trigger] monitors[i]).id == ids[k] && model::controllable(
                monitors[i],
            )),
{
    let c = reachable(monitors);
    let sel = text::trimmed(selector);
    if selection(monitors, selector) is Ids && 0 <= k < selection(monitors, selector)->Ids_0.len() {
        let ids = selection(monitors, selector)->Ids_0;
        broadcast use vstd::seq_lib::group_filter_ensures;
        let p = |m: Monitor| model::controllable(m);
        assert(exists|j: int| 0 <= j < c.len() && (#[trigger] c[j]).id == ids[k]) by {
            if text::ascii_lowered(sel) == "all"@ || sel.len() == 0 {
                assert(c[k].id == ids[k]);
            } else if text::parsed_number(sel, 10, u32::MAX as nat) is Some && has_number(
                c,
                text::parsed_number(sel, 10, u32::MAX as nat)->Some_0,
            ) {
                let n = text::parsed_number(sel, 10, u32::MAX as nat)->Some_0;
                let j = choose|j: int| 0 <= j < c.len() && (#[trigger] c[j]).id.0 == n;
                assert(c[j].id == ids[k]);
            } else {
                let hits = named(c, text::lowercase(sel));
                assert(hits.contains(hits[k]));
                c.lemma_filter_contains_rev(
                    |m: Monitor| called(m, text::lowercase(sel)),
                    hits[k],
                );
            }
        }
        let j = choose|j: int| 0 <= j < c.len() && (#[trigger] c[j]).id == ids[k];
        assert(c.contains(c[j]));
        monitors.lemma_filter_contains_rev(p, c[j]);
        assert(p(c[j]));
    }
}

/// Whether a text stands somewhere in another.
pub open spec fn stands_in(hay: Seq<char>, needle: Seq<char>) -> bool {
    exists|at: int|
        0 <= at && at + needle.len() <= hay.len() && #[trigger] hay.subrange(at, at + needle.len())
            == needle
}

/// Whether a display can be driven and its vendor or its product name holds a text,
/// case aside.
pub open spec fn answers_to(m: Monitor, sel: Seq<char>) -> bool {
    &&& m.control is Ddc || m.control is Native
    &&& stands_in(text::lowercase(m.identity.product_name@), text::lowercase(sel)) || stands_in(
        text::lowercase(m.identity.vendor@),
        text::lowercase(sel),
    )
}

/// What stands somewhere in a text is found in it.
proof fn lemma_stands_in(hay: Seq<char>, needle: Seq<char>)
    ensures
        text::has_text(hay, needle) == stands_in(hay, needle),
{
    if text::has_text(hay, needle) {
        let at = choose|at: int| text::occurs_at(hay, needle, at);
        assert(hay.subrange(at, at + needle.len()) == needle);
    }
    if stands_in(hay, needle) {
        let at = choose|at: int|
            0 <= at && at + needle.len() <= hay.len() && #[trigger] hay.subrange(
                at,
                at + needle.len(),
            ) == needle;
        assert(text::occurs_at(hay, needle, at));
    }
}

/// How many elements a filter lets through, and which, by how many it holds of.
pub proof fn lemma_filter(v: Seq<Monitor>, p: spec_fn(Monitor) -> bool, i: int, j: int)
    ensures
        (forall|k: int| 0 <= k < v.len() ==> !p(#[trigger] v[k])) ==> v.filter(p).len() == 0,
        0 <= i < v.len() && p(v[i]) ==> v.filter(p).len() >= 1,
        0 <= i < v.len() && p(v[i]) && (forall|k: int|
            0 <= k < v.len() && k != i ==> !p(#[trigger] v[k])) ==> v.filter(p) == seq![v[i]],
        0 <= i < j < v.len() && p(v[i]) && p(v[j]) ==> v.filter(p).len() >= 2,
    decreases v.len(),
{
    reveal(Seq::filter);
    if v.len() > 0 {
        let rest = v.drop_last();
        lemma_filter(rest, p, i, j);
        assert forall|k: int| 0 <= k < rest.len() implies rest[k] == v[k] by {}
        if 0 <= i < v.len() && p(v[i]) && (forall|k: int|
            0 <= k < v.len() && k != i ==> !p(#[trigger] v[k])) {
            if i == rest.len() {
                assert forall|k: int| 0 <= k < rest.len() implies !p(#[trigger] rest[k]) by {
                    assert(!p(v[k]));
                }
                assert(v.filter(p) =~= seq![v[i]]);
            } else {
                assert forall|k: int| 0 <= k < rest.len() && k != i implies !p(
                    #[trigger] rest[k],
                ) by {
                    assert(!p(v[k]));
                }
                assert(!p(v[rest.len() as int]));
            }
        }
        if forall|k: int| 0 <= k < v.len() ==> !p(#[trigger] v[k]) {
            assert forall|k: int| 0 <= k < rest.len() implies !p(#[trigger] rest[k]) by {
                assert(!p(v[k]));
            }
        }
        if 0 <= i < j < v.len() && p(v[i]) && p(v[j]) && j == rest.len() {
            assert(p(rest[i]));
        }
    }
}

/// Filtering twice is filtering by both.
proof fn lemma_filter_twice(
    v: Seq<Monitor>,
    p: spec_fn(Monitor) -> bool,
    q: spec_fn(Monitor) -> bool,
    both: spec_fn(Monitor) -> bool,
)
    requires
        forall|m: Monitor| #[trigger] both(m) == (p(m) && q(m)),
    ensures
        v.filter(p).filter(q) == v.filter(both),
    decreases v.len(),
{
    reveal(Seq::filter);
    if v.len() > 0 {
        lemma_filter_twice(v.drop_last(), p, q, both);
        let f = v.drop_last().filter(p);
        let m = v.last();
        assert(both(m) == (p(m) && q(m)));
        if p(m) {
            assert(f.push(m).drop_last() =~= f);
        }
    }
}

/// The displays that answer to a text are those that can be driven and are called so.
proof fn lemma_hits(monitors: Seq<Monitor>, sel: Seq<char>)
    ensures
        named(reachable(monitors), text::lowercase(sel)) == monitors.filter(
            |m: Monitor| answers_to(m, sel),
        ),
{
    let needle = text::lowercase(sel);
    let p = |m: Monitor| model::controllable(m);
    let q = |m: Monitor| called(m, needle);
    let both = |m: Monitor| answers_to(m, sel);
    assert forall|m: Monitor| #[trigger] both(m) == (p(m) && q(m)) by {
        lemma_stands_in(text::lowercase(m.identity.product_name@), needle);
        lemma_stands_in(text::lowercase(m.identity.vendor@), needle);
    }
    lemma_filter_twice(monitors, p, q, both);
}

/// A text that is no id and not `all` stands for the one display that answers to it,
/// for none where none does, and is refused where several do: nothing is guessed.
pub proof fn law_names_find_one_display(
    monitors: Seq<Monitor>,
    selector: Seq<char>,
    i: int,
    j: int,
)
    requires
        ({
            let sel = text::trimmed(selector);
            &&& sel.len() > 0
            &&& text::ascii_lowered(sel) != "all"@
            &&& text::parsed_number(sel, 10, u32::MAX as nat) matches Some(n) ==> forall|k: int|
                0 <= k < monitors.len() ==> (#[trigger] monitors[k]).id.0 != n
        }),
        exists|k: int|
            0 <= k < monitors.len() && ((#[trigger] monitors[k]).control is Ddc
                || monitors[k].control is Native),
    ensures
        ({
            let sel = text::trimmed(selector);
            &&& (forall|k: int| 0 <= k < monitors.len() ==> !answers_to(#[trigger] monitors[k], sel))
                ==> selection(monitors, selector) == Selection::NoMatch
            &&& 0 <= i < monitors.len() && answers_to(monitors[i], sel) && (forall|k: int|
                0 <= k < monitors.len() && k != i ==> !answers_to(#[trigger] monitors[k], sel))
                ==> selection(monitors, selector) == Selection::Ids(seq![monitors[i].id])
            &&& 0 <= i < j < monitors.len() && answers_to(monitors[i], sel) && answers_to(
                monitors[j],
                sel,
            ) ==> selection(monitors, selector) is Ambiguous
        }),
{
    let sel = text::trimmed(selector);
    let p = |m: Monitor| model::controllable(m);
    let c = reachable(monitors);
    let k = choose|k: int|
        0 <= k < monitors.len() && ((#[trigger] monitors[k]).control is Ddc
            || monitors[k].control is Native);
    lemma_filter(monitors, p, k, k);
    lemma_hits(monitors, sel);
    let both = |m: Monitor| answers_to(m, sel);
    lemma_filter(monitors, both, i, j);
    let hits = named(c, text::lowercase(sel));
    if text::parsed_number(sel, 10, u32::MAX as nat) is Some {
        let n = text::parsed_number(sel, 10, u32::MAX as nat)->Some_0;
        if has_number(c, n) {
            let a = choose|a: int| 0 <= a < c.len() && (#[trigger] c[a]).id.0 == n;
            assert(c.contains(c[a]));
            monitors.lemma_filter_contains_rev(p, c[a]);
            let b = choose|b: int| 0 <= b < monitors.len() && monitors[b] == c[a];
            assert(monitors[b].id.0 != n);
        }
    }
    if 0 <= i < monitors.len() && answers_to(monitors[i], sel) && (forall|k: int|
        0 <= k < monitors.len() && k != i ==> !answers_to(#[trigger] monitors[k], sel)) {
        assert(hits =~= seq![monitors[i]]);
        assert(ids_of(hits) =~= seq![monitors[i].id]);
    }
}

/// Without a selector the only display that can be driven is meant, and where there
/// are several, nothing is guessed.
pub proof fn law_an_empty_selector_guesses_nothing(
    monitors: Seq<Monitor>,
    selector: Seq<char>,
    i: int,
    j: int,
)
    requires
        text::trimmed(selector).len() == 0,
        0 <= i < monitors.len(),
        monitors[i].control is Ddc || monitors[i].control is Native,
    ensures
        (forall|k: int|
            0 <= k < monitors.len() && k != i ==> (#[trigger] monitors[k]).control is Uncontrollable)
            ==> selection(monitors, selector) == Selection::Ids(seq![monitors[i].id]),
        i < j < monitors.len() && !(monitors[j].control is Uncontrollable) ==> (selection(
            monitors,
            selector,
        ) matches Selection::NeedsSelector(n) && n >= 2),
{
    let p = |m: Monitor| model::controllable(m);
    lemma_filter(monitors, p, i, j);
    reveal_strlit("all");
    let sel = text::trimmed(selector);
    assert(text::ascii_lowered(sel).len() == 0);
    if forall|k: int|
        0 <= k < monitors.len() && k != i ==> (#[trigger] monitors[k]).control is Uncontrollable {
        assert(reachable(monitors) =~= seq![monitors[i]]);
        assert(ids_of(reachable(monitors)) =~= seq![monitors[i].id]);
    }
}

/// Where no display can be driven, no selector stands for any.
pub proof fn law_nothing_is_selected_of_nothing(monitors: Seq<Monitor>, selector: Seq<char>)
    requires
        forall|k: int|
            0 <= k < monitors.len() ==> (#[trigger] monitors[k]).control is Uncontrollable,
    ensures
        selection(monitors, selector) == Selection::NoDisplays,
{
    let p = |m: Monitor| model::controllable(m);
    lemma_filter(monitors, p, 0, 0);
}

/// `all` stands for the displays that can be driven, each of them and no other, in
/// their order.
pub proof fn law_all_leaves_none_out(monitors: Seq<Monitor>, selector: Seq<char>, id: DisplayId)
    requires
        text::ascii_lowered(text::trimmed(selector)) == "all"@,
    ensures
        (selection(monitors, selector) matches Selection::Ids(ids) && ids.contains(id)) == exists|
            k: int,
        |
            0 <= k < monitors.len() && (#[trigger] monitors[k]).id == id && !(
            monitors[k].control is Uncontrollable),
{
    let p = |m: Monitor| model::controllable(m);
    let c = reachable(monitors);
    broadcast use vstd::seq_lib::group_filter_ensures;
    if exists|k: int|
        0 <= k < monitors.len() && (#[trigger] monitors[k]).id == id && !(
        monitors[k].control is Uncontrollable) {
        let k = choose|k: int|
            0 <= k < monitors.len() && (#[trigger] monitors[k]).id == id && !(
            monitors[k].control is Uncontrollable);
        assert(p(monitors[k]));
        assert(c.contains(monitors[k]));
        let a = choose|a: int| 0 <= a < c.len() && c[a] == monitors[k];
        assert(ids_of(c)[a] == id);
    }
    if selection(monitors, selector) is Ids && selection(monitors, selector)->Ids_0.contains(id) {
        let a = choose|a: int| 0 <= a < ids_of(c).len() && ids_of(c)[a] == id;
        assert(c.contains(c[a]));
        monitors.lemma_filter_contains_rev(p, c[a]);
        let b = choose|b: int| 0 <= b < monitors.len() && monitors[b] == c[a];
        assert(p(c[a]));
        assert(monitors[b].id == id);
    }
}

/// A selector that stands for displays is answered with them, and one that does not
/// is answered with an error that says why and repeats the selector.
pub proof fn law_selectors_are_answered(
    monitors: Seq<Monitor>,
    selector: Seq<char>,
    r: Result<Vec<DisplayId>>,
)
    requires
        selects(monitors, selector, r),
    ensures
        (r is Ok) == (selection(monitors, selector) is Ids),
        r matches Ok(v) ==> selection(monitors, selector) == Selection::Ids(v@),
        r matches Err(e) ==> match e {
            EngineError::NoDisplays => selection(monitors, selector) is NoDisplays,
            EngineError::NeedsSelector(n) => selection(monitors, selector)
                == Selection::NeedsSelector(n as nat),
            EngineError::NoMatch(s) => s@ == selector && selection(monitors, selector) is NoMatch,
            EngineError::Ambiguous(s, l) => s@ == selector && selection(monitors, selector)
                == Selection::Ambiguous(l@),
            _ => false,
        },
{
}

/// Each error is told by what it is and by what was asked for, with a way on where there is
/// one.
pub proof fn law_errors_say_what_they_are(e: EngineError)
    ensures
        e is NoMatch ==> error_text(e) == "no display matches "@ + text::quoted(e->NoMatch_0@),
        e is Ambiguous ==> error_text(e) == text::quoted(e->Ambiguous_0@)
            + " is ambiguous — matches "@ + e->Ambiguous_1@
            + ". Use --display with an id or a longer name."@,
        e is NeedsSelector ==> error_text(e) == "no display specified and "@ + text::decimal(
            e->NeedsSelector_0 as nat,
        ) + " displays are controllable — use --display"@,
        e is NoDisplays ==> error_text(e) == "no controllable displays found"@,
        e is BadCode ==> error_text(e) == "unknown VCP code "@ + text::quoted(e->BadCode_0@)
            + " — use a name like \"brightness\" or a number like \"0x10\""@,
        e is DestructiveProfile ==> error_text(e) == "profile "@ + text::quoted(
            e->DestructiveProfile_name@,
        ) + " writes "@ + e->DestructiveProfile_code@
            + ", which cannot be undone — pass --yes to confirm"@,
        e is Backend ==> error_text(e) == model::error_text(e->Backend_0),
        e is Profile ==> error_text(e) == profile::error_text(e->Profile_0),
        e is Rules ==> error_text(e) == rules::error_text(e->Rules_0),
{
}

} // verus!
