//! Keeping the snapshot current.
//!
//! The list of displays is quick to get, so that the daemon is up and which
//! displays there are is published the instant it arrives. Slider values come
//! from reads that can take many seconds for a sleeping display; those are filled
//! in afterwards, display by display, and a read that fails keeps the value that
//! was shown rather than dropping the slider.

use crate::api::{CapsResult, ControlPath, MonitorInfo, ProfileSummary, VcpValue};
use crate::ddc::vcp;
use crate::ddc::vcp::VcpCode;
use crate::gui::client;
use crate::gui::client::{
    Caps, Display, MonitorView, Picker, PickerView, Shown, Slider, SliderView, Snapshot,
};
use crate::gui::config;
use crate::gui::config::{CodeSets, GuiConfig};
use crate::text;
use vstd::prelude::*;

verus! {

broadcast use vstd::std_specs::hash::group_hash_axioms;

// ── The parts of a refresh ─────────────────────────────────────────────────

/// What is shown once the daemon is gone. The capabilities are kept: stale, but
/// harmless.
pub open spec fn down(s: Shown) -> Shown {
    Shown {
        daemon_up: false,
        monitors: Seq::empty(),
        generation: client::bumped(s.generation),
        ..s
    }
}

/// The last display of an id.
pub open spec fn known(monitors: Seq<Display>, id: u32) -> Option<Display>
    decreases monitors.len(),
{
    if monitors.len() == 0 {
        None
    } else if monitors.last().id == id {
        Some(monitors.last())
    } else {
        known(monitors.drop_last(), id)
    }
}

/// What a display is called in the menu.
pub open spec fn menu_name(m: MonitorInfo) -> Seq<char> {
    if m.product@.len() == 0 {
        m.vendor@
    } else {
        m.vendor@ + " "@ + m.product@
    }
}

/// A display as it is shown before any value of it was read: with the values
/// that were shown before.
pub open spec fn carried(m: MonitorInfo, prior: Seq<Display>) -> Display {
    Display {
        id: m.id,
        name: menu_name(m),
        key: m.key@,
        is_ddc: m.control == ControlPath::Ddc,
        sliders: match known(prior, m.id) {
            Some(d) => d.sliders,
            None => Seq::empty(),
        },
        pickers: match known(prior, m.id) {
            Some(d) => d.pickers,
            None => Seq::empty(),
        },
    }
}

/// The displays that are shown, of those that are attached.
pub open spec fn menu_displays(list: Seq<MonitorInfo>, prior: Seq<Display>) -> Seq<Display>
    decreases list.len(),
{
    if list.len() == 0 {
        Seq::empty()
    } else if list.last().control == ControlPath::Uncontrollable {
        menu_displays(list.drop_last(), prior)
    } else {
        menu_displays(list.drop_last(), prior).push(carried(list.last(), prior))
    }
}

/// What the settings window shows of displays.
pub open spec fn signature(monitors: Seq<Display>) -> Seq<(u32, Seq<char>, bool)> {
    Seq::new(monitors.len(), |i: int| (monitors[i].id, monitors[i].name, monitors[i].is_ddc))
}

/// What is shown once the list of displays has come. The change counter moves
/// only when the set of displays did: a routine poll of values must not rebuild
/// an open settings window every few seconds.
pub open spec fn listed(s: Shown, list: Seq<MonitorInfo>) -> Shown {
    let monitors = menu_displays(list, s.monitors);
    Shown {
        daemon_up: true,
        monitors,
        generation: if !s.daemon_up || signature(s.monitors) != signature(monitors) {
            client::bumped(s.generation)
        } else {
            s.generation
        },
        ..s
    }
}

/// What is shown once the capabilities of a display are known.
pub open spec fn learned(s: Shown, id: u32, caps: Caps) -> Shown {
    Shown { caps: s.caps.insert(id, caps), generation: client::bumped(s.generation), ..s }
}

/// What is shown once the profiles are known. Where they could not be had, there
/// are none.
pub open spec fn profiled(s: Shown, names: Seq<Seq<char>>) -> Shown {
    if s.profiles == names {
        s
    } else {
        Shown { profiles: names, generation: client::bumped(s.generation), ..s }
    }
}

/// The sliders of a display after its reads. That nothing is to be shown is told
/// apart from that nothing could be read, where the former values stay.
pub open spec fn kept_sliders(
    before: Seq<Slider>,
    codes: Seq<u8>,
    sliders: Seq<Slider>,
) -> Seq<Slider> {
    if codes.len() == 0 {
        Seq::empty()
    } else if sliders.len() > 0 {
        sliders
    } else {
        before
    }
}

/// What is shown once a display has been read.
pub open spec fn settled(
    s: Shown,
    i: int,
    codes: Seq<u8>,
    sliders: Seq<Slider>,
    pickers: Seq<Picker>,
) -> Shown {
    Shown {
        monitors: s.monitors.update(
            i,
            Display {
                sliders: kept_sliders(s.monitors[i].sliders, codes, sliders),
                pickers,
                ..s.monitors[i]
            },
        ),
        ..s
    }
}

/// Advertised codes that are shown as sliders: those that are adjustable and
/// visible.
pub open spec fn wanted(
    codes: Seq<(u8, Seq<char>)>,
    visible: CodeSets,
    key: Seq<char>,
) -> Seq<u8>
    decreases codes.len(),
{
    if codes.len() == 0 {
        Seq::empty()
    } else {
        let rest = wanted(codes.drop_last(), visible, key);
        let code = codes.last().0;
        if vcp::adjustable(code) && config::shown(visible, key, code) {
            rest.push(code)
        } else {
            rest
        }
    }
}

/// Which codes of a display are shown as sliders. A built-in panel has no
/// capability string, so it gets brightness only.
pub open spec fn slider_codes(d: Display, caps: Map<u32, Caps>, visible: CodeSets) -> Seq<u8> {
    if d.is_ddc {
        if caps.contains_key(d.id) {
            wanted(caps[d.id].codes, visible, d.key)
        } else {
            Seq::empty()
        }
    } else if config::shown(visible, d.key, 0x10) {
        seq![0x10u8]
    } else {
        Seq::empty()
    }
}

/// The pickers of a display as far as its capabilities say, none selected.
pub open spec fn fresh_pickers(d: Display, caps: Map<u32, Caps>) -> Seq<Picker> {
    if caps.contains_key(d.id) {
        client::pickers_for(caps[d.id].value_lists)
    } else {
        Seq::empty()
    }
}

/// Whether a value makes a slider.
pub open spec fn slides(v: VcpValue) -> bool {
    0 < v.max <= 1000
}

/// The slider for a code and what was read of it.
pub open spec fn slider_for(code: u8, v: VcpValue) -> Slider {
    Slider {
        label: vcp::code_label(vcp::code_of(code)),
        code,
        current: v.current,
        max: v.max,
    }
}

impl Snapshot {
    /// Count a change.
    pub fn bump(&mut self)
        ensures
            final(self)@ == (Shown { generation: client::bumped(old(self).generation), ..old(self)@ }),
    {
        self.generation = self.generation.wrapping_add(1);
    }

    /// The daemon is gone: nothing is known of the displays any more.
    pub fn mark_down(&mut self)
        ensures
            final(self)@ == down(old(self)@),
    {
        self.daemon_up = false;
        self.monitors = Vec::new();
        self.bump();
        assert(self@.monitors =~= Seq::<Display>::empty());
    }

    /// The last display of an id.
    fn find(&self, id: u32) -> (r: Option<usize>)
        ensures
            match r {
                Some(k) => k < self.monitors@.len() && known(self@.monitors, id) == Some(
                    self@.monitors[k as int],
                ),
                None => known(self@.monitors, id) is None,
            },
    {
        let ghost all = self@.monitors;
        let mut i: usize = 0;
        let mut found: Option<usize> = None;
        while i < self.monitors.len()
            invariant
                i <= self.monitors@.len(),
                all == self@.monitors,
                all.len() == self.monitors@.len(),
                match found {
                    Some(k) => k < i && known(all.take(i as int), id) == Some(all[k as int]),
                    None => known(all.take(i as int), id) is None,
                },
            decreases self.monitors@.len() - i,
        {
            assert(all.take(i + 1).drop_last() =~= all.take(i as int));
            assert(all.take(i + 1).last() == self.monitors@[i as int]@);
            if self.monitors[i].id == id {
                found = Some(i);
            }
            i = i + 1;
        }
        assert(all.take(i as int) =~= all);
        found
    }

    /// A display as it is shown before any value of it was read.
    fn carry(&self, m: &MonitorInfo) -> (v: MonitorView)
        ensures
            v@ == carried(*m, self@.monitors),
    {
        let name = if text::empty(m.product.as_str()) {
            m.vendor.clone()
        } else {
            text::between(m.vendor.as_str(), " ", m.product.as_str())
        };
        let (sliders, pickers) = match self.find(m.id) {
            Some(k) => (
                client::copy_sliders(&self.monitors[k].sliders),
                client::copy_pickers(&self.monitors[k].pickers),
            ),
            None => (Vec::new(), Vec::new()),
        };
        let v = MonitorView {
            id: m.id,
            name,
            key: m.key.clone(),
            is_ddc: matches!(m.control, ControlPath::Ddc),
            sliders,
            pickers,
        };
        assert(v@.sliders =~= carried(*m, self@.monitors).sliders);
        assert(v@.pickers =~= carried(*m, self@.monitors).pickers);
        v
    }

    /// Whether the displays look the same in the settings window.
    fn looks_like(&self, views: &Vec<MonitorView>) -> (b: bool)
        ensures
            b == (signature(self@.monitors) == signature(client::display_views(views@))),
    {
        let ghost a = signature(self@.monitors);
        let ghost b = signature(client::display_views(views@));
        if self.monitors.len() != views.len() {
            assert(a.len() != b.len());
            return false;
        }
        let mut i: usize = 0;
        while i < views.len()
            invariant
                i <= views@.len(),
                self.monitors@.len() == views@.len(),
                a == signature(self@.monitors),
                b == signature(client::display_views(views@)),
                forall|k: int| 0 <= k < i ==> a[k] == b[k],
            decreases views@.len() - i,
        {
            let same: bool = self.monitors[i].id == views[i].id && text::same(
                self.monitors[i].name.as_str(),
                views[i].name.as_str(),
            ) && self.monitors[i].is_ddc == views[i].is_ddc;
            assert(a[i as int] == (
                self.monitors@[i as int].id,
                self.monitors@[i as int].name@,
                self.monitors@[i as int].is_ddc,
            ));
            assert(b[i as int] == (
                views@[i as int].id,
                views@[i as int].name@,
                views@[i as int].is_ddc,
            ));
            if !same {
                assert(a[i as int] != b[i as int]);
                return false;
            }
            i = i + 1;
        }
        assert(a =~= b);
        true
    }

    /// The list of displays has come: show it at once, with the values that were
    /// shown before.
    pub fn publish(&mut self, list: &Vec<MonitorInfo>)
        ensures
            final(self)@ == listed(old(self)@, list@),
    {
        let ghost before = self@;
        let mut views: Vec<MonitorView> = Vec::new();
        let mut i: usize = 0;
        assert(client::display_views(views@) =~= menu_displays(list@.take(0), before.monitors));
        while i < list.len()
            invariant
                i <= list@.len(),
                before == self@,
                client::display_views(views@) == menu_displays(
                    list@.take(i as int),
                    before.monitors,
                ),
            decreases list@.len() - i,
        {
            assert(list@.take(i + 1).drop_last() =~= list@.take(i as int));
            if !matches!(list[i].control, ControlPath::Uncontrollable) {
                let ghost shown = client::display_views(views@);
                let v = self.carry(&list[i]);
                let ghost view = v@;
                views.push(v);
                assert(client::display_views(views@) =~= shown.push(view));
            }
            i = i + 1;
        }
        assert(list@.take(i as int) =~= list@);
        let changed: bool = !self.daemon_up || !self.looks_like(&views);
        self.daemon_up = true;
        self.monitors = views;
        if changed {
            self.bump();
        }
    }

    /// The capabilities of a display are known.
    pub fn learn_caps(&mut self, id: u32, caps: CapsResult)
        ensures
            final(self)@ == learned(old(self)@, id, client::caps_from(caps)),
    {
        let ghost before = self@;
        let view = client::to_caps_view(caps);
        self.caps.insert(id, view);
        self.bump();
        assert(self@.caps =~= before.caps.insert(id, client::caps_from(caps)));
    }

    /// The capabilities of the display of a selector are known. Nothing is kept
    /// for a selector that is no id.
    pub fn learn_fetched(&mut self, display: &str, caps: CapsResult)
        ensures
            final(self)@ == match text::parsed_number(display@, 10, u32::MAX as nat) {
                Some(id) => learned(old(self)@, id as u32, client::caps_from(caps)),
                None => old(self)@,
            },
    {
        match text::parse_number(display, 10, 0xFFFF_FFFF) {
            Some(id) => self.learn_caps(id as u32, caps),
            None => {},
        }
    }

    /// The profiles are known.
    pub fn learn_profiles(&mut self, names: Vec<String>)
        ensures
            final(self)@ == profiled(old(self)@, text::texts(names@)),
    {
        if !same_texts(&self.profiles, &names) {
            self.profiles = names;
            self.bump();
        }
    }

    /// The codes of a display that are shown as sliders.
    pub fn codes_for(&self, m: &MonitorView, cfg: &GuiConfig) -> (r: Vec<u8>)
        ensures
            r@ == slider_codes(m@, self@.caps, cfg.visible@),
    {
        let mut out: Vec<u8> = Vec::new();
        if !m.is_ddc {
            if cfg.is_visible(m.key.as_str(), 0x10) {
                out.push(0x10);
            }
            return out;
        }
        match self.caps.get(&m.id) {
            None => {
                assert(!self@.caps.contains_key(m.id));
                out
            },
            Some(cv) => {
                assert(self@.caps.contains_key(m.id) && self@.caps[m.id] == cv@);
                let ghost all = client::choices(cv.codes@);
                let mut i: usize = 0;
                while i < cv.codes.len()
                    invariant
                        i <= cv.codes@.len(),
                        all == client::choices(cv.codes@),
                        out@ == wanted(all.take(i as int), cfg.visible@, m.key@),
                    decreases cv.codes@.len() - i,
                {
                    assert(all.take(i + 1).drop_last() =~= all.take(i as int));
                    assert(all.take(i + 1).last() == all[i as int]);
                    let code: u8 = cv.codes[i].0;
                    if vcp::is_adjustable(code) && cfg.is_visible(m.key.as_str(), code) {
                        out.push(code);
                    }
                    i = i + 1;
                }
                assert(all.take(i as int) =~= all);
                out
            },
        }
    }

    /// The pickers of a display, none selected.
    pub fn pickers_of(&self, m: &MonitorView) -> (r: Vec<PickerView>)
        ensures
            client::picker_views(r@) == fresh_pickers(m@, self@.caps),
    {
        match self.caps.get(&m.id) {
            Some(cv) => {
                assert(self@.caps.contains_key(m.id) && self@.caps[m.id] == cv@);
                client::build_pickers(&cv.value_lists)
            },
            None => {
                let out: Vec<PickerView> = Vec::new();
                assert(client::picker_views(out@) =~= Seq::<Picker>::empty());
                assert(!self@.caps.contains_key(m.id));
                out
            },
        }
    }

    /// A display has been read.
    fn settle(
        &mut self,
        i: usize,
        codes: &Vec<u8>,
        sliders: Vec<SliderView>,
        pickers: Vec<PickerView>,
    )
        requires
            i < old(self).monitors@.len(),
        ensures
            final(self)@ == settled(
                old(self)@,
                i as int,
                codes@,
                client::slider_views(sliders@),
                client::picker_views(pickers@),
            ),
    {
        let ghost before = self@;
        let ghost fresh = client::slider_views(sliders@);
        let ghost picked = client::picker_views(pickers@);
        let kept = if codes.len() == 0 {
            Vec::new()
        } else if sliders.len() > 0 {
            sliders
        } else {
            client::copy_sliders(&self.monitors[i].sliders)
        };
        assert(client::slider_views(kept@) =~= kept_sliders(
            before.monitors[i as int].sliders,
            codes@,
            fresh,
        ));
        let v = MonitorView {
            id: self.monitors[i].id,
            name: self.monitors[i].name.clone(),
            key: self.monitors[i].key.clone(),
            is_ddc: self.monitors[i].is_ddc,
            sliders: kept,
            pickers,
        };
        let ghost view = v@;
        self.monitors.set(i, v);
        assert(self@.monitors =~= before.monitors.update(i as int, view));
    }
}

/// Whether lists hold the same texts in the same order.
fn same_texts(a: &Vec<String>, b: &Vec<String>) -> (r: bool)
    ensures
        r == (text::texts(a@) == text::texts(b@)),
{
    if a.len() != b.len() {
        assert(text::texts(a@).len() != text::texts(b@).len());
        return false;
    }
    let mut i: usize = 0;
    while i < a.len()
        invariant
            i <= a@.len(),
            a@.len() == b@.len(),
            forall|k: int| 0 <= k < i ==> (#[trigger] a@[k])@ == b@[k]@,
        decreases a@.len() - i,
    {
        if !text::same(a[i].as_str(), b[i].as_str()) {
            assert(text::texts(a@)[i as int] != text::texts(b@)[i as int]);
            return false;
        }
        i = i + 1;
    }
    assert(text::texts(a@) =~= text::texts(b@));
    true
}

// ── The course of a refresh ────────────────────────────────────────────────

/// Where a refresh stands.
#[derive(Debug)]
pub enum Stage {
    /// The list of displays is wanted.
    Listing,
    /// A display is next.
    Display { i: usize },
    /// The selected values of a display's pickers are wanted, from the `p`-th on.
    Pickers { i: usize, pickers: Vec<PickerView>, p: usize },
    /// The values of a display's sliders are wanted, from the `k`-th on.
    Sliders {
        i: usize,
        pickers: Vec<PickerView>,
        codes: Vec<u8>,
        k: usize,
        sliders: Vec<SliderView>,
    },
    /// The profiles are wanted.
    Profiles,
    /// Everything is current.
    Done,
    /// The daemon did not list the displays: connect anew next time.
    Lost,
}

/// Where a refresh stands, as values.
pub enum Phase {
    Listing,
    Display { i: int },
    Pickers { i: int, pickers: Seq<Picker>, p: int },
    Sliders { i: int, pickers: Seq<Picker>, codes: Seq<u8>, k: int, sliders: Seq<Slider> },
    Profiles,
    Done,
    Lost,
}

impl View for Stage {
    type V = Phase;

    open spec fn view(&self) -> Phase {
        match *self {
            Stage::Listing => Phase::Listing,
            Stage::Display { i } => Phase::Display { i: i as int },
            Stage::Pickers { i, pickers, p } => Phase::Pickers {
                i: i as int,
                pickers: client::picker_views(pickers@),
                p: p as int,
            },
            Stage::Sliders { i, pickers, codes, k, sliders } => Phase::Sliders {
                i: i as int,
                pickers: client::picker_views(pickers@),
                codes: codes@,
                k: k as int,
                sliders: client::slider_views(sliders@),
            },
            Stage::Profiles => Phase::Profiles,
            Stage::Done => Phase::Done,
            Stage::Lost => Phase::Lost,
        }
    }
}

/// What a refresh wants to know of the daemon.
#[derive(Debug)]
pub enum Ask {
    List,
    Caps { display: String },
    Get { display: String, code: String },
    Profiles,
    /// Nothing: take the next step.
    Nothing,
    /// The refresh is over.
    Finished,
}

/// What the daemon answered.
#[derive(Debug)]
pub enum Reply {
    /// The daemon could not be reached, or it refused.
    Failed,
    Monitors(Vec<MonitorInfo>),
    Caps(CapsResult),
    Value(VcpValue),
    Profiles(Vec<ProfileSummary>),
}

/// Whether a display's capabilities are still to be fetched. They are fetched
/// once per id: the read is slow.
pub open spec fn wants_caps(s: Shown, i: int) -> bool {
    0 <= i < s.monitors.len() && s.monitors[i].is_ddc && !s.caps.contains_key(s.monitors[i].id)
}

/// Whether a question is a read of a code of a display.
pub open spec fn asks_value(a: Ask, id: u32, code: u8) -> bool {
    a matches Ask::Get { display, code: c } && display@ == text::decimal(id as nat) && c@
        == vcp::hex_key(code)
}

/// Whether `a` is what is wanted next.
pub open spec fn asked(phase: Phase, s: Shown, a: Ask) -> bool {
    match phase {
        Phase::Listing => a is List,
        Phase::Display { i } => if wants_caps(s, i) {
            a matches Ask::Caps { display } && display@ == text::decimal(s.monitors[i].id as nat)
        } else {
            a is Nothing
        },
        Phase::Pickers { i, pickers, p } => if 0 <= i < s.monitors.len() && 0 <= p < pickers.len() {
            asks_value(a, s.monitors[i].id, pickers[p].code)
        } else {
            a is Nothing
        },
        Phase::Sliders { i, codes, k, .. } => if 0 <= i < s.monitors.len() && 0 <= k
            < codes.len() {
            asks_value(a, s.monitors[i].id, codes[k])
        } else {
            a is Nothing
        },
        Phase::Profiles => a is Profiles,
        Phase::Done => a is Finished,
        Phase::Lost => a is Finished,
    }
}

/// What is shown once the question of a display's capabilities is settled.
pub open spec fn equipped(s: Shown, i: int, reply: Reply) -> Shown {
    match reply {
        Reply::Caps(c) if wants_caps(s, i) => learned(
            s,
            s.monitors[i].id,
            client::caps_from(c),
        ),
        _ => s,
    }
}

/// A picker with what was read of it.
pub open spec fn picked(p: Picker, reply: Reply) -> Picker {
    match reply {
        Reply::Value(v) => Picker { current: Some((v.current % 256) as u8), ..p },
        _ => p,
    }
}

/// The slider of a code, where there is one.
pub open spec fn slider_of(sliders: Seq<Slider>, code: u8) -> Option<Slider>
    decreases sliders.len(),
{
    if sliders.len() == 0 {
        None
    } else {
        match slider_of(sliders.drop_last(), code) {
            Some(s) => Some(s),
            None => if sliders.last().code == code {
                Some(sliders.last())
            } else {
                None
            },
        }
    }
}

/// Sliders with one more, if what was read makes one. A read that fails keeps the
/// value that was shown before rather than dropping the slider.
pub open spec fn grown(
    sliders: Seq<Slider>,
    code: u8,
    reply: Reply,
    before: Seq<Slider>,
) -> Seq<Slider> {
    match reply {
        Reply::Value(v) => if slides(v) {
            sliders.push(slider_for(code, v))
        } else {
            sliders
        },
        _ => match slider_of(before, code) {
            Some(s) => sliders.push(s),
            None => sliders,
        },
    }
}

/// The sliders that a display had before its reads.
pub open spec fn former(s: Shown, i: int) -> Seq<Slider> {
    if 0 <= i < s.monitors.len() {
        s.monitors[i].sliders
    } else {
        Seq::empty()
    }
}

/// The names of profiles.
pub open spec fn names_of(list: Seq<ProfileSummary>) -> Seq<Seq<char>> {
    Seq::new(list.len(), |i: int| list[i].name@)
}

/// Where a display's sliders begin.
pub open spec fn first_slider(
    s: Shown,
    visible: CodeSets,
    i: int,
    pickers: Seq<Picker>,
) -> Phase {
    Phase::Sliders {
        i,
        pickers,
        codes: if 0 <= i < s.monitors.len() {
            slider_codes(s.monitors[i], s.caps, visible)
        } else {
            Seq::empty()
        },
        k: 0,
        sliders: Seq::empty(),
    }
}

/// Where a refresh stands after an answer, and what is shown then.
pub open spec fn stepped(
    phase: Phase,
    s: Shown,
    visible: CodeSets,
    reply: Reply,
) -> (Phase, Shown) {
    match phase {
        Phase::Listing => match reply {
            Reply::Monitors(list) => (Phase::Display { i: 0 }, listed(s, list@)),
            _ => (Phase::Lost, down(s)),
        },
        Phase::Display { i } => if i >= s.monitors.len() {
            (Phase::Profiles, s)
        } else {
            let now = equipped(s, i, reply);
            if s.monitors[i].is_ddc {
                (
                    Phase::Pickers { i, pickers: fresh_pickers(now.monitors[i], now.caps), p: 0 },
                    now,
                )
            } else {
                (first_slider(now, visible, i, now.monitors[i].pickers), now)
            }
        },
        Phase::Pickers { i, pickers, p } => if 0 <= p < pickers.len() {
            (
                Phase::Pickers {
                    i,
                    pickers: pickers.update(p, picked(pickers[p], reply)),
                    p: p + 1,
                },
                s,
            )
        } else {
            (first_slider(s, visible, i, pickers), s)
        },
        Phase::Sliders { i, pickers, codes, k, sliders } => if 0 <= k < codes.len() {
            (
                Phase::Sliders {
                    i,
                    pickers,
                    codes,
                    k: k + 1,
                    sliders: grown(sliders, codes[k], reply, former(s, i)),
                },
                s,
            )
        } else if 0 <= i < s.monitors.len() {
            (Phase::Display { i: i + 1 }, settled(s, i, codes, sliders, pickers))
        } else {
            (Phase::Profiles, s)
        },
        Phase::Profiles => (
            Phase::Done,
            profiled(
                s,
                match reply {
                    Reply::Profiles(list) => names_of(list@),
                    _ => Seq::empty(),
                },
            ),
        ),
        Phase::Done => (Phase::Done, s),
        Phase::Lost => (Phase::Lost, s),
    }
}

/// A refresh under way.
#[derive(Debug)]
pub struct Refresh {
    pub stage: Stage,
}

impl Refresh {
    /// A refresh that is about to begin.
    pub fn begin() -> (r: Refresh)
        ensures
            r.stage@ == Phase::Listing,
    {
        Refresh { stage: Stage::Listing }
    }

    /// What is wanted next.
    pub fn ask(&self, snapshot: &Snapshot) -> (a: Ask)
        ensures
            asked(self.stage@, snapshot@, a),
    {
        match &self.stage {
            Stage::Listing => Ask::List,
            Stage::Display { i } => {
                if *i >= snapshot.monitors.len() {
                    return Ask::Nothing;
                }
                let m = &snapshot.monitors[*i];
                assert(snapshot@.caps.contains_key(m.id) == snapshot.caps@.contains_key(m.id));
                if m.is_ddc && !snapshot.caps.contains_key(&m.id) {
                    Ask::Caps { display: text::write_decimal(m.id as u64) }
                } else {
                    Ask::Nothing
                }
            },
            Stage::Pickers { i, pickers, p } => {
                if *i < snapshot.monitors.len() && *p < pickers.len() {
                    Ask::Get {
                        display: text::write_decimal(snapshot.monitors[*i].id as u64),
                        code: vcp::write_hex_key(pickers[*p].code),
                    }
                } else {
                    Ask::Nothing
                }
            },
            Stage::Sliders { i, pickers: _, codes, k, sliders: _ } => {
                if *i < snapshot.monitors.len() && *k < codes.len() {
                    Ask::Get {
                        display: text::write_decimal(snapshot.monitors[*i].id as u64),
                        code: vcp::write_hex_key(codes[*k]),
                    }
                } else {
                    Ask::Nothing
                }
            },
            Stage::Profiles => Ask::Profiles,
            Stage::Done => Ask::Finished,
            Stage::Lost => Ask::Finished,
        }
    }

    /// Take an answer.
    pub fn step(self, snapshot: &mut Snapshot, cfg: &GuiConfig, reply: Reply) -> (r: Refresh)
        ensures
            (r.stage@, final(snapshot)@) == stepped(
                self.stage@,
                old(snapshot)@,
                cfg.visible@,
                reply,
            ),
    {
        let stage = match self.stage {
            Stage::Listing => match reply {
                Reply::Monitors(list) => {
                    snapshot.publish(&list);
                    Stage::Display { i: 0 }
                },
                _ => {
                    snapshot.mark_down();
                    Stage::Lost
                },
            },
            Stage::Display { i } => step_display(i, snapshot, cfg, reply),
            Stage::Pickers { i, pickers, p } => step_pickers(i, pickers, p, snapshot, cfg, reply),
            Stage::Sliders { i, pickers, codes, k, sliders } => step_sliders(
                i,
                pickers,
                codes,
                k,
                sliders,
                snapshot,
                reply,
            ),
            Stage::Profiles => {
                let names = match reply {
                    Reply::Profiles(list) => take_names(list),
                    _ => {
                        let none: Vec<String> = Vec::new();
                        assert(text::texts(none@) =~= Seq::<Seq<char>>::empty());
                        none
                    },
                };
                snapshot.learn_profiles(names);
                Stage::Done
            },
            Stage::Done => Stage::Done,
            Stage::Lost => Stage::Lost,
        };
        Refresh { stage }
    }
}

/// The names of profiles.
fn take_names(list: Vec<ProfileSummary>) -> (r: Vec<String>)
    ensures
        text::texts(r@) == names_of(list@),
{
    let mut out: Vec<String> = Vec::new();
    let mut i: usize = 0;
    while i < list.len()
        invariant
            i <= list@.len(),
            out@.len() == i,
            forall|k: int| 0 <= k < i ==> (#[trigger] out@[k])@ == list@[k].name@,
        decreases list@.len() - i,
    {
        out.push(list[i].name.clone());
        i = i + 1;
    }
    assert(text::texts(out@) =~= names_of(list@));
    out
}

/// Where a display's sliders begin.
fn begin_sliders(
    i: usize,
    pickers: Vec<PickerView>,
    snapshot: &Snapshot,
    cfg: &GuiConfig,
) -> (r: Stage)
    ensures
        r@ == first_slider(
            snapshot@,
            cfg.visible@,
            i as int,
            client::picker_views(pickers@),
        ),
{
    let codes: Vec<u8> = if i < snapshot.monitors.len() {
        snapshot.codes_for(&snapshot.monitors[i], cfg)
    } else {
        Vec::new()
    };
    let sliders: Vec<SliderView> = Vec::new();
    assert(client::slider_views(sliders@) =~= Seq::<Slider>::empty());
    Stage::Sliders { i, pickers, codes, k: 0, sliders }
}

/// A step from a display that is next.
fn step_display(i: usize, snapshot: &mut Snapshot, cfg: &GuiConfig, reply: Reply) -> (r: Stage)
    ensures
        (r@, final(snapshot)@) == stepped(
            Phase::Display { i: i as int },
            old(snapshot)@,
            cfg.visible@,
            reply,
        ),
{
    if i >= snapshot.monitors.len() {
        return Stage::Profiles;
    }
    let id: u32 = snapshot.monitors[i].id;
    let ddc: bool = snapshot.monitors[i].is_ddc;
    assert(snapshot@.caps.contains_key(id) == snapshot.caps@.contains_key(id));
    if ddc && !snapshot.caps.contains_key(&id) {
        if let Reply::Caps(c) = reply {
            snapshot.learn_caps(id, c);
        }
    }
    if ddc {
        let pickers = snapshot.pickers_of(&snapshot.monitors[i]);
        Stage::Pickers { i, pickers, p: 0 }
    } else {
        let pickers = client::copy_pickers(&snapshot.monitors[i].pickers);
        begin_sliders(i, pickers, snapshot, cfg)
    }
}

/// A step from a display's pickers.
fn step_pickers(
    i: usize,
    pickers: Vec<PickerView>,
    p: usize,
    snapshot: &Snapshot,
    cfg: &GuiConfig,
    reply: Reply,
) -> (r: Stage)
    ensures
        (r@, snapshot@) == stepped(
            Phase::Pickers {
                i: i as int,
                pickers: client::picker_views(pickers@),
                p: p as int,
            },
            snapshot@,
            cfg.visible@,
            reply,
        ),
{
    let ghost before = client::picker_views(pickers@);
    if p >= pickers.len() {
        return begin_sliders(i, pickers, snapshot, cfg);
    }
    let mut pickers = pickers;
    let mut picker = pickers[p].copy();
    if let Reply::Value(v) = &reply {
        picker.current = Some((v.current % 256) as u8);
    }
    let ghost view = picker@;
    assert(view == picked(before[p as int], reply));
    pickers.set(p, picker);
    assert(client::picker_views(pickers@) =~= before.update(p as int, view));
    Stage::Pickers { i, pickers, p: p + 1 }
}

/// A copy of the slider of a code, where there is one.
fn find_slider(sliders: &Vec<SliderView>, code: u8) -> (r: Option<SliderView>)
    ensures
        match r {
            Some(s) => slider_of(client::slider_views(sliders@), code) == Some(s@),
            None => slider_of(client::slider_views(sliders@), code) is None,
        },
{
    let ghost all = client::slider_views(sliders@);
    let mut k: usize = 0;
    while k < sliders.len()
        invariant
            k <= sliders@.len(),
            all == client::slider_views(sliders@),
            all.len() == sliders@.len(),
            slider_of(all.take(k as int), code) is None,
        decreases sliders@.len() - k,
    {
        assert(all.take(k + 1).drop_last() =~= all.take(k as int));
        assert(all.take(k + 1).last() == sliders@[k as int]@);
        if sliders[k].code == code {
            proof {
                lemma_slider_found(all, code, k + 1);
            }
            return Some(sliders[k].copy());
        }
        k = k + 1;
    }
    assert(all.take(k as int) =~= all);
    None
}

/// What is found in a part is found in the whole.
proof fn lemma_slider_found(sliders: Seq<Slider>, code: u8, k: int)
    requires
        0 <= k <= sliders.len(),
        slider_of(sliders.take(k), code) is Some,
    ensures
        slider_of(sliders, code) == slider_of(sliders.take(k), code),
    decreases sliders.len() - k,
{
    if k == sliders.len() {
        assert(sliders.take(k) =~= sliders);
    } else {
        assert(sliders.take(k + 1).drop_last() =~= sliders.take(k));
        lemma_slider_found(sliders, code, k + 1);
    }
}

/// A step from a display's sliders.
fn step_sliders(
    i: usize,
    pickers: Vec<PickerView>,
    codes: Vec<u8>,
    k: usize,
    sliders: Vec<SliderView>,
    snapshot: &mut Snapshot,
    reply: Reply,
) -> (r: Stage)
    ensures
        forall|visible: CodeSets|
            (r@, final(snapshot)@) == #[trigger] stepped(
                Phase::Sliders {
                    i: i as int,
                    pickers: client::picker_views(pickers@),
                    codes: codes@,
                    k: k as int,
                    sliders: client::slider_views(sliders@),
                },
                old(snapshot)@,
                visible,
                reply,
            ),
{
    if k >= codes.len() {
        if i >= snapshot.monitors.len() {
            return Stage::Profiles;
        }
        snapshot.settle(i, &codes, sliders, pickers);
        return Stage::Display { i: i + 1 };
    }
    let mut sliders = sliders;
    let ghost before = client::slider_views(sliders@);
    let code: u8 = codes[k];
    match &reply {
        Reply::Value(v) => {
            if v.max > 0 && v.max <= 1000 {
                let s = SliderView {
                    label: VcpCode::from_code(code).display_name(),
                    code,
                    current: v.current,
                    max: v.max,
                };
                let ghost view = s@;
                sliders.push(s);
                assert(client::slider_views(sliders@) =~= before.push(view));
            }
        },
        _ => {
            if i < snapshot.monitors.len() {
                if let Some(s) = find_slider(&snapshot.monitors[i].sliders, code) {
                    let ghost view = s@;
                    sliders.push(s);
                    assert(client::slider_views(sliders@) =~= before.push(view));
                }
            }
        },
    }
    assert(client::slider_views(sliders@) == grown(
        before,
        code,
        reply,
        former(snapshot@, i as int),
    ));
    Stage::Sliders { i, pickers, codes, k: k + 1, sliders }
}

// ── Laws ───────────────────────────────────────────────────────────────────

/// Whether every slider has a range that can be shown.
pub open spec fn ranged(sliders: Seq<Slider>) -> bool {
    forall|j: int| 0 <= j < sliders.len() ==> 0 < (#[trigger] sliders[j]).max <= 1000
}

/// Whether a refresh stands where it can stand, and what is shown can be shown.
pub open spec fn sound(phase: Phase, s: Shown) -> bool {
    &&& forall|i: int| 0 <= i < s.monitors.len() ==> ranged((#[trigger] s.monitors[i]).sliders)
    &&& match phase {
        Phase::Display { i } => 0 <= i <= s.monitors.len(),
        Phase::Pickers { i, pickers, p } => 0 <= i < s.monitors.len() && s.monitors[i].is_ddc && 0
            <= p <= pickers.len(),
        Phase::Sliders { i, codes, k, sliders, .. } => {
            &&& 0 <= i < s.monitors.len()
            &&& 0 <= k <= codes.len()
            &&& ranged(sliders)
            &&& forall|j: int|
                0 <= j < sliders.len() ==> codes.contains((#[trigger] sliders[j]).code)
        },
        _ => true,
    }
}

/// How far a refresh is from its end: what stage, how many displays, what part of
/// a display, and how many reads are left.
pub open spec fn left(phase: Phase, s: Shown) -> (int, int, int, int) {
    match phase {
        Phase::Listing => (3, 0, 0, 0),
        Phase::Display { i } => (2, s.monitors.len() - i, 2, 0),
        Phase::Pickers { i, pickers, p } => (2, s.monitors.len() - i, 1, pickers.len() - p),
        Phase::Sliders { i, codes, k, .. } => (2, s.monitors.len() - i, 0, codes.len() - k),
        Phase::Profiles => (1, 0, 0, 0),
        Phase::Done => (0, 0, 0, 0),
        Phase::Lost => (0, 0, 0, 0),
    }
}

/// Whether the first of two distances is the shorter.
pub open spec fn nearer(a: (int, int, int, int), b: (int, int, int, int)) -> bool {
    ||| a.0 < b.0
    ||| a.0 == b.0 && a.1 < b.1
    ||| a.0 == b.0 && a.1 == b.1 && a.2 < b.2
    ||| a.0 == b.0 && a.1 == b.1 && a.2 == b.2 && a.3 < b.3
}

/// A refresh that is not over comes nearer to its end with every answer, whatever
/// the daemon answers, and always stands where it can stand. So it ends: a daemon
/// that fails every request slows a refresh, but cannot keep it going.
pub proof fn law_refresh_ends(phase: Phase, s: Shown, visible: CodeSets, reply: Reply)
    requires
        sound(phase, s),
        !(phase is Done),
        !(phase is Lost),
    ensures
        ({
            let (after, now) = stepped(phase, s, visible, reply);
            &&& sound(after, now)
            &&& nearer(left(after, now), left(phase, s))
            &&& left(after, now).0 >= 0 && left(after, now).1 >= 0 && left(after, now).2 >= 0
            &&& left(after, now).3 >= 0
        }),
{
    let (after, now) = stepped(phase, s, visible, reply);
    match phase {
        Phase::Listing => {
            if let Reply::Monitors(list) = reply {
                assert forall|i: int| 0 <= i < now.monitors.len() implies ranged(
                    (#[trigger] now.monitors[i]).sliders,
                ) by {
                    law_menu_shows_controllable_displays(list@, s.monitors, i);
                    let k = choose|k: int|
                        0 <= k < list@.len() && (#[trigger] list@[k]).control
                            != ControlPath::Uncontrollable && menu_displays(list@, s.monitors)[i]
                            == carried(list@[k], s.monitors);
                    lemma_known_is_shown(s.monitors, list@[k].id);
                }
            }
        },
        Phase::Sliders { i, pickers, codes, k, sliders } => {
            if k < codes.len() {
                let before = s.monitors[i].sliders;
                let more = grown(sliders, codes[k], reply, before);
                lemma_slider_of(before, codes[k]);
                assert forall|j: int| 0 <= j < more.len() implies codes.contains(
                    (#[trigger] more[j]).code,
                ) && 0 < more[j].max <= 1000 by {
                    if j < sliders.len() {
                        assert(more[j] == sliders[j]);
                    }
                }
            } else {
                assert forall|j: int| 0 <= j < now.monitors.len() implies ranged(
                    (#[trigger] now.monitors[j]).sliders,
                ) by {
                    assert(ranged(s.monitors[j].sliders));
                }
            }
        },
        _ => {
            assert forall|j: int| 0 <= j < now.monitors.len() implies ranged(
                (#[trigger] now.monitors[j]).sliders,
            ) by {
                assert(ranged(s.monitors[j].sliders));
            }
        },
    }
}

/// A display that is known is one of those shown.
proof fn lemma_known_is_shown(monitors: Seq<Display>, id: u32)
    ensures
        known(monitors, id) matches Some(d) ==> exists|i: int|
            0 <= i < monitors.len() && #[trigger] monitors[i] == d,
    decreases monitors.len(),
{
    if monitors.len() > 0 {
        lemma_known_is_shown(monitors.drop_last(), id);
        if known(monitors, id) is Some && monitors.last().id != id {
            let d = known(monitors, id)->Some_0;
            let i = choose|i: int|
                0 <= i < monitors.drop_last().len() && #[trigger] monitors.drop_last()[i] == d;
            assert(monitors[i] == d);
        }
    }
}

/// The slider of a code is one of the sliders and has that code.
proof fn lemma_slider_of(sliders: Seq<Slider>, code: u8)
    ensures
        slider_of(sliders, code) matches Some(s) ==> s.code == code && exists|j: int|
            0 <= j < sliders.len() && #[trigger] sliders[j] == s,
    decreases sliders.len(),
{
    if sliders.len() > 0 {
        lemma_slider_of(sliders.drop_last(), code);
        if slider_of(sliders.drop_last(), code) is Some {
            let s = slider_of(sliders, code)->Some_0;
            let j = choose|j: int|
                0 <= j < sliders.drop_last().len() && #[trigger] sliders.drop_last()[j] == s;
            assert(sliders[j] == s);
        } else {
            assert(sliders[sliders.len() - 1] == sliders.last());
        }
    }
}

/// Once the daemon has listed the displays, the menu says that it is up, and no
/// later answer of that refresh, failed reads included, takes that back.
pub proof fn law_listed_means_up(phase: Phase, s: Shown, visible: CodeSets, reply: Reply)
    ensures
        phase is Listing && reply is Monitors ==> stepped(phase, s, visible, reply).1.daemon_up,
        phase is Listing && !(reply is Monitors) ==> !stepped(
            phase,
            s,
            visible,
            reply,
        ).1.daemon_up,
        !(phase is Listing) ==> stepped(phase, s, visible, reply).1.daemon_up == s.daemon_up,
{
}

/// The id, the name, the key and the kind of a shown display never change within
/// a refresh, and no display comes or goes.
pub proof fn law_reads_keep_the_displays(
    phase: Phase,
    s: Shown,
    visible: CodeSets,
    reply: Reply,
    j: int,
)
    requires
        !(phase is Listing),
        0 <= j < s.monitors.len(),
    ensures
        ({
            let now = stepped(phase, s, visible, reply).1;
            &&& now.monitors.len() == s.monitors.len()
            &&& now.monitors[j].id == s.monitors[j].id
            &&& now.monitors[j].name == s.monitors[j].name
            &&& now.monitors[j].key == s.monitors[j].key
            &&& now.monitors[j].is_ddc == s.monitors[j].is_ddc
        }),
{
}

/// The sliders that the answers to a display's reads make, one code after the
/// other.
pub open spec fn sliders_read(before: Seq<Slider>, codes: Seq<u8>, replies: Seq<Reply>) -> Seq<
    Slider,
>
    decreases codes.len(),
{
    if codes.len() == 0 || replies.len() == 0 {
        Seq::empty()
    } else {
        grown(
            sliders_read(before, codes.drop_last(), replies.drop_last()),
            codes.last(),
            replies.last(),
            before,
        )
    }
}

/// A refresh gathers the sliders of a display from the answers to its reads in
/// turn.
pub proof fn law_reads_are_gathered(
    s: Shown,
    visible: CodeSets,
    i: int,
    pickers: Seq<Picker>,
    codes: Seq<u8>,
    replies: Seq<Reply>,
    reply: Reply,
)
    requires
        replies.len() < codes.len(),
    ensures
        ({
            let k = replies.len() as int;
            let before = former(s, i);
            let phase = Phase::Sliders {
                i,
                pickers,
                codes,
                k,
                sliders: sliders_read(before, codes.take(k), replies),
            };
            stepped(phase, s, visible, reply) == (
                Phase::Sliders {
                    i,
                    pickers,
                    codes,
                    k: k + 1,
                    sliders: sliders_read(before, codes.take(k + 1), replies.push(reply)),
                },
                s,
            )
        }),
{
    let k = replies.len() as int;
    assert(codes.take(k + 1).drop_last() =~= codes.take(k));
    assert(replies.push(reply).drop_last() =~= replies);
}

/// Every read counts for its own code: a value that makes a slider is among the
/// sliders, and where the read failed the former slider is.
proof fn lemma_each_read_counts(
    before: Seq<Slider>,
    codes: Seq<u8>,
    replies: Seq<Reply>,
    j: int,
)
    requires
        codes.len() == replies.len(),
        0 <= j < codes.len(),
    ensures
        replies[j] matches Reply::Value(v) ==> slides(v) ==> sliders_read(
            before,
            codes,
            replies,
        ).contains(slider_for(codes[j], v)),
        !(replies[j] is Value) ==> (slider_of(before, codes[j]) matches Some(old_one)
            ==> sliders_read(before, codes, replies).contains(old_one)),
    decreases codes.len(),
{
    let rest = sliders_read(before, codes.drop_last(), replies.drop_last());
    let all = sliders_read(before, codes, replies);
    if j < codes.len() - 1 {
        lemma_each_read_counts(before, codes.drop_last(), replies.drop_last(), j);
        assert forall|x: Slider| rest.contains(x) implies all.contains(x) by {
            let t = rest.index_of(x);
            assert(all[t] == x);
        }
    } else if all.len() > 0 {
        assert(all[all.len() - 1] == all.last());
    }
}

/// A read that fails keeps the value that was shown before rather than dropping
/// the slider, whatever the other reads of the display came to, and a read that
/// goes through shows its value. A display that is to show nothing shows nothing.
pub proof fn law_failed_reads_keep_values(
    s: Shown,
    visible: CodeSets,
    i: int,
    pickers: Seq<Picker>,
    codes: Seq<u8>,
    replies: Seq<Reply>,
    reply: Reply,
    j: int,
)
    requires
        0 <= i < s.monitors.len(),
        replies.len() == codes.len(),
    ensures
        ({
            let before = s.monitors[i].sliders;
            let end = Phase::Sliders {
                i,
                pickers,
                codes,
                k: codes.len() as int,
                sliders: sliders_read(before, codes, replies),
            };
            let now = stepped(end, s, visible, reply).1.monitors[i].sliders;
            &&& codes.len() == 0 ==> now.len() == 0
            &&& 0 <= j < codes.len() ==> {
                &&& replies[j] matches Reply::Value(v) ==> slides(v) ==> now.contains(
                    slider_for(codes[j], v),
                )
                &&& !(replies[j] is Value) ==> (slider_of(before, codes[j]) matches Some(old_one)
                    ==> now.contains(old_one))
            }
        }),
{
    if 0 <= j < codes.len() {
        lemma_each_read_counts(s.monitors[i].sliders, codes, replies, j);
    }
}

/// Reading values never moves the change counter, and neither does a list of
/// displays that look as before from a daemon that was up: a routine poll does
/// not rebuild an open settings window.
pub proof fn law_polling_is_quiet(phase: Phase, s: Shown, visible: CodeSets, reply: Reply)
    ensures
        phase is Pickers || phase is Sliders ==> stepped(phase, s, visible, reply).1.generation
            == s.generation,
        phase is Listing && s.daemon_up ==> (reply matches Reply::Monitors(list) ==> signature(
            menu_displays(list@, s.monitors),
        ) == signature(s.monitors) ==> stepped(phase, s, visible, reply).1.generation
            == s.generation),
{
}

/// What is shown as a slider is adjustable and was not hidden, so a hidden code
/// is never read.
pub proof fn law_hidden_codes_are_not_read(
    d: Display,
    caps: Map<u32, Caps>,
    visible: CodeSets,
    j: int,
)
    requires
        0 <= j < slider_codes(d, caps, visible).len(),
    ensures
        config::shown(visible, d.key, slider_codes(d, caps, visible)[j]),
        vcp::adjustable(slider_codes(d, caps, visible)[j]),
{
    if d.is_ddc {
        lemma_wanted(caps[d.id].codes, visible, d.key, j);
    }
}

/// A wanted code is adjustable and visible.
proof fn lemma_wanted(codes: Seq<(u8, Seq<char>)>, visible: CodeSets, key: Seq<char>, j: int)
    requires
        0 <= j < wanted(codes, visible, key).len(),
    ensures
        config::shown(visible, key, wanted(codes, visible, key)[j]),
        vcp::adjustable(wanted(codes, visible, key)[j]),
    decreases codes.len(),
{
    if codes.len() > 0 {
        let rest = wanted(codes.drop_last(), visible, key);
        if j < rest.len() {
            lemma_wanted(codes.drop_last(), visible, key, j);
        }
    }
}

/// A display that cannot be driven is not in the menu: every display that is
/// shown stands for one that was listed and can be driven.
pub proof fn law_menu_shows_controllable_displays(
    list: Seq<MonitorInfo>,
    prior: Seq<Display>,
    j: int,
)
    requires
        0 <= j < menu_displays(list, prior).len(),
    ensures
        exists|i: int|
            0 <= i < list.len() && (#[trigger] list[i]).control != ControlPath::Uncontrollable
                && menu_displays(list, prior)[j] == carried(list[i], prior),
    decreases list.len(),
{
    let rest = menu_displays(list.drop_last(), prior);
    if j < rest.len() {
        law_menu_shows_controllable_displays(list.drop_last(), prior, j);
        let i = choose|i: int|
            0 <= i < list.drop_last().len() && (#[trigger] list.drop_last()[i]).control
                != ControlPath::Uncontrollable && rest[j] == carried(list.drop_last()[i], prior);
        assert(list[i] == list.drop_last()[i]);
    } else {
        assert(list[list.len() - 1] == list.last());
    }
}

/// A display that was shown keeps its sliders and pickers; one that was not has none.
pub proof fn law_shown_displays_are_carried_over(m: MonitorInfo, prior: Seq<Display>)
    ensures
        (forall|k: int| 0 <= k < prior.len() ==> (#[trigger] prior[k]).id != m.id) ==> carried(
            m,
            prior,
        ).sliders.len() == 0 && carried(m, prior).pickers.len() == 0,
        (exists|k: int| 0 <= k < prior.len() && (#[trigger] prior[k]).id == m.id) ==> exists|k: int|
            0 <= k < prior.len() && (#[trigger] prior[k]).id == m.id && carried(m, prior).sliders
                == prior[k].sliders && carried(m, prior).pickers == prior[k].pickers,
    decreases prior.len(),
{
    if prior.len() > 0 {
        let rest = prior.drop_last();
        let n = prior.len() - 1;
        law_shown_displays_are_carried_over(m, rest);
        if prior[n].id == m.id {
            assert(carried(m, prior).sliders == prior[n].sliders);
        } else {
            assert(known(prior, m.id) == known(rest, m.id));
            assert(carried(m, prior) == carried(m, rest));
            if exists|k: int| 0 <= k < prior.len() && (#[trigger] prior[k]).id == m.id {
                let k = choose|k: int| 0 <= k < prior.len() && (#[trigger] prior[k]).id == m.id;
                assert(rest[k].id == m.id);
                let j = choose|j: int|
                    0 <= j < rest.len() && (#[trigger] rest[j]).id == m.id && carried(m, rest).sliders
                        == rest[j].sliders && carried(m, rest).pickers == rest[j].pickers;
                assert(prior[j] == rest[j]);
            }
            if forall|k: int| 0 <= k < prior.len() ==> (#[trigger] prior[k]).id != m.id {
                assert forall|k: int| 0 <= k < rest.len() implies (#[trigger] rest[k]).id != m.id by {
                    assert(prior[k] == rest[k]);
                }
            }
        }
    }
}

/// The menu shows every display that is listed and can be driven, and no other, in the
/// order of the list, under its vendor and product, with its own id and key. It has
/// DDC/CI controls exactly where it speaks DDC/CI.
pub proof fn law_every_controllable_display_is_shown(list: Seq<MonitorInfo>, prior: Seq<Display>) -> (
places: Seq<int>)
    ensures
        places.len() == menu_displays(list, prior).len(),
        forall|k: int|
            0 <= k < places.len() ==> 0 <= #[trigger] places[k] < list.len() && {
                let d = menu_displays(list, prior)[k];
                let m = list[places[k]];
                &&& d.id == m.id
                &&& d.key == m.key@
                &&& d.is_ddc == (m.control is Ddc)
                &&& d.name == (if m.product@.len() > 0 {
                    m.vendor@ + " "@ + m.product@
                } else {
                    m.vendor@
                })
                &&& d.sliders == carried(m, prior).sliders
                &&& d.pickers == carried(m, prior).pickers
            },
        forall|j: int, k: int|
            0 <= j < k < places.len() ==> #[trigger] places[j] < #[trigger] places[k],
        forall|i: int|
            0 <= i < list.len() ==> places.contains(i) == !((#[trigger] list[i]).control is Uncontrollable),
    decreases list.len(),
{
    if list.len() == 0 {
        Seq::empty()
    } else {
        let rest = list.drop_last();
        let n = list.len() - 1;
        let before = law_every_controllable_display_is_shown(rest, prior);
        let places = if list.last().control == ControlPath::Uncontrollable {
            before
        } else {
            before.push(n)
        };
        let all = menu_displays(list, prior);
        assert forall|k: int| 0 <= k < places.len() implies 0 <= #[trigger] places[k] < list.len()
            && {
            let d = all[k];
            let m = list[places[k]];
            &&& d.id == m.id
            &&& d.key == m.key@
            &&& d.is_ddc == (m.control is Ddc)
            &&& d.name == (if m.product@.len() > 0 {
                m.vendor@ + " "@ + m.product@
            } else {
                m.vendor@
            })
            &&& d.sliders == carried(m, prior).sliders
            &&& d.pickers == carried(m, prior).pickers
        } by {
            if k < before.len() {
                assert(places[k] == before[k]);
                assert(rest[before[k]] == list[before[k]]);
                assert(all[k] == menu_displays(rest, prior)[k]);
            }
        }
        assert forall|i: int| 0 <= i < list.len() implies places.contains(i) == !((
        #[trigger] list[i]).control is Uncontrollable) by {
            if i < n {
                assert(rest[i] == list[i]);
                if before.contains(i) {
                    let k = choose|k: int| 0 <= k < before.len() && before[k] == i;
                    assert(places[k] == i);
                }
                if places.contains(i) {
                    let k = choose|k: int| 0 <= k < places.len() && places[k] == i;
                    assert(before[k] == i);
                }
            } else if places.len() > before.len() {
                assert(places[before.len() as int] == n);
            } else if places.contains(i) {
                let k = choose|k: int| 0 <= k < places.len() && places[k] == i;
                assert(before[k] < rest.len());
            }
        }
        places
    }
}

/// The codes that are read for sliders are, of a display that speaks DDC/CI, those that
/// it advertises, that can be adjusted and that are to be shown; of a built-in panel,
/// brightness, where that is to be shown.
pub proof fn law_the_codes_that_are_read(d: Display, caps: Map<u32, Caps>, visible: CodeSets, c: u8)
    ensures
        slider_codes(d, caps, visible).contains(c) == (config::shown(visible, d.key, c) && (if d.is_ddc {
            vcp::adjustable(c) && caps.contains_key(d.id) && exists|i: int|
                0 <= i < caps[d.id].codes.len() && (#[trigger] caps[d.id].codes[i]).0 == c
        } else {
            c == 0x10
        })),
{
    let all = slider_codes(d, caps, visible);
    if d.is_ddc {
        if caps.contains_key(d.id) {
            lemma_wanted_contains(caps[d.id].codes, visible, d.key, c);
        }
    } else {
        if c == 0x10 && config::shown(visible, d.key, 0x10) {
            assert(all[0] == 0x10);
        }
    }
}

/// The same of a list of codes.
proof fn lemma_wanted_contains(codes: Seq<(u8, Seq<char>)>, visible: CodeSets, key: Seq<char>, c: u8)
    ensures
        wanted(codes, visible, key).contains(c) == (config::shown(visible, key, c)
            && vcp::adjustable(c) && exists|i: int|
            0 <= i < codes.len() && (#[trigger] codes[i]).0 == c),
    decreases codes.len(),
{
    let all = wanted(codes, visible, key);
    if codes.len() > 0 {
        let rest = codes.drop_last();
        let before = wanted(rest, visible, key);
        let n = codes.len() - 1;
        lemma_wanted_contains(rest, visible, key, c);
        if before.contains(c) {
            let k = choose|k: int| 0 <= k < before.len() && before[k] == c;
            assert(all[k] == c);
            let i = choose|i: int| 0 <= i < rest.len() && (#[trigger] rest[i]).0 == c;
            assert(codes[i].0 == c);
        }
        if all.contains(c) {
            let k = choose|k: int| 0 <= k < all.len() && all[k] == c;
            if k < before.len() {
                assert(before[k] == c);
            } else {
                assert(codes[n].0 == c);
            }
        }
        if config::shown(visible, key, c) && vcp::adjustable(c) && exists|i: int|
            0 <= i < codes.len() && (#[trigger] codes[i]).0 == c {
            let i = choose|i: int| 0 <= i < codes.len() && (#[trigger] codes[i]).0 == c;
            if i < n {
                assert(rest[i].0 == c);
            } else {
                assert(all[all.len() - 1] == c);
            }
        }
    }
}

/// A value that was read makes a slider of its code that stands at the value, where its
/// maximum is from 1 to 1000, and none otherwise. What was gathered before stays.
pub proof fn law_a_value_makes_its_slider(
    sliders: Seq<Slider>,
    code: u8,
    v: VcpValue,
    before: Seq<Slider>,
)
    ensures
        ({
            let now = grown(sliders, code, Reply::Value(v), before);
            &&& v.max == 0 || v.max > 1000 ==> now == sliders
            &&& v.max >= 1 && v.max <= 1000 ==> {
                &&& now.len() == sliders.len() + 1
                &&& now.last().code == code
                &&& now.last().current == v.current
                &&& now.last().max == v.max
                &&& now.last().label == vcp::code_label(vcp::code_of(code))
                &&& forall|i: int| 0 <= i < sliders.len() ==> #[trigger] now[i] == sliders[i]
            }
        }),
{
}

/// A read that failed keeps the slider that the code had, if it had one.
pub proof fn law_a_failed_read_keeps_its_slider(
    sliders: Seq<Slider>,
    code: u8,
    before: Seq<Slider>,
    i: int,
)
    requires
        0 <= i < before.len(),
        before[i].code == code,
        forall|k: int| 0 <= k < before.len() && k != i ==> (#[trigger] before[k]).code != code,
    ensures
        grown(sliders, code, Reply::Failed, before) == sliders.push(before[i]),
    decreases before.len(),
{
    lemma_only_slider(before, code, i);
}

/// The only slider of a code is found.
proof fn lemma_only_slider(before: Seq<Slider>, code: u8, i: int)
    requires
        0 <= i < before.len(),
        before[i].code == code,
        forall|k: int| 0 <= k < before.len() && k != i ==> (#[trigger] before[k]).code != code,
    ensures
        slider_of(before, code) == Some(before[i]),
    decreases before.len(),
{
    let rest = before.drop_last();
    if i < rest.len() {
        assert forall|k: int| 0 <= k < rest.len() && k != i implies (#[trigger] rest[k]).code
            != code by {
            assert(before[k] == rest[k]);
        }
        lemma_only_slider(rest, code, i);
    } else {
        assert forall|k: int| 0 <= k < rest.len() implies (#[trigger] rest[k]).code != code by {
            assert(before[k] == rest[k]);
        }
        lemma_no_slider(rest, code);
    }
}

/// Where there is none, none is found.
proof fn lemma_no_slider(before: Seq<Slider>, code: u8)
    requires
        forall|k: int| 0 <= k < before.len() ==> (#[trigger] before[k]).code != code,
    ensures
        slider_of(before, code) is None,
    decreases before.len(),
{
    if before.len() > 0 {
        let rest = before.drop_last();
        assert forall|k: int| 0 <= k < rest.len() implies (#[trigger] rest[k]).code != code by {
            assert(before[k] == rest[k]);
        }
        lemma_no_slider(rest, code);
        assert(before[before.len() - 1].code != code);
    }
}

/// A refresh asks the daemon for the displays, then of each display that speaks DDC/CI
/// and is not known yet for its capabilities, and for values by the id of the display
/// that is being read and the number of the code, and at last for the profiles.
pub proof fn law_a_refresh_asks_for_what_it_shows(phase: Phase, s: Shown, a: Ask)
    requires
        asked(phase, s, a),
        sound(phase, s),
    ensures
        (a is List) == (phase is Listing),
        (a is Profiles) == (phase is Profiles),
        (a is Finished) == (phase is Done || phase is Lost),
        a matches Ask::Caps { display } ==> (phase matches Phase::Display { i } && display@
            == text::decimal(s.monitors[i].id as nat) && s.monitors[i].is_ddc
            && !s.caps.contains_key(s.monitors[i].id)),
        phase matches Phase::Display { i } ==> (i < s.monitors.len() && s.monitors[i].is_ddc
            && !s.caps.contains_key(s.monitors[i].id) ==> a is Caps),
        phase matches Phase::Pickers { i, pickers, p } ==> (p < pickers.len() ==> (a matches Ask::Get {
            display,
            code,
        } && display@ == text::decimal(s.monitors[i].id as nat) && code@ == "0x"@ + text::hex(
            pickers[p].code as nat,
            2,
            true,
        ))),
        phase matches Phase::Sliders { i, pickers, codes, k, sliders } ==> (k < codes.len() ==> (
        a matches Ask::Get { display, code } && display@ == text::decimal(s.monitors[i].id as nat)
            && code@ == "0x"@ + text::hex(codes[k] as nat, 2, true))),
{
}

/// Every answer lands where it belongs: the capabilities of a display under its id, the
/// selected value of a picker in that picker, by its low byte, the pickers and sliders
/// that were read in the display that they were read of, and the names of the profiles in
/// the order of the daemon. Nothing else changes.
pub proof fn law_every_answer_lands_where_it_belongs(
    phase: Phase,
    s: Shown,
    visible: CodeSets,
    reply: Reply,
)
    requires
        sound(phase, s),
    ensures
        ({
            let (after, now) = stepped(phase, s, visible, reply);
            &&& phase matches Phase::Display { i } ==> (i < s.monitors.len() && s.monitors[i].is_ddc
                && !s.caps.contains_key(s.monitors[i].id) ==> (reply matches Reply::Caps(c)
                ==> now.caps.contains_key(s.monitors[i].id) && now.caps[s.monitors[i].id]
                == client::caps_from(c)))
            &&& phase matches Phase::Display { i } ==> now.monitors == s.monitors && now.profiles
                == s.profiles
            &&& phase matches Phase::Pickers { i, pickers, p } ==> (p < pickers.len() ==> (
            after matches Phase::Pickers { i: j, pickers: qs, p: n } && j == i && n == p + 1 && qs.len()
                == pickers.len() && (forall|k: int|
                0 <= k < qs.len() && k != p ==> #[trigger] qs[k] == pickers[k]) && qs[p].code
                == pickers[p].code && qs[p].values == pickers[p].values && qs[p].title
                == pickers[p].title && (reply matches Reply::Value(v) ==> qs[p].current == Some(
                (v.current % 256) as u8,
            )) && (!(reply is Value) ==> qs[p].current == pickers[p].current) && now == s))
            &&& phase matches Phase::Sliders { i, pickers, codes, k, sliders } ==> (k == codes.len()
                ==> now.monitors.len() == s.monitors.len() && now.monitors[i].pickers == pickers && (
            forall|j: int|
                0 <= j < s.monitors.len() && j != i ==> #[trigger] now.monitors[j] == s.monitors[j])
                && (sliders.len() > 0 && codes.len() > 0 ==> now.monitors[i].sliders == sliders) && (
            codes.len() == 0 ==> now.monitors[i].sliders.len() == 0) && (sliders.len() == 0
                && codes.len() > 0 ==> now.monitors[i].sliders == s.monitors[i].sliders)
                && after == Phase::Display { i: i + 1 })
            &&& phase is Profiles ==> after is Done && now.monitors == s.monitors && (
            reply matches Reply::Profiles(list) ==> now.profiles.len() == list@.len() && forall|k: int|
                0 <= k < list@.len() ==> #[trigger] now.profiles[k] == list@[k].name@) && (!(
            reply is Profiles) ==> now.profiles.len() == 0)
            &&& phase is Listing ==> (reply matches Reply::Monitors(list) ==> now.monitors
                == menu_displays(list@, s.monitors) && after == Phase::Display { i: 0 })
            &&& phase is Listing && !(reply is Monitors) ==> now.monitors.len() == 0 && after is Lost
        }),
{
    let (after, now) = stepped(phase, s, visible, reply);
    if phase is Profiles {
        assert(now.profiles =~= (match reply {
            Reply::Profiles(list) => names_of(list@),
            _ => Seq::empty(),
        }));
    }
}

/// A settings window is rebuilt where something that it shows has changed: the daemon
/// came up, or a display came, went, or changed its name or kind; capabilities were
/// learned; profiles changed.
pub proof fn law_changes_are_counted(phase: Phase, s: Shown, visible: CodeSets, reply: Reply, i: int)
    ensures
        ({
            let now = stepped(phase, s, visible, reply).1;
            &&& phase is Listing && reply is Monitors && (!s.daemon_up || now.monitors.len()
                != s.monitors.len() || (0 <= i < s.monitors.len() && (now.monitors[i].id
                != s.monitors[i].id || now.monitors[i].name != s.monitors[i].name
                || now.monitors[i].is_ddc != s.monitors[i].is_ddc))) ==> now.generation
                != s.generation
            &&& phase is Listing && !(reply is Monitors) ==> now.generation != s.generation
            &&& phase is Profiles && now.profiles != s.profiles ==> now.generation != s.generation
            &&& phase matches Phase::Display { i: d } ==> now.caps != s.caps ==> now.generation
                != s.generation
        }),
{
    let now = stepped(phase, s, visible, reply).1;
    client::law_changes_are_noticed(s.generation);
    if phase is Listing && reply is Monitors {
        let a = signature(s.monitors);
        let b = signature(now.monitors);
        assert(a.len() == s.monitors.len() && b.len() == now.monitors.len());
        if 0 <= i < s.monitors.len() && s.monitors.len() == now.monitors.len() {
            assert(a[i] == (s.monitors[i].id, s.monitors[i].name, s.monitors[i].is_ddc));
            assert(b[i] == (now.monitors[i].id, now.monitors[i].name, now.monitors[i].is_ddc));
        }
    }
}

} // verus!
