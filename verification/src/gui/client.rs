//! What the menu shows of the daemon, and what is asked of it.
//!
//! # Why nothing here waits
//!
//! The menu is built on the main thread. If the main thread made a blocking call
//! and the daemon were wedged on a half-dead display, the entire app would
//! freeze, including the ability to open the menu to quit.
//!
//! So the menu reads a cached [`Snapshot`] and posts a [`Cmd`]. A worker asks the
//! daemon what a [`Refresh`] wants to know next, one question at a time, and
//! hands each answer back.

use crate::api::CapsResult;
use crate::ddc::vcp;
use crate::ddc::vcp::VcpCode;
use crate::text;
use std::collections::HashMap;
use vstd::prelude::*;

verus! {

broadcast use vstd::std_specs::hash::group_hash_axioms;

/// How long the worker waits for a command before it refreshes by itself, in
/// milliseconds. A refresh reads every visible value over DDC, so this is kept
/// modest; the menu also asks for a refresh when it opens.
pub const POLL_INTERVAL_MS: u64 = 3000;

// ── What is shown ──────────────────────────────────────────────────────────

/// One slider's worth of state.
#[derive(Debug, Clone)]
pub struct SliderView {
    pub label: String,
    pub code: u8,
    pub current: u16,
    pub max: u16,
}

/// What a slider says.
pub struct Slider {
    pub label: Seq<char>,
    pub code: u8,
    pub current: u16,
    pub max: u16,
}

impl View for SliderView {
    type V = Slider;

    open spec fn view(&self) -> Slider {
        Slider { label: self.label@, code: self.code, current: self.current, max: self.max }
    }
}

impl SliderView {
    /// The same slider once more.
    pub fn copy(&self) -> (r: SliderView)
        ensures
            r@ == self@,
    {
        SliderView {
            label: self.label.clone(),
            code: self.code,
            current: self.current,
            max: self.max,
        }
    }
}

/// What sliders say.
pub open spec fn slider_views(v: Seq<SliderView>) -> Seq<Slider> {
    Seq::new(v.len(), |i: int| v[i]@)
}

/// The same sliders once more.
pub fn copy_sliders(v: &Vec<SliderView>) -> (r: Vec<SliderView>)
    ensures
        slider_views(r@) == slider_views(v@),
{
    let mut out: Vec<SliderView> = Vec::new();
    let mut i: usize = 0;
    while i < v.len()
        invariant
            i <= v@.len(),
            out@.len() == i,
            forall|k: int| 0 <= k < i ==> (#[trigger] out@[k])@ == v@[k]@,
        decreases v@.len() - i,
    {
        out.push(v[i].copy());
        i = i + 1;
    }
    assert(slider_views(out@) =~= slider_views(v@));
    out
}

/// Numbered choices with their names.
pub open spec fn choices(v: Seq<(u8, String)>) -> Seq<(u8, Seq<char>)> {
    Seq::new(v.len(), |i: int| (v[i].0, v[i].1@))
}

/// The same choices once more.
pub fn copy_choices(v: &Vec<(u8, String)>) -> (r: Vec<(u8, String)>)
    ensures
        choices(r@) == choices(v@),
{
    let mut out: Vec<(u8, String)> = Vec::new();
    let mut i: usize = 0;
    while i < v.len()
        invariant
            i <= v@.len(),
            out@.len() == i,
            forall|k: int|
                0 <= k < i ==> (#[trigger] out@[k]).0 == v@[k].0 && out@[k].1@ == v@[k].1@,
        decreases v@.len() - i,
    {
        out.push((v[i].0, v[i].1.clone()));
        i = i + 1;
    }
    assert(choices(out@) =~= choices(v@));
    out
}

/// An enumerated control offered as a submenu (Input, Color Preset, …).
#[derive(Debug, Clone)]
pub struct PickerView {
    pub code: u8,
    pub title: String,
    /// (value, friendly name) for each advertised choice.
    pub values: Vec<(u8, String)>,
    /// Currently-selected value, if readable: checkmarked in the menu.
    pub current: Option<u8>,
}

/// What a picker says.
pub struct Picker {
    pub code: u8,
    pub title: Seq<char>,
    pub values: Seq<(u8, Seq<char>)>,
    pub current: Option<u8>,
}

impl View for PickerView {
    type V = Picker;

    open spec fn view(&self) -> Picker {
        Picker {
            code: self.code,
            title: self.title@,
            values: choices(self.values@),
            current: self.current,
        }
    }
}

impl PickerView {
    /// The same picker once more.
    pub fn copy(&self) -> (r: PickerView)
        ensures
            r@ == self@,
    {
        PickerView {
            code: self.code,
            title: self.title.clone(),
            values: copy_choices(&self.values),
            current: self.current,
        }
    }
}

/// What pickers say.
pub open spec fn picker_views(v: Seq<PickerView>) -> Seq<Picker> {
    Seq::new(v.len(), |i: int| v[i]@)
}

/// The same pickers once more.
pub fn copy_pickers(v: &Vec<PickerView>) -> (r: Vec<PickerView>)
    ensures
        picker_views(r@) == picker_views(v@),
{
    let mut out: Vec<PickerView> = Vec::new();
    let mut i: usize = 0;
    while i < v.len()
        invariant
            i <= v@.len(),
            out@.len() == i,
            forall|k: int| 0 <= k < i ==> (#[trigger] out@[k])@ == v@[k]@,
        decreases v@.len() - i,
    {
        out.push(v[i].copy());
        i = i + 1;
    }
    assert(picker_views(out@) =~= picker_views(v@));
    out
}

/// A display in the menu.
#[derive(Debug, Clone)]
pub struct MonitorView {
    pub id: u32,
    pub name: String,
    /// Stable settings key, for persisting per-monitor menu preferences.
    pub key: String,
    pub is_ddc: bool,
    /// Visible sliders: the worker already applies the customization; the menu
    /// shows these as-is.
    pub sliders: Vec<SliderView>,
    /// Enumerated pickers (Input, Color Preset, Orientation, …) the display
    /// advertises with more than one choice.
    pub pickers: Vec<PickerView>,
}

/// What a display in the menu says.
pub struct Display {
    pub id: u32,
    pub name: Seq<char>,
    pub key: Seq<char>,
    pub is_ddc: bool,
    pub sliders: Seq<Slider>,
    pub pickers: Seq<Picker>,
}

impl View for MonitorView {
    type V = Display;

    open spec fn view(&self) -> Display {
        Display {
            id: self.id,
            name: self.name@,
            key: self.key@,
            is_ddc: self.is_ddc,
            sliders: slider_views(self.sliders@),
            pickers: picker_views(self.pickers@),
        }
    }
}

/// What the displays in the menu say.
pub open spec fn display_views(v: Seq<MonitorView>) -> Seq<Display> {
    Seq::new(v.len(), |i: int| v[i]@)
}

/// A monitor's advertised capabilities, fetched on demand.
#[derive(Debug, Clone)]
pub struct CapsView {
    pub mccs: Option<String>,
    /// (code, friendly name) for each advertised VCP code.
    pub codes: Vec<(u8, String)>,
    /// Advertised value lists for enumerated codes, as (code, values). Used to
    /// build pickers.
    pub value_lists: Vec<(u8, Vec<u8>)>,
    pub unknown_sections: Vec<String>,
}

/// What capabilities say.
pub struct Caps {
    pub mccs: Option<Seq<char>>,
    pub codes: Seq<(u8, Seq<char>)>,
    pub value_lists: Seq<(u8, Seq<u8>)>,
    pub unknown_sections: Seq<Seq<char>>,
}

/// Codes with their values.
pub open spec fn lists_of(v: Seq<(u8, Vec<u8>)>) -> Seq<(u8, Seq<u8>)> {
    Seq::new(v.len(), |i: int| (v[i].0, v[i].1@))
}

impl View for CapsView {
    type V = Caps;

    open spec fn view(&self) -> Caps {
        Caps {
            mccs: text::opt_text(self.mccs),
            codes: choices(self.codes@),
            value_lists: lists_of(self.value_lists@),
            unknown_sections: text::texts(self.unknown_sections@),
        }
    }
}

/// Everything the menu and settings window need.
#[derive(Debug, Clone)]
pub struct Snapshot {
    pub daemon_up: bool,
    pub monitors: Vec<MonitorView>,
    pub profiles: Vec<String>,
    /// Capabilities keyed by display id, populated on demand ("Fetch").
    pub caps: HashMap<u32, CapsView>,
    /// Bumped on every change, so the settings window can rebuild only when
    /// something it shows actually changed rather than on a timer blindly.
    pub generation: u64,
}

/// What a snapshot says.
pub struct Shown {
    pub daemon_up: bool,
    pub monitors: Seq<Display>,
    pub profiles: Seq<Seq<char>>,
    pub caps: Map<u32, Caps>,
    pub generation: u64,
}

impl View for Snapshot {
    type V = Shown;

    open spec fn view(&self) -> Shown {
        Shown {
            daemon_up: self.daemon_up,
            monitors: display_views(self.monitors@),
            profiles: text::texts(self.profiles@),
            caps: self.caps@.map_values(|c: CapsView| c@),
            generation: self.generation,
        }
    }
}

/// The next value of a change counter.
pub open spec fn bumped(generation: u64) -> u64 {
    if generation == u64::MAX {
        0
    } else {
        (generation + 1) as u64
    }
}

impl Default for Snapshot {
    fn default() -> (s: Snapshot)
        ensures
            s@ == (Shown {
                daemon_up: false,
                monitors: Seq::empty(),
                profiles: Seq::empty(),
                caps: Map::empty(),
                generation: 0,
            }),
    {
        let s = Snapshot {
            daemon_up: false,
            monitors: Vec::new(),
            profiles: Vec::new(),
            caps: HashMap::new(),
            generation: 0,
        };
        assert(s@.monitors =~= Seq::<Display>::empty());
        assert(s@.profiles =~= Seq::<Seq<char>>::empty());
        assert(s@.caps =~= Map::<u32, Caps>::empty());
        s
    }
}

// ── Capabilities and pickers ───────────────────────────────────────────────

/// Codes with their names.
pub open spec fn named_codes(codes: Seq<u8>) -> Seq<(u8, Seq<char>)> {
    Seq::new(codes.len(), |i: int| (codes[i], vcp::code_label(vcp::code_of(codes[i]))))
}

/// What the daemon's answer says of the capabilities.
pub open spec fn caps_from(c: CapsResult) -> Caps {
    Caps {
        mccs: text::opt_text(c.mccs_version),
        codes: named_codes(c.vcp_codes@),
        value_lists: lists_of(c.value_lists@),
        unknown_sections: text::texts(c.unknown_sections@),
    }
}

/// Build a display-friendly capability view from the daemon's answer.
pub fn to_caps_view(caps: CapsResult) -> (r: CapsView)
    ensures
        r@ == caps_from(caps),
{
    let ghost all = named_codes(caps.vcp_codes@);
    let mut codes: Vec<(u8, String)> = Vec::new();
    let mut i: usize = 0;
    while i < caps.vcp_codes.len()
        invariant
            i <= caps.vcp_codes@.len(),
            all == named_codes(caps.vcp_codes@),
            codes@.len() == i,
            forall|k: int|
                0 <= k < i ==> (#[trigger] codes@[k]).0 == all[k].0 && codes@[k].1@ == all[k].1,
        decreases caps.vcp_codes@.len() - i,
    {
        let c: u8 = caps.vcp_codes[i];
        codes.push((c, VcpCode::from_code(c).display_name()));
        i = i + 1;
    }
    assert(choices(codes@) =~= all);
    CapsView {
        mccs: caps.mccs_version,
        codes,
        value_lists: caps.value_lists,
        unknown_sections: caps.unknown_sections,
    }
}

/// The title of a picker.
pub open spec fn picker_name(code: u8) -> Seq<char> {
    match vcp::picker_label(code) {
        Some(t) => t@,
        None => "Options"@,
    }
}

/// The picker for a code and its values.
pub open spec fn picker_for(code: u8, values: Seq<u8>) -> Picker {
    Picker {
        code,
        title: picker_name(code),
        values: Seq::new(values.len(), |i: int| (values[i], vcp::value_text(code, values[i]))),
        current: None,
    }
}

/// The pickers for advertised values: of curated codes with more than one choice.
pub open spec fn pickers_for(lists: Seq<(u8, Seq<u8>)>) -> Seq<Picker>
    decreases lists.len(),
{
    if lists.len() == 0 {
        Seq::empty()
    } else {
        let rest = pickers_for(lists.drop_last());
        let (code, values) = lists.last();
        if vcp::picker_label(code) is Some && values.len() > 1 {
            rest.push(picker_for(code, values))
        } else {
            rest
        }
    }
}

/// Build the picker for a code and its values.
fn build_picker(code: u8, values: &Vec<u8>) -> (r: PickerView)
    ensures
        r@ == picker_for(code, values@),
{
    let title = match vcp::picker_title(code) {
        Some(t) => text::own(t),
        None => text::own("Options"),
    };
    let ghost all = picker_for(code, values@).values;
    let mut named: Vec<(u8, String)> = Vec::new();
    let mut i: usize = 0;
    while i < values.len()
        invariant
            i <= values@.len(),
            all == picker_for(code, values@).values,
            named@.len() == i,
            forall|k: int|
                0 <= k < i ==> (#[trigger] named@[k]).0 == all[k].0 && named@[k].1@ == all[k].1,
        decreases values@.len() - i,
    {
        let v: u8 = values[i];
        named.push((v, vcp::enum_value_name(code, v)));
        i = i + 1;
    }
    assert(choices(named@) =~= all);
    PickerView { code, title, values: named, current: None }
}

/// Build the enumerated pickers for a monitor from its advertised value lists.
/// Only curated picker codes with more than one choice become pickers.
pub fn build_pickers(value_lists: &Vec<(u8, Vec<u8>)>) -> (r: Vec<PickerView>)
    ensures
        picker_views(r@) == pickers_for(lists_of(value_lists@)),
{
    let ghost lists = lists_of(value_lists@);
    let mut out: Vec<PickerView> = Vec::new();
    let mut i: usize = 0;
    assert(picker_views(out@) =~= pickers_for(lists.take(0)));
    while i < value_lists.len()
        invariant
            i <= value_lists@.len(),
            lists == lists_of(value_lists@),
            picker_views(out@) == pickers_for(lists.take(i as int)),
        decreases value_lists@.len() - i,
    {
        assert(lists.take(i + 1).drop_last() =~= lists.take(i as int));
        assert(lists.take(i + 1).last() == lists[i as int]);
        let code: u8 = value_lists[i].0;
        if vcp::is_picker(code) && value_lists[i].1.len() > 1 {
            let ghost before = picker_views(out@);
            let p = build_picker(code, &value_lists[i].1);
            let ghost view = p@;
            out.push(p);
            assert(picker_views(out@) =~= before.push(view));
        }
        i = i + 1;
    }
    assert(lists.take(i as int) =~= lists);
    out
}

/// A picker is offered for exactly those codes that are picked from and have a choice of
/// at least two values: input, color preset, orientation and language. It offers every
/// value, in the order of the display, under its name, and none is taken for current
/// before it has been read.
pub proof fn law_pickers_offer_every_choice(lists: Seq<(u8, Seq<u8>)>) -> (places: Seq<int>)
    ensures
        places.len() == pickers_for(lists).len(),
        forall|k: int|
            0 <= k < places.len() ==> 0 <= #[trigger] places[k] < lists.len() && {
                let p = pickers_for(lists)[k];
                let (code, values) = lists[places[k]];
                &&& p.code == code
                &&& p.current is None
                &&& p.values.len() == values.len()
                &&& forall|v: int|
                    0 <= v < values.len() ==> (#[trigger] p.values[v]).0 == values[v]
                        && p.values[v].1 == vcp::value_text(code, values[v])
                &&& code == 0x60 ==> p.title == "Input"@
                &&& code == 0x14 ==> p.title == "Color Preset"@
                &&& code == 0xAA ==> p.title == "Orientation"@
                &&& code == 0xCC ==> p.title == "OSD Language"@
            },
        forall|j: int, k: int|
            0 <= j < k < places.len() ==> #[trigger] places[j] < #[trigger] places[k],
        forall|i: int|
            0 <= i < lists.len() ==> places.contains(i) == (((#[trigger] lists[i]).0 == 0x60
                || lists[i].0 == 0x14 || lists[i].0 == 0xAA || lists[i].0 == 0xCC)
                && lists[i].1.len() >= 2),
    decreases lists.len(),
{
    if lists.len() == 0 {
        Seq::empty()
    } else {
        let rest = lists.drop_last();
        let n = lists.len() - 1;
        let before = law_pickers_offer_every_choice(rest);
        let (code, values) = lists.last();
        let places = if vcp::picker_label(code) is Some && values.len() > 1 {
            before.push(n)
        } else {
            before
        };
        let all = pickers_for(lists);
        assert forall|k: int| 0 <= k < places.len() implies 0 <= #[trigger] places[k] < lists.len()
            && {
            let p = all[k];
            let (code, values) = lists[places[k]];
            &&& p.code == code
            &&& p.current is None
            &&& p.values.len() == values.len()
            &&& forall|v: int|
                0 <= v < values.len() ==> (#[trigger] p.values[v]).0 == values[v] && p.values[v].1
                    == vcp::value_text(code, values[v])
            &&& code == 0x60 ==> p.title == "Input"@
            &&& code == 0x14 ==> p.title == "Color Preset"@
            &&& code == 0xAA ==> p.title == "Orientation"@
            &&& code == 0xCC ==> p.title == "OSD Language"@
        } by {
            if k < before.len() {
                assert(places[k] == before[k]);
                assert(rest[before[k]] == lists[before[k]]);
                assert(all[k] == pickers_for(rest)[k]);
            }
        }
        assert forall|i: int| 0 <= i < lists.len() implies places.contains(i) == (((
        #[trigger] lists[i]).0 == 0x60 || lists[i].0 == 0x14 || lists[i].0 == 0xAA || lists[i].0
            == 0xCC) && lists[i].1.len() >= 2) by {
            if i < n {
                assert(rest[i] == lists[i]);
                if before.contains(i) {
                    let k = choose|k: int| 0 <= k < before.len() && before[k] == i;
                    assert(places[k] == i);
                }
                if places.contains(i) {
                    let k = choose|k: int| 0 <= k < places.len() && places[k] == i;
                    assert(before[k] == i);
                }
            } else {
                if places.len() > before.len() {
                    assert(places[before.len() as int] == n);
                } else if places.contains(i) {
                    let k = choose|k: int| 0 <= k < places.len() && places[k] == i;
                    assert(before[k] < rest.len());
                }
            }
        }
        places
    }
}

/// What is shown of a display's capabilities is what it was asked for: every code with
/// its name, every list of values, the version and the unknown sections.
pub proof fn law_capabilities_are_shown_as_they_are(c: CapsResult, i: int)
    ensures
        caps_from(c).mccs == text::opt_text(c.mccs_version),
        caps_from(c).codes.len() == c.vcp_codes@.len(),
        0 <= i < c.vcp_codes@.len() ==> caps_from(c).codes[i].0 == c.vcp_codes@[i]
            && caps_from(c).codes[i].1 == vcp::code_label(vcp::code_of(c.vcp_codes@[i])),
        caps_from(c).value_lists.len() == c.value_lists@.len(),
        0 <= i < c.value_lists@.len() ==> caps_from(c).value_lists[i].0 == c.value_lists@[i].0
            && caps_from(c).value_lists[i].1 == c.value_lists@[i].1@,
        caps_from(c).unknown_sections == text::texts(c.unknown_sections@),
{
}

/// Every change gives the generation another number.
pub proof fn law_changes_are_noticed(generation: u64)
    ensures
        bumped(generation) != generation,
        generation < u64::MAX ==> bumped(generation) == generation + 1,
{
}

} // verus!
