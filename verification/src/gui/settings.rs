//! The settings window: Displays, Capabilities, Profiles and General tabs.
//!
//! Each tab is a list of rows, laid out from the top down. Every control carries
//! a tag into one table of actions for the whole window.

use crate::ddc::vcp;
use crate::gui::batch::Cmd;
use crate::gui::client;
use crate::gui::client::{Caps, CapsView, Display, MonitorView, Shown, Snapshot};
use crate::gui::config;
use crate::gui::config::{CodeSets, GuiConfig};
use crate::model::profile;
use crate::text;
use vstd::prelude::*;

verus! {

broadcast use vstd::std_specs::hash::group_hash_axioms;

/// The version of the app.
pub const APP_VERSION: &'static str = "0.1.0";

/// Width of the window.
pub const WIDTH: u32 = 460;

/// Height of the window.
pub const HEIGHT: u32 = 420;

// ── Controls ───────────────────────────────────────────────────────────────

/// A control in the settings window.
#[derive(Debug)]
pub enum SettingsAction {
    /// A checkbox: show/hide `code` for the display `key`.
    ToggleVisible { key: String, code: u8 },
    ApplyProfile(String),
    DeleteProfile(String),
    /// "Save current settings as profile…": prompts for a name.
    SaveProfilePrompt,
    /// Fetch a display's capability string for the Capabilities tab.
    FetchCaps(String),
    /// Launch-at-login checkbox.
    ToggleLogin,
}

/// A control in the settings window, as a value.
pub enum Control {
    ToggleVisible { key: Seq<char>, code: u8 },
    ApplyProfile(Seq<char>),
    DeleteProfile(Seq<char>),
    SaveProfilePrompt,
    FetchCaps(Seq<char>),
    ToggleLogin,
}

impl View for SettingsAction {
    type V = Control;

    open spec fn view(&self) -> Control {
        match *self {
            SettingsAction::ToggleVisible { key, code } => Control::ToggleVisible {
                key: key@,
                code,
            },
            SettingsAction::ApplyProfile(n) => Control::ApplyProfile(n@),
            SettingsAction::DeleteProfile(n) => Control::DeleteProfile(n@),
            SettingsAction::SaveProfilePrompt => Control::SaveProfilePrompt,
            SettingsAction::FetchCaps(d) => Control::FetchCaps(d@),
            SettingsAction::ToggleLogin => Control::ToggleLogin,
        }
    }
}

/// What a row is.
#[derive(Debug)]
pub enum Kind {
    Label { text: String, bold: bool },
    Checkbox { title: String, checked: bool, tag: usize },
    Button { title: String, tag: usize },
    /// Nothing but room.
    Space,
}

/// What a row is, as a value.
pub enum Shape {
    Label { text: Seq<char>, bold: bool },
    Checkbox { title: Seq<char>, checked: bool, tag: nat },
    Button { title: Seq<char>, tag: nat },
    Space,
}

impl View for Kind {
    type V = Shape;

    open spec fn view(&self) -> Shape {
        match *self {
            Kind::Label { text, bold } => Shape::Label { text: text@, bold },
            Kind::Checkbox { title, checked, tag } => Shape::Checkbox {
                title: title@,
                checked,
                tag: tag as nat,
            },
            Kind::Button { title, tag } => Shape::Button { title: title@, tag: tag as nat },
            Kind::Space => Shape::Space,
        }
    }
}

/// A row of a tab.
#[derive(Debug)]
pub struct Row {
    pub kind: Kind,
    /// Where it begins, from the left.
    pub x: u32,
    /// How wide it is.
    pub w: u32,
    /// How far above the current height it stands.
    pub rise: u32,
    /// How far below the current height it stands.
    pub sink: u32,
    /// How far down the next row is.
    pub advance: u32,
}

/// A row of a tab, as a value.
pub struct Cell {
    pub kind: Shape,
    pub x: u32,
    pub w: u32,
    pub rise: u32,
    pub sink: u32,
    pub advance: u32,
}

impl View for Row {
    type V = Cell;

    open spec fn view(&self) -> Cell {
        Cell {
            kind: self.kind@,
            x: self.x,
            w: self.w,
            rise: self.rise,
            sink: self.sink,
            advance: self.advance,
        }
    }
}

/// A tab as it grows, with the actions of the window so far.
#[derive(Debug)]
pub struct Page {
    pub rows: Vec<Row>,
    pub actions: Vec<SettingsAction>,
}

/// A tab as it grows, as values.
pub struct Sheet {
    pub cells: Seq<Cell>,
    pub controls: Seq<Control>,
}

impl View for Page {
    type V = Sheet;

    open spec fn view(&self) -> Sheet {
        Sheet {
            cells: Seq::new(self.rows@.len(), |i: int| self.rows@[i]@),
            controls: Seq::new(self.actions@.len(), |i: int| self.actions@[i]@),
        }
    }
}

// ── Rows ───────────────────────────────────────────────────────────────────

/// A sheet with a cell behind the others.
pub open spec fn with_cell(s: Sheet, cell: Cell) -> Sheet {
    Sheet { cells: s.cells.push(cell), controls: s.controls }
}

/// A line of text.
pub open spec fn label(text: Seq<char>, x: u32, w: u32, bold: bool, sink: u32, advance: u32) -> Cell {
    Cell { kind: Shape::Label { text, bold }, x, w, rise: 0, sink, advance }
}

/// A sheet with a line of text.
pub open spec fn with_label(s: Sheet, text: Seq<char>, x: u32, w: u32, bold: bool, advance: u32) -> Sheet {
    with_cell(s, label(text, x, w, bold, 0, advance))
}

/// A sheet with a checkbox.
pub open spec fn with_checkbox(
    s: Sheet,
    title: Seq<char>,
    checked: bool,
    control: Control,
    x: u32,
    advance: u32,
) -> Sheet {
    Sheet {
        cells: s.cells.push(
            Cell {
                kind: Shape::Checkbox { title, checked, tag: s.controls.len() },
                x,
                w: (WIDTH - x - 20) as u32,
                rise: 0,
                sink: 0,
                advance,
            },
        ),
        controls: s.controls.push(control),
    }
}

/// A sheet with a button.
pub open spec fn with_button(
    s: Sheet,
    title: Seq<char>,
    control: Control,
    x: u32,
    w: u32,
    rise: u32,
    advance: u32,
) -> Sheet {
    Sheet {
        cells: s.cells.push(
            Cell {
                kind: Shape::Button { title, tag: s.controls.len() },
                x,
                w,
                rise,
                sink: 0,
                advance,
            },
        ),
        controls: s.controls.push(control),
    }
}

/// A sheet with room below.
pub open spec fn with_space(s: Sheet, advance: u32) -> Sheet {
    with_cell(s, Cell { kind: Shape::Space, x: 0, w: 0, rise: 0, sink: 0, advance })
}

impl Page {
    /// An empty tab, after others.
    fn after(actions: Vec<SettingsAction>) -> (p: Page)
        ensures
            p@.cells == Seq::<Cell>::empty(),
            p@.controls == Seq::new(actions@.len(), |i: int| actions@[i]@),
    {
        let p = Page { rows: Vec::new(), actions };
        assert(p@.cells =~= Seq::<Cell>::empty());
        p
    }

    /// Add a row.
    fn add_row(&mut self, row: Row)
        ensures
            final(self)@ == with_cell(old(self)@, row@),
    {
        let ghost before = self@;
        let ghost cell = row@;
        self.rows.push(row);
        assert(self@.cells =~= before.cells.push(cell));
        assert(self@.controls =~= before.controls);
    }

    /// Enter an action in the table. Its tag is returned.
    fn register_settings_action(&mut self, action: SettingsAction) -> (tag: usize)
        ensures
            tag == old(self)@.controls.len(),
            final(self)@ == (Sheet {
                cells: old(self)@.cells,
                controls: old(self)@.controls.push(action@),
            }),
    {
        let ghost before = self@;
        let ghost control = action@;
        let tag: usize = self.actions.len();
        self.actions.push(action);
        assert(self@.cells =~= before.cells);
        assert(self@.controls =~= before.controls.push(control));
        tag
    }

    /// Add a line of text.
    fn place_label(&mut self, text: String, x: u32, w: u32, bold: bool, advance: u32)
        ensures
            final(self)@ == with_label(old(self)@, text@, x, w, bold, advance),
    {
        self.add_row(Row { kind: Kind::Label { text, bold }, x, w, rise: 0, sink: 0, advance });
    }

    /// Add a checkbox.
    fn place_checkbox(
        &mut self,
        title: String,
        checked: bool,
        action: SettingsAction,
        x: u32,
        advance: u32,
    )
        requires
            x + 20 <= WIDTH,
        ensures
            final(self)@ == with_checkbox(old(self)@, title@, checked, action@, x, advance),
    {
        let tag: usize = self.register_settings_action(action);
        self.add_row(
            Row {
                kind: Kind::Checkbox { title, checked, tag },
                x,
                w: WIDTH - x - 20,
                rise: 0,
                sink: 0,
                advance,
            },
        );
    }

    /// Add a button.
    fn place_button(
        &mut self,
        title: &str,
        action: SettingsAction,
        x: u32,
        w: u32,
        rise: u32,
        advance: u32,
    )
        ensures
            final(self)@ == with_button(old(self)@, title@, action@, x, w, rise, advance),
    {
        let tag: usize = self.register_settings_action(action);
        self.add_row(
            Row {
                kind: Kind::Button { title: text::own(title), tag },
                x,
                w,
                rise,
                sink: 0,
                advance,
            },
        );
    }

    /// Add room.
    fn place_space(&mut self, advance: u32)
        ensures
            final(self)@ == with_space(old(self)@, advance),
    {
        self.add_row(Row { kind: Kind::Space, x: 0, w: 0, rise: 0, sink: 0, advance });
    }
}

/// A tab of the window.
#[derive(Debug)]
pub struct Tab {
    pub title: &'static str,
    /// Where the first row stands.
    pub top: u32,
    pub rows: Vec<Row>,
    /// How tall the tab is: `base` and `step` for each of `lines`, but no less
    /// than the window.
    pub base: u32,
    pub step: u32,
    pub lines: usize,
}

/// A count as far as it can be held.
pub open spec fn capped(n: nat) -> usize {
    if n > usize::MAX {
        usize::MAX
    } else {
        n as usize
    }
}

// ── Displays ───────────────────────────────────────────────────────────────

/// Advertised codes that can be shown as sliders.
pub open spec fn adjustable_codes(codes: Seq<(u8, Seq<char>)>) -> Seq<(u8, Seq<char>)>
    decreases codes.len(),
{
    if codes.len() == 0 {
        Seq::empty()
    } else if vcp::adjustable(codes.last().0) {
        adjustable_codes(codes.drop_last()).push(codes.last())
    } else {
        adjustable_codes(codes.drop_last())
    }
}

/// The controls of a display that the user can choose to show.
pub open spec fn candidates(d: Display, caps: Map<u32, Caps>) -> Seq<(u8, Seq<char>)> {
    if d.is_ddc {
        if caps.contains_key(d.id) {
            adjustable_codes(caps[d.id].codes)
        } else {
            Seq::empty()
        }
    } else {
        seq![(0x10u8, "Brightness"@)]
    }
}

/// The controls of a display that the user can choose to show.
pub fn list_candidates(m: &MonitorView, snap: &Snapshot) -> (r: Vec<(u8, String)>)
    ensures
        client::choices(r@) == candidates(m@, snap@.caps),
{
    let mut out: Vec<(u8, String)> = Vec::new();
    assert(client::choices(out@) =~= Seq::<(u8, Seq<char>)>::empty());
    if !m.is_ddc {
        out.push((0x10, text::own("Brightness")));
        assert(client::choices(out@) =~= seq![(0x10u8, "Brightness"@)]);
        return out;
    }
    match snap.caps.get(&m.id) {
        None => {
            assert(!snap@.caps.contains_key(m.id));
        },
        Some(cv) => {
            assert(snap@.caps.contains_key(m.id) && snap@.caps[m.id] == cv@);
            let ghost all = client::choices(cv.codes@);
            let mut i: usize = 0;
            while i < cv.codes.len()
                invariant
                    i <= cv.codes@.len(),
                    all == client::choices(cv.codes@),
                    client::choices(out@) == adjustable_codes(all.take(i as int)),
                decreases cv.codes@.len() - i,
            {
                assert(all.take(i + 1).drop_last() =~= all.take(i as int));
                assert(all.take(i + 1).last() == all[i as int]);
                if vcp::is_adjustable(cv.codes[i].0) {
                    let ghost before = client::choices(out@);
                    out.push((cv.codes[i].0, cv.codes[i].1.clone()));
                    assert(client::choices(out@) =~= before.push(all[i as int]));
                }
                i = i + 1;
            }
            assert(all.take(i as int) =~= all);
        },
    }
    out
}

/// A sheet with a checkbox for each candidate.
pub open spec fn with_candidates(
    s: Sheet,
    list: Seq<(u8, Seq<char>)>,
    key: Seq<char>,
    visible: CodeSets,
) -> Sheet
    decreases list.len(),
{
    if list.len() == 0 {
        s
    } else {
        let (code, name) = list.last();
        with_checkbox(
            with_candidates(s, list.drop_last(), key, visible),
            "Show "@ + name + " in menu"@,
            config::shown(visible, key, code),
            Control::ToggleVisible { key, code },
            40,
            24,
        )
    }
}

/// A sheet with the section of a display. Without capabilities yet, it says that
/// they are being read.
pub open spec fn with_display(
    s: Sheet,
    d: Display,
    caps: Map<u32, Caps>,
    visible: CodeSets,
) -> Sheet {
    let named = with_label(s, d.name, 16, (WIDTH - 32) as u32, true, 24);
    let list = candidates(d, caps);
    if list.len() == 0 {
        with_label(named, "  reading capabilities…"@, 28, (WIDTH - 48) as u32, false, 24)
    } else {
        with_space(with_candidates(named, list, d.key, visible), 6)
    }
}

/// A sheet with the sections of displays.
pub open spec fn with_displays(
    s: Sheet,
    ds: Seq<Display>,
    caps: Map<u32, Caps>,
    visible: CodeSets,
) -> Sheet
    decreases ds.len(),
{
    if ds.len() == 0 {
        s
    } else {
        with_display(with_displays(s, ds.drop_last(), caps, visible), ds.last(), caps, visible)
    }
}

/// The Displays tab.
pub open spec fn displays_sheet(s: Sheet, shown: Shown, visible: CodeSets) -> Sheet {
    if !shown.daemon_up {
        with_label(s, "displayd is not running."@, 20, (WIDTH - 40) as u32, false, 0)
    } else if shown.monitors.len() == 0 {
        with_label(s, "No controllable displays."@, 20, (WIDTH - 40) as u32, false, 0)
    } else {
        with_displays(s, shown.monitors, shown.caps, visible)
    }
}

/// How many lines the Displays tab makes room for.
pub open spec fn display_lines(ds: Seq<Display>, caps: Map<u32, Caps>) -> nat
    decreases ds.len(),
{
    if ds.len() == 0 {
        0
    } else {
        let n = candidates(ds.last(), caps).len();
        display_lines(ds.drop_last(), caps) + 1 + if n == 0 {
            1
        } else {
            n
        }
    }
}

impl Page {
    /// Add the section of a display.
    fn add_display(&mut self, m: &MonitorView, snap: &Snapshot, cfg: &GuiConfig)
        ensures
            final(self)@ == with_display(old(self)@, m@, snap@.caps, cfg.visible@),
    {
        self.place_label(m.name.clone(), 16, WIDTH - 32, true, 24);
        let list = list_candidates(m, snap);
        let ghost all = client::choices(list@);
        if list.len() == 0 {
            self.place_label(text::own("  reading capabilities…"), 28, WIDTH - 48, false, 24);
            return;
        }
        let ghost start = self@;
        let mut i: usize = 0;
        assert(all.take(0) =~= Seq::<(u8, Seq<char>)>::empty());
        while i < list.len()
            invariant
                i <= list@.len(),
                all == client::choices(list@),
                self@ == with_candidates(start, all.take(i as int), m.key@, cfg.visible@),
            decreases list@.len() - i,
        {
            assert(all.take(i + 1).drop_last() =~= all.take(i as int));
            assert(all.take(i + 1).last() == all[i as int]);
            let code: u8 = list[i].0;
            let title = text::between("Show ", list[i].1.as_str(), " in menu");
            let shown: bool = cfg.is_visible(m.key.as_str(), code);
            self.place_checkbox(
                title,
                shown,
                SettingsAction::ToggleVisible { key: m.key.clone(), code },
                40,
                24,
            );
            i = i + 1;
        }
        assert(all.take(i as int) =~= all);
        self.place_space(6);
    }

    /// Fill the Displays tab.
    pub fn displays_view(&mut self, snap: &Snapshot, cfg: &GuiConfig)
        ensures
            final(self)@ == displays_sheet(old(self)@, snap@, cfg.visible@),
    {
        if !snap.daemon_up {
            self.place_label(text::own("displayd is not running."), 20, WIDTH - 40, false, 0);
            return;
        }
        if snap.monitors.len() == 0 {
            self.place_label(text::own("No controllable displays."), 20, WIDTH - 40, false, 0);
            return;
        }
        let ghost start = self@;
        let ghost all = snap@.monitors;
        let mut i: usize = 0;
        assert(all.take(0) =~= Seq::<Display>::empty());
        while i < snap.monitors.len()
            invariant
                i <= snap.monitors@.len(),
                all == snap@.monitors,
                self@ == with_displays(start, all.take(i as int), snap@.caps, cfg.visible@),
            decreases snap.monitors@.len() - i,
        {
            assert(all.take(i + 1).drop_last() =~= all.take(i as int));
            assert(all.take(i + 1).last() == snap.monitors@[i as int]@);
            self.add_display(&snap.monitors[i], snap, cfg);
            i = i + 1;
        }
        assert(all.take(i as int) =~= all);
    }
}

/// How many lines the Displays tab makes room for.
pub fn count_display_lines(snap: &Snapshot) -> (n: usize)
    ensures
        n == capped(display_lines(snap@.monitors, snap@.caps)),
{
    let ghost all = snap@.monitors;
    let mut n: usize = 0;
    let mut i: usize = 0;
    assert(all.take(0) =~= Seq::<Display>::empty());
    while i < snap.monitors.len()
        invariant
            i <= snap.monitors@.len(),
            all == snap@.monitors,
            n == capped(display_lines(all.take(i as int), snap@.caps)),
        decreases snap.monitors@.len() - i,
    {
        assert(all.take(i + 1).drop_last() =~= all.take(i as int));
        assert(all.take(i + 1).last() == snap.monitors@[i as int]@);
        let list = list_candidates(&snap.monitors[i], snap);
        assert(client::choices(list@).len() == list@.len());
        let k: usize = if list.len() == 0 {
            1
        } else {
            list.len()
        };
        n = n.saturating_add(1).saturating_add(k);
        i = i + 1;
    }
    assert(all.take(i as int) =~= all);
    n
}

// ── Capabilities ───────────────────────────────────────────────────────────

/// The line above advertised codes.
pub open spec fn caps_header(c: Caps) -> Seq<char> {
    match c.mccs {
        Some(v) => "  MCCS "@ + v + " · "@ + text::decimal(c.codes.len())
            + " VCP code(s) advertised"@,
        None => "  "@ + text::decimal(c.codes.len()) + " VCP code(s) advertised"@,
    }
}

/// A sheet with a line for each advertised code.
pub open spec fn with_codes(s: Sheet, codes: Seq<(u8, Seq<char>)>) -> Sheet
    decreases codes.len(),
{
    if codes.len() == 0 {
        s
    } else {
        with_label(
            with_codes(s, codes.drop_last()),
            "  "@ + vcp::hex_key(codes.last().0) + "  "@ + codes.last().1,
            40,
            (WIDTH - 56) as u32,
            false,
            20,
        )
    }
}

/// A sheet with what capabilities say.
pub open spec fn with_caps(s: Sheet, c: Caps) -> Sheet {
    let listed = with_codes(
        with_label(s, caps_header(c), 28, (WIDTH - 48) as u32, false, 22),
        c.codes,
    );
    if c.unknown_sections.len() == 0 {
        listed
    } else {
        with_label(
            listed,
            "  vendor sections: "@ + text::joined(c.unknown_sections, ", "@),
            40,
            (WIDTH - 56) as u32,
            false,
            20,
        )
    }
}

/// A sheet with the capabilities of a display, if it speaks DDC/CI: its name, a
/// button that fetches them, and what is known of them.
pub open spec fn with_known_caps(s: Sheet, d: Display, caps: Map<u32, Caps>) -> Sheet {
    if !d.is_ddc {
        s
    } else {
        let named = with_label(s, d.name, 16, (WIDTH - 140) as u32, true, 0);
        let known = caps.contains_key(d.id);
        let offered = with_button(
            named,
            if known {
                "Refresh"@
            } else {
                "Fetch"@
            },
            Control::FetchCaps(text::decimal(d.id as nat)),
            (WIDTH - 110) as u32,
            88,
            2,
            26,
        );
        with_space(
            if known {
                with_caps(offered, caps[d.id])
            } else {
                with_label(
                    offered,
                    "  Click Fetch to read this display's capabilities."@,
                    28,
                    (WIDTH - 48) as u32,
                    false,
                    24,
                )
            },
            10,
        )
    }
}

/// A sheet with the capabilities of displays.
pub open spec fn with_all_caps(s: Sheet, ds: Seq<Display>, caps: Map<u32, Caps>) -> Sheet
    decreases ds.len(),
{
    if ds.len() == 0 {
        s
    } else {
        with_known_caps(with_all_caps(s, ds.drop_last(), caps), ds.last(), caps)
    }
}

/// Whether any display speaks DDC/CI.
pub open spec fn any_ddc(ds: Seq<Display>) -> bool {
    exists|i: int| 0 <= i < ds.len() && (#[trigger] ds[i]).is_ddc
}

/// The Capabilities tab.
pub open spec fn capabilities_sheet(s: Sheet, shown: Shown) -> Sheet {
    if any_ddc(shown.monitors) {
        with_all_caps(s, shown.monitors, shown.caps)
    } else {
        with_label(
            s,
            "No DDC displays. Capabilities are read over DDC/CI."@,
            20,
            (WIDTH - 40) as u32,
            false,
            0,
        )
    }
}

/// How many lines the Capabilities tab makes room for.
pub open spec fn caps_lines(ds: Seq<Display>, caps: Map<u32, Caps>) -> nat
    decreases ds.len(),
{
    if ds.len() == 0 {
        0
    } else if !ds.last().is_ddc {
        caps_lines(ds.drop_last(), caps)
    } else if caps.contains_key(ds.last().id) {
        caps_lines(ds.drop_last(), caps) + 4 + caps[ds.last().id].codes.len()
    } else {
        caps_lines(ds.drop_last(), caps) + 3
    }
}

impl Page {
    /// Add what capabilities say.
    fn add_caps(&mut self, caps: &CapsView)
        ensures
            final(self)@ == with_caps(old(self)@, caps@),
    {
        let count = text::write_decimal(caps.codes.len() as u64);
        let header = match &caps.mccs {
            Some(v) => {
                let mut h = text::between("  MCCS ", v.as_str(), " · ");
                h.append(count.as_str());
                h.append(" VCP code(s) advertised");
                h
            },
            None => text::between("  ", count.as_str(), " VCP code(s) advertised"),
        };
        self.place_label(header, 28, WIDTH - 48, false, 22);
        let ghost start = self@;
        let ghost all = client::choices(caps.codes@);
        let mut i: usize = 0;
        assert(all.take(0) =~= Seq::<(u8, Seq<char>)>::empty());
        while i < caps.codes.len()
            invariant
                i <= caps.codes@.len(),
                all == client::choices(caps.codes@),
                self@ == with_codes(start, all.take(i as int)),
            decreases caps.codes@.len() - i,
        {
            assert(all.take(i + 1).drop_last() =~= all.take(i as int));
            assert(all.take(i + 1).last() == all[i as int]);
            let mut line = text::after("  ", vcp::write_hex_key(caps.codes[i].0).as_str());
            line.append("  ");
            line.append(caps.codes[i].1.as_str());
            self.place_label(line, 40, WIDTH - 56, false, 20);
            i = i + 1;
        }
        assert(all.take(i as int) =~= all);
        if caps.unknown_sections.len() > 0 {
            let line = text::after(
                "  vendor sections: ",
                text::join(&caps.unknown_sections, ", ").as_str(),
            );
            self.place_label(line, 40, WIDTH - 56, false, 20);
        }
    }

    /// Add the capabilities of a display.
    fn add_known_caps(&mut self, m: &MonitorView, snap: &Snapshot)
        ensures
            final(self)@ == with_known_caps(old(self)@, m@, snap@.caps),
    {
        if !m.is_ddc {
            return;
        }
        self.place_label(m.name.clone(), 16, WIDTH - 140, true, 0);
        let known = snap.caps.get(&m.id);
        let title = match known {
            Some(_) => "Refresh",
            None => "Fetch",
        };
        self.place_button(
            title,
            SettingsAction::FetchCaps(text::write_decimal(m.id as u64)),
            WIDTH - 110,
            88,
            2,
            26,
        );
        match known {
            None => {
                assert(!snap@.caps.contains_key(m.id));
                self.place_label(
                    text::own("  Click Fetch to read this display's capabilities."),
                    28,
                    WIDTH - 48,
                    false,
                    24,
                );
            },
            Some(cv) => {
                assert(snap@.caps.contains_key(m.id) && snap@.caps[m.id] == cv@);
                self.add_caps(cv);
            },
        }
        self.place_space(10);
    }

    /// Fill the Capabilities tab.
    pub fn capabilities_view(&mut self, snap: &Snapshot)
        ensures
            final(self)@ == capabilities_sheet(old(self)@, snap@),
    {
        let ghost start = self@;
        let ghost all = snap@.monitors;
        let mut found: bool = false;
        let mut k: usize = 0;
        while k < snap.monitors.len()
            invariant
                k <= snap.monitors@.len(),
                all == snap@.monitors,
                found == exists|i: int| 0 <= i < k && (#[trigger] all[i]).is_ddc,
            decreases snap.monitors@.len() - k,
        {
            assert(all[k as int] == snap.monitors@[k as int]@);
            if snap.monitors[k].is_ddc {
                found = true;
            }
            k = k + 1;
        }
        if !found {
            self.place_label(
                text::own("No DDC displays. Capabilities are read over DDC/CI."),
                20,
                WIDTH - 40,
                false,
                0,
            );
            return;
        }
        let mut i: usize = 0;
        assert(all.take(0) =~= Seq::<Display>::empty());
        while i < snap.monitors.len()
            invariant
                i <= snap.monitors@.len(),
                all == snap@.monitors,
                self@ == with_all_caps(start, all.take(i as int), snap@.caps),
            decreases snap.monitors@.len() - i,
        {
            assert(all.take(i + 1).drop_last() =~= all.take(i as int));
            assert(all.take(i + 1).last() == snap.monitors@[i as int]@);
            self.add_known_caps(&snap.monitors[i], snap);
            i = i + 1;
        }
        assert(all.take(i as int) =~= all);
    }
}

/// How many lines the Capabilities tab makes room for.
pub fn count_caps_lines(snap: &Snapshot) -> (n: usize)
    ensures
        n == capped(caps_lines(snap@.monitors, snap@.caps)),
{
    let ghost all = snap@.monitors;
    let mut n: usize = 0;
    let mut i: usize = 0;
    assert(all.take(0) =~= Seq::<Display>::empty());
    while i < snap.monitors.len()
        invariant
            i <= snap.monitors@.len(),
            all == snap@.monitors,
            n == capped(caps_lines(all.take(i as int), snap@.caps)),
        decreases snap.monitors@.len() - i,
    {
        assert(all.take(i + 1).drop_last() =~= all.take(i as int));
        assert(all.take(i + 1).last() == snap.monitors@[i as int]@);
        let m = &snap.monitors[i];
        if m.is_ddc {
            match snap.caps.get(&m.id) {
                Some(cv) => {
                    assert(snap@.caps.contains_key(m.id) && snap@.caps[m.id] == cv@);
                    n = n.saturating_add(4).saturating_add(cv.codes.len());
                },
                None => {
                    assert(!snap@.caps.contains_key(m.id));
                    n = n.saturating_add(3);
                },
            }
        }
        i = i + 1;
    }
    assert(all.take(i as int) =~= all);
    n
}

// ── Profiles ───────────────────────────────────────────────────────────────

/// A sheet with a profile: its name, and buttons that apply and delete it.
pub open spec fn with_profile(s: Sheet, name: Seq<char>) -> Sheet {
    let named = with_cell(s, label(name, 16, 200, true, 4, 0));
    let applied = with_button(
        named,
        "Apply"@,
        Control::ApplyProfile(name),
        (WIDTH - 180) as u32,
        72,
        0,
        0,
    );
    with_button(
        applied,
        "Delete"@,
        Control::DeleteProfile(name),
        (WIDTH - 100) as u32,
        78,
        0,
        30,
    )
}

/// A sheet with profiles.
pub open spec fn with_profiles(s: Sheet, names: Seq<Seq<char>>) -> Sheet
    decreases names.len(),
{
    if names.len() == 0 {
        s
    } else {
        with_profile(with_profiles(s, names.drop_last()), names.last())
    }
}

/// The Profiles tab.
pub open spec fn profiles_sheet(s: Sheet, names: Seq<Seq<char>>) -> Sheet {
    let offered = with_button(
        s,
        "Save current settings as profile…"@,
        Control::SaveProfilePrompt,
        16,
        260,
        0,
        40,
    );
    if names.len() == 0 {
        with_label(offered, "No saved profiles yet."@, 20, (WIDTH - 40) as u32, false, 0)
    } else {
        with_profiles(offered, names)
    }
}

impl Page {
    /// Fill the Profiles tab.
    pub fn profiles_view(&mut self, profiles: &Vec<String>)
        ensures
            final(self)@ == profiles_sheet(old(self)@, text::texts(profiles@)),
    {
        self.place_button(
            "Save current settings as profile…",
            SettingsAction::SaveProfilePrompt,
            16,
            260,
            0,
            40,
        );
        if profiles.len() == 0 {
            self.place_label(text::own("No saved profiles yet."), 20, WIDTH - 40, false, 0);
            return;
        }
        let ghost start = self@;
        let ghost all = text::texts(profiles@);
        let mut i: usize = 0;
        assert(all.take(0) =~= Seq::<Seq<char>>::empty());
        while i < profiles.len()
            invariant
                i <= profiles@.len(),
                all == text::texts(profiles@),
                self@ == with_profiles(start, all.take(i as int)),
            decreases profiles@.len() - i,
        {
            assert(all.take(i + 1).drop_last() =~= all.take(i as int));
            assert(all.take(i + 1).last() == profiles@[i as int]@);
            let name = &profiles[i];
            self.add_row(
                Row {
                    kind: Kind::Label { text: name.clone(), bold: true },
                    x: 16,
                    w: 200,
                    rise: 0,
                    sink: 4,
                    advance: 0,
                },
            );
            self.place_button(
                "Apply",
                SettingsAction::ApplyProfile(name.clone()),
                WIDTH - 180,
                72,
                0,
                0,
            );
            self.place_button(
                "Delete",
                SettingsAction::DeleteProfile(name.clone()),
                WIDTH - 100,
                78,
                0,
                30,
            );
            i = i + 1;
        }
        assert(all.take(i as int) =~= all);
    }
}

// ── General ────────────────────────────────────────────────────────────────

/// The General tab.
pub open spec fn general_sheet(s: Sheet, launch_at_login: bool, daemon_up: bool) -> Sheet {
    let login = with_checkbox(
        s,
        "Launch Display Studio at login"@,
        launch_at_login,
        Control::ToggleLogin,
        20,
        42,
    );
    let version = with_label(
        login,
        "Display Studio "@ + APP_VERSION@,
        20,
        (WIDTH - 40) as u32,
        false,
        24,
    );
    with_label(
        version,
        if daemon_up {
            "displayd: connected"@
        } else {
            "displayd: not running"@
        },
        20,
        (WIDTH - 40) as u32,
        false,
        0,
    )
}

impl Page {
    /// Fill the General tab.
    pub fn general_view(&mut self, launch_at_login: bool, daemon_up: bool)
        ensures
            final(self)@ == general_sheet(old(self)@, launch_at_login, daemon_up),
    {
        self.place_checkbox(
            text::own("Launch Display Studio at login"),
            launch_at_login,
            SettingsAction::ToggleLogin,
            20,
            42,
        );
        self.place_label(text::after("Display Studio ", APP_VERSION), 20, WIDTH - 40, false, 24);
        let daemon = if daemon_up {
            "displayd: connected"
        } else {
            "displayd: not running"
        };
        self.place_label(text::own(daemon), 20, WIDTH - 40, false, 0);
    }
}

// ── The window ─────────────────────────────────────────────────────────────

/// The window: its tabs, and what their tags stand for.
#[derive(Debug)]
pub struct Window {
    pub tabs: Vec<Tab>,
    pub actions: Vec<SettingsAction>,
}

/// A tab that has no row yet, after others.
pub open spec fn sheet_after(s: Sheet) -> Sheet {
    Sheet { cells: Seq::empty(), controls: s.controls }
}

/// What rows say.
pub open spec fn row_views(v: Seq<Row>) -> Seq<Cell> {
    Seq::new(v.len(), |i: int| v[i]@)
}

/// What actions say.
pub open spec fn action_views(v: Seq<SettingsAction>) -> Seq<Control> {
    Seq::new(v.len(), |i: int| v[i]@)
}

/// Whether a tab has a title, begins at a height and holds rows.
pub open spec fn tab_is(t: Tab, title: Seq<char>, top: u32, cells: Seq<Cell>) -> bool {
    t.title@ == title && t.top == top && row_views(t.rows@) == cells
}

/// Whether a tab makes room for lines.
pub open spec fn tab_fits(t: Tab, base: u32, step: u32, lines: nat) -> bool {
    t.base == base && t.step == step && t.lines == capped(lines)
}

/// Whether a window shows what is known.
pub open spec fn window_of(w: Window, shown: Shown, visible: CodeSets, login: bool) -> bool {
    let displays = displays_sheet(
        Sheet { cells: Seq::empty(), controls: Seq::empty() },
        shown,
        visible,
    );
    let caps = capabilities_sheet(sheet_after(displays), shown);
    let profiles = profiles_sheet(sheet_after(caps), shown.profiles);
    let general = general_sheet(sheet_after(profiles), login, shown.daemon_up);
    &&& w.tabs@.len() == 4
    &&& tab_is(w.tabs@[0], "Displays"@, 14, displays.cells)
    &&& tab_fits(w.tabs@[0], 40, 26, display_lines(shown.monitors, shown.caps))
    &&& tab_is(w.tabs@[1], "Capabilities"@, 14, caps.cells)
    &&& tab_fits(w.tabs@[1], 40, 22, caps_lines(shown.monitors, shown.caps))
    &&& tab_is(w.tabs@[2], "Profiles"@, 14, profiles.cells)
    &&& tab_fits(
        w.tabs@[2],
        80,
        30,
        if shown.profiles.len() == 0 {
            1
        } else {
            shown.profiles.len()
        },
    )
    &&& tab_is(w.tabs@[3], "General"@, 18, general.cells)
    &&& tab_fits(w.tabs@[3], (HEIGHT - 40) as u32, 0, 0)
    &&& action_views(w.actions@) == general.controls
}

/// Build the window from what is known.
pub fn build_tabs(snap: &Snapshot, cfg: &GuiConfig) -> (w: Window)
    ensures
        window_of(w, snap@, cfg.visible@, cfg.launch_at_login),
{
    let mut page = Page::after(Vec::new());
    assert(page@.controls =~= Seq::<Control>::empty());
    page.displays_view(snap, cfg);
    let displays = Tab {
        title: "Displays",
        top: 14,
        rows: page.rows,
        base: 40,
        step: 26,
        lines: count_display_lines(snap),
    };
    let mut page = Page::after(page.actions);
    page.capabilities_view(snap);
    let caps = Tab {
        title: "Capabilities",
        top: 14,
        rows: page.rows,
        base: 40,
        step: 22,
        lines: count_caps_lines(snap),
    };
    let mut page = Page::after(page.actions);
    page.profiles_view(&snap.profiles);
    let lines: usize = if snap.profiles.len() == 0 {
        1
    } else {
        snap.profiles.len()
    };
    let profiles = Tab { title: "Profiles", top: 14, rows: page.rows, base: 80, step: 30, lines };
    let mut page = Page::after(page.actions);
    page.general_view(cfg.launch_at_login, snap.daemon_up);
    let general = Tab {
        title: "General",
        top: 18,
        rows: page.rows,
        base: HEIGHT - 40,
        step: 0,
        lines: 0,
    };
    let mut tabs: Vec<Tab> = Vec::new();
    tabs.push(displays);
    tabs.push(caps);
    tabs.push(profiles);
    tabs.push(general);
    Window { tabs, actions: page.actions }
}

// ── Clicks ─────────────────────────────────────────────────────────────────

/// Something that a control does.
#[derive(Debug)]
pub enum Deed {
    /// Show or hide a code, and save the preferences.
    Show { key: String, code: u8, on: bool },
    Post(Cmd),
    /// Drop a profile from the list at once.
    Forget(String),
    /// Put a profile into the list at once.
    Remember(String),
    /// Build the window anew.
    Reopen,
    /// Ask the user for the name of a profile.
    PromptName,
    /// Turn launch at login on or off, and save the preferences.
    Login(bool),
}

/// Whether `d` is what a control does. A checked box means "shown".
pub open spec fn deeds_of(c: Control, on: bool, d: Seq<Deed>) -> bool {
    match c {
        Control::ToggleVisible { key, code } => d.len() == 1 && (d[0] matches Deed::Show {
            key: k,
            code: n,
            on: o,
        } && k@ == key && n == code && o == on),
        Control::ApplyProfile(name) => d.len() == 2 && (d[0] matches Deed::Post(
            Cmd::ApplyProfile(n),
        ) && n@ == name) && d[1] is Reopen,
        Control::DeleteProfile(name) => d.len() == 3 && (d[0] matches Deed::Forget(n) && n@ == name)
            && (d[1] matches Deed::Post(Cmd::DeleteProfile(n)) && n@ == name) && d[2] is Reopen,
        Control::SaveProfilePrompt => d.len() == 1 && d[0] is PromptName,
        Control::FetchCaps(display) => d.len() == 1 && (d[0] matches Deed::Post(
            Cmd::FetchCaps(x),
        ) && x@ == display),
        Control::ToggleLogin => d.len() == 1 && (d[0] matches Deed::Login(o) && o == on),
    }
}

/// What a control does.
fn settings_control(action: &SettingsAction, on: bool) -> (d: Vec<Deed>)
    ensures
        deeds_of(action@, on, d@),
{
    let mut d: Vec<Deed> = Vec::new();
    match action {
        SettingsAction::ToggleVisible { key, code } => {
            d.push(Deed::Show { key: key.clone(), code: *code, on });
        },
        SettingsAction::ApplyProfile(name) => {
            d.push(Deed::Post(Cmd::ApplyProfile(name.clone())));
            d.push(Deed::Reopen);
        },
        SettingsAction::DeleteProfile(name) => {
            // Reflect the delete at once; the worker confirms it.
            d.push(Deed::Forget(name.clone()));
            d.push(Deed::Post(Cmd::DeleteProfile(name.clone())));
            d.push(Deed::Reopen);
        },
        SettingsAction::SaveProfilePrompt => {
            d.push(Deed::PromptName);
        },
        SettingsAction::FetchCaps(display) => {
            d.push(Deed::Post(Cmd::FetchCaps(display.clone())));
        },
        SettingsAction::ToggleLogin => {
            d.push(Deed::Login(on));
        },
    }
    d
}

impl Window {
    /// What the control of a tag does. A tag that the table does not hold does
    /// nothing.
    pub fn control(&self, tag: usize, on: bool) -> (d: Vec<Deed>)
        ensures
            if tag < self.actions@.len() {
                deeds_of(self.actions@[tag as int]@, on, d@)
            } else {
                d@.len() == 0
            },
    {
        if tag >= self.actions.len() {
            return Vec::new();
        }
        settings_control(&self.actions[tag], on)
    }
}

/// Whether `r` is the name that was entered, without the white space round it, where
/// the daemon would take it.
pub open spec fn name_taken(entered: Seq<char>, r: Option<String>) -> bool {
    match r {
        Some(n) => n@ == text::trimmed(entered) && profile::valid_name(n@),
        None => !profile::valid_name(text::trimmed(entered)),
    }
}

/// The name that was entered for a profile, if the daemon would take it, so that
/// a save does not silently fail.
pub fn prompt_name(entered: &str) -> (r: Option<String>)
    ensures
        name_taken(entered@, r),
{
    let name = text::trim(entered);
    match profile::validate_name(name.as_str()) {
        Ok(_) => Some(name),
        Err(_) => None,
    }
}

/// Whether deeds save the profile of this name, if any.
pub open spec fn saves(name: Option<String>, d: Seq<Deed>) -> bool {
    match name {
        Some(n) => d.len() == 3 && (d[0] matches Deed::Remember(x) && x@ == n@) && (
        d[1] matches Deed::Post(Cmd::SaveProfile(x)) && x@ == n@) && d[2] is Reopen,
        None => d.len() == 0,
    }
}

/// What follows from the name that the user gave a profile, if any.
pub fn name_given(name: Option<String>) -> (d: Vec<Deed>)
    ensures
        saves(name, d@),
{
    let mut d: Vec<Deed> = Vec::new();
    if let Some(n) = name {
        d.push(Deed::Remember(n.clone()));
        d.push(Deed::Post(Cmd::SaveProfile(n)));
        d.push(Deed::Reopen);
    }
    d
}

/// Whether a window that was built at some generation is out of date.
pub open spec fn rebuild_due(open: bool, built_at: u64, generation: u64) -> bool {
    open && built_at != generation
}

/// Whether the window is to be built anew: only when it is open and something
/// changed since it was built.
pub fn settings_tick(open: bool, built_at: u64, generation: u64) -> (b: bool)
    ensures
        b == rebuild_due(open, built_at, generation),
{
    open && built_at != generation
}

// ── Laws ───────────────────────────────────────────────────────────────────

/// Whether a cell's tag stands for what the cell is: a checkbox's for something
/// that is on or off, a button's for something that is done.
pub open spec fn fits(cell: Cell, controls: Seq<Control>) -> bool {
    match cell.kind {
        Shape::Checkbox { tag, .. } => tag < controls.len() && (controls[tag as int] is ToggleVisible
            || controls[tag as int] is ToggleLogin),
        Shape::Button { tag, .. } => tag < controls.len() && !(controls[tag as int] is ToggleVisible)
            && !(controls[tag as int] is ToggleLogin),
        _ => true,
    }
}

/// Whether every cell's tag stands for what the cell is.
pub open spec fn tagged(s: Sheet) -> bool {
    forall|j: int| 0 <= j < s.cells.len() ==> fits(#[trigger] s.cells[j], s.controls)
}

/// Whether a sheet goes on from another: the controls so far keep their tags.
pub open spec fn goes_on(a: Sheet, b: Sheet) -> bool {
    &&& a.controls.len() <= b.controls.len()
    &&& forall|i: int| 0 <= i < a.controls.len() ==> b.controls[i] == #[trigger] a.controls[i]
}

/// A line of text or room keeps tags right.
proof fn lemma_tagged_cell(s: Sheet, cell: Cell)
    requires
        tagged(s),
        cell.kind is Label || cell.kind is Space,
    ensures
        tagged(with_cell(s, cell)),
        goes_on(s, with_cell(s, cell)),
{
}

/// A cell with a control of its own keeps tags right.
proof fn lemma_tagged_control(s: Sheet, cell: Cell, control: Control)
    requires
        tagged(s),
        fits(cell, s.controls.push(control)),
    ensures
        tagged(Sheet { cells: s.cells.push(cell), controls: s.controls.push(control) }),
        goes_on(s, Sheet { cells: s.cells.push(cell), controls: s.controls.push(control) }),
{
    let now = Sheet { cells: s.cells.push(cell), controls: s.controls.push(control) };
    assert forall|j: int| 0 <= j < now.cells.len() implies fits(
        #[trigger] now.cells[j],
        now.controls,
    ) by {
        if j < s.cells.len() {
            assert(now.cells[j] == s.cells[j]);
            assert(fits(s.cells[j], s.controls));
        }
    }
}

/// A checkbox keeps tags right.
proof fn lemma_tagged_checkbox(
    s: Sheet,
    title: Seq<char>,
    checked: bool,
    control: Control,
    x: u32,
    advance: u32,
)
    requires
        tagged(s),
        control is ToggleVisible || control is ToggleLogin,
    ensures
        tagged(with_checkbox(s, title, checked, control, x, advance)),
        goes_on(s, with_checkbox(s, title, checked, control, x, advance)),
{
    lemma_tagged_control(
        s,
        with_checkbox(s, title, checked, control, x, advance).cells.last(),
        control,
    );
}

/// A button keeps tags right.
proof fn lemma_tagged_button(
    s: Sheet,
    title: Seq<char>,
    control: Control,
    x: u32,
    w: u32,
    rise: u32,
    advance: u32,
)
    requires
        tagged(s),
        !(control is ToggleVisible),
        !(control is ToggleLogin),
    ensures
        tagged(with_button(s, title, control, x, w, rise, advance)),
        goes_on(s, with_button(s, title, control, x, w, rise, advance)),
{
    lemma_tagged_control(
        s,
        with_button(s, title, control, x, w, rise, advance).cells.last(),
        control,
    );
}

/// Checkboxes for candidates keep tags right.
proof fn lemma_tagged_candidates(
    s: Sheet,
    list: Seq<(u8, Seq<char>)>,
    key: Seq<char>,
    visible: CodeSets,
)
    requires
        tagged(s),
    ensures
        tagged(with_candidates(s, list, key, visible)),
        goes_on(s, with_candidates(s, list, key, visible)),
    decreases list.len(),
{
    if list.len() > 0 {
        lemma_tagged_candidates(s, list.drop_last(), key, visible);
        let (code, name) = list.last();
        lemma_tagged_checkbox(
            with_candidates(s, list.drop_last(), key, visible),
            "Show "@ + name + " in menu"@,
            config::shown(visible, key, code),
            Control::ToggleVisible { key, code },
            40,
            24,
        );
    }
}

/// The Displays tab keeps tags right.
proof fn lemma_tagged_displays(
    s: Sheet,
    ds: Seq<Display>,
    caps: Map<u32, Caps>,
    visible: CodeSets,
)
    requires
        tagged(s),
    ensures
        tagged(with_displays(s, ds, caps, visible)),
        goes_on(s, with_displays(s, ds, caps, visible)),
    decreases ds.len(),
{
    if ds.len() > 0 {
        lemma_tagged_displays(s, ds.drop_last(), caps, visible);
        let before = with_displays(s, ds.drop_last(), caps, visible);
        let d = ds.last();
        let named = with_label(before, d.name, 16, (WIDTH - 32) as u32, true, 24);
        lemma_tagged_cell(before, label(d.name, 16, (WIDTH - 32) as u32, true, 0, 24));
        lemma_tagged_candidates(named, candidates(d, caps), d.key, visible);
        let full = with_candidates(named, candidates(d, caps), d.key, visible);
        lemma_tagged_cell(
            full,
            Cell { kind: Shape::Space, x: 0, w: 0, rise: 0, sink: 0, advance: 6 },
        );
        lemma_tagged_cell(
            named,
            label("  reading capabilities…"@, 28, (WIDTH - 48) as u32, false, 0, 24),
        );
    }
}

/// Lines of codes keep tags right.
proof fn lemma_tagged_codes(s: Sheet, codes: Seq<(u8, Seq<char>)>)
    requires
        tagged(s),
    ensures
        tagged(with_codes(s, codes)),
        goes_on(s, with_codes(s, codes)),
    decreases codes.len(),
{
    if codes.len() > 0 {
        lemma_tagged_codes(s, codes.drop_last());
        lemma_tagged_cell(
            with_codes(s, codes.drop_last()),
            with_codes(s, codes).cells.last(),
        );
    }
}

/// The Capabilities tab keeps tags right.
proof fn lemma_tagged_all_caps(s: Sheet, ds: Seq<Display>, caps: Map<u32, Caps>)
    requires
        tagged(s),
    ensures
        tagged(with_all_caps(s, ds, caps)),
        goes_on(s, with_all_caps(s, ds, caps)),
    decreases ds.len(),
{
    if ds.len() > 0 {
        lemma_tagged_all_caps(s, ds.drop_last(), caps);
        let before = with_all_caps(s, ds.drop_last(), caps);
        let d = ds.last();
        if d.is_ddc {
            let named = with_label(before, d.name, 16, (WIDTH - 140) as u32, true, 0);
            lemma_tagged_cell(before, label(d.name, 16, (WIDTH - 140) as u32, true, 0, 0));
            let title = if caps.contains_key(d.id) {
                "Refresh"@
            } else {
                "Fetch"@
            };
            let control = Control::FetchCaps(text::decimal(d.id as nat));
            lemma_tagged_button(named, title, control, (WIDTH - 110) as u32, 88, 2, 26);
            let offered = with_button(named, title, control, (WIDTH - 110) as u32, 88, 2, 26);
            let c = caps[d.id];
            let headed = with_label(offered, caps_header(c), 28, (WIDTH - 48) as u32, false, 22);
            lemma_tagged_cell(
                offered,
                label(caps_header(c), 28, (WIDTH - 48) as u32, false, 0, 22),
            );
            lemma_tagged_codes(headed, c.codes);
            let listed = with_codes(headed, c.codes);
            let vendor = "  vendor sections: "@ + text::joined(c.unknown_sections, ", "@);
            lemma_tagged_cell(listed, label(vendor, 40, (WIDTH - 56) as u32, false, 0, 20));
            let hint = "  Click Fetch to read this display's capabilities."@;
            lemma_tagged_cell(offered, label(hint, 28, (WIDTH - 48) as u32, false, 0, 24));
            let full = if caps.contains_key(d.id) {
                with_caps(offered, c)
            } else {
                with_label(offered, hint, 28, (WIDTH - 48) as u32, false, 24)
            };
            lemma_tagged_cell(
                full,
                Cell { kind: Shape::Space, x: 0, w: 0, rise: 0, sink: 0, advance: 10 },
            );
        }
    }
}

/// The Profiles tab keeps tags right.
proof fn lemma_tagged_profiles(s: Sheet, names: Seq<Seq<char>>)
    requires
        tagged(s),
    ensures
        tagged(with_profiles(s, names)),
        goes_on(s, with_profiles(s, names)),
    decreases names.len(),
{
    if names.len() > 0 {
        lemma_tagged_profiles(s, names.drop_last());
        let before = with_profiles(s, names.drop_last());
        let name = names.last();
        let named = with_cell(before, label(name, 16, 200, true, 4, 0));
        lemma_tagged_cell(before, label(name, 16, 200, true, 4, 0));
        let apply = Control::ApplyProfile(name);
        lemma_tagged_button(named, "Apply"@, apply, (WIDTH - 180) as u32, 72, 0, 0);
        let applied = with_button(named, "Apply"@, apply, (WIDTH - 180) as u32, 72, 0, 0);
        let delete = Control::DeleteProfile(name);
        lemma_tagged_button(applied, "Delete"@, delete, (WIDTH - 100) as u32, 78, 0, 30);
    }
}

/// A tab's tags stay right while later tabs add controls of their own.
proof fn lemma_tags_last(cells: Seq<Cell>, now: Sheet, later: Sheet)
    requires
        tagged(Sheet { cells, controls: now.controls }),
        goes_on(now, later),
    ensures
        tagged(Sheet { cells, controls: later.controls }),
{
    let s = Sheet { cells, controls: now.controls };
    assert forall|j: int| 0 <= j < cells.len() implies fits(
        #[trigger] cells[j],
        later.controls,
    ) by {
        assert(fits(s.cells[j], s.controls));
    }
}

/// Every tag in the window stands for a control of the kind that its row is,
/// whichever tab it is in.
pub proof fn law_tags_stand_for_their_rows(
    w: Window,
    shown: Shown,
    visible: CodeSets,
    login: bool,
    t: int,
    j: int,
)
    requires
        window_of(w, shown, visible, login),
        0 <= t < 4,
        0 <= j < w.tabs@[t].rows@.len(),
    ensures
        fits(w.tabs@[t].rows@[j]@, action_views(w.actions@)),
{
    let none = Sheet { cells: Seq::empty(), controls: Seq::empty() };
    lemma_tagged_displays(none, shown.monitors, shown.caps, visible);
    lemma_tagged_cell(
        none,
        label("displayd is not running."@, 20, (WIDTH - 40) as u32, false, 0, 0),
    );
    lemma_tagged_cell(
        none,
        label("No controllable displays."@, 20, (WIDTH - 40) as u32, false, 0, 0),
    );
    let displays = displays_sheet(none, shown, visible);
    let s1 = sheet_after(displays);
    lemma_tagged_all_caps(s1, shown.monitors, shown.caps);
    lemma_tagged_cell(
        s1,
        label(
            "No DDC displays. Capabilities are read over DDC/CI."@,
            20,
            (WIDTH - 40) as u32,
            false,
            0,
            0,
        ),
    );
    let caps = capabilities_sheet(s1, shown);
    let s2 = sheet_after(caps);
    let save = "Save current settings as profile…"@;
    lemma_tagged_button(s2, save, Control::SaveProfilePrompt, 16, 260, 0, 40);
    let offered = with_button(s2, save, Control::SaveProfilePrompt, 16, 260, 0, 40);
    lemma_tagged_profiles(offered, shown.profiles);
    lemma_tagged_cell(
        offered,
        label("No saved profiles yet."@, 20, (WIDTH - 40) as u32, false, 0, 0),
    );
    let profiles = profiles_sheet(s2, shown.profiles);
    let s3 = sheet_after(profiles);
    let title = "Launch Display Studio at login"@;
    lemma_tagged_checkbox(s3, title, login, Control::ToggleLogin, 20, 42);
    let boxed = with_checkbox(s3, title, login, Control::ToggleLogin, 20, 42);
    let version = label("Display Studio "@ + APP_VERSION@, 20, (WIDTH - 40) as u32, false, 0, 24);
    lemma_tagged_cell(boxed, version);
    let general = general_sheet(s3, login, shown.daemon_up);
    lemma_tagged_cell(with_cell(boxed, version), general.cells.last());
    lemma_tags_last(profiles.cells, profiles, general);
    lemma_tags_last(caps.cells, caps, profiles);
    lemma_tags_last(caps.cells, profiles, general);
    lemma_tags_last(displays.cells, displays, caps);
    lemma_tags_last(displays.cells, caps, profiles);
    lemma_tags_last(displays.cells, profiles, general);
    assert(row_views(w.tabs@[t].rows@)[j] == w.tabs@[t].rows@[j]@);
    let cells = row_views(w.tabs@[t].rows@);
    let last = Sheet { cells, controls: general.controls };
    assert(tagged(last));
    assert(fits(last.cells[j], last.controls));
}

/// The checkboxes of a display say what is shown of it and toggle just that: the
/// row of a candidate carries the tag under which that candidate's code is
/// toggled, and is checked exactly if the code is shown.
pub proof fn law_checkboxes_toggle_what_they_say(
    s: Sheet,
    list: Seq<(u8, Seq<char>)>,
    key: Seq<char>,
    visible: CodeSets,
    i: int,
)
    requires
        0 <= i < list.len(),
    ensures
        ({
            let now = with_candidates(s, list, key, visible);
            &&& now.cells.len() == s.cells.len() + list.len()
            &&& now.controls.len() == s.controls.len() + list.len()
            &&& now.cells[s.cells.len() + i].kind == (Shape::Checkbox {
                title: "Show "@ + list[i].1 + " in menu"@,
                checked: config::shown(visible, key, list[i].0),
                tag: (s.controls.len() + i) as nat,
            })
            &&& now.controls[s.controls.len() + i] == (Control::ToggleVisible {
                key,
                code: list[i].0,
            })
        }),
    decreases list.len(),
{
    reveal_with_fuel(with_candidates, 2);
    let rest = list.drop_last();
    if i < rest.len() {
        law_checkboxes_toggle_what_they_say(s, rest, key, visible, i);
        assert(rest[i] == list[i]);
    } else if rest.len() > 0 {
        law_checkboxes_toggle_what_they_say(s, rest, key, visible, rest.len() - 1);
    }
}

/// Whether a sheet is another with more behind it.
pub open spec fn longer(a: Sheet, b: Sheet) -> bool {
    &&& a.cells.len() <= b.cells.len()
    &&& forall|i: int| 0 <= i < a.cells.len() ==> #[trigger] b.cells[i] == a.cells[i]
    &&& a.controls.len() <= b.controls.len()
    &&& forall|i: int| 0 <= i < a.controls.len() ==> #[trigger] b.controls[i] == a.controls[i]
}

/// Whether a cell is a checkbox of this title and state that toggles this.
pub open spec fn ticks(
    cell: Cell,
    controls: Seq<Control>,
    title: Seq<char>,
    checked: bool,
    control: Control,
) -> bool {
    cell.kind matches Shape::Checkbox { title: t, checked: c, tag } && t == title && c == checked
        && tag < controls.len() && controls[tag as int] == control
}

/// Whether a cell is a button of this title that does this.
pub open spec fn presses(cell: Cell, controls: Seq<Control>, title: Seq<char>, control: Control) -> bool {
    cell.kind matches Shape::Button { title: t, tag } && t == title && tag < controls.len()
        && controls[tag as int] == control
}

/// Whether a cell says this.
pub open spec fn says(cell: Cell, words: Seq<char>) -> bool {
    cell.kind matches Shape::Label { text, bold } && text == words
}

/// Whether a sheet offers to show or hide a code of a display, checked where it is shown.
pub open spec fn offers_code(
    s: Sheet,
    d: Display,
    code: u8,
    name: Seq<char>,
    visible: CodeSets,
) -> bool {
    exists|j: int|
        0 <= j < s.cells.len() && #[trigger] ticks(
            s.cells[j],
            s.controls,
            "Show "@ + name + " in menu"@,
            config::shown(visible, d.key, code),
            Control::ToggleVisible { key: d.key, code },
        )
}

/// Whether a sheet names a display and has, next to its name, a button that reads its
/// capabilities.
pub open spec fn offers_reading(s: Sheet, d: Display, title: Seq<char>) -> bool {
    exists|j: int|
        0 <= j && j + 1 < s.cells.len() && #[trigger] says(s.cells[j], d.name) && presses(
            s.cells[j + 1],
            s.controls,
            title,
            Control::FetchCaps(text::decimal(d.id as nat)),
        )
}

/// Whether a sheet lists a code.
pub open spec fn lists_code(s: Sheet, code: u8, name: Seq<char>) -> bool {
    exists|j: int|
        0 <= j < s.cells.len() && #[trigger] says(
            s.cells[j],
            "  "@ + ("0x"@ + text::hex(code as nat, 2, true)) + "  "@ + name,
        )
}

/// Whether a sheet names a profile and has, next to its name, a button that applies it
/// and one that deletes it.
pub open spec fn offers_profile(s: Sheet, name: Seq<char>) -> bool {
    exists|j: int|
        0 <= j && j + 2 < s.cells.len() && #[trigger] says(s.cells[j], name) && presses(
            s.cells[j + 1],
            s.controls,
            "Apply"@,
            Control::ApplyProfile(name),
        ) && presses(s.cells[j + 2], s.controls, "Delete"@, Control::DeleteProfile(name))
}

/// What a sheet offers, it offers while it goes on.
proof fn lemma_offers_stay(
    a: Sheet,
    b: Sheet,
    d: Display,
    code: u8,
    name: Seq<char>,
    visible: CodeSets,
)
    requires
        longer(a, b),
    ensures
        offers_code(a, d, code, name, visible) ==> offers_code(b, d, code, name, visible),
        offers_reading(a, d, name) ==> offers_reading(b, d, name),
        lists_code(a, code, name) ==> lists_code(b, code, name),
        offers_profile(a, name) ==> offers_profile(b, name),
{
    if offers_code(a, d, code, name, visible) {
        let j = choose|j: int|
            0 <= j < a.cells.len() && #[trigger] ticks(
                a.cells[j],
                a.controls,
                "Show "@ + name + " in menu"@,
                config::shown(visible, d.key, code),
                Control::ToggleVisible { key: d.key, code },
            );
        assert(b.cells[j] == a.cells[j]);
        assert(ticks(
            b.cells[j],
            b.controls,
            "Show "@ + name + " in menu"@,
            config::shown(visible, d.key, code),
            Control::ToggleVisible { key: d.key, code },
        ));
    }
    if offers_reading(a, d, name) {
        let j = choose|j: int|
            0 <= j && j + 1 < a.cells.len() && #[trigger] says(a.cells[j], d.name) && presses(
                a.cells[j + 1],
                a.controls,
                name,
                Control::FetchCaps(text::decimal(d.id as nat)),
            );
        assert(b.cells[j] == a.cells[j]);
        assert(b.cells[j + 1] == a.cells[j + 1]);
        assert(says(b.cells[j], d.name));
    }
    if lists_code(a, code, name) {
        let j = choose|j: int|
            0 <= j < a.cells.len() && #[trigger] says(
                a.cells[j],
                "  "@ + ("0x"@ + text::hex(code as nat, 2, true)) + "  "@ + name,
            );
        assert(says(b.cells[j], "  "@ + ("0x"@ + text::hex(code as nat, 2, true)) + "  "@ + name));
    }
    if offers_profile(a, name) {
        let j = choose|j: int|
            0 <= j && j + 2 < a.cells.len() && #[trigger] says(a.cells[j], name) && presses(
                a.cells[j + 1],
                a.controls,
                "Apply"@,
                Control::ApplyProfile(name),
            ) && presses(a.cells[j + 2], a.controls, "Delete"@, Control::DeleteProfile(name));
        assert(b.cells[j] == a.cells[j]);
        assert(b.cells[j + 1] == a.cells[j + 1]);
        assert(b.cells[j + 2] == a.cells[j + 2]);
        assert(says(b.cells[j], name));
    }
}

/// Going on twice is going on.
proof fn lemma_longer(a: Sheet, b: Sheet, c: Sheet)
    requires
        longer(a, b),
        longer(b, c),
    ensures
        longer(a, c),
{
    assert forall|i: int| 0 <= i < a.cells.len() implies #[trigger] c.cells[i] == a.cells[i] by {
        assert(c.cells[i] == b.cells[i]);
    }
    assert forall|i: int| 0 <= i < a.controls.len() implies #[trigger] c.controls[i]
        == a.controls[i] by {
        assert(c.controls[i] == b.controls[i]);
    }
}

/// The checkboxes of a display, and what they toggle.
proof fn lemma_candidates_longer(s: Sheet, list: Seq<(u8, Seq<char>)>, key: Seq<char>, visible: CodeSets)
    ensures
        longer(s, with_candidates(s, list, key, visible)),
        forall|t: int|
            s.controls.len() <= t < with_candidates(s, list, key, visible).controls.len() ==> (
            #[trigger] with_candidates(s, list, key, visible).controls[t]) is ToggleVisible,
    decreases list.len(),
{
    if list.len() > 0 {
        lemma_candidates_longer(s, list.drop_last(), key, visible);
        lemma_longer(
            s,
            with_candidates(s, list.drop_last(), key, visible),
            with_candidates(s, list, key, visible),
        );
    }
}

/// The codes that can be adjusted.
proof fn lemma_adjustable_codes(codes: Seq<(u8, Seq<char>)>, i: int)
    requires
        0 <= i < codes.len(),
        vcp::adjustable(codes[i].0),
    ensures
        adjustable_codes(codes).contains(codes[i]),
    decreases codes.len(),
{
    let rest = adjustable_codes(codes.drop_last());
    let all = adjustable_codes(codes);
    if i < codes.len() - 1 {
        lemma_adjustable_codes(codes.drop_last(), i);
        assert(codes.drop_last()[i] == codes[i]);
        let k = choose|k: int| 0 <= k < rest.len() && rest[k] == codes[i];
        assert(all[k] == codes[i]);
    } else {
        assert(all[rest.len() as int] == codes[i]);
    }
}

/// The section of a display goes on from what was there, and offers each candidate.
proof fn lemma_display_section(
    s: Sheet,
    d: Display,
    caps: Map<u32, Caps>,
    visible: CodeSets,
    code: u8,
    name: Seq<char>,
)
    ensures
        longer(s, with_display(s, d, caps, visible)),
        candidates(d, caps).contains((code, name)) ==> offers_code(
            with_display(s, d, caps, visible),
            d,
            code,
            name,
            visible,
        ),
{
    let named = with_label(s, d.name, 16, (WIDTH - 32) as u32, true, 24);
    let list = candidates(d, caps);
    let now = with_display(s, d, caps, visible);
    assert(longer(s, named));
    if list.len() == 0 {
        assert(longer(named, now));
        lemma_longer(s, named, now);
    } else {
        let ticked = with_candidates(named, list, d.key, visible);
        lemma_candidates_longer(named, list, d.key, visible);
        assert(longer(ticked, now));
        lemma_longer(s, named, ticked);
        lemma_longer(s, ticked, now);
        if list.contains((code, name)) {
            let i = choose|i: int| 0 <= i < list.len() && list[i] == (code, name);
            law_checkboxes_toggle_what_they_say(named, list, d.key, visible, i);
            let j = named.cells.len() + i;
            assert(ticks(
                ticked.cells[j],
                ticked.controls,
                "Show "@ + name + " in menu"@,
                config::shown(visible, d.key, code),
                Control::ToggleVisible { key: d.key, code },
            ));
            assert(offers_code(ticked, d, code, name, visible));
            lemma_offers_stay(ticked, now, d, code, name, visible);
        }
    }
}

/// The sections of displays.
proof fn lemma_display_sections(
    s: Sheet,
    ds: Seq<Display>,
    caps: Map<u32, Caps>,
    visible: CodeSets,
    k: int,
    code: u8,
    name: Seq<char>,
)
    ensures
        longer(s, with_displays(s, ds, caps, visible)),
        0 <= k < ds.len() && candidates(ds[k], caps).contains((code, name)) ==> offers_code(
            with_displays(s, ds, caps, visible),
            ds[k],
            code,
            name,
            visible,
        ),
    decreases ds.len(),
{
    if ds.len() > 0 {
        let rest = ds.drop_last();
        let before = with_displays(s, rest, caps, visible);
        let now = with_displays(s, ds, caps, visible);
        lemma_display_sections(s, rest, caps, visible, k, code, name);
        lemma_display_section(before, ds.last(), caps, visible, code, name);
        lemma_longer(s, before, now);
        if 0 <= k < rest.len() {
            assert(rest[k] == ds[k]);
            lemma_offers_stay(before, now, ds[k], code, name, visible);
        }
    }
}

/// The Displays tab offers, for every display that is shown, each code that a slider can
/// move and that the display advertises, by its name, checked exactly where it is in the
/// menu; for a built-in panel it offers brightness. What is toggled is that code of that
/// display.
pub proof fn law_every_slider_can_be_shown_or_hidden(
    w: Window,
    shown: Shown,
    visible: CodeSets,
    login: bool,
    k: int,
    i: int,
)
    requires
        window_of(w, shown, visible, login),
        shown.daemon_up,
        0 <= k < shown.monitors.len(),
    ensures
        ({
            let d = shown.monitors[k];
            let tab = Sheet { cells: row_views(w.tabs@[0].rows@), controls: action_views(w.actions@) };
            &&& d.is_ddc && shown.caps.contains_key(d.id) && 0 <= i < shown.caps[d.id].codes.len()
                && vcp::adjustable(shown.caps[d.id].codes[i].0) ==> offers_code(
                tab,
                d,
                shown.caps[d.id].codes[i].0,
                shown.caps[d.id].codes[i].1,
                visible,
            )
            &&& !d.is_ddc ==> offers_code(tab, d, 0x10, "Brightness"@, visible)
        }),
{
    let d = shown.monitors[k];
    let blank = Sheet { cells: Seq::empty(), controls: Seq::empty() };
    let displays = displays_sheet(blank, shown, visible);
    let tab = Sheet { cells: row_views(w.tabs@[0].rows@), controls: action_views(w.actions@) };
    lemma_window_goes_on(w, shown, visible, login);
    assert(longer(displays, tab));
    if d.is_ddc && shown.caps.contains_key(d.id) && 0 <= i < shown.caps[d.id].codes.len()
        && vcp::adjustable(shown.caps[d.id].codes[i].0) {
        let (code, name) = shown.caps[d.id].codes[i];
        lemma_adjustable_codes(shown.caps[d.id].codes, i);
        lemma_display_sections(blank, shown.monitors, shown.caps, visible, k, code, name);
        lemma_offers_stay(displays, tab, d, code, name, visible);
    }
    if !d.is_ddc {
        assert(candidates(d, shown.caps)[0] == (0x10u8, "Brightness"@));
        lemma_display_sections(blank, shown.monitors, shown.caps, visible, k, 0x10, "Brightness"@);
        lemma_offers_stay(displays, tab, d, 0x10, "Brightness"@, visible);
    }
}

/// The codes of a display, listed.
proof fn lemma_codes_listed(s: Sheet, codes: Seq<(u8, Seq<char>)>, i: int)
    ensures
        longer(s, with_codes(s, codes)),
        with_codes(s, codes).controls == s.controls,
        0 <= i < codes.len() ==> lists_code(with_codes(s, codes), codes[i].0, codes[i].1),
    decreases codes.len(),
{
    if codes.len() > 0 {
        let rest = codes.drop_last();
        let before = with_codes(s, rest);
        let now = with_codes(s, codes);
        lemma_codes_listed(s, rest, i);
        assert(longer(before, now));
        lemma_longer(s, before, now);
        if 0 <= i < rest.len() {
            assert(rest[i] == codes[i]);
            lemma_offers_stay(before, now, arbitrary(), codes[i].0, codes[i].1, Map::empty());
        } else if i == rest.len() {
            assert(says(
                now.cells[before.cells.len() as int],
                "  "@ + ("0x"@ + text::hex(codes[i].0 as nat, 2, true)) + "  "@ + codes[i].1,
            ));
        }
    }
}

/// The capabilities of a display, and the button that reads them.
proof fn lemma_known_caps(s: Sheet, d: Display, caps: Map<u32, Caps>, i: int)
    ensures
        longer(s, with_known_caps(s, d, caps)),
        d.is_ddc ==> offers_reading(
            with_known_caps(s, d, caps),
            d,
            if caps.contains_key(d.id) {
                "Refresh"@
            } else {
                "Fetch"@
            },
        ),
        d.is_ddc && caps.contains_key(d.id) && 0 <= i < caps[d.id].codes.len() ==> lists_code(
            with_known_caps(s, d, caps),
            caps[d.id].codes[i].0,
            caps[d.id].codes[i].1,
        ),
{
    if d.is_ddc {
        let now = with_known_caps(s, d, caps);
        let known = caps.contains_key(d.id);
        let title = if known {
            "Refresh"@
        } else {
            "Fetch"@
        };
        let named = with_label(s, d.name, 16, (WIDTH - 140) as u32, true, 0);
        let offered = with_button(
            named,
            title,
            Control::FetchCaps(text::decimal(d.id as nat)),
            (WIDTH - 110) as u32,
            88,
            2,
            26,
        );
        assert(longer(s, offered));
        let j = s.cells.len() as int;
        assert(says(offered.cells[j], d.name));
        assert(presses(
            offered.cells[j + 1],
            offered.controls,
            title,
            Control::FetchCaps(text::decimal(d.id as nat)),
        ));
        assert(offers_reading(offered, d, title));
        if known {
            let c = caps[d.id];
            let head = with_label(offered, caps_header(c), 28, (WIDTH - 48) as u32, false, 22);
            let listed = with_codes(head, c.codes);
            lemma_codes_listed(head, c.codes, i);
            assert(longer(offered, head));
            lemma_longer(offered, head, listed);
            let full = with_caps(offered, c);
            assert(longer(listed, full));
            lemma_longer(offered, listed, full);
            assert(longer(full, now));
            lemma_longer(offered, full, now);
            lemma_longer(listed, full, now);
            if 0 <= i < c.codes.len() {
                lemma_offers_stay(listed, now, d, c.codes[i].0, c.codes[i].1, Map::empty());
            }
        } else {
            assert(longer(offered, now));
        }
        lemma_longer(s, offered, now);
        lemma_offers_stay(offered, now, d, 0, title, Map::empty());
    } else {
        assert(longer(s, with_known_caps(s, d, caps)));
    }
}

/// The same of several displays.
proof fn lemma_all_caps(s: Sheet, ds: Seq<Display>, caps: Map<u32, Caps>, k: int, i: int)
    ensures
        longer(s, with_all_caps(s, ds, caps)),
        0 <= k < ds.len() && ds[k].is_ddc ==> offers_reading(
            with_all_caps(s, ds, caps),
            ds[k],
            if caps.contains_key(ds[k].id) {
                "Refresh"@
            } else {
                "Fetch"@
            },
        ),
        0 <= k < ds.len() && ds[k].is_ddc && caps.contains_key(ds[k].id) && 0 <= i
            < caps[ds[k].id].codes.len() ==> lists_code(
            with_all_caps(s, ds, caps),
            caps[ds[k].id].codes[i].0,
            caps[ds[k].id].codes[i].1,
        ),
    decreases ds.len(),
{
    if ds.len() > 0 {
        let rest = ds.drop_last();
        let before = with_all_caps(s, rest, caps);
        let now = with_all_caps(s, ds, caps);
        lemma_all_caps(s, rest, caps, k, i);
        lemma_known_caps(before, ds.last(), caps, i);
        lemma_longer(s, before, now);
        if 0 <= k < rest.len() {
            assert(rest[k] == ds[k]);
            let d = ds[k];
            let title = if caps.contains_key(d.id) {
                "Refresh"@
            } else {
                "Fetch"@
            };
            lemma_offers_stay(before, now, d, 0, title, Map::empty());
            if caps.contains_key(d.id) && 0 <= i < caps[d.id].codes.len() {
                let (code, name) = caps[d.id].codes[i];
                lemma_offers_stay(before, now, d, code, name, Map::empty());
            }
        }
    }
}

/// The Capabilities tab names every display that speaks DDC/CI, with a button that reads
/// that display, and lists every code that it is known to advertise, by number and name.
pub proof fn law_every_advertised_code_is_listed(
    w: Window,
    shown: Shown,
    visible: CodeSets,
    login: bool,
    k: int,
    i: int,
)
    requires
        window_of(w, shown, visible, login),
        0 <= k < shown.monitors.len(),
        shown.monitors[k].is_ddc,
    ensures
        ({
            let d = shown.monitors[k];
            let tab = Sheet { cells: row_views(w.tabs@[1].rows@), controls: action_views(w.actions@) };
            &&& shown.caps.contains_key(d.id) ==> offers_reading(tab, d, "Refresh"@)
            &&& !shown.caps.contains_key(d.id) ==> offers_reading(tab, d, "Fetch"@)
            &&& shown.caps.contains_key(d.id) && 0 <= i < shown.caps[d.id].codes.len()
                ==> lists_code(tab, shown.caps[d.id].codes[i].0, shown.caps[d.id].codes[i].1)
        }),
{
    let d = shown.monitors[k];
    let blank = Sheet { cells: Seq::empty(), controls: Seq::empty() };
    let displays = displays_sheet(blank, shown, visible);
    let start = sheet_after(displays);
    let caps = capabilities_sheet(start, shown);
    let tab = Sheet { cells: row_views(w.tabs@[1].rows@), controls: action_views(w.actions@) };
    lemma_window_goes_on(w, shown, visible, login);
    assert(longer(caps, tab));
    assert(any_ddc(shown.monitors));
    lemma_all_caps(start, shown.monitors, shown.caps, k, i);
    lemma_offers_stay(caps, tab, d, 0, "Refresh"@, Map::empty());
    lemma_offers_stay(caps, tab, d, 0, "Fetch"@, Map::empty());
    if shown.caps.contains_key(d.id) && 0 <= i < shown.caps[d.id].codes.len() {
        let (code, name) = shown.caps[d.id].codes[i];
        lemma_offers_stay(caps, tab, d, code, name, Map::empty());
    }
}

/// The rows of profiles.
proof fn lemma_profile_rows(s: Sheet, names: Seq<Seq<char>>, k: int)
    ensures
        longer(s, with_profiles(s, names)),
        0 <= k < names.len() ==> offers_profile(with_profiles(s, names), names[k]),
    decreases names.len(),
{
    if names.len() > 0 {
        let rest = names.drop_last();
        let before = with_profiles(s, rest);
        let now = with_profiles(s, names);
        let name = names.last();
        lemma_profile_rows(s, rest, k);
        assert(longer(before, now));
        lemma_longer(s, before, now);
        if 0 <= k < rest.len() {
            assert(rest[k] == names[k]);
            lemma_offers_stay(before, now, arbitrary(), 0, names[k], Map::empty());
        } else if k == rest.len() {
            let j = before.cells.len() as int;
            assert(says(now.cells[j], name));
            assert(presses(now.cells[j + 1], now.controls, "Apply"@, Control::ApplyProfile(name)));
            assert(presses(now.cells[j + 2], now.controls, "Delete"@, Control::DeleteProfile(name)));
        }
    }
}

/// The Profiles tab begins with a button that saves the present settings, and names every
/// profile with a button that applies it and one that deletes it.
pub proof fn law_every_profile_can_be_applied_and_deleted(
    w: Window,
    shown: Shown,
    visible: CodeSets,
    login: bool,
    k: int,
)
    requires
        window_of(w, shown, visible, login),
    ensures
        ({
            let tab = Sheet { cells: row_views(w.tabs@[2].rows@), controls: action_views(w.actions@) };
            &&& presses(
                tab.cells[0],
                tab.controls,
                "Save current settings as profile…"@,
                Control::SaveProfilePrompt,
            )
            &&& 0 <= k < shown.profiles.len() ==> offers_profile(tab, shown.profiles[k])
            &&& shown.profiles.len() == 0 ==> says(tab.cells[1], "No saved profiles yet."@)
        }),
{
    let blank = Sheet { cells: Seq::empty(), controls: Seq::empty() };
    let displays = displays_sheet(blank, shown, visible);
    let caps = capabilities_sheet(sheet_after(displays), shown);
    let start = sheet_after(caps);
    let profiles = profiles_sheet(start, shown.profiles);
    let tab = Sheet { cells: row_views(w.tabs@[2].rows@), controls: action_views(w.actions@) };
    lemma_window_goes_on(w, shown, visible, login);
    assert(longer(profiles, tab));
    let offered = with_button(
        start,
        "Save current settings as profile…"@,
        Control::SaveProfilePrompt,
        16,
        260,
        0,
        40,
    );
    assert(presses(
        offered.cells[0],
        offered.controls,
        "Save current settings as profile…"@,
        Control::SaveProfilePrompt,
    ));
    if shown.profiles.len() == 0 {
        assert(longer(offered, profiles));
        assert(says(profiles.cells[1], "No saved profiles yet."@));
        assert(tab.cells[1] == profiles.cells[1]);
    } else {
        lemma_profile_rows(offered, shown.profiles, k);
        if 0 <= k < shown.profiles.len() {
            lemma_offers_stay(profiles, tab, arbitrary(), 0, shown.profiles[k], Map::empty());
        }
    }
    assert(longer(offered, profiles));
    lemma_longer(offered, profiles, tab);
    assert(tab.cells[0] == offered.cells[0]);
    assert(tab.controls[start.controls.len() as int] == offered.controls[start.controls.len() as int]);
}

/// The General tab has a checkbox for launch at login that shows whether it is on, and
/// says whether the daemon is there.
pub proof fn law_launch_at_login_can_be_switched(
    w: Window,
    shown: Shown,
    visible: CodeSets,
    login: bool,
)
    requires
        window_of(w, shown, visible, login),
    ensures
        ({
            let tab = Sheet { cells: row_views(w.tabs@[3].rows@), controls: action_views(w.actions@) };
            &&& ticks(
                tab.cells[0],
                tab.controls,
                "Launch Display Studio at login"@,
                login,
                Control::ToggleLogin,
            )
            &&& shown.daemon_up ==> says(tab.cells[2], "displayd: connected"@)
            &&& !shown.daemon_up ==> says(tab.cells[2], "displayd: not running"@)
        }),
{
    lemma_window_goes_on(w, shown, visible, login);
}

/// The tabs of a window are their sheets, and what a tag stands for in one of them it
/// stands for in the window.
proof fn lemma_window_goes_on(w: Window, shown: Shown, visible: CodeSets, login: bool)
    requires
        window_of(w, shown, visible, login),
    ensures
        ({
            let blank = Sheet { cells: Seq::empty(), controls: Seq::empty() };
            let displays = displays_sheet(blank, shown, visible);
            let caps = capabilities_sheet(sheet_after(displays), shown);
            let profiles = profiles_sheet(sheet_after(caps), shown.profiles);
            let general = general_sheet(sheet_after(profiles), login, shown.daemon_up);
            let controls = action_views(w.actions@);
            &&& longer(displays, Sheet { cells: row_views(w.tabs@[0].rows@), controls })
            &&& longer(caps, Sheet { cells: row_views(w.tabs@[1].rows@), controls })
            &&& longer(profiles, Sheet { cells: row_views(w.tabs@[2].rows@), controls })
            &&& longer(general, Sheet { cells: row_views(w.tabs@[3].rows@), controls })
        }),
{
    let blank = Sheet { cells: Seq::empty(), controls: Seq::empty() };
    let displays = displays_sheet(blank, shown, visible);
    let c0 = sheet_after(displays);
    let caps = capabilities_sheet(c0, shown);
    let p0 = sheet_after(caps);
    let profiles = profiles_sheet(p0, shown.profiles);
    let g0 = sheet_after(profiles);
    let general = general_sheet(g0, login, shown.daemon_up);
    lemma_all_caps(c0, shown.monitors, shown.caps, 0, 0);
    assert(longer(c0, caps));
    let offered = with_button(
        p0,
        "Save current settings as profile…"@,
        Control::SaveProfilePrompt,
        16,
        260,
        0,
        40,
    );
    assert(longer(p0, offered));
    lemma_profile_rows(offered, shown.profiles, 0);
    assert(longer(offered, profiles));
    lemma_longer(p0, offered, profiles);
    assert(longer(g0, general));
    let controls = general.controls;
    assert forall|i: int| 0 <= i < profiles.controls.len() implies #[trigger] controls[i]
        == profiles.controls[i] by {
        assert(general.controls[i] == g0.controls[i]);
    }
    assert forall|i: int| 0 <= i < caps.controls.len() implies #[trigger] controls[i]
        == caps.controls[i] by {
        assert(profiles.controls[i] == p0.controls[i]);
        assert(controls[i] == profiles.controls[i]);
    }
    assert forall|i: int| 0 <= i < displays.controls.len() implies #[trigger] controls[i]
        == displays.controls[i] by {
        assert(caps.controls[i] == c0.controls[i]);
        assert(controls[i] == caps.controls[i]);
    }
}

/// Pressing a control does what it says: a code is shown or hidden as the box is ticked
/// or not, a profile is applied, deleted at once and for good, or asked a name for,
/// capabilities are read of the display, and launch at login goes by its box. A profile
/// is deleted by its own button alone.
pub proof fn law_controls_do_what_they_say(c: Control, on: bool, d: Seq<Deed>, i: int)
    requires
        deeds_of(c, on, d),
        0 <= i < d.len(),
    ensures
        d[i] matches Deed::Show { key, code, on: o } ==> c == (Control::ToggleVisible {
            key: key@,
            code,
        }) && o == on,
        d[i] matches Deed::Login(o) ==> c is ToggleLogin && o == on,
        d[i] matches Deed::Post(Cmd::ApplyProfile(n)) ==> c == Control::ApplyProfile(n@),
        d[i] matches Deed::Post(Cmd::DeleteProfile(n)) ==> c == Control::DeleteProfile(n@),
        d[i] matches Deed::Forget(n) ==> c == Control::DeleteProfile(n@),
        d[i] matches Deed::Post(Cmd::FetchCaps(x)) ==> c == Control::FetchCaps(x@),
        d[i] matches Deed::Post(cmd) ==> cmd is ApplyProfile || cmd is DeleteProfile
            || cmd is FetchCaps,
        (d[i] is PromptName) == (c is SaveProfilePrompt),
        c is ToggleVisible ==> d[0] is Show,
        c is ToggleLogin ==> d[0] is Login,
        c is ApplyProfile ==> d[0] is Post,
        c is DeleteProfile ==> d[0] is Forget && d[1] is Post,
        c is FetchCaps ==> d[0] is Post,
{
}

/// A profile is saved under the name that was entered, without the white space round it,
/// exactly where the daemon would take it.
pub proof fn law_names_are_taken_when_valid(entered: Seq<char>, r: Option<String>)
    requires
        name_taken(entered, r),
    ensures
        r is Some <==> profile::valid_name(text::trimmed(entered)),
        r is Some ==> r->0@ == text::trimmed(entered),
{
}

/// A profile that was named is remembered at once and saved under that name, and the window
/// comes back. Without a name nothing is done.
pub proof fn law_named_profiles_are_saved(name: Option<String>, d: Seq<Deed>)
    requires
        saves(name, d),
    ensures
        name is None ==> d.len() == 0,
        name is Some ==> {
            &&& d.len() == 3
            &&& d[0] is Remember
            &&& d[0]->Remember_0@ == name->0@
            &&& d[1] is Post
            &&& d[1]->Post_0 is SaveProfile
            &&& d[1]->Post_0->SaveProfile_0@ == name->0@
            &&& d[2] is Reopen
        },
{
}

/// The window is built anew when it is open and anything changed, and never else.
pub proof fn law_windows_are_rebuilt_on_change(open: bool, a: u64, b: u64)
    ensures
        !rebuild_due(false, a, b),
        !rebuild_due(open, a, a),
        a != b ==> rebuild_due(true, a, b),
{
}

} // verus!
