//! The menu and what a click in it asks for.
//!
//! The menu is built from the cached snapshot, so nothing here waits for the
//! daemon. Sliders and clickable items carry an integer `tag` that indexes a
//! table of actions: that is how a click, which only hands back its sender, maps
//! to "brightness on display 3" or "apply profile coding".

use crate::gui::batch::Cmd;
use crate::gui::client::{Display, MonitorView, Picker, PickerView, Shown, Slider, Snapshot};
use crate::text;
use vstd::prelude::*;

verus! {

/// The code that turns a display off and on.
pub const POWER_MODE: u8 = 0xD6;

/// The value that turns a display off (DPMS).
pub const POWER_OFF: u16 = 4;

/// The value that turns a display on.
pub const POWER_ON: u16 = 1;

/// What a tagged control drives.
#[derive(Debug)]
pub enum Action {
    SetVcp { display: String, code: u8 },
    /// DPMS off.
    PowerOff { display: String },
    /// DPMS on. Whether it works depends on the monitor: the scaler often still
    /// answers and wakes, but a display in deeper sleep may only wake on input.
    PowerOn { display: String },
    /// Pick an enumerated value (input, color preset, orientation, …).
    PickValue { display: String, code: u8, value: u8 },
    ApplyProfile(String),
    OpenSettings,
    Quit,
}

/// What a tagged control drives, as a value.
pub enum Act {
    SetVcp { display: Seq<char>, code: u8 },
    PowerOff { display: Seq<char> },
    PowerOn { display: Seq<char> },
    PickValue { display: Seq<char>, code: u8, value: u8 },
    ApplyProfile(Seq<char>),
    OpenSettings,
    Quit,
}

impl View for Action {
    type V = Act;

    open spec fn view(&self) -> Act {
        match *self {
            Action::SetVcp { display, code } => Act::SetVcp { display: display@, code },
            Action::PowerOff { display } => Act::PowerOff { display: display@ },
            Action::PowerOn { display } => Act::PowerOn { display: display@ },
            Action::PickValue { display, code, value } => Act::PickValue {
                display: display@,
                code,
                value,
            },
            Action::ApplyProfile(name) => Act::ApplyProfile(name@),
            Action::OpenSettings => Act::OpenSettings,
            Action::Quit => Act::Quit,
        }
    }
}

/// One choice of a submenu.
#[derive(Debug)]
pub struct Choice {
    pub title: String,
    pub tag: usize,
    pub checked: bool,
}

/// One choice of a submenu, as a value.
pub struct Pick {
    pub title: Seq<char>,
    pub tag: nat,
    pub checked: bool,
}

impl View for Choice {
    type V = Pick;

    open spec fn view(&self) -> Pick {
        Pick { title: self.title@, tag: self.tag as nat, checked: self.checked }
    }
}

/// An item of the menu.
#[derive(Debug)]
pub enum Item {
    Separator,
    /// Text that cannot be clicked.
    Disabled { title: String },
    Slider { label: String, current: u16, max: u16, tag: usize },
    /// A clickable line with a keyboard shortcut, if it has one.
    Entry { title: String, key: String, tag: usize },
    Submenu { title: String, choices: Vec<Choice> },
}

/// An item of the menu, as a value.
pub enum Line {
    Separator,
    Disabled { title: Seq<char> },
    Slider { label: Seq<char>, current: u16, max: u16, tag: nat },
    Entry { title: Seq<char>, key: Seq<char>, tag: nat },
    Submenu { title: Seq<char>, choices: Seq<Pick> },
}

/// What choices say.
pub open spec fn choice_views(v: Seq<Choice>) -> Seq<Pick> {
    Seq::new(v.len(), |i: int| v[i]@)
}

impl View for Item {
    type V = Line;

    open spec fn view(&self) -> Line {
        match *self {
            Item::Separator => Line::Separator,
            Item::Disabled { title } => Line::Disabled { title: title@ },
            Item::Slider { label, current, max, tag } => Line::Slider {
                label: label@,
                current,
                max,
                tag: tag as nat,
            },
            Item::Entry { title, key, tag } => Line::Entry {
                title: title@,
                key: key@,
                tag: tag as nat,
            },
            Item::Submenu { title, choices } => Line::Submenu {
                title: title@,
                choices: choice_views(choices@),
            },
        }
    }
}

/// The menu, with what its tags stand for.
#[derive(Debug)]
pub struct Menu {
    pub items: Vec<Item>,
    pub actions: Vec<Action>,
}

/// A menu, as values.
pub struct Laid {
    pub lines: Seq<Line>,
    pub acts: Seq<Act>,
}

impl View for Menu {
    type V = Laid;

    open spec fn view(&self) -> Laid {
        Laid {
            lines: Seq::new(self.items@.len(), |i: int| self.items@[i]@),
            acts: Seq::new(self.actions@.len(), |i: int| self.actions@[i]@),
        }
    }
}

// ── What the menu says ─────────────────────────────────────────────────────

/// A menu with a line behind the others.
pub open spec fn with_line(m: Laid, line: Line) -> Laid {
    Laid { lines: m.lines.push(line), acts: m.acts }
}

/// A menu with a line that cannot be clicked.
pub open spec fn with_disabled(m: Laid, title: Seq<char>) -> Laid {
    with_line(m, Line::Disabled { title })
}

/// A menu with a clickable line.
pub open spec fn with_entry(m: Laid, title: Seq<char>, key: Seq<char>, act: Act) -> Laid {
    Laid {
        lines: m.lines.push(Line::Entry { title, key, tag: m.acts.len() }),
        acts: m.acts.push(act),
    }
}

/// A menu with a slider for each code that is shown.
pub open spec fn with_sliders(m: Laid, display: Seq<char>, sliders: Seq<Slider>) -> Laid
    decreases sliders.len(),
{
    if sliders.len() == 0 {
        m
    } else {
        let before = with_sliders(m, display, sliders.drop_last());
        let s = sliders.last();
        Laid {
            lines: before.lines.push(
                Line::Slider {
                    label: s.label,
                    current: s.current,
                    max: s.max,
                    tag: before.acts.len(),
                },
            ),
            acts: before.acts.push(Act::SetVcp { display, code: s.code }),
        }
    }
}

/// The choices of a picker, tagged from `first` on.
pub open spec fn picker_choices(p: Picker, first: nat) -> Seq<Pick> {
    Seq::new(
        p.values.len(),
        |i: int|
            Pick {
                title: p.values[i].1,
                tag: first + i as nat,
                checked: p.current == Some(p.values[i].0),
            },
    )
}

/// What the choices of a picker stand for.
pub open spec fn picker_acts(p: Picker, display: Seq<char>) -> Seq<Act> {
    Seq::new(
        p.values.len(),
        |i: int| Act::PickValue { display, code: p.code, value: p.values[i].0 },
    )
}

/// A menu with a submenu for each picker, the current choice checked.
pub open spec fn with_pickers(m: Laid, display: Seq<char>, pickers: Seq<Picker>) -> Laid
    decreases pickers.len(),
{
    if pickers.len() == 0 {
        m
    } else {
        let before = with_pickers(m, display, pickers.drop_last());
        let p = pickers.last();
        Laid {
            lines: before.lines.push(
                Line::Submenu { title: p.title, choices: picker_choices(p, before.acts.len()) },
            ),
            acts: before.acts + picker_acts(p, display),
        }
    }
}

/// A menu with the section of a display: its name, its sliders, and for one that
/// speaks DDC/CI power and pickers. The built-in panel has no power control.
pub open spec fn with_display(m: Laid, d: Display) -> Laid {
    let display = text::decimal(d.id as nat);
    let named = with_disabled(with_line(m, Line::Separator), d.name);
    let slid = with_sliders(named, display, d.sliders);
    if d.is_ddc {
        let off = with_entry(slid, "⏻  Off"@, ""@, Act::PowerOff { display });
        let on = with_entry(off, "☀  On"@, ""@, Act::PowerOn { display });
        with_pickers(on, display, d.pickers)
    } else {
        slid
    }
}

/// A menu with the sections of displays.
pub open spec fn with_displays(m: Laid, ds: Seq<Display>) -> Laid
    decreases ds.len(),
{
    if ds.len() == 0 {
        m
    } else {
        with_display(with_displays(m, ds.drop_last()), ds.last())
    }
}

/// A menu with a line for each profile.
pub open spec fn with_names(m: Laid, names: Seq<Seq<char>>) -> Laid
    decreases names.len(),
{
    if names.len() == 0 {
        m
    } else {
        with_entry(
            with_names(m, names.drop_last()),
            "  "@ + names.last(),
            ""@,
            Act::ApplyProfile(names.last()),
        )
    }
}

/// A menu with the section of the profiles, if there are any.
pub open spec fn with_profiles(m: Laid, names: Seq<Seq<char>>) -> Laid {
    if names.len() == 0 {
        m
    } else {
        with_names(with_disabled(with_line(m, Line::Separator), "Apply Profile"@), names)
    }
}

/// The empty menu.
pub open spec fn blank() -> Laid {
    Laid { lines: Seq::empty(), acts: Seq::empty() }
}

/// What the menu says of the displays.
pub open spec fn display_part(s: Shown) -> Laid {
    if !s.daemon_up {
        with_disabled(blank(), "displayd not running"@)
    } else if s.monitors.len() == 0 {
        with_disabled(blank(), "No displays found"@)
    } else {
        with_displays(blank(), s.monitors)
    }
}

/// The whole menu.
pub open spec fn menu_of(s: Shown) -> Laid {
    let body = with_line(with_profiles(display_part(s), s.profiles), Line::Separator);
    let settings = with_entry(body, "Settings…"@, ""@, Act::OpenSettings);
    with_entry(settings, "Quit Display Studio"@, "q"@, Act::Quit)
}

// ── Building it ────────────────────────────────────────────────────────────

impl Menu {
    /// The empty menu.
    fn new() -> (m: Menu)
        ensures
            m@ == blank(),
    {
        let m = Menu { items: Vec::new(), actions: Vec::new() };
        assert(m@.lines =~= Seq::<Line>::empty());
        assert(m@.acts =~= Seq::<Act>::empty());
        m
    }

    /// Put an item behind the others.
    fn add_item(&mut self, item: Item)
        ensures
            final(self)@ == with_line(old(self)@, item@),
    {
        let ghost before = self@;
        let ghost line = item@;
        self.items.push(item);
        assert(self@.lines =~= before.lines.push(line));
        assert(self@.acts =~= before.acts);
    }

    /// Enter an action in the table. Its tag is returned.
    fn register(&mut self, action: Action) -> (tag: usize)
        ensures
            tag == old(self)@.acts.len(),
            final(self)@ == (Laid {
                lines: old(self)@.lines,
                acts: old(self)@.acts.push(action@),
            }),
    {
        let ghost before = self@;
        let ghost act = action@;
        let tag: usize = self.actions.len();
        self.actions.push(action);
        assert(self@.lines =~= before.lines);
        assert(self@.acts =~= before.acts.push(act));
        tag
    }

    /// Add text that cannot be clicked.
    fn add_disabled(&mut self, title: &str)
        ensures
            final(self)@ == with_disabled(old(self)@, title@),
    {
        self.add_item(Item::Disabled { title: text::own(title) });
    }

    /// Add a clickable line.
    fn action_item(&mut self, title: &str, action: Action, key: &str)
        ensures
            final(self)@ == with_entry(old(self)@, title@, key@, action@),
    {
        let tag: usize = self.register(action);
        self.add_item(Item::Entry { title: text::own(title), key: text::own(key), tag });
    }

    /// Add the sliders of a display.
    fn add_sliders(&mut self, m: &MonitorView, selector: &str)
        ensures
            final(self)@ == with_sliders(old(self)@, selector@, m@.sliders),
    {
        let ghost start = self@;
        let ghost all = m@.sliders;
        let mut i: usize = 0;
        assert(all.take(0) =~= Seq::<Slider>::empty());
        while i < m.sliders.len()
            invariant
                i <= m.sliders@.len(),
                all == m@.sliders,
                self@ == with_sliders(start, selector@, all.take(i as int)),
            decreases m.sliders@.len() - i,
        {
            assert(all.take(i + 1).drop_last() =~= all.take(i as int));
            assert(all.take(i + 1).last() == m.sliders@[i as int]@);
            let s = &m.sliders[i];
            let tag: usize = self.register(
                Action::SetVcp { display: text::own(selector), code: s.code },
            );
            self.add_item(
                Item::Slider { label: s.label.clone(), current: s.current, max: s.max, tag },
            );
            i = i + 1;
        }
        assert(all.take(i as int) =~= all);
    }

    /// Add a submenu of enumerated choices, the current one checked.
    fn add_picker_submenu(&mut self, p: &PickerView, selector: &str)
        ensures
            final(self)@ == (Laid {
                lines: old(self)@.lines.push(
                    Line::Submenu {
                        title: p@.title,
                        choices: picker_choices(p@, old(self)@.acts.len()),
                    },
                ),
                acts: old(self)@.acts + picker_acts(p@, selector@),
            }),
    {
        let ghost start = self@;
        let ghost wanted = picker_choices(p@, start.acts.len());
        let ghost acts = picker_acts(p@, selector@);
        let mut choices: Vec<Choice> = Vec::new();
        let mut i: usize = 0;
        assert(start.acts + acts.take(0) =~= start.acts);
        while i < p.values.len()
            invariant
                i <= p.values@.len(),
                wanted == picker_choices(p@, start.acts.len()),
                acts == picker_acts(p@, selector@),
                choices@.len() == i,
                forall|k: int| 0 <= k < i ==> (#[trigger] choices@[k])@ == wanted[k],
                self@.lines == start.lines,
                self@.acts == start.acts + acts.take(i as int),
            decreases p.values@.len() - i,
        {
            let value: u8 = p.values[i].0;
            let tag: usize = self.register(
                Action::PickValue { display: text::own(selector), code: p.code, value },
            );
            let checked: bool = match p.current {
                Some(v) => v == value,
                None => false,
            };
            let c = Choice { title: p.values[i].1.clone(), tag, checked };
            assert(p@.values[i as int] == (value, p.values@[i as int].1@));
            assert(c@ == wanted[i as int]);
            choices.push(c);
            i = i + 1;
            assert(acts.take(i as int) =~= acts.take(i - 1).push(acts[i - 1]));
            assert(self@.acts =~= start.acts + acts.take(i as int));
        }
        assert(acts.take(i as int) =~= acts);
        assert(choice_views(choices@) =~= wanted);
        self.add_item(Item::Submenu { title: p.title.clone(), choices });
    }

    /// Add the submenus of a display.
    fn add_pickers(&mut self, m: &MonitorView, selector: &str)
        ensures
            final(self)@ == with_pickers(old(self)@, selector@, m@.pickers),
    {
        let ghost start = self@;
        let ghost all = m@.pickers;
        let mut i: usize = 0;
        assert(all.take(0) =~= Seq::<Picker>::empty());
        while i < m.pickers.len()
            invariant
                i <= m.pickers@.len(),
                all == m@.pickers,
                self@ == with_pickers(start, selector@, all.take(i as int)),
            decreases m.pickers@.len() - i,
        {
            assert(all.take(i + 1).drop_last() =~= all.take(i as int));
            assert(all.take(i + 1).last() == m.pickers@[i as int]@);
            self.add_picker_submenu(&m.pickers[i], selector);
            i = i + 1;
        }
        assert(all.take(i as int) =~= all);
    }

    /// Add the section of a display.
    fn add_monitor_section(&mut self, m: &MonitorView)
        ensures
            final(self)@ == with_display(old(self)@, m@),
    {
        self.add_item(Item::Separator);
        self.add_disabled(m.name.as_str());
        let selector = text::write_decimal(m.id as u64);
        self.add_sliders(m, selector.as_str());
        if m.is_ddc {
            self.action_item("⏻  Off", Action::PowerOff { display: selector.clone() }, "");
            self.action_item("☀  On", Action::PowerOn { display: selector.clone() }, "");
            self.add_pickers(m, selector.as_str());
        }
    }

    /// Add the section of the profiles.
    fn add_profiles_section(&mut self, profiles: &Vec<String>)
        ensures
            final(self)@ == with_profiles(old(self)@, text::texts(profiles@)),
    {
        if profiles.len() == 0 {
            return;
        }
        self.add_item(Item::Separator);
        self.add_disabled("Apply Profile");
        let ghost start = self@;
        let ghost all = text::texts(profiles@);
        let mut i: usize = 0;
        assert(all.take(0) =~= Seq::<Seq<char>>::empty());
        while i < profiles.len()
            invariant
                i <= profiles@.len(),
                all == text::texts(profiles@),
                self@ == with_names(start, all.take(i as int)),
            decreases profiles@.len() - i,
        {
            assert(all.take(i + 1).drop_last() =~= all.take(i as int));
            assert(all.take(i + 1).last() == profiles@[i as int]@);
            let title = text::after("  ", profiles[i].as_str());
            self.action_item(title.as_str(), Action::ApplyProfile(profiles[i].clone()), "");
            i = i + 1;
        }
        assert(all.take(i as int) =~= all);
    }

    /// Build the menu from what is known.
    pub fn populate(snap: &Snapshot) -> (m: Menu)
        ensures
            m@ == menu_of(snap@),
    {
        let mut m = Menu::new();
        if !snap.daemon_up {
            m.add_disabled("displayd not running");
        } else if snap.monitors.len() == 0 {
            m.add_disabled("No displays found");
        } else {
            let ghost all = snap@.monitors;
            let mut i: usize = 0;
            assert(all.take(0) =~= Seq::<Display>::empty());
            while i < snap.monitors.len()
                invariant
                    i <= snap.monitors@.len(),
                    all == snap@.monitors,
                    m@ == with_displays(blank(), all.take(i as int)),
                decreases snap.monitors@.len() - i,
            {
                assert(all.take(i + 1).drop_last() =~= all.take(i as int));
                assert(all.take(i + 1).last() == snap.monitors@[i as int]@);
                m.add_monitor_section(&snap.monitors[i]);
                i = i + 1;
            }
            assert(all.take(i as int) =~= all);
        }
        m.add_profiles_section(&snap.profiles);
        m.add_item(Item::Separator);
        m.action_item("Settings…", Action::OpenSettings, "");
        m.action_item("Quit Display Studio", Action::Quit, "q");
        m
    }
}

// ── Clicks ─────────────────────────────────────────────────────────────────

/// What a click comes down to.
#[derive(Debug)]
pub enum Effect {
    Post(Cmd),
    OpenSettings,
    Quit,
    Nothing,
}

/// Whether a command writes these.
pub open spec fn posts_write(c: Cmd, display: Seq<char>, code: u8, value: u16) -> bool {
    c matches Cmd::Write { display: d, code: n, value: v } && d@ == display && n == code && v
        == value
}

/// Whether `r` is what moving the slider of a tag asks for.
pub open spec fn slid(acts: Seq<Act>, tag: usize, value: u16, r: Option<Cmd>) -> bool {
    match r {
        Some(c) => tag < acts.len() && (acts[tag as int] matches Act::SetVcp { display, code }
            && posts_write(c, display, code, value)),
        None => tag >= acts.len() || !(acts[tag as int] is SetVcp),
    }
}

/// Whether an effect is that of a click on an action. A menu click is the
/// confirmation; power and picker writes are immediate. A slider is not driven by
/// clicks.
pub open spec fn effect_of(a: Act, e: Effect) -> bool {
    match a {
        Act::ApplyProfile(name) => e matches Effect::Post(Cmd::ApplyProfile(n)) && n@ == name,
        Act::PowerOff { display } => e matches Effect::Post(c) && posts_write(
            c,
            display,
            POWER_MODE,
            POWER_OFF,
        ),
        Act::PowerOn { display } => e matches Effect::Post(c) && posts_write(
            c,
            display,
            POWER_MODE,
            POWER_ON,
        ),
        Act::PickValue { display, code, value } => e matches Effect::Post(c) && posts_write(
            c,
            display,
            code,
            value as u16,
        ),
        Act::OpenSettings => e is OpenSettings,
        Act::Quit => e is Quit,
        Act::SetVcp { .. } => e is Nothing,
    }
}

impl Menu {
    /// What a click on the item of a tag comes down to. A tag that the table does
    /// not hold does nothing.
    pub fn run_action(&self, tag: usize) -> (e: Effect)
        ensures
            if tag < self@.acts.len() {
                effect_of(self@.acts[tag as int], e)
            } else {
                e is Nothing
            },
    {
        if tag >= self.actions.len() {
            return Effect::Nothing;
        }
        match &self.actions[tag] {
            Action::ApplyProfile(name) => Effect::Post(Cmd::ApplyProfile(name.clone())),
            Action::PowerOff { display } => Effect::Post(
                Cmd::Write { display: display.clone(), code: POWER_MODE, value: POWER_OFF },
            ),
            Action::PowerOn { display } => Effect::Post(
                Cmd::Write { display: display.clone(), code: POWER_MODE, value: POWER_ON },
            ),
            Action::PickValue { display, code, value } => Effect::Post(
                Cmd::Write { display: display.clone(), code: *code, value: *value as u16 },
            ),
            Action::OpenSettings => Effect::OpenSettings,
            Action::Quit => Effect::Quit,
            Action::SetVcp { .. } => Effect::Nothing,
        }
    }

    /// What moving the slider of a tag asks for.
    pub fn slider_changed(&self, tag: usize, value: u16) -> (r: Option<Cmd>)
        ensures
            slid(self@.acts, tag, value, r),
    {
        if tag >= self.actions.len() {
            return None;
        }
        match &self.actions[tag] {
            Action::SetVcp { display, code } => Some(
                Cmd::Write { display: display.clone(), code: *code, value },
            ),
            _ => None,
        }
    }
}

// ── Laws ───────────────────────────────────────────────────────────────────

/// Whether a line's tags stand for what the line is.
pub open spec fn fits(line: Line, acts: Seq<Act>) -> bool {
    match line {
        Line::Slider { tag, .. } => tag < acts.len() && acts[tag as int] is SetVcp,
        Line::Entry { tag, .. } => tag < acts.len() && !(acts[tag as int] is SetVcp)
            && !(acts[tag as int] is PickValue),
        Line::Submenu { choices, .. } => forall|i: int|
            0 <= i < choices.len() ==> (#[trigger] choices[i]).tag < acts.len()
                && acts[choices[i].tag as int] is PickValue,
        _ => true,
    }
}

/// Whether every line's tags stand for what the line is.
pub open spec fn tagged(m: Laid) -> bool {
    forall|j: int| 0 <= j < m.lines.len() ==> fits(#[trigger] m.lines[j], m.acts)
}

/// More actions in the table leave what tags stand for as it is.
proof fn lemma_fits_more(line: Line, acts: Seq<Act>, more: Seq<Act>)
    requires
        fits(line, acts),
    ensures
        fits(line, acts + more),
{
    match line {
        Line::Submenu { choices, .. } => {
            assert forall|i: int| 0 <= i < choices.len() implies (#[trigger] choices[i]).tag < (acts
                + more).len() && (acts + more)[choices[i].tag as int] is PickValue by {
                assert(acts[choices[i].tag as int] == (acts + more)[choices[i].tag as int]);
            }
        },
        _ => {},
    }
}

/// A line with its own actions keeps a menu's tags right.
proof fn lemma_tagged_with(m: Laid, line: Line, more: Seq<Act>)
    requires
        tagged(m),
        fits(line, m.acts + more),
    ensures
        tagged(Laid { lines: m.lines.push(line), acts: m.acts + more }),
{
    let now = Laid { lines: m.lines.push(line), acts: m.acts + more };
    assert forall|j: int| 0 <= j < now.lines.len() implies fits(#[trigger] now.lines[j], now.acts) by {
        if j < m.lines.len() {
            assert(now.lines[j] == m.lines[j]);
            lemma_fits_more(m.lines[j], m.acts, more);
        }
    }
}

/// A line without tags keeps a menu's tags right.
proof fn lemma_tagged_line(m: Laid, line: Line)
    requires
        tagged(m),
        line is Separator || line is Disabled,
    ensures
        tagged(with_line(m, line)),
{
    lemma_tagged_with(m, line, Seq::empty());
    assert(m.acts + Seq::<Act>::empty() =~= m.acts);
}

/// A clickable line keeps a menu's tags right.
proof fn lemma_tagged_entry(m: Laid, title: Seq<char>, key: Seq<char>, act: Act)
    requires
        tagged(m),
        !(act is SetVcp),
        !(act is PickValue),
    ensures
        tagged(with_entry(m, title, key, act)),
{
    assert(m.acts + seq![act] =~= m.acts.push(act));
    lemma_tagged_with(m, Line::Entry { title, key, tag: m.acts.len() }, seq![act]);
}

/// Sliders keep a menu's tags right.
proof fn lemma_tagged_sliders(m: Laid, display: Seq<char>, sliders: Seq<Slider>)
    requires
        tagged(m),
    ensures
        tagged(with_sliders(m, display, sliders)),
    decreases sliders.len(),
{
    if sliders.len() > 0 {
        lemma_tagged_sliders(m, display, sliders.drop_last());
        let before = with_sliders(m, display, sliders.drop_last());
        let s = sliders.last();
        let act = Act::SetVcp { display, code: s.code };
        assert(before.acts + seq![act] =~= before.acts.push(act));
        lemma_tagged_with(
            before,
            Line::Slider { label: s.label, current: s.current, max: s.max, tag: before.acts.len() },
            seq![act],
        );
    }
}

/// Submenus keep a menu's tags right.
proof fn lemma_tagged_pickers(m: Laid, display: Seq<char>, pickers: Seq<Picker>)
    requires
        tagged(m),
    ensures
        tagged(with_pickers(m, display, pickers)),
    decreases pickers.len(),
{
    if pickers.len() > 0 {
        lemma_tagged_pickers(m, display, pickers.drop_last());
        let before = with_pickers(m, display, pickers.drop_last());
        let p = pickers.last();
        let choices = picker_choices(p, before.acts.len());
        let more = picker_acts(p, display);
        assert forall|i: int| 0 <= i < choices.len() implies (#[trigger] choices[i]).tag < (
        before.acts + more).len() && (before.acts + more)[choices[i].tag as int] is PickValue by {
            assert((before.acts + more)[before.acts.len() + i] == more[i]);
        }
        lemma_tagged_with(before, Line::Submenu { title: p.title, choices }, more);
    }
}

/// The sections of displays keep a menu's tags right.
proof fn lemma_tagged_displays(m: Laid, ds: Seq<Display>)
    requires
        tagged(m),
    ensures
        tagged(with_displays(m, ds)),
    decreases ds.len(),
{
    if ds.len() > 0 {
        lemma_tagged_displays(m, ds.drop_last());
        let before = with_displays(m, ds.drop_last());
        let d = ds.last();
        let display = text::decimal(d.id as nat);
        lemma_tagged_line(before, Line::Separator);
        let parted = with_line(before, Line::Separator);
        lemma_tagged_line(parted, Line::Disabled { title: d.name });
        let named = with_disabled(parted, d.name);
        lemma_tagged_sliders(named, display, d.sliders);
        let slid = with_sliders(named, display, d.sliders);
        if d.is_ddc {
            lemma_tagged_entry(slid, "⏻  Off"@, ""@, Act::PowerOff { display });
            let off = with_entry(slid, "⏻  Off"@, ""@, Act::PowerOff { display });
            lemma_tagged_entry(off, "☀  On"@, ""@, Act::PowerOn { display });
            let on = with_entry(off, "☀  On"@, ""@, Act::PowerOn { display });
            lemma_tagged_pickers(on, display, d.pickers);
        }
    }
}

/// The lines of profiles keep a menu's tags right.
proof fn lemma_tagged_names(m: Laid, names: Seq<Seq<char>>)
    requires
        tagged(m),
    ensures
        tagged(with_names(m, names)),
    decreases names.len(),
{
    if names.len() > 0 {
        lemma_tagged_names(m, names.drop_last());
        lemma_tagged_entry(
            with_names(m, names.drop_last()),
            "  "@ + names.last(),
            ""@,
            Act::ApplyProfile(names.last()),
        );
    }
}

/// Every tag in the menu stands for an action of the kind that its item is: a
/// slider's for the code it drives, a choice's for the value it picks, and a
/// line's for neither.
pub proof fn law_tags_stand_for_their_items(s: Shown)
    ensures
        tagged(menu_of(s)),
{
    lemma_tagged_line(blank(), Line::Disabled { title: "displayd not running"@ });
    lemma_tagged_line(blank(), Line::Disabled { title: "No displays found"@ });
    lemma_tagged_displays(blank(), s.monitors);
    let part = display_part(s);
    lemma_tagged_line(part, Line::Separator);
    let parted = with_line(part, Line::Separator);
    lemma_tagged_line(parted, Line::Disabled { title: "Apply Profile"@ });
    lemma_tagged_names(with_disabled(parted, "Apply Profile"@), s.profiles);
    let profiles = with_profiles(part, s.profiles);
    lemma_tagged_line(profiles, Line::Separator);
    let body = with_line(profiles, Line::Separator);
    lemma_tagged_entry(body, "Settings…"@, ""@, Act::OpenSettings);
    let settings = with_entry(body, "Settings…"@, ""@, Act::OpenSettings);
    lemma_tagged_entry(settings, "Quit Display Studio"@, "q"@, Act::Quit);
}

/// Whatever the daemon does, the menu ends with an item that quits.
pub proof fn law_quit_is_always_there(s: Shown)
    ensures
        menu_of(s).lines.last() == (Line::Entry {
            title: "Quit Display Studio"@,
            key: "q"@,
            tag: (menu_of(s).acts.len() - 1) as nat,
        }),
        menu_of(s).acts.last() == Act::Quit,
{
}

/// What an item asks of a display it asks of the display it stands under: the
/// sliders of a display carry its id and the codes that they show.
pub proof fn law_sliders_drive_their_display(
    m: Laid,
    display: Seq<char>,
    sliders: Seq<Slider>,
    i: int,
)
    requires
        0 <= i < sliders.len(),
    ensures
        ({
            let now = with_sliders(m, display, sliders);
            &&& now.lines.len() == m.lines.len() + sliders.len()
            &&& now.acts.len() == m.acts.len() + sliders.len()
            &&& now.lines[m.lines.len() + i] == (Line::Slider {
                label: sliders[i].label,
                current: sliders[i].current,
                max: sliders[i].max,
                tag: (m.acts.len() + i) as nat,
            })
            &&& now.acts[m.acts.len() + i] == (Act::SetVcp { display, code: sliders[i].code })
        }),
    decreases sliders.len(),
{
    reveal_with_fuel(with_sliders, 2);
    let rest = sliders.drop_last();
    if i < rest.len() {
        law_sliders_drive_their_display(m, display, rest, i);
        assert(rest[i] == sliders[i]);
    } else if rest.len() > 0 {
        law_sliders_drive_their_display(m, display, rest, rest.len() - 1);
    }
}

/// Whether a menu is another with more behind it.
pub open spec fn continues(m: Laid, now: Laid) -> bool {
    &&& m.lines.len() <= now.lines.len()
    &&& m.acts.len() <= now.acts.len()
    &&& forall|i: int| 0 <= i < m.lines.len() ==> #[trigger] now.lines[i] == m.lines[i]
    &&& forall|i: int| 0 <= i < m.acts.len() ==> #[trigger] now.acts[i] == m.acts[i]
}

/// Whether a line is the submenu of a picker whose choices, once clicked, write the
/// picker's code and the value that the choice is called after to this display, the
/// present value checked.
pub open spec fn offers(line: Line, acts: Seq<Act>, display: Seq<char>, p: Picker) -> bool {
    line matches Line::Submenu { title, choices } && title == p.title && choices.len()
        == p.values.len() && forall|j: int|
        0 <= j < choices.len() ==> (#[trigger] choices[j]).tag < acts.len() && choices[j].title
            == p.values[j].1 && choices[j].checked == (p.current == Some(p.values[j].0))
            && acts[choices[j].tag as int] == (Act::PickValue {
            display,
            code: p.code,
            value: p.values[j].0,
        })
}

/// Whether a line moves a code of this display and shows its value.
pub open spec fn slides(line: Line, acts: Seq<Act>, display: Seq<char>, s: Slider) -> bool {
    line matches Line::Slider { label, current, max, tag } && label == s.label && current
        == s.current && max == s.max && tag < acts.len() && acts[tag as int] == (Act::SetVcp {
        display,
        code: s.code,
    })
}

/// Whether a line does this once it is clicked.
pub open spec fn clicks(line: Line, acts: Seq<Act>, title: Seq<char>, act: Act) -> bool {
    line matches Line::Entry { title: t, key, tag } && t == title && tag < acts.len()
        && acts[tag as int] == act
}

/// Whether the lines from `at` on are the section of a display: a separator, its
/// name, its sliders, and for one that speaks DDC/CI power off, power on and its
/// pickers, each for this display alone.
pub open spec fn section_at(m: Laid, at: int, d: Display) -> bool {
    let me = text::decimal(d.id as nat);
    let n = d.sliders.len() as int;
    &&& 0 <= at
    &&& at + 2 + n + (if d.is_ddc {
        2 + d.pickers.len() as int
    } else {
        0
    }) <= m.lines.len()
    &&& m.lines[at] is Separator
    &&& m.lines[at + 1] == (Line::Disabled { title: d.name })
    &&& forall|i: int|
        0 <= i < n ==> slides(m.lines[at + 2 + i], m.acts, me, #[trigger] d.sliders[i])
    &&& d.is_ddc ==> {
        &&& clicks(m.lines[at + 2 + n], m.acts, "⏻  Off"@, Act::PowerOff { display: me })
        &&& clicks(m.lines[at + 3 + n], m.acts, "☀  On"@, Act::PowerOn { display: me })
        &&& forall|i: int|
            0 <= i < d.pickers.len() ==> offers(
                m.lines[at + 4 + n + i],
                m.acts,
                me,
                #[trigger] d.pickers[i],
            )
    }
}

/// Whether an action is asked of a display, and of which.
pub open spec fn asked_of(a: Act) -> Option<Seq<char>> {
    match a {
        Act::SetVcp { display, .. } => Some(display),
        Act::PowerOff { display } => Some(display),
        Act::PowerOn { display } => Some(display),
        Act::PickValue { display, .. } => Some(display),
        _ => None,
    }
}

/// A section stays one while the menu goes on.
proof fn lemma_section_stays(m: Laid, now: Laid, at: int, d: Display)
    requires
        continues(m, now),
        section_at(m, at, d),
    ensures
        section_at(now, at, d),
{
    let me = text::decimal(d.id as nat);
    let n = d.sliders.len() as int;
    assert forall|i: int| 0 <= i < n implies slides(
        now.lines[at + 2 + i],
        now.acts,
        me,
        #[trigger] d.sliders[i],
    ) by {
        assert(slides(m.lines[at + 2 + i], m.acts, me, d.sliders[i]));
    }
    if d.is_ddc {
        assert forall|i: int| 0 <= i < d.pickers.len() implies offers(
            now.lines[at + 4 + n + i],
            now.acts,
            me,
            #[trigger] d.pickers[i],
        ) by {
            assert(offers(m.lines[at + 4 + n + i], m.acts, me, d.pickers[i]));
            let choices = m.lines[at + 4 + n + i]->Submenu_choices;
            assert forall|j: int| 0 <= j < choices.len() implies (#[trigger] choices[j]).tag
                < now.acts.len() && now.acts[choices[j].tag as int] == (Act::PickValue {
                display: me,
                code: d.pickers[i].code,
                value: d.pickers[i].values[j].0,
            }) by {
                assert(now.acts[choices[j].tag as int] == m.acts[choices[j].tag as int]);
            }
        }
    }
}

/// The submenus of a display, one after the other.
proof fn lemma_pickers_offer(m: Laid, display: Seq<char>, pickers: Seq<Picker>)
    ensures
        ({
            let now = with_pickers(m, display, pickers);
            &&& continues(m, now)
            &&& now.lines.len() == m.lines.len() + pickers.len()
            &&& forall|i: int|
                0 <= i < pickers.len() ==> offers(
                    now.lines[m.lines.len() + i],
                    now.acts,
                    display,
                    #[trigger] pickers[i],
                )
            &&& forall|t: int|
                m.acts.len() <= t < now.acts.len() ==> asked_of(#[trigger] now.acts[t]) == Some(
                    display,
                )
        }),
    decreases pickers.len(),
{
    let now = with_pickers(m, display, pickers);
    if pickers.len() > 0 {
        let rest = pickers.drop_last();
        let before = with_pickers(m, display, rest);
        let p = pickers.last();
        lemma_pickers_offer(m, display, rest);
        let more = picker_acts(p, display);
        let choices = picker_choices(p, before.acts.len());
        assert forall|j: int| 0 <= j < choices.len() implies (#[trigger] choices[j]).tag
            < now.acts.len() && now.acts[choices[j].tag as int] == (Act::PickValue {
            display,
            code: p.code,
            value: p.values[j].0,
        }) by {
            assert(now.acts[before.acts.len() + j] == more[j]);
        }
        assert forall|i: int| 0 <= i < pickers.len() implies offers(
            now.lines[m.lines.len() + i],
            now.acts,
            display,
            #[trigger] pickers[i],
        ) by {
            if i < rest.len() {
                assert(rest[i] == pickers[i]);
                assert(offers(before.lines[m.lines.len() + i], before.acts, display, rest[i]));
                assert(now.lines[m.lines.len() + i] == before.lines[m.lines.len() + i]);
                let cs = before.lines[m.lines.len() + i]->Submenu_choices;
                assert forall|j: int| 0 <= j < cs.len() implies (#[trigger] cs[j]).tag
                    < now.acts.len() && now.acts[cs[j].tag as int] == (Act::PickValue {
                    display,
                    code: rest[i].code,
                    value: rest[i].values[j].0,
                }) by {
                    assert(now.acts[cs[j].tag as int] == before.acts[cs[j].tag as int]);
                }
            }
        }
        assert forall|t: int| m.acts.len() <= t < now.acts.len() implies asked_of(
            #[trigger] now.acts[t],
        ) == Some(display) by {
            if t < before.acts.len() {
                assert(now.acts[t] == before.acts[t]);
            } else {
                assert(now.acts[t] == more[t - before.acts.len()]);
            }
        }
    }
}

/// The sliders of a display, one after the other.
proof fn lemma_sliders_slide(m: Laid, display: Seq<char>, sliders: Seq<Slider>)
    ensures
        ({
            let now = with_sliders(m, display, sliders);
            &&& continues(m, now)
            &&& now.lines.len() == m.lines.len() + sliders.len()
            &&& forall|i: int|
                0 <= i < sliders.len() ==> slides(
                    now.lines[m.lines.len() + i],
                    now.acts,
                    display,
                    #[trigger] sliders[i],
                )
            &&& forall|t: int|
                m.acts.len() <= t < now.acts.len() ==> asked_of(#[trigger] now.acts[t]) == Some(
                    display,
                ) && now.acts[t] is SetVcp
        }),
    decreases sliders.len(),
{
    let now = with_sliders(m, display, sliders);
    if sliders.len() > 0 {
        let rest = sliders.drop_last();
        let before = with_sliders(m, display, rest);
        lemma_sliders_slide(m, display, rest);
        assert forall|i: int| 0 <= i < sliders.len() implies slides(
            now.lines[m.lines.len() + i],
            now.acts,
            display,
            #[trigger] sliders[i],
        ) by {
            if i < rest.len() {
                assert(rest[i] == sliders[i]);
                assert(slides(before.lines[m.lines.len() + i], before.acts, display, rest[i]));
            }
        }
    }
}

/// The section of a display is its own: its lines are those of the display, and
/// every action that they stand for is asked of this display and of no other. One
/// that does not speak DDC/CI has sliders alone.
proof fn lemma_section(m: Laid, d: Display)
    ensures
        continues(m, with_display(m, d)),
        section_at(with_display(m, d), m.lines.len() as int, d),
        forall|t: int|
            m.acts.len() <= t < with_display(m, d).acts.len() ==> asked_of(
                #[trigger] with_display(m, d).acts[t],
            ) == Some(text::decimal(d.id as nat)) && (with_display(m, d).acts[t] is SetVcp
                || d.is_ddc),
{
    let me = text::decimal(d.id as nat);
    let n = d.sliders.len() as int;
    let at = m.lines.len() as int;
    let named = with_disabled(with_line(m, Line::Separator), d.name);
    let slid = with_sliders(named, me, d.sliders);
    lemma_sliders_slide(named, me, d.sliders);
    let now = with_display(m, d);
    assert(continues(m, named));
    assert(continues(m, slid)) by {
        assert forall|i: int| 0 <= i < m.lines.len() implies #[trigger] slid.lines[i]
            == m.lines[i] by {
            assert(slid.lines[i] == named.lines[i]);
        }
        assert forall|i: int| 0 <= i < m.acts.len() implies #[trigger] slid.acts[i]
            == m.acts[i] by {
            assert(slid.acts[i] == named.acts[i]);
        }
    }
    assert(slid.lines[at] == named.lines[at]);
    assert(slid.lines[at + 1] == named.lines[at + 1]);
    if d.is_ddc {
        let off = with_entry(slid, "⏻  Off"@, ""@, Act::PowerOff { display: me });
        let on = with_entry(off, "☀  On"@, ""@, Act::PowerOn { display: me });
        lemma_pickers_offer(on, me, d.pickers);
        assert(now == with_pickers(on, me, d.pickers));
        assert(continues(slid, now)) by {
            assert forall|i: int| 0 <= i < slid.lines.len() implies #[trigger] now.lines[i]
                == slid.lines[i] by {
                assert(now.lines[i] == on.lines[i]);
            }
            assert forall|i: int| 0 <= i < slid.acts.len() implies #[trigger] now.acts[i]
                == slid.acts[i] by {
                assert(now.acts[i] == on.acts[i]);
            }
        }
        assert(now.lines[at + 2 + n] == on.lines[at + 2 + n]);
        assert(now.lines[at + 3 + n] == on.lines[at + 3 + n]);
        assert(now.acts[slid.acts.len() as int] == on.acts[slid.acts.len() as int]);
        assert(now.acts[slid.acts.len() as int + 1] == on.acts[slid.acts.len() as int + 1]);
        assert(now.lines[at] == slid.lines[at]);
        assert(now.lines[at + 1] == slid.lines[at + 1]);
        assert forall|i: int| 0 <= i < n implies slides(
            now.lines[at + 2 + i],
            now.acts,
            me,
            #[trigger] d.sliders[i],
        ) by {
            assert(slides(slid.lines[at + 2 + i], slid.acts, me, d.sliders[i]));
            assert(now.lines[at + 2 + i] == slid.lines[at + 2 + i]);
        }
        assert forall|i: int| 0 <= i < d.pickers.len() implies offers(
            now.lines[at + 4 + n + i],
            now.acts,
            me,
            #[trigger] d.pickers[i],
        ) by {
            assert(offers(now.lines[on.lines.len() + i], now.acts, me, d.pickers[i]));
        }
        assert forall|t: int| m.acts.len() <= t < now.acts.len() implies asked_of(
            #[trigger] now.acts[t],
        ) == Some(me) by {
            if t < slid.acts.len() {
                assert(now.acts[t] == slid.acts[t]);
            } else if t < on.acts.len() {
                assert(now.acts[t] == on.acts[t]);
            }
        }
        assert(continues(m, now)) by {
            assert forall|i: int| 0 <= i < m.lines.len() implies #[trigger] now.lines[i]
                == m.lines[i] by {
                assert(now.lines[i] == slid.lines[i]);
            }
            assert forall|i: int| 0 <= i < m.acts.len() implies #[trigger] now.acts[i]
                == m.acts[i] by {
                assert(now.acts[i] == slid.acts[i]);
            }
        }
    }
}

/// Sections, one after the other: each display has one, and every action is asked of
/// a display that is shown.
proof fn lemma_sections(m: Laid, ds: Seq<Display>, k: int)
    ensures
        continues(m, with_displays(m, ds)),
        0 <= k < ds.len() ==> exists|at: int| #[trigger]
            section_at(with_displays(m, ds), at, ds[k]),
        forall|t: int|
            m.acts.len() <= t < with_displays(m, ds).acts.len() ==> own_act(
                #[trigger] with_displays(m, ds).acts[t],
                ds,
            ),
    decreases ds.len(),
{
    let now = with_displays(m, ds);
    if ds.len() > 0 {
        let rest = ds.drop_last();
        let before = with_displays(m, rest);
        let d = ds.last();
        lemma_sections(m, rest, k);
        lemma_section(before, d);
        assert(continues(m, now)) by {
            assert forall|i: int| 0 <= i < m.lines.len() implies #[trigger] now.lines[i]
                == m.lines[i] by {
                assert(now.lines[i] == before.lines[i]);
            }
            assert forall|i: int| 0 <= i < m.acts.len() implies #[trigger] now.acts[i]
                == m.acts[i] by {
                assert(now.acts[i] == before.acts[i]);
            }
        }
        if 0 <= k < rest.len() {
            assert(rest[k] == ds[k]);
            let at = choose|at: int| #[trigger] section_at(before, at, rest[k]);
            lemma_section_stays(before, now, at, rest[k]);
            assert(section_at(now, at, ds[k]));
        } else if k == ds.len() - 1 {
            assert(section_at(now, before.lines.len() as int, ds[k]));
        }
        assert forall|t: int| m.acts.len() <= t < now.acts.len() implies own_act(
            #[trigger] now.acts[t],
            ds,
        ) by {
            if t < before.acts.len() {
                assert(now.acts[t] == before.acts[t]);
                let j = choose|j: int|
                    0 <= j < rest.len() && asked_of(before.acts[t]) == Some(
                        text::decimal((#[trigger] rest[j]).id as nat),
                    ) && (before.acts[t] is SetVcp || rest[j].is_ddc);
                assert(ds[j] == rest[j]);
            } else {
                assert(ds[ds.len() - 1] == d);
            }
        }
    }
}

/// Whether an action is asked of one of these displays, power and pickers of one
/// that speaks DDC/CI.
pub open spec fn own_act(a: Act, ds: Seq<Display>) -> bool {
    exists|j: int|
        0 <= j < ds.len() && asked_of(a) == Some(text::decimal((#[trigger] ds[j]).id as nat)) && (
        a is SetVcp || ds[j].is_ddc)
}

/// Profiles are asked of no display.
proof fn lemma_names_apply(m: Laid, names: Seq<Seq<char>>)
    ensures
        ({
            let now = with_names(m, names);
            &&& continues(m, now)
            &&& now.lines.len() == m.lines.len() + names.len()
            &&& now.acts.len() == m.acts.len() + names.len()
            &&& forall|i: int|
                0 <= i < names.len() ==> clicks(
                    now.lines[m.lines.len() + i],
                    now.acts,
                    "  "@ + #[trigger] names[i],
                    Act::ApplyProfile(names[i]),
                )
            &&& forall|t: int|
                m.acts.len() <= t < now.acts.len() ==> asked_of(#[trigger] now.acts[t]) is None
        }),
    decreases names.len(),
{
    let now = with_names(m, names);
    if names.len() > 0 {
        let rest = names.drop_last();
        let before = with_names(m, rest);
        lemma_names_apply(m, rest);
        assert forall|i: int| 0 <= i < names.len() implies clicks(
            now.lines[m.lines.len() + i],
            now.acts,
            "  "@ + #[trigger] names[i],
            Act::ApplyProfile(names[i]),
        ) by {
            if i < rest.len() {
                assert(rest[i] == names[i]);
                assert(clicks(
                    before.lines[m.lines.len() + i],
                    before.acts,
                    "  "@ + rest[i],
                    Act::ApplyProfile(rest[i]),
                ));
            }
        }
    }
}

/// Whether a line of the menu, under the name of a profile, applies that profile.
pub open spec fn applies(m: Laid, name: Seq<char>) -> bool {
    exists|j: int|
        0 <= j < m.lines.len() && #[trigger] clicks(
            m.lines[j],
            m.acts,
            "  "@ + name,
            Act::ApplyProfile(name),
        )
}

/// The menu after the displays.
proof fn lemma_menu_goes_on(s: Shown)
    ensures
        continues(display_part(s), menu_of(s)),
        forall|t: int|
            display_part(s).acts.len() <= t < menu_of(s).acts.len() ==> asked_of(
                #[trigger] menu_of(s).acts[t],
            ) is None,
        forall|i: int| 0 <= i < s.profiles.len() ==> applies(menu_of(s), #[trigger] s.profiles[i]),
{
    let part = display_part(s);
    let head = with_disabled(with_line(part, Line::Separator), "Apply Profile"@);
    let named = with_profiles(part, s.profiles);
    let now = menu_of(s);
    if s.profiles.len() > 0 {
        lemma_names_apply(head, s.profiles);
        assert forall|i: int| 0 <= i < part.lines.len() implies #[trigger] named.lines[i]
            == part.lines[i] by {
            assert(named.lines[i] == head.lines[i]);
        }
        assert forall|i: int| 0 <= i < part.acts.len() implies #[trigger] named.acts[i]
            == part.acts[i] by {
            assert(named.acts[i] == head.acts[i]);
        }
    }
    assert(continues(part, named));
    assert(continues(named, now));
    assert forall|i: int| 0 <= i < part.lines.len() implies #[trigger] now.lines[i]
        == part.lines[i] by {
        assert(now.lines[i] == named.lines[i]);
    }
    assert forall|i: int| 0 <= i < part.acts.len() implies #[trigger] now.acts[i] == part.acts[i] by {
        assert(now.acts[i] == named.acts[i]);
    }
    assert forall|t: int| part.acts.len() <= t < now.acts.len() implies asked_of(
        #[trigger] now.acts[t],
    ) is None by {
        if t < named.acts.len() {
            assert(now.acts[t] == named.acts[t]);
        }
    }
    assert forall|i: int| 0 <= i < s.profiles.len() implies applies(now, #[trigger] s.profiles[i]) by {
        let j = head.lines.len() + i;
        assert(clicks(named.lines[j], named.acts, "  "@ + s.profiles[i], Act::ApplyProfile(s.profiles[i])));
        assert(now.lines[j] == named.lines[j]);
        assert(clicks(now.lines[j], now.acts, "  "@ + s.profiles[i], Act::ApplyProfile(s.profiles[i])));
    }
}

/// Every display that is shown has a section in the menu, of its own sliders, power
/// and pickers, which are asked of that display alone.
pub proof fn law_every_display_has_its_section(s: Shown, k: int)
    requires
        s.daemon_up,
        0 <= k < s.monitors.len(),
    ensures
        exists|at: int| #[trigger] section_at(menu_of(s), at, s.monitors[k]),
{
    lemma_sections(blank(), s.monitors, k);
    lemma_menu_goes_on(s);
    let at = choose|at: int| #[trigger] section_at(display_part(s), at, s.monitors[k]);
    lemma_section_stays(display_part(s), menu_of(s), at, s.monitors[k]);
    assert(section_at(menu_of(s), at, s.monitors[k]));
}

/// Whatever the menu asks of a display, it asks by the id of one that is shown:
/// there is no action for several displays at once, and none while the daemon is
/// down. Power and choices are asked of displays that speak DDC/CI alone.
pub proof fn law_the_menu_drives_one_display_at_a_time(s: Shown, tag: int)
    requires
        0 <= tag < menu_of(s).acts.len(),
        asked_of(menu_of(s).acts[tag]) is Some,
    ensures
        s.daemon_up,
        own_act(menu_of(s).acts[tag], s.monitors),
{
    lemma_sections(blank(), s.monitors, 0);
    lemma_menu_goes_on(s);
    assert(menu_of(s).acts[tag] == display_part(s).acts[tag]);
}

/// Every profile has a line that applies it.
pub proof fn law_every_profile_has_its_line(s: Shown, i: int)
    requires
        0 <= i < s.profiles.len(),
    ensures
        applies(menu_of(s), s.profiles[i]),
{
    lemma_menu_goes_on(s);
}

/// A click posts what its action says and nothing else: power off writes 4 to code
/// 0xD6 of the display, power on writes 1, a choice writes its value to its code, a
/// profile is applied by its name. A slider is not clicked.
pub proof fn law_clicks_do_what_they_say(a: Act, e: Effect)
    requires
        effect_of(a, e),
    ensures
        (e is Post) == (a is PowerOff || a is PowerOn || a is PickValue || a is ApplyProfile),
        (e is Quit) == (a is Quit),
        (e is OpenSettings) == (a is OpenSettings),
        e matches Effect::Post(Cmd::Write { display, code, value }) ==> asked_of(a) == Some(display@)
            && (a is PowerOff ==> code == 0xD6 && value == 4) && (a is PowerOn ==> code == 0xD6
            && value == 1) && (a matches Act::PickValue { code: c, value: v, .. } ==> code == c
            && value == v),
        e matches Effect::Post(c) ==> (c is Write) == (asked_of(a) is Some) && (c is ApplyProfile)
            == (a is ApplyProfile),
        e matches Effect::Post(Cmd::ApplyProfile(name)) ==> a == Act::ApplyProfile(name@),
{
}

/// While the daemon is down, or nothing is attached, the menu says so.
pub proof fn law_the_menu_says_what_is_missing(s: Shown)
    ensures
        !s.daemon_up ==> menu_of(s).lines[0] == (Line::Disabled { title: "displayd not running"@ }),
        s.daemon_up && s.monitors.len() == 0 ==> menu_of(s).lines[0] == (Line::Disabled {
            title: "No displays found"@,
        }),
{
    lemma_menu_goes_on(s);
    if !s.daemon_up || s.monitors.len() == 0 {
        assert(menu_of(s).lines[0] == display_part(s).lines[0]);
    }
}

/// Moving a slider writes the value that it was moved to, to the display and the code that
/// it is for. What is no slider writes nothing.
pub proof fn law_sliders_write_where_they_were_moved(
    acts: Seq<Act>,
    tag: usize,
    value: u16,
    r: Option<Cmd>,
)
    requires
        slid(acts, tag, value, r),
    ensures
        r is Some <==> tag < acts.len() && acts[tag as int] is SetVcp,
        r is Some ==> {
            &&& r->0 is Write
            &&& r->0->Write_display@ == acts[tag as int]->SetVcp_display
            &&& r->0->Write_code == acts[tag as int]->SetVcp_code
            &&& r->0->Write_value == value
        },
{
}

/// Profiles are announced where there are any, and not where there are none.
pub proof fn law_profiles_are_announced(m: Laid, names: Seq<Seq<char>>)
    ensures
        names.len() == 0 ==> with_profiles(m, names) == m,
        names.len() > 0 ==> with_profiles(m, names).acts.len() == m.acts.len() + names.len(),
{
    if names.len() > 0 {
        lemma_named_acts(with_disabled(with_line(m, Line::Separator), "Apply Profile"@), names);
    }
}

/// Every profile adds one action.
proof fn lemma_named_acts(m: Laid, names: Seq<Seq<char>>)
    ensures
        with_names(m, names).acts.len() == m.acts.len() + names.len(),
    decreases names.len(),
{
    if names.len() > 0 {
        lemma_named_acts(m, names.drop_last());
    }
}

} // verus!
