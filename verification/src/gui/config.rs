//! Persisted preferences of the menu bar app.
//!
//! Kept separate from the daemon's state: these are choices about the *menu*
//! (which sliders to show, whether to auto-launch), not about the hardware.
//! They are keyed by each display's stable settings key, so a preference
//! survives reconnects and id changes.

use crate::ddc::vcp;
use crate::keyed::{TextMap, TextSet};
use crate::paths;
use crate::paths::FilePath;
use crate::text;
use vstd::prelude::*;

verus! {

/// Codes shown in the menu by default (before any customization): brightness,
/// contrast, volume. Everything else a monitor advertises is opt-in.
pub const DEFAULT_VISIBLE: [u8; 3] = [0x10, 0x12, 0x62];

/// The preferences.
#[derive(Debug, Clone)]
pub struct GuiConfig {
    /// Launch the app at login.
    pub launch_at_login: bool,
    /// Per-display explicit set of visible slider codes, keyed by settings key.
    /// Absent = use [`DEFAULT_VISIBLE`]; present = exactly this set. Stored as
    /// hex strings ("0x59") so the file stays readable.
    pub visible: TextMap<TextSet>,
    /// Per-display codes the monitor advertises but ignores writes to (detected
    /// by read-back). Their sliders are shown greyed-out. Persisted so a known
    /// dead control stays disabled across restarts.
    pub ignored: TextMap<TextSet>,
}

/// Sets of codes, by display.
pub type CodeSets = Map<Seq<char>, TextSet>;

/// Whether a code is shown by default.
pub open spec fn default_visible(code: u8) -> bool {
    code == 0x10 || code == 0x12 || code == 0x62
}

/// The codes that are shown by default, as they are written down.
pub open spec fn default_set() -> Map<Seq<char>, ()> {
    Map::<Seq<char>, ()>::empty().insert(vcp::hex_key(0x10), ()).insert(
        vcp::hex_key(0x12),
        (),
    ).insert(vcp::hex_key(0x62), ())
}

/// Whether a code is shown in the menu for a display: by the display's own set
/// if it has one, by default otherwise.
pub open spec fn shown(visible: CodeSets, key: Seq<char>, code: u8) -> bool {
    if visible.contains_key(key) {
        visible[key]@.contains_key(vcp::hex_key(code))
    } else {
        default_visible(code)
    }
}

/// Whether a code is known to be ignored by a display.
pub open spec fn dead(ignored: CodeSets, key: Seq<char>, code: u8) -> bool {
    ignored.contains_key(key) && ignored[key]@.contains_key(vcp::hex_key(code))
}

/// A set with a code put in or taken out.
pub open spec fn switched(set: Map<Seq<char>, ()>, code: u8, on: bool) -> Map<Seq<char>, ()> {
    if on {
        set.insert(vcp::hex_key(code), ())
    } else {
        set.remove(vcp::hex_key(code))
    }
}

/// Whether `after` is `before` with a code shown or hidden for a display. The
/// first change to a display starts from the defaults.
pub open spec fn visibility_set(
    before: CodeSets,
    after: CodeSets,
    key: Seq<char>,
    code: u8,
    visible: bool,
) -> bool {
    &&& after == before.insert(key, after[key])
    &&& after[key]@ == switched(
        if before.contains_key(key) {
            before[key]@
        } else {
            default_set()
        },
        code,
        visible,
    )
}

/// The codes that a display is known to ignore.
pub open spec fn dead_set(ignored: CodeSets, key: Seq<char>) -> Map<Seq<char>, ()> {
    if ignored.contains_key(key) {
        ignored[key]@
    } else {
        Map::empty()
    }
}

/// Whether `after` is `before` with a code known as ignored or as working. A
/// display with no ignored code has no entry.
pub open spec fn ignored_set(
    before: CodeSets,
    after: CodeSets,
    key: Seq<char>,
    code: u8,
    ignored: bool,
) -> bool {
    let set = switched(dead_set(before, key), code, ignored);
    if set == Map::<Seq<char>, ()>::empty() {
        after == before.remove(key)
    } else {
        after == before.insert(key, after[key]) && after[key]@ == set
    }
}

impl Default for GuiConfig {
    fn default() -> (c: GuiConfig)
        ensures
            !c.launch_at_login,
            c.visible@ == Map::<Seq<char>, TextSet>::empty(),
            c.ignored@ == Map::<Seq<char>, TextSet>::empty(),
    {
        GuiConfig { launch_at_login: false, visible: TextMap::new(), ignored: TextMap::new() }
    }
}

impl GuiConfig {
    /// Where the preferences are kept.
    pub fn path() -> (r: FilePath)
        ensures
            paths::for_user(r@, "gui.toml"@),
    {
        paths::user_file("gui.toml")
    }

    /// Where the preferences are written before they take the place of the
    /// former ones, so that no reader finds half of a file.
    pub fn temporary(path: &FilePath) -> (r: FilePath)
        ensures
            r@ == paths::extended(path@, "toml.tmp"@),
    {
        path.with_extension("toml.tmp")
    }

    /// The preferences that were found, if they could be read. Anything else
    /// (missing, corrupt) counts as defaults: a broken preferences file must
    /// never stop the menu from working.
    pub fn load(found: Option<GuiConfig>) -> (c: GuiConfig)
        ensures
            match found {
                Some(f) => c == f,
                None => !c.launch_at_login && c.visible@ == Map::<Seq<char>, TextSet>::empty()
                    && c.ignored@ == Map::<Seq<char>, TextSet>::empty(),
            },
    {
        match found {
            Some(c) => c,
            None => GuiConfig::default(),
        }
    }

    /// Whether a code is shown in the menu for a display.
    ///
    /// Uses the per-display explicit set if the user has customized this
    /// display, otherwise the default (brightness/contrast/volume).
    pub fn is_visible(&self, key: &str, code: u8) -> (b: bool)
        ensures
            b == shown(self.visible@, key@, code),
    {
        match self.visible.get(key) {
            Some(set) => set.contains_key(vcp::write_hex_key(code).as_str()),
            None => code == 0x10 || code == 0x12 || code == 0x62,
        }
    }

    /// Show or hide a code for a display. The first change to a display seeds
    /// its set from the defaults, so unrelated defaults stay visible. The
    /// preferences are to be saved at once.
    pub fn set_visible(&mut self, key: &str, code: u8, visible: bool)
        ensures
            visibility_set(old(self).visible@, final(self).visible@, key@, code, visible),
            final(self).launch_at_login == old(self).launch_at_login,
            final(self).ignored == old(self).ignored,
    {
        let ghost before = self.visible@;
        let mut set = match self.visible.remove(key) {
            Some(set) => set,
            None => {
                let mut seeded: TextSet = TextMap::new();
                seeded.insert(vcp::write_hex_key(0x10), ());
                seeded.insert(vcp::write_hex_key(0x12), ());
                seeded.insert(vcp::write_hex_key(0x62), ());
                seeded
            },
        };
        if visible {
            set.insert(vcp::write_hex_key(code), ());
        } else {
            set.remove(vcp::write_hex_key(code).as_str());
        }
        let ghost kept = set;
        self.visible.insert(text::own(key), set);
        assert(self.visible@ =~= before.insert(key@, kept));
    }

    /// Whether a code was detected as ignored (write did not stick) for a
    /// display.
    pub fn is_ignored(&self, key: &str, code: u8) -> (b: bool)
        ensures
            b == dead(self.ignored@, key@, code),
    {
        match self.ignored.get(key) {
            Some(set) => set.contains_key(vcp::write_hex_key(code).as_str()),
            None => false,
        }
    }

    /// Record whether a code is ignored. The preferences are to be saved only
    /// where this returns true, that is on an actual change, so that a working
    /// control does not thrash the file on every write.
    pub fn set_ignored(&mut self, key: &str, code: u8, ignored: bool) -> (changed: bool)
        ensures
            ignored_set(old(self).ignored@, final(self).ignored@, key@, code, ignored),
            changed == (dead(old(self).ignored@, key@, code) != ignored),
            final(self).launch_at_login == old(self).launch_at_login,
            final(self).visible == old(self).visible,
    {
        let ghost before = self.ignored@;
        let was: bool = self.is_ignored(key, code);
        let mut set: TextSet = match self.ignored.remove(key) {
            Some(set) => set,
            None => TextMap::new(),
        };
        assert(set@ == dead_set(before, key@));
        if ignored {
            set.insert(vcp::write_hex_key(code), ());
            assert(set@.contains_key(vcp::hex_key(code)));
        } else {
            set.remove(vcp::write_hex_key(code).as_str());
        }
        if !set.is_empty() {
            let ghost kept = set;
            self.ignored.insert(text::own(key), set);
            assert(self.ignored@ =~= before.insert(key@, kept));
        }
        was != ignored
    }
}

// ── Laws ───────────────────────────────────────────────────────────────────

/// No two codes are written down alike.
proof fn lemma_keys_differ(a: u8, b: u8)
    requires
        vcp::hex_key(a) == vcp::hex_key(b),
    ensures
        a == b,
{
    vcp::law_hex_key_reads_back(a);
    vcp::law_hex_key_reads_back(b);
    vcp::law_number_round_trip(a);
    vcp::law_number_round_trip(b);
}

/// What is shown by default is brightness, contrast and volume, for every
/// display that was never customized.
pub proof fn law_defaults(key: Seq<char>, code: u8)
    ensures
        shown(Map::empty(), key, code) == DEFAULT_VISIBLE@.contains(code),
{
    assert(DEFAULT_VISIBLE@[0] == 0x10 && DEFAULT_VISIBLE@[1] == 0x12 && DEFAULT_VISIBLE@[2]
        == 0x62);
}

/// Showing or hiding a code does that, and leaves every other code of every
/// display as it was, the defaults of the same display included.
pub proof fn law_visibility_changes_one_code(
    before: CodeSets,
    after: CodeSets,
    key: Seq<char>,
    code: u8,
    visible: bool,
    k: Seq<char>,
    c: u8,
)
    requires
        visibility_set(before, after, key, code, visible),
    ensures
        shown(after, k, c) == if k == key && c == code {
            visible
        } else {
            shown(before, k, c)
        },
{
    if k == key {
        assert(after.contains_key(key));
        if c != code {
            if vcp::hex_key(c) == vcp::hex_key(code) {
                lemma_keys_differ(c, code);
            }
        }
        if !before.contains_key(key) {
            if vcp::hex_key(c) == vcp::hex_key(0x10) {
                lemma_keys_differ(c, 0x10);
            }
            if vcp::hex_key(c) == vcp::hex_key(0x12) {
                lemma_keys_differ(c, 0x12);
            }
            if vcp::hex_key(c) == vcp::hex_key(0x62) {
                lemma_keys_differ(c, 0x62);
            }
            assert(default_set().contains_key(vcp::hex_key(c)) == default_visible(c));
        }
    }
}

/// Recording a code as ignored or working does that, and leaves every other code
/// of every display as it was.
pub proof fn law_ignoring_changes_one_code(
    before: CodeSets,
    after: CodeSets,
    key: Seq<char>,
    code: u8,
    ignored: bool,
    k: Seq<char>,
    c: u8,
)
    requires
        ignored_set(before, after, key, code, ignored),
    ensures
        dead(after, k, c) == if k == key && c == code {
            ignored
        } else {
            dead(before, k, c)
        },
{
    let set = switched(dead_set(before, key), code, ignored);
    if k == key {
        if c != code && vcp::hex_key(c) == vcp::hex_key(code) {
            lemma_keys_differ(c, code);
        }
        assert(set.contains_key(vcp::hex_key(c)) == if c == code {
            ignored
        } else {
            dead(before, k, c)
        });
    }
}

} // verus!
