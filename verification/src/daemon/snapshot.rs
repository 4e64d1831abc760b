//! Taking a profile of the displays that are attached.

use crate::api;
use crate::daemon::engine;
use crate::daemon::engine::Engine;
use crate::daemon::selection;
use crate::daemon::selection::{EngineError, Result};
use crate::ddc::vcp;
use crate::ddc::vcp::VcpCode;
use crate::keyed::TextMap;
use crate::model::profile;
use crate::model::profile::{Reading, Removal, SavePlan};
use crate::model::{Call, DisplayBackend, DisplayId, DisplayProfile, Monitor, Profile};
use crate::text;
use crate::trace;
use vstd::prelude::*;

verus! {

// ── Names in a profile ─────────────────────────────────────────────────────

/// How a code is written into a profile file: a name when there is one, so the
/// TOML stays readable, and a hex number otherwise.
pub open spec fn key_for(code: VcpCode) -> Seq<char> {
    match code {
        VcpCode::Raw(n) => vcp::hex_key(n),
        _ => text::replaced(text::ascii_lowered(vcp::code_name(code)@), ' ', '-'),
    }
}

/// How a code is written into a profile file.
pub fn setting_key(code: VcpCode) -> (r: String)
    ensures
        r@ == key_for(code),
{
    match code {
        VcpCode::Raw(c) => vcp::write_hex_key(c),
        _ => text::replace_char(text::lower_ascii(code.name()).as_str(), ' ', '-'),
    }
}

/// Whether two products have the same name, case aside.
pub open spec fn namesake(m: Monitor, name: Seq<char>) -> bool {
    text::ascii_lowered(m.identity.product_name@) == text::ascii_lowered(name)
}

/// How many displays share a product name.
pub open spec fn namesakes(all: Seq<Monitor>, name: Seq<char>) -> nat {
    all.filter(|m: Monitor| namesake(m, name)).len()
}

/// A selector that survives being applied on another machine.
///
/// Prefers the product name, since display ids are assigned per boot and would
/// make a profile machine-specific, but falls back to the id when the name is
/// absent or shared with another attached display.
pub open spec fn selector_text(m: Monitor, all: Seq<Monitor>) -> Seq<char> {
    let name = m.identity.product_name@;
    if name.len() > 0 && namesakes(all, name) == 1 {
        name
    } else {
        text::decimal(m.id.0 as nat)
    }
}

/// Pick a selector that survives being applied on another machine.
fn selector_for(m: &Monitor, all: &Vec<&Monitor>, Ghost(list): Ghost<Seq<Monitor>>) -> (r: String)
    requires
        all@.len() == list.len(),
        forall|i: int| 0 <= i < all@.len() ==> *(#[trigger] all@[i]) == list[i],
    ensures
        r@ == selector_text(*m, list),
{
    let name = m.identity.product_name.as_str();
    if text::empty(name) {
        return m.id.describe();
    }
    let ghost p = |o: Monitor| namesake(o, name@);
    let mut count: usize = 0;
    let mut i: usize = 0;
    proof {
        reveal(Seq::filter);
    }
    while i < all.len()
        invariant
            count <= i <= all@.len(),
            all@.len() == list.len(),
            forall|k: int| 0 <= k < all@.len() ==> *(#[trigger] all@[k]) == list[k],
            p == (|o: Monitor| namesake(o, name@)),
            count == list.take(i as int).filter(p).len(),
        decreases all@.len() - i,
    {
        proof {
            selection::lemma_filter_next(list, p, i as int);
        }
        if text::same_ignoring_ascii_case(all[i].identity.product_name.as_str(), name) {
            count = count + 1;
        }
        i = i + 1;
    }
    assert(list.take(i as int) =~= list);
    if count == 1 {
        text::own(name)
    } else {
        m.id.describe()
    }
}

// ── Capturing ──────────────────────────────────────────────────────────────

/// The codes that a profile may hold. Destructive codes are never captured: a
/// profile that silently switched inputs on apply would be a trap.
pub open spec fn capturable(codes: Seq<VcpCode>) -> Seq<VcpCode> {
    codes.filter(|c: VcpCode| !vcp::destructive(c))
}

/// Whether `cs` is each code asked of a display in turn.
pub open spec fn asked_each(cs: Seq<Call>, id: DisplayId, codes: Seq<VcpCode>) -> bool {
    &&& cs.len() == codes.len()
    &&& forall|i: int| 0 <= i < cs.len() ==> engine::asks(#[trigger] cs[i], id, codes[i])
}

/// The settings that the answers make up. A code the display will not report is
/// one a profile has no business claiming to restore.
pub open spec fn settings_from(cs: Seq<Call>, codes: Seq<VcpCode>) -> Map<Seq<char>, u16>
    decreases cs.len(),
{
    if cs.len() == 0 || codes.len() == 0 {
        Map::empty()
    } else {
        let before = settings_from(cs.drop_last(), codes.drop_last());
        match cs.last()->GetVcp_result {
            Ok((current, _)) => before.insert(key_for(codes.last()), current),
            Err(_) => before,
        }
    }
}

/// Whether `cs` is some displays read, of which those that answered anything are
/// in `displays`.
pub open spec fn captured(
    cs: Seq<Call>,
    ms: Seq<Monitor>,
    all: Seq<Monitor>,
    codes: Seq<VcpCode>,
    displays: Seq<DisplayProfile>,
) -> bool
    decreases ms.len(),
{
    if ms.len() == 0 {
        cs.len() == 0 && displays.len() == 0
    } else {
        let n = cs.len() - codes.len();
        let block = cs.skip(n);
        let settings = settings_from(block, codes);
        &&& n >= 0
        &&& asked_each(block, ms.last().id, codes)
        &&& if settings == Map::<Seq<char>, u16>::empty() {
            captured(cs.take(n), ms.drop_last(), all, codes, displays)
        } else {
            &&& displays.len() > 0
            &&& displays.last().selector@ == selector_text(ms.last(), all)
            &&& displays.last().settings@ == settings
            &&& captured(cs.take(n), ms.drop_last(), all, codes, displays.drop_last())
        }
    }
}

/// A profile taken of the displays, and where it goes.
#[derive(Debug)]
pub struct Snapshot {
    pub profile: Profile,
    pub plan: SavePlan,
    pub summary: api::ProfileSummary,
}

/// Whether a result is a snapshot to be kept, or says why there is none.
pub open spec fn kept(
    displays: Seq<DisplayProfile>,
    dir: Seq<u8>,
    name: Seq<char>,
    force: bool,
    exists: bool,
    r: Result<Snapshot>,
) -> bool {
    match r {
        Ok(s) => {
            &&& s.profile.name@ == name
            &&& s.profile.displays@ == displays
            &&& profile::plans(dir, name, force, exists, Ok(s.plan))
            &&& s.summary.name@ == name
            &&& s.summary.displays == Some(displays.len() as usize)
        },
        Err(EngineError::Profile(e)) => profile::plans(dir, name, force, exists, Err(e)),
        Err(_) => false,
    }
}

/// Whether `cs` is what a request to take a profile does.
pub open spec fn saved(
    cs: Seq<Call>,
    m0: Seq<Monitor>,
    m1: Seq<Monitor>,
    dir: Seq<u8>,
    name: Seq<char>,
    codes: Seq<VcpCode>,
    force: bool,
    exists: bool,
    r: Result<Snapshot>,
) -> bool {
    if !profile::valid_name(name) {
        &&& cs.len() == 0
        &&& m1 == m0
        &&& r matches Err(EngineError::Profile(e)) && profile::names_invalid(e, name)
    } else {
        &&& cs.len() >= 1
        &&& engine::enumerated(cs.take(1), m0, m1)
        &&& match engine::fault_in(cs.take(1)) {
            Some(e) => cs.len() == 1 && r == Err::<Snapshot, EngineError>(EngineError::Backend(e)),
            None => exists|displays: Seq<DisplayProfile>| #[trigger]
                captured(
                    cs.skip(1),
                    selection::reachable(m1),
                    selection::reachable(m1),
                    capturable(codes),
                    displays,
                ) && kept(displays, dir, name, force, exists, r),
        }
    }
}

/// Filtering one more code.
proof fn lemma_capturable_next(codes: Seq<VcpCode>, i: int)
    requires
        0 <= i < codes.len(),
    ensures
        capturable(codes.take(i + 1)) == if vcp::destructive(codes[i]) {
            capturable(codes.take(i))
        } else {
            capturable(codes.take(i)).push(codes[i])
        },
{
    reveal(Seq::filter);
    assert(codes.take(i + 1).drop_last() =~= codes.take(i));
}

/// Read the codes of one display.
fn capture<B: DisplayBackend>(backend: &mut B, id: DisplayId, codes: &Vec<VcpCode>) -> (r: TextMap<
    u16,
>)
    ensures
        trace::extends(old(backend).calls(), final(backend).calls()),
        asked_each(
            trace::since(old(backend).calls(), final(backend).calls()),
            id,
            capturable(codes@),
        ),
        r@ == settings_from(
            trace::since(old(backend).calls(), final(backend).calls()),
            capturable(codes@),
        ),
{
    let ghost c0 = backend.calls();
    let mut settings: TextMap<u16> = TextMap::new();
    let mut i: usize = 0;
    proof {
        trace::lemma_same(c0);
        reveal(Seq::filter);
    }
    while i < codes.len()
        invariant
            i <= codes@.len(),
            trace::extends(c0, backend.calls()),
            asked_each(trace::since(c0, backend.calls()), id, capturable(codes@.take(i as int))),
            settings@ == settings_from(
                trace::since(c0, backend.calls()),
                capturable(codes@.take(i as int)),
            ),
        decreases codes@.len() - i,
    {
        let code = codes[i];
        proof {
            lemma_capturable_next(codes@, i as int);
        }
        if !code.is_destructive() {
            let ghost c1 = backend.calls();
            let ghost before = capturable(codes@.take(i as int));
            let answer = backend.get_vcp(id, code);
            let ghost c2 = backend.calls();
            proof {
                trace::lemma_one(c1, Call::GetVcp { id, code, result: answer });
                trace::lemma_chain(c0, c1, c2);
                assert(trace::since(c0, c2).drop_last() =~= trace::since(c0, c1));
                assert(before.push(code).drop_last() =~= before);
                assert forall|k: int| 0 <= k < trace::since(c0, c2).len() implies engine::asks(
                    #[trigger] trace::since(c0, c2)[k],
                    id,
                    before.push(code)[k],
                ) by {
                    if k < before.len() {
                        assert(trace::since(c0, c2)[k] == trace::since(c0, c1)[k]);
                    }
                }
            }
            if let Ok((current, _)) = answer {
                settings.insert(setting_key(code), current);
            }
        }
        i = i + 1;
    }
    assert(codes@.take(i as int) =~= codes@);
    settings
}

impl<B: DisplayBackend> Engine<B> {
    /// Snapshot the current state of every controllable display.
    ///
    /// Only records codes that read back successfully. Destructive codes are
    /// never captured. `exists` says whether there is a profile by this name
    /// already.
    pub fn profile_save(
        &mut self,
        name: &str,
        codes: &Vec<VcpCode>,
        force: bool,
        exists: bool,
    ) -> (r: Result<Snapshot>)
        ensures
            final(self).rest_kept(*old(self)),
            final(self).follows(*old(self)),
            saved(
                final(self).calls_since(*old(self)),
                old(self).monitors@,
                final(self).monitors@,
                old(self).profiles.dir@,
                name@,
                codes@,
                force,
                exists,
                r,
            ),
    {
        let ghost c0 = self.backend.calls();
        proof {
            trace::lemma_same(c0);
        }
        match profile::validate_name(name) {
            Ok(_) => {},
            Err(e) => return Err(EngineError::Profile(e)),
        }
        let listed = self.refresh();
        let ghost c1 = self.backend.calls();
        proof {
            assert(trace::since(c0, c1).take(1) =~= trace::since(c0, c1));
        }
        match listed {
            Ok(_) => {},
            Err(e) => return Err(e),
        }
        let monitors = selection::driven(&self.monitors);
        let ghost all = selection::reachable(self.monitors@);
        let ghost safe = capturable(codes@);
        let ghost known = self.monitors@;
        let mut displays: Vec<DisplayProfile> = Vec::new();
        let mut i: usize = 0;
        proof {
            trace::lemma_same(c1);
        }
        while i < monitors.len()
            invariant
                i <= monitors@.len(),
                monitors@.len() == all.len(),
                forall|k: int| 0 <= k < monitors@.len() ==> *(#[trigger] monitors@[k]) == all[k],
                safe == capturable(codes@),
                self.monitors@ == known,
                self.profiles == old(self).profiles,
                self.read_cooldown@ == old(self).read_cooldown@,
                self.clock == old(self).clock,
                trace::extends(c1, self.backend.calls()),
                captured(
                    trace::since(c1, self.backend.calls()),
                    all.take(i as int),
                    all,
                    safe,
                    displays@,
                ),
            decreases monitors@.len() - i,
        {
            let m = monitors[i];
            let ghost c2 = self.backend.calls();
            let settings = capture(&mut self.backend, m.id, codes);
            let ghost c3 = self.backend.calls();
            let ghost found = settings@;
            proof {
                trace::lemma_chain(c1, c2, c3);
                let n = trace::since(c1, c3).len() - safe.len();
                assert(n == trace::since(c1, c2).len());
                assert(all.take(i + 1).drop_last() =~= all.take(i as int));
                assert(all.take(i + 1).last() == *m);
            }
            if !settings.is_empty() {
                let ghost prior = displays@;
                displays.push(
                    DisplayProfile { selector: selector_for(m, &monitors, Ghost(all)), settings },
                );
                assert(displays@.drop_last() =~= prior);
            }
            i = i + 1;
        }
        assert(all.take(i as int) =~= all);
        let count: usize = displays.len();
        let ghost views = displays@;
        let profile = Profile { name: text::own(name), displays };
        proof {
            let c4 = self.backend.calls();
            trace::lemma_chain(c0, c1, c4);
            assert(captured(trace::since(c0, c4).skip(1), all, all, safe, views));
        }
        match self.profiles.save(&profile, force, exists) {
            Ok(plan) => Ok(
                Snapshot {
                    profile,
                    plan,
                    summary: api::ProfileSummary { name: text::own(name), displays: Some(count) },
                },
            ),
            Err(e) => Err(EngineError::Profile(e)),
        }
    }
}

// ── Listing, showing, deleting ─────────────────────────────────────────────

/// The number of displays in a profile, where its file holds one.
pub open spec fn size_of(name: Seq<char>, found: Reading) -> Option<usize> {
    match found {
        Reading::Parsed(p) if profile::valid_name(name) => Some(p.displays@.len() as usize),
        _ => None,
    }
}

/// Whether `r` is a profile to show, or says why there is none.
pub open spec fn shows(
    dir: Seq<u8>,
    name: Seq<char>,
    found: Reading,
    r: Result<Profile>,
) -> bool {
    match r {
        Ok(p) => profile::loads(dir, name, found, Ok(p)),
        Err(EngineError::Profile(e)) => profile::loads(dir, name, found, Err(e)),
        Err(_) => false,
    }
}

/// Whether `r` says that a profile is gone, or why it is not.
pub open spec fn deletes(name: Seq<char>, done: Removal, r: Result<()>) -> bool {
    match r {
        Ok(_) => profile::removes(name, done, Ok(())),
        Err(EngineError::Profile(e)) => profile::removes(name, done, Err(e)),
        Err(_) => false,
    }
}

impl<B: DisplayBackend> Engine<B> {
    /// The profiles by name, each with what reading its file came to.
    ///
    /// A profile that fails to parse is still worth listing; hiding it would make
    /// a typo look like the file vanished.
    pub fn profile_list(&self, found: Vec<(String, Reading)>) -> (r: Vec<api::ProfileSummary>)
        ensures
            r@.len() == found@.len(),
            forall|i: int|
                0 <= i < r@.len() ==> (#[trigger] r@[i]).name@ == found@[i].0@ && r@[i].displays
                    == size_of(found@[i].0@, found@[i].1),
    {
        let ghost all = found@;
        let mut rest = found;
        let mut back: Vec<api::ProfileSummary> = Vec::new();
        // Entries are taken from the end, so they come out reversed.
        while rest.len() > 0
            invariant
                rest@.len() <= all.len(),
                rest@ == all.take(rest@.len() as int),
                back@.len() == all.len() - rest@.len(),
                forall|i: int|
                    0 <= i < back@.len() ==> {
                        let e = all[all.len() - 1 - i];
                        (#[trigger] back@[i]).name@ == e.0@ && back@[i].displays == size_of(
                            e.0@,
                            e.1,
                        )
                    },
            decreases rest@.len(),
        {
            let ghost n = rest@.len() as int;
            if let Some((name, reading)) = rest.pop() {
                assert(all.take(n).drop_last() =~= all.take(n - 1));
                assert((name, reading) == all[n - 1]);
                let displays = match self.profiles.load(name.as_str(), reading) {
                    Ok(p) => Some(p.displays.len()),
                    Err(_) => None,
                };
                back.push(api::ProfileSummary { name, displays });
            }
        }
        let mut out: Vec<api::ProfileSummary> = Vec::new();
        while back.len() > 0
            invariant
                back@.len() + out@.len() == all.len(),
                forall|i: int|
                    0 <= i < back@.len() ==> {
                        let e = all[all.len() - 1 - i];
                        (#[trigger] back@[i]).name@ == e.0@ && back@[i].displays == size_of(
                            e.0@,
                            e.1,
                        )
                    },
                forall|i: int|
                    0 <= i < out@.len() ==> (#[trigger] out@[i]).name@ == all[i].0@
                        && out@[i].displays == size_of(all[i].0@, all[i].1),
            decreases back@.len(),
        {
            if let Some(s) = back.pop() {
                out.push(s);
            }
        }
        out
    }

    /// A profile, from what reading its file came to.
    pub fn profile_show(&self, name: &str, found: Reading) -> (r: Result<Profile>)
        ensures
            shows(self.profiles.dir@, name@, found, r),
    {
        match self.profiles.load(name, found) {
            Ok(p) => Ok(p),
            Err(e) => Err(EngineError::Profile(e)),
        }
    }

    /// Whether a profile is gone, from what removing its file came to.
    pub fn profile_delete(&self, name: &str, done: Removal) -> (r: Result<()>)
        ensures
            deletes(name@, done, r),
    {
        match self.profiles.delete(name, done) {
            Ok(_) => Ok(()),
            Err(e) => Err(EngineError::Profile(e)),
        }
    }
}

// ── Laws ───────────────────────────────────────────────────────────────────

/// Leaving separators out goes piece by piece.
proof fn lemma_unseparated_concat(a: Seq<char>, b: Seq<char>)
    ensures
        vcp::unseparated(a + b) == vcp::unseparated(a) + vcp::unseparated(b),
    decreases b.len(),
{
    if b.len() == 0 {
        assert(a + b =~= a);
        assert(vcp::unseparated(a) + vcp::unseparated(b) =~= vcp::unseparated(a));
    } else {
        lemma_unseparated_concat(a, b.drop_last());
        assert((a + b).drop_last() =~= a + b.drop_last());
        assert((a + b).last() == b.last());
        let x = vcp::unseparated(a);
        let y = vcp::unseparated(b.drop_last());
        assert(x + y.push(b.last()) =~= (x + y).push(b.last()));
    }
}

/// Whether text is small letters only.
pub open spec fn small(s: Seq<char>) -> bool {
    forall|i: int| 0 <= i < s.len() ==> 'a' <= #[trigger] s[i] <= 'z'
}

/// A key of one or two words in small letters names what the words name without
/// the hyphen.
proof fn lemma_words_name_code(first: Seq<char>, second: Seq<char>, code: VcpCode)
    requires
        small(first),
        small(second),
        first.len() > 0,
        second.len() > 0,
        vcp::code_named(first + second) == Some(code),
    ensures
        vcp::code_parsed(first + seq!['-'] + second) == Some(code),
{
    let key = first + seq!['-'] + second;
    assert(key.last() == second.last());
    text::lemma_trimmed_of_tight(key);
    assert(text::ascii_lowered(key) =~= key);
    vcp::lemma_unseparated_of_plain(first);
    vcp::lemma_unseparated_of_plain(second);
    lemma_unseparated_concat(first + seq!['-'], second);
    lemma_unseparated_concat(first, seq!['-']);
    reveal_with_fuel(vcp::unseparated, 2);
    assert(seq!['-'].drop_last() =~= Seq::<char>::empty());
    assert(vcp::unseparated(seq!['-']) =~= Seq::<char>::empty());
    assert(vcp::unseparated(key) =~= first + second);
}

/// A key of one word in small letters names what the word names.
proof fn lemma_word_names_code(word: Seq<char>, code: VcpCode)
    requires
        small(word),
        word.len() > 0,
        vcp::code_named(word) == Some(code),
    ensures
        vcp::code_parsed(word) == Some(code),
{
    text::lemma_trimmed_of_tight(word);
    assert(text::ascii_lowered(word) =~= word);
    vcp::lemma_unseparated_of_plain(word);
}

/// A key of three words in small letters names what the words name without the
/// hyphens.
proof fn lemma_three_words_name_code(
    first: Seq<char>,
    second: Seq<char>,
    third: Seq<char>,
    code: VcpCode,
)
    requires
        small(first),
        small(second),
        small(third),
        first.len() > 0,
        third.len() > 0,
        vcp::code_named(first + second + third) == Some(code),
    ensures
        vcp::code_parsed(first + seq!['-'] + second + seq!['-'] + third) == Some(code),
{
    let head = first + seq!['-'] + second;
    let key = head + seq!['-'] + third;
    assert(key[0] == first[0]);
    assert(key.last() == third.last());
    text::lemma_trimmed_of_tight(key);
    assert(text::ascii_lowered(key) =~= key);
    vcp::lemma_unseparated_of_plain(first);
    vcp::lemma_unseparated_of_plain(second);
    vcp::lemma_unseparated_of_plain(third);
    lemma_unseparated_concat(head + seq!['-'], third);
    lemma_unseparated_concat(head, seq!['-']);
    lemma_unseparated_concat(first + seq!['-'], second);
    lemma_unseparated_concat(first, seq!['-']);
    reveal_with_fuel(vcp::unseparated, 2);
    assert(seq!['-'].drop_last() =~= Seq::<char>::empty());
    assert(vcp::unseparated(seq!['-']) =~= Seq::<char>::empty());
    assert(vcp::unseparated(key) =~= first + second + third);
}

/// The key of a code that a profile may hold stands for that code when the
/// profile is applied. One that goes by its number stands for the code of that
/// number.
pub proof fn law_setting_key_reads_back(code: VcpCode)
    requires
        !vcp::destructive(code),
    ensures
        vcp::code_parsed(key_for(code)) == Some(vcp::code_of(vcp::code_number(code))),
        code !is Raw ==> vcp::code_parsed(key_for(code)) == Some(code),
{
    match code {
        VcpCode::Raw(n) => vcp::law_hex_key_reads_back(n),
        VcpCode::Brightness => {
            reveal_strlit("Brightness");
            vcp::lemma_names_differ();
            let first = seq!['b', 'r', 'i', 'g', 'h', 't', 'n', 'e', 's', 's'];
            assert(key_for(code) =~= first);
            lemma_word_names_code(first, code);
        },
        VcpCode::Contrast => {
            reveal_strlit("Contrast");
            vcp::lemma_names_differ();
            let first = seq!['c', 'o', 'n', 't', 'r', 'a', 's', 't'];
            assert(key_for(code) =~= first);
            lemma_word_names_code(first, code);
        },
        VcpCode::Volume => {
            reveal_strlit("Volume");
            vcp::lemma_names_differ();
            let first = seq!['v', 'o', 'l', 'u', 'm', 'e'];
            assert(key_for(code) =~= first);
            lemma_word_names_code(first, code);
        },
        VcpCode::Mute => {
            reveal_strlit("Mute");
            vcp::lemma_names_differ();
            let first = seq!['m', 'u', 't', 'e'];
            assert(key_for(code) =~= first);
            lemma_word_names_code(first, code);
        },
        VcpCode::Sharpness => {
            reveal_strlit("Sharpness");
            vcp::lemma_names_differ();
            let first = seq!['s', 'h', 'a', 'r', 'p', 'n', 'e', 's', 's'];
            assert(key_for(code) =~= first);
            lemma_word_names_code(first, code);
        },
        VcpCode::ColorPreset => {
            reveal_strlit("Color Preset");
            vcp::lemma_names_differ();
            let first = seq!['c', 'o', 'l', 'o', 'r'];
            let second = seq!['p', 'r', 'e', 's', 'e', 't'];
            assert(first + second =~= seq!['c', 'o', 'l', 'o', 'r', 'p', 'r', 'e', 's', 'e', 't']);
            assert(key_for(code) =~= first + seq!['-'] + second);
            lemma_words_name_code(first, second, code);
        },
        VcpCode::OsdLanguage => {
            reveal_strlit("OSD Language");
            vcp::lemma_names_differ();
            let first = seq!['o', 's', 'd'];
            let second = seq!['l', 'a', 'n', 'g', 'u', 'a', 'g', 'e'];
            assert(first + second =~= seq!['o', 's', 'd', 'l', 'a', 'n', 'g', 'u', 'a', 'g', 'e']);
            assert(key_for(code) =~= first + seq!['-'] + second);
            lemma_words_name_code(first, second, code);
        },
        VcpCode::SpeakerSelect => {
            reveal_strlit("Speaker Select");
            vcp::lemma_names_differ();
            let first = seq!['s', 'p', 'e', 'a', 'k', 'e', 'r'];
            let second = seq!['s', 'e', 'l', 'e', 'c', 't'];
            assert(first + second =~= seq!['s', 'p', 'e', 'a', 'k', 'e', 'r', 's', 'e', 'l', 'e', 'c', 't']);
            assert(key_for(code) =~= first + seq!['-'] + second);
            lemma_words_name_code(first, second, code);
        },
        VcpCode::NewControlValue => {
            reveal_strlit("New Control Value");
            vcp::lemma_names_differ();
            let first = seq!['n', 'e', 'w'];
            let second = seq!['c', 'o', 'n', 't', 'r', 'o', 'l'];
            let third = seq!['v', 'a', 'l', 'u', 'e'];
            assert(first + second + third =~= seq!['n', 'e', 'w', 'c', 'o', 'n', 't', 'r', 'o', 'l', 'v', 'a', 'l', 'u', 'e']);
            assert(key_for(code) =~= first + seq!['-'] + second + seq!['-'] + third);
            lemma_three_words_name_code(first, second, third, code);
        },
        VcpCode::RedGain => {
            reveal_strlit("Red Gain");
            vcp::lemma_names_differ();
            let first = seq!['r', 'e', 'd'];
            let second = seq!['g', 'a', 'i', 'n'];
            assert(first + second =~= seq!['r', 'e', 'd', 'g', 'a', 'i', 'n']);
            assert(key_for(code) =~= first + seq!['-'] + second);
            lemma_words_name_code(first, second, code);
        },
        VcpCode::GreenGain => {
            reveal_strlit("Green Gain");
            vcp::lemma_names_differ();
            let first = seq!['g', 'r', 'e', 'e', 'n'];
            let second = seq!['g', 'a', 'i', 'n'];
            assert(first + second =~= seq!['g', 'r', 'e', 'e', 'n', 'g', 'a', 'i', 'n']);
            assert(key_for(code) =~= first + seq!['-'] + second);
            lemma_words_name_code(first, second, code);
        },
        VcpCode::BlueGain => {
            reveal_strlit("Blue Gain");
            vcp::lemma_names_differ();
            let first = seq!['b', 'l', 'u', 'e'];
            let second = seq!['g', 'a', 'i', 'n'];
            assert(first + second =~= seq!['b', 'l', 'u', 'e', 'g', 'a', 'i', 'n']);
            assert(key_for(code) =~= first + seq!['-'] + second);
            lemma_words_name_code(first, second, code);
        },
        _ => {},
    }
}

/// Every setting that answers make up goes by the key of a code that was asked.
proof fn lemma_settings_keys(cs: Seq<Call>, codes: Seq<VcpCode>, key: Seq<char>)
    requires
        settings_from(cs, codes).contains_key(key),
        cs.len() == codes.len(),
    ensures
        exists|j: int| 0 <= j < codes.len() && key == key_for(#[trigger] codes[j]),
    decreases cs.len(),
{
    if cs.len() > 0 {
        if key == key_for(codes[codes.len() - 1]) {
        } else {
            lemma_settings_keys(cs.drop_last(), codes.drop_last(), key);
            let j = choose|j: int|
                0 <= j < codes.drop_last().len() && key == key_for(
                    #[trigger] codes.drop_last()[j],
                );
            assert(codes[j] == codes.drop_last()[j]);
        }
    }
}

/// A profile never holds a destructive code: each setting goes by the key of one
/// of the codes asked for that is not destructive.
pub proof fn law_nothing_destructive_is_captured(
    cs: Seq<Call>,
    ms: Seq<Monitor>,
    all: Seq<Monitor>,
    codes: Seq<VcpCode>,
    displays: Seq<DisplayProfile>,
    i: int,
    key: Seq<char>,
)
    requires
        captured(cs, ms, all, capturable(codes), displays),
        0 <= i < displays.len(),
        displays[i].settings@.contains_key(key),
    ensures
        exists|c: VcpCode| #[trigger]
            codes.contains(c) && !vcp::destructive(c) && key == key_for(c),
    decreases ms.len(),
{
    let safe = capturable(codes);
    let n = cs.len() - safe.len();
    let block = cs.skip(n);
    if settings_from(block, safe) == Map::<Seq<char>, u16>::empty() {
        law_nothing_destructive_is_captured(
            cs.take(n),
            ms.drop_last(),
            all,
            codes,
            displays,
            i,
            key,
        );
    } else if i == displays.len() - 1 {
        lemma_settings_keys(block, safe, key);
        let j = choose|j: int| 0 <= j < safe.len() && key == key_for(#[trigger] safe[j]);
        let p = |c: VcpCode| !vcp::destructive(c);
        assert(safe.contains(safe[j]));
        codes.lemma_filter_contains_rev(p, safe[j]);
        codes.lemma_filter_pred(p, j);
        assert(codes.contains(safe[j]));
    } else {
        assert(displays.drop_last()[i] == displays[i]);
        law_nothing_destructive_is_captured(
            cs.take(n),
            ms.drop_last(),
            all,
            codes,
            displays.drop_last(),
            i,
            key,
        );
    }
}

/// Whether a call is a display answering one of the codes, which a profile has
/// under a key, with a value.
pub open spec fn answered_with(
    call: Call,
    m: Monitor,
    codes: Seq<VcpCode>,
    key: Seq<char>,
    value: u16,
) -> bool {
    call matches Call::GetVcp { id, code, result } && id == m.id && codes.contains(code) && key_for(
        code,
    ) == key && (result matches Ok(v) && v.0 == value)
}

/// Every setting that answers make up is one of the answers.
pub proof fn lemma_settings_values(cs: Seq<Call>, m: Monitor, codes: Seq<VcpCode>, key: Seq<char>)
    requires
        asked_each(cs, m.id, codes),
        settings_from(cs, codes).contains_key(key),
    ensures
        exists|j: int|
            0 <= j < cs.len() && #[trigger] answered_with(
                cs[j],
                m,
                codes,
                key,
                settings_from(cs, codes)[key],
            ),
    decreases cs.len(),
{
    if cs.len() > 0 {
        let last = cs.len() - 1;
        let value = settings_from(cs, codes)[key];
        assert(engine::asks(cs[last], m.id, codes[last]));
        if key == key_for(codes[last]) && cs[last]->GetVcp_result is Ok {
            assert(answered_with(cs[last], m, codes, key, value));
        } else {
            let rest = cs.drop_last();
            let fewer = codes.drop_last();
            assert forall|i: int| 0 <= i < rest.len() implies engine::asks(
                #[trigger] rest[i],
                m.id,
                fewer[i],
            ) by {
                assert(engine::asks(cs[i], m.id, codes[i]));
            }
            lemma_settings_values(rest, m, fewer, key);
            let j = choose|j: int|
                0 <= j < rest.len() && #[trigger] answered_with(rest[j], m, fewer, key, value);
            let t = fewer.index_of(rest[j]->GetVcp_code);
            assert(codes[t] == fewer[t]);
            assert(answered_with(cs[j], m, codes, key, value));
        }
    }
}

/// A snapshot holds what was read and nothing else: each of its values is the
/// answer of a display that the entry's selector was made for, to the code that
/// the value is filed under.
pub proof fn law_snapshot_holds_what_was_read(
    cs: Seq<Call>,
    ms: Seq<Monitor>,
    all: Seq<Monitor>,
    codes: Seq<VcpCode>,
    displays: Seq<DisplayProfile>,
    i: int,
    key: Seq<char>,
)
    requires
        captured(cs, ms, all, codes, displays),
        0 <= i < displays.len(),
        displays[i].settings@.contains_key(key),
    ensures
        exists|k: int, j: int|
            0 <= k < cs.len() && 0 <= j < ms.len() && displays[i].selector@ == selector_text(
                ms[j],
                all,
            ) && #[trigger] answered_with(cs[k], ms[j], codes, key, displays[i].settings@[key]),
    decreases ms.len(),
{
    let n = cs.len() - codes.len();
    let block = cs.skip(n);
    let value = displays[i].settings@[key];
    let silent = settings_from(block, codes) == Map::<Seq<char>, u16>::empty();
    if !silent && i == displays.len() - 1 {
        let j = ms.len() - 1;
        lemma_settings_values(block, ms[j], codes, key);
        let b = choose|b: int|
            0 <= b < block.len() && #[trigger] answered_with(block[b], ms[j], codes, key, value);
        assert(answered_with(cs[n + b], ms[j], codes, key, value));
    } else {
        let rest = if silent {
            displays
        } else {
            displays.drop_last()
        };
        assert(rest[i] == displays[i]);
        law_snapshot_holds_what_was_read(cs.take(n), ms.drop_last(), all, codes, rest, i, key);
        let (k, j) = choose|k: int, j: int|
            0 <= k < cs.take(n).len() && 0 <= j < ms.drop_last().len() && rest[i].selector@
                == selector_text(ms.drop_last()[j], all) && #[trigger] answered_with(
                cs.take(n)[k],
                ms.drop_last()[j],
                codes,
                key,
                value,
            );
        assert(answered_with(cs[k], ms[j], codes, key, value));
    }
}

/// A display that answers nothing is left out of the profile.
pub proof fn law_silent_displays_are_left_out(
    cs: Seq<Call>,
    ms: Seq<Monitor>,
    all: Seq<Monitor>,
    codes: Seq<VcpCode>,
    displays: Seq<DisplayProfile>,
    i: int,
)
    requires
        captured(cs, ms, all, codes, displays),
        0 <= i < displays.len(),
    ensures
        displays.len() <= ms.len(),
        displays[i].settings@ != Map::<Seq<char>, u16>::empty(),
    decreases ms.len(),
{
    let n = cs.len() - codes.len();
    if settings_from(cs.skip(n), codes) == Map::<Seq<char>, u16>::empty() {
        law_silent_displays_are_left_out(cs.take(n), ms.drop_last(), all, codes, displays, i);
    } else {
        let rest = displays.drop_last();
        if rest.len() > 0 {
            let k = if i < rest.len() {
                i
            } else {
                0
            };
            law_silent_displays_are_left_out(cs.take(n), ms.drop_last(), all, codes, rest, k);
            assert(rest[k] == displays[k]);
        }
    }
}

/// The selector of a profile entry is the product name only where that name is
/// one display's alone.
pub proof fn law_shared_names_are_not_used(m: Monitor, all: Seq<Monitor>)
    requires
        namesakes(all, m.identity.product_name@) != 1,
    ensures
        selector_text(m, all) == text::decimal(m.id.0 as nat),
{
}

/// The selector of a profile entry finds the display that it was made for among
/// the same displays: where it is the id, always, and where it is the product
/// name, as long as that name is neither blank, `all` nor the id of a display,
/// and no other display's vendor or product name holds it.
pub proof fn law_selector_finds_its_display(monitors: Seq<Monitor>, m: Monitor)
    requires
        selection::reachable(monitors).contains(m),
        selector_text(m, selection::reachable(monitors)) != text::decimal(m.id.0 as nat) ==> {
            let sel = text::trimmed(m.identity.product_name@);
            &&& sel.len() > 0
            &&& text::ascii_lowered(sel) != "all"@
            &&& text::parsed_number(sel, 10, u32::MAX as nat) matches Some(n)
                ==> !selection::has_number(selection::reachable(monitors), n)
            &&& selection::named(selection::reachable(monitors), text::lowercase(sel)) == seq![m]
        },
    ensures
        selection::selection(monitors, selector_text(m, selection::reachable(monitors)))
            == selection::Selection::Ids(seq![m.id]),
{
    let c = selection::reachable(monitors);
    let n = m.id.0 as nat;
    let id = text::decimal(n);
    if selector_text(m, c) == id {
        text::lemma_decimal_reads_back(n);
        assert('0' <= id[0] <= '9');
        assert('0' <= id[id.len() - 1] <= '9');
        text::lemma_trimmed_of_tight(id);
        let i = c.index_of(m);
        assert(c[i].id.0 == n);
        selection::law_an_id_is_that_display(monitors, id, n);
    } else {
        assert(selection::ids_of(seq![m]) =~= seq![m.id]);
    }
}

/// Whether two product names are the same but for the case of their letters.
pub open spec fn like_named(a: Seq<char>, b: Seq<char>) -> bool {
    a.len() == b.len() && forall|i: int|
        0 <= i < a.len() ==> (#[trigger] a[i] == b[i] || ('A' <= a[i] <= 'Z' && b[i] as int
            == a[i] as int + 32) || ('A' <= b[i] <= 'Z' && a[i] as int == b[i] as int + 32))
}

/// An entry goes by its display's product name exactly where it has one that no other
/// attached display shares, case aside, and by its id otherwise.
pub proof fn law_entries_go_by_names_of_their_own(all: Seq<Monitor>, i: int)
    requires
        0 <= i < all.len(),
    ensures
        ({
            let name = all[i].identity.product_name@;
            let alone = forall|k: int|
                0 <= k < all.len() && k != i ==> !like_named(
                    (#[trigger] all[k]).identity.product_name@,
                    name,
                );
            selector_text(all[i], all) == (if name.len() > 0 && alone {
                name
            } else {
                text::decimal(all[i].id.0 as nat)
            })
        }),
{
    let name = all[i].identity.product_name@;
    let p = |m: Monitor| namesake(m, name);
    assert forall|k: int| 0 <= k < all.len() implies p(#[trigger] all[k]) == like_named(
        all[k].identity.product_name@,
        name,
    ) by {
        text::law_ascii_case_is_ignored(all[k].identity.product_name@, name);
    }
    assert(p(all[i]));
    if forall|k: int|
        0 <= k < all.len() && k != i ==> !like_named((#[trigger] all[k]).identity.product_name@, name) {
        assert forall|k: int| 0 <= k < all.len() && k != i implies !p(#[trigger] all[k]) by {
            assert(!like_named(all[k].identity.product_name@, name));
        }
        selection::lemma_filter(all, p, i, i);
    } else {
        let k = choose|k: int|
            0 <= k < all.len() && k != i && like_named(
                (#[trigger] all[k]).identity.product_name@,
                name,
            );
        assert(p(all[k]));
        if k < i {
            selection::lemma_filter(all, p, k, i);
        } else {
            selection::lemma_filter(all, p, i, k);
        }
    }
}

/// What is captured of a display holds every code that it answered, and nothing that
/// it did not.
proof fn lemma_answers_are_kept(cs: Seq<Call>, codes: Seq<VcpCode>, k: int)
    requires
        cs.len() == codes.len(),
        0 <= k < cs.len(),
        cs[k]->GetVcp_result is Ok,
    ensures
        settings_from(cs, codes).contains_key(key_for(codes[k])),
        (forall|j: int| 0 <= j < codes.len() && j != k ==> key_for(#[trigger] codes[j]) != key_for(codes[k]))
            ==> settings_from(cs, codes)[key_for(codes[k])] == (cs[k]->GetVcp_result->Ok_0).0,
    decreases cs.len(),
{
    let n = cs.len() - 1;
    if k < n {
        lemma_answers_are_kept(cs.drop_last(), codes.drop_last(), k);
        assert(codes.drop_last()[k] == codes[k]);
        assert(cs.drop_last()[k] == cs[k]);
        if forall|j: int|
            0 <= j < codes.len() && j != k ==> key_for(#[trigger] codes[j]) != key_for(codes[k]) {
            assert forall|j: int| 0 <= j < codes.drop_last().len() && j != k implies key_for(
                #[trigger] codes.drop_last()[j],
            ) != key_for(codes.drop_last()[k]) by {
                assert(codes[j] == codes.drop_last()[j]);
            }
            assert(key_for(codes[n]) != key_for(codes[k]));
        }
    }
}

/// Taking a profile asks every display for every code, and keeps every answer: for
/// each value that a display gave there is an entry of that display which holds it
/// under the code's key.
pub proof fn law_every_answer_is_captured(
    cs: Seq<Call>,
    ms: Seq<Monitor>,
    all: Seq<Monitor>,
    codes: Seq<VcpCode>,
    displays: Seq<DisplayProfile>,
    j: int,
    k: int,
) -> (c: int)
    requires
        captured(cs, ms, all, codes, displays),
        0 <= j < ms.len(),
        0 <= k < codes.len(),
    ensures
        0 <= c < cs.len(),
        cs[c] is GetVcp,
        cs[c]->GetVcp_id == ms[j].id,
        cs[c]->GetVcp_code == codes[k],
        cs[c]->GetVcp_result matches Ok(v) ==> exists|i: int|
            0 <= i < displays.len() && (#[trigger] displays[i]).selector@ == selector_text(ms[j], all)
                && displays[i].settings@.contains_key(key_for(codes[k])) && ((forall|o: int|
                0 <= o < codes.len() && o != k ==> key_for(#[trigger] codes[o]) != key_for(codes[k]))
                ==> displays[i].settings@[key_for(codes[k])] == v.0),
    decreases ms.len(),
{
    let n = cs.len() - codes.len();
    let block = cs.skip(n);
    let settings = settings_from(block, codes);
    let silent = settings == Map::<Seq<char>, u16>::empty();
    if j == ms.len() - 1 {
        let c = n + k;
        assert(block[k] == cs[c]);
        assert(engine::asks(block[k], ms.last().id, codes[k]));
        if cs[c]->GetVcp_result is Ok {
            lemma_answers_are_kept(block, codes, k);
            assert(settings.contains_key(key_for(codes[k])));
            assert(!silent);
            assert(displays[displays.len() - 1].settings@ == settings);
        }
        c
    } else {
        let rest = if silent {
            displays
        } else {
            displays.drop_last()
        };
        let c = law_every_answer_is_captured(cs.take(n), ms.drop_last(), all, codes, rest, j, k);
        assert(cs.take(n)[c] == cs[c]);
        if cs[c]->GetVcp_result is Ok {
            let v = cs[c]->GetVcp_result->Ok_0;
            let i = choose|i: int|
                0 <= i < rest.len() && (#[trigger] rest[i]).selector@ == selector_text(
                    ms.drop_last()[j],
                    all,
                ) && rest[i].settings@.contains_key(key_for(codes[k])) && ((forall|o: int|
                    0 <= o < codes.len() && o != k ==> key_for(#[trigger] codes[o]) != key_for(
                        codes[k],
                    )) ==> rest[i].settings@[key_for(codes[k])] == v.0);
            assert(displays[i] == rest[i]);
        }
        c
    }
}

/// The codes that are captured are those that were asked for, less those that switch
/// the input or the power, or restore factory settings.
pub proof fn law_capturable_codes_are_harmless(codes: Seq<VcpCode>, c: VcpCode)
    ensures
        capturable(codes).contains(c) == (codes.contains(c) && vcp::code_number(c) != 0x60
            && vcp::code_number(c) != 0xD6 && vcp::code_number(c) != 0x04 && vcp::code_number(c)
            != 0x05 && vcp::code_number(c) != 0x06 && vcp::code_number(c) != 0x08
            && vcp::code_number(c) != 0x0A),
{
    let p = |c: VcpCode| !vcp::destructive(c);
    broadcast use vstd::seq_lib::group_filter_ensures;
    vcp::law_destructive_codes_are_seven(c);
    if capturable(codes).contains(c) {
        codes.lemma_filter_contains_rev(p, c);
        let i = choose|i: int| 0 <= i < capturable(codes).len() && capturable(codes)[i] == c;
        assert(p(capturable(codes)[i]));
    }
    if codes.contains(c) && p(c) {
        let i = choose|i: int| 0 <= i < codes.len() && codes[i] == c;
        assert(p(codes[i]));
    }
}

/// A profile is taken of the displays that the platform lists at that moment and that
/// can be driven, and is kept exactly where its name is valid and free, or may be
/// overwritten. An invalid name touches no display.
pub proof fn law_saving_is_refused_or_done(
    cs: Seq<Call>,
    m0: Seq<Monitor>,
    m1: Seq<Monitor>,
    dir: Seq<u8>,
    name: Seq<char>,
    codes: Seq<VcpCode>,
    force: bool,
    exists: bool,
    r: Result<Snapshot>,
)
    requires
        saved(cs, m0, m1, dir, name, codes, force, exists, r),
    ensures
        !profile::valid_name(name) ==> cs.len() == 0 && m1 == m0 && r is Err && r->Err_0 is Profile
            && r->Err_0->Profile_0 is InvalidName && r->Err_0->Profile_0->InvalidName_0@ == name,
        profile::valid_name(name) ==> cs.len() >= 1 && cs[0] is List,
        profile::valid_name(name) && cs[0]->List_result is Ok ==> m1 == cs[0]->List_result->Ok_0@
            && (r is Ok) == (force || !exists),
        profile::valid_name(name) && cs[0]->List_result is Err ==> r is Err && cs.len() == 1,
        r matches Ok(s) ==> s.profile.name@ == name && s.summary.name@ == name
            && s.summary.displays == Some(s.profile.displays@.len() as usize),
{
    if profile::valid_name(name) {
        assert(cs.take(1)[0] == cs[0]);
        assert(cs.take(1).last() == cs[0]);
    }
}

/// Taking a profile asks every display for every code, one after the other, and nothing
/// else.
pub proof fn law_every_display_is_asked_for_every_code(
    cs: Seq<Call>,
    ms: Seq<Monitor>,
    all: Seq<Monitor>,
    codes: Seq<VcpCode>,
    displays: Seq<DisplayProfile>,
    d: int,
    c: int,
)
    requires
        captured(cs, ms, all, codes, displays),
    ensures
        cs.len() == ms.len() * codes.len(),
        0 <= d < ms.len() && 0 <= c < codes.len() ==> {
            let e = cs[d * codes.len() + c];
            &&& 0 <= d * codes.len() + c < cs.len()
            &&& e is GetVcp
            &&& e->GetVcp_id == ms[d].id
            &&& e->GetVcp_code == codes[c]
        },
    decreases ms.len(),
{
    let k = codes.len() as int;
    if ms.len() > 0 {
        let n = cs.len() - k;
        let rest = ms.drop_last();
        let silent = settings_from(cs.skip(n), codes) == Map::<Seq<char>, u16>::empty();
        let before = if silent {
            displays
        } else {
            displays.drop_last()
        };
        law_every_display_is_asked_for_every_code(cs.take(n), rest, all, codes, before, d, c);
        let size = ms.len() as int;
        assert(size * k == (size - 1) * k + k) by (nonlinear_arith);
        if 0 <= d < ms.len() && 0 <= c < k {
            if d < rest.len() {
                assert(rest[d] == ms[d]);
                assert(cs.take(n)[d * k + c] == cs[d * k + c]);
            } else {
                assert(d * k == n) by (nonlinear_arith)
                    requires
                        d == size - 1,
                        n == (size - 1) * k,
                ;
                assert(cs.skip(n)[c] == cs[n + c]);
                assert(crate::daemon::engine::asks(cs.skip(n)[c], ms.last().id, codes[c]));
            }
        }
    } else {
        assert(0 * k == 0);
    }
}

} // verus!
