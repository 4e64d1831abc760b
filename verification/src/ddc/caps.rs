//! Capability string parsing.
//!
//! Format: `(prot(monitor)type(lcd)model(X)cmds(01 02)vcp(10 12 60(0F 11))…)`.
//!
//! Real monitors emit malformed strings: unbalanced parens, stray whitespace,
//! junk sections, truncated tails. A capability string is *informational*, so
//! the parser is deliberately tolerant: it salvages what it can and never fails
//! on structure alone. Refusing to parse would mean refusing to control a
//! monitor that otherwise works fine.

use crate::ddc::vcp;
use crate::ddc::vcp::VcpCode;
use crate::ddc::{Error, Fault, Result};
use crate::text;
use vstd::prelude::*;

verus! {

/// One entry from the `vcp(...)` list.
#[derive(Debug, Clone, PartialEq, Eq)]
pub struct VcpFeature {
    pub code: VcpCode,
    /// Permitted values for non-continuous codes; empty for continuous ones.
    pub values: Vec<u8>,
}

/// What a monitor says of itself.
#[derive(Debug, Clone, PartialEq, Eq)]
pub struct Capabilities {
    pub raw: String,
    pub protocol: Option<String>,
    pub display_type: Option<String>,
    pub model: Option<String>,
    pub mccs_version: Option<String>,
    pub commands: Vec<u8>,
    pub vcp: Vec<VcpFeature>,
    /// Sections that were present but not understood. Surfaced rather than
    /// dropped: unknown sections are exactly what the capability explorer wants
    /// to collect.
    pub unknown_sections: Vec<String>,
}

/// A code with its permitted values.
pub type Feature = (VcpCode, Seq<u8>);

/// The features of a list.
pub open spec fn features_of(v: Seq<VcpFeature>) -> Seq<Feature> {
    Seq::new(v.len(), |i: int| (v[i].code, v[i].values@))
}

impl Default for Capabilities {
    fn default() -> (c: Capabilities)
        ensures
            c.raw@.len() == 0,
            c.protocol is None,
            c.display_type is None,
            c.model is None,
            c.mccs_version is None,
            c.commands@.len() == 0,
            c.vcp@.len() == 0,
            c.unknown_sections@.len() == 0,
    {
        Capabilities {
            raw: String::new(),
            protocol: None,
            display_type: None,
            model: None,
            mccs_version: None,
            commands: Vec::new(),
            vcp: Vec::new(),
            unknown_sections: Vec::new(),
        }
    }
}

/// Whether the list has an entry for `code`.
pub open spec fn advertises(v: Seq<VcpFeature>, code: VcpCode) -> bool {
    exists|i: int| 0 <= i < v.len() && (#[trigger] v[i]).code == code
}

/// Whether entry `i` is the first one for `code`.
pub open spec fn first_for(v: Seq<VcpFeature>, code: VcpCode, i: int) -> bool {
    &&& 0 <= i < v.len()
    &&& v[i].code == code
    &&& forall|j: int| 0 <= j < i ==> (#[trigger] v[j]).code != code
}

impl Capabilities {
    /// Whether the monitor advertises a code.
    pub fn supports(&self, code: VcpCode) -> (b: bool)
        ensures
            b == advertises(self.vcp@, code),
    {
        self.feature(code).is_some()
    }

    /// The first entry for a code.
    pub fn feature(&self, code: VcpCode) -> (r: Option<&VcpFeature>)
        ensures
            match r {
                Some(f) => exists|i: int| first_for(self.vcp@, code, i) && *f == self.vcp@[i],
                None => !advertises(self.vcp@, code),
            },
            r is Some <==> advertises(self.vcp@, code),
    {
        let mut i: usize = 0;
        while i < self.vcp.len()
            invariant
                i <= self.vcp@.len(),
                forall|j: int| 0 <= j < i ==> (#[trigger] self.vcp@[j]).code != code,
            decreases self.vcp@.len() - i,
        {
            if self.vcp[i].code == code {
                assert(first_for(self.vcp@, code, i as int));
                return Some(&self.vcp[i]);
            }
            i = i + 1;
        }
        None
    }
}

// ── Sections ───────────────────────────────────────────────────────────────

/// The position of the parenthesis that closes what is open to `depth` before
/// position `i`, or the end of the text where none does.
pub open spec fn closing(s: Seq<char>, i: int, depth: nat) -> int
    decreases s.len() - i,
{
    if i >= s.len() {
        s.len() as int
    } else if s[i] == '(' {
        closing(s, i + 1, depth + 1)
    } else if s[i] == ')' {
        if depth <= 1 {
            i
        } else {
            closing(s, i + 1, (depth - 1) as nat)
        }
    } else {
        closing(s, i + 1, depth)
    }
}

/// A closing parenthesis is never before the place it is looked for from.
pub proof fn lemma_closing_ahead(s: Seq<char>, i: int, depth: nat)
    requires
        i <= s.len(),
    ensures
        i <= closing(s, i, depth) <= s.len(),
    decreases s.len() - i,
{
    if i < s.len() {
        if s[i] == '(' {
            lemma_closing_ahead(s, i + 1, depth + 1);
        } else if s[i] == ')' {
            if depth > 1 {
                lemma_closing_ahead(s, i + 1, (depth - 1) as nat);
            }
        } else {
            lemma_closing_ahead(s, i + 1, depth);
        }
    }
}

/// Find the parenthesis that closes one opened just before `start`.
fn find_closing(s: &Vec<char>, start: usize) -> (j: usize)
    requires
        1 <= start <= s@.len(),
    ensures
        j == closing(s@, start as int, 1),
        start <= j <= s@.len(),
{
    let mut depth: usize = 1;
    let mut j: usize = start;
    while j < s.len()
        invariant
            1 <= start <= j <= s@.len(),
            1 <= depth <= 1 + (j - start),
            closing(s@, start as int, 1) == closing(s@, j as int, depth as nat),
        decreases s@.len() - j,
    {
        if s[j] == '(' {
            depth = depth + 1;
        } else if s[j] == ')' {
            if depth == 1 {
                return j;
            }
            depth = depth - 1;
        }
        j = j + 1;
    }
    j
}

/// A section: its name and its body.
pub type Section = (Seq<char>, Seq<char>);

/// A section as a list: none where it has no name.
pub open spec fn section(name: Seq<char>, body: Seq<char>) -> Seq<Section> {
    let key = text::trimmed(name);
    if key.len() == 0 {
        Seq::empty()
    } else {
        seq![(key, body)]
    }
}

/// The sections of `name(body)name2(body2)…` from position `i` on, where `name`
/// is the text that stands before it. A section that is never closed has the
/// rest of the text for its body.
pub open spec fn sections_from(s: Seq<char>, i: int, name: Seq<char>) -> Seq<Section>
    decreases s.len() + 1 - i,
{
    if i < 0 || i >= s.len() {
        Seq::empty()
    } else if s[i] == '(' {
        let j = closing(s, i + 1, 1);
        proof {
            lemma_closing_ahead(s, i + 1, 1);
        }
        section(name, s.subrange(i + 1, j)) + sections_from(s, j + 1, Seq::empty())
    } else if s[i] == ')' {
        sections_from(s, i + 1, Seq::empty())
    } else {
        sections_from(s, i + 1, name.push(s[i]))
    }
}

/// The sections of a text.
pub open spec fn sections(s: Seq<char>) -> Seq<Section> {
    sections_from(s, 0, Seq::empty())
}

/// The sections that a list of pairs holds.
pub open spec fn sections_of(v: Seq<(String, String)>) -> Seq<Section> {
    Seq::new(v.len(), |i: int| (v[i].0@, v[i].1@))
}

/// Split `name(body)name2(body2)` into pairs, tracking nesting depth.
///
/// Unclosed sections are returned with whatever body was captured, so a
/// truncated string still yields its earlier sections.
pub fn split_sections(s: &str) -> (r: Vec<(String, String)>)
    ensures
        sections_of(r@) == sections(s@),
{
    let b = text::chars_of(s);
    let size: usize = b.len();
    let mut out: Vec<(String, String)> = Vec::new();
    let mut name = String::new();
    let mut i: usize = 0;
    assert(name@ =~= Seq::<char>::empty());
    while i < size
        invariant
            b@ == s@,
            size == b@.len(),
            i <= size,
            sections_of(out@) + sections_from(s@, i as int, name@) == sections(s@),
        decreases size - i,
    {
        let c: char = b[i];
        if c == '(' {
            let j: usize = find_closing(&b, i + 1);
            let body = text::string_from(&b, i + 1, j);
            let key = text::trim(name.as_str());
            let ghost done = sections_of(out@);
            let ghost tail = sections_from(s@, j + 1, Seq::empty());
            let ghost this = section(name@, body@);
            if !text::empty(key.as_str()) {
                out.push((key, body));
            }
            assert(sections_of(out@) =~= done + this);
            assert(done + (this + tail) =~= (done + this) + tail);
            name = String::new();
            assert(name@ =~= Seq::<char>::empty());
            i = if j < size {
                j + 1
            } else {
                size
            };
        } else if c == ')' {
            name = String::new();
            assert(name@ =~= Seq::<char>::empty());
            i = i + 1;
        } else {
            name.push(c);
            i = i + 1;
        }
    }
    assert(sections_of(out@) =~= sections(s@));
    out
}

// ── Lists of numbers ───────────────────────────────────────────────────────

/// The bytes that words spell in hexadecimal, other words left out.
pub open spec fn hex_bytes(words: Seq<Seq<char>>) -> Seq<u8>
    decreases words.len(),
{
    if words.len() == 0 {
        Seq::empty()
    } else {
        match text::parsed_number(words.last(), 16, 255) {
            Some(n) => hex_bytes(words.drop_last()).push(n as u8),
            None => hex_bytes(words.drop_last()),
        }
    }
}

/// The bytes of a list like `01 02 0C E3`.
pub open spec fn hex_list(s: Seq<char>) -> Seq<u8> {
    hex_bytes(text::words(s))
}

/// Parse a hex byte list like `01 02 0C E3`, skipping unparseable tokens.
pub fn parse_hex_list(s: &str) -> (r: Vec<u8>)
    ensures
        r@ == hex_list(s@),
{
    let words = text::split_words(s);
    let ghost all = text::texts(words@);
    let mut out: Vec<u8> = Vec::new();
    let mut i: usize = 0;
    while i < words.len()
        invariant
            i <= words@.len(),
            all == text::texts(words@),
            out@ == hex_bytes(all.take(i as int)),
        decreases words@.len() - i,
    {
        assert(all.take(i + 1).drop_last() =~= all.take(i as int));
        if let Some(n) = text::parse_number(words[i].as_str(), 16, 255) {
            out.push(n as u8);
        }
        i = i + 1;
    }
    assert(all.take(i as int) =~= all);
    out
}

/// `acc` and the code that `token` spells, where it spells one.
pub open spec fn committed(token: Seq<char>, acc: Seq<Feature>) -> Seq<Feature> {
    match text::parsed_number(text::trimmed(token), 16, 255) {
        Some(n) => acc.push((vcp::code_of(n as u8), Seq::empty())),
        None => acc,
    }
}

/// Whether the last word up to and with `token` spells a code, where `fit` says
/// so of the words before it.
pub open spec fn fits(token: Seq<char>, fit: bool) -> bool {
    if text::trimmed(token).len() == 0 {
        fit
    } else {
        text::parsed_number(text::trimmed(token), 16, 255) is Some
    }
}

/// `acc` with the values of its last code replaced, where they belong to a code.
pub open spec fn attached(acc: Seq<Feature>, values: Seq<u8>, fit: bool) -> Seq<Feature> {
    if acc.len() == 0 || !fit {
        acc
    } else {
        acc.drop_last().push((acc.last().0, values))
    }
}

/// The features of a `vcp(...)` body from position `i` on, where `token` is the
/// part of a code that stands before it, `acc` the features so far and `fit`
/// whether the last word before the token spelled a code.
///
/// A code is committed when whitespace or '(' ends its token; '(' additionally
/// attaches a value list to the code just committed. A list behind a word that is
/// no code belongs to no code.
pub open spec fn features_from(
    s: Seq<char>,
    i: int,
    token: Seq<char>,
    acc: Seq<Feature>,
    fit: bool,
) -> Seq<Feature>
    decreases s.len() + 1 - i,
{
    if i < 0 || i >= s.len() {
        committed(token, acc)
    } else if s[i] == '(' {
        let j = closing(s, i + 1, 1);
        proof {
            lemma_closing_ahead(s, i + 1, 1);
        }
        features_from(
            s,
            j + 1,
            Seq::empty(),
            attached(
                committed(token, acc),
                hex_list(s.subrange(i + 1, j)),
                fits(token, fit),
            ),
            fits(token, fit),
        )
    } else if text::is_space(s[i]) {
        features_from(s, i + 1, Seq::empty(), committed(token, acc), fits(token, fit))
    } else {
        features_from(s, i + 1, token.push(s[i]), acc, fit)
    }
}

/// The features of a `vcp(...)` body: codes, each optionally followed by a value
/// list.
pub open spec fn features(s: Seq<char>) -> Seq<Feature> {
    features_from(s, 0, Seq::empty(), Seq::empty(), false)
}

/// Commit the code that `token` spells, and say whether the last word spelled one.
fn commit(token: &str, out: &mut Vec<VcpFeature>, fit: bool) -> (r: bool)
    ensures
        features_of(final(out)@) == committed(token@, features_of(old(out)@)),
        r == fits(token@, fit),
{
    let t = text::trim(token);
    let ghost before = features_of(out@);
    if let Some(n) = text::parse_number(t.as_str(), 16, 255) {
        out.push(VcpFeature { code: VcpCode::from_code(n as u8), values: Vec::new() });
        assert(features_of(out@) =~= before.push((vcp::code_of(n as u8), Seq::empty())));
        return true;
    }
    text::empty(t.as_str()) && fit
}

/// Parse the `vcp(...)` body: codes, each optionally followed by a value list.
pub fn parse_vcp_list(s: &str) -> (r: Vec<VcpFeature>)
    ensures
        features_of(r@) == features(s@),
{
    let chars = text::chars_of(s);
    let size: usize = chars.len();
    let mut out: Vec<VcpFeature> = Vec::new();
    let mut token = String::new();
    let mut fit: bool = false;
    let mut i: usize = 0;
    assert(token@ =~= Seq::<char>::empty());
    assert(features_of(out@) =~= Seq::<Feature>::empty());
    while i < size
        invariant
            chars@ == s@,
            size == chars@.len(),
            i <= size,
            features_from(s@, i as int, token@, features_of(out@), fit) == features(s@),
        decreases size - i,
    {
        let c: char = chars[i];
        if c == '(' {
            fit = commit(token.as_str(), &mut out, fit);
            let j: usize = find_closing(&chars, i + 1);
            let body = text::string_from(&chars, i + 1, j);
            let ghost before = features_of(out@);
            if fit {
                if let Some(last) = out.pop() {
                    let values = parse_hex_list(body.as_str());
                    let ghost list = values@;
                    out.push(VcpFeature { code: last.code, values });
                    assert(features_of(out@) =~= before.drop_last().push((last.code, list)));
                }
            }
            assert(features_of(out@) =~= attached(before, hex_list(body@), fit));
            token = String::new();
            assert(token@ =~= Seq::<char>::empty());
            i = if j < size {
                j + 1
            } else {
                size
            };
            assert(features_from(s@, j + 1, token@, features_of(out@), fit) == features_from(
                s@,
                i as int,
                token@,
                features_of(out@),
                fit,
            ));
        } else if text::space(c) {
            fit = commit(token.as_str(), &mut out, fit);
            token = String::new();
            assert(token@ =~= Seq::<char>::empty());
            i = i + 1;
        } else {
            token.push(c);
            i = i + 1;
        }
    }
    commit(token.as_str(), &mut out, fit);
    out
}

// ── The whole string ───────────────────────────────────────────────────────

/// The text inside the outer wrapper, where there is one.
pub open spec fn unwrapped(t: Seq<char>) -> Seq<char> {
    if t.len() > 0 && t[0] == '(' {
        let s = t.drop_first();
        if s.len() > 0 && s.last() == ')' {
            s.drop_last()
        } else {
            s
        }
    } else {
        t
    }
}

/// The body of the last section of a name, case aside.
pub open spec fn last_body(secs: Seq<Section>, key: Seq<char>) -> Option<Seq<char>>
    decreases secs.len(),
{
    if secs.len() == 0 {
        None
    } else if text::ascii_lowered(secs.last().0) == key {
        Some(secs.last().1)
    } else {
        last_body(secs.drop_last(), key)
    }
}

/// The trimmed body of the last section of a name.
pub open spec fn label_of(secs: Seq<Section>, key: Seq<char>) -> Option<Seq<char>> {
    match last_body(secs, key) {
        Some(b) => Some(text::trimmed(b)),
        None => None,
    }
}

/// The bytes that the last `cmds` section lists.
pub open spec fn commands_of(secs: Seq<Section>) -> Seq<u8> {
    match last_body(secs, "cmds"@) {
        Some(b) => hex_list(b),
        None => Seq::empty(),
    }
}

/// The features that the last `vcp` section lists.
pub open spec fn vcp_of(secs: Seq<Section>) -> Seq<Feature> {
    match last_body(secs, "vcp"@) {
        Some(b) => features(b),
        None => Seq::empty(),
    }
}

/// Whether a lowered section name is one that the parser understands.
pub open spec fn understood(key: Seq<char>) -> bool {
    ||| key == "prot"@
    ||| key == "type"@
    ||| key == "model"@
    ||| key == "mccs_ver"@
    ||| key == "cmds"@
    ||| key == "vcp"@
}

/// The names of the sections that the parser does not understand, in order.
pub open spec fn unknown_of(secs: Seq<Section>) -> Seq<Seq<char>>
    decreases secs.len(),
{
    if secs.len() == 0 {
        Seq::empty()
    } else if understood(text::ascii_lowered(secs.last().0)) {
        unknown_of(secs.drop_last())
    } else {
        unknown_of(secs.drop_last()).push(secs.last().0)
    }
}

/// Whether `c` holds what sections say.
pub open spec fn holds(c: Capabilities, secs: Seq<Section>) -> bool {
    &&& text::opt_text(c.protocol) == label_of(secs, "prot"@)
    &&& text::opt_text(c.display_type) == label_of(secs, "type"@)
    &&& text::opt_text(c.model) == label_of(secs, "model"@)
    &&& text::opt_text(c.mccs_version) == label_of(secs, "mccs_ver"@)
    &&& c.commands@ == commands_of(secs)
    &&& features_of(c.vcp@) == vcp_of(secs)
    &&& text::texts(c.unknown_sections@) == unknown_of(secs)
}

/// The sections of a capability string.
pub open spec fn sections_in(raw: Seq<char>) -> Seq<Section> {
    sections(unwrapped(text::trimmed(raw)))
}

/// Whether anything meaningful can be recovered from sections.
pub open spec fn meaningful(secs: Seq<Section>) -> bool {
    ||| vcp_of(secs).len() > 0
    ||| commands_of(secs).len() > 0
    ||| last_body(secs, "prot"@) is Some
    ||| last_body(secs, "type"@) is Some
    ||| last_body(secs, "model"@) is Some
    ||| last_body(secs, "mccs_ver"@) is Some
}

/// Parse a capability string.
///
/// Fails only if nothing meaningful could be recovered.
pub fn parse(raw: &str) -> (r: Result<Capabilities>)
    ensures
        match r {
            Ok(c) => meaningful(sections_in(raw@)) && c.raw@ == raw@ && holds(c, sections_in(raw@)),
            Err(e) => !meaningful(sections_in(raw@)) && e@ == Fault::CapabilityParse(
                "no recognisable sections in "@ + text::quoted(raw@),
            ),
        },
{
    let trimmed = text::trim(raw);
    let cs = text::chars_of(trimmed.as_str());
    // Strip the outer wrapper if present; tolerate its absence.
    let size: usize = cs.len();
    let inner = if size > 0 && cs[0] == '(' {
        if size > 1 && cs[size - 1] == ')' {
            text::string_from(&cs, 1, size - 1)
        } else {
            text::string_from(&cs, 1, size)
        }
    } else {
        trimmed
    };
    assert(inner@ =~= unwrapped(text::trimmed(raw@)));
    let list = split_sections(inner.as_str());
    let ghost secs = sections_of(list@);
    let mut caps = Capabilities::default();
    caps.raw = text::own(raw);
    let mut i: usize = 0;
    assert(caps.commands@ =~= Seq::<u8>::empty());
    assert(features_of(caps.vcp@) =~= Seq::<Feature>::empty());
    assert(text::texts(caps.unknown_sections@) =~= Seq::<Seq<char>>::empty());
    while i < list.len()
        invariant
            i <= list@.len(),
            secs == sections_of(list@),
            caps.raw@ == raw@,
            holds(caps, secs.take(i as int)),
        decreases list@.len() - i,
    {
        proof {
            reveal_strlit("prot");
            reveal_strlit("type");
            reveal_strlit("model");
            reveal_strlit("mccs_ver");
            reveal_strlit("cmds");
            reveal_strlit("vcp");
            assert("prot"@[0] == 'p' && "type"@[0] == 't' && "cmds"@[0] == 'c');
            assert("model"@.len() == 5 && "mccs_ver"@.len() == 8 && "vcp"@.len() == 3);
        }
        let key = text::lower_ascii(list[i].0.as_str());
        let body = list[i].1.as_str();
        let ghost next = secs.take(i + 1);
        assert(next.drop_last() =~= secs.take(i as int));
        assert(next.last() == (list@[i as int].0@, list@[i as int].1@));
        if text::same(key.as_str(), "prot") {
            caps.protocol = Some(text::trim(body));
        } else if text::same(key.as_str(), "type") {
            caps.display_type = Some(text::trim(body));
        } else if text::same(key.as_str(), "model") {
            caps.model = Some(text::trim(body));
        } else if text::same(key.as_str(), "mccs_ver") {
            caps.mccs_version = Some(text::trim(body));
        } else if text::same(key.as_str(), "cmds") {
            caps.commands = parse_hex_list(body);
        } else if text::same(key.as_str(), "vcp") {
            caps.vcp = parse_vcp_list(body);
        } else {
            let ghost before = text::texts(caps.unknown_sections@);
            caps.unknown_sections.push(list[i].0.clone());
            assert(text::texts(caps.unknown_sections@) =~= before.push(list@[i as int].0@));
        }
        i = i + 1;
        assert(holds(caps, next));
    }
    assert(secs.take(i as int) =~= secs);
    if caps.vcp.len() == 0 && caps.commands.len() == 0 && caps.protocol.is_none()
        && caps.display_type.is_none() && caps.model.is_none() && caps.mccs_version.is_none() {
        return Err(
            Error::CapabilityParse(
                text::after("no recognisable sections in ", text::quote(raw).as_str()),
            ),
        );
    }
    Ok(caps)
}

// ── Laws ───────────────────────────────────────────────────────────────────

/// Where a parenthesis closes does not depend on what stands before it.
proof fn lemma_closing_shift(p: Seq<char>, b: Seq<char>, k: int, depth: nat)
    requires
        0 <= k <= b.len(),
    ensures
        closing(p + b, p.len() + k, depth) == p.len() + closing(b, k, depth),
    decreases b.len() - k,
{
    if k < b.len() {
        assert((p + b)[p.len() + k] == b[k]);
        if b[k] == '(' {
            lemma_closing_shift(p, b, k + 1, depth + 1);
        } else if b[k] == ')' {
            if depth > 1 {
                lemma_closing_shift(p, b, k + 1, (depth - 1) as nat);
            }
        } else {
            lemma_closing_shift(p, b, k + 1, depth);
        }
    }
}

/// Where a parenthesis closes does not depend on what stands behind it.
proof fn lemma_closing_prefix(a: Seq<char>, b: Seq<char>, k: int, depth: nat)
    requires
        0 <= k <= a.len(),
        closing(a, k, depth) < a.len(),
    ensures
        closing(a + b, k, depth) == closing(a, k, depth),
    decreases a.len() - k,
{
    if k < a.len() {
        assert((a + b)[k] == a[k]);
        if a[k] == '(' {
            lemma_closing_prefix(a, b, k + 1, depth + 1);
        } else if a[k] == ')' {
            if depth > 1 {
                lemma_closing_prefix(a, b, k + 1, (depth - 1) as nat);
            }
        } else {
            lemma_closing_prefix(a, b, k + 1, depth);
        }
    }
}

/// Whether every parenthesis that `a` opens from `i` on is closed in `a`.
pub open spec fn settled(a: Seq<char>, i: int) -> bool
    decreases a.len() + 1 - i,
{
    if i < 0 || i >= a.len() {
        true
    } else if a[i] == '(' {
        let j = closing(a, i + 1, 1);
        proof {
            lemma_closing_ahead(a, i + 1, 1);
        }
        j < a.len() && settled(a, j + 1)
    } else {
        settled(a, i + 1)
    }
}

/// Being settled does not depend on what stands before.
proof fn lemma_settled_shift(p: Seq<char>, b: Seq<char>, k: int)
    requires
        0 <= k <= b.len(),
    ensures
        settled(p + b, p.len() + k) == settled(b, k),
    decreases b.len() - k,
{
    if k < b.len() {
        assert((p + b)[p.len() + k] == b[k]);
        if b[k] == '(' {
            lemma_closing_ahead(b, k + 1, 1);
            lemma_closing_shift(p, b, k + 1, 1);
            if closing(b, k + 1, 1) < b.len() {
                lemma_settled_shift(p, b, closing(b, k + 1, 1) + 1);
            }
        } else {
            lemma_settled_shift(p, b, k + 1);
        }
    }
}

/// Two settled texts stay settled side by side.
proof fn lemma_settled_join(a: Seq<char>, sp: char, b: Seq<char>, i: int)
    requires
        0 <= i <= a.len(),
        sp != '(',
        settled(a, i),
        settled(b, 0),
    ensures
        settled(a + seq![sp] + b, i),
    decreases a.len() - i,
{
    let s = a + seq![sp] + b;
    assert(s =~= a + (seq![sp] + b));
    if i == a.len() {
        assert(s[i] == sp);
        assert(s =~= (a + seq![sp]) + b);
        lemma_settled_shift(a + seq![sp], b, 0);
    } else {
        assert(s[i] == a[i]);
        if a[i] == '(' {
            lemma_closing_ahead(a, i + 1, 1);
            lemma_closing_prefix(a, seq![sp] + b, i + 1, 1);
            lemma_settled_join(a, sp, b, closing(a, i + 1, 1) + 1);
        } else {
            lemma_settled_join(a, sp, b, i + 1);
        }
    }
}

/// Features do not depend on what stands before the place they are read from.
proof fn lemma_features_shift(
    p: Seq<char>,
    b: Seq<char>,
    k: int,
    token: Seq<char>,
    acc: Seq<Feature>,
    fit: bool,
)
    requires
        0 <= k <= b.len(),
    ensures
        features_from(p + b, p.len() + k, token, acc, fit) == features_from(b, k, token, acc, fit),
    decreases b.len() - k,
{
    let s = p + b;
    if k < b.len() {
        assert(s[p.len() + k] == b[k]);
        if b[k] == '(' {
            let j = closing(b, k + 1, 1);
            lemma_closing_ahead(b, k + 1, 1);
            lemma_closing_shift(p, b, k + 1, 1);
            let now = fits(token, fit);
            let done = attached(committed(token, acc), hex_list(b.subrange(k + 1, j)), now);
            assert(s.subrange(p.len() + k + 1, p.len() + j) =~= b.subrange(k + 1, j));
            if j < b.len() {
                lemma_features_shift(p, b, j + 1, Seq::empty(), done, now);
            } else {
                assert(features_from(s, p.len() + j + 1, Seq::empty(), done, now) == committed(
                    Seq::empty(),
                    done,
                ));
                assert(features_from(b, j + 1, Seq::empty(), done, now) == committed(
                    Seq::empty(),
                    done,
                ));
            }
        } else if text::is_space(b[k]) {
            lemma_features_shift(
                p,
                b,
                k + 1,
                Seq::empty(),
                committed(token, acc),
                fits(token, fit),
            );
        } else {
            lemma_features_shift(p, b, k + 1, token.push(b[k]), acc, fit);
        }
    }
}

/// White space behind settled text parts the features.
proof fn lemma_features_part(
    a: Seq<char>,
    b: Seq<char>,
    i: int,
    token: Seq<char>,
    acc: Seq<Feature>,
    fit: bool,
)
    requires
        0 <= i <= a.len(),
        settled(a, i),
    ensures
        exists|f: bool|
            features_from(a + seq![' '] + b, i, token, acc, fit) == #[trigger] features_from(
                b,
                0,
                Seq::empty(),
                features_from(a, i, token, acc, fit),
                f,
            ),
    decreases a.len() - i,
{
    let s = a + seq![' '] + b;
    assert(s =~= a + (seq![' '] + b));
    if i == a.len() {
        assert(s[i] == ' ');
        assert(s =~= (a + seq![' ']) + b);
        let now = fits(token, fit);
        lemma_features_shift(a + seq![' '], b, 0, Seq::empty(), committed(token, acc), now);
        assert(features_from(s, i, token, acc, fit) == features_from(
            b,
            0,
            Seq::empty(),
            features_from(a, i, token, acc, fit),
            now,
        ));
    } else {
        assert(s[i] == a[i]);
        let now = fits(token, fit);
        let known = features_from(a, i, token, acc, fit);
        if a[i] == '(' {
            let j = closing(a, i + 1, 1);
            lemma_closing_ahead(a, i + 1, 1);
            lemma_closing_prefix(a, seq![' '] + b, i + 1, 1);
            assert(s.subrange(i + 1, j) =~= a.subrange(i + 1, j));
            let next = attached(committed(token, acc), hex_list(a.subrange(i + 1, j)), now);
            lemma_features_part(a, b, j + 1, Seq::empty(), next, now);
            assert(known == features_from(a, j + 1, Seq::empty(), next, now));
            assert(features_from(s, i, token, acc, fit) == features_from(
                s,
                j + 1,
                Seq::empty(),
                next,
                now,
            ));
        } else if text::is_space(a[i]) {
            lemma_features_part(a, b, i + 1, Seq::empty(), committed(token, acc), now);
        } else {
            lemma_features_part(a, b, i + 1, token.push(a[i]), acc, fit);
        }
        let f = choose|f: bool|
            features_from(s, i, token, acc, fit) == #[trigger] features_from(
                b,
                0,
                Seq::empty(),
                known,
                f,
            );
        assert(features_from(s, i, token, acc, fit) == features_from(
            b,
            0,
            Seq::empty(),
            known,
            f,
        ));
    }
}

/// Bytes as two hexadecimal digits each.
pub open spec fn hex_words(values: Seq<u8>) -> Seq<Seq<char>> {
    Seq::new(values.len(), |i: int| text::hex(values[i] as nat, 2, true))
}

/// Bytes as a list like `01 02 0C E3`.
pub open spec fn written_list(values: Seq<u8>) -> Seq<char> {
    text::joined(hex_words(values), seq![' '])
}

/// The bytes that hexadecimal words spell.
proof fn lemma_hex_bytes(values: Seq<u8>)
    ensures
        hex_bytes(hex_words(values)) == values,
    decreases values.len(),
{
    if values.len() == 0 {
        assert(hex_bytes(hex_words(values)) =~= values);
    } else {
        lemma_hex_bytes(values.drop_last());
        assert(hex_words(values).drop_last() =~= hex_words(values.drop_last()));
        text::lemma_hex_pair(values.last());
        assert(values.drop_last().push(values.last()) =~= values);
    }
}

/// A written list of bytes is read back.
pub proof fn law_hex_list_reads_back(values: Seq<u8>)
    ensures
        hex_list(written_list(values)) == values,
{
    let ws = hex_words(values);
    assert forall|i: int| 0 <= i < ws.len() implies (#[trigger] ws[i]).len() > 0 && forall|k: int|
        0 <= k < ws[i].len() ==> !text::is_space(#[trigger] ws[i][k]) by {
        text::lemma_hex_pair(values[i]);
        assert(text::hex(values[i] as nat, 2, true).len() == 2);
    }
    text::lemma_joined_words(ws);
    lemma_hex_bytes(values);
}

/// A written list of bytes holds no parenthesis.
proof fn lemma_written_list_is_plain(values: Seq<u8>)
    ensures
        forall|k: int|
            0 <= k < written_list(values).len() ==> (#[trigger] written_list(values)[k]) != '('
                && written_list(values)[k] != ')',
    decreases values.len(),
{
    if values.len() > 0 {
        lemma_written_list_is_plain(values.drop_last());
        assert(hex_words(values).drop_last() =~= hex_words(values.drop_last()));
        text::lemma_hex_pair(values.last());
        let last = text::hex(values.last() as nat, 2, true);
        assert(last.len() == 2);
        assert(last[0] != '(' && last[0] != ')' && last[1] != '(' && last[1] != ')');
        let all = written_list(values);
        let prior = written_list(values.drop_last());
        assert(hex_words(values).last() == last);
        if values.len() == 1 {
            assert(all == last);
        } else {
            assert(all == prior + seq![' '] + last);
        }
        assert forall|k: int| 0 <= k < all.len() implies (#[trigger] all[k]) != '(' && all[k]
            != ')' by {
            if values.len() > 1 {
                if k < prior.len() {
                    assert(all[k] == prior[k]);
                } else if k > prior.len() {
                    assert(all[k] == last[k - prior.len() - 1]);
                }
            } else {
                assert(all[k] == last[k]);
            }
        }
    }
}

/// In text without parentheses the first one behind it closes.
proof fn lemma_closing_of_plain(s: Seq<char>, i: int, end: int)
    requires
        0 <= i <= end < s.len(),
        s[end] == ')',
        forall|k: int| i <= k < end ==> (#[trigger] s[k]) != '(' && s[k] != ')',
    ensures
        closing(s, i, 1) == end,
    decreases end - i,
{
    if i < end {
        lemma_closing_of_plain(s, i + 1, end);
    }
}

/// A code with its value list, as in a `vcp(...)` body.
pub open spec fn written_feature(code: u8, values: Seq<u8>) -> Seq<char> {
    if values.len() == 0 {
        text::hex(code as nat, 2, true)
    } else {
        text::hex(code as nat, 2, true) + seq!['('] + written_list(values) + seq![')']
    }
}

/// A `vcp(...)` body.
pub open spec fn written_features(list: Seq<(u8, Seq<u8>)>) -> Seq<char> {
    text::joined(
        Seq::new(list.len(), |i: int| written_feature(list[i].0, list[i].1)),
        seq![' '],
    )
}

/// One written feature is read back behind those that are there already.
proof fn lemma_feature_reads_back(code: u8, values: Seq<u8>, acc: Seq<Feature>, fit: bool)
    ensures
        settled(written_feature(code, values), 0),
        features_from(written_feature(code, values), 0, Seq::empty(), acc, fit) == acc.push(
            (vcp::code_of(code), values),
        ),
{
    let pair = text::hex(code as nat, 2, true);
    let s = written_feature(code, values);
    text::lemma_hex_pair(code);
    assert(pair.len() == 2);
    assert(s[0] == pair[0] && s[1] == pair[1]);
    let none = Seq::<char>::empty();
    assert(none.push(pair[0]).push(pair[1]) =~= pair);
    text::lemma_trimmed_of_tight(pair);
    let coded = acc.push((vcp::code_of(code), Seq::<u8>::empty()));
    assert(committed(pair, acc) == coded);
    if values.len() == 0 {
        assert(values =~= Seq::<u8>::empty());
        assert(features_from(s, 2, pair, acc, fit) == coded);
        assert(features_from(s, 1, none.push(pair[0]), acc, fit) == coded);
        assert(features_from(s, 0, none, acc, fit) == coded);
        assert(settled(s, 2));
        assert(settled(s, 1));
    } else {
        let list = written_list(values);
        lemma_written_list_is_plain(values);
        law_hex_list_reads_back(values);
        let end = 3 + list.len() as int;
        assert(s.len() == end + 1);
        assert(s[2] == '(' && s[end] == ')');
        assert forall|k: int| 3 <= k < end implies (#[trigger] s[k]) != '(' && s[k] != ')' by {
            assert(s[k] == list[k - 3]);
        }
        lemma_closing_of_plain(s, 3, end);
        assert(s.subrange(3, end) =~= list);
        let full = acc.push((vcp::code_of(code), values));
        assert(coded.drop_last() =~= acc);
        assert(fits(pair, fit));
        assert(attached(coded, values, true) == full);
        text::lemma_trimmed_of_tight(none);
        assert(committed(none, full) == full);
        assert(features_from(s, end + 1, none, full, true) == full);
        assert(features_from(s, 2, pair, acc, fit) == full);
        assert(features_from(s, 1, none.push(pair[0]), acc, fit) == full);
        assert(features_from(s, 0, none, acc, fit) == full);
        assert(settled(s, end + 1));
        assert(settled(s, 2));
        assert(settled(s, 1));
    }
}

/// A written feature list is read back: every code is found, and each value list
/// belongs to its own code alone.
pub proof fn law_features_read_back(list: Seq<(u8, Seq<u8>)>)
    ensures
        features(written_features(list)) == Seq::new(
            list.len(),
            |i: int| (vcp::code_of(list[i].0), list[i].1),
        ),
        settled(written_features(list), 0),
    decreases list.len(),
{
    let items = Seq::new(list.len(), |i: int| written_feature(list[i].0, list[i].1));
    let all = Seq::new(list.len(), |i: int| (vcp::code_of(list[i].0), list[i].1));
    let none = Seq::<char>::empty();
    if list.len() == 0 {
        text::lemma_trimmed_of_tight(none);
        assert(features(written_features(list)) =~= all);
    } else {
        let rest = list.drop_last();
        let (code, values) = list.last();
        law_features_read_back(rest);
        let before = Seq::new(rest.len(), |i: int| (vcp::code_of(rest[i].0), rest[i].1));
        assert(items.drop_last() =~= Seq::new(
            rest.len(),
            |i: int| written_feature(rest[i].0, rest[i].1),
        ));
        assert(all =~= before.push((vcp::code_of(code), values)));
        let a = written_features(rest);
        let b = written_feature(code, values);
        if list.len() == 1 {
            assert(before =~= Seq::<Feature>::empty());
            assert(written_features(list) == b);
            lemma_feature_reads_back(code, values, before, false);
        } else {
            assert(written_features(list) == a + seq![' '] + b);
            lemma_features_part(a, b, 0, none, Seq::empty(), false);
            let f = choose|f: bool|
                features(written_features(list)) == #[trigger] features_from(b, 0, none, before, f);
            lemma_feature_reads_back(code, values, before, f);
            lemma_settled_join(a, ' ', b, 0);
        }
    }
}

/// A word without white space or parentheses is taken up whole.
proof fn lemma_word_is_taken(
    s: Seq<char>,
    word: Seq<char>,
    k: int,
    acc: Seq<Feature>,
    fit: bool,
)
    requires
        0 <= k <= word.len() <= s.len(),
        s.take(word.len() as int) == word,
        forall|i: int|
            0 <= i < word.len() ==> (#[trigger] word[i]) != '(' && !text::is_space(word[i]),
    ensures
        features_from(s, k, word.take(k), acc, fit) == features_from(
            s,
            word.len() as int,
            word,
            acc,
            fit,
        ),
    decreases word.len() - k,
{
    if k == word.len() {
        assert(word.take(k) =~= word);
    } else {
        assert(s.take(word.len() as int)[k] == s[k]);
        assert(word.take(k).push(s[k]) =~= word.take(k + 1));
        lemma_word_is_taken(s, word, k + 1, acc, fit);
    }
}

/// A value list behind a word that is no code belongs to no code: none of those
/// before it inherits it.
pub proof fn law_stray_value_lists_are_dropped(
    before: Seq<char>,
    word: Seq<char>,
    list: Seq<char>,
)
    requires
        settled(before, 0),
        word.len() > 0,
        forall|i: int|
            0 <= i < word.len() ==> (#[trigger] word[i]) != '(' && !text::is_space(word[i]),
        text::parsed_number(word, 16, 255) is None,
        forall|k: int| 0 <= k < list.len() ==> (#[trigger] list[k]) != '(' && list[k] != ')',
    ensures
        features(before + seq![' '] + (word + seq!['('] + list + seq![')'])) == features(before),
{
    let b = word + seq!['('] + list + seq![')'];
    let none = Seq::<char>::empty();
    let n = word.len() as int;
    let end = n + 1 + list.len();
    let known = features(before);
    lemma_features_part(before, b, 0, none, Seq::empty(), false);
    let f = choose|f: bool|
        features(before + seq![' '] + b) == #[trigger] features_from(b, 0, none, known, f);
    assert(b.take(n) =~= word);
    assert(word.take(0) =~= none);
    lemma_word_is_taken(b, word, 0, known, f);
    text::lemma_trimmed_of_tight(word);
    assert(b[n] == '(' && b[end] == ')');
    assert forall|k: int| n + 1 <= k < end implies (#[trigger] b[k]) != '(' && b[k] != ')' by {
        assert(b[k] == list[k - n - 1]);
    }
    lemma_closing_of_plain(b, n + 1, end);
    text::lemma_trimmed_of_tight(none);
    assert(features_from(b, end + 1, none, known, false) == known);
}

/// Whether the parentheses of a section's body match.
pub open spec fn balanced(body: Seq<char>) -> bool {
    closing(body.push(')'), 0, 1) == body.len()
}

/// Whether text holds no parenthesis.
pub open spec fn plain(s: Seq<char>) -> bool {
    forall|k: int| 0 <= k < s.len() ==> (#[trigger] s[k]) != '(' && s[k] != ')'
}

/// Sections do not depend on what stands before the place they are read from.
proof fn lemma_sections_shift(p: Seq<char>, b: Seq<char>, k: int, name: Seq<char>)
    requires
        0 <= k <= b.len(),
    ensures
        sections_from(p + b, p.len() + k, name) == sections_from(b, k, name),
    decreases b.len() - k,
{
    let s = p + b;
    if k < b.len() {
        assert(s[p.len() + k] == b[k]);
        if b[k] == '(' {
            let j = closing(b, k + 1, 1);
            lemma_closing_ahead(b, k + 1, 1);
            lemma_closing_shift(p, b, k + 1, 1);
            assert(s.subrange(p.len() + k + 1, p.len() + j) =~= b.subrange(k + 1, j));
            if j < b.len() {
                lemma_sections_shift(p, b, j + 1, Seq::empty());
            } else {
                assert(sections_from(s, p.len() + j + 1, Seq::empty()) == Seq::<Section>::empty());
                assert(sections_from(b, j + 1, Seq::empty()) == Seq::<Section>::empty());
            }
        } else if b[k] == ')' {
            lemma_sections_shift(p, b, k + 1, Seq::empty());
        } else {
            lemma_sections_shift(p, b, k + 1, name.push(b[k]));
        }
    }
}

/// Plain text in front of a section is its name.
proof fn lemma_section_name(s: Seq<char>, i: int, end: int)
    requires
        0 <= i <= end < s.len(),
        s[end] == '(',
        plain(s.take(end)),
    ensures
        sections_from(s, i, s.take(i)) == sections_from(s, end, s.take(end)),
    decreases end - i,
{
    if i < end {
        assert(s.take(end)[i] == s[i]);
        assert(s.take(i).push(s[i]) =~= s.take(i + 1));
        lemma_section_name(s, i + 1, end);
    }
}

/// A closed section survives whatever follows it, be it cut short or malformed.
pub proof fn law_closed_section_survives(name: Seq<char>, body: Seq<char>, rest: Seq<char>)
    requires
        plain(name),
        balanced(body),
    ensures
        sections(name + seq!['('] + body + seq![')'] + rest) == section(name, body) + sections(rest),
{
    let head = name + seq!['('];
    let s = head + body + seq![')'] + rest;
    let n = name.len() as int;
    assert(s.take(n) =~= name);
    assert(s.take(0) =~= Seq::empty());
    assert(s[n] == '(');
    lemma_section_name(s, 0, n);
    let tail = body.push(')') + rest;
    assert(s =~= head + tail);
    lemma_closing_prefix(body.push(')'), rest, 0, 1);
    lemma_closing_shift(head, tail, 0, 1);
    assert(closing(s, n + 1, 1) == n + 1 + body.len());
    assert(s.subrange(n + 1, n + 1 + body.len() as int) =~= body);
    let front = head + body + seq![')'];
    assert(s =~= front + rest);
    lemma_sections_shift(front, rest, 0, Seq::empty());
}

/// A code is supported exactly where it is listed, and its entry is the first one for it.
pub proof fn law_supported_codes_are_listed(v: Seq<VcpFeature>, code: VcpCode, i: int, j: int)
    requires
        0 <= i < v.len(),
        0 <= j < v.len(),
    ensures
        v[i].code == code ==> advertises(v, code),
        (forall|k: int| 0 <= k < v.len() ==> (#[trigger] v[k]).code != code) ==> !advertises(v, code),
        first_for(v, code, i) ==> v[i].code == code,
        first_for(v, code, i) && v[j].code == code ==> i <= j,
{
}

/// How often a character occurs in a part of a text.
pub open spec fn occurs(s: Seq<char>, i: int, j: int, c: char) -> nat {
    s.subrange(i, j).filter(|x: char| x == c).len()
}

/// One character more.
proof fn lemma_occurs(s: Seq<char>, i: int, j: int, c: char)
    requires
        0 <= i <= j < s.len(),
    ensures
        occurs(s, j, j, c) == 0,
        occurs(s, i, j + 1, c) == occurs(s, i, j, c) + if s[j] == c {
            1nat
        } else {
            0nat
        },
        occurs(s, i, j + 1, c) == occurs(s, i, i + 1, c) + occurs(s, i + 1, j + 1, c),
        occurs(s, i, i + 1, c) == if s[i] == c {
            1nat
        } else {
            0nat
        },
{
    reveal(Seq::filter);
    let f = |x: char| x == c;
    assert(s.subrange(i, j + 1).drop_last() =~= s.subrange(i, j));
    assert(s.subrange(i, i + 1).drop_last() =~= Seq::<char>::empty());
    assert(Seq::<char>::empty().filter(f).len() == 0);
    assert(s.subrange(j, j) =~= Seq::<char>::empty());
    assert(s.subrange(i, i + 1) + s.subrange(i + 1, j + 1) =~= s.subrange(i, j + 1));
    Seq::filter_distributes_over_add(s.subrange(i, i + 1), s.subrange(i + 1, j + 1), f);
}

/// What is opened so many times is closed where as many more parentheses close than open,
/// and not before.
pub proof fn law_parentheses_close_what_is_open(s: Seq<char>, i: int, depth: nat)
    requires
        0 <= i <= s.len(),
        depth >= 1,
    ensures
        ({
            let j = closing(s, i, depth);
            &&& i <= j <= s.len()
            &&& forall|k: int|
                i <= k < j ==> #[trigger] occurs(s, i, k + 1, ')') < occurs(s, i, k + 1, '(') + depth
            &&& j < s.len() ==> s[j] == ')' && occurs(s, i, j, ')') + 1 == occurs(s, i, j, '(')
                + depth
        }),
    decreases s.len() - i,
{
    let j = closing(s, i, depth);
    lemma_closing_ahead(s, i, depth);
    if i < s.len() && !(s[i] == ')' && depth <= 1) {
        let d = if s[i] == '(' {
            depth + 1
        } else if s[i] == ')' {
            (depth - 1) as nat
        } else {
            depth
        };
        law_parentheses_close_what_is_open(s, i + 1, d);
        lemma_closing_ahead(s, i + 1, d);
        assert(j == closing(s, i + 1, d));
        assert forall|k: int| i <= k < j implies #[trigger] occurs(s, i, k + 1, ')') < occurs(
            s,
            i,
            k + 1,
            '(',
        ) + depth by {
            lemma_occurs(s, i, k, ')');
            lemma_occurs(s, i, k, '(');
            if k > i {
                assert(occurs(s, i + 1, k + 1, ')') < occurs(s, i + 1, k + 1, '(') + d);
            } else {
                lemma_occurs(s, i, i, ')');
                lemma_occurs(s, i, i, '(');
            }
        }
        if j < s.len() {
            lemma_occurs(s, i, j - 1, ')');
            lemma_occurs(s, i, j - 1, '(');
        }
    } else if i < s.len() {
        lemma_occurs(s, i, i, ')');
        lemma_occurs(s, i, i, '(');
    }
}

/// The last section of a name, case aside, is the one whose body counts.
proof fn lemma_last_body(secs: Seq<Section>, key: Seq<char>, i: int)
    ensures
        0 <= i < secs.len() && text::ascii_lowered(secs[i].0) == key && (forall|j: int|
            i < j < secs.len() ==> text::ascii_lowered((#[trigger] secs[j]).0) != key) ==> last_body(
            secs,
            key,
        ) == Some(secs[i].1),
        (forall|j: int|
            0 <= j < secs.len() ==> text::ascii_lowered((#[trigger] secs[j]).0) != key)
            <==> last_body(secs, key) is None,
    decreases secs.len(),
{
    if secs.len() > 0 {
        let rest = secs.drop_last();
        assert(forall|j: int| 0 <= j < rest.len() ==> #[trigger] rest[j] == secs[j]);
        assert(secs.last() == secs[secs.len() - 1]);
        if text::ascii_lowered(secs.last().0) != key {
            lemma_last_body(rest, key, i);
            if forall|j: int|
                0 <= j < rest.len() ==> text::ascii_lowered((#[trigger] rest[j]).0) != key {
                assert forall|j: int| 0 <= j < secs.len() implies text::ascii_lowered(
                    (#[trigger] secs[j]).0,
                ) != key by {
                    if j < rest.len() {
                        assert(rest[j] == secs[j]);
                    }
                }
            }
            if 0 <= i < rest.len() && forall|j: int|
                i < j < secs.len() ==> text::ascii_lowered((#[trigger] secs[j]).0) != key {
                assert(forall|j: int|
                    i < j < rest.len() ==> text::ascii_lowered((#[trigger] rest[j]).0) != key);
            }
        }
    }
}

/// Each section of a name that is understood fills its own field, case aside and the last
/// one where there are several: `prot`, `type`, `model` and `mccs_ver` with their text
/// without the white space round it, `cmds` with its bytes and `vcp` with its codes.
pub proof fn law_each_section_fills_its_field(c: Capabilities, secs: Seq<Section>, key: Seq<char>, i: int)
    requires
        holds(c, secs),
        0 <= i < secs.len(),
        text::ascii_lowered(secs[i].0) == key,
        forall|j: int| i < j < secs.len() ==> text::ascii_lowered((#[trigger] secs[j]).0) != key,
    ensures
        key == "prot"@ ==> c.protocol is Some && c.protocol->0@ == text::trimmed(secs[i].1),
        key == "type"@ ==> c.display_type is Some && c.display_type->0@ == text::trimmed(secs[i].1),
        key == "model"@ ==> c.model is Some && c.model->0@ == text::trimmed(secs[i].1),
        key == "mccs_ver"@ ==> c.mccs_version is Some && c.mccs_version->0@ == text::trimmed(
            secs[i].1,
        ),
        key == "cmds"@ ==> c.commands@ == hex_list(secs[i].1),
        key == "vcp"@ ==> features_of(c.vcp@) == features(secs[i].1),
{
    lemma_last_body(secs, key, i);
}

/// A field whose section is missing is empty.
pub proof fn law_missing_sections_fill_nothing(c: Capabilities, secs: Seq<Section>, key: Seq<char>)
    requires
        holds(c, secs),
        forall|j: int| 0 <= j < secs.len() ==> text::ascii_lowered((#[trigger] secs[j]).0) != key,
    ensures
        key == "prot"@ ==> c.protocol is None,
        key == "type"@ ==> c.display_type is None,
        key == "model"@ ==> c.model is None,
        key == "mccs_ver"@ ==> c.mccs_version is None,
        key == "cmds"@ ==> c.commands@.len() == 0,
        key == "vcp"@ ==> c.vcp@.len() == 0,
{
    lemma_last_body(secs, key, 0);
    if key == "vcp"@ {
        assert(features_of(c.vcp@).len() == c.vcp@.len());
    }
}

/// Whether a name is, case aside, none of the six that are understood.
pub open spec fn strange(name: Seq<char>) -> bool {
    let key = text::ascii_lowered(name);
    key != "prot"@ && key != "type"@ && key != "model"@ && key != "mccs_ver"@ && key != "cmds"@
        && key != "vcp"@
}

/// Where the strange sections stand.
proof fn lemma_unknown(secs: Seq<Section>) -> (places: Seq<int>)
    ensures
        places.len() == unknown_of(secs).len(),
        forall|j: int|
            0 <= j < places.len() ==> 0 <= #[trigger] places[j] < secs.len() && strange(
                secs[places[j]].0,
            ) && unknown_of(secs)[j] == secs[places[j]].0,
        forall|j: int, k: int| 0 <= j < k < places.len() ==> places[j] < places[k],
        forall|i: int| 0 <= i < secs.len() && strange(#[trigger] secs[i].0) ==> places.contains(i),
    decreases secs.len(),
{
    if secs.len() == 0 {
        Seq::empty()
    } else {
        let rest = secs.drop_last();
        let n = secs.len() - 1;
        let was = lemma_unknown(rest);
        let places = if strange(secs.last().0) {
            was.push(n)
        } else {
            was
        };
        assert(forall|i: int| 0 <= i < rest.len() ==> #[trigger] rest[i] == secs[i]);
        assert forall|i: int| 0 <= i < secs.len() && strange(
            #[trigger] secs[i].0,
        ) implies places.contains(i) by {
            if i < n {
                assert(strange(rest[i].0));
                let j = choose|j: int| 0 <= j < was.len() && was[j] == i;
                assert(places[j] == i);
            } else {
                assert(places[was.len() as int] == i);
            }
        }
        places
    }
}

/// Every section whose name is not understood is kept, by its name as it is written and in
/// order, and no other.
pub proof fn law_strange_sections_are_kept(c: Capabilities, secs: Seq<Section>) -> (places: Seq<int>)
    requires
        holds(c, secs),
    ensures
        places.len() == c.unknown_sections@.len(),
        forall|j: int|
            0 <= j < places.len() ==> 0 <= #[trigger] places[j] < secs.len() && strange(
                secs[places[j]].0,
            ) && c.unknown_sections@[j]@ == secs[places[j]].0,
        forall|j: int, k: int| 0 <= j < k < places.len() ==> places[j] < places[k],
        forall|i: int| 0 <= i < secs.len() && strange(#[trigger] secs[i].0) ==> places.contains(i),
{
    let places = lemma_unknown(secs);
    assert(text::texts(c.unknown_sections@).len() == c.unknown_sections@.len());
    assert forall|j: int| 0 <= j < places.len() implies 0 <= #[trigger] places[j] < secs.len() && strange(
        secs[places[j]].0,
    ) && c.unknown_sections@[j]@ == secs[places[j]].0 by {
        assert(text::texts(c.unknown_sections@)[j] == c.unknown_sections@[j]@);
    }
    places
}

/// Something is recovered wherever a section is understood and says something: one text
/// section is enough, and one code or one command. Nothing is where every section is strange.
pub proof fn law_one_section_is_enough(secs: Seq<Section>, i: int)
    ensures
        0 <= i < secs.len() && (text::ascii_lowered(secs[i].0) == "prot"@ || text::ascii_lowered(
            secs[i].0,
        ) == "type"@ || text::ascii_lowered(secs[i].0) == "model"@ || text::ascii_lowered(secs[i].0)
            == "mccs_ver"@) ==> meaningful(secs),
        vcp_of(secs).len() > 0 || commands_of(secs).len() > 0 ==> meaningful(secs),
        (forall|j: int| 0 <= j < secs.len() ==> strange((#[trigger] secs[j]).0)) ==> !meaningful(secs),
{
    lemma_last_body(secs, "prot"@, i);
    lemma_last_body(secs, "type"@, i);
    lemma_last_body(secs, "model"@, i);
    lemma_last_body(secs, "mccs_ver"@, i);
    lemma_last_body(secs, "cmds"@, i);
    lemma_last_body(secs, "vcp"@, i);
}

/// The outer wrapper comes off, whether it is closed or not, and what has none stays as it is.
pub proof fn law_the_outer_wrapper_comes_off(s: Seq<char>)
    ensures
        unwrapped(seq!['('] + s + seq![')']) == s,
        s.len() == 0 || s.last() != ')' ==> unwrapped(seq!['('] + s) == s,
        s.len() == 0 || s[0] != '(' ==> unwrapped(s) == s,
{
    let t = seq!['('] + s + seq![')'];
    assert(t.drop_first() =~= s + seq![')']);
    assert((s + seq![')']).drop_last() =~= s);
    assert((seq!['('] + s).drop_first() =~= s);
}

/// A section that is never closed has all that is left for its body: a string that was cut
/// short loses nothing of it.
pub proof fn law_a_cut_section_keeps_the_rest(name: Seq<char>, body: Seq<char>)
    requires
        plain(name),
        text::trimmed(name).len() > 0,
        closing(body, 0, 1) == body.len(),
    ensures
        sections(name + seq!['('] + body) == seq![(text::trimmed(name), body)],
{
    let head = name + seq!['('];
    let s = head + body;
    let n = name.len() as int;
    assert(s.take(n) =~= name);
    assert(s.take(0) =~= Seq::empty());
    assert(s[n] == '(');
    lemma_section_name(s, 0, n);
    lemma_closing_shift(head, body, 0, 1);
    assert(s.subrange(n + 1, s.len() as int) =~= body);
    assert(sections_from(s, s.len() as int + 1, Seq::empty()) =~= Seq::empty());
    assert(sections(s) =~= seq![(text::trimmed(name), body)]);
}

/// A list of bytes is what its words spell in hexadecimal, in order; a word that spells no
/// byte is left out.
pub proof fn law_lists_are_read_word_by_word(ws: Seq<Seq<char>>) -> (places: Seq<int>)
    ensures
        places.len() == hex_bytes(ws).len(),
        forall|j: int|
            0 <= j < places.len() ==> 0 <= #[trigger] places[j] < ws.len() && text::parsed_number(
                ws[places[j]],
                16,
                255,
            ) == Some(hex_bytes(ws)[j] as nat),
        forall|j: int, k: int| 0 <= j < k < places.len() ==> places[j] < places[k],
        forall|i: int|
            0 <= i < ws.len() && text::parsed_number(#[trigger] ws[i], 16, 255) is Some
                ==> places.contains(i),
    decreases ws.len(),
{
    if ws.len() == 0 {
        Seq::empty()
    } else {
        let rest = ws.drop_last();
        let n = ws.len() - 1;
        let was = law_lists_are_read_word_by_word(rest);
        let places = if text::parsed_number(ws.last(), 16, 255) is Some {
            was.push(n)
        } else {
            was
        };
        assert(forall|i: int| 0 <= i < rest.len() ==> #[trigger] rest[i] == ws[i]);
        assert forall|i: int|
            0 <= i < ws.len() && text::parsed_number(#[trigger] ws[i], 16, 255) is Some implies places.contains(
        i) by {
            if i < n {
                assert(rest[i] == ws[i]);
                let j = choose|j: int| 0 <= j < was.len() && was[j] == i;
                assert(places[j] == i);
            } else {
                assert(places[was.len() as int] == i);
            }
        }
        places
    }
}

} // verus!
