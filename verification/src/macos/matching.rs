//! Pairing displays with AV services.
//!
//! With two identical monitors, a mis-match means the user's input-source change
//! lands on the wrong panel and they lose picture with no way to undo it.
//!
//! The weighting is the whole point: physical location scores **10** while every
//! identity signal scores **1**, so the port a monitor is plugged into outranks
//! anything it claims about itself. A monitor that reports a placeholder serial
//! is identical to its twin on every identity signal and separable only by
//! location.

use crate::macos::ioreg::IoregService;
use crate::text;
use vstd::prelude::*;

verus! {

/// Ceiling on `match_score`, used as the top of the greedy assignment sweep.
pub const MAX_MATCH_SCORE: i32 = 20;

/// Weight for a physical-location match. Deliberately larger than the sum of all
/// identity signals so location wins outright.
pub const LOCATION_WEIGHT: i32 = 10;

/// What CoreDisplay says of a display, as far as it says it.
#[derive(Debug, Clone, PartialEq, Eq)]
pub struct DisplayInfo {
    pub vendor_id: Option<i64>,
    pub product_id: Option<i64>,
    pub year: Option<i64>,
    pub week: Option<i64>,
    pub horizontal_size: Option<i64>,
    pub vertical_size: Option<i64>,
    pub location: Option<String>,
    pub product_name: Option<String>,
    pub serial: Option<i64>,
}

/// The localized product name: the one for en_US, or else any.
pub open spec fn preferred_name(names: Seq<(String, String)>, from: int) -> Option<Seq<char>>
    decreases names.len() - from,
{
    if from < 0 || from >= names.len() {
        if names.len() > 0 {
            Some(names[0].1@)
        } else {
            None
        }
    } else if names[from].0@ == "en_US"@ {
        Some(names[from].1@)
    } else {
        preferred_name(names, from + 1)
    }
}

/// The localized product name, preferring en_US then any entry.
pub fn product_name(names: &Vec<(String, String)>) -> (r: Option<String>)
    ensures
        text::opt_text(r) == preferred_name(names@, 0),
{
    let mut i: usize = 0;
    while i < names.len()
        invariant
            i <= names@.len(),
            preferred_name(names@, 0) == preferred_name(names@, i as int),
        decreases names@.len() - i,
    {
        if text::same(names[i].0.as_str(), "en_US") {
            return Some(names[i].1.clone());
        }
        i = i + 1;
    }
    if names.len() > 0 {
        Some(names[0].1.clone())
    } else {
        None
    }
}

/// The four characters of an EDID UUID at a place, where it is long enough.
pub open spec fn field_at(uuid: Seq<char>, loc: int) -> Option<Seq<char>> {
    if uuid.len() < loc + 4 {
        None
    } else {
        Some(uuid.subrange(loc, loc + 4))
    }
}

/// The 4 characters of `uuid` at `loc`, if present.
///
/// EDID UUIDs embed fields at fixed character offsets.
pub fn uuid_field(uuid: &str, loc: usize) -> (r: Option<String>)
    ensures
        text::opt_text(r) == field_at(uuid@, loc as int),
{
    let cs = text::chars_of(uuid);
    if cs.len() < 4 || cs.len() - 4 < loc {
        return None;
    }
    Some(text::string_from(&cs, loc, loc + 4))
}

/// `n` brought into a range.
pub open spec fn clamped(n: int, low: int, high: int) -> int {
    if n < low {
        low
    } else if n > high {
        high
    } else {
        n
    }
}

/// Bring a number into a range that starts at zero.
fn clamp(n: i128, high: u64) -> (r: u64)
    ensures
        r == clamped(n as int, 0, high as int),
        r <= high,
{
    if n < 0 {
        0
    } else if n > high as i128 {
        high
    } else {
        n as u64
    }
}

/// Two bytes as four upper-case hexadecimal digits.
pub open spec fn pair_text(a: int, b: int) -> Seq<char> {
    text::hex(a as nat, 2, true) + text::hex(b as nat, 2, true)
}

/// Write two bytes as four upper-case hexadecimal digits.
fn write_pair(a: u64, b: u64) -> (r: String)
    ensures
        r@ == pair_text(a as int, b as int),
{
    text::after(
        text::write_hex(a, 2, true).as_str(),
        text::write_hex(b, 2, true).as_str(),
    )
}

/// The four fields that an EDID UUID of the display would hold: vendor, product
/// (its bytes swapped, as EDID stores it little-endian), week and year of
/// manufacture, and the size of the image in centimetres.
pub open spec fn expected_field(info: DisplayInfo, which: int) -> Seq<char> {
    let vendor = clamped(info.vendor_id->Some_0 as int, 0, 0xFFFF);
    let product = clamped(info.product_id->Some_0 as int, 0, 0xFFFF);
    if which == 0 {
        text::hex(vendor as nat, 4, true)
    } else if which == 1 {
        pair_text(product % 256, product / 256)
    } else if which == 2 {
        pair_text(
            clamped(info.week->Some_0 as int, 0, 255),
            clamped(info.year->Some_0 - 1990, 0, 255),
        )
    } else {
        pair_text(
            clamped(info.horizontal_size->Some_0 as int / 10, 0, 255),
            clamped(info.vertical_size->Some_0 as int / 10, 0, 255),
        )
    }
}

/// Where a field stands in an EDID UUID.
pub open spec fn field_offset(which: int) -> int {
    if which == 0 {
        0
    } else if which == 1 {
        4
    } else if which == 2 {
        19
    } else {
        30
    }
}

/// Whether enough is known of a display to tell what its EDID UUID would hold.
pub open spec fn has_edid(info: DisplayInfo) -> bool {
    &&& info.vendor_id is Some
    &&& info.product_id is Some
    &&& info.year is Some
    &&& info.week is Some
    &&& info.horizontal_size is Some
    &&& info.vertical_size is Some
}

/// Whether a field of the EDID UUID speaks for a match. "0000" is the absent-field
/// sentinel and matches everything, so it never counts as evidence.
pub open spec fn field_matches(info: DisplayInfo, uuid: Seq<char>, which: int) -> bool {
    &&& has_edid(info)
    &&& expected_field(info, which) != "0000"@
    &&& field_at(uuid, field_offset(which)) == Some(expected_field(info, which))
}

/// Whether a display is at the physical port of a service.
pub open spec fn location_matches(info: DisplayInfo, s: IoregService) -> bool {
    &&& s.io_display_location@.len() > 0
    &&& text::opt_text(info.location) == Some(s.io_display_location@)
}

/// Whether a display and a service have the same product name, case aside.
pub open spec fn name_matches(info: DisplayInfo, s: IoregService) -> bool {
    &&& s.product_name@.len() > 0
    &&& info.product_name matches Some(n) && text::ascii_lowered(n@) == text::ascii_lowered(
        s.product_name@,
    )
}

/// Whether a display and a service have the same serial number.
pub open spec fn serial_matches(info: DisplayInfo, s: IoregService) -> bool {
    s.serial_number != 0 && info.serial == Some(s.serial_number)
}

/// One where something holds, else zero.
pub open spec fn point(b: bool) -> int {
    if b {
        1
    } else {
        0
    }
}

/// What the identity of a display says for a service.
pub open spec fn identity_score(info: DisplayInfo, s: IoregService) -> int {
    point(field_matches(info, s.edid_uuid@, 0)) + point(field_matches(info, s.edid_uuid@, 1))
        + point(field_matches(info, s.edid_uuid@, 2)) + point(
        field_matches(info, s.edid_uuid@, 3),
    ) + point(name_matches(info, s)) + point(serial_matches(info, s))
}

/// How well a service matches a display. Zero means no evidence at all.
pub open spec fn score_of(info: Option<DisplayInfo>, s: IoregService) -> int {
    match info {
        None => 0,
        Some(i) => identity_score(i, s) + LOCATION_WEIGHT * point(location_matches(i, s)),
    }
}

/// Whether a field of the EDID UUID speaks for a match.
fn field_is(key: &str, uuid: &str, loc: usize) -> (b: bool)
    ensures
        b == (key@ != "0000"@ && field_at(uuid@, loc as int) == Some(key@)),
{
    if text::same(key, "0000") {
        return false;
    }
    match uuid_field(uuid, loc) {
        Some(f) => text::same(f.as_str(), key),
        None => false,
    }
}

/// How many fields of the EDID UUID speak for a match.
fn edid_score(info: &DisplayInfo, uuid: &str) -> (n: i32)
    ensures
        n == point(field_matches(*info, uuid@, 0)) + point(field_matches(*info, uuid@, 1)) + point(
            field_matches(*info, uuid@, 2),
        ) + point(field_matches(*info, uuid@, 3)),
        0 <= n <= 4,
{
    let (vendor, product, year, week, h, v) = match (
        info.vendor_id,
        info.product_id,
        info.year,
        info.week,
        info.horizontal_size,
        info.vertical_size,
    ) {
        (Some(a), Some(b), Some(c), Some(d), Some(e), Some(f)) => (a, b, c, d, e, f),
        _ => return 0,
    };
    let product16: u64 = clamp(product as i128, 0xFFFF);
    let vendor_key = text::write_hex(clamp(vendor as i128, 0xFFFF), 4, true);
    let product_key = write_pair(product16 % 256, product16 / 256);
    let made_key = write_pair(clamp(week as i128, 255), clamp(year as i128 - 1990, 255));
    let size_key = write_pair(tenth(h), tenth(v));
    let mut n: i32 = 0;
    if field_is(vendor_key.as_str(), uuid, 0) {
        n = n + 1;
    }
    if field_is(product_key.as_str(), uuid, 4) {
        n = n + 1;
    }
    if field_is(made_key.as_str(), uuid, 19) {
        n = n + 1;
    }
    if field_is(size_key.as_str(), uuid, 30) {
        n = n + 1;
    }
    n
}

/// A tenth of a length, as a byte.
fn tenth(n: i64) -> (r: u64)
    ensures
        r == clamped(n as int / 10, 0, 255),
{
    if n < 0 {
        0
    } else {
        clamp((n / 10) as i128, 255)
    }
}

/// Score how well `service` matches a display. Higher is better; 0 means no
/// evidence at all and must not be matched.
pub fn match_score(info: &Option<DisplayInfo>, service: &IoregService) -> (score: i32)
    ensures
        score == score_of(*info, *service),
        0 <= score <= 16,
{
    let info = match info {
        Some(i) => i,
        None => return 0,
    };
    let mut score: i32 = edid_score(info, service.edid_uuid.as_str());
    // Physical port. Outranks identity by design.
    if !text::empty(service.io_display_location.as_str()) {
        if let Some(l) = &info.location {
            if text::same(l.as_str(), service.io_display_location.as_str()) {
                score = score + LOCATION_WEIGHT;
            }
        }
    }
    if !text::empty(service.product_name.as_str()) {
        if let Some(n) = &info.product_name {
            if text::same_ignoring_ascii_case(n.as_str(), service.product_name.as_str()) {
                score = score + 1;
            }
        }
    }
    if service.serial_number != 0 {
        if let Some(n) = info.serial {
            if n == service.serial_number {
                score = score + 1;
            }
        }
    }
    score
}

// ── Assignment ─────────────────────────────────────────────────────────────

/// A display paired with a service.
#[derive(Debug)]
pub struct Match {
    pub display_id: u32,
    pub service: IoregService,
    pub score: i32,
}

impl Clone for Match {
    fn clone(&self) -> (m: Match)
        ensures
            m == *self,
    {
        Match { display_id: self.display_id, service: self.service.clone(), score: self.score }
    }
}

/// A display with what is known of it.
#[derive(Debug, Clone)]
pub struct Candidate {
    pub id: u32,
    pub info: Option<DisplayInfo>,
}

/// Whether two pairings claim the same display or the same service.
pub open spec fn rivals(a: Match, b: Match) -> bool {
    a.display_id == b.display_id || a.service.service_location == b.service.service_location
}

/// Whether nothing taken so far is a rival.
pub open spec fn free(c: Match, taken: Seq<Match>) -> bool {
    forall|i: int| 0 <= i < taken.len() ==> !rivals(#[trigger] taken[i], c)
}

/// All pairings of one display.
pub open spec fn row(d: Candidate, services: Seq<IoregService>) -> Seq<Match> {
    Seq::new(
        services.len(),
        |i: int|
            Match {
                display_id: d.id,
                service: services[i],
                score: score_of(d.info, services[i]) as i32,
            },
    )
}

/// All pairings, display by display.
pub open spec fn pairings(displays: Seq<Candidate>, services: Seq<IoregService>) -> Seq<Match>
    decreases displays.len(),
{
    if displays.len() == 0 {
        Seq::empty()
    } else {
        pairings(displays.drop_last(), services) + row(displays.last(), services)
    }
}

/// What is taken after the pairings of one score have had their turn.
pub open spec fn swept(all: Seq<Match>, score: int, taken: Seq<Match>) -> Seq<Match>
    decreases all.len(),
{
    if all.len() == 0 {
        taken
    } else {
        let before = swept(all.drop_last(), score, taken);
        if all.last().score == score && free(all.last(), before) {
            before.push(all.last())
        } else {
            before
        }
    }
}

/// What is taken after all scores from the top down to `score` have had their
/// turn: a confident pairing removes both its sides from contention before a
/// weaker one is considered.
pub open spec fn taken_from(all: Seq<Match>, score: int) -> Seq<Match>
    decreases MAX_MATCH_SCORE + 1 - score,
{
    if score > MAX_MATCH_SCORE {
        Seq::empty()
    } else {
        swept(all, score, taken_from(all, score + 1))
    }
}

/// Whether nothing taken so far is a rival.
fn is_free(c: &Match, taken: &Vec<Match>) -> (b: bool)
    ensures
        b == free(*c, taken@),
{
    let mut i: usize = 0;
    while i < taken.len()
        invariant
            i <= taken@.len(),
            forall|k: int| 0 <= k < i ==> !rivals(#[trigger] taken@[k], *c),
        decreases taken@.len() - i,
    {
        if taken[i].display_id == c.display_id || taken[i].service.service_location
            == c.service.service_location {
            assert(rivals(taken@[i as int], *c));
            return false;
        }
        i = i + 1;
    }
    true
}

/// Assign displays to services, best scores first.
///
/// Greedy over descending score, and each display and each service may be taken
/// only once. Candidates scoring 0 are never matched: no evidence is better than
/// a wrong guess when the failure mode is a black screen.
pub fn assign(displays: &Vec<Candidate>, services: &Vec<IoregService>) -> (r: Vec<Match>)
    ensures
        r@ == taken_from(pairings(displays@, services@), 1),
{
    let mut all: Vec<Match> = Vec::new();
    let mut i: usize = 0;
    while i < displays.len()
        invariant
            i <= displays@.len(),
            all@ == pairings(displays@.take(i as int), services@),
        decreases displays@.len() - i,
    {
        let ghost done = all@;
        let ghost line = row(displays@[i as int], services@);
        let mut j: usize = 0;
        assert(all@ =~= done + line.take(0));
        while j < services.len()
            invariant
                i < displays@.len(),
                j <= services@.len(),
                line == row(displays@[i as int], services@),
                all@ == done + line.take(j as int),
            decreases services@.len() - j,
        {
            let m = Match {
                display_id: displays[i].id,
                service: services[j].clone(),
                score: match_score(&displays[i].info, &services[j]),
            };
            all.push(m);
            j = j + 1;
            assert(line.take(j as int) =~= line.take(j - 1).push(line[j - 1]));
            assert(all@ =~= done + line.take(j as int));
        }
        assert(line.take(j as int) =~= line);
        assert(displays@.take(i + 1).drop_last() =~= displays@.take(i as int));
        i = i + 1;
    }
    assert(displays@.take(i as int) =~= displays@);
    let mut out: Vec<Match> = Vec::new();
    let mut score: i32 = MAX_MATCH_SCORE;
    assert(out@ =~= taken_from(all@, MAX_MATCH_SCORE + 1));
    while score >= 1
        invariant
            0 <= score <= MAX_MATCH_SCORE,
            out@ == taken_from(all@, score + 1),
        decreases score,
    {
        let ghost before = out@;
        let mut k: usize = 0;
        assert(all@.take(0) =~= Seq::<Match>::empty());
        while k < all.len()
            invariant
                k <= all@.len(),
                out@ == swept(all@.take(k as int), score as int, before),
            decreases all@.len() - k,
        {
            assert(all@.take(k + 1).drop_last() =~= all@.take(k as int));
            if all[k].score == score && is_free(&all[k], &out) {
                out.push(all[k].clone());
            }
            k = k + 1;
        }
        assert(all@.take(k as int) =~= all@);
        score = score - 1;
    }
    out
}

// ── Laws ───────────────────────────────────────────────────────────────────

/// The port outweighs everything a monitor says of itself: a service at the
/// display's port scores more than any that is not, whatever the identities.
pub proof fn law_location_outweighs_identity(info: DisplayInfo, here: IoregService, there: IoregService)
    requires
        location_matches(info, here),
        !location_matches(info, there),
    ensures
        score_of(Some(info), here) > score_of(Some(info), there),
{
}

/// Every score is one that the sweep reaches.
pub proof fn law_scores_are_swept(info: Option<DisplayInfo>, s: IoregService)
    ensures
        0 <= score_of(info, s) <= MAX_MATCH_SCORE,
{
}

/// What was taken stays taken.
proof fn lemma_swept_extends(all: Seq<Match>, score: int, taken: Seq<Match>)
    ensures
        swept(all, score, taken).len() >= taken.len(),
        forall|i: int| 0 <= i < taken.len() ==> #[trigger] swept(all, score, taken)[i] == taken[i],
        forall|i: int|
            taken.len() <= i < swept(all, score, taken).len() ==> (#[trigger] swept(
                all,
                score,
                taken,
            )[i]).score == score && all.contains(swept(all, score, taken)[i]),
    decreases all.len(),
{
    if all.len() > 0 {
        lemma_swept_extends(all.drop_last(), score, taken);
        let before = swept(all.drop_last(), score, taken);
        let after = swept(all, score, taken);
        assert forall|i: int| taken.len() <= i < after.len() implies (#[trigger] after[i]).score
            == score && all.contains(after[i]) by {
            if i < before.len() {
                assert(after[i] == before[i]);
                let k = choose|k: int|
                    0 <= k < all.drop_last().len() && all.drop_last()[k] == before[i];
                assert(all[k] == before[i]);
            } else {
                assert(all[all.len() - 1] == after[i]);
            }
        }
        assert forall|i: int| 0 <= i < taken.len() implies #[trigger] after[i] == taken[i] by {
            assert(after[i] == before[i]);
        }
    }
}

/// Whether no two pairings claim the same display or the same service.
pub open spec fn disjoint(m: Seq<Match>) -> bool {
    forall|i: int, j: int|
        0 <= i < j < m.len() ==> !rivals(#[trigger] m[i], #[trigger] m[j])
}

/// A sweep keeps pairings apart.
proof fn lemma_swept_disjoint(all: Seq<Match>, score: int, taken: Seq<Match>)
    requires
        disjoint(taken),
    ensures
        disjoint(swept(all, score, taken)),
    decreases all.len(),
{
    if all.len() > 0 {
        lemma_swept_disjoint(all.drop_last(), score, taken);
    }
}

/// Each display and each service is taken at most once.
pub proof fn law_each_side_is_taken_once(all: Seq<Match>, score: int)
    ensures
        disjoint(taken_from(all, score)),
    decreases MAX_MATCH_SCORE + 1 - score,
{
    if score <= MAX_MATCH_SCORE {
        law_each_side_is_taken_once(all, score + 1);
        lemma_swept_disjoint(all, score, taken_from(all, score + 1));
    }
}

/// Whatever is taken is one of the pairings and has at least the score that the
/// sweep has come down to: with no evidence nothing is matched.
pub proof fn law_no_match_without_evidence(all: Seq<Match>, score: int, i: int)
    requires
        0 <= i < taken_from(all, score).len(),
    ensures
        all.contains(taken_from(all, score)[i]),
        taken_from(all, score)[i].score >= score,
    decreases MAX_MATCH_SCORE + 1 - score,
{
    let before = taken_from(all, score + 1);
    lemma_swept_extends(all, score, before);
    if i < before.len() {
        law_no_match_without_evidence(all, score + 1, i);
    }
}

/// Pairings are taken from the best down: no score is higher than an earlier one.
pub proof fn law_scores_never_rise(all: Seq<Match>, score: int, i: int, j: int)
    requires
        0 <= i < j < taken_from(all, score).len(),
    ensures
        taken_from(all, score)[j].score <= taken_from(all, score)[i].score,
    decreases MAX_MATCH_SCORE + 1 - score,
{
    let before = taken_from(all, score + 1);
    lemma_swept_extends(all, score, before);
    if j < before.len() {
        law_scores_never_rise(all, score + 1, i, j);
    } else {
        law_no_match_without_evidence(all, score, i);
    }
}

/// A pairing of the swept score is taken, or a rival was taken before it.
proof fn lemma_swept_covers(all: Seq<Match>, score: int, taken: Seq<Match>, k: int)
    requires
        0 <= k < all.len(),
        all[k].score == score,
    ensures
        exists|i: int|
            0 <= i < swept(all, score, taken).len() && rivals(
                #[trigger] swept(all, score, taken)[i],
                all[k],
            ),
    decreases all.len(),
{
    let before = swept(all.drop_last(), score, taken);
    let after = swept(all, score, taken);
    if k == all.len() - 1 {
        if free(all.last(), before) {
            assert(rivals(after[after.len() - 1], all[k]));
        } else {
            let i = choose|i: int|
                0 <= i < before.len() && rivals(#[trigger] before[i], all.last());
            assert(rivals(after[i], all[k]));
        }
    } else {
        assert(all.drop_last()[k] == all[k]);
        lemma_swept_covers(all.drop_last(), score, taken, k);
        let i = choose|i: int| 0 <= i < before.len() && rivals(#[trigger] before[i], all[k]);
        assert(after[i] == before[i]);
    }
}

/// A pairing is passed over only for one that is at least as good: whatever its
/// display and its service, one of them went to a pairing of no lower score.
pub proof fn law_passed_over_only_for_better(all: Seq<Match>, low: int, k: int)
    requires
        0 <= k < all.len(),
        low <= all[k].score <= MAX_MATCH_SCORE,
    ensures
        exists|i: int|
            0 <= i < taken_from(all, low).len() && rivals(
                #[trigger] taken_from(all, low)[i],
                all[k],
            ) && taken_from(all, low)[i].score >= all[k].score,
    decreases MAX_MATCH_SCORE + 1 - low,
{
    let before = taken_from(all, low + 1);
    let after = taken_from(all, low);
    lemma_swept_extends(all, low, before);
    if all[k].score == low {
        lemma_swept_covers(all, low, before, k);
        let i = choose|i: int| 0 <= i < after.len() && rivals(#[trigger] after[i], all[k]);
        law_no_match_without_evidence(all, low, i);
    } else {
        law_passed_over_only_for_better(all, low + 1, k);
        let i = choose|i: int|
            0 <= i < before.len() && rivals(#[trigger] before[i], all[k]) && before[i].score
                >= all[k].score;
        assert(after[i] == before[i]);
    }
}

/// Whether four characters of a text, from a place on, spell a number that is not
/// zero.
pub open spec fn spelled_at(uuid: Seq<char>, at: int, n: int) -> bool {
    n != 0 && uuid.len() >= at + 4 && text::spells(uuid.subrange(at, at + 4), n)
}

/// Whether a product name is another but for the case of its letters.
pub open spec fn same_name(a: Seq<char>, b: Seq<char>) -> bool {
    a.len() == b.len() && forall|i: int|
        0 <= i < a.len() ==> (#[trigger] a[i] == b[i] || ('A' <= a[i] <= 'Z' && b[i] as int
            == a[i] as int + 32) || ('A' <= b[i] <= 'Z' && a[i] as int == b[i] as int + 32))
}

/// What a display says of itself, in figures that an EDID can hold.
pub open spec fn figures(
    info: DisplayInfo,
    vendor: int,
    product: int,
    year: int,
    week: int,
    width: int,
    height: int,
) -> bool {
    &&& info.vendor_id matches Some(n) && n == vendor
    &&& info.product_id matches Some(n) && n == product
    &&& info.year matches Some(n) && n == year
    &&& info.week matches Some(n) && n == week
    &&& info.horizontal_size matches Some(n) && n == width
    &&& info.vertical_size matches Some(n) && n == height
    &&& 0 <= vendor <= 0xFFFF
    &&& 0 <= product <= 0xFFFF
    &&& 1990 <= year <= 2245
    &&& 0 <= week <= 255
    &&& 0 <= width <= 2559
    &&& 0 <= height <= 2559
}

/// Two bytes spell the number that holds the first above the second.
#[verifier::spinoff_prover]
#[verifier::rlimit(60)]
proof fn lemma_pair_spells(a: int, b: int)
    requires
        0 <= a <= 255,
        0 <= b <= 255,
    ensures
        pair_text(a, b) == text::hex((a * 256 + b) as nat, 4, true),
{
    let n = (a * 256 + b) as nat;
    let h = text::hex(n, 4, true);
    text::law_hex_spells(n, h);
    text::law_hex_spells(a as nat, text::hex(a as nat, 4, true));
    text::law_hex_spells(b as nat, text::hex(b as nat, 4, true));
    assert(n / 4096 == a / 16);
    assert(n / 256 % 16 == a % 16);
    assert(n / 16 % 16 == b / 16);
    assert(n % 16 == b % 16);
    assert(a / 16 % 16 == a / 16);
    assert(b / 16 % 16 == b / 16);
    assert(pair_text(a, b) =~= h);
}

/// Only zero is written as the sentinel of an absent field.
proof fn lemma_sentinel(n: nat)
    requires
        n <= 0xFFFF,
    ensures
        (text::hex(n, 4, true) == "0000"@) == (n == 0),
{
    reveal_strlit("0000");
    reveal_strlit("0123456789ABCDEF");
    let h = text::hex(n, 4, true);
    text::law_hex_spells(n, h);
    if n == 0 {
        assert(h =~= "0000"@);
    } else if h == "0000"@ {
        assert(h[0] == '0' && h[1] == '0' && h[2] == '0' && h[3] == '0');
        assert(n / 4096 == 0);
        assert(n / 256 % 16 == 0);
        assert(n / 16 % 16 == 0);
        assert(n % 16 == 0);
    }
}

/// A field speaks for a match where its characters spell its number.
proof fn lemma_field(uuid: Seq<char>, at: int, n: nat)
    requires
        n <= 0xFFFF,
        at >= 0,
    ensures
        (text::hex(n, 4, true) != "0000"@ && field_at(uuid, at) == Some(text::hex(n, 4, true)))
            == spelled_at(uuid, at, n as int),
{
    lemma_sentinel(n);
    if uuid.len() >= at + 4 {
        text::law_hex_spells(n, uuid.subrange(at, at + 4));
    }
}

/// The score is the evidence, piece by piece. One for each field of the EDID UUID
/// that spells what the display says of itself: the vendor at 0, the product with
/// its bytes swapped at 4, week and year since 1990 at 19, the size in centimetres
/// at 30, zero never counting. One for the product name, but for case, one for the
/// serial number, ten for the port.
pub proof fn law_score_is_the_evidence(
    info: DisplayInfo,
    s: IoregService,
    vendor: int,
    product: int,
    year: int,
    week: int,
    width: int,
    height: int,
)
    requires
        figures(info, vendor, product, year, week, width, height),
    ensures
        ({
            let uuid = s.edid_uuid@;
            score_of(Some(info), s) == (if spelled_at(uuid, 0, vendor) {
                1int
            } else {
                0
            }) + (if spelled_at(uuid, 4, product % 256 * 256 + product / 256) {
                1int
            } else {
                0
            }) + (if spelled_at(uuid, 19, week * 256 + (year - 1990)) {
                1int
            } else {
                0
            }) + (if spelled_at(uuid, 30, width / 10 * 256 + height / 10) {
                1int
            } else {
                0
            }) + (if s.product_name@.len() > 0 && (info.product_name matches Some(n) && same_name(
                n@,
                s.product_name@,
            )) {
                1int
            } else {
                0
            }) + (if s.serial_number != 0 && info.serial == Some(s.serial_number) {
                1int
            } else {
                0
            }) + (if s.io_display_location@.len() > 0 && (info.location matches Some(l) && l@
                == s.io_display_location@) {
                10int
            } else {
                0
            })
        }),
{
    let uuid = s.edid_uuid@;
    lemma_field(uuid, 0, vendor as nat);
    lemma_pair_spells(product % 256, product / 256);
    lemma_field(uuid, 4, (product % 256 * 256 + product / 256) as nat);
    lemma_pair_spells(week, year - 1990);
    lemma_field(uuid, 19, (week * 256 + (year - 1990)) as nat);
    lemma_pair_spells(width / 10, height / 10);
    lemma_field(uuid, 30, (width / 10 * 256 + height / 10) as nat);
    if let Some(n) = info.product_name {
        text::law_ascii_case_is_ignored(n@, s.product_name@);
    }
}

/// A field of the EDID UUID that spells what the display says of itself is worth
/// exactly one: the same service with any other characters there, and all else
/// alike, scores one less.
pub proof fn law_a_field_is_worth_one(
    info: DisplayInfo,
    s: IoregService,
    t: IoregService,
    at: int,
    vendor: int,
    product: int,
    year: int,
    week: int,
    width: int,
    height: int,
)
    requires
        figures(info, vendor, product, year, week, width, height),
        t == (IoregService { edid_uuid: t.edid_uuid, ..s }),
        t.edid_uuid@.len() == s.edid_uuid@.len(),
        at == 0 && spelled_at(s.edid_uuid@, at, vendor) || at == 4 && spelled_at(
            s.edid_uuid@,
            at,
            product % 256 * 256 + product / 256,
        ) || at == 19 && spelled_at(s.edid_uuid@, at, week * 256 + (year - 1990)) || at == 30
            && spelled_at(s.edid_uuid@, at, width / 10 * 256 + height / 10),
        t.edid_uuid@.subrange(at, at + 4) != s.edid_uuid@.subrange(at, at + 4),
        forall|i: int|
            0 <= i < s.edid_uuid@.len() && !(at <= i < at + 4) ==> #[trigger] t.edid_uuid@[i]
                == s.edid_uuid@[i],
    ensures
        score_of(Some(info), s) == score_of(Some(info), t) + 1,
{
    let a = s.edid_uuid@;
    let b = t.edid_uuid@;
    law_score_is_the_evidence(info, s, vendor, product, year, week, width, height);
    law_score_is_the_evidence(info, t, vendor, product, year, week, width, height);
    assert forall|k: int| (k == 0 || k == 4 || k == 19 || k == 30) && k != at && k + 4
        <= a.len() implies #[trigger] b.subrange(k, k + 4) == a.subrange(k, k + 4) by {
        assert(b.subrange(k, k + 4) =~= a.subrange(k, k + 4));
    }
    assert(spelled_at(b, 0, vendor) == spelled_at(a, 0, vendor) || at == 0);
    let p = product % 256 * 256 + product / 256;
    let m = week * 256 + (year - 1990);
    let z = width / 10 * 256 + height / 10;
    assert(spelled_at(b, 4, p) == spelled_at(a, 4, p) || at == 4);
    assert(spelled_at(b, 19, m) == spelled_at(a, 19, m) || at == 19);
    assert(spelled_at(b, 30, z) == spelled_at(a, 30, z) || at == 30);
    let n = if at == 0 {
        vendor
    } else if at == 4 {
        p
    } else if at == 19 {
        m
    } else {
        z
    };
    text::law_hex_spells(n as nat, a.subrange(at, at + 4));
    text::law_hex_spells(n as nat, b.subrange(at, at + 4));
}

/// A display that does not give all six figures gets nothing from an EDID UUID,
/// whatever it holds.
pub proof fn law_partial_edid_is_no_evidence(info: DisplayInfo, s: IoregService, t: IoregService)
    requires
        info.vendor_id is None || info.product_id is None || info.year is None || info.week is None
            || info.horizontal_size is None || info.vertical_size is None,
        t == (IoregService { edid_uuid: t.edid_uuid, ..s }),
    ensures
        score_of(Some(info), s) == score_of(Some(info), t),
        s.product_name@.len() == 0 && s.serial_number == 0 && s.io_display_location@.len() == 0
            ==> score_of(Some(info), s) == 0,
{
}

/// Figures that an EDID cannot hold count as the nearest that it can.
pub proof fn law_figures_are_brought_into_range(info: DisplayInfo, near: DisplayInfo, s: IoregService)
    requires
        near == (DisplayInfo {
            vendor_id: near.vendor_id,
            product_id: near.product_id,
            year: near.year,
            week: near.week,
            horizontal_size: near.horizontal_size,
            vertical_size: near.vertical_size,
            ..info
        }),
        nearest(info.vendor_id, near.vendor_id, 0, 0xFFFF),
        nearest(info.product_id, near.product_id, 0, 0xFFFF),
        nearest(info.year, near.year, 1990, 2245),
        nearest(info.week, near.week, 0, 255),
        nearest(info.horizontal_size, near.horizontal_size, 0, 2559),
        nearest(info.vertical_size, near.vertical_size, 0, 2559),
    ensures
        score_of(Some(info), s) == score_of(Some(near), s),
{
}

/// Whether a figure is known exactly where the other is, and is the nearest to it
/// of a range.
pub open spec fn nearest(n: Option<i64>, near: Option<i64>, low: int, high: int) -> bool {
    match (n, near) {
        (Some(a), Some(b)) => low <= b <= high && (low <= a <= high ==> a == b) && (a < low ==> b
            == low) && (a > high ==> b == high),
        (None, None) => true,
        _ => false,
    }
}

/// Nothing is known of a display that the platform does not describe.
pub proof fn law_undescribed_displays_score_nothing(s: IoregService)
    ensures
        score_of(None, s) == 0,
{
}

/// Every display is weighed against every service, and nothing else is.
pub proof fn law_every_pairing_is_weighed(
    displays: Seq<Candidate>,
    services: Seq<IoregService>,
    m: Match,
)
    ensures
        pairings(displays, services).contains(m) == exists|i: int, j: int|
            0 <= i < displays.len() && 0 <= j < services.len() && m.display_id == (
            #[trigger] displays[i]).id && m.service == #[trigger] services[j] && m.score
                == score_of(displays[i].info, services[j]),
    decreases displays.len(),
{
    let all = pairings(displays, services);
    if displays.len() > 0 {
        let rest = displays.drop_last();
        let before = pairings(rest, services);
        let d = displays.last();
        let line = row(d, services);
        law_every_pairing_is_weighed(rest, services, m);
        if all.contains(m) {
            let k = choose|k: int| 0 <= k < all.len() && all[k] == m;
            if k < before.len() {
                assert(before[k] == m);
                let (i, j) = choose|i: int, j: int|
                    0 <= i < rest.len() && 0 <= j < services.len() && m.display_id == (
                    #[trigger] rest[i]).id && m.service == #[trigger] services[j] && m.score
                        == score_of(rest[i].info, services[j]);
                assert(displays[i] == rest[i]);
            } else {
                let j = k - before.len();
                assert(line[j] == m);
                law_scores_are_swept(d.info, services[j]);
                assert(displays[displays.len() - 1] == d);
                assert(m.service == services[j]);
            }
        }
        if exists|i: int, j: int|
            0 <= i < displays.len() && 0 <= j < services.len() && m.display_id == (
            #[trigger] displays[i]).id && m.service == #[trigger] services[j] && m.score
                == score_of(displays[i].info, services[j]) {
            let (i, j) = choose|i: int, j: int|
                0 <= i < displays.len() && 0 <= j < services.len() && m.display_id == (
                #[trigger] displays[i]).id && m.service == #[trigger] services[j] && m.score
                    == score_of(displays[i].info, services[j]);
            if i < rest.len() {
                assert(rest[i] == displays[i]);
                assert(before.contains(m));
                let k = choose|k: int| 0 <= k < before.len() && before[k] == m;
                assert(all[k] == m);
            } else {
                law_scores_are_swept(d.info, services[j]);
                assert(line[j] == m);
                assert(all[before.len() + j] == m);
            }
        }
    }
}

/// A display and a service that suit each other better than either suits any other
/// are paired, with their score: the writes for a display go to its own channel.
pub proof fn law_each_display_gets_its_own_channel(
    displays: Seq<Candidate>,
    services: Seq<IoregService>,
    i: int,
    j: int,
)
    requires
        0 <= i < displays.len(),
        0 <= j < services.len(),
        score_of(displays[i].info, services[j]) >= 1,
        forall|a: int, b: int|
            0 <= a < displays.len() && 0 <= b < services.len() && (a != i || b != j) && ((
            #[trigger] displays[a]).id == displays[i].id || (#[trigger] services[b]).service_location
                == services[j].service_location) ==> score_of(displays[a].info, services[b])
                < score_of(displays[i].info, services[j]),
    ensures
        exists|k: int|
            0 <= k < taken_from(pairings(displays, services), 1).len() && (#[trigger] taken_from(
                pairings(displays, services),
                1,
            )[k]).display_id == displays[i].id && taken_from(pairings(displays, services), 1)[k].service
                == services[j] && taken_from(pairings(displays, services), 1)[k].score == score_of(
                displays[i].info,
                services[j],
            ),
{
    let all = pairings(displays, services);
    let taken = taken_from(all, 1);
    law_scores_are_swept(displays[i].info, services[j]);
    let m = Match {
        display_id: displays[i].id,
        service: services[j],
        score: score_of(displays[i].info, services[j]) as i32,
    };
    law_every_pairing_is_weighed(displays, services, m);
    assert(all.contains(m));
    let p = choose|p: int| 0 <= p < all.len() && all[p] == m;
    law_passed_over_only_for_better(all, 1, p);
    let k = choose|k: int|
        0 <= k < taken.len() && rivals(#[trigger] taken[k], all[p]) && taken[k].score
            >= all[p].score;
    law_no_match_without_evidence(all, 1, k);
    law_every_pairing_is_weighed(displays, services, taken[k]);
    let (a, b) = choose|a: int, b: int|
        0 <= a < displays.len() && 0 <= b < services.len() && taken[k].display_id == (
        #[trigger] displays[a]).id && taken[k].service == #[trigger] services[b] && taken[k].score
            == score_of(displays[a].info, services[b]);
    assert(a == i && b == j);
}

/// The name for a display is the one for American English, wherever it stands, or
/// else the first.
pub proof fn law_english_name_is_preferred(names: Seq<(String, String)>, i: int)
    ensures
        names.len() == 0 ==> preferred_name(names, 0) is None,
        0 <= i < names.len() && names[i].0@ == "en_US"@ && (forall|k: int|
            0 <= k < i ==> (#[trigger] names[k]).0@ != "en_US"@) ==> preferred_name(names, 0)
            == Some(names[i].1@),
        names.len() > 0 && (forall|k: int|
            0 <= k < names.len() ==> (#[trigger] names[k]).0@ != "en_US"@) ==> preferred_name(
            names,
            0,
        ) == Some(names[0].1@),
{
    if 0 <= i < names.len() && names[i].0@ == "en_US"@ && (forall|k: int|
        0 <= k < i ==> (#[trigger] names[k]).0@ != "en_US"@) {
        lemma_name_from(names, 0, i);
    }
    if names.len() > 0 && (forall|k: int|
        0 <= k < names.len() ==> (#[trigger] names[k]).0@ != "en_US"@) {
        lemma_name_from(names, 0, names.len() as int);
    }
}

/// Names that are not the preferred one are passed over.
proof fn lemma_name_from(names: Seq<(String, String)>, from: int, i: int)
    requires
        0 <= from <= i <= names.len(),
        forall|k: int| from <= k < i ==> (#[trigger] names[k]).0@ != "en_US"@,
    ensures
        preferred_name(names, from) == preferred_name(names, i),
    decreases i - from,
{
    if from < i {
        assert(names[from].0@ != "en_US"@);
        lemma_name_from(names, from + 1, i);
    }
}

} // verus!
