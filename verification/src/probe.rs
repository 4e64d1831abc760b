//! `display-probe`: everything that a bug report needs of every display.

use crate::ctl;
use crate::ddc;
use crate::ddc::caps;
use crate::ddc::caps::{Capabilities, VcpFeature};
use crate::ddc::vcp;
use crate::ddc::vcp::{ValueKind, VcpCode};
use crate::model;
use crate::model::identity;
use crate::model::{Call, ControlPath, DisplayBackend, DisplayId, Monitor};
use crate::text;
use crate::trace;
use vstd::prelude::*;

verus! {

/// Codes worth reading on every display, even when unadvertised.
pub const SURVEY: [VcpCode; 8] = [
    VcpCode::Brightness,
    VcpCode::Contrast,
    VcpCode::Volume,
    VcpCode::InputSource,
    VcpCode::PowerMode,
    VcpCode::RedGain,
    VcpCode::GreenGain,
    VcpCode::BlueGain,
];

// ── What is known without asking ───────────────────────────────────────────

/// How a display is driven, in words.
pub open spec fn control_text(c: ControlPath) -> Seq<char> {
    match c {
        ControlPath::Ddc => "DDC/CI"@,
        ControlPath::Native => "built-in (DisplayServices)"@,
        ControlPath::Uncontrollable => "none"@,
    }
}

/// The line on where a display is plugged in, where that is known.
pub open spec fn location_part(location: Seq<char>) -> Seq<Seq<char>> {
    if location.len() == 0 {
        Seq::empty()
    } else {
        seq!["   location: "@ + location]
    }
}

/// What a serial is worth. A placeholder means that settings key off the port
/// instead, which is what the user sees if they swap cables.
pub open spec fn serial_note(serial: i64) -> Seq<char> {
    if identity::trustworthy(serial) {
        "trustworthy"@
    } else {
        "PLACEHOLDER — identity falls back to physical port"@
    }
}

/// The lines on what a display is.
pub open spec fn monitor_lines(m: Monitor) -> Seq<Seq<char>> {
    seq![
        "── "@ + identity::title_of(m.identity) + " ── displayID "@ + text::decimal(m.id.0 as nat),
        "   control:  "@ + control_text(m.control),
    ] + location_part(m.identity.location@) + seq![
        "   serial:   "@ + text::signed_decimal(m.identity.serial as int) + " ("@ + serial_note(
            m.identity.serial,
        ) + ")"@,
        "   key:      "@ + identity::key_of(m.identity),
    ]
}

/// Say what a display is.
pub fn describe_monitor(m: &Monitor) -> (r: Vec<String>)
    ensures
        text::texts(r@) == monitor_lines(*m),
{
    let mut out: Vec<String> = Vec::new();
    let mut title = text::between("── ", m.identity.describe().as_str(), " ── displayID ");
    title.append(m.id.describe().as_str());
    text::push_text(&mut out, title);
    let control = match m.control {
        ControlPath::Ddc => "DDC/CI",
        ControlPath::Native => "built-in (DisplayServices)",
        ControlPath::Uncontrollable => "none",
    };
    text::push_text(&mut out, text::after("   control:  ", control));
    if !text::empty(m.identity.location.as_str()) {
        text::push_text(&mut out, text::after("   location: ", m.identity.location.as_str()));
    }
    let note = if m.identity.has_trustworthy_serial() {
        "trustworthy"
    } else {
        "PLACEHOLDER — identity falls back to physical port"
    };
    let mut serial = text::between(
        "   serial:   ",
        text::write_signed(m.identity.serial).as_str(),
        " (",
    );
    serial.append(note);
    serial.append(")");
    text::push_text(&mut out, serial);
    text::push_text(
        &mut out,
        text::after("   key:      ", m.identity.settings_key().as_str()),
    );
    assert(text::texts(out@) =~= monitor_lines(*m));
    out
}

// ── Capabilities ───────────────────────────────────────────────────────────

/// A permitted value as it is listed: an input by its name too.
pub open spec fn value_word(code: VcpCode, v: u8) -> Seq<char> {
    match vcp::input_label(v) {
        Some(n) if code == VcpCode::InputSource => text::hex_number(v as nat) + "="@ + n@,
        _ => text::hex_number(v as nat),
    }
}

/// The permitted values of a code as they are listed.
pub open spec fn value_words(f: caps::Feature) -> Seq<Seq<char>> {
    Seq::new(f.1.len(), |i: int| value_word(f.0, f.1[i]))
}

/// The line on an advertised code.
pub open spec fn feature_line(f: caps::Feature) -> Seq<char> {
    "       "@ + vcp::code_text(f.0) + if f.1.len() == 0 {
        Seq::empty()
    } else {
        "  ["@ + text::joined(value_words(f), ", "@) + "]"@
    }
}

/// Describe an advertised code.
fn describe_feature(f: &VcpFeature) -> (r: String)
    ensures
        r@ == feature_line((f.code, f.values@)),
{
    let mut out = text::after("       ", f.code.describe().as_str());
    if f.values.len() == 0 {
        assert(out@ =~= feature_line((f.code, f.values@)));
        return out;
    }
    let ghost all = value_words((f.code, f.values@));
    let mut named: Vec<String> = Vec::new();
    let mut i: usize = 0;
    assert(text::texts(named@) =~= all.take(0));
    while i < f.values.len()
        invariant
            i <= f.values@.len(),
            all == value_words((f.code, f.values@)),
            text::texts(named@) == all.take(i as int),
        decreases f.values@.len() - i,
    {
        let v: u8 = f.values[i];
        let mut word = text::write_hex_number(v as u64);
        if f.code == VcpCode::InputSource {
            if let Some(n) = vcp::input_source_name(v) {
                word.append("=");
                word.append(n);
            }
        }
        assert(word@ =~= value_word(f.code, v));
        text::push_text(&mut named, word);
        i = i + 1;
        assert(all.take(i as int) =~= all.take(i - 1) + seq![all[i - 1]]);
    }
    assert(all.take(i as int) =~= all);
    let listed = text::between("  [", text::join(&named, ", ").as_str(), "]");
    out.append(listed.as_str());
    out
}

/// A line on something that may be missing.
pub open spec fn optional_line(label: Seq<char>, value: Option<Seq<char>>) -> Seq<Seq<char>> {
    match value {
        Some(v) => seq![label + v],
        None => Seq::empty(),
    }
}

/// The line on sections that were not understood, where there are any.
pub open spec fn unknown_part(names: Seq<Seq<char>>) -> Seq<Seq<char>> {
    if names.len() == 0 {
        Seq::empty()
    } else {
        seq!["     unknown sections: "@ + text::joined(names, ", "@)]
    }
}

/// The lines on what the sections of a capability string say.
pub open spec fn section_lines(secs: Seq<caps::Section>) -> Seq<Seq<char>> {
    optional_line("     MCCS version: "@, caps::label_of(secs, "mccs_ver"@)) + optional_line(
        "     type: "@,
        caps::label_of(secs, "type"@),
    ) + seq![
        "     advertises "@ + text::decimal(caps::vcp_of(secs).len()) + " VCP code(s):"@,
    ] + Seq::new(caps::vcp_of(secs).len(), |i: int| feature_line(caps::vcp_of(secs)[i]))
        + unknown_part(caps::unknown_of(secs))
}

/// Say what a capability string says.
fn push_capabilities(c: &Capabilities, out: &mut Vec<String>)
    ensures
        forall|secs: Seq<caps::Section>| #[trigger]
            caps::holds(*c, secs) ==> text::texts(final(out)@) == text::texts(old(out)@)
                + section_lines(secs),
{
    let ghost before = text::texts(out@);
    let ghost version = text::opt_text(c.mccs_version);
    let ghost kind = text::opt_text(c.display_type);
    if let Some(v) = &c.mccs_version {
        text::push_text(out, text::after("     MCCS version: ", v.as_str()));
    }
    if let Some(t) = &c.display_type {
        text::push_text(out, text::after("     type: ", t.as_str()));
    }
    assert(text::texts(out@) =~= before + optional_line("     MCCS version: "@, version)
        + optional_line("     type: "@, kind));
    text::push_text(
        out,
        text::between(
            "     advertises ",
            text::write_decimal(c.vcp.len() as u64).as_str(),
            " VCP code(s):",
        ),
    );
    let ghost head = text::texts(out@);
    let ghost fs = caps::features_of(c.vcp@);
    let ghost lines = Seq::new(fs.len(), |k: int| feature_line(fs[k]));
    let mut i: usize = 0;
    assert(head + lines.take(0) =~= head);
    while i < c.vcp.len()
        invariant
            i <= c.vcp@.len(),
            fs == caps::features_of(c.vcp@),
            lines == Seq::new(fs.len(), |k: int| feature_line(fs[k])),
            text::texts(out@) == head + lines.take(i as int),
        decreases c.vcp@.len() - i,
    {
        text::push_text(out, describe_feature(&c.vcp[i]));
        i = i + 1;
        assert(lines.take(i as int) =~= lines.take(i - 1) + seq![lines[i - 1]]);
        assert(text::texts(out@) =~= head + lines.take(i as int));
    }
    assert(lines.take(i as int) =~= lines);
    let ghost listed = text::texts(out@);
    if c.unknown_sections.len() > 0 {
        text::push_text(
            out,
            text::after(
                "     unknown sections: ",
                text::join(&c.unknown_sections, ", ").as_str(),
            ),
        );
    }
    assert(text::texts(out@) =~= listed + unknown_part(text::texts(c.unknown_sections@)));
    assert forall|secs: Seq<caps::Section>| #[trigger] caps::holds(*c, secs) implies text::texts(
        out@,
    ) == before + section_lines(secs) by {
        assert(fs == caps::vcp_of(secs));
        assert(lines =~= Seq::new(
            caps::vcp_of(secs).len(),
            |k: int| feature_line(caps::vcp_of(secs)[k]),
        ));
        assert(text::texts(out@) =~= before + section_lines(secs));
    }
}

/// The lines on the answer to a request for the capability string.
pub open spec fn capability_lines(r: model::Result<Option<String>>) -> Seq<Seq<char>> {
    match r {
        Ok(Some(raw)) => seq!["     raw: "@ + raw@] + if caps::meaningful(caps::sections_in(raw@)) {
            section_lines(caps::sections_in(raw@))
        } else {
            seq![
                "     parse failed: "@ + ddc::fault_text(
                    ddc::Fault::CapabilityParse(
                        "no recognisable sections in "@ + text::quoted(raw@),
                    ),
                ),
            ]
        },
        Ok(None) => seq!["     (no DDC path)"@],
        Err(e) => seq!["     read failed: "@ + model::error_text(e)],
    }
}

/// Report the answer to a request for the capability string.
pub fn report_capabilities(r: &model::Result<Option<String>>) -> (v: Vec<String>)
    ensures
        text::texts(v@) == capability_lines(*r),
{
    let mut out: Vec<String> = Vec::new();
    assert(text::texts(out@) =~= Seq::<Seq<char>>::empty());
    match r {
        Ok(Some(raw)) => {
            text::push_text(&mut out, text::after("     raw: ", raw.as_str()));
            match caps::parse(raw.as_str()) {
                Ok(c) => push_capabilities(&c, &mut out),
                Err(e) => text::push_text(
                    &mut out,
                    text::after("     parse failed: ", e.message().as_str()),
                ),
            }
        },
        Ok(None) => text::push_text(&mut out, text::own("     (no DDC path)")),
        Err(e) => text::push_text(
            &mut out,
            text::after("     read failed: ", e.message().as_str()),
        ),
    }
    assert(text::texts(out@) =~= capability_lines(*r));
    out
}

// ── Values ─────────────────────────────────────────────────────────────────

/// A value as it is printed. For a code that is no range the maximum is not a
/// bound; "26 / 3" would invent a scale that does not exist.
pub open spec fn reading(code: VcpCode, current: u16, max: u16) -> Seq<char> {
    if vcp::code_kind(code) == ValueKind::NonContinuous {
        text::hex_number(current as nat) + if code == VcpCode::InputSource {
            ctl::input_note((current % 256) as u8)
        } else {
            Seq::empty()
        }
    } else {
        text::decimal(current as nat) + " / "@ + text::decimal(max as nat)
    }
}

/// The line on the answer to a read.
pub open spec fn value_line(code: VcpCode, r: model::Result<(u16, u16)>) -> Seq<char> {
    "     "@ + text::padded_right(vcp::code_text(code), 28) + match r {
        Ok(v) => " "@ + reading(code, v.0, v.1),
        Err(e) => " —  ("@ + model::error_text(e) + ")"@,
    }
}

/// Report the answer to a read.
pub fn report_value(code: VcpCode, r: &model::Result<(u16, u16)>) -> (v: String)
    ensures
        v@ == value_line(code, *r),
{
    let mut out = text::after("     ", text::pad_right(code.describe().as_str(), 28).as_str());
    match r {
        Ok(value) => {
            let mut shown = String::new();
            if matches!(code.kind(), ValueKind::NonContinuous) {
                shown.append(text::write_hex_number(value.0 as u64).as_str());
                if code == VcpCode::InputSource {
                    shown.append(ctl::write_input_note((value.0 % 256) as u8).as_str());
                }
            } else {
                shown.append(text::write_decimal(value.0 as u64).as_str());
                shown.append(" / ");
                shown.append(text::write_decimal(value.1 as u64).as_str());
            }
            assert(shown@ =~= reading(code, value.0, value.1));
            out.append(text::after(" ", shown.as_str()).as_str());
        },
        Err(e) => {
            out.append(text::between(" —  (", e.message().as_str(), ")").as_str());
        },
    }
    out
}

// ── The whole report ───────────────────────────────────────────────────────

/// Whether calls are those that a report makes of a display: its capability
/// string, and then every surveyed code.
pub open spec fn surveys(calls: Seq<Call>, id: DisplayId) -> bool {
    &&& calls.len() == 1 + SURVEY@.len()
    &&& calls[0] matches Call::CapabilityString { id: i, result: _ } && i == id
    &&& forall|k: int| 0 <= k < SURVEY@.len() ==> reads(#[trigger] calls[1 + k], id, SURVEY@[k])
}

/// Whether a call is a read of a code.
pub open spec fn reads(call: Call, id: DisplayId, code: VcpCode) -> bool {
    call matches Call::GetVcp { id: i, code: c, result: _ } && i == id && c == code
}

/// The lines on a call.
pub open spec fn call_lines(call: Call) -> Seq<Seq<char>> {
    match call {
        Call::CapabilityString { id: _, result } => capability_lines(result),
        Call::GetVcp { id: _, code, result } => seq![value_line(code, result)],
        _ => Seq::empty(),
    }
}

/// The lines on calls.
pub open spec fn all_call_lines(calls: Seq<Call>) -> Seq<Seq<char>>
    decreases calls.len(),
{
    if calls.len() == 0 {
        Seq::empty()
    } else {
        all_call_lines(calls.drop_last()) + call_lines(calls.last())
    }
}

/// The lines on a display that speaks DDC/CI, of the calls made for them.
pub open spec fn ddc_lines(calls: Seq<Call>) -> Seq<Seq<char>> {
    seq![Seq::<char>::empty(), "   Capability string:"@] + all_call_lines(calls.take(1)) + seq![
        Seq::<char>::empty(),
        "   Live VCP values:"@,
    ] + all_call_lines(calls.skip(1))
}

/// Report everything that a display says over DDC/CI.
pub fn probe_ddc<B: DisplayBackend>(backend: &mut B, id: DisplayId) -> (r: Vec<String>)
    ensures
        trace::extends(old(backend).calls(), final(backend).calls()),
        surveys(trace::since(old(backend).calls(), final(backend).calls()), id),
        text::texts(r@) == ddc_lines(
            trace::since(old(backend).calls(), final(backend).calls()),
        ),
{
    let ghost start = backend.calls();
    let mut out: Vec<String> = Vec::new();
    text::push_text(&mut out, String::new());
    text::push_text(&mut out, text::own("   Capability string:"));
    let found = backend.capability_string(id);
    let mut lines = report_capabilities(&found);
    let ghost first = Call::CapabilityString { id, result: found };
    proof {
        trace::lemma_one(start, first);
        assert(seq![first].drop_last() =~= Seq::<Call>::empty());
        reveal_with_fuel(all_call_lines, 2);
        assert(all_call_lines(seq![first]) =~= call_lines(first));
    }
    let ghost before = text::texts(out@);
    let ghost listed = text::texts(lines@);
    out.append(&mut lines);
    assert(text::texts(out@) =~= before + listed);
    text::push_text(&mut out, String::new());
    text::push_text(&mut out, text::own("   Live VCP values:"));
    let ghost head = text::texts(out@);
    let ghost middle = backend.calls();
    let mut i: usize = 0;
    proof {
        trace::lemma_same(middle);
    }
    assert(head + Seq::<Seq<char>>::empty() =~= head);
    while i < 8
        invariant
            i <= 8,
            trace::extends(middle, backend.calls()),
            trace::since(middle, backend.calls()).len() == i,
            forall|k: int|
                0 <= k < i ==> reads(
                    #[trigger] trace::since(middle, backend.calls())[k],
                    id,
                    SURVEY@[k],
                ),
            text::texts(out@) == head + all_call_lines(trace::since(middle, backend.calls())),
        decreases 8 - i,
    {
        let code: VcpCode = SURVEY[i];
        let ghost was = backend.calls();
        let r = backend.get_vcp(id, code);
        let line = report_value(code, &r);
        let ghost call = Call::GetVcp { id, code, result: r };
        proof {
            trace::lemma_one(was, call);
            trace::lemma_chain(middle, was, backend.calls());
            assert(trace::since(middle, backend.calls()).drop_last() =~= trace::since(middle, was));
            assert(trace::since(middle, backend.calls()).last() == call);
        }
        let ghost so_far = text::texts(out@);
        text::push_text(&mut out, line);
        assert(text::texts(out@) =~= head + all_call_lines(trace::since(middle, backend.calls())));
        i = i + 1;
    }
    proof {
        trace::lemma_chain(start, middle, backend.calls());
        let all = trace::since(start, backend.calls());
        assert(all.take(1) =~= seq![first]);
        assert(all.skip(1) =~= trace::since(middle, backend.calls()));
        assert forall|k: int| 0 <= k < SURVEY@.len() implies reads(
            #[trigger] all[1 + k],
            id,
            SURVEY@[k],
        ) by {
            assert(all.skip(1)[k] == all[1 + k]);
        }
        assert(text::texts(out@) =~= ddc_lines(all));
    }
    out
}

// ── Laws ───────────────────────────────────────────────────────────────────

/// A report only reads: it writes nothing to any display.
pub proof fn law_probing_writes_nothing(calls: Seq<Call>, id: DisplayId, i: int)
    requires
        surveys(calls, id),
        0 <= i < calls.len(),
    ensures
        !(calls[i] is SetVcp),
{
    if i > 0 {
        assert(reads(calls[1 + (i - 1)], id, SURVEY@[i - 1]));
    }
}

/// A display is introduced by its name and number, how it is driven, where it is plugged in
/// where that is known, its serial and whether that is worth anything, and the key that its
/// settings go by.
pub proof fn law_displays_are_introduced(m: Monitor)
    ensures
        ({
            let lines = monitor_lines(m);
            let known: int = if m.identity.location@.len() > 0 {
                1
            } else {
                0
            };
            &&& lines.len() == 4 + known
            &&& lines[0] == "── "@ + identity::title_of(m.identity) + " ── displayID "@
                + text::decimal(m.id.0 as nat)
            &&& m.control is Ddc ==> lines[1] == "   control:  "@ + "DDC/CI"@
            &&& m.control is Native ==> lines[1] == "   control:  "@ + "built-in (DisplayServices)"@
            &&& m.control is Uncontrollable ==> lines[1] == "   control:  "@ + "none"@
            &&& known == 1 ==> lines[2] == "   location: "@ + m.identity.location@
            &&& identity::trustworthy(m.identity.serial) ==> lines[2 + known] == "   serial:   "@
                + text::signed_decimal(m.identity.serial as int) + " ("@ + "trustworthy"@ + ")"@
            &&& !identity::trustworthy(m.identity.serial) ==> lines[2 + known] == "   serial:   "@
                + text::signed_decimal(m.identity.serial as int) + " ("@
                + "PLACEHOLDER — identity falls back to physical port"@ + ")"@
            &&& lines[3 + known] == "   key:      "@ + identity::key_of(m.identity)
        }),
{
}

/// A report asks a display for its capability string first, and then for brightness,
/// contrast, volume, input, power and the three gains, in this order, and nothing else.
pub proof fn law_what_a_report_asks_for(calls: Seq<Call>, id: DisplayId)
    requires
        surveys(calls, id),
    ensures
        calls.len() == 9,
        calls[0] is CapabilityString && calls[0]->CapabilityString_id == id,
        forall|k: int|
            1 <= k < 9 ==> (#[trigger] calls[k]) is GetVcp && calls[k]->GetVcp_id == id,
        calls[1]->GetVcp_code is Brightness,
        calls[2]->GetVcp_code is Contrast,
        calls[3]->GetVcp_code is Volume,
        calls[4]->GetVcp_code is InputSource,
        calls[5]->GetVcp_code is PowerMode,
        calls[6]->GetVcp_code is RedGain,
        calls[7]->GetVcp_code is GreenGain,
        calls[8]->GetVcp_code is BlueGain,
{
    assert(SURVEY@.len() == 8);
    assert forall|k: int| 1 <= k < 9 implies (#[trigger] calls[k]) is GetVcp && calls[k]->GetVcp_id
        == id by {
        assert(reads(calls[1 + (k - 1)], id, SURVEY@[k - 1]));
    }
    assert(reads(calls[1 + 0int], id, SURVEY@[0]));
    assert(reads(calls[1 + 1int], id, SURVEY@[1]));
    assert(reads(calls[1 + 2int], id, SURVEY@[2]));
    assert(reads(calls[1 + 3int], id, SURVEY@[3]));
    assert(reads(calls[1 + 4int], id, SURVEY@[4]));
    assert(reads(calls[1 + 5int], id, SURVEY@[5]));
    assert(reads(calls[1 + 6int], id, SURVEY@[6]));
    assert(reads(calls[1 + 7int], id, SURVEY@[7]));
}

/// Reads make a line each.
proof fn lemma_lines_of_reads(cs: Seq<Call>)
    requires
        forall|k: int| 0 <= k < cs.len() ==> (#[trigger] cs[k]) is GetVcp,
    ensures
        all_call_lines(cs).len() == cs.len(),
        forall|k: int|
            0 <= k < cs.len() ==> #[trigger] all_call_lines(cs)[k] == value_line(
                cs[k]->GetVcp_code,
                cs[k]->GetVcp_result,
            ),
    decreases cs.len(),
{
    if cs.len() > 0 {
        let rest = cs.drop_last();
        assert(forall|k: int| 0 <= k < rest.len() ==> #[trigger] rest[k] == cs[k]);
        lemma_lines_of_reads(rest);
        assert(cs.last() == cs[cs.len() - 1]);
        assert forall|k: int| 0 <= k < cs.len() implies #[trigger] all_call_lines(cs)[k] == value_line(
            cs[k]->GetVcp_code,
            cs[k]->GetVcp_result,
        ) by {
            if k < rest.len() {
                assert(all_call_lines(cs)[k] == all_call_lines(rest)[k]);
            }
        }
    }
}

/// Every answer makes a line of the report, in the order of the questions, that names the
/// code: a range is shown as its value out of its maximum, an enumerated value by its number
/// alone, an input with its name, and a read that failed by why.
pub proof fn law_every_answer_is_reported(calls: Seq<Call>, id: DisplayId, k: int)
    requires
        surveys(calls, id),
        1 <= k < 9,
    ensures
        ({
            let lines = ddc_lines(calls);
            let line = lines[lines.len() - 9 + k];
            let code = calls[k]->GetVcp_code;
            let r = calls[k]->GetVcp_result;
            let head = "     "@ + text::padded_right(vcp::code_text(code), 28);
            &&& lines.len() == 12 + capability_lines(calls[0]->CapabilityString_result).len()
            &&& lines[0].len() == 0
            &&& lines[1] == "   Capability string:"@
            &&& r is Err ==> line == head + (" —  ("@ + model::error_text(r->Err_0) + ")"@)
            &&& r is Ok && !(vcp::code_kind(code) is NonContinuous) ==> line == head + (" "@ + (
            text::decimal(r->Ok_0.0 as nat) + " / "@ + text::decimal(r->Ok_0.1 as nat)))
            &&& r is Ok && vcp::code_kind(code) is NonContinuous && !(code is InputSource) ==> line
                == head + (" "@ + text::hex_number(r->Ok_0.0 as nat))
            &&& r is Ok && vcp::code_kind(code) is NonContinuous && code is InputSource ==> line
                == head + (" "@ + (text::hex_number(r->Ok_0.0 as nat) + ctl::input_note(
                (r->Ok_0.0 % 256) as u8,
            )))
        }),
{
    law_what_a_report_asks_for(calls, id);
    let rest = calls.skip(1);
    assert forall|j: int| 0 <= j < rest.len() implies (#[trigger] rest[j]) is GetVcp by {
        assert(rest[j] == calls[j + 1]);
    }
    lemma_lines_of_reads(rest);
    assert(rest[k - 1] == calls[k]);
    let first = calls.take(1);
    assert(first.drop_last() =~= Seq::<Call>::empty());
    assert(all_call_lines(first.drop_last()) =~= Seq::empty());
    assert(first.last() == calls[0]);
    assert(all_call_lines(first) =~= capability_lines(calls[0]->CapabilityString_result));
    let lines = ddc_lines(calls);
    assert(lines[lines.len() - 9 + k] == all_call_lines(rest)[k - 1]);
    let v = calls[k]->GetVcp_result->Ok_0.0;
    assert(text::hex_number(v as nat) + Seq::<char>::empty() =~= text::hex_number(v as nat));
}

/// The capability string is reported as it is, and what it says where it says anything: its
/// version and type where it gives them, how many codes it advertises, and each of them in
/// order. A display without one, and a read that failed, are told apart.
pub proof fn law_capability_strings_are_reported(r: model::Result<Option<String>>, i: int)
    ensures
        r is Err ==> capability_lines(r) == seq!["     read failed: "@ + model::error_text(r->Err_0)],
        r is Ok && r->Ok_0 is None ==> capability_lines(r) == seq!["     (no DDC path)"@],
        r is Ok && r->Ok_0 is Some ==> {
            let raw = r->Ok_0->0@;
            let secs = caps::sections_in(raw);
            let lines = capability_lines(r);
            let v: int = if caps::label_of(secs, "mccs_ver"@) is Some {
                1
            } else {
                0
            };
            let t: int = if caps::label_of(secs, "type"@) is Some {
                1
            } else {
                0
            };
            let fs = caps::vcp_of(secs);
            &&& lines[0] == "     raw: "@ + raw
            &&& !caps::meaningful(secs) ==> lines.len() == 2
            &&& caps::meaningful(secs) ==> {
                &&& v == 1 ==> lines[1] == "     MCCS version: "@ + caps::label_of(
                    secs,
                    "mccs_ver"@,
                )->0
                &&& t == 1 ==> lines[1 + v] == "     type: "@ + caps::label_of(secs, "type"@)->0
                &&& lines[1 + v + t] == "     advertises "@ + text::decimal(fs.len())
                    + " VCP code(s):"@
                &&& 0 <= i < fs.len() ==> lines[2 + v + t + i] == feature_line(fs[i])
                &&& lines.len() == 2 + v + t + fs.len() + if caps::unknown_of(secs).len() > 0 {
                    1int
                } else {
                    0int
                }
                &&& caps::unknown_of(secs).len() > 0 ==> lines.last() == "     unknown sections: "@
                    + text::joined(caps::unknown_of(secs), ", "@)
            }
        },
{
    if r is Ok && r->Ok_0 is Some {
        let raw = r->Ok_0->0@;
        let secs = caps::sections_in(raw);
        if caps::meaningful(secs) {
            assert(capability_lines(r) =~= seq!["     raw: "@ + raw] + section_lines(secs));
        }
    }
}

/// An advertised code is listed by its name, with its permitted values in hexadecimal where
/// it has any, and inputs among them by name where they have one.
pub proof fn law_advertised_codes_are_listed(f: caps::Feature, i: int)
    ensures
        f.1.len() == 0 ==> feature_line(f) == "       "@ + vcp::code_text(f.0),
        f.1.len() > 0 ==> feature_line(f) == "       "@ + vcp::code_text(f.0) + ("  ["@
            + text::joined(value_words(f), ", "@) + "]"@),
        value_words(f).len() == f.1.len(),
        0 <= i < f.1.len() && (!(f.0 is InputSource) || vcp::input_label(f.1[i]) is None)
            ==> value_words(f)[i] == text::hex_number(f.1[i] as nat),
        0 <= i < f.1.len() && f.0 is InputSource && vcp::input_label(f.1[i]) is Some
            ==> value_words(f)[i] == text::hex_number(f.1[i] as nat) + "="@ + vcp::input_label(
            f.1[i],
        )->0@,
{
    assert("       "@ + vcp::code_text(f.0) + Seq::<char>::empty() =~= "       "@ + vcp::code_text(f.0));
}

} // verus!
