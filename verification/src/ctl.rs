//! `displayctl`: what a command line asks for, and what is printed of the answer.

use crate::api;
use crate::api::ApplyStatus;
use crate::ddc::vcp;
use crate::ddc::vcp::VcpCode;
use crate::model::rules;
use crate::text;
use vstd::prelude::*;

verus! {

/// The version of the command line tool.
pub const CTL_VERSION: &'static str = "0.1.0";

// ── Arguments ──────────────────────────────────────────────────────────────

/// A command line.
#[derive(Debug)]
pub enum Command {
    List,
    Version,
    Get { code: String, display: String },
    Write { code: String, value: String, display: String, yes: bool },
    Brightness { value: Option<u16>, display: String },
    Volume { value: Option<u16>, display: String },
    Input { value: String, display: String, yes: bool },
    Caps { display: String },
    ProfileList,
    ProfileApply { name: String, yes: bool },
    ProfileSave { name: String, codes: Vec<String>, force: bool },
    ProfileShow { name: String },
    ProfileDelete { name: String },
    RulesList,
    RulesReload,
    RulesTick,
    RulesPath,
}

/// What a command line asks for.
#[derive(Debug)]
pub enum Op {
    Version,
    List,
    Get { display: String, code: String },
    /// Write a value; `label` is what it is reported as.
    Write { display: String, code: String, value: u16, verify: bool, label: String },
    Caps { display: String },
    ProfileList,
    ProfileApply { name: String, verify: bool, yes: bool },
    ProfileSave { name: String, codes: Vec<String>, force: bool },
    ProfileShow { name: String },
    ProfileDelete { name: String },
    RulesPath,
    RulesList,
    RulesReload,
    RulesTick,
}

/// What goes wrong where a destructive write does.
pub open spec fn consequence(code: VcpCode) -> Seq<char> {
    match code {
        VcpCode::InputSource => "If the target input has no signal the display goes blank, and you would need the monitor's own OSD to get back."@,
        VcpCode::PowerMode => "This can put the display into standby, which may need a physical button to undo."@,
        VcpCode::RestoreFactoryDefaults => "This wipes the monitor's saved settings — including ones this tool never set. There is no undo."@,
        VcpCode::RestoreFactoryLuminance => "This wipes the monitor's saved settings — including ones this tool never set. There is no undo."@,
        VcpCode::RestoreFactoryColor => "This wipes the monitor's saved settings — including ones this tool never set. There is no undo."@,
        _ => "This cannot be easily undone."@,
    }
}

/// What goes wrong where a destructive write does.
fn write_consequence(code: VcpCode) -> (r: &'static str)
    ensures
        r@ == consequence(code),
{
    match code {
        VcpCode::InputSource => "If the target input has no signal the display goes blank, and you would need the monitor's own OSD to get back.",
        VcpCode::PowerMode => "This can put the display into standby, which may need a physical button to undo.",
        VcpCode::RestoreFactoryDefaults
        | VcpCode::RestoreFactoryLuminance
        | VcpCode::RestoreFactoryColor => "This wipes the monitor's saved settings — including ones this tool never set. There is no undo.",
        _ => "This cannot be easily undone.",
    }
}

/// Why a write is refused, where it is: a code that cannot be undone needs an
/// explicit yes. A code that is none fails later, with a better message.
pub open spec fn refusal(code_str: Seq<char>, yes: bool) -> Option<Seq<char>> {
    match vcp::code_parsed(code_str) {
        Some(code) if !yes && vcp::destructive(code) => Some(
            "refusing to write "@ + vcp::code_label(code) + " without --yes.\n"@ + consequence(code),
        ),
        _ => None,
    }
}

/// Refuse a destructive write unless the caller explicitly opted in.
///
/// The message says what specifically goes wrong, because "are you sure?" does
/// not help someone who does not know that `0x04` is a factory reset.
pub fn guard_destructive(code_str: &str, yes: bool) -> (r: core::result::Result<(), String>)
    ensures
        match refusal(code_str@, yes) {
            Some(why) => r matches Err(s) && s@ == why,
            None => r is Ok,
        },
{
    if yes {
        return Ok(());
    }
    let code = match vcp::parse_code(code_str) {
        Some(c) => c,
        None => return Ok(()),
    };
    if !code.is_destructive() {
        return Ok(());
    }
    let mut out = text::between(
        "refusing to write ",
        code.display_name().as_str(),
        " without --yes.\n",
    );
    out.append(write_consequence(code));
    Err(out)
}

/// Whether a number is written in hexadecimal.
pub open spec fn is_hex(t: Seq<char>) -> bool {
    t.len() >= 2 && t[0] == '0' && (t[1] == 'x' || t[1] == 'X')
}

/// The value that `s` denotes, decimal or hexadecimal.
pub open spec fn value_of(s: Seq<char>) -> Option<nat> {
    vcp::numeral(text::trimmed(s), u16::MAX as nat)
}

/// Why `s` denotes no value.
pub open spec fn bad_value(s: Seq<char>) -> Seq<char> {
    if is_hex(text::trimmed(s)) {
        "bad hex value "@ + text::quoted(s)
    } else {
        "bad value "@ + text::quoted(s) + " — use a decimal like 75 or hex like 0x4B"@
    }
}

/// Parse a VCP value: decimal, or hex with an `0x` prefix.
pub fn parse_value(s: &str) -> (r: core::result::Result<u16, String>)
    ensures
        match value_of(s@) {
            Some(n) => r == Ok::<u16, String>(n as u16) && n <= u16::MAX,
            None => r matches Err(e) && e@ == bad_value(s@),
        },
{
    let t = text::trim(s);
    if let Some(n) = vcp::parse_numeral(t.as_str(), 0xFFFF) {
        return Ok(n as u16);
    }
    let cs = text::chars_of(t.as_str());
    if cs.len() >= 2 && cs[0] == '0' && (cs[1] == 'x' || cs[1] == 'X') {
        Err(text::after("bad hex value ", text::quote(s).as_str()))
    } else {
        Err(
            text::between(
                "bad value ",
                text::quote(s).as_str(),
                " — use a decimal like 75 or hex like 0x4B",
            ),
        )
    }
}

/// Why `s` denotes no input.
pub open spec fn bad_input(s: Seq<char>) -> Seq<char> {
    bad_value(s)
        + "\nInput names are vendor-specific, so `displayctl caps` is the way to find yours."@
}

/// Parse the value of an input.
pub fn parse_input_value(s: &str) -> (r: core::result::Result<u16, String>)
    ensures
        match value_of(s@) {
            Some(n) => r == Ok::<u16, String>(n as u16) && n <= u16::MAX,
            None => r matches Err(e) && e@ == bad_input(s@),
        },
{
    match parse_value(s) {
        Ok(n) => Ok(n),
        Err(e) => Err(
            text::after(
                e.as_str(),
                "\nInput names are vendor-specific, so `displayctl caps` is the way to find yours.",
            ),
        ),
    }
}

/// Why an input is not switched without an explicit yes.
pub open spec fn input_refusal(value: u16) -> Seq<char> {
    "refusing to switch input without --yes.\nIf "@ + text::hex_number(value as nat)
        + " has no signal the display goes blank, and you would need the monitor's own OSD to recover.\nRun `displayctl caps` to see which inputs this display advertises."@
}

/// Whether an operation is a write of these.
pub open spec fn writes(
    op: Op,
    display: Seq<char>,
    code: Seq<char>,
    value: nat,
    verify: bool,
    label: Seq<char>,
) -> bool {
    op matches Op::Write { display: d, code: c, value: v, verify: y, label: l } && d@ == display
        && c@ == code && v == value && y == verify && l@ == label
}

/// Whether an operation is a read of these.
pub open spec fn reads(op: Op, display: Seq<char>, code: Seq<char>) -> bool {
    op matches Op::Get { display: d, code: c } && d@ == display && c@ == code
}

/// Whether a shorthand reads a code, or writes it where a value is given.
pub open spec fn shorthand(
    op: Op,
    value: Option<u16>,
    display: Seq<char>,
    code: Seq<char>,
    verify: bool,
) -> bool {
    match value {
        Some(v) => writes(op, display, code, v as nat, verify, code),
        None => reads(op, display, code),
    }
}

/// Whether `r` is what a command line asks for, or why it is refused.
pub open spec fn planned(
    cmd: Command,
    verify: bool,
    r: core::result::Result<Op, String>,
) -> bool {
    match cmd {
        Command::List => r matches Ok(Op::List),
        Command::Version => r matches Ok(Op::Version),
        Command::Get { code, display } => r matches Ok(op) && reads(op, display@, code@),
        Command::Write { code, value, display, yes } => match refusal(code@, yes) {
            Some(why) => r matches Err(e) && e@ == why,
            None => match value_of(value@) {
                Some(n) => r matches Ok(op) && writes(op, display@, code@, n, verify, code@),
                None => r matches Err(e) && e@ == bad_value(value@),
            },
        },
        Command::Brightness { value, display } => r matches Ok(op) && shorthand(
            op,
            value,
            display@,
            "brightness"@,
            verify,
        ),
        Command::Volume { value, display } => r matches Ok(op) && shorthand(
            op,
            value,
            display@,
            "volume"@,
            verify,
        ),
        Command::Input { value, display, yes } => match value_of(value@) {
            None => r matches Err(e) && e@ == bad_input(value@),
            Some(n) => if yes {
                r matches Ok(op) && writes(op, display@, "0x60"@, n, verify, "input"@)
            } else {
                r matches Err(e) && e@ == input_refusal(n as u16)
            },
        },
        Command::Caps { display } => r matches Ok(Op::Caps { display: d }) && d == display,
        Command::ProfileList => r matches Ok(Op::ProfileList),
        Command::ProfileApply { name, yes } => r == Ok::<Op, String>(
            Op::ProfileApply { name, verify, yes },
        ),
        Command::ProfileSave { name, codes, force } => r == Ok::<Op, String>(
            Op::ProfileSave { name, codes, force },
        ),
        Command::ProfileShow { name } => r == Ok::<Op, String>(Op::ProfileShow { name }),
        Command::ProfileDelete { name } => r == Ok::<Op, String>(Op::ProfileDelete { name }),
        Command::RulesPath => r matches Ok(Op::RulesPath),
        Command::RulesList => r matches Ok(Op::RulesList),
        Command::RulesReload => r matches Ok(Op::RulesReload),
        Command::RulesTick => r matches Ok(Op::RulesTick),
    }
}

/// A read of a code, or a write of it where a value is given.
fn plan_shorthand(value: Option<u16>, display: String, code: &str, verify: bool) -> (op: Op)
    ensures
        shorthand(op, value, display@, code@, verify),
{
    match value {
        Some(v) => Op::Write {
            display,
            code: text::own(code),
            value: v,
            verify,
            label: text::own(code),
        },
        None => Op::Get { display, code: text::own(code) },
    }
}

/// What a command line asks for.
pub fn plan(cmd: Command, verify: bool) -> (r: core::result::Result<Op, String>)
    ensures
        planned(cmd, verify, r),
{
    match cmd {
        Command::List => Ok(Op::List),
        Command::Version => Ok(Op::Version),
        Command::Get { code, display } => Ok(Op::Get { display, code }),
        Command::Write { code, value, display, yes } => {
            // The raw escape hatch must not be a way around the confirmation that
            // the `input` sugar enforces.
            match guard_destructive(code.as_str(), yes) {
                Ok(_) => {},
                Err(e) => return Err(e),
            }
            match parse_value(value.as_str()) {
                Ok(v) => {
                    let label = code.clone();
                    Ok(Op::Write { display, code, value: v, verify, label })
                },
                Err(e) => Err(e),
            }
        },
        Command::Brightness { value, display } => Ok(
            plan_shorthand(value, display, "brightness", verify),
        ),
        Command::Volume { value, display } => Ok(plan_shorthand(value, display, "volume", verify)),
        Command::Input { value, display, yes } => {
            let parsed: u16 = match parse_input_value(value.as_str()) {
                Ok(v) => v,
                Err(e) => return Err(e),
            };
            if !yes {
                return Err(
                    text::between(
                        "refusing to switch input without --yes.\nIf ",
                        text::write_hex_number(parsed as u64).as_str(),
                        " has no signal the display goes blank, and you would need the monitor's own OSD to recover.\nRun `displayctl caps` to see which inputs this display advertises.",
                    ),
                );
            }
            Ok(
                Op::Write {
                    display,
                    code: text::own("0x60"),
                    value: parsed,
                    verify,
                    label: text::own("input"),
                },
            )
        },
        Command::Caps { display } => Ok(Op::Caps { display }),
        Command::ProfileList => Ok(Op::ProfileList),
        Command::ProfileApply { name, yes } => Ok(Op::ProfileApply { name, verify, yes }),
        Command::ProfileSave { name, codes, force } => Ok(Op::ProfileSave { name, codes, force }),
        Command::ProfileShow { name } => Ok(Op::ProfileShow { name }),
        Command::ProfileDelete { name } => Ok(Op::ProfileDelete { name }),
        Command::RulesPath => Ok(Op::RulesPath),
        Command::RulesList => Ok(Op::RulesList),
        Command::RulesReload => Ok(Op::RulesReload),
        Command::RulesTick => Ok(Op::RulesTick),
    }
}

// ── Values ─────────────────────────────────────────────────────────────────

/// What stands behind the value of an input: its name, or that it has none of
/// its own.
pub open spec fn input_note(value: u8) -> Seq<char> {
    match vcp::input_label(value) {
        Some(n) => " ("@ + n@ + ")"@,
        None => " (vendor-specific)"@,
    }
}

/// What stands behind the value of an input.
pub fn write_input_note(value: u8) -> (r: String)
    ensures
        r@ == input_note(value),
{
    match vcp::input_source_name(value) {
        Some(n) => text::between(" (", n, ")"),
        None => text::own(" (vendor-specific)"),
    }
}

/// A value as it is printed. The maximum is not a range bound for an enumerated
/// code; "26 / 3" would invent a scale that does not exist.
pub open spec fn value_line(v: api::VcpValue) -> Seq<char> {
    match v.kind {
        api::ValueKind::NonContinuous => {
            let head = v.name@ + ": "@ + text::hex_number(v.current as nat);
            if v.code == 0x60 {
                head + input_note((v.current % 256) as u8)
            } else {
                head
            }
        },
        _ => v.name@ + ": "@ + text::decimal(v.current as nat) + " / "@ + text::decimal(
            v.max as nat,
        ),
    }
}

/// A value as it is printed.
pub fn render_value(v: &api::VcpValue) -> (r: String)
    ensures
        r@ == value_line(*v),
{
    let mut out = text::after(v.name.as_str(), ": ");
    match v.kind {
        api::ValueKind::NonContinuous => {
            out.append(text::write_hex_number(v.current as u64).as_str());
            if v.code == 0x60 {
                out.append(write_input_note((v.current % 256) as u8).as_str());
            }
        },
        _ => {
            out.append(text::write_decimal(v.current as u64).as_str());
            out.append(" / ");
            out.append(text::write_decimal(v.max as u64).as_str());
        },
    }
    out
}

// ── Reports ────────────────────────────────────────────────────────────────

/// Lines to print, and lines to print as warnings.
#[derive(Debug)]
pub struct Output {
    pub out: Vec<String>,
    pub warnings: Vec<String>,
}

/// Ids, one after the other.
pub open spec fn id_list(ids: Seq<u32>) -> Seq<char> {
    text::joined(Seq::new(ids.len(), |i: int| text::decimal(ids[i] as nat)), ", "@)
}

/// Write ids, one after the other.
fn write_ids(ids: &Vec<u32>) -> (r: String)
    ensures
        r@ == id_list(ids@),
{
    let ghost all = Seq::new(ids@.len(), |i: int| text::decimal(ids@[i] as nat));
    let mut parts: Vec<String> = Vec::new();
    let mut i: usize = 0;
    while i < ids.len()
        invariant
            i <= ids@.len(),
            all == Seq::new(ids@.len(), |k: int| text::decimal(ids@[k] as nat)),
            text::texts(parts@) == all.take(i as int),
        decreases ids@.len() - i,
    {
        let ghost before = text::texts(parts@);
        let s = text::write_decimal(ids[i] as u64);
        let ghost t = s@;
        parts.push(s);
        i = i + 1;
        assert(text::texts(parts@) =~= before.push(t));
        assert(all.take(i as int) =~= all.take(i - 1).push(all[i - 1]));
    }
    assert(all.take(i as int) =~= all);
    text::join(&parts, ", ")
}

/// What is printed of a write.
pub open spec fn set_line(what: Seq<char>, value: u16, displays: usize) -> Seq<char> {
    "set "@ + what + " = "@ + text::decimal(value as nat) + " on "@ + text::decimal(
        displays as nat,
    ) + " "@ + if displays == 1 {
        "display"@
    } else {
        "displays"@
    }
}

/// Whether a write took: no display is known to have ignored it.
pub fn set_took(r: &api::SetResult) -> (b: bool)
    ensures
        b == (r.ignored@.len() == 0),
{
    r.ignored.len() == 0
}

/// What is printed of a write that displays ignored: it "succeeded" and did
/// nothing, which the success line alone would not say.
pub open spec fn ignored_line(what: Seq<char>, ids: Seq<u32>) -> Seq<char> {
    "warning: display "@ + id_list(ids)
        + " ignored the write — the value did not change.\nThe monitor may advertise "@ + what
        + " without implementing it."@
}

/// Whether a report tells of a write, with a warning where displays ignored it.
pub open spec fn tells_of_write(o: Output, what: Seq<char>, value: u16, r: api::SetResult) -> bool {
    &&& text::texts(o.out@) == seq![set_line(what, value, r.displays)]
    &&& text::texts(o.warnings@) == if r.ignored@.len() == 0 {
        Seq::<Seq<char>>::empty()
    } else {
        seq![ignored_line(what, r.ignored@)]
    }
}

/// Report a write.
pub fn report_set(what: &str, value: u16, r: &api::SetResult) -> (o: Output)
    ensures
        tells_of_write(o, what@, value, *r),
{
    let mut line = text::between("set ", what, " = ");
    line.append(text::write_decimal(value as u64).as_str());
    line.append(" on ");
    line.append(text::write_decimal(r.displays as u64).as_str());
    line.append(" ");
    if r.displays == 1 {
        line.append("display");
    } else {
        line.append("displays");
    }
    let ghost said = line@;
    let mut out: Vec<String> = Vec::new();
    out.push(line);
    assert(text::texts(out@) =~= seq![said]);
    let mut warnings: Vec<String> = Vec::new();
    assert(text::texts(warnings@) =~= Seq::<Seq<char>>::empty());
    if r.ignored.len() > 0 {
        let mut w = text::between(
            "warning: display ",
            write_ids(&r.ignored).as_str(),
            " ignored the write — the value did not change.\nThe monitor may advertise ",
        );
        w.append(what);
        w.append(" without implementing it.");
        let ghost warned = w@;
        warnings.push(w);
        assert(text::texts(warnings@) =~= seq![warned]);
    }
    Output { out, warnings }
}

/// How a display is driven, in words.
pub open spec fn control_text(c: api::ControlPath) -> Seq<char> {
    match c {
        api::ControlPath::Ddc => "DDC/CI"@,
        api::ControlPath::Native => "built-in"@,
        api::ControlPath::Uncontrollable => "not controllable"@,
    }
}

/// The lines that are printed of a display: its name and how it is driven, and
/// the serial that identifies it, if one does.
pub open spec fn monitor_lines(m: api::MonitorInfo) -> Seq<Seq<char>> {
    let name = if m.product@.len() == 0 {
        m.vendor@ + " (unnamed)"@
    } else {
        m.vendor@ + " "@ + m.product@
    };
    let head = "["@ + text::decimal(m.id as nat) + "] "@ + name + "  —  "@ + control_text(m.control);
    if !m.serial_trustworthy && m.alphanumeric_serial@.len() > 0 {
        seq![
            head,
            "     serial: "@ + m.alphanumeric_serial@ + " (numeric serial is a placeholder)"@,
        ]
    } else if m.serial_trustworthy {
        seq![head, "     serial: "@ + text::signed_decimal(m.serial as int)]
    } else {
        seq![head]
    }
}

/// The lines that are printed of displays.
pub open spec fn list_lines(ms: Seq<api::MonitorInfo>) -> Seq<Seq<char>>
    decreases ms.len(),
{
    if ms.len() == 0 {
        Seq::empty()
    } else {
        list_lines(ms.drop_last()) + monitor_lines(ms.last())
    }
}

/// Print one display.
fn push_monitor(m: &api::MonitorInfo, out: &mut Vec<String>)
    ensures
        text::texts(final(out)@) == text::texts(old(out)@) + monitor_lines(*m),
{
    let ghost before = text::texts(out@);
    let name = if text::empty(m.product.as_str()) {
        text::after(m.vendor.as_str(), " (unnamed)")
    } else {
        text::between(m.vendor.as_str(), " ", m.product.as_str())
    };
    let mut head = text::between("[", text::write_decimal(m.id as u64).as_str(), "] ");
    head.append(name.as_str());
    head.append("  —  ");
    head.append(
        match m.control {
            api::ControlPath::Ddc => "DDC/CI",
            api::ControlPath::Native => "built-in",
            api::ControlPath::Uncontrollable => "not controllable",
        },
    );
    out.push(head);
    if !m.serial_trustworthy && !text::empty(m.alphanumeric_serial.as_str()) {
        out.push(
            text::between(
                "     serial: ",
                m.alphanumeric_serial.as_str(),
                " (numeric serial is a placeholder)",
            ),
        );
    } else if m.serial_trustworthy {
        out.push(text::after("     serial: ", text::write_signed(m.serial).as_str()));
    }
    assert(text::texts(out@) =~= before + monitor_lines(*m));
}

/// The lines that are printed of displays.
pub open spec fn listing(ms: Seq<api::MonitorInfo>) -> Seq<Seq<char>> {
    if ms.len() == 0 {
        seq!["no displays found"@]
    } else {
        list_lines(ms)
    }
}

/// Print the displays.
pub fn print_list(monitors: &Vec<api::MonitorInfo>) -> (r: Vec<String>)
    ensures
        text::texts(r@) == listing(monitors@),
{
    let mut out: Vec<String> = Vec::new();
    if monitors.len() == 0 {
        out.push(text::own("no displays found"));
        assert(text::texts(out@) =~= seq!["no displays found"@]);
        return out;
    }
    let mut i: usize = 0;
    assert(text::texts(out@) =~= Seq::<Seq<char>>::empty());
    while i < monitors.len()
        invariant
            i <= monitors@.len(),
            text::texts(out@) == list_lines(monitors@.take(i as int)),
        decreases monitors@.len() - i,
    {
        assert(monitors@.take(i + 1).drop_last() =~= monitors@.take(i as int));
        push_monitor(&monitors[i], &mut out);
        i = i + 1;
    }
    assert(monitors@.take(i as int) =~= monitors@);
    out
}

/// The lines that are printed of codes.
pub open spec fn code_lines(codes: Seq<u8>) -> Seq<Seq<char>> {
    Seq::new(codes.len(), |i: int| "  "@ + vcp::code_text(vcp::code_of(codes[i])))
}

/// What is printed of the version of a standard, where there is one.
pub open spec fn version_part(v: Option<String>) -> Seq<Seq<char>> {
    match v {
        Some(s) => seq!["MCCS version: "@ + s@],
        None => Seq::empty(),
    }
}

/// What is printed of sections that were not understood, where there are any.
pub open spec fn unknown_part(v: Seq<String>) -> Seq<Seq<char>> {
    if v.len() == 0 {
        Seq::empty()
    } else {
        seq!["unknown sections: "@ + text::joined(text::texts(v), ", "@)]
    }
}

/// The lines that are printed of what a display says of itself.
pub open spec fn caps_lines(c: api::CapsResult) -> Seq<Seq<char>> {
    match c.raw {
        None => seq!["no capability string (display has no DDC path)"@],
        Some(raw) => version_part(c.mccs_version) + seq![
            "advertises "@ + text::decimal(c.vcp_codes@.len()) + " VCP code(s):"@,
        ] + code_lines(c.vcp_codes@) + unknown_part(c.unknown_sections@) + seq![
            Seq::<char>::empty(),
            "raw: "@ + raw@,
        ],
    }
}

/// Print what a display says of itself.
pub fn print_caps(c: &api::CapsResult) -> (r: Vec<String>)
    ensures
        text::texts(r@) == caps_lines(*c),
{
    let mut out: Vec<String> = Vec::new();
    assert(text::texts(out@) =~= Seq::<Seq<char>>::empty());
    let raw = match &c.raw {
        None => {
            text::push_text(&mut out, text::own("no capability string (display has no DDC path)"));
            assert(text::texts(out@) =~= caps_lines(*c));
            return out;
        },
        Some(raw) => raw,
    };
    if let Some(v) = &c.mccs_version {
        text::push_text(&mut out, text::after("MCCS version: ", v.as_str()));
    }
    assert(text::texts(out@) =~= version_part(c.mccs_version));
    text::push_text(
        &mut out,
        text::between(
            "advertises ",
            text::write_decimal(c.vcp_codes.len() as u64).as_str(),
            " VCP code(s):",
        ),
    );
    let ghost head = text::texts(out@);
    let ghost lines = code_lines(c.vcp_codes@);
    let mut i: usize = 0;
    assert(head + lines.take(0) =~= head);
    while i < c.vcp_codes.len()
        invariant
            i <= c.vcp_codes@.len(),
            lines == code_lines(c.vcp_codes@),
            text::texts(out@) == head + lines.take(i as int),
        decreases c.vcp_codes@.len() - i,
    {
        let code = VcpCode::from_code(c.vcp_codes[i]);
        text::push_text(&mut out, text::after("  ", code.describe().as_str()));
        i = i + 1;
        assert(lines.take(i as int) =~= lines.take(i - 1).push(lines[i - 1]));
        assert(text::texts(out@) =~= head + lines.take(i as int));
    }
    assert(lines.take(i as int) =~= lines);
    let ghost listed = text::texts(out@);
    if c.unknown_sections.len() > 0 {
        text::push_text(
            &mut out,
            text::after("unknown sections: ", text::join(&c.unknown_sections, ", ").as_str()),
        );
    }
    assert(text::texts(out@) =~= listed + unknown_part(c.unknown_sections@));
    text::push_text(&mut out, String::new());
    text::push_text(&mut out, text::after("raw: ", raw.as_str()));
    assert(text::texts(out@) =~= caps_lines(*c));
    out
}

/// The lines that are printed of versions.
pub fn print_version(v: &api::VersionInfo, source: &str) -> (r: Vec<String>)
    ensures
        text::texts(r@) == seq![
            "displayctl   "@ + CTL_VERSION@,
            "daemon       "@ + v.daemon@,
            "protocol     "@ + text::decimal(v.protocol as nat),
            "source       "@ + source@,
        ],
{
    let mut out: Vec<String> = Vec::new();
    out.push(text::after("displayctl   ", CTL_VERSION));
    out.push(text::after("daemon       ", v.daemon.as_str()));
    out.push(text::after("protocol     ", text::write_decimal(v.protocol as u64).as_str()));
    out.push(text::after("source       ", source));
    assert(text::texts(out@) =~= seq![
        "displayctl   "@ + CTL_VERSION@,
        "daemon       "@ + v.daemon@,
        "protocol     "@ + text::decimal(v.protocol as nat),
        "source       "@ + source@,
    ]);
    out
}

// ── Profiles ───────────────────────────────────────────────────────────────

/// The line that is printed of a profile.
pub open spec fn profile_line(p: api::ProfileSummary) -> Seq<char> {
    text::padded_right(p.name@, 20) + match p.displays {
        Some(n) => " "@ + text::decimal(n as nat) + " display(s)"@,
        None => " (unreadable — check the TOML)"@,
    }
}

/// The lines that are printed of profiles.
pub open spec fn profiles_listing(list: Seq<api::ProfileSummary>) -> Seq<Seq<char>> {
    if list.len() == 0 {
        seq!["no profiles yet — create one with `displayctl profile save <name>`"@]
    } else {
        Seq::new(list.len(), |i: int| profile_line(list[i]))
    }
}

/// Print the profiles.
pub fn print_profiles(profiles: &Vec<api::ProfileSummary>) -> (r: Vec<String>)
    ensures
        text::texts(r@) == profiles_listing(profiles@),
{
    let mut out: Vec<String> = Vec::new();
    assert(text::texts(out@) =~= Seq::<Seq<char>>::empty());
    if profiles.len() == 0 {
        text::push_text(
            &mut out,
            text::own("no profiles yet — create one with `displayctl profile save <name>`"),
        );
        assert(text::texts(out@)
            =~= seq!["no profiles yet — create one with `displayctl profile save <name>`"@]);
        return out;
    }
    let ghost lines = Seq::new(profiles@.len(), |k: int| profile_line(profiles@[k]));
    let mut i: usize = 0;
    while i < profiles.len()
        invariant
            i <= profiles@.len(),
            lines == Seq::new(profiles@.len(), |k: int| profile_line(profiles@[k])),
            text::texts(out@) == lines.take(i as int),
        decreases profiles@.len() - i,
    {
        let mut line = text::pad_right(profiles[i].name.as_str(), 20);
        let tail = match profiles[i].displays {
            Some(n) => text::between(" ", text::write_decimal(n as u64).as_str(), " display(s)"),
            None => text::own(" (unreadable — check the TOML)"),
        };
        line.append(tail.as_str());
        text::push_text(&mut out, line);
        i = i + 1;
        assert(lines.take(i as int) =~= lines.take(i - 1) + seq![lines[i - 1]]);
    }
    assert(lines.take(i as int) =~= lines);
    out
}

/// The line that is printed of a profile that was taken.
pub fn print_saved(s: &api::ProfileSummary) -> (r: String)
    ensures
        r@ == "saved profile "@ + text::quoted(s.name@) + " with "@ + text::decimal(
            match s.displays {
                Some(n) => n as nat,
                None => 0,
            },
        ) + " display(s)"@,
{
    let n: usize = match s.displays {
        Some(n) => n,
        None => 0,
    };
    let mut out = text::between(
        "saved profile ",
        text::quote(s.name.as_str()).as_str(),
        " with ",
    );
    out.append(text::write_decimal(n as u64).as_str());
    out.append(" display(s)");
    out
}

/// The line that is printed of a profile that was deleted.
pub fn print_deleted(name: &str) -> (r: String)
    ensures
        r@ == "deleted profile "@ + text::quoted(name@),
{
    text::after("deleted profile ", text::quote(name).as_str())
}

/// The line that is printed of one setting.
pub open spec fn outcome_line(o: api::ApplyOutcome) -> Seq<char> {
    let id = match o.display {
        Some(n) => n as nat,
        None => 0,
    };
    let setting = "  ["@ + text::decimal(id) + "] "@ + text::padded_right(o.name@, 22) + " = "@
        + text::decimal(o.value as nat);
    match o.status {
        ApplyStatus::NotConnected => "  "@ + text::padded_right(o.selector@, 24)
            + " — not connected"@,
        ApplyStatus::Applied => setting + " ✓"@,
        ApplyStatus::Ignored => setting + " — IGNORED by display"@,
        ApplyStatus::Unverified => setting,
    }
}

/// Print one setting.
fn print_outcome(o: &api::ApplyOutcome) -> (r: String)
    ensures
        r@ == outcome_line(*o),
{
    if o.status == ApplyStatus::NotConnected {
        return text::between(
            "  ",
            text::pad_right(o.selector.as_str(), 24).as_str(),
            " — not connected",
        );
    }
    let id: u32 = match o.display {
        Some(n) => n,
        None => 0,
    };
    let mut out = text::between("  [", text::write_decimal(id as u64).as_str(), "] ");
    out.append(text::pad_right(o.name.as_str(), 22).as_str());
    out.append(" = ");
    out.append(text::write_decimal(o.value as u64).as_str());
    match o.status {
        ApplyStatus::Applied => out.append(" ✓"),
        ApplyStatus::Ignored => out.append(" — IGNORED by display"),
        _ => {},
    }
    out
}

/// What is said in the end of an application. Without a read-back nobody knows,
/// and saying "applied" unqualified would be a claim that cannot be supported.
pub open spec fn summary_lines(r: api::ApplyResult, verified: bool) -> Seq<Seq<char>> {
    let applied = api::status_count(r.outcomes@, ApplyStatus::Applied);
    let ignored = api::status_count(r.outcomes@, ApplyStatus::Ignored);
    let absent = api::status_count(r.outcomes@, ApplyStatus::NotConnected);
    seq![Seq::<char>::empty(), "applied profile "@ + text::quoted(r.profile@)] + (if ignored > 0 {
        seq![
            "  "@ + text::decimal(ignored)
                + " setting(s) were IGNORED — the display does not implement them"@,
        ]
    } else {
        Seq::empty()
    }) + (if absent > 0 {
        seq![
            "  "@ + text::decimal(absent) + " display(s) in this profile are not connected"@,
        ]
    } else {
        Seq::empty()
    }) + (if !verified {
        seq![
            "  note: writes were not verified. DDC does not acknowledge writes, so this is not proof anything changed — re-run with --verify to check."@,
        ]
    } else if ignored == 0 && applied > 0 {
        seq!["  all "@ + text::decimal(applied) + " setting(s) confirmed"@]
    } else {
        Seq::empty()
    })
}

/// The lines that are printed of an application.
pub open spec fn apply_lines(r: api::ApplyResult, verified: bool) -> Seq<Seq<char>> {
    Seq::new(r.outcomes@.len(), |i: int| outcome_line(r.outcomes@[i])) + summary_lines(r, verified)
}

/// Report an apply, distinguishing "did something" from "claimed to".
pub fn print_apply(r: &api::ApplyResult, verified: bool) -> (v: Vec<String>)
    ensures
        text::texts(v@) == apply_lines(*r, verified),
{
    let mut out: Vec<String> = Vec::new();
    let ghost lines = Seq::new(r.outcomes@.len(), |k: int| outcome_line(r.outcomes@[k]));
    let mut i: usize = 0;
    assert(text::texts(out@) =~= lines.take(0));
    while i < r.outcomes.len()
        invariant
            i <= r.outcomes@.len(),
            lines == Seq::new(r.outcomes@.len(), |k: int| outcome_line(r.outcomes@[k])),
            text::texts(out@) == lines.take(i as int),
        decreases r.outcomes@.len() - i,
    {
        text::push_text(&mut out, print_outcome(&r.outcomes[i]));
        i = i + 1;
        assert(lines.take(i as int) =~= lines.take(i - 1) + seq![lines[i - 1]]);
    }
    assert(lines.take(i as int) =~= lines);
    let applied: usize = r.count(ApplyStatus::Applied);
    let ignored: usize = r.count(ApplyStatus::Ignored);
    let absent: usize = r.count(ApplyStatus::NotConnected);
    text::push_text(&mut out, String::new());
    text::push_text(
        &mut out,
        text::after("applied profile ", text::quote(r.profile.as_str()).as_str()),
    );
    if ignored > 0 {
        text::push_text(
            &mut out,
            text::between(
                "  ",
                text::write_decimal(ignored as u64).as_str(),
                " setting(s) were IGNORED — the display does not implement them",
            ),
        );
    }
    if absent > 0 {
        text::push_text(
            &mut out,
            text::between(
                "  ",
                text::write_decimal(absent as u64).as_str(),
                " display(s) in this profile are not connected",
            ),
        );
    }
    if !verified {
        text::push_text(
            &mut out,
            text::own(
                "  note: writes were not verified. DDC does not acknowledge writes, so this is not proof anything changed — re-run with --verify to check.",
            ),
        );
    } else if ignored == 0 && applied > 0 {
        text::push_text(
            &mut out,
            text::between(
                "  all ",
                text::write_decimal(applied as u64).as_str(),
                " setting(s) confirmed",
            ),
        );
    }
    assert(text::texts(out@) =~= apply_lines(*r, verified));
    out
}

// ── Rules ──────────────────────────────────────────────────────────────────

/// The lines that are printed of a rule.
pub open spec fn rule_lines(r: api::RuleInfo) -> Seq<Seq<char>> {
    seq![
        r.name@ + (if r.enabled {
            ""@
        } else {
            "  (disabled)"@
        }) + (if r.force {
            "  [force]"@
        } else {
            ""@
        }),
        "    when: "@ + r.trigger@,
        "    do:   "@ + r.action@,
    ]
}

/// The lines that are printed of rules.
pub open spec fn all_rule_lines(list: Seq<api::RuleInfo>) -> Seq<Seq<char>>
    decreases list.len(),
{
    if list.len() == 0 {
        Seq::empty()
    } else {
        all_rule_lines(list.drop_last()) + rule_lines(list.last())
    }
}

/// The lines that are printed of rules.
pub open spec fn rules_listing(list: Seq<api::RuleInfo>, path: Seq<char>) -> Seq<Seq<char>> {
    if list.len() == 0 {
        seq!["no rules loaded — create "@ + path]
    } else {
        all_rule_lines(list)
    }
}

/// Print the rules. `path` is where they would be.
pub fn print_rules(list: &Vec<api::RuleInfo>, path: &str) -> (r: Vec<String>)
    ensures
        text::texts(r@) == rules_listing(list@, path@),
{
    let mut out: Vec<String> = Vec::new();
    assert(text::texts(out@) =~= Seq::<Seq<char>>::empty());
    if list.len() == 0 {
        text::push_text(&mut out, text::after("no rules loaded — create ", path));
        assert(text::texts(out@) =~= seq!["no rules loaded — create "@ + path@]);
        return out;
    }
    let mut i: usize = 0;
    while i < list.len()
        invariant
            i <= list@.len(),
            text::texts(out@) == all_rule_lines(list@.take(i as int)),
        decreases list@.len() - i,
    {
        assert(list@.take(i + 1).drop_last() =~= list@.take(i as int));
        let ghost before = text::texts(out@);
        let r = &list[i];
        let state = if r.enabled {
            ""
        } else {
            "  (disabled)"
        };
        let force = if r.force {
            "  [force]"
        } else {
            ""
        };
        text::push_text(&mut out, text::between(r.name.as_str(), state, force));
        text::push_text(&mut out, text::after("    when: ", r.trigger.as_str()));
        text::push_text(&mut out, text::after("    do:   ", r.action.as_str()));
        assert(text::texts(out@) =~= before + rule_lines(*r));
        i = i + 1;
    }
    assert(list@.take(i as int) =~= list@);
    out
}

/// The line that is printed of rules that were read again.
pub fn print_reloaded(n: usize) -> (r: String)
    ensures
        r@ == "reloaded "@ + text::decimal(n as nat) + " rule(s)"@,
{
    text::between("reloaded ", text::write_decimal(n as u64).as_str(), " rule(s)")
}

/// The line that is printed of a rule that fired.
pub open spec fn fired_line(f: api::RuleFired) -> Seq<char> {
    (if f.ok {
        "✓"@
    } else {
        "✗"@
    }) + " "@ + f.name@ + ": "@ + f.detail@
}

/// The lines that are printed of rules that fired.
pub open spec fn fired_listing(list: Seq<api::RuleFired>) -> Seq<Seq<char>> {
    if list.len() == 0 {
        seq!["no rules fired"@]
    } else {
        Seq::new(list.len(), |i: int| fired_line(list[i]))
    }
}

/// Print the rules that fired.
pub fn print_fired(list: &Vec<api::RuleFired>) -> (r: Vec<String>)
    ensures
        text::texts(r@) == fired_listing(list@),
{
    let mut out: Vec<String> = Vec::new();
    assert(text::texts(out@) =~= Seq::<Seq<char>>::empty());
    if list.len() == 0 {
        text::push_text(&mut out, text::own("no rules fired"));
        assert(text::texts(out@) =~= seq!["no rules fired"@]);
        return out;
    }
    let ghost lines = Seq::new(list@.len(), |k: int| fired_line(list@[k]));
    let mut i: usize = 0;
    while i < list.len()
        invariant
            i <= list@.len(),
            lines == Seq::new(list@.len(), |k: int| fired_line(list@[k])),
            text::texts(out@) == lines.take(i as int),
        decreases list@.len() - i,
    {
        let mark = if list[i].ok {
            "✓"
        } else {
            "✗"
        };
        let mut line = text::between(mark, " ", list[i].name.as_str());
        line.append(": ");
        line.append(list[i].detail.as_str());
        text::push_text(&mut out, line);
        i = i + 1;
        assert(lines.take(i as int) =~= lines.take(i - 1) + seq![lines[i - 1]]);
    }
    assert(lines.take(i as int) =~= lines);
    out
}

/// Whether a report gives the path of the rules file, with a warning where others may
/// write it.
pub open spec fn gives_rules_path(o: Output, path: Seq<char>, mode: Option<u32>) -> bool {
    &&& text::texts(o.out@) == seq![path]
    &&& text::texts(o.warnings@) == if mode matches Some(m) && rules::writable_by_others(m) {
        seq![
            "warning: this file is writable by other users and can run shell commands — consider `chmod 600`"@,
        ]
    } else {
        Seq::<Seq<char>>::empty()
    }
}

/// Print where the rules file is, with a warning where others may write it.
pub fn print_rules_path(path: &str, mode: Option<u32>) -> (o: Output)
    ensures
        gives_rules_path(o, path@, mode),
{
    let mut out: Vec<String> = Vec::new();
    out.push(text::own(path));
    assert(text::texts(out@) =~= seq![path@]);
    let mut warnings: Vec<String> = Vec::new();
    assert(text::texts(warnings@) =~= Seq::<Seq<char>>::empty());
    let insecure: bool = match mode {
        Some(m) => m & 0o022 != 0,
        None => false,
    };
    if insecure {
        text::push_text(
            &mut warnings,
            text::own(
                "warning: this file is writable by other users and can run shell commands — consider `chmod 600`",
            ),
        );
        assert(text::texts(warnings@) =~= seq![
            "warning: this file is writable by other users and can run shell commands — consider `chmod 600`"@,
        ]);
    }
    Output { out, warnings }
}

// ── Where the answer comes from ────────────────────────────────────────────

/// Who drives the hardware.
#[derive(Debug, Clone, Copy, PartialEq, Eq, Structural)]
pub enum Access {
    Daemon,
    Direct,
}

impl Access {
    /// Who drives the hardware, in words.
    pub fn describe(self) -> (r: &'static str)
        ensures
            r@ == match self {
                Access::Daemon => "displayd (socket)"@,
                Access::Direct => "direct hardware access (displayd not running)"@,
            },
    {
        match self {
            Access::Daemon => "displayd (socket)",
            Access::Direct => "direct hardware access (displayd not running)",
        }
    }

    /// The version that is reported without a daemon.
    pub fn direct_version() -> (v: api::VersionInfo)
        ensures
            v.protocol == api::PROTOCOL_VERSION,
            v.daemon@ == "not running"@,
    {
        api::VersionInfo { protocol: api::PROTOCOL_VERSION, daemon: text::own("not running") }
    }

    /// Why rules cannot be had without the daemon.
    ///
    /// Automation needs a long-lived process to observe edges, which a one-shot
    /// command cannot do. Rather than pretend otherwise, direct mode says so.
    pub fn no_automation() -> (r: &'static str)
        ensures
            r@ == "automation needs displayd running — rules fire on state changes, which a one-shot command cannot observe. Start the daemon, or use `displayctl rules path` to find the file."@,
    {
        "automation needs displayd running — rules fire on state changes, which a one-shot command cannot observe. Start the daemon, or use `displayctl rules path` to find the file."
    }
}

// ── Laws ───────────────────────────────────────────────────────────────────

/// Nothing destructive is ever written without an explicit yes, by whatever
/// spelling of its code.
pub proof fn law_destructive_writes_need_yes(
    cmd: Command,
    verify: bool,
    r: core::result::Result<Op, String>,
)
    requires
        planned(cmd, verify, r),
        r is Ok,
        cmd matches Command::Write { yes, .. } ==> !yes,
        cmd matches Command::Input { yes, .. } ==> !yes,
    ensures
        r matches Ok(Op::Write { code, .. }) ==> (vcp::code_parsed(code@) matches Some(c)
            ==> !vcp::destructive(c)),
{
    if let Ok(Op::Write { code, .. }) = r {
        lemma_plain_names();
    }
}

/// Brightness and volume are what they say, and harmless.
proof fn lemma_plain_names()
    ensures
        vcp::code_parsed("brightness"@) == Some(VcpCode::Brightness),
        vcp::code_parsed("volume"@) == Some(VcpCode::Volume),
{
    reveal_strlit("brightness");
    reveal_strlit("volume");
    vcp::lemma_names_differ();
    assert("brightness"@ =~= seq!['b', 'r', 'i', 'g', 'h', 't', 'n', 'e', 's', 's']);
    assert("volume"@ =~= seq!['v', 'o', 'l', 'u', 'm', 'e']);
    text::lemma_trimmed_of_tight("brightness"@);
    text::lemma_trimmed_of_tight("volume"@);
    assert(text::ascii_lowered("brightness"@) =~= "brightness"@);
    assert(text::ascii_lowered("volume"@) =~= "volume"@);
    vcp::lemma_unseparated_of_plain("brightness"@);
    vcp::lemma_unseparated_of_plain("volume"@);
}

/// The input that is switched to is the input source code, whatever the value.
pub proof fn law_input_writes_the_input_source(
    value: String,
    display: String,
    verify: bool,
    r: core::result::Result<Op, String>,
)
    requires
        planned(Command::Input { value, display, yes: true }, verify, r),
        value_of(value@) is Some,
    ensures
        r matches Ok(Op::Write { code, .. }) && vcp::code_parsed(code@) == Some(
            VcpCode::InputSource,
        ),
{
    reveal_strlit("0x60");
    vcp::lemma_hex_key(0x60);
    assert("0x60"@ =~= vcp::hex_key(0x60));
    vcp::law_hex_key_reads_back(0x60);
}

/// Writing a code on the command line asks for that code, value and display exactly
/// where the value is a number of 16 bits and the write is confirmed or not one of the
/// seven that cannot be undone. Anything else is refused.
pub proof fn law_writes_are_asked_for_or_refused(
    code: String,
    value: String,
    display: String,
    yes: bool,
    verify: bool,
    r: core::result::Result<Op, String>,
)
    requires
        planned(Command::Write { code, value, display, yes }, verify, r),
    ensures
        ({
            let risky = vcp::code_parsed(code@) matches Some(c) && {
                let n = vcp::code_number(c);
                n == 0x04 || n == 0x05 || n == 0x06 || n == 0x08 || n == 0x0A || n == 0x60 || n
                    == 0xD6
            };
            let number = vcp::numeral(text::trimmed(value@), 0xFFFF);
            &&& (r is Ok) == ((yes || !risky) && number is Some)
            &&& r matches Ok(op) ==> (op matches Op::Write {
                display: d,
                code: c,
                value: v,
                verify: y,
                label,
            } && d@ == display@ && c@ == code@ && number == Some(v as nat) && y == verify)
        }),
{
    if let Some(c) = vcp::code_parsed(code@) {
        vcp::law_destructive_codes_are_seven(c);
    }
}

/// A value is the number that is written, in decimal or behind `0x`, up to 65535.
pub proof fn law_values_are_read(n: nat)
    ensures
        value_of(text::decimal(n)) == (if n <= 65535 {
            Some(n)
        } else {
            None
        }),
{
    let t = text::decimal(n);
    text::lemma_decimal_reads_back(n);
    assert('0' <= t[0] <= '9');
    assert('0' <= t[t.len() - 1] <= '9');
    text::lemma_trimmed_of_tight(t);
    vcp::law_numbers_are_read(n, 65535);
}

/// Switching the input asks for code 0x60 of the display, confirmed and with a number,
/// and is refused otherwise.
pub proof fn law_inputs_are_switched_when_confirmed(
    value: String,
    display: String,
    yes: bool,
    verify: bool,
    r: core::result::Result<Op, String>,
)
    requires
        planned(Command::Input { value, display, yes }, verify, r),
    ensures
        (r is Ok) == (yes && vcp::numeral(text::trimmed(value@), 0xFFFF) is Some),
        r matches Ok(op) ==> (op matches Op::Write { display: d, code, value: v, verify: y, label }
            && d@ == display@ && code@ == "0x60"@ && y == verify && vcp::numeral(
            text::trimmed(value@),
            0xFFFF,
        ) == Some(v as nat)),
{
}

/// Brightness and volume write their own code where a value is given and read it where
/// none is, on the display that is named.
pub proof fn law_shorthands_drive_their_code(
    value: Option<u16>,
    display: String,
    verify: bool,
    bright: core::result::Result<Op, String>,
    loud: core::result::Result<Op, String>,
)
    requires
        planned(Command::Brightness { value, display }, verify, bright),
        planned(Command::Volume { value, display }, verify, loud),
    ensures
        match value {
            Some(n) => {
                &&& bright matches Ok(Op::Write { display: d, code, value: v, verify: y, label })
                    && d@ == display@ && v == n && y == verify && (vcp::code_parsed(
                    code@,
                ) matches Some(c) && vcp::code_number(c) == 0x10)
                &&& loud matches Ok(Op::Write { display: d, code, value: v, verify: y, label }) && d@
                    == display@ && v == n && y == verify && (vcp::code_parsed(code@) matches Some(c)
                    && vcp::code_number(c) == 0x62)
            },
            None => {
                &&& bright matches Ok(Op::Get { display: d, code }) && d@ == display@ && (
                vcp::code_parsed(code@) matches Some(c) && vcp::code_number(c) == 0x10)
                &&& loud matches Ok(Op::Get { display: d, code }) && d@ == display@ && (
                vcp::code_parsed(code@) matches Some(c) && vcp::code_number(c) == 0x62)
            },
        },
{
    lemma_plain_names();
}

/// Every other command asks for what it says, with what it was given.
pub proof fn law_commands_ask_for_what_they_say(
    cmd: Command,
    verify: bool,
    r: core::result::Result<Op, String>,
)
    requires
        planned(cmd, verify, r),
    ensures
        cmd matches Command::Get { code, display } ==> (r matches Ok(Op::Get { display: d, code: c })
            && d@ == display@ && c@ == code@),
        cmd matches Command::Caps { display } ==> (r matches Ok(Op::Caps { display: d }) && d@
            == display@),
        cmd matches Command::ProfileApply { name, yes } ==> (r matches Ok(Op::ProfileApply {
            name: n,
            verify: v,
            yes: y,
        }) && n@ == name@ && v == verify && y == yes),
        cmd matches Command::ProfileSave { name, codes, force } ==> (r matches Ok(Op::ProfileSave {
            name: n,
            codes: c,
            force: f,
        }) && n@ == name@ && c == codes && f == force),
        cmd matches Command::ProfileShow { name } ==> (r matches Ok(Op::ProfileShow { name: n }) && n@
            == name@),
        cmd matches Command::ProfileDelete { name } ==> (r matches Ok(Op::ProfileDelete { name: n })
            && n@ == name@),
        (r matches Ok(Op::List)) == (cmd is List),
        (r matches Ok(Op::Version)) == (cmd is Version),
        (r matches Ok(Op::ProfileList)) == (cmd is ProfileList),
        (r matches Ok(Op::RulesPath)) == (cmd is RulesPath),
        (r matches Ok(Op::RulesList)) == (cmd is RulesList),
        (r matches Ok(Op::RulesReload)) == (cmd is RulesReload),
        (r matches Ok(Op::RulesTick)) == (cmd is RulesTick),
        (r matches Ok(Op::ProfileDelete { name })) == (cmd is ProfileDelete),
{
}

/// The report of an application has a line for each outcome, tells of ignored settings
/// and of displays that are not connected exactly where there are any, and ends with a
/// warning where nothing was verified. It says that all is confirmed only where
/// something was applied, verified, and nothing ignored.
pub proof fn law_reports_claim_no_more_than_is_known(r: api::ApplyResult, verified: bool)
    ensures
        ({
            let n = r.outcomes@.len() as int;
            let applied = api::status_count(r.outcomes@, ApplyStatus::Applied);
            let ignored = api::status_count(r.outcomes@, ApplyStatus::Ignored);
            let absent = api::status_count(r.outcomes@, ApplyStatus::NotConnected);
            let lines = apply_lines(r, verified);
            let told: int = if ignored > 0 {
                1
            } else {
                0
            };
            let missed: int = if absent > 0 {
                1
            } else {
                0
            };
            let closed: int = if !verified || (ignored == 0 && applied > 0) {
                1
            } else {
                0
            };
            &&& lines.len() == n + 2 + told + missed + closed
            &&& forall|i: int| 0 <= i < n ==> #[trigger] lines[i] == outcome_line(r.outcomes@[i])
            &&& ignored > 0 ==> lines[n + 2] == "  "@ + text::decimal(ignored)
                + " setting(s) were IGNORED — the display does not implement them"@
            &&& absent > 0 ==> lines[n + 2 + told] == "  "@ + text::decimal(absent)
                + " display(s) in this profile are not connected"@
            &&& verified && closed == 1 ==> lines[n + 2 + told + missed] == "  all "@ + text::decimal(
                applied,
            ) + " setting(s) confirmed"@
        }),
{
}

/// A line of the report marks what was applied, what was ignored and what was not
/// there, and marks nothing where nothing was verified.
pub proof fn law_outcomes_are_marked(o: api::ApplyOutcome)
    ensures
        ({
            let id = match o.display {
                Some(n) => n as nat,
                None => 0,
            };
            let setting = "  ["@ + text::decimal(id) + "] "@ + text::padded_right(o.name@, 22) + " = "@
                + text::decimal(o.value as nat);
            &&& o.status == ApplyStatus::Applied ==> outcome_line(o) == setting + " ✓"@
            &&& o.status == ApplyStatus::Ignored ==> outcome_line(o) == setting
                + " — IGNORED by display"@
            &&& o.status == ApplyStatus::Unverified ==> outcome_line(o) == setting
            &&& o.status == ApplyStatus::NotConnected ==> outcome_line(o) == "  "@
                + text::padded_right(o.selector@, 24) + " — not connected"@
        }),
{
}

/// A range is shown as its value out of its maximum, an enumerated value by its number
/// alone, since its maximum means nothing, and an input with its name where it has one.
pub proof fn law_values_are_shown_by_kind(v: api::VcpValue)
    ensures
        !(v.kind is NonContinuous) ==> value_line(v) == v.name@ + ": "@ + text::decimal(
            v.current as nat,
        ) + " / "@ + text::decimal(v.max as nat),
        v.kind is NonContinuous && v.code != 0x60 ==> value_line(v) == v.name@ + ": "@
            + text::hex_number(v.current as nat),
        v.kind is NonContinuous && v.code == 0x60 ==> value_line(v) == v.name@ + ": "@
            + text::hex_number(v.current as nat) + (match vcp::input_label((v.current % 256) as u8) {
            Some(n) => " ("@ + n@ + ")"@,
            None => " (vendor-specific)"@,
        }),
{
}

/// A write is reported with what was written, on how many displays. There is a warning
/// exactly where displays ignored it, and it names every one of them.
pub proof fn law_ignored_writes_are_warned_of(
    o: Output,
    what: Seq<char>,
    value: u16,
    r: api::SetResult,
)
    requires
        tells_of_write(o, what, value, r),
    ensures
        o.out@.len() == 1,
        r.displays == 1 ==> o.out@[0]@ == "set "@ + what + " = "@ + text::decimal(value as nat)
            + " on "@ + text::decimal(1) + " "@ + "display"@,
        r.displays != 1 ==> o.out@[0]@ == "set "@ + what + " = "@ + text::decimal(value as nat)
            + " on "@ + text::decimal(r.displays as nat) + " "@ + "displays"@,
        o.warnings@.len() == 0 <==> r.ignored@.len() == 0,
        r.ignored@.len() > 0 ==> o.warnings@.len() == 1 && o.warnings@[0]@ == "warning: display "@
            + text::joined(
            Seq::new(r.ignored@.len(), |i: int| text::decimal(r.ignored@[i] as nat)),
            ", "@,
        ) + " ignored the write — the value did not change.\nThe monitor may advertise "@ + what
            + " without implementing it."@,
{
    assert(text::texts(o.out@).len() == o.out@.len());
    assert(text::texts(o.out@)[0] == o.out@[0]@);
    assert(text::texts(o.warnings@).len() == o.warnings@.len());
    if r.ignored@.len() > 0 {
        assert(text::texts(o.warnings@)[0] == o.warnings@[0]@);
    }
}

/// Where the lines of a display start.
proof fn lemma_listed(ms: Seq<api::MonitorInfo>, i: int) -> (at: int)
    requires
        0 <= i < ms.len(),
    ensures
        0 <= at,
        at + monitor_lines(ms[i]).len() <= list_lines(ms).len(),
        forall|k: int|
            0 <= k < monitor_lines(ms[i]).len() ==> #[trigger] list_lines(ms)[at + k]
                == monitor_lines(ms[i])[k],
        ms.len() <= list_lines(ms).len() <= 2 * ms.len(),
    decreases ms.len(),
{
    let rest = ms.drop_last();
    let was = list_lines(rest);
    if rest.len() > 0 {
        let j = if i < rest.len() {
            i
        } else {
            0
        };
        let at = lemma_listed(rest, j);
        if i < rest.len() {
            assert(rest[i] == ms[i]);
            assert forall|k: int| 0 <= k < monitor_lines(ms[i]).len() implies #[trigger] list_lines(
                ms,
            )[at + k] == monitor_lines(ms[i])[k] by {
                assert(was[at + k] == monitor_lines(rest[i])[k]);
            }
            at
        } else {
            was.len() as int
        }
    } else {
        was.len() as int
    }
}

/// Every display is listed by its number, its maker and product, and how it is driven. Its
/// numeric serial follows where it can be trusted, and else the other one where it has one.
pub proof fn law_every_display_is_printed(ms: Seq<api::MonitorInfo>, i: int) -> (at: int)
    ensures
        ms.len() == 0 ==> listing(ms) == seq!["no displays found"@],
        0 <= i < ms.len() ==> {
            let m = ms[i];
            let lines = listing(ms);
            let way = if m.control is Ddc {
                "DDC/CI"@
            } else if m.control is Native {
                "built-in"@
            } else {
                "not controllable"@
            };
            let name = if m.product@.len() > 0 {
                m.vendor@ + " "@ + m.product@
            } else {
                m.vendor@ + " (unnamed)"@
            };
            &&& 0 <= at < lines.len()
            &&& lines[at] == "["@ + text::decimal(m.id as nat) + "] "@ + name + "  —  "@ + way
            &&& m.serial_trustworthy ==> at + 1 < lines.len() && lines[at + 1] == "     serial: "@
                + text::signed_decimal(m.serial as int)
            &&& !m.serial_trustworthy && m.alphanumeric_serial@.len() > 0 ==> at + 1 < lines.len()
                && lines[at + 1] == "     serial: "@ + m.alphanumeric_serial@
                + " (numeric serial is a placeholder)"@
        },
{
    if 0 <= i < ms.len() {
        let at = lemma_listed(ms, i);
        let own = monitor_lines(ms[i]);
        assert(list_lines(ms)[at + 0] == own[0]);
        if own.len() == 2 {
            assert(list_lines(ms)[at + 1] == own[1]);
        }
        at
    } else {
        0
    }
}

/// What a display advertises is printed with its version where it gives one, how many codes
/// there are, each of them in order, the sections that were not understood where there are
/// any, and the string itself at the end.
pub proof fn law_capabilities_are_printed(c: api::CapsResult, i: int)
    ensures
        c.raw is None ==> caps_lines(c) == seq!["no capability string (display has no DDC path)"@],
        c.raw is Some ==> {
            let lines = caps_lines(c);
            let n = c.vcp_codes@.len() as int;
            let v: int = if c.mccs_version is Some {
                1
            } else {
                0
            };
            let u: int = if c.unknown_sections@.len() > 0 {
                1
            } else {
                0
            };
            &&& lines.len() == v + 1 + n + u + 2
            &&& v == 1 ==> lines[0] == "MCCS version: "@ + c.mccs_version->0@
            &&& lines[v] == "advertises "@ + text::decimal(c.vcp_codes@.len()) + " VCP code(s):"@
            &&& 0 <= i < n ==> lines[v + 1 + i] == "  "@ + vcp::code_text(
                vcp::code_of(c.vcp_codes@[i]),
            )
            &&& u == 1 ==> lines[v + 1 + n] == "unknown sections: "@ + text::joined(
                text::texts(c.unknown_sections@),
                ", "@,
            )
            &&& lines[v + 1 + n + u].len() == 0
            &&& lines[v + 2 + n + u] == "raw: "@ + c.raw->0@
        },
{
}

/// Rules make three lines each, in order.
proof fn lemma_rule_lines(list: Seq<api::RuleInfo>, i: int)
    ensures
        all_rule_lines(list).len() == 3 * list.len(),
        0 <= i < list.len() ==> {
            &&& all_rule_lines(list)[3 * i] == rule_lines(list[i])[0]
            &&& all_rule_lines(list)[3 * i + 1] == rule_lines(list[i])[1]
            &&& all_rule_lines(list)[3 * i + 2] == rule_lines(list[i])[2]
        },
    decreases list.len(),
{
    if list.len() > 0 {
        let rest = list.drop_last();
        lemma_rule_lines(rest, i);
        if 0 <= i < rest.len() {
            assert(rest[i] == list[i]);
        }
    }
}

/// Every rule is printed by its name, marked where it is off and where it may write what
/// cannot be undone, with what sets it off and what it does.
pub proof fn law_every_rule_is_printed(list: Seq<api::RuleInfo>, path: Seq<char>, i: int)
    ensures
        list.len() == 0 ==> rules_listing(list, path) == seq!["no rules loaded — create "@ + path],
        list.len() > 0 ==> rules_listing(list, path).len() == 3 * list.len(),
        0 <= i < list.len() ==> {
            let r = list[i];
            let lines = rules_listing(list, path);
            &&& r.enabled && !r.force ==> lines[3 * i] == r.name@
            &&& !r.enabled && !r.force ==> lines[3 * i] == r.name@ + "  (disabled)"@
            &&& r.enabled && r.force ==> lines[3 * i] == r.name@ + "  [force]"@
            &&& !r.enabled && r.force ==> lines[3 * i] == r.name@ + "  (disabled)"@ + "  [force]"@
            &&& lines[3 * i + 1] == "    when: "@ + r.trigger@
            &&& lines[3 * i + 2] == "    do:   "@ + r.action@
        },
{
    lemma_rule_lines(list, i);
    if 0 <= i < list.len() {
        reveal_strlit("");
        let r = list[i];
        assert(""@ =~= Seq::<char>::empty());
        assert(r.name@ + ""@ =~= r.name@);
        assert(r.name@ + "  (disabled)"@ + ""@ =~= r.name@ + "  (disabled)"@);
        assert(r.name@ + ""@ + ""@ =~= r.name@);
        assert(r.name@ + ""@ + "  [force]"@ =~= r.name@ + "  [force]"@);
    }
}

/// Every rule that fired is printed with a tick where it succeeded and a cross where it did
/// not, and with what it did or why it could not.
pub proof fn law_every_fired_rule_is_printed(list: Seq<api::RuleFired>, i: int)
    ensures
        list.len() == 0 ==> fired_listing(list) == seq!["no rules fired"@],
        list.len() > 0 ==> fired_listing(list).len() == list.len(),
        0 <= i < list.len() && list[i].ok ==> fired_listing(list)[i] == "✓"@ + " "@ + list[i].name@
            + ": "@ + list[i].detail@,
        0 <= i < list.len() && !list[i].ok ==> fired_listing(list)[i] == "✗"@ + " "@ + list[i].name@
            + ": "@ + list[i].detail@,
{
}

/// Every profile is printed by its name, with how many displays it is for, or said to be
/// unreadable.
pub proof fn law_every_profile_is_printed(list: Seq<api::ProfileSummary>, i: int)
    ensures
        list.len() == 0 ==> profiles_listing(list) == seq![
            "no profiles yet — create one with `displayctl profile save <name>`"@,
        ],
        list.len() > 0 ==> profiles_listing(list).len() == list.len(),
        0 <= i < list.len() && list[i].displays is Some ==> profiles_listing(list)[i]
            == text::padded_right(list[i].name@, 20) + (" "@ + text::decimal(
            list[i].displays->0 as nat,
        ) + " display(s)"@),
        0 <= i < list.len() && list[i].displays is None ==> profiles_listing(list)[i]
            == text::padded_right(list[i].name@, 20) + " (unreadable — check the TOML)"@,
{
}

/// The path of the rules file is printed, with a warning exactly where the group or others
/// may write it.
pub proof fn law_writable_rules_are_warned_of(o: Output, path: Seq<char>, mode: Option<u32>)
    requires
        gives_rules_path(o, path, mode),
    ensures
        o.out@.len() == 1,
        o.out@[0]@ == path,
        o.warnings@.len() > 0 <==> mode is Some && rules::writable_by_others(mode->0),
{
    assert(text::texts(o.out@).len() == o.out@.len());
    assert(text::texts(o.out@)[0] == o.out@[0]@);
    assert(text::texts(o.warnings@).len() == o.warnings@.len());
}

/// An input is noted by its name, and as the vendor's own where it has none.
pub proof fn law_inputs_are_noted(value: u8)
    ensures
        vcp::input_label(value) is Some ==> input_note(value) == " ("@ + vcp::input_label(value)->0@
            + ")"@,
        vcp::input_label(value) is None ==> input_note(value) == " (vendor-specific)"@,
{
}

/// A value that is none is refused by name, as a bad hexadecimal one where it was meant as
/// one, and with a hint where it was not. An input is refused with where to look for it.
pub proof fn law_bad_values_are_told_apart(s: Seq<char>)
    ensures
        ({
            let t = text::trimmed(s);
            let meant = t.len() >= 2 && t[0] == '0' && (t[1] == 'x' || t[1] == 'X');
            &&& meant ==> bad_value(s) == "bad hex value "@ + text::quoted(s)
            &&& !meant ==> bad_value(s) == "bad value "@ + text::quoted(s)
                + " — use a decimal like 75 or hex like 0x4B"@
            &&& bad_input(s) == bad_value(s)
                + "\nInput names are vendor-specific, so `displayctl caps` is the way to find yours."@
        }),
{
}

/// What is refused says what it would have written and what could come of it.
pub proof fn law_refusals_say_what_is_at_stake(code_str: Seq<char>, yes: bool)
    ensures
        ({
            let c = vcp::code_parsed(code_str);
            &&& refusal(code_str, yes) is Some <==> c is Some && vcp::destructive(c->Some_0) && !yes
            &&& refusal(code_str, yes) is Some ==> refusal(code_str, yes)->Some_0
                == "refusing to write "@ + vcp::code_label(c->Some_0) + " without --yes.\n"@
                + consequence(c->Some_0)
            &&& c is Some && c->Some_0 is InputSource ==> consequence(c->Some_0)
                == "If the target input has no signal the display goes blank, and you would need the monitor's own OSD to get back."@
            &&& c is Some && c->Some_0 is PowerMode ==> consequence(c->Some_0)
                == "This can put the display into standby, which may need a physical button to undo."@
            &&& c is Some && (c->Some_0 is RestoreFactoryDefaults || c->Some_0
                is RestoreFactoryLuminance || c->Some_0 is RestoreFactoryColor) ==> consequence(
                c->Some_0,
            )
                == "This wipes the monitor's saved settings — including ones this tool never set. There is no undo."@
        }),
{
}

} // verus!
