//! JSON-RPC dispatch.
//!
//! A request becomes a command for the worker or an answer at once. Never fails
//! on bad input: a malformed frame from any client must not be able to take the
//! daemon down.

use crate::api;
use crate::api::method;
use crate::api::{Response, VersionInfo};
use crate::daemon::selection;
use crate::daemon::selection::EngineError;
use crate::daemon::worker::Command;
use crate::ddc::vcp;
use crate::ddc::vcp::VcpCode;
use crate::text;
use vstd::prelude::*;

verus! {

/// The version that the daemon reports.
pub const DAEMON_VERSION: &'static str = "0.1.0";

/// Codes captured by `profiles.save` when the caller names none.
///
/// Deliberately small: these are what monitors most commonly *honour*, and a
/// snapshot of codes a display ignores would produce a profile that silently
/// does nothing on apply.
pub const DEFAULT_SNAPSHOT_CODES: [VcpCode; 6] = [
    VcpCode::Brightness,
    VcpCode::Contrast,
    VcpCode::Volume,
    VcpCode::RedGain,
    VcpCode::GreenGain,
    VcpCode::BlueGain,
];

/// Whether every name is that of a code.
pub open spec fn all_known(names: Seq<String>) -> bool {
    forall|i: int| 0 <= i < names.len() ==> vcp::code_parsed((#[trigger] names[i])@) is Some
}

/// The codes that names stand for.
pub open spec fn codes_named(names: Seq<String>) -> Seq<VcpCode> {
    Seq::new(names.len(), |i: int| vcp::code_parsed(names[i]@)->Some_0)
}

/// Whether name `i` is the first that stands for no code.
pub open spec fn first_unknown(names: Seq<String>, i: int) -> bool {
    &&& 0 <= i < names.len()
    &&& vcp::code_parsed(names[i]@) is None
    &&& all_known(names.take(i))
}

/// What an unknown code is answered.
pub open spec fn unknown_text(name: Seq<char>) -> Seq<char> {
    "unknown VCP code "@ + text::quoted(name)
}

/// Whether `r` holds the codes that names stand for: the default set where there
/// are none, an error that names the first that stands for nothing.
pub open spec fn codes_resolved(
    names: Seq<String>,
    r: core::result::Result<Vec<VcpCode>, String>,
) -> bool {
    if names.len() == 0 {
        r matches Ok(v) && v@ == DEFAULT_SNAPSHOT_CODES@
    } else {
        match r {
            Ok(v) => all_known(names) && v@ == codes_named(names),
            Err(e) => exists|i: int| #[trigger]
                first_unknown(names, i) && e@ == unknown_text(names[i]@),
        }
    }
}

/// The codes that names stand for.
pub fn resolve_codes(names: &Vec<String>) -> (r: core::result::Result<Vec<VcpCode>, String>)
    ensures
        codes_resolved(names@, r),
{
    let mut out: Vec<VcpCode> = Vec::new();
    if names.len() == 0 {
        let mut k: usize = 0;
        while k < 6
            invariant
                k <= 6,
                out@ == DEFAULT_SNAPSHOT_CODES@.take(k as int),
            decreases 6 - k,
        {
            out.push(DEFAULT_SNAPSHOT_CODES[k]);
            k = k + 1;
            assert(DEFAULT_SNAPSHOT_CODES@.take(k as int) =~= DEFAULT_SNAPSHOT_CODES@.take(
                k - 1,
            ).push(DEFAULT_SNAPSHOT_CODES@[k - 1]));
        }
        assert(DEFAULT_SNAPSHOT_CODES@.take(6) =~= DEFAULT_SNAPSHOT_CODES@);
        return Ok(out);
    }
    let mut i: usize = 0;
    while i < names.len()
        invariant
            i <= names@.len(),
            names@.len() > 0,
            all_known(names@.take(i as int)),
            out@ == codes_named(names@.take(i as int)),
        decreases names@.len() - i,
    {
        match vcp::parse_code(names[i].as_str()) {
            Some(c) => {
                let ghost before = names@.take(i as int);
                out.push(c);
                i = i + 1;
                assert forall|k: int| 0 <= k < i implies vcp::code_parsed(
                    (#[trigger] names@.take(i as int)[k])@,
                ) is Some by {
                    if k < i - 1 {
                        assert(before[k] == names@.take(i as int)[k]);
                    }
                }
                assert(out@ =~= codes_named(names@.take(i as int))) by {
                    assert forall|k: int| 0 <= k < i - 1 implies out@[k] == codes_named(
                        names@.take(i as int),
                    )[k] by {
                        assert(before[k] == names@.take(i as int)[k]);
                    }
                }
            },
            None => {
                assert(first_unknown(names@, i as int));
                return Err(
                    text::after("unknown VCP code ", text::quote(names[i].as_str()).as_str()),
                );
            },
        }
    }
    assert(names@.take(i as int) =~= names@);
    Ok(out)
}

/// The parameters of a request, parsed into the shape of its method.
#[derive(Debug)]
pub enum Params {
    /// There are none.
    Absent,
    /// They do not have the shape of the method, and why.
    Invalid(String),
    Get(api::GetParams),
    Write(api::SetParams),
    Caps(api::CapsParams),
    Apply(api::ProfileApplyParams),
    Save(api::ProfileSaveParams),
    Name(api::ProfileNameParams),
}

/// The shape that a method wants its parameters in.
#[derive(Debug, Clone, Copy, PartialEq, Eq, Structural)]
pub enum Shape {
    /// It takes none.
    Nothing,
    Get,
    Write,
    Caps,
    Apply,
    Save,
    Name,
}

/// The shape that a method wants its parameters in.
pub open spec fn shape_of(m: Seq<char>) -> Shape {
    if m == method::GET@ {
        Shape::Get
    } else if m == method::SET@ {
        Shape::Write
    } else if m == method::CAPS@ {
        Shape::Caps
    } else if m == method::PROFILE_APPLY@ {
        Shape::Apply
    } else if m == method::PROFILE_SAVE@ {
        Shape::Save
    } else if m == method::PROFILE_DELETE@ || m == method::PROFILE_SHOW@ {
        Shape::Name
    } else {
        Shape::Nothing
    }
}

/// The shape that a method wants its parameters in.
pub fn shape(m: &str) -> (s: Shape)
    ensures
        s == shape_of(m@),
{
    if text::same(m, method::GET) {
        Shape::Get
    } else if text::same(m, method::SET) {
        Shape::Write
    } else if text::same(m, method::CAPS) {
        Shape::Caps
    } else if text::same(m, method::PROFILE_APPLY) {
        Shape::Apply
    } else if text::same(m, method::PROFILE_SAVE) {
        Shape::Save
    } else if text::same(m, method::PROFILE_DELETE) || text::same(m, method::PROFILE_SHOW) {
        Shape::Name
    } else {
        Shape::Nothing
    }
}

/// What a request amounts to.
#[derive(Debug)]
pub enum Plan {
    /// The version, at once.
    Version(VersionInfo),
    /// A command for the worker.
    Run(Command),
    /// A refusal, at once.
    Refuse(i32, String),
}

/// Whether a refusal says what is wrong with parameters.
pub open spec fn refuses_params(p: Plan, params: Params) -> bool {
    p matches Plan::Refuse(code, message) && code == api::INVALID_PARAMS && match params {
        Params::Invalid(why) => message@ == why@,
        _ => message@ == "missing params"@,
    }
}

/// Whether a plan is what a request amounts to.
pub open spec fn planned(m: Seq<char>, params: Params, p: Plan) -> bool {
    if m == method::VERSION@ {
        p matches Plan::Version(v) && v.protocol == api::PROTOCOL_VERSION && v.daemon@
            == DAEMON_VERSION@
    } else if m == method::LIST@ {
        p matches Plan::Run(Command::List)
    } else if m == method::GET@ {
        match params {
            Params::Get(g) => p matches Plan::Run(Command::Get { display, code }) && display
                == g.display && code == g.code,
            _ => refuses_params(p, params),
        }
    } else if m == method::SET@ {
        match params {
            Params::Write(w) => p matches Plan::Run(
                Command::Write { display, code, value, verify },
            ) && display == w.display && code == w.code && value == w.value && verify == w.verify,
            _ => refuses_params(p, params),
        }
    } else if m == method::CAPS@ {
        match params {
            Params::Caps(c) => p matches Plan::Run(Command::Caps { display }) && display
                == c.display,
            _ => refuses_params(p, params),
        }
    } else if m == method::PROFILE_LIST@ {
        p matches Plan::Run(Command::ProfileList)
    } else if m == method::PROFILE_APPLY@ {
        match params {
            Params::Apply(a) => p matches Plan::Run(Command::ProfileApply { name, verify, yes })
                && name == a.name && verify == a.verify && yes == a.yes,
            _ => refuses_params(p, params),
        }
    } else if m == method::PROFILE_SAVE@ {
        match params {
            Params::Save(s) => exists|r: core::result::Result<Vec<VcpCode>, String>| #[trigger]
                codes_resolved(s.codes@, r) && match r {
                    Ok(v) => p matches Plan::Run(Command::ProfileSave { name, codes, force })
                        && name == s.name && codes == v && force == s.force,
                    Err(e) => p == Plan::Refuse(api::INVALID_PARAMS, e),
                },
            _ => refuses_params(p, params),
        }
    } else if m == method::PROFILE_DELETE@ {
        match params {
            Params::Name(n) => p matches Plan::Run(Command::ProfileDelete { name }) && name
                == n.name,
            _ => refuses_params(p, params),
        }
    } else if m == method::PROFILE_SHOW@ {
        match params {
            Params::Name(n) => p matches Plan::Run(Command::ProfileShow { name }) && name == n.name,
            _ => refuses_params(p, params),
        }
    } else if m == method::RULES_LIST@ {
        p matches Plan::Run(Command::RulesList)
    } else if m == method::RULES_RELOAD@ {
        p matches Plan::Run(Command::RulesReload)
    } else if m == method::RULES_TICK@ {
        p matches Plan::Run(Command::AutomationTick)
    } else {
        p matches Plan::Refuse(code, message) && code == api::METHOD_NOT_FOUND && message@
            == "unknown method "@ + text::quoted(m)
    }
}

/// Say what is wrong with parameters.
fn refuse_params(params: Params) -> (p: Plan)
    ensures
        refuses_params(p, params),
{
    match params {
        Params::Invalid(why) => Plan::Refuse(api::INVALID_PARAMS, why),
        _ => Plan::Refuse(api::INVALID_PARAMS, text::own("missing params")),
    }
}

/// What a request amounts to.
pub fn plan(m: &str, params: Params) -> (p: Plan)
    ensures
        planned(m@, params, p),
{
    if text::same(m, method::VERSION) {
        Plan::Version(
            VersionInfo { protocol: api::PROTOCOL_VERSION, daemon: text::own(DAEMON_VERSION) },
        )
    } else if text::same(m, method::LIST) {
        Plan::Run(Command::List)
    } else if text::same(m, method::GET) {
        match params {
            Params::Get(g) => Plan::Run(Command::Get { display: g.display, code: g.code }),
            other => refuse_params(other),
        }
    } else if text::same(m, method::SET) {
        match params {
            Params::Write(w) => Plan::Run(
                Command::Write {
                    display: w.display,
                    code: w.code,
                    value: w.value,
                    verify: w.verify,
                },
            ),
            other => refuse_params(other),
        }
    } else if text::same(m, method::CAPS) {
        match params {
            Params::Caps(c) => Plan::Run(Command::Caps { display: c.display }),
            other => refuse_params(other),
        }
    } else if text::same(m, method::PROFILE_LIST) {
        Plan::Run(Command::ProfileList)
    } else if text::same(m, method::PROFILE_APPLY) {
        match params {
            Params::Apply(a) => Plan::Run(
                Command::ProfileApply { name: a.name, verify: a.verify, yes: a.yes },
            ),
            other => refuse_params(other),
        }
    } else if text::same(m, method::PROFILE_SAVE) {
        match params {
            Params::Save(s) => {
                let r = resolve_codes(&s.codes);
                assert(codes_resolved(s.codes@, r));
                match r {
                    Ok(codes) => Plan::Run(
                        Command::ProfileSave { name: s.name, codes, force: s.force },
                    ),
                    Err(e) => Plan::Refuse(api::INVALID_PARAMS, e),
                }
            },
            other => refuse_params(other),
        }
    } else if text::same(m, method::PROFILE_DELETE) {
        match params {
            Params::Name(n) => Plan::Run(Command::ProfileDelete { name: n.name }),
            other => refuse_params(other),
        }
    } else if text::same(m, method::PROFILE_SHOW) {
        match params {
            Params::Name(n) => Plan::Run(Command::ProfileShow { name: n.name }),
            other => refuse_params(other),
        }
    } else if text::same(m, method::RULES_LIST) {
        Plan::Run(Command::RulesList)
    } else if text::same(m, method::RULES_RELOAD) {
        Plan::Run(Command::RulesReload)
    } else if text::same(m, method::RULES_TICK) {
        // Exposed so the CLI can force an evaluation rather than waiting for the
        // next poll: the difference between testing a rule and guessing.
        Plan::Run(Command::AutomationTick)
    } else {
        Plan::Refuse(
            api::METHOD_NOT_FOUND,
            text::after("unknown method ", text::quote(m).as_str()),
        )
    }
}

/// What is next for a request.
#[derive(Debug)]
pub enum Next {
    /// It is answered with this.
    Reply(Response),
    /// It is answered with the version.
    Tell(VersionInfo),
    /// The worker has to run this, and what it says is the answer.
    Run(Command),
}

/// Whether a response refuses a request: with its id, and with nothing but an
/// error.
pub open spec fn refuses(r: Response, id: u64, code: i32, message: Seq<char>) -> bool {
    &&& r.jsonrpc@ == "2.0"@
    &&& r.id == id
    &&& r.result is None
    &&& r.error matches Some(e) && e.code == code && e.message@ == message
}

/// Whether `n` is what comes of a plan.
pub open spec fn followed(id: u64, p: Plan, n: Next) -> bool {
    match p {
        Plan::Version(v) => n == Next::Tell(v),
        Plan::Run(cmd) => n == Next::Run(cmd),
        Plan::Refuse(code, message) => n matches Next::Reply(r) && refuses(r, id, code, message@),
    }
}

/// What comes of a plan: a refusal is answered at once.
pub fn follow(id: u64, p: Plan) -> (n: Next)
    ensures
        followed(id, p, n),
{
    match p {
        Plan::Version(v) => Next::Tell(v),
        Plan::Run(cmd) => Next::Run(cmd),
        Plan::Refuse(code, message) => Next::Reply(Response::err(id, code, message)),
    }
}

/// Whether `n` is what is next for a request.
pub open spec fn handled(id: u64, m: Seq<char>, params: Params, n: Next) -> bool {
    exists|p: Plan| #[trigger] planned(m, params, p) && followed(id, p, n)
}

/// What is next for a request.
pub fn handle(id: u64, m: &str, params: Params) -> (n: Next)
    ensures
        handled(id, m@, params, n),
{
    let p = plan(m, params);
    let ghost view = p;
    let n = follow(id, p);
    assert(planned(m@, params, view) && followed(id, view, n));
    n
}

/// Whether a response answers a request with what the worker said.
pub open spec fn answers(
    r: Response,
    id: u64,
    outcome: core::result::Result<serde_json::Value, EngineError>,
) -> bool {
    &&& r.jsonrpc@ == "2.0"@
    &&& r.id == id
    &&& match outcome {
        Ok(v) => r.result == Some(v) && r.error is None,
        Err(e) => r.result is None && (r.error matches Some(err) && err.code == api::INTERNAL_ERROR
            && err.message@ == selection::error_text(e)),
    }
}

/// Answer a request with what the worker said.
pub fn respond(id: u64, outcome: core::result::Result<serde_json::Value, EngineError>) -> (r:
    Response)
    ensures
        answers(r, id, outcome),
{
    match outcome {
        Ok(v) => Response::ok(id, v),
        Err(e) => Response::err(id, api::INTERNAL_ERROR, e.message()),
    }
}

/// Whether a line holds a request at all: one of white space only is skipped.
pub fn is_frame(line: &str) -> (b: bool)
    ensures
        b == (text::trimmed(line@).len() > 0),
{
    !text::empty(text::trim(line).as_str())
}

/// Answer a frame that is no request: there is no id to correlate, so 0 rather
/// than dropping the client without explanation.
pub fn bad_request(why: &str) -> (r: Response)
    ensures
        r.jsonrpc@ == "2.0"@,
        r.id == 0,
        r.result is None,
        r.error matches Some(e) && e.code == api::INTERNAL_ERROR && e.message@ == "bad request: "@
            + why@,
{
    Response::err(0, api::INTERNAL_ERROR, text::after("bad request: ", why))
}

// ── Laws ───────────────────────────────────────────────────────────────────

/// A request whose parameters are missing or malformed is refused, and nothing is
/// run for it.
pub proof fn law_refused_requests_run_nothing(m: Seq<char>, params: Params, p: Plan)
    requires
        planned(m, params, p),
        shape_of(m) != Shape::Nothing,
        params is Absent || params is Invalid,
    ensures
        p matches Plan::Refuse(code, _) && code == api::INVALID_PARAMS,
{
    lemma_methods_differ();
}

/// A request whose parameters are missing or malformed is answered with its own
/// id and what is wrong with them, and with no result.
pub proof fn law_bad_parameters_are_answered(id: u64, m: Seq<char>, params: Params, n: Next)
    requires
        handled(id, m, params, n),
        shape_of(m) != Shape::Nothing,
        params is Absent || params is Invalid,
    ensures
        n matches Next::Reply(r) && refuses(
            r,
            id,
            api::INVALID_PARAMS,
            match params {
                Params::Invalid(why) => why@,
                _ => "missing params"@,
            },
        ),
{
    lemma_methods_differ();
}

/// Whether this is the name of a method.
pub open spec fn is_method(m: Seq<char>) -> bool {
    ||| m == method::VERSION@
    ||| m == method::LIST@
    ||| m == method::GET@
    ||| m == method::SET@
    ||| m == method::CAPS@
    ||| m == method::PROFILE_LIST@
    ||| m == method::PROFILE_APPLY@
    ||| m == method::PROFILE_SAVE@
    ||| m == method::PROFILE_DELETE@
    ||| m == method::PROFILE_SHOW@
    ||| m == method::RULES_LIST@
    ||| m == method::RULES_RELOAD@
    ||| m == method::RULES_TICK@
}

/// A method that there is not is answered so, with the id of the request and with
/// no result.
pub proof fn law_unknown_methods_are_answered(id: u64, m: Seq<char>, params: Params, n: Next)
    requires
        handled(id, m, params, n),
        !is_method(m),
    ensures
        n matches Next::Reply(r) && refuses(
            r,
            id,
            api::METHOD_NOT_FOUND,
            "unknown method "@ + text::quoted(m),
        ),
{
}

/// Where a name stands among the methods, if it is one of them.
pub open spec fn method_number(m: Seq<char>) -> int {
    if m == method::VERSION@ {
        0
    } else if m == method::LIST@ {
        1
    } else if m == method::GET@ {
        2
    } else if m == method::SET@ {
        3
    } else if m == method::CAPS@ {
        4
    } else if m == method::PROFILE_LIST@ {
        5
    } else if m == method::PROFILE_APPLY@ {
        6
    } else if m == method::PROFILE_SAVE@ {
        7
    } else if m == method::PROFILE_DELETE@ {
        8
    } else if m == method::PROFILE_SHOW@ {
        9
    } else if m == method::RULES_LIST@ {
        10
    } else if m == method::RULES_RELOAD@ {
        11
    } else if m == method::RULES_TICK@ {
        12
    } else {
        13
    }
}

/// No two methods share a name.
pub proof fn lemma_methods_differ()
    ensures
        method_number(method::VERSION@) == 0,
        method_number(method::LIST@) == 1,
        method_number(method::GET@) == 2,
        method_number(method::SET@) == 3,
        method_number(method::CAPS@) == 4,
        method_number(method::PROFILE_LIST@) == 5,
        method_number(method::PROFILE_APPLY@) == 6,
        method_number(method::PROFILE_SAVE@) == 7,
        method_number(method::PROFILE_DELETE@) == 8,
        method_number(method::PROFILE_SHOW@) == 9,
        method_number(method::RULES_LIST@) == 10,
        method_number(method::RULES_RELOAD@) == 11,
        method_number(method::RULES_TICK@) == 12,
{
    reveal_strlit("protocol.version");
    reveal_strlit("monitors.list");
    reveal_strlit("monitor.get");
    reveal_strlit("monitor.set");
    reveal_strlit("monitor.caps");
    reveal_strlit("profiles.list");
    reveal_strlit("profiles.apply");
    reveal_strlit("profiles.save");
    reveal_strlit("profiles.delete");
    reveal_strlit("profiles.show");
    reveal_strlit("rules.list");
    reveal_strlit("rules.reload");
    reveal_strlit("rules.tick");
    assert(method::PROFILE_APPLY@.len() == 14 && method::PROFILE_DELETE@.len() == 15);
    assert(method::GET@[8] == 'g' && method::SET@[8] == 's');
    assert(method::CAPS@[0] == 'm' && method::RULES_RELOAD@[0] == 'r');
    assert(method::LIST@[9] == 'l' && method::LIST@[0] == 'm');
    assert(method::PROFILE_LIST@[9] == 'l' && method::PROFILE_LIST@[0] == 'p');
    assert(method::PROFILE_SAVE@[9] == 's' && method::PROFILE_SAVE@[10] == 'a');
    assert(method::PROFILE_SHOW@[9] == 's' && method::PROFILE_SHOW@[10] == 'h');
    assert(method::RULES_LIST@[6] == 'l' && method::RULES_TICK@[6] == 't');
}

/// A response never holds both a result and an error.
pub proof fn law_result_or_error(
    r: Response,
    id: u64,
    outcome: core::result::Result<serde_json::Value, EngineError>,
)
    requires
        answers(r, id, outcome),
    ensures
        r.result is Some <==> r.error is None,
        r.id == id,
{
}

/// A request to take a profile of named codes takes those, in that order, where each name
/// stands for a code, and is refused otherwise. Without names, brightness, contrast,
/// volume and the three gains are taken.
pub proof fn law_codes_are_those_that_are_named(
    names: Seq<String>,
    r: core::result::Result<Vec<VcpCode>, String>,
    i: int,
)
    requires
        codes_resolved(names, r),
    ensures
        names.len() > 0 ==> (r is Ok) == (forall|k: int|
            0 <= k < names.len() ==> vcp::code_parsed((#[trigger] names[k])@) is Some),
        names.len() > 0 ==> (r matches Ok(v) ==> v@.len() == names.len() && (0 <= i < names.len()
            ==> vcp::code_parsed(names[i]@) == Some(v@[i]))),
        names.len() == 0 ==> (r matches Ok(v) && v@.len() == 6 && vcp::code_number(v@[0]) == 0x10
            && vcp::code_number(v@[1]) == 0x12 && vcp::code_number(v@[2]) == 0x62
            && vcp::code_number(v@[3]) == 0x16 && vcp::code_number(v@[4]) == 0x18
            && vcp::code_number(v@[5]) == 0x1A),
{
    if names.len() > 0 && r is Ok && 0 <= i < names.len() {
        assert(vcp::code_parsed(names[i]@) is Some);
    }
}

/// Failures go by the numbers that the protocol gives them.
pub proof fn law_failures_go_by_their_numbers()
    ensures
        api::METHOD_NOT_FOUND == -32601,
        api::INVALID_PARAMS == -32602,
        api::INTERNAL_ERROR == -32603,
        api::PROTOCOL_VERSION == 1,
{
}

/// A request is answered by what was planned for it: the version at once, a refusal at once
/// with the id of the request and its own code and words and no result, and a command by
/// running that command.
pub proof fn law_plans_are_followed(id: u64, p: Plan, n: Next)
    requires
        followed(id, p, n),
    ensures
        n is Tell <==> p is Version,
        n is Tell ==> n->Tell_0 == p->Version_0,
        n is Run <==> p is Run,
        n is Run ==> n->Run_0 == p->Run_0,
        n is Reply <==> p is Refuse,
        n is Reply ==> {
            &&& n->Reply_0.jsonrpc@ == "2.0"@
            &&& n->Reply_0.id == id
            &&& n->Reply_0.result is None
            &&& n->Reply_0.error is Some
            &&& n->Reply_0.error->0.code == p->Refuse_0
            &&& n->Reply_0.error->0.message@ == p->Refuse_1@
        },
{
}

/// An answer carries the id of the request, and the value or the error of what was run: one
/// of them and never both.
pub proof fn law_answers_carry_the_outcome(
    r: Response,
    id: u64,
    outcome: core::result::Result<serde_json::Value, EngineError>,
)
    requires
        answers(r, id, outcome),
    ensures
        r.jsonrpc@ == "2.0"@,
        r.id == id,
        outcome is Ok ==> r.result == Some(outcome->Ok_0) && r.error is None,
        outcome is Err ==> r.result is None && r.error is Some && r.error->0.message@
            == selection::error_text(outcome->Err_0),
{
}

/// A method with parameters is refused without them, or with those of another method, and
/// told what is wrong.
pub proof fn law_missing_parameters_are_refused(m: Seq<char>, params: Params, p: Plan)
    requires
        planned(m, params, p),
    ensures
        (m == "monitor.get"@ && !(params is Get)) || (m == "monitor.set"@ && !(params is Write)) || (m
            == "monitor.caps"@ && !(params is Caps)) || (m == "profiles.apply"@ && !(params
            is Apply)) || (m == "profiles.save"@ && !(params is Save)) || ((m == "profiles.delete"@
            || m == "profiles.show"@) && !(params is Name)) ==> {
            &&& p is Refuse
            &&& p->Refuse_0 == api::INVALID_PARAMS
            &&& params is Invalid ==> p->Refuse_1@ == params->Invalid_0@
            &&& !(params is Invalid) ==> p->Refuse_1@ == "missing params"@
        },
{
    lemma_methods_differ();
}

/// A method wants the parameters that it is run with.
pub proof fn law_methods_want_their_parameters(m: Seq<char>)
    ensures
        shape_of(m) is Get <==> m == "monitor.get"@,
        shape_of(m) is Write <==> m == "monitor.set"@,
        shape_of(m) is Caps <==> m == "monitor.caps"@,
        shape_of(m) is Apply <==> m == "profiles.apply"@,
        shape_of(m) is Save <==> m == "profiles.save"@,
        shape_of(m) is Name <==> m == "profiles.delete"@ || m == "profiles.show"@,
{
    lemma_methods_differ();
}

} // verus!
