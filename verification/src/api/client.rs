//! The client's side of a JSON-RPC exchange: numbering requests, and making of a
//! response what it says.

use crate::api;
use crate::api::method;
use crate::api::Response;
use crate::daemon::rpc;
use crate::daemon::rpc::{Params, Plan};
use crate::daemon::worker::Command;
use crate::ddc::vcp::VcpCode;
use crate::paths;
use crate::paths::FilePath;
use crate::text;
use vstd::prelude::*;

verus! {

/// Why a call failed.
#[derive(Debug)]
pub enum ClientError {
    NotRunning(String),
    Io(String),
    Protocol(String),
    Rpc { code: i32, message: String },
    Json(String),
}

/// What an error reads as.
pub open spec fn error_text(e: ClientError) -> Seq<char> {
    match e {
        ClientError::NotRunning(s) => "daemon not running (socket "@ + s@ + ")"@,
        ClientError::Io(s) => "io: "@ + s@,
        ClientError::Protocol(s) => "protocol: "@ + s@,
        ClientError::Rpc { code, message } => "daemon error "@ + text::signed_decimal(code as int)
            + ": "@ + message@,
        ClientError::Json(s) => "json: "@ + s@,
    }
}

impl ClientError {
    /// The error as a message for people.
    pub fn message(&self) -> (r: String)
        ensures
            r@ == error_text(*self),
    {
        match self {
            ClientError::NotRunning(s) => text::between(
                "daemon not running (socket ",
                s.as_str(),
                ")",
            ),
            ClientError::Io(s) => text::after("io: ", s.as_str()),
            ClientError::Protocol(s) => text::after("protocol: ", s.as_str()),
            ClientError::Rpc { code, message } => {
                let mut out = text::between(
                    "daemon error ",
                    text::write_signed(*code as i64).as_str(),
                    ": ",
                );
                out.append(message.as_str());
                out
            },
            ClientError::Json(s) => text::after("json: ", s.as_str()),
        }
    }
}

/// Why a socket could not be connected to.
#[derive(Debug)]
pub enum ConnectFailure {
    /// There is no such socket, or nobody answers on it.
    Absent,
    Other(String),
}

/// The socket of the daemon: the one that the environment names, or else the
/// user's own.
///
/// Per-user under the data directory: the daemon is a per-user agent, not a
/// system service, and must never be shared between users.
pub fn socket_path(named: Option<FilePath>) -> (r: FilePath)
    ensures
        match named {
            Some(p) => r == p,
            None => paths::for_user(r@, "displayd.sock"@),
        },
{
    match named {
        Some(p) => p,
        None => paths::user_file("displayd.sock"),
    }
}

/// A request to send.
#[derive(Debug)]
pub struct Outgoing {
    pub id: u64,
    pub method: &'static str,
    pub params: Params,
}

/// The state of a client.
#[derive(Debug)]
pub struct Client {
    pub next_id: u64,
}

/// What a response to a request says.
pub open spec fn taken(
    id: u64,
    resp: Response,
    r: core::result::Result<serde_json::Value, ClientError>,
) -> bool {
    if resp.id != id {
        r matches Err(ClientError::Protocol(s)) && s@ == "response id "@ + text::decimal(
            resp.id as nat,
        ) + " does not match request id "@ + text::decimal(id as nat)
    } else {
        match (resp.error, resp.result) {
            (Some(e), _) => r == Err::<serde_json::Value, ClientError>(
                ClientError::Rpc { code: e.code, message: e.message },
            ),
            (None, Some(v)) => r == Ok::<serde_json::Value, ClientError>(v),
            (None, None) => r matches Err(ClientError::Protocol(s)) && s@
                == "response has neither result nor error"@,
        }
    }
}

/// What waiting for a response to a request came to. `None` is a connection that was closed.
pub open spec fn received(
    id: u64,
    resp: Option<Response>,
    r: core::result::Result<serde_json::Value, ClientError>,
) -> bool {
    match resp {
        Some(p) => taken(id, p, r),
        None => r matches Err(ClientError::Protocol(s)) && s@ == "daemon closed connection"@,
    }
}

/// Whether an error is what failing to connect to a socket amounts to.
pub open spec fn unreachable_at(path: Seq<u8>, why: ConnectFailure, e: ClientError) -> bool {
    match why {
        ConnectFailure::Absent => e matches ClientError::NotRunning(p) && p@ == paths::path_text(
            path,
        ),
        ConnectFailure::Other(s) => e == ClientError::Io(s),
    }
}

impl Client {
    /// A client that has sent nothing yet.
    pub fn new() -> (c: Client)
        ensures
            c.next_id == 1,
    {
        Client { next_id: 1 }
    }

    /// What failing to connect amounts to. A daemon that is not there is told
    /// apart from every other trouble.
    pub fn connect_error(path: &FilePath, why: ConnectFailure) -> (e: ClientError)
        ensures
            unreachable_at(path@, why, e),
    {
        match why {
            ConnectFailure::Absent => ClientError::NotRunning(path.describe()),
            ConnectFailure::Other(s) => ClientError::Io(s),
        }
    }

    /// Number a request.
    fn send(&mut self, method: &'static str, params: Params) -> (o: Outgoing)
        requires
            old(self).next_id < u64::MAX,
        ensures
            o == (Outgoing { id: old(self).next_id, method, params }),
            final(self).next_id == old(self).next_id + 1,
    {
        let id: u64 = self.next_id;
        self.next_id = id + 1;
        Outgoing { id, method, params }
    }

    /// Make of a response what it says. `None` is a connection that was closed.
    pub fn take(id: u64, resp: Option<Response>) -> (r: core::result::Result<
        serde_json::Value,
        ClientError,
    >)
        ensures
            received(id, resp, r),
    {
        let resp = match resp {
            Some(p) => p,
            None => return Err(ClientError::Protocol(text::own("daemon closed connection"))),
        };
        if resp.id != id {
            let mut out = text::between(
                "response id ",
                text::write_decimal(resp.id).as_str(),
                " does not match request id ",
            );
            out.append(text::write_decimal(id).as_str());
            return Err(ClientError::Protocol(out));
        }
        if let Some(e) = resp.error {
            return Err(ClientError::Rpc { code: e.code, message: e.message });
        }
        match resp.result {
            Some(v) => Ok(v),
            None => Err(
                ClientError::Protocol(text::own("response has neither result nor error")),
            ),
        }
    }

    /// Ask for the versions.
    pub fn version(&mut self) -> (o: Outgoing)
        requires
            old(self).next_id < u64::MAX,
        ensures
            o == (Outgoing {
                id: old(self).next_id,
                method: method::VERSION,
                params: Params::Absent,
            }),
            final(self).next_id == old(self).next_id + 1,
    {
        self.send(method::VERSION, Params::Absent)
    }

    /// Ask for the displays.
    pub fn list(&mut self) -> (o: Outgoing)
        requires
            old(self).next_id < u64::MAX,
        ensures
            o == (Outgoing {
                id: old(self).next_id,
                method: method::LIST,
                params: Params::Absent,
            }),
            final(self).next_id == old(self).next_id + 1,
    {
        self.send(method::LIST, Params::Absent)
    }

    /// Ask for a value.
    pub fn get(&mut self, display: &str, code: &str) -> (o: Outgoing)
        requires
            old(self).next_id < u64::MAX,
        ensures
            o.id == old(self).next_id,
            o.method == method::GET,
            o.params matches Params::Get(p) && p.display@ == display@ && p.code@ == code@,
            final(self).next_id == old(self).next_id + 1,
    {
        let p = api::GetParams { display: text::own(display), code: text::own(code) };
        self.send(method::GET, Params::Get(p))
    }

    /// Ask for a value to be written.
    pub fn set(&mut self, display: &str, code: &str, value: u16, verify: bool) -> (o: Outgoing)
        requires
            old(self).next_id < u64::MAX,
        ensures
            o.id == old(self).next_id,
            o.method == method::SET,
            o.params matches Params::Write(p) && p.display@ == display@ && p.code@ == code@
                && p.value == value && p.verify == verify,
            final(self).next_id == old(self).next_id + 1,
    {
        let p = api::SetParams {
            display: text::own(display),
            code: text::own(code),
            value,
            verify,
        };
        self.send(method::SET, Params::Write(p))
    }

    /// Ask for the capabilities of a display.
    pub fn caps(&mut self, display: &str) -> (o: Outgoing)
        requires
            old(self).next_id < u64::MAX,
        ensures
            o.id == old(self).next_id,
            o.method == method::CAPS,
            o.params matches Params::Caps(p) && p.display@ == display@,
            final(self).next_id == old(self).next_id + 1,
    {
        let p = api::CapsParams { display: text::own(display) };
        self.send(method::CAPS, Params::Caps(p))
    }

    /// Ask for the profiles.
    pub fn profile_list(&mut self) -> (o: Outgoing)
        requires
            old(self).next_id < u64::MAX,
        ensures
            o == (Outgoing {
                id: old(self).next_id,
                method: method::PROFILE_LIST,
                params: Params::Absent,
            }),
            final(self).next_id == old(self).next_id + 1,
    {
        self.send(method::PROFILE_LIST, Params::Absent)
    }

    /// Ask for a profile to be applied.
    pub fn profile_apply(&mut self, name: &str, verify: bool, yes: bool) -> (o: Outgoing)
        requires
            old(self).next_id < u64::MAX,
        ensures
            o.id == old(self).next_id,
            o.method == method::PROFILE_APPLY,
            o.params matches Params::Apply(p) && p.name@ == name@ && p.verify == verify && p.yes
                == yes,
            final(self).next_id == old(self).next_id + 1,
    {
        let p = api::ProfileApplyParams { name: text::own(name), verify, yes };
        self.send(method::PROFILE_APPLY, Params::Apply(p))
    }

    /// Ask for a profile to be taken.
    pub fn profile_save(&mut self, name: &str, codes: &Vec<String>, force: bool) -> (o: Outgoing)
        requires
            old(self).next_id < u64::MAX,
        ensures
            o.id == old(self).next_id,
            o.method == method::PROFILE_SAVE,
            o.params matches Params::Save(p) && p.name@ == name@ && p.codes@ == codes@ && p.force
                == force,
            final(self).next_id == old(self).next_id + 1,
    {
        let p = api::ProfileSaveParams {
            name: text::own(name),
            codes: text::copy_texts(codes),
            force,
        };
        self.send(method::PROFILE_SAVE, Params::Save(p))
    }

    /// Ask for a profile to be deleted.
    pub fn profile_delete(&mut self, name: &str) -> (o: Outgoing)
        requires
            old(self).next_id < u64::MAX,
        ensures
            o.id == old(self).next_id,
            o.method == method::PROFILE_DELETE,
            o.params matches Params::Name(p) && p.name@ == name@,
            final(self).next_id == old(self).next_id + 1,
    {
        let p = api::ProfileNameParams { name: text::own(name) };
        self.send(method::PROFILE_DELETE, Params::Name(p))
    }

    /// Ask for a profile.
    pub fn profile_show(&mut self, name: &str) -> (o: Outgoing)
        requires
            old(self).next_id < u64::MAX,
        ensures
            o.id == old(self).next_id,
            o.method == method::PROFILE_SHOW,
            o.params matches Params::Name(p) && p.name@ == name@,
            final(self).next_id == old(self).next_id + 1,
    {
        let p = api::ProfileNameParams { name: text::own(name) };
        self.send(method::PROFILE_SHOW, Params::Name(p))
    }

    /// Ask for the rules.
    pub fn rules_list(&mut self) -> (o: Outgoing)
        requires
            old(self).next_id < u64::MAX,
        ensures
            o == (Outgoing {
                id: old(self).next_id,
                method: method::RULES_LIST,
                params: Params::Absent,
            }),
            final(self).next_id == old(self).next_id + 1,
    {
        self.send(method::RULES_LIST, Params::Absent)
    }

    /// Ask for the rules to be read again.
    pub fn rules_reload(&mut self) -> (o: Outgoing)
        requires
            old(self).next_id < u64::MAX,
        ensures
            o == (Outgoing {
                id: old(self).next_id,
                method: method::RULES_RELOAD,
                params: Params::Absent,
            }),
            final(self).next_id == old(self).next_id + 1,
    {
        self.send(method::RULES_RELOAD, Params::Absent)
    }

    /// Ask for the rules to be evaluated now.
    pub fn rules_tick(&mut self) -> (o: Outgoing)
        requires
            old(self).next_id < u64::MAX,
        ensures
            o == (Outgoing {
                id: old(self).next_id,
                method: method::RULES_TICK,
                params: Params::Absent,
            }),
            final(self).next_id == old(self).next_id + 1,
    {
        self.send(method::RULES_TICK, Params::Absent)
    }
}

// ── Laws ───────────────────────────────────────────────────────────────────

/// A request that carries the parameters of its method is run by the daemon as
/// the command that it asks for. A save names its codes as text: it is run with the
/// codes that the text stands for, if each stands for one.
pub proof fn law_requests_are_run(o: Outgoing, p: Plan)
    requires
        rpc::planned(o.method@, o.params, p),
    ensures
        o.method@ == method::LIST@ ==> p == Plan::Run(Command::List),
        o.method@ == method::GET@ ==> (o.params matches Params::Get(g) ==> p == Plan::Run(
            Command::Get { display: g.display, code: g.code },
        )),
        o.method@ == method::SET@ ==> (o.params matches Params::Write(w) ==> p == Plan::Run(
            Command::Write {
                display: w.display,
                code: w.code,
                value: w.value,
                verify: w.verify,
            },
        )),
        o.method@ == method::CAPS@ ==> (o.params matches Params::Caps(c) ==> p == Plan::Run(
            Command::Caps { display: c.display },
        )),
        o.method@ == method::PROFILE_LIST@ ==> p == Plan::Run(Command::ProfileList),
        o.method@ == method::PROFILE_APPLY@ ==> (o.params matches Params::Apply(a) ==> p
            == Plan::Run(
            Command::ProfileApply { name: a.name, verify: a.verify, yes: a.yes },
        )),
        o.method@ == method::PROFILE_SAVE@ ==> (o.params matches Params::Save(s) ==> exists|
            r: core::result::Result<Vec<VcpCode>, String>,
        | #[trigger]
            rpc::codes_resolved(s.codes@, r) && p == match r {
                Ok(codes) => Plan::Run(
                    Command::ProfileSave { name: s.name, codes, force: s.force },
                ),
                Err(why) => Plan::Refuse(api::INVALID_PARAMS, why),
            }),
        o.method@ == method::PROFILE_DELETE@ ==> (o.params matches Params::Name(n) ==> p
            == Plan::Run(Command::ProfileDelete { name: n.name })),
        o.method@ == method::PROFILE_SHOW@ ==> (o.params matches Params::Name(n) ==> p
            == Plan::Run(Command::ProfileShow { name: n.name })),
        o.method@ == method::RULES_LIST@ ==> p == Plan::Run(Command::RulesList),
        o.method@ == method::RULES_RELOAD@ ==> p == Plan::Run(Command::RulesReload),
        o.method@ == method::RULES_TICK@ ==> p == Plan::Run(Command::AutomationTick),
{
    rpc::lemma_methods_differ();
}

/// A response to another request is never taken for an answer.
pub proof fn law_foreign_responses_are_refused(
    id: u64,
    resp: Response,
    r: core::result::Result<serde_json::Value, ClientError>,
)
    requires
        taken(id, resp, r),
        resp.id != id,
    ensures
        r matches Err(ClientError::Protocol(_)),
{
}

/// What the daemon answers reaches the caller: its value, or its error with code
/// and message.
pub proof fn law_answers_reach_the_caller(
    id: u64,
    outcome: core::result::Result<
        serde_json::Value,
        crate::daemon::selection::EngineError,
    >,
    resp: Response,
    r: core::result::Result<serde_json::Value, ClientError>,
)
    requires
        rpc::answers(resp, id, outcome),
        taken(id, resp, r),
    ensures
        match outcome {
            Ok(v) => r == Ok::<serde_json::Value, ClientError>(v),
            Err(e) => r matches Err(ClientError::Rpc { code, message }) && code
                == api::INTERNAL_ERROR && message@ == crate::daemon::selection::error_text(e),
        },
{
}

/// A response is taken for what it says: its error where it has one, with code and message,
/// else its value. One that has neither, one to another request, and none at all are
/// troubles of the protocol.
pub proof fn law_responses_are_taken_for_what_they_say(
    id: u64,
    resp: Option<Response>,
    r: core::result::Result<serde_json::Value, ClientError>,
)
    requires
        received(id, resp, r),
    ensures
        resp is None ==> r is Err && r->Err_0 is Protocol && r->Err_0->Protocol_0@
            == "daemon closed connection"@,
        resp is Some && resp->0.id != id ==> r is Err && r->Err_0 is Protocol
            && r->Err_0->Protocol_0@ == "response id "@ + text::decimal(resp->0.id as nat)
            + " does not match request id "@ + text::decimal(id as nat),
        resp is Some && resp->0.id == id && resp->0.error is Some ==> r is Err && r->Err_0 is Rpc
            && r->Err_0->code == resp->0.error->0.code && r->Err_0->message
            == resp->0.error->0.message,
        resp is Some && resp->0.id == id && resp->0.error is None && resp->0.result is Some ==> r
            is Ok && r->Ok_0 == resp->0.result->0,
        resp is Some && resp->0.id == id && resp->0.error is None && resp->0.result is None ==> r
            is Err && r->Err_0 is Protocol && r->Err_0->Protocol_0@
            == "response has neither result nor error"@,
{
}

/// A daemon that is not there is told apart from every other trouble, and by its socket.
pub proof fn law_a_missing_daemon_is_told_apart(path: Seq<u8>, why: ConnectFailure, e: ClientError)
    requires
        unreachable_at(path, why, e),
    ensures
        e is NotRunning <==> why is Absent,
        e is NotRunning ==> e->NotRunning_0@ == paths::path_text(path),
        e is Io <==> why is Other,
        e is Io ==> e->Io_0@ == why->Other_0@,
{
}

/// Each error is told by what it is.
pub proof fn law_errors_say_what_they_are(e: ClientError)
    ensures
        e is NotRunning ==> error_text(e) == "daemon not running (socket "@ + e->NotRunning_0@
            + ")"@,
        e is Io ==> error_text(e) == "io: "@ + e->Io_0@,
        e is Protocol ==> error_text(e) == "protocol: "@ + e->Protocol_0@,
        e is Rpc ==> error_text(e) == "daemon error "@ + text::signed_decimal(e->code as int)
            + ": "@ + e->message@,
        e is Json ==> error_text(e) == "json: "@ + e->Json_0@,
{
}

/// Every method goes by its own name on the wire.
pub proof fn law_methods_go_by_their_names()
    ensures
        method::VERSION@ == "protocol.version"@,
        method::LIST@ == "monitors.list"@,
        method::GET@ == "monitor.get"@,
        method::SET@ == "monitor.set"@,
        method::CAPS@ == "monitor.caps"@,
        method::PROFILE_LIST@ == "profiles.list"@,
        method::PROFILE_APPLY@ == "profiles.apply"@,
        method::PROFILE_SAVE@ == "profiles.save"@,
        method::PROFILE_DELETE@ == "profiles.delete"@,
        method::PROFILE_SHOW@ == "profiles.show"@,
        method::RULES_LIST@ == "rules.list"@,
        method::RULES_RELOAD@ == "rules.reload"@,
        method::RULES_TICK@ == "rules.tick"@,
{
}

} // verus!
