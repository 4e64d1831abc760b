//! Wire types.
//!
//! The protocol is versioned: [`PROTOCOL_VERSION`] is reported by
//! `protocol.version` so a client can refuse to drive a daemon it does not
//! understand, rather than misinterpreting fields.

use crate::text;
use vstd::prelude::*;

pub mod client;
pub mod method;

verus! {

/// Bumped on any breaking change to the shapes below.
pub const PROTOCOL_VERSION: u32 = 1;

// ── JSON-RPC envelope ──────────────────────────────────────────────────────

/// A JSON value, as the wire carries it.
#[verifier::external_type_specification]
#[verifier::external_body]
pub struct ExJsonValue(serde_json::Value);

/// A call of a method.
#[derive(Debug)]
pub struct Request {
    pub jsonrpc: String,
    pub id: u64,
    pub method: String,
    pub params: Option<serde_json::Value>,
}

impl Request {
    pub fn new(id: u64, method: &str, params: Option<serde_json::Value>) -> (r: Self)
        ensures
            r.jsonrpc@ == "2.0"@,
            r.id == id,
            r.method@ == method@,
            r.params == params,
    {
        Request { jsonrpc: text::own("2.0"), id, method: text::own(method), params }
    }
}

/// The answer to a request: a result or an error, never both.
#[derive(Debug)]
pub struct Response {
    pub jsonrpc: String,
    pub id: u64,
    pub result: Option<serde_json::Value>,
    pub error: Option<RpcError>,
}

impl Response {
    /// The answer to a call that went well.
    pub fn ok(id: u64, result: serde_json::Value) -> (r: Self)
        ensures
            r.jsonrpc@ == "2.0"@,
            r.id == id,
            r.result == Some(result),
            r.error is None,
    {
        Response { jsonrpc: text::own("2.0"), id, result: Some(result), error: None }
    }

    /// The answer to a call that failed.
    pub fn err(id: u64, code: i32, message: String) -> (r: Self)
        ensures
            r.jsonrpc@ == "2.0"@,
            r.id == id,
            r.result is None,
            r.error == Some(RpcError { code, message }),
    {
        Response {
            jsonrpc: text::own("2.0"),
            id,
            result: None,
            error: Some(RpcError { code, message }),
        }
    }
}

/// A failure, as the wire carries it.
#[derive(Debug, Clone, PartialEq, Eq)]
pub struct RpcError {
    pub code: i32,
    pub message: String,
}

/// Standard JSON-RPC code of an unknown method.
pub const METHOD_NOT_FOUND: i32 = -32601;

/// Standard JSON-RPC code of parameters that do not fit.
pub const INVALID_PARAMS: i32 = -32602;

/// Standard JSON-RPC code of a call that failed.
pub const INTERNAL_ERROR: i32 = -32603;

// ── Domain types ───────────────────────────────────────────────────────────

/// How a display is driven.
#[derive(Debug, Clone, Copy, PartialEq, Eq, Structural)]
pub enum ControlPath {
    Ddc,
    Native,
    Uncontrollable,
}

/// A display, as clients see it.
#[derive(Debug, Clone, PartialEq, Eq)]
pub struct MonitorInfo {
    pub id: u32,
    pub vendor: String,
    pub product: String,
    pub serial: i64,
    pub alphanumeric_serial: String,
    /// False when `serial` is a placeholder, so a UI can avoid showing it as
    /// though it identified the unit.
    pub serial_trustworthy: bool,
    pub location: String,
    pub control: ControlPath,
    /// Stable key used to persist settings for this display.
    pub key: String,
}

/// Whether a code carries a continuous range or an enumerated set.
#[derive(Debug, Clone, Copy, PartialEq, Eq, Structural)]
pub enum ValueKind {
    Continuous,
    NonContinuous,
    Unknown,
}

/// A value read from a display.
#[derive(Debug, Clone, PartialEq, Eq)]
pub struct VcpValue {
    pub code: u8,
    pub name: String,
    pub current: u16,
    /// Meaningless for non-continuous codes; a UI must consult `kind` before
    /// rendering this as a range bound.
    pub max: u16,
    pub kind: ValueKind,
}

/// What the daemon says of itself.
#[derive(Debug, Clone, PartialEq, Eq)]
pub struct VersionInfo {
    pub protocol: u32,
    pub daemon: String,
}

// ── Method params ──────────────────────────────────────────────────────────

/// Parameters of `monitor.get`.
#[derive(Debug, Clone, PartialEq, Eq)]
pub struct GetParams {
    /// Display selector: numeric id, or a case-insensitive product substring.
    pub display: String,
    /// VCP code by name ("brightness") or number ("0x10").
    pub code: String,
}

/// Parameters of `monitor.set`.
#[derive(Debug, Clone, PartialEq, Eq)]
pub struct SetParams {
    pub display: String,
    pub code: String,
    pub value: u16,
    /// Read the value back and report whether it actually stuck.
    ///
    /// DDC writes are fire-and-forget: the protocol has no acknowledgement, so a
    /// write "succeeding" only means the bytes went out. Monitors routinely
    /// advertise and accept codes they do not implement. Costs one extra read.
    pub verify: bool,
}

/// Result of `monitor.set`. `displays` is the number written, which callers
/// report to users: a selector of "all" writes more than one.
#[derive(Debug, Clone, PartialEq, Eq)]
pub struct SetResult {
    pub displays: usize,
    /// Ids where `verify` was requested and the read-back did **not** match:
    /// the display ignored the write. Empty when `verify` was not asked for, so
    /// an empty list is not evidence the write landed.
    pub ignored: Vec<u32>,
}

impl Default for SetResult {
    fn default() -> (r: SetResult)
        ensures
            r.displays == 0,
            r.ignored@.len() == 0,
    {
        SetResult { displays: 0, ignored: Vec::new() }
    }
}

/// Parameters of `monitor.caps`.
#[derive(Debug, Clone, PartialEq, Eq)]
pub struct CapsParams {
    pub display: String,
}

/// Result of `monitor.caps`.
#[derive(Debug, Clone, PartialEq, Eq)]
pub struct CapsResult {
    pub raw: Option<String>,
    pub vcp_codes: Vec<u8>,
    pub mccs_version: Option<String>,
    pub unknown_sections: Vec<String>,
    /// Advertised value lists for enumerated codes, as (code, values): used to
    /// build pickers. Only codes with a non-empty value list appear.
    pub value_lists: Vec<(u8, Vec<u8>)>,
}

// ── Profiles ───────────────────────────────────────────────────────────────

/// A profile, as listed.
#[derive(Debug, Clone, PartialEq, Eq)]
pub struct ProfileSummary {
    pub name: String,
    /// None when the profile exists but could not be parsed.
    pub displays: Option<usize>,
}

/// What happened to one setting in a profile application.
#[derive(Debug, Clone, Copy, PartialEq, Eq, Structural)]
pub enum ApplyStatus {
    /// Written and confirmed by read-back.
    Applied,
    /// Written, read back, and the display did not change: it does not
    /// implement this code despite accepting the write.
    Ignored,
    /// Written, but not confirmed: either verification was not requested, or the
    /// display would not report the value back. Not a claim of success.
    Unverified,
    /// The profile names a display that is not currently attached. Normal for
    /// dock/undock profiles, not a failure.
    NotConnected,
}

/// What happened to one setting of a profile on one display.
#[derive(Debug, Clone, PartialEq, Eq)]
pub struct ApplyOutcome {
    /// None when the display was not connected.
    pub display: Option<u32>,
    pub selector: String,
    pub code: u8,
    pub name: String,
    pub value: u16,
    pub status: ApplyStatus,
}

/// Result of `profiles.apply`.
#[derive(Debug, Clone, PartialEq, Eq)]
pub struct ApplyResult {
    pub profile: String,
    pub outcomes: Vec<ApplyOutcome>,
}

/// How many outcomes have a status.
pub open spec fn status_count(v: Seq<ApplyOutcome>, status: ApplyStatus) -> nat
    decreases v.len(),
{
    if v.len() == 0 {
        0
    } else if v.last().status == status {
        status_count(v.drop_last(), status) + 1
    } else {
        status_count(v.drop_last(), status)
    }
}

impl ApplyResult {
    /// How many outcomes have a status.
    pub fn count(&self, status: ApplyStatus) -> (n: usize)
        ensures
            n == status_count(self.outcomes@, status),
            n <= self.outcomes@.len(),
    {
        let mut n: usize = 0;
        let mut i: usize = 0;
        while i < self.outcomes.len()
            invariant
                n <= i <= self.outcomes@.len(),
                n == status_count(self.outcomes@.take(i as int), status),
            decreases self.outcomes@.len() - i,
        {
            assert(self.outcomes@.take(i + 1).drop_last() =~= self.outcomes@.take(i as int));
            if self.outcomes[i].status == status {
                n = n + 1;
            }
            i = i + 1;
        }
        assert(self.outcomes@.take(i as int) =~= self.outcomes@);
        n
    }
}

/// Parameters of `profiles.apply`.
#[derive(Debug, Clone, PartialEq, Eq)]
pub struct ProfileApplyParams {
    pub name: String,
    pub verify: bool,
    /// Required when the profile writes destructive codes.
    pub yes: bool,
}

/// Parameters of `profiles.save`.
#[derive(Debug, Clone, PartialEq, Eq)]
pub struct ProfileSaveParams {
    pub name: String,
    /// Codes to capture, by name or number. Empty means the default set.
    pub codes: Vec<String>,
    pub force: bool,
}

/// Parameters of `profiles.show` and `profiles.delete`.
#[derive(Debug, Clone, PartialEq, Eq)]
pub struct ProfileNameParams {
    pub name: String,
}

/// A rule, as listed.
#[derive(Debug, Clone, PartialEq, Eq)]
pub struct RuleInfo {
    pub name: String,
    pub trigger: String,
    pub action: String,
    pub enabled: bool,
    pub force: bool,
}

/// Reported when a rule fires. `ok` false means the action errored: the rule
/// still fired, so this is not the same as "did not match".
#[derive(Debug, Clone, PartialEq, Eq)]
pub struct RuleFired {
    pub name: String,
    pub ok: bool,
    pub detail: String,
}

/// The statuses of a result account for all its outcomes.
pub proof fn law_statuses_add_up(v: Seq<ApplyOutcome>)
    ensures
        status_count(v, ApplyStatus::Applied) + status_count(v, ApplyStatus::Ignored)
            + status_count(v, ApplyStatus::Unverified) + status_count(v, ApplyStatus::NotConnected)
            == v.len(),
    decreases v.len(),
{
    if v.len() > 0 {
        law_statuses_add_up(v.drop_last());
    }
}

/// A count of a status is how many outcomes have it.
pub proof fn law_outcomes_are_counted_by_status(v: Seq<ApplyOutcome>, status: ApplyStatus)
    ensures
        status_count(v, status) == v.filter(|o: ApplyOutcome| o.status == status).len(),
    decreases v.len(),
{
    reveal(Seq::filter);
    if v.len() > 0 {
        law_outcomes_are_counted_by_status(v.drop_last(), status);
    }
}

} // verus!
