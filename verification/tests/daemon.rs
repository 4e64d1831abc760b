//! Requests, commands and rules, from the socket to the display and back.

use display_studio::api::client::{socket_path, Client, ClientError, ConnectFailure};
use display_studio::api::method;
use display_studio::api::{
    CapsParams, GetParams, ProfileApplyParams, ProfileNameParams, ProfileSaveParams, Request,
    Response, RpcError, SetParams, INTERNAL_ERROR, INVALID_PARAMS, METHOD_NOT_FOUND, PROTOCOL_VERSION,
};
use display_studio::daemon::actions::{report_command, report_rule, rule_infos, Step};
use display_studio::daemon::automation::Automation;
use display_studio::daemon::clock::Clock;
use display_studio::daemon::engine::Engine;
use display_studio::daemon::rpc::{
    bad_request, handle, is_frame, plan, resolve_codes, respond, shape, Next, Params, Plan, Shape,
};
use display_studio::daemon::selection::EngineError;
use display_studio::daemon::worker::{
    loss_error, needs, run, starting_rules, Answer, Command, Loss, Need, Supply,
};
use display_studio::ddc::vcp::VcpCode;
use display_studio::keyed::TextMap;
use display_studio::model::profile::{Reading, Removal};
use display_studio::model::rules::Reading as RulesReading;
use display_studio::model::{
    Action, ControlPath, DisplayBackend, DisplayId, DisplayIdentity, DisplayProfile, Error,
    Monitor, PowerState, Profile, ProfileError, ProfileStore, Result, Rule, RuleSet, RulesError,
    RulesStore, Trigger,
};
use display_studio::paths::FilePath;
use serde_json::Value;

// ── Client ─────────────────────────────────────────────────────────────────

#[test]
fn requests_are_numbered_in_order() {
    let mut c = Client::new();
    let a = c.list();
    let b = c.set("3", "brightness", 42, true);
    assert_eq!((a.id, a.method), (1, method::LIST));
    assert_eq!((b.id, b.method), (2, method::SET));
    assert!(matches!(a.params, Params::Absent));
    match b.params {
        Params::Write(w) => {
            assert_eq!((w.display.as_str(), w.code.as_str()), ("3", "brightness"));
            assert_eq!((w.value, w.verify), (42, true));
        }
        other => panic!("{other:?}"),
    }
}

/// Every request that a client makes is one that the daemon carries out.
#[test]
fn what_a_client_asks_for_is_what_the_daemon_does() {
    let mut c = Client::new();
    for o in [
        c.version(),
        c.list(),
        c.get("3", "0x10"),
        c.set("3", "0x10", 1, false),
        c.caps("3"),
        c.profile_list(),
        c.profile_apply("p", true, false),
        c.profile_save("p", &vec![], true),
        c.profile_delete("p"),
        c.profile_show("p"),
        c.rules_list(),
        c.rules_reload(),
        c.rules_tick(),
    ] {
        let name = o.method;
        assert!(
            !matches!(plan(o.method, o.params), Plan::Refuse(..)),
            "{name}"
        );
    }
}

fn response(id: u64, result: Option<Value>, error: Option<RpcError>) -> Option<Response> {
    Some(Response {
        jsonrpc: "2.0".into(),
        id,
        result,
        error,
    })
}

#[test]
fn a_response_is_taken_for_what_it_says() {
    assert_eq!(
        Client::take(1, response(1, Some(Value::Bool(true)), None)).unwrap(),
        Value::Bool(true)
    );
    let text = |r: std::result::Result<Value, ClientError>| r.unwrap_err().message();
    assert_eq!(
        text(Client::take(1, response(2, Some(Value::Null), None))),
        "protocol: response id 2 does not match request id 1"
    );
    assert_eq!(
        text(Client::take(1, response(1, None, None))),
        "protocol: response has neither result nor error"
    );
    assert_eq!(text(Client::take(1, None)), "protocol: daemon closed connection");
    let e = RpcError {
        code: -32602,
        message: "bad".into(),
    };
    assert_eq!(
        text(Client::take(1, response(1, None, Some(e)))),
        "daemon error -32602: bad"
    );
}

#[test]
fn a_missing_daemon_is_told_apart() {
    assert_eq!(
        Client::connect_error(&FilePath::of("/s"), ConnectFailure::Absent).message(),
        "daemon not running (socket /s)"
    );
    assert_eq!(
        Client::connect_error(&FilePath::of("/s"), ConnectFailure::Other("denied".into())).message(),
        "io: denied"
    );
    assert_eq!(ClientError::Json("eof".into()).message(), "json: eof");
    assert_eq!(socket_path(Some(FilePath::of("/s"))), FilePath::of("/s"));
    assert!(socket_path(None).describe().ends_with("/DisplayStudio/displayd.sock"));
}

// ── Requests ───────────────────────────────────────────────────────────────

#[test]
fn methods_want_their_own_parameters() {
    assert_eq!(shape("monitor.get"), Shape::Get);
    assert_eq!(shape("monitor.set"), Shape::Write);
    assert_eq!(shape(method::CAPS), Shape::Caps);
    assert_eq!(shape(method::PROFILE_APPLY), Shape::Apply);
    assert_eq!(shape(method::PROFILE_SAVE), Shape::Save);
    assert_eq!(shape(method::PROFILE_SHOW), Shape::Name);
    assert_eq!(shape(method::PROFILE_DELETE), Shape::Name);
    assert_eq!(shape("monitors.list"), Shape::Nothing);
}

#[test]
fn requests_become_commands() {
    let p = plan(
        method::GET,
        Params::Get(GetParams {
            display: "3".into(),
            code: "0x10".into(),
        }),
    );
    assert!(
        matches!(p, Plan::Run(Command::Get { display, code }) if display == "3" && code == "0x10")
    );
    let p = plan(
        method::SET,
        Params::Write(SetParams {
            display: "3".into(),
            code: "0x10".into(),
            value: 7,
            verify: true,
        }),
    );
    assert!(matches!(
        p,
        Plan::Run(Command::Write {
            value: 7,
            verify: true,
            ..
        })
    ));
    let p = plan(
        method::CAPS,
        Params::Caps(CapsParams {
            display: "3".into(),
        }),
    );
    assert!(matches!(p, Plan::Run(Command::Caps { display }) if display == "3"));
    let p = plan(
        method::PROFILE_APPLY,
        Params::Apply(ProfileApplyParams {
            name: "p".into(),
            verify: false,
            yes: true,
        }),
    );
    assert!(matches!(
        p,
        Plan::Run(Command::ProfileApply {
            verify: false,
            yes: true,
            ..
        })
    ));
    let p = plan(
        method::PROFILE_DELETE,
        Params::Name(ProfileNameParams { name: "p".into() }),
    );
    assert!(matches!(p, Plan::Run(Command::ProfileDelete { name }) if name == "p"));
    assert!(matches!(
        plan(method::RULES_TICK, Params::Absent),
        Plan::Run(Command::AutomationTick)
    ));
    match plan(method::VERSION, Params::Absent) {
        Plan::Version(v) => assert_eq!(v.protocol, PROTOCOL_VERSION),
        other => panic!("{other:?}"),
    }
}

fn refusal(p: Plan) -> (i32, String) {
    match p {
        Plan::Refuse(code, message) => (code, message),
        other => panic!("{other:?}"),
    }
}

#[test]
fn requests_that_do_not_fit_are_refused() {
    assert_eq!(
        refusal(plan("no.such", Params::Absent)),
        (METHOD_NOT_FOUND, "unknown method \"no.such\"".to_string())
    );
    assert_eq!(
        refusal(plan(method::GET, Params::Absent)),
        (INVALID_PARAMS, "missing params".to_string())
    );
    assert_eq!(
        refusal(plan(method::GET, Params::Invalid("expected a map".into()))),
        (INVALID_PARAMS, "expected a map".to_string())
    );
    let save = |codes: &[&str]| {
        plan(
            method::PROFILE_SAVE,
            Params::Save(ProfileSaveParams {
                name: "p".into(),
                codes: codes.iter().map(|c| c.to_string()).collect(),
                force: false,
            }),
        )
    };
    assert_eq!(
        refusal(save(&["brightness", "bogus"])),
        (
            INVALID_PARAMS,
            "unknown VCP code \"bogus\"".to_string()
        )
    );
    match save(&[]) {
        Plan::Run(Command::ProfileSave { codes, .. }) => assert_eq!(codes.len(), 6),
        other => panic!("{other:?}"),
    }
    assert_eq!(
        resolve_codes(&vec!["contrast".into(), "0x10".into()]).unwrap(),
        vec![VcpCode::Contrast, VcpCode::Brightness]
    );
}

#[test]
fn responses_hold_a_result_or_an_error() {
    let r = respond(7, Ok(Value::Null));
    assert_eq!((r.id, r.result, r.error), (7, Some(Value::Null), None));
    let r = respond(7, Err(EngineError::NoDisplays));
    assert!(r.result.is_none());
    let e = r.error.unwrap();
    assert_eq!(e.code, INTERNAL_ERROR);
    assert_eq!(e.message, "no controllable displays found");
    let r = bad_request("eof");
    assert_eq!(r.id, 0);
    assert!(r.error.unwrap().message.contains("eof"));
    assert!(is_frame("{}"));
    assert!(!is_frame(" \t\r\n"));
}

// ── The worker ─────────────────────────────────────────────────────────────

#[derive(Default)]
struct Bench {
    monitors: Vec<Monitor>,
    writes: Vec<(u32, u8, u16)>,
    power: Option<PowerState>,
}

impl DisplayBackend for Bench {
    fn list(&mut self) -> Result<Vec<Monitor>> {
        Ok(self.monitors.clone())
    }
    fn online_ids(&mut self) -> Result<Vec<DisplayId>> {
        Ok(self.monitors.iter().map(|m| m.id).collect())
    }
    fn get_vcp(&mut self, id: DisplayId, code: VcpCode) -> Result<(u16, u16)> {
        let last = self
            .writes
            .iter()
            .rev()
            .find(|w| w.0 == id.0 && w.1 == code.code());
        Ok((last.map(|w| w.2).unwrap_or(50), 100))
    }
    fn set_vcp(&mut self, id: DisplayId, code: VcpCode, value: u16) -> Result<()> {
        self.writes.push((id.0, code.code(), value));
        Ok(())
    }
    fn capability_string(&mut self, _id: DisplayId) -> Result<Option<String>> {
        Ok(Some("(prot(monitor)vcp(10 12))".into()))
    }
    fn power_source(&mut self) -> Result<PowerState> {
        match self.power {
            Some(p) => Ok(p),
            None => Err(Error::Transport("no power source".into())),
        }
    }
}

/// A platform that does not say where power comes from.
struct Mute;

impl DisplayBackend for Mute {
    fn list(&mut self) -> Result<Vec<Monitor>> {
        Ok(Vec::new())
    }
    fn online_ids(&mut self) -> Result<Vec<DisplayId>> {
        Ok(Vec::new())
    }
    fn get_vcp(&mut self, id: DisplayId, _code: VcpCode) -> Result<(u16, u16)> {
        Err(Error::NotFound(id))
    }
    fn set_vcp(&mut self, id: DisplayId, _code: VcpCode, _value: u16) -> Result<()> {
        Err(Error::NotFound(id))
    }
    fn capability_string(&mut self, _id: DisplayId) -> Result<Option<String>> {
        Ok(None)
    }
}

fn monitor(id: u32, product: &str) -> Monitor {
    Monitor {
        id: DisplayId(id),
        identity: DisplayIdentity {
            vendor: "DEL".into(),
            product_name: product.into(),
            serial: 0x1A2B_3C4D,
            ..Default::default()
        },
        control: ControlPath::Ddc,
        capabilities: None,
    }
}

fn bench(monitors: Vec<Monitor>) -> Engine<Bench> {
    Engine::with_profiles(
        Bench {
            monitors,
            power: Some(PowerState::Ac),
            ..Default::default()
        },
        ProfileStore::new(FilePath::of("/d")),
    )
}

fn rules_file() -> RulesStore {
    RulesStore::new(FilePath::of("/d/rules.toml"))
}

fn idle() -> Automation {
    Automation::new(RuleSet { rules: vec![] })
}

#[test]
fn commands_say_what_they_need_of_the_file_system() {
    let store = ProfileStore::new(FilePath::of("/d"));
    let name = || "coding".to_string();
    let ask = |c: Command| needs(&c, &store, &rules_file());
    assert!(matches!(ask(Command::List), Need::Nothing));
    assert!(matches!(ask(Command::ProfileList), Need::Profiles(d) if d == FilePath::of("/d")));
    assert!(matches!(
        ask(Command::ProfileShow { name: name() }),
        Need::Profile(p) if p == FilePath::of("/d/coding.toml")
    ));
    assert!(matches!(
        ask(Command::ProfileDelete { name: name() }),
        Need::Absence(p) if p == FilePath::of("/d/coding.toml")
    ));
    assert!(matches!(
        ask(Command::ProfileSave { name: name(), codes: vec![], force: false }),
        Need::Presence(p) if p == FilePath::of("/d/coding.toml")
    ));
    assert!(matches!(ask(Command::RulesReload), Need::Rules(p) if p == FilePath::of("/d/rules.toml")));
    // A name that could escape the directory never becomes a path.
    assert!(matches!(
        ask(Command::ProfileShow {
            name: "../x".into()
        }),
        Need::Nothing
    ));
}

#[test]
fn commands_are_carried_out() {
    let mut e = bench(vec![monitor(3, "U2720Q")]);
    let mut a = idle();
    let mut go = |c: Command, s: Supply| run(&mut e, &mut a, &rules_file(), c, s);
    assert!(matches!(
        go(Command::List, Supply::Nothing),
        Answer::Monitors(Ok(v)) if v.len() == 1 && v[0].product == "U2720Q"
    ));
    let write = Command::Write {
        display: "u27".into(),
        code: "brightness".into(),
        value: 60,
        verify: true,
    };
    assert!(matches!(
        go(write, Supply::Nothing),
        Answer::Written(Ok(r)) if r.displays == 1 && r.ignored.is_empty()
    ));
    let get = Command::Get {
        display: "3".into(),
        code: "0x10".into(),
    };
    assert!(matches!(
        go(get, Supply::Nothing),
        Answer::Value(Ok(v)) if v.current == 60 && v.max == 100 && v.name == "Brightness"
    ));
    let caps = Command::Caps {
        display: "".into(),
    };
    assert!(matches!(
        go(caps, Supply::Nothing),
        Answer::Caps(Ok(c)) if c.vcp_codes == vec![0x10, 0x12]
    ));
    let save = Command::ProfileSave {
        name: "now".into(),
        codes: vec![VcpCode::Brightness],
        force: false,
    };
    match go(save, Supply::Presence(false)) {
        Answer::Saved(Ok(s)) => {
            assert_eq!(s.summary.displays, Some(1));
            assert_eq!(s.plan.path.describe(), "/d/now.toml");
            assert_eq!(
                s.profile.displays[0].settings.get("brightness").copied(),
                Some(60)
            );
        }
        other => panic!("{other:?}"),
    }
    let gone = Command::ProfileDelete {
        name: "now".into(),
    };
    assert!(matches!(
        go(gone, Supply::Absence(Removal::Missing)),
        Answer::Deleted(Err(EngineError::Profile(ProfileError::NotFound(n)))) if n == "now"
    ));
    assert!(matches!(
        go(Command::ProfileList, Supply::Profiles(Ok(vec![("x".into(), Reading::Missing)]))),
        Answer::Profiles(Ok(v)) if v.len() == 1 && v[0].displays.is_none()
    ));
}

fn profile(name: &str, code: &str, value: u16) -> Profile {
    let mut settings = TextMap::new();
    settings.insert(code.to_string(), value);
    Profile {
        name: name.into(),
        displays: vec![DisplayProfile {
            selector: "U2720Q".into(),
            settings,
        }],
    }
}

#[test]
fn profiles_that_were_read_are_applied() {
    let mut e = bench(vec![monitor(3, "U2720Q")]);
    let mut a = idle();
    let apply = |yes| Command::ProfileApply {
        name: "p".into(),
        verify: true,
        yes,
    };
    let found = |code| Supply::Profile(Reading::Parsed(profile("p", code, 60)));
    match run(&mut e, &mut a, &rules_file(), apply(false), found("contrast")) {
        Answer::Applied(Ok(r)) => assert_eq!(r.outcomes.len(), 1),
        other => panic!("{other:?}"),
    }
    assert_eq!(e.backend.writes, vec![(3, 0x12, 60)]);
    match run(&mut e, &mut a, &rules_file(), apply(false), found("0xD6")) {
        Answer::Applied(Err(EngineError::DestructiveProfile { name, .. })) => {
            assert_eq!(name, "p")
        }
        other => panic!("{other:?}"),
    }
    assert_eq!(e.backend.writes.len(), 1, "nothing was written");
    match run(&mut e, &mut a, &rules_file(), apply(true), found("0xD6")) {
        Answer::Applied(Ok(_)) => assert_eq!(e.backend.writes.len(), 2),
        other => panic!("{other:?}"),
    }
}

fn rule(name: &str, trigger: Trigger, action: Action) -> Rule {
    Rule {
        name: name.into(),
        trigger,
        action,
        force: false,
        enabled: true,
    }
}

#[test]
fn bad_rules_change_nothing_on_reload() {
    let mut e = bench(vec![]);
    let mut a = Automation::new(RuleSet {
        rules: vec![rule(
            "night",
            Trigger::Time("22:00".into()),
            Action::Profile("dim".into()),
        )],
    });
    let bad = Supply::Rules(RulesReading::Unparseable("expected a value".into()));
    assert!(matches!(
        run(&mut e, &mut a, &rules_file(), Command::RulesReload, bad),
        Answer::Rules(Err(EngineError::Rules(RulesError::Parse { .. })))
    ));
    match run(
        &mut e,
        &mut a,
        &rules_file(),
        Command::RulesList,
        Supply::Nothing,
    ) {
        Answer::Rules(Ok(v)) => assert_eq!(v[0].name, "night"),
        other => panic!("{other:?}"),
    }
    // A file that is not there means no rules.
    match run(
        &mut e,
        &mut a,
        &rules_file(),
        Command::RulesReload,
        Supply::Rules(RulesReading::Missing),
    ) {
        Answer::Rules(Ok(v)) => assert!(v.is_empty()),
        other => panic!("{other:?}"),
    }
    assert!(starting_rules(Err(RulesError::Invalid { name: "x".into(), problem: "y".into() }))
        .rules
        .is_empty());
}

#[test]
fn a_tick_observes_the_displays() {
    let mut e = bench(vec![]);
    let mut a = Automation::new(RuleSet {
        rules: vec![rule(
            "dock",
            Trigger::DisplayConnected("u2720q".into()),
            Action::Profile("desk".into()),
        )],
    });
    let mut tick = |e: &mut Engine<Bench>| {
        run(
            e,
            &mut a,
            &rules_file(),
            Command::AutomationTick,
            Supply::Nothing,
        )
    };
    assert!(matches!(tick(&mut e), Answer::Fired(Ok(v)) if v.is_empty()));
    e.backend.monitors.push(monitor(3, "U2720Q"));
    assert!(matches!(tick(&mut e), Answer::Fired(Ok(v)) if v.len() == 1 && v[0].name == "dock"));
    assert!(matches!(tick(&mut e), Answer::Fired(Ok(v)) if v.is_empty()));
    assert_eq!(e.display_names().unwrap(), vec!["3", "DEL U2720Q"]);
}

#[test]
fn lost_commands_are_errors_not_hangs() {
    assert_eq!(
        loss_error(Loss::Gone).message(),
        "transport failure: worker thread is gone"
    );
    assert_eq!(
        loss_error(Loss::Dropped).message(),
        "transport failure: worker dropped the request"
    );
}

// ── What rules do ──────────────────────────────────────────────────────────

fn writes(code: &str, force: bool) -> Rule {
    let mut r = rule(
        "r",
        Trigger::Power(PowerState::Battery),
        Action::Write {
            display: "3".into(),
            code: code.into(),
            value: 20,
        },
    );
    r.force = force;
    r
}

#[test]
fn rules_write_only_what_they_may() {
    let mut e = bench(vec![monitor(3, "U2720Q")]);
    assert!(matches!(
        e.execute(&writes("brightness", false)),
        Step::Done(Ok(s)) if s == "set brightness=20 on 1 display(s)"
    ));
    match e.execute(&writes("0x60", false)) {
        Step::Done(Err(EngineError::DestructiveProfile { name, code })) => {
            assert_eq!((name.as_str(), code.as_str()), ("r", "Input Source"))
        }
        _ => panic!("a destructive rule without force must be refused"),
    }
    assert_eq!(e.backend.writes.len(), 1);
    assert!(matches!(e.execute(&writes("0x60", true)), Step::Done(Ok(_))));
    assert_eq!(e.backend.writes.len(), 2);
}

#[test]
fn rules_ask_for_what_only_others_can_do() {
    let mut e = bench(vec![monitor(3, "U2720Q")]);
    let t = || Trigger::Power(PowerState::Battery);
    let r = rule("r", t(), Action::Profile("dim".into()));
    assert!(matches!(e.execute(&r), Step::LoadProfile(n) if n == "dim"));
    let done = e
        .execute_profile(&r, "dim", Reading::Parsed(profile("dim", "contrast", 5)))
        .unwrap();
    assert!(done.contains("dim"), "{done}");
    assert_eq!(e.backend.writes, vec![(3, 0x12, 5)]);
    let r = rule("r", t(), Action::Run("say hi".into()));
    assert!(matches!(e.execute(&r), Step::Spawn(c) if c == "say hi"));
    assert_eq!(
        report_command("say hi", Ok(42)).unwrap(),
        "spawned \"say hi\" (pid 42)"
    );
    assert_eq!(
        report_command("say hi", Err("no shell".into()))
            .unwrap_err()
            .message(),
        "transport failure: cannot run \"say hi\": no shell"
    );
    let f = report_rule(&r, Err(EngineError::NoDisplays));
    assert!(!f.ok);
    assert_eq!(f.detail, "no controllable displays found");
    let infos = rule_infos(&RuleSet { rules: vec![r] });
    assert_eq!(infos[0].name, "r");
    assert!(infos[0].enabled);
}

#[test]
fn power_is_what_the_platform_says() {
    let mut e = bench(vec![]);
    assert!(matches!(e.power_source(), Ok(PowerState::Ac)));
    e.backend.power = None;
    assert!(e.power_source().is_err());
    // A platform that says nothing fires nothing.
    let mut m = Engine::new(Mute);
    assert!(matches!(m.power_source(), Ok(PowerState::Unknown)));
}

#[test]
fn errors_read_as_sentences_with_advice() {
    assert_eq!(
        EngineError::NoMatch("x".into()).message(),
        "no display matches \"x\""
    );
    assert_eq!(
        EngineError::Ambiguous("x".into(), "A, B".into()).message(),
        "\"x\" is ambiguous — matches A, B. Use --display with an id or a longer name."
    );
    assert_eq!(
        EngineError::NeedsSelector(2).message(),
        "no display specified and 2 displays are controllable — use --display"
    );
    assert_eq!(
        EngineError::BadCode("x".into()).message(),
        "unknown VCP code \"x\" — use a name like \"brightness\" or a number like \"0x10\""
    );
    assert_eq!(
        EngineError::Backend(Error::OutOfRange {
            code: VcpCode::Brightness,
            value: 200,
            max: 100
        })
        .message(),
        "value 200 out of range for Brightness (VCP 0x10) (max 100)"
    );
    assert_eq!(
        Error::NotFound(DisplayId(3)).message(),
        "display not found: 3"
    );
}

#[test]
fn the_clock_does_not_run_backwards() {
    let c = Clock::new();
    let a = c.now();
    let b = c.now();
    assert!(a <= b);
    assert!(b < 60_000_000_000, "a clock starts when it is made");
}

/// A tick asks the platform for its power source, and passes its error on.
#[test]
fn a_tick_asks_for_power() {
    let mut e = bench(vec![]);
    let mut a = Automation::new(RuleSet {
        rules: vec![rule(
            "dim",
            Trigger::Power(PowerState::Battery),
            Action::Profile("dim".into()),
        )],
    });
    let mut tick = |e: &mut Engine<Bench>| {
        run(
            e,
            &mut a,
            &rules_file(),
            Command::AutomationTick,
            Supply::Nothing,
        )
    };
    e.backend.power = Some(PowerState::Ac);
    assert!(matches!(tick(&mut e), Answer::Fired(Ok(v)) if v.is_empty()));
    e.backend.power = None;
    match tick(&mut e) {
        Answer::Fired(Err(EngineError::Backend(Error::Transport(s)))) => {
            assert_eq!(s, "no power source")
        }
        other => panic!("{other:?}"),
    }
    e.backend.power = Some(PowerState::Battery);
    assert!(matches!(tick(&mut e), Answer::Fired(Ok(v)) if v.len() == 1 && v[0].name == "dim"));
}

/// A request that is refused is answered with its own id.
#[test]
fn refusals_carry_the_id_of_their_request() {
    match handle(7, "monitor.get", Params::Absent) {
        Next::Reply(r) => {
            assert_eq!(r.id, 7);
            assert!(r.result.is_none());
            let e = r.error.unwrap();
            assert_eq!((e.code, e.message.as_str()), (INVALID_PARAMS, "missing params"));
        }
        other => panic!("{other:?}"),
    }
    match handle(8, "no.such", Params::Absent) {
        Next::Reply(r) => {
            assert_eq!(r.id, 8);
            let e = r.error.unwrap();
            assert_eq!(
                (e.code, e.message.as_str()),
                (METHOD_NOT_FOUND, "unknown method \"no.such\"")
            );
        }
        other => panic!("{other:?}"),
    }
    assert!(matches!(handle(9, "monitors.list", Params::Absent), Next::Run(Command::List)));
}

#[test]
fn requests_carry_what_they_ask_for() {
    let mut params = serde_json::Map::new();
    params.insert("display".to_string(), Value::String("3".to_string()));
    let r = Request::new(1, "monitor.get", Some(Value::Object(params)));
    assert_eq!(r.jsonrpc, "2.0");
    assert_eq!(r.id, 1);
    assert_eq!(r.method, "monitor.get");
    assert_eq!(r.params.unwrap()["display"], "3");
    let r = Request::new(7, "monitors.list", None);
    assert_eq!(r.jsonrpc, "2.0");
    assert_eq!(r.id, 7);
    assert_eq!(r.method, "monitors.list");
    assert!(r.params.is_none(), "no params when absent");
}

#[test]
fn responses_never_hold_both() {
    let r = Response::ok(1, Value::Bool(true));
    assert_eq!(r.jsonrpc, "2.0");
    assert_eq!(r.id, 1);
    assert_eq!(r.result, Some(Value::Bool(true)));
    assert!(r.error.is_none(), "no error beside a result");
    let r = Response::err(2, INVALID_PARAMS, "bad".to_string());
    assert_eq!(r.jsonrpc, "2.0");
    assert_eq!(r.id, 2);
    assert!(r.result.is_none(), "no result beside an error");
    let e = r.error.unwrap();
    assert_eq!(e.code, -32602);
    assert_eq!(e.message, "bad");
}
