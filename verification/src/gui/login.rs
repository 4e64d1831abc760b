//! Launch at login.
//!
//! A development binary has no bundle to register, so a launch agent that points
//! at the current executable does the same, one layer lower.

use crate::paths;
use crate::paths::FilePath;
use crate::text;
use vstd::prelude::*;

verus! {

/// The name that the launch agent goes by.
pub const LABEL: &'static str = "io.github.displaymanager.gui";

/// `dirs::home_dir`: the user's home directory, by the environment and the
/// platform's conventions, in the platform's own bytes, or nothing where there is
/// none. Nothing more is promised.
#[verifier::external_body]
pub(crate) fn home_dir() -> (r: Option<Vec<u8>>) {
    dirs::home_dir().map(|p| p.into_os_string().into_encoded_bytes())
}

/// Whether this is a home directory, or the want of one, that a call of `home_dir`
/// gives.
pub closed spec fn home_dir_found(found: Option<Seq<u8>>) -> bool {
    exists|d: Option<Vec<u8>>| #[trigger]
        call_ensures(home_dir, (), d) && found == paths::bytes_in(d)
}

/// Where the launch agent is kept, below a home directory.
pub open spec fn agent_path(home: Option<Seq<u8>>) -> Seq<u8> {
    paths::inside(
        paths::inside(paths::inside(paths::base_of(home), "Library"@), "LaunchAgents"@),
        LABEL@ + ".plist"@,
    )
}

/// The path of the launch agent, below a home directory.
pub fn agent_file(home: Option<FilePath>) -> (r: FilePath)
    ensures
        r@ == agent_path(paths::opt_path(home)),
{
    let agents = paths::base(home).join("Library").join("LaunchAgents");
    agents.join(text::after(LABEL, ".plist").as_str())
}

/// The path of the launch agent for the current user.
pub fn plist_path() -> (r: FilePath)
    ensures
        exists|home: Option<Seq<u8>>| #[trigger] home_dir_found(home) && r@ == agent_path(home),
{
    let dir = home_dir();
    let ghost view = paths::bytes_in(dir);
    assert(home_dir_found(view));
    let home = match dir {
        Some(bytes) => Some(FilePath { bytes }),
        None => None,
    };
    assert(paths::opt_path(home) == view);
    agent_file(home)
}

/// The launch agent that starts an executable.
pub open spec fn agent_text(exe: Seq<char>) -> Seq<char> {
    "<?xml version=\"1.0\" encoding=\"UTF-8\"?>\n<!DOCTYPE plist PUBLIC \"-//Apple//DTD PLIST 1.0//EN\" \"http://www.apple.com/DTDs/PropertyList-1.0.dtd\">\n<plist version=\"1.0\">\n<dict>\n    <key>Label</key><string>"@
        + LABEL@ + "</string>\n    <key>ProgramArguments</key><array><string>"@ + exe
        + "</string></array>\n    <key>RunAtLoad</key><true/>\n</dict>\n</plist>"@
}

/// Write the launch agent that starts an executable.
pub fn plist(exe: &str) -> (r: String)
    ensures
        r@ == agent_text(exe@),
{
    let mut out = text::between(
        "<?xml version=\"1.0\" encoding=\"UTF-8\"?>\n<!DOCTYPE plist PUBLIC \"-//Apple//DTD PLIST 1.0//EN\" \"http://www.apple.com/DTDs/PropertyList-1.0.dtd\">\n<plist version=\"1.0\">\n<dict>\n    <key>Label</key><string>",
        LABEL,
        "</string>\n    <key>ProgramArguments</key><array><string>",
    );
    out.append(exe);
    out.append("</string></array>\n    <key>RunAtLoad</key><true/>\n</dict>\n</plist>");
    out
}

/// What is done to the file of the launch agent.
#[derive(Debug)]
pub enum Change {
    Put(String),
    Take,
    Keep,
}

/// Whether this is what turning launch at login on or off does.
pub open spec fn turned(on: bool, exe: Option<&str>, c: Change) -> bool {
    if on {
        match exe {
            Some(e) => c matches Change::Put(t) && t@ == agent_text(e@),
            None => c is Keep,
        }
    } else {
        c is Take
    }
}

/// What turning launch at login on or off does. Without a known executable there
/// is nothing to launch, so nothing is done.
pub fn set_enabled(on: bool, exe: Option<&str>) -> (c: Change)
    ensures
        turned(on, exe, c),
{
    if !on {
        return Change::Take;
    }
    match exe {
        Some(e) => Change::Put(plist(e)),
        None => Change::Keep,
    }
}

/// Launch at login is turned on by putting an agent that starts the executable at login,
/// under the application's label, and off by taking it away.
pub proof fn law_turning_on_puts_and_off_takes(on: bool, exe: Option<&str>, c: Change)
    requires
        turned(on, exe, c),
    ensures
        (c is Take) == !on,
        (c is Put) == (on && exe is Some),
        c matches Change::Put(t) ==> exists|head: Seq<char>, tail: Seq<char>|
            t@ == #[trigger] (head + LABEL@
                + "</string>\n    <key>ProgramArguments</key><array><string>"@ + exe->Some_0@ + tail)
                && tail
                == "</string></array>\n    <key>RunAtLoad</key><true/>\n</dict>\n</plist>"@,
{
    if on && exe is Some {
        let head =
            "<?xml version=\"1.0\" encoding=\"UTF-8\"?>\n<!DOCTYPE plist PUBLIC \"-//Apple//DTD PLIST 1.0//EN\" \"http://www.apple.com/DTDs/PropertyList-1.0.dtd\">\n<plist version=\"1.0\">\n<dict>\n    <key>Label</key><string>"@;
        let tail = "</string></array>\n    <key>RunAtLoad</key><true/>\n</dict>\n</plist>"@;
        assert(c->Put_0@ == (head + LABEL@
            + "</string>\n    <key>ProgramArguments</key><array><string>"@ + exe->Some_0@ + tail));
    }
}

/// The launch agent names the application and the program, runs it when it is loaded, and
/// names no other program.
pub proof fn law_the_agent_starts_the_program_at_login(a: Seq<char>, b: Seq<char>)
    ensures
        agent_text(a)
            == "<?xml version=\"1.0\" encoding=\"UTF-8\"?>\n<!DOCTYPE plist PUBLIC \"-//Apple//DTD PLIST 1.0//EN\" \"http://www.apple.com/DTDs/PropertyList-1.0.dtd\">\n<plist version=\"1.0\">\n<dict>\n    <key>Label</key><string>"@
            + "io.github.displaymanager.gui"@
            + "</string>\n    <key>ProgramArguments</key><array><string>"@ + a
            + "</string></array>\n    <key>RunAtLoad</key><true/>\n</dict>\n</plist>"@,
        agent_text(a) == agent_text(b) ==> a == b,
{
    let head = "<?xml version=\"1.0\" encoding=\"UTF-8\"?>\n<!DOCTYPE plist PUBLIC \"-//Apple//DTD PLIST 1.0//EN\" \"http://www.apple.com/DTDs/PropertyList-1.0.dtd\">\n<plist version=\"1.0\">\n<dict>\n    <key>Label</key><string>"@
        + LABEL@ + "</string>\n    <key>ProgramArguments</key><array><string>"@;
    let tail = "</string></array>\n    <key>RunAtLoad</key><true/>\n</dict>\n</plist>"@;
    assert(agent_text(a) =~= head + a + tail);
    assert(agent_text(b) =~= head + b + tail);
    if agent_text(a) == agent_text(b) {
        assert(a.len() == b.len());
        assert forall|i: int| 0 <= i < a.len() implies a[i] == b[i] by {
            assert((head + a + tail)[head.len() + i] == a[i]);
            assert((head + b + tail)[head.len() + i] == b[i]);
        }
        assert(a =~= b);
    }
}

/// The launch agent is kept with the user's own, under the application's label.
pub proof fn law_the_agent_is_kept_at_home(home: Seq<u8>)
    requires
        home.len() > 0,
        home.last() != 47,
    ensures
        agent_path(Some(home)) == home + seq![47u8] + vstd::utf8::encode_utf8("Library"@)
            + seq![47u8] + vstd::utf8::encode_utf8("LaunchAgents"@) + seq![47u8]
            + vstd::utf8::encode_utf8("io.github.displaymanager.gui"@ + ".plist"@),
{
    reveal_strlit("Library");
    reveal_strlit("LaunchAgents");
    vstd::utf8::is_ascii_chars_encode_utf8("Library"@);
    vstd::utf8::is_ascii_chars_encode_utf8("LaunchAgents"@);
    let library = paths::inside(home, "Library"@);
    let agents = paths::inside(library, "LaunchAgents"@);
    paths::law_names_stand_behind_one_slash(home, "Library"@);
    assert(vstd::utf8::encode_utf8("Library"@)[6] == 0x79);
    assert(library.last() == 0x79);
    paths::law_names_stand_behind_one_slash(library, "LaunchAgents"@);
    assert(vstd::utf8::encode_utf8("LaunchAgents"@)[11] == 0x73);
    assert(agents.last() == 0x73);
    paths::law_names_stand_behind_one_slash(agents, LABEL@ + ".plist"@);
    assert(agent_path(Some(home)) =~= home + seq![47u8] + vstd::utf8::encode_utf8("Library"@)
        + seq![47u8] + vstd::utf8::encode_utf8("LaunchAgents"@) + seq![47u8]
        + vstd::utf8::encode_utf8(LABEL@ + ".plist"@));
}

} // verus!
