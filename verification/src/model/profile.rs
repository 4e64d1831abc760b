//! Named snapshots of per-monitor settings.
//!
//! Stored as one TOML file per profile so they are human-editable and can live
//! in a dotfiles repo:
//!
//! ```toml
//! name = "coding"
//!
//! [[display]]
//! match = "MB169CK"
//!
//! [display.settings]
//! brightness = 60
//! contrast = 75
//! ```
//!
//! `match` uses the same selector grammar as the CLI (`all`, a display id, or a
//! case-insensitive product/vendor substring), so a profile written against one
//! machine's display ids still applies on another by name.
//!
//! The store decides: which path a name stands for, whether a profile may be
//! written, what an attempt to read one amounts to. Whoever owns the file system
//! acts on the decision and hands back what came of it.

use crate::keyed::TextMap;
use crate::paths;
use crate::paths::FilePath;
use crate::text;
use vstd::prelude::*;
use vstd::utf8::encode_utf8;

verus! {

/// Why a profile could not be had or kept.
#[derive(Debug)]
pub enum ProfileError {
    InvalidName(String),
    NotFound(String),
    Exists(String),
    Io(String),
    Parse { path: String, source: String },
    Serialize(String),
}

pub type Result<T> = core::result::Result<T, ProfileError>;

/// What an error reads as.
pub open spec fn error_text(e: ProfileError) -> Seq<char> {
    match e {
        ProfileError::InvalidName(n) => "profile name "@ + text::quoted(n@)
            + " is invalid — use letters, digits, '-' or '_'"@,
        ProfileError::NotFound(n) => "profile "@ + text::quoted(n@) + " not found"@,
        ProfileError::Exists(n) => "profile "@ + text::quoted(n@)
            + " already exists — pass --force to overwrite"@,
        ProfileError::Io(s) => "io: "@ + s@,
        ProfileError::Parse { path, source } => "parse "@ + path@ + ": "@ + source@,
        ProfileError::Serialize(s) => "serialize: "@ + s@,
    }
}

impl ProfileError {
    /// The error as a message for people.
    pub fn message(&self) -> (r: String)
        ensures
            r@ == error_text(*self),
    {
        match self {
            ProfileError::InvalidName(n) => text::between(
                "profile name ",
                text::quote(n.as_str()).as_str(),
                " is invalid — use letters, digits, '-' or '_'",
            ),
            ProfileError::NotFound(n) => text::between(
                "profile ",
                text::quote(n.as_str()).as_str(),
                " not found",
            ),
            ProfileError::Exists(n) => text::between(
                "profile ",
                text::quote(n.as_str()).as_str(),
                " already exists — pass --force to overwrite",
            ),
            ProfileError::Io(s) => text::after("io: ", s.as_str()),
            ProfileError::Parse { path, source } => {
                let mut out = text::between("parse ", path.as_str(), ": ");
                out.append(source.as_str());
                out
            },
            ProfileError::Serialize(s) => text::after("serialize: ", s.as_str()),
        }
    }
}

/// Settings for one display within a profile.
///
/// `settings` keys are VCP codes by name ("brightness") or number ("0x10"), left
/// as strings so a hand-edited profile stays readable and unknown codes survive
/// a round-trip.
#[derive(Debug, Clone, PartialEq, Eq)]
pub struct DisplayProfile {
    pub selector: String,
    pub settings: TextMap<u16>,
}

/// A named snapshot.
#[derive(Debug, Clone, PartialEq, Eq)]
pub struct Profile {
    pub name: String,
    pub displays: Vec<DisplayProfile>,
}

/// Letters, digits, `-` and `_`, at least one and at most 64 of them.
pub open spec fn valid_name(name: Seq<char>) -> bool {
    &&& 1 <= name.len() <= 64
    &&& forall|i: int| 0 <= i < name.len() ==> text::is_name_char(#[trigger] name[i])
}

impl Profile {
    /// An empty profile.
    pub fn new(name: String) -> (r: Result<Self>)
        ensures
            match r {
                Ok(p) => valid_name(name@) && p.name == name && p.displays@.len() == 0,
                Err(e) => !valid_name(name@) && names_invalid(e, name@),
            },
    {
        match validate_name(name.as_str()) {
            Ok(_) => Ok(Profile { name, displays: Vec::new() }),
            Err(e) => Err(e),
        }
    }
}

/// Reject anything that could escape the profiles directory or collide with
/// filesystem semantics.
///
/// A profile name becomes a filename, and names arrive from the CLI and the IPC
/// socket, so `../../.ssh/authorized_keys` must be rejected here rather than
/// trusted to callers.
pub fn validate_name(name: &str) -> (r: Result<()>)
    ensures
        match r {
            Ok(_) => valid_name(name@),
            Err(e) => !valid_name(name@) && names_invalid(e, name@),
        },
{
    let cs = text::chars_of(name);
    let mut ok: bool = cs.len() > 0 && cs.len() <= 64;
    let mut i: usize = 0;
    while i < cs.len()
        invariant
            cs@ == name@,
            i <= cs@.len(),
            ok == (1 <= cs@.len() <= 64 && forall|k: int|
                0 <= k < i ==> text::is_name_char(#[trigger] cs@[k])),
        decreases cs@.len() - i,
    {
        if !text::name_char(cs[i]) {
            ok = false;
        }
        i = i + 1;
    }
    if ok {
        Ok(())
    } else {
        Err(ProfileError::InvalidName(text::own(name)))
    }
}

/// What came of reading the profile directory.
#[derive(Debug)]
pub enum Listing {
    /// There is no such directory.
    Missing,
    /// It could not be read.
    Failed(String),
    /// The names of the files in it.
    Files(Vec<String>),
}

/// What came of reading a profile.
#[derive(Debug)]
pub enum Reading {
    /// There is no such file.
    Missing,
    /// It could not be read.
    Failed(String),
    /// It is no profile.
    Unparseable(String),
    /// It holds this profile.
    Parsed(Profile),
}

/// What came of removing a profile.
#[derive(Debug)]
pub enum Removal {
    /// There was no such file.
    Missing,
    /// It could not be removed.
    Failed(String),
    Removed,
}

/// Where a profile goes.
///
/// Written via a temporary file in the same directory: a crash mid-write must
/// not leave a truncated profile where a valid one was.
#[derive(Debug, Clone, PartialEq, Eq)]
pub struct SavePlan {
    pub path: FilePath,
    pub temporary: FilePath,
}

/// Where profiles live.
#[derive(Debug)]
pub struct ProfileStore {
    pub dir: FilePath,
}

impl Clone for ProfileStore {
    fn clone(&self) -> (r: ProfileStore)
        ensures
            r.dir@ == self.dir@,
    {
        ProfileStore { dir: self.dir.clone() }
    }
}

/// The file that keeps a profile.
pub open spec fn profile_path(dir: Seq<u8>, name: Seq<char>) -> Seq<u8> {
    paths::inside(dir, name + ".toml"@)
}

/// Whether a file keeps a profile that can be loaded by name: `stem` and `.toml`.
pub open spec fn keeps(file: Seq<char>, stem: Seq<char>) -> bool {
    valid_name(stem) && file == stem + ".toml"@
}

/// The name of the profile that a file keeps, where it keeps one.
pub open spec fn stem_of(file: Seq<char>) -> Option<Seq<char>> {
    let n = file.len() - 5;
    if n >= 0 && keeps(file, file.take(n)) {
        Some(file.take(n))
    } else {
        None
    }
}

/// The names of the profiles that files keep.
pub open spec fn stems(files: Seq<Seq<char>>) -> Seq<Seq<char>>
    decreases files.len(),
{
    if files.len() == 0 {
        Seq::empty()
    } else {
        match stem_of(files.last()) {
            Some(s) => stems(files.drop_last()).push(s),
            None => stems(files.drop_last()),
        }
    }
}

/// Whether `e` says that a name is not valid.
pub open spec fn names_invalid(e: ProfileError, name: Seq<char>) -> bool {
    e matches ProfileError::InvalidName(n) && n@ == name
}

/// Whether `r` lists the profiles of a directory, in dictionary order. A directory
/// that is not there holds none.
pub open spec fn lists(found: Listing, r: Result<Vec<String>>) -> bool {
    match found {
        Listing::Missing => r matches Ok(v) && v@.len() == 0,
        Listing::Failed(why) => r == Err::<Vec<String>, ProfileError>(ProfileError::Io(why)),
        Listing::Files(files) => r matches Ok(v) && text::ordered(text::texts(v@)) && text::texts(
            v@,
        ).to_multiset() == stems(text::texts(files@)).to_multiset(),
    }
}

/// Whether `r` is what reading the file of a name amounts to.
pub open spec fn loads(
    dir: Seq<u8>,
    name: Seq<char>,
    found: Reading,
    r: Result<Profile>,
) -> bool {
    if !valid_name(name) {
        r matches Err(e) && names_invalid(e, name)
    } else {
        match found {
            Reading::Missing => r matches Err(ProfileError::NotFound(n)) && n@ == name,
            Reading::Failed(why) => r == Err::<Profile, ProfileError>(ProfileError::Io(why)),
            Reading::Unparseable(why) => r matches Err(ProfileError::Parse { path, source })
                && path@ == paths::path_text(profile_path(dir, name)) && source == why,
            Reading::Parsed(p) => r matches Ok(q) && q.name@ == name && q.displays == p.displays,
        }
    }
}

/// Whether `r` says where a profile goes, or why nowhere.
pub open spec fn plans(
    dir: Seq<u8>,
    name: Seq<char>,
    force: bool,
    exists: bool,
    r: Result<SavePlan>,
) -> bool {
    if !valid_name(name) {
        r matches Err(e) && names_invalid(e, name)
    } else if exists && !force {
        r matches Err(ProfileError::Exists(n)) && n@ == name
    } else {
        r matches Ok(plan) && plan.path@ == profile_path(dir, name) && plan.temporary@ == plan.path@
            + encode_utf8(".tmp"@)
    }
}

/// Whether `r` is what removing the file of a name amounts to.
pub open spec fn removes(name: Seq<char>, done: Removal, r: Result<()>) -> bool {
    if !valid_name(name) {
        r matches Err(e) && names_invalid(e, name)
    } else {
        match done {
            Removal::Missing => r matches Err(ProfileError::NotFound(n)) && n@ == name,
            Removal::Failed(why) => r == Err::<(), ProfileError>(ProfileError::Io(why)),
            Removal::Removed => r is Ok,
        }
    }
}

impl ProfileStore {
    pub fn new(dir: FilePath) -> (s: Self)
        ensures
            s.dir == dir,
    {
        ProfileStore { dir }
    }

    /// The default per-user location.
    pub fn default_location() -> (s: Self)
        ensures
            paths::for_user(s.dir@, "profiles"@),
    {
        ProfileStore::new(paths::user_file("profiles"))
    }

    /// The directory that profiles are kept in.
    pub fn dir(&self) -> (d: &FilePath)
        ensures
            *d == self.dir,
    {
        &self.dir
    }

    /// The file that keeps a profile.
    pub fn path_for(&self, name: &str) -> (r: Result<FilePath>)
        ensures
            match r {
                Ok(p) => valid_name(name@) && p@ == profile_path(self.dir@, name@),
                Err(e) => !valid_name(name@) && names_invalid(e, name@),
            },
    {
        match validate_name(name) {
            Ok(_) => Ok(
                self.dir.join(text::after(name, ".toml").as_str()),
            ),
            Err(e) => Err(e),
        }
    }

    /// Profile names, sorted. Missing directory means none, not an error.
    ///
    /// Ignores anything not loadable by name, so a stray file cannot make `list`
    /// fail.
    pub fn list(&self, found: Listing) -> (r: Result<Vec<String>>)
        ensures
            lists(found, r),
    {
        match found {
            Listing::Missing => Ok(Vec::new()),
            Listing::Failed(why) => Err(ProfileError::Io(why)),
            Listing::Files(files) => {
                let ghost all = text::texts(files@);
                let mut out: Vec<String> = Vec::new();
                let mut i: usize = 0;
                assert(text::texts(out@) =~= Seq::<Seq<char>>::empty());
                while i < files.len()
                    invariant
                        i <= files@.len(),
                        all == text::texts(files@),
                        text::texts(out@) == stems(all.take(i as int)),
                    decreases files@.len() - i,
                {
                    assert(all.take(i + 1).drop_last() =~= all.take(i as int));
                    let ghost before = text::texts(out@);
                    if let Some(stem) = profile_stem(files[i].as_str()) {
                        let ghost s = stem@;
                        out.push(stem);
                        assert(text::texts(out@) =~= before.push(s));
                    }
                    i = i + 1;
                }
                assert(all.take(i as int) =~= all);
                Ok(text::sort_texts(out))
            },
        }
    }

    /// The profile of a name, from what reading its file came to.
    ///
    /// The filename is authoritative: a hand-edited `name` that disagrees would
    /// make `apply <name>` fail confusingly.
    pub fn load(&self, name: &str, found: Reading) -> (r: Result<Profile>)
        ensures
            loads(self.dir@, name@, found, r),
    {
        let path = match self.path_for(name) {
            Ok(p) => p,
            Err(e) => return Err(e),
        };
        match found {
            Reading::Missing => Err(ProfileError::NotFound(text::own(name))),
            Reading::Failed(why) => Err(ProfileError::Io(why)),
            Reading::Unparseable(why) => Err(ProfileError::Parse { path: path.describe(), source: why }),
            Reading::Parsed(p) => Ok(Profile { name: text::own(name), displays: p.displays }),
        }
    }

    /// Where a profile goes, given whether there is one by its name already.
    pub fn save(&self, profile: &Profile, force: bool, exists: bool) -> (r: Result<SavePlan>)
        ensures
            plans(self.dir@, profile.name@, force, exists, r),
    {
        let path = match self.path_for(profile.name.as_str()) {
            Ok(p) => p,
            Err(e) => return Err(e),
        };
        if exists && !force {
            return Err(ProfileError::Exists(profile.name.clone()));
        }
        let temporary = path.followed_by(".tmp");
        Ok(SavePlan { path, temporary })
    }

    /// Whether a profile is gone, from what removing its file came to.
    pub fn delete(&self, name: &str, done: Removal) -> (r: Result<()>)
        ensures
            removes(name@, done, r),
    {
        match validate_name(name) {
            Ok(_) => {},
            Err(e) => return Err(e),
        }
        match done {
            Removal::Missing => Err(ProfileError::NotFound(text::own(name))),
            Removal::Failed(why) => Err(ProfileError::Io(why)),
            Removal::Removed => Ok(()),
        }
    }
}

/// The name of the profile that a file keeps, where it keeps one.
fn profile_stem(file: &str) -> (r: Option<String>)
    ensures
        text::opt_text(r) == stem_of(file@),
{
    proof {
        reveal_strlit(".toml");
    }
    let cs = text::chars_of(file);
    if cs.len() < 5 {
        return None;
    }
    let n: usize = cs.len() - 5;
    let stem = text::string_from(&cs, 0, n);
    let tail = text::string_from(&cs, n, cs.len());
    assert(stem@ =~= file@.take(n as int));
    assert(tail@ =~= file@.skip(n as int));
    assert(file@ =~= stem@ + tail@);
    if !text::same(tail.as_str(), ".toml") {
        assert((stem@ + ".toml"@).skip(n as int) =~= ".toml"@);
        return None;
    }
    match validate_name(stem.as_str()) {
        Ok(_) => Some(stem),
        Err(_) => None,
    }
}

// ── Laws ───────────────────────────────────────────────────────────────────

/// The file name of a valid name is one byte to a character.
proof fn lemma_file_name_bytes(name: Seq<char>)
    requires
        valid_name(name),
    ensures
        encode_utf8(name + ".toml"@) == Seq::new(
            name.len() + 5,
            |i: int| (name + ".toml"@)[i] as u8,
        ),
{
    reveal_strlit(".toml");
    let file = name + ".toml"@;
    assert(vstd::utf8::is_ascii_chars(file)) by {
        assert forall|i: int| 0 <= i < file.len() implies '\0' <= #[trigger] file[i] <= '\u{7f}' by {
            if i < name.len() {
                assert(text::is_name_char(name[i]));
            }
        }
    }
    vstd::utf8::is_ascii_chars_encode_utf8(file);
    assert(file.len() == name.len() + 5);
}

/// The file of a valid name lies directly in the directory: there is no way out
/// of it by name.
pub proof fn law_no_name_escapes(dir: Seq<u8>, name: Seq<char>)
    requires
        valid_name(name),
    ensures
        profile_path(dir, name) == dir + encode_utf8(name + ".toml"@) || profile_path(dir, name)
            == dir.push(0x2F) + encode_utf8(name + ".toml"@),
        !encode_utf8(name + ".toml"@).contains(0x2F),
        name + ".toml"@ != "."@,
        name + ".toml"@ != ".."@,
{
    reveal_strlit(".toml");
    reveal_strlit(".");
    reveal_strlit("..");
    lemma_file_name_bytes(name);
    let file = name + ".toml"@;
    let bytes = encode_utf8(file);
    assert(file.len() > 5);
    if bytes.contains(0x2F) {
        let i = choose|i: int| 0 <= i < bytes.len() && bytes[i] == 0x2F;
        assert(bytes[i] == file[i] as u8);
        if i < name.len() {
            assert(text::is_name_char(name[i]));
        }
    }
    if dir.len() == 0 {
        assert(dir + bytes =~= bytes);
    }
}

/// Different names stand for different files.
pub proof fn law_names_have_their_own_files(dir: Seq<u8>, a: Seq<char>, b: Seq<char>)
    requires
        a != b,
    ensures
        profile_path(dir, a) != profile_path(dir, b),
{
    reveal_strlit(".toml");
    let n = if dir.len() == 0 {
        0
    } else if dir.last() == 0x2F {
        dir.len() as int
    } else {
        dir.len() as int + 1
    };
    let p = profile_path(dir, a);
    let q = profile_path(dir, b);
    if p == q {
        assert(p.skip(n) =~= encode_utf8(a + ".toml"@));
        assert(q.skip(n) =~= encode_utf8(b + ".toml"@));
        paths::lemma_bytes_tell_text_apart(a + ".toml"@, b + ".toml"@);
        assert((a + ".toml"@).len() == (b + ".toml"@).len());
        assert((a + ".toml"@).take(a.len() as int) =~= a);
        assert((b + ".toml"@).take(b.len() as int) =~= b);
    }
}

/// What reading a path comes to, where the readable files are these.
pub open spec fn read_at(files: Map<Seq<u8>, Profile>, path: Seq<u8>) -> Reading {
    if files.contains_key(path) {
        Reading::Parsed(files[path])
    } else {
        Reading::Missing
    }
}

/// The files once a profile was kept where it was to go: written under the
/// temporary name, which was then changed to the final one.
pub open spec fn kept_by(files: Map<Seq<u8>, Profile>, plan: SavePlan, p: Profile) -> Map<
    Seq<u8>,
    Profile,
> {
    files.insert(plan.temporary@, p).remove(plan.temporary@).insert(plan.path@, p)
}

/// The path of a profile is never that of a temporary file.
proof fn lemma_no_path_is_temporary(dir: Seq<u8>, name: Seq<char>, path: Seq<u8>)
    requires
        valid_name(name),
    ensures
        profile_path(dir, name) != path + encode_utf8(".tmp"@),
{
    reveal_strlit(".toml");
    reveal_strlit(".tmp");
    lemma_file_name_bytes(name);
    let file = name + ".toml"@;
    let p = profile_path(dir, name);
    assert(p.last() == encode_utf8(file).last());
    assert(p.last() == 'l' as u8);
    vstd::utf8::is_ascii_chars_encode_utf8(".tmp"@);
    assert((path + encode_utf8(".tmp"@)).last() == 'p' as u8);
}

/// What is saved under a name is what a later load of that name gives. Every
/// other profile reads as before, and no temporary file is left.
pub proof fn law_saved_profile_is_loaded(
    dir: Seq<u8>,
    p: Profile,
    force: bool,
    exists: bool,
    plan: SavePlan,
    files: Map<Seq<u8>, Profile>,
    r: Result<Profile>,
    other: Seq<char>,
)
    requires
        plans(dir, p.name@, force, exists, Ok(plan)),
        loads(
            dir,
            p.name@,
            read_at(kept_by(files, plan, p), profile_path(dir, p.name@)),
            r,
        ),
    ensures
        r matches Ok(q) && q.name@ == p.name@ && q.displays == p.displays,
        !kept_by(files, plan, p).contains_key(plan.temporary@),
        other != p.name@ && valid_name(other) ==> read_at(kept_by(files, plan, p), profile_path(dir, other)) == read_at(
            files,
            profile_path(dir, other),
        ),
{
    lemma_no_path_is_temporary(dir, p.name@, plan.path@);
    if other != p.name@ && valid_name(other) {
        lemma_no_path_is_temporary(dir, other, plan.path@);
        law_names_have_their_own_files(dir, other, p.name@);
    }
}

/// A profile whose file was removed is not found by a later load, and every other
/// one is loaded as before, under the name of its file.
pub proof fn law_deleted_profile_is_not_found(
    dir: Seq<u8>,
    name: Seq<char>,
    files: Map<Seq<u8>, Profile>,
    gone: Result<()>,
    r: Result<Profile>,
    other: Seq<char>,
    s: Result<Profile>,
)
    requires
        removes(name, Removal::Removed, gone),
        gone is Ok,
        loads(
            dir,
            name,
            read_at(files.remove(profile_path(dir, name)), profile_path(dir, name)),
            r,
        ),
        loads(
            dir,
            other,
            read_at(files.remove(profile_path(dir, name)), profile_path(dir, other)),
            s,
        ),
    ensures
        r matches Err(ProfileError::NotFound(n)) && n@ == name,
        other != name && valid_name(other) && files.contains_key(profile_path(dir, other)) ==> (
        s matches Ok(q) && q.name@ == other && q.displays == files[profile_path(
            dir,
            other,
        )].displays),
{
    if other != name {
        law_names_have_their_own_files(dir, other, name);
    }
}

/// What is saved under a name is listed under it.
pub proof fn law_saved_file_is_listed(files: Seq<Seq<char>>, name: Seq<char>)
    requires
        valid_name(name),
        files.contains(name + ".toml"@),
    ensures
        stems(files).contains(name),
    decreases files.len(),
{
    reveal_strlit(".toml");
    let file = name + ".toml"@;
    let i = choose|i: int| 0 <= i < files.len() && files[i] == file;
    let rest = stems(files.drop_last());
    if i == files.len() - 1 {
        assert(file.take(file.len() - 5) =~= name);
        assert(stems(files).last() == name);
    } else {
        assert(files.drop_last()[i] == file);
        law_saved_file_is_listed(files.drop_last(), name);
        let k = choose|k: int| 0 <= k < rest.len() && rest[k] == name;
        assert(stems(files)[k] == name);
    }
}

/// Everything listed can be loaded by its name.
pub proof fn law_listed_names_are_valid(files: Seq<Seq<char>>, k: int)
    requires
        0 <= k < stems(files).len(),
    ensures
        valid_name(stems(files)[k]),
        files.contains(stems(files)[k] + ".toml"@),
    decreases files.len(),
{
    let rest = stems(files.drop_last());
    if k < rest.len() {
        law_listed_names_are_valid(files.drop_last(), k);
        assert(stems(files)[k] == rest[k]);
        let i = choose|i: int|
            0 <= i < files.drop_last().len() && files.drop_last()[i] == rest[k] + ".toml"@;
        assert(files[i] == rest[k] + ".toml"@);
    } else {
        assert(files[files.len() - 1] == stems(files)[k] + ".toml"@);
    }
}

/// Names are of letters, digits, hyphens and underscores, up to 64 of them: no
/// separator, no dot and no white space is ever part of one.
pub proof fn law_valid_names_are_plain(name: Seq<char>)
    ensures
        valid_name(name) == (name.len() >= 1 && name.len() < 65 && forall|i: int|
            0 <= i < name.len() ==> ('a' <= #[trigger] name[i] <= 'z') || ('A' <= name[i] <= 'Z')
                || ('0' <= name[i] <= '9') || name[i] == '-' || name[i] == '_'),
        valid_name(name) ==> !name.contains('/') && !name.contains('.') && !name.contains('\0')
            && !name.contains(' '),
{
    if valid_name(name) {
        assert forall|i: int| 0 <= i < name.len() implies name[i] != '/' && name[i] != '.' && name[i]
            != '\0' && name[i] != ' ' by {
            assert(text::is_name_char(name[i]));
        }
        assert forall|i: int| 0 <= i < name.len() implies ('a' <= #[trigger] name[i] <= 'z') || ('A'
            <= name[i] <= 'Z') || ('0' <= name[i] <= '9') || name[i] == '-' || name[i] == '_' by {
            assert(text::is_name_char(name[i]));
        }
    } else if name.len() >= 1 && name.len() < 65 {
        let i = choose|i: int| 0 <= i < name.len() && !text::is_name_char(#[trigger] name[i]);
        assert(!text::is_name_char(name[i]));
    }
}

/// A profile is written exactly where its name is valid and there is none of that
/// name, or overwriting was asked for. Otherwise the error says which of the two it
/// is, and nothing is to be written.
pub proof fn law_saving_overwrites_only_by_force(
    dir: Seq<u8>,
    name: Seq<char>,
    force: bool,
    exists: bool,
    r: Result<SavePlan>,
)
    requires
        plans(dir, name, force, exists, r),
    ensures
        (r is Ok) == (valid_name(name) && (force || !exists)),
        (r matches Err(ProfileError::Exists(n)) && n@ == name) == (valid_name(name) && exists
            && !force),
        (r matches Err(ProfileError::InvalidName(n)) && n@ == name) == !valid_name(name),
        r matches Ok(plan) ==> plan.path@ == paths::inside(dir, name + ".toml"@)
            && plan.temporary@ != plan.path@ && plan.temporary@.len() == plan.path@.len() + 4,
{
    reveal_strlit(".tmp");
    vstd::utf8::is_ascii_chars_encode_utf8(".tmp"@);
}

/// A profile is loaded exactly where its name is valid and its file was read, with
/// the displays that the file holds and the name of the file, whatever name stands
/// inside. A missing file is not found, and no other failure is taken for that.
pub proof fn law_loading_goes_by_the_file(
    dir: Seq<u8>,
    name: Seq<char>,
    found: Reading,
    r: Result<Profile>,
)
    requires
        loads(dir, name, found, r),
    ensures
        (r is Ok) == (valid_name(name) && found is Parsed),
        r matches Ok(q) ==> q.name@ == name && q.displays == found->Parsed_0.displays,
        (r matches Err(ProfileError::NotFound(n)) && n@ == name) == (valid_name(name)
            && found is Missing),
        (r matches Err(ProfileError::InvalidName(n)) && n@ == name) == !valid_name(name),
        (r matches Err(ProfileError::Parse { path, source })) == (valid_name(name)
            && found is Unparseable),
        (r matches Err(ProfileError::Io(why))) == (valid_name(name) && found is Failed),
        r is Err && r->Err_0 is Parse ==> r->Err_0->path@ == paths::path_text(
            profile_path(dir, name),
        ) && r->Err_0->source@ == found->Unparseable_0@,
        r is Err && r->Err_0 is Io ==> r->Err_0->Io_0@ == found->Failed_0@,
{
}

/// A profile is gone exactly where its name is valid and its file was removed.
pub proof fn law_deleting_goes_by_the_file(name: Seq<char>, done: Removal, r: Result<()>)
    requires
        removes(name, done, r),
    ensures
        (r is Ok) == (valid_name(name) && done is Removed),
        (r matches Err(ProfileError::NotFound(n)) && n@ == name) == (valid_name(name)
            && done is Missing),
        (r matches Err(ProfileError::InvalidName(n)) && n@ == name) == !valid_name(name),
{
}

/// A listing names a profile exactly where the directory holds its file: a valid
/// name with `.toml` behind it. Other files are passed over. The names stand in
/// order.
pub proof fn law_listing_names_the_files(found: Listing, v: Vec<String>, n: Seq<char>, i: int, j: int)
    requires
        lists(found, Ok::<Vec<String>, ProfileError>(v)),
    ensures
        text::texts(v@).contains(n) == (found matches Listing::Files(files) && valid_name(n)
            && text::texts(files@).contains(n + ".toml"@)),
        0 <= i < j < v@.len() ==> v@[i]@ == v@[j]@ || text::text_before(v@[i]@, v@[j]@),
{
    let listed = text::texts(v@);
    if let Listing::Files(files) = found {
        let all = text::texts(files@);
        vstd::seq_lib::to_multiset_contains(listed, n);
        vstd::seq_lib::to_multiset_contains(stems(all), n);
        if stems(all).contains(n) {
            let k = choose|k: int| 0 <= k < stems(all).len() && stems(all)[k] == n;
            law_listed_names_are_valid(all, k);
        }
        if valid_name(n) && all.contains(n + ".toml"@) {
            law_saved_file_is_listed(all, n);
        }
        if 0 <= i < j < v@.len() {
            assert(!text::text_before(listed[j], listed[i]));
            if v@[i]@ != v@[j]@ {
                text::lemma_before_total(v@[i]@, v@[j]@);
            }
        }
    }
}

/// Each error is told by what it is and of which profile.
pub proof fn law_errors_say_what_they_are(e: ProfileError)
    ensures
        e is InvalidName ==> error_text(e) == "profile name "@ + text::quoted(e->InvalidName_0@)
            + " is invalid — use letters, digits, '-' or '_'"@,
        e is NotFound ==> error_text(e) == "profile "@ + text::quoted(e->NotFound_0@)
            + " not found"@,
        e is Exists ==> error_text(e) == "profile "@ + text::quoted(e->Exists_0@)
            + " already exists — pass --force to overwrite"@,
        e is Io ==> error_text(e) == "io: "@ + e->Io_0@,
        e is Parse ==> error_text(e) == "parse "@ + e->path@ + ": "@ + e->source@,
        e is Serialize ==> error_text(e) == "serialize: "@ + e->Serialize_0@,
{
}

} // verus!
