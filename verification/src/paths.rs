//! Paths, and where the application keeps its files.
//!
//! A path is bytes, as the platform keeps it: nothing says that the name of a
//! directory is Unicode. Where a path is shown to people it becomes text.

use vstd::prelude::*;
use vstd::utf8::{decode_utf8, encode_utf8, valid_utf8};

verus! {

/// A path, in the bytes that the platform writes it in.
#[derive(Debug, PartialEq, Eq)]
pub struct FilePath {
    pub bytes: Vec<u8>,
}

impl View for FilePath {
    type V = Seq<u8>;

    open spec fn view(&self) -> Seq<u8> {
        self.bytes@
    }
}

/// What `String::from_utf8_lossy` makes of bytes that are not UTF-8.
pub uninterp spec fn lossy(bytes: Seq<u8>) -> Seq<char>;

/// `String::from_utf8_lossy` of the standard library: the characters that the
/// bytes encode where they are valid UTF-8, and otherwise text with the
/// replacement character in it, which is a function of the bytes alone.
#[verifier::external_body]
pub(crate) fn lossy_string(bytes: &[u8]) -> (r: String)
    ensures
        r@ == if valid_utf8(bytes@) {
            decode_utf8(bytes@)
        } else {
            lossy(bytes@)
        },
{
    String::from_utf8_lossy(bytes).into_owned()
}

/// A path as it is shown to people.
pub open spec fn path_text(path: Seq<u8>) -> Seq<char> {
    if valid_utf8(path) {
        decode_utf8(path)
    } else {
        lossy(path)
    }
}

/// `name` inside `dir`.
pub open spec fn inside(dir: Seq<u8>, name: Seq<char>) -> Seq<u8> {
    if dir.len() == 0 {
        encode_utf8(name)
    } else if dir.last() == 0x2F {
        dir + encode_utf8(name)
    } else {
        dir.push(0x2F) + encode_utf8(name)
    }
}

/// A path up to the end of its last name: separators behind it, and `.` for the
/// directory itself, do not count.
pub open spec fn shorn(path: Seq<u8>) -> Seq<u8>
    decreases path.len(),
{
    if path.len() > 0 && (path.last() == 0x2F || path.last() == 0x2E && path.len() > 1
        && path[path.len() - 2] == 0x2F) {
        shorn(path.drop_last())
    } else {
        path
    }
}

/// Where the last name of a path starts.
pub open spec fn name_start(path: Seq<u8>) -> int
    decreases path.len(),
{
    if path.len() == 0 || path.last() == 0x2F {
        path.len() as int
    } else {
        name_start(path.drop_last())
    }
}

/// Where the last dot stands behind `from`, or `from` if none does.
pub open spec fn last_dot(path: Seq<u8>, from: int) -> int
    decreases path.len(),
{
    if path.len() == 0 || path.len() <= from {
        from
    } else if path.last() == 0x2E {
        path.len() - 1
    } else {
        last_dot(path.drop_last(), from)
    }
}

/// Whether a name stands for a file, and not for a directory by its place.
pub open spec fn names_file(name: Seq<u8>) -> bool {
    name.len() > 0 && name != seq![0x2Eu8] && name != seq![0x2Eu8, 0x2Eu8]
}

/// A path with another extension, which starts behind the last dot of its last
/// name. A name that only starts with its dot has none. A path without a name of a
/// file stays as it is.
pub open spec fn extended(path: Seq<u8>, extension: Seq<char>) -> Seq<u8> {
    let end = shorn(path);
    let from = name_start(end);
    let dot = last_dot(end, from);
    if !names_file(end.skip(from)) {
        path
    } else if dot == from {
        end.push(0x2E) + encode_utf8(extension)
    } else {
        end.take(dot).push(0x2E) + encode_utf8(extension)
    }
}

impl Clone for FilePath {
    fn clone(&self) -> (p: FilePath)
        ensures
            p@ == self@,
    {
        FilePath { bytes: self.bytes.clone() }
    }
}

impl FilePath {
    /// The path that is written like this.
    pub fn of(s: &str) -> (p: FilePath)
        ensures
            p@ == encode_utf8(s@),
    {
        let none: Vec<u8> = Vec::new();
        let p = FilePath { bytes: none }.followed_by(s);
        assert(p@ =~= encode_utf8(s@));
        p
    }

    /// The path with text behind it.
    pub fn followed_by(&self, s: &str) -> (p: FilePath)
        ensures
            p@ == self@ + encode_utf8(s@),
    {
        let mut bytes = self.bytes.clone();
        let more = s.as_bytes();
        let mut i: usize = 0;
        while i < more.len()
            invariant
                i <= more@.len(),
                more@ == encode_utf8(s@),
                bytes@ == self@ + more@.take(i as int),
            decreases more@.len() - i,
        {
            bytes.push(more[i]);
            i = i + 1;
            assert(self@ + more@.take(i as int) =~= (self@ + more@.take(i - 1)).push(more@[i - 1]));
        }
        assert(more@.take(i as int) =~= more@);
        FilePath { bytes }
    }

    /// The path of `name` inside this one.
    pub fn join(&self, name: &str) -> (p: FilePath)
        ensures
            p@ == inside(self@, name@),
    {
        let size: usize = self.bytes.len();
        if size == 0 {
            FilePath::of(name)
        } else if self.bytes[size - 1] == 0x2F {
            self.followed_by(name)
        } else {
            let mut bytes = self.bytes.clone();
            bytes.push(0x2F);
            FilePath { bytes }.followed_by(name)
        }
    }

    /// Where the last name of the path ends.
    fn name_end(&self) -> (n: usize)
        ensures
            n <= self@.len(),
            self@.take(n as int) == shorn(self@),
    {
        let mut n: usize = self.bytes.len();
        assert(self@.take(n as int) =~= self@);
        while n > 0 && (self.bytes[n - 1] == 0x2F || self.bytes[n - 1] == 0x2E && n > 1
            && self.bytes[n - 2] == 0x2F)
            invariant
                n <= self@.len(),
                shorn(self@.take(n as int)) == shorn(self@),
            decreases n,
        {
            assert(self@.take(n as int).drop_last() =~= self@.take(n - 1));
            n = n - 1;
        }
        n
    }

    /// The path with another extension.
    pub fn with_extension(&self, extension: &str) -> (p: FilePath)
        ensures
            p@ == extended(self@, extension@),
    {
        let n: usize = self.name_end();
        let ghost end = self@.take(n as int);
        let mut from: usize = n;
        assert(end.take(n as int) =~= end);
        while from > 0 && self.bytes[from - 1] != 0x2F
            invariant
                from <= n <= self@.len(),
                end == self@.take(n as int),
                name_start(end.take(from as int)) == name_start(end),
            decreases from,
        {
            assert(end.take(from as int).drop_last() =~= end.take(from - 1));
            from = from - 1;
        }
        assert(from == name_start(end));
        let ghost name = end.skip(from as int);
        assert(name == seq![0x2Eu8] <==> name.len() == 1 && name[0] == 0x2E) by {
            if name.len() == 1 && name[0] == 0x2E {
                assert(name =~= seq![0x2Eu8]);
            }
        }
        assert(name == seq![0x2Eu8, 0x2Eu8] <==> name.len() == 2 && name[0] == 0x2E && name[1]
            == 0x2E) by {
            if name.len() == 2 && name[0] == 0x2E && name[1] == 0x2E {
                assert(name =~= seq![0x2Eu8, 0x2Eu8]);
            }
        }
        let size: usize = n - from;
        if size == 0 || size == 1 && self.bytes[from] == 0x2E || size == 2 && self.bytes[from]
            == 0x2E && self.bytes[from + 1] == 0x2E {
            return self.clone();
        }
        let mut dot: usize = n;
        while dot > from && self.bytes[dot - 1] != 0x2E
            invariant
                from <= dot <= n <= self@.len(),
                end == self@.take(n as int),
                last_dot(end.take(dot as int), from as int) == last_dot(end, from as int),
            decreases dot,
        {
            assert(end.take(dot as int).drop_last() =~= end.take(dot - 1));
            dot = dot - 1;
        }
        let stem: usize = if dot <= from + 1 {
            n
        } else {
            dot - 1
        };
        let mut bytes: Vec<u8> = Vec::new();
        let mut i: usize = 0;
        while i < stem
            invariant
                i <= stem <= self@.len(),
                bytes@ == self@.take(i as int),
            decreases stem - i,
        {
            bytes.push(self.bytes[i]);
            i = i + 1;
            assert(self@.take(i as int) =~= self@.take(i - 1).push(self@[i - 1]));
        }
        assert(end.take(stem as int) =~= self@.take(stem as int));
        bytes.push(0x2E);
        FilePath { bytes }.followed_by(extension)
    }

    /// The path as it is shown to people.
    pub fn describe(&self) -> (r: String)
        ensures
            r@ == path_text(self@),
    {
        lossy_string(self.bytes.as_slice())
    }
}

/// `dirs::data_dir`: the user's data directory, by the environment and the
/// platform's conventions, in the platform's own bytes, or nothing where there is
/// none. Nothing more is promised.
#[verifier::external_body]
pub(crate) fn data_dir() -> (r: Option<Vec<u8>>) {
    dirs::data_dir().map(|p| p.into_os_string().into_encoded_bytes())
}

/// Whether this is a data directory, or the want of one, that a call of `data_dir`
/// gives.
pub closed spec fn data_dir_found(found: Option<Seq<u8>>) -> bool {
    exists|d: Option<Vec<u8>>| #[trigger]
        call_ensures(data_dir, (), d) && found == bytes_in(d)
}

/// The bytes that were found, if any were.
pub open spec fn bytes_in(found: Option<Vec<u8>>) -> Option<Seq<u8>> {
    match found {
        Some(bytes) => Some(bytes@),
        None => None,
    }
}

/// The bytes of a path, where there is one.
pub open spec fn opt_path(found: Option<FilePath>) -> Option<Seq<u8>> {
    match found {
        Some(p) => Some(p@),
        None => None,
    }
}

/// The path that was found, or the directory for temporary files.
pub open spec fn base_of(found: Option<Seq<u8>>) -> Seq<u8> {
    match found {
        Some(base) => base,
        None => encode_utf8("/tmp"@),
    }
}

/// The path that was found, or the directory for temporary files.
pub fn base(found: Option<FilePath>) -> (p: FilePath)
    ensures
        p@ == base_of(opt_path(found)),
{
    match found {
        Some(p) => p,
        None => FilePath::of("/tmp"),
    }
}

/// A file of this application, below the data directory.
pub open spec fn app_path(found: Option<Seq<u8>>, name: Seq<char>) -> Seq<u8> {
    inside(inside(base_of(found), "DisplayStudio"@), name)
}

/// The path of a file of this application, below the data directory.
pub fn app_file(found: Option<FilePath>, name: &str) -> (r: FilePath)
    ensures
        r@ == app_path(opt_path(found), name@),
{
    base(found).join("DisplayStudio").join(name)
}

/// Whether a path is that of a file of this application for the current user: below
/// the data directory that the platform gives.
pub open spec fn for_user(path: Seq<u8>, name: Seq<char>) -> bool {
    exists|found: Option<Seq<u8>>| #[trigger]
        data_dir_found(found) && path == app_path(found, name)
}

/// The path of a file of this application for the current user.
pub fn user_file(name: &str) -> (r: FilePath)
    ensures
        for_user(r@, name@),
{
    let dir = data_dir();
    let ghost view = bytes_in(dir);
    assert(data_dir_found(view));
    let found = match dir {
        Some(bytes) => Some(FilePath { bytes }),
        None => None,
    };
    assert(opt_path(found) == view);
    app_file(found, name)
}

/// A path that was written as text is shown as that text.
pub proof fn law_written_paths_are_shown_as_written(s: Seq<char>)
    ensures
        path_text(encode_utf8(s)) == s,
{
    vstd::utf8::encode_utf8_valid_utf8(s);
    vstd::utf8::encode_utf8_decode_utf8(s);
}

/// What takes the place of a TOML file is written beside it, under its name with
/// `.tmp` behind it.
pub proof fn law_toml_is_written_beside(path: Seq<u8>)
    requires
        path.len() > 5,
        path.skip(path.len() - 5) == encode_utf8(".toml"@),
        path[path.len() - 6] != 0x2F,
    ensures
        extended(path, "toml.tmp"@) == path + encode_utf8(".tmp"@),
{
    reveal_strlit(".toml");
    reveal_strlit(".tmp");
    reveal_strlit("toml.tmp");
    vstd::utf8::is_ascii_chars_encode_utf8(".toml"@);
    vstd::utf8::is_ascii_chars_encode_utf8(".tmp"@);
    vstd::utf8::is_ascii_chars_encode_utf8("toml.tmp"@);
    let n = path.len() as int;
    let tail = path.skip(n - 5);
    assert(path[n - 5] == tail[0] && tail[0] == 0x2E);
    assert(path[n - 4] == tail[1] && tail[1] == 0x74);
    assert(path[n - 3] == tail[2] && tail[2] == 0x6F);
    assert(path[n - 2] == tail[3] && tail[3] == 0x6D);
    assert(path[n - 1] == tail[4] && tail[4] == 0x6C);
    assert(shorn(path) == path);
    let from = name_start(path);
    lemma_name_start(path);
    assert(from < n - 5) by {
        reveal_with_fuel(name_start, 7);
        lemma_name_start(path.take(n - 6));
        assert(path.drop_last().drop_last().drop_last().drop_last().drop_last().drop_last()
            =~= path.take(n - 6));
    }
    assert(last_dot(path, from) == n - 5) by {
        reveal_with_fuel(last_dot, 6);
    }
    let name = path.skip(from);
    assert(name.len() > 5);
    assert(path.take(n - 5).push(0x2E) + encode_utf8("toml.tmp"@) =~= path + encode_utf8(".tmp"@));
}

/// A name starts within its path.
proof fn lemma_name_start(path: Seq<u8>)
    ensures
        0 <= name_start(path) <= path.len(),
    decreases path.len(),
{
    if path.len() > 0 && path.last() != 0x2F {
        lemma_name_start(path.drop_last());
    }
}

/// Different texts are different paths.
pub proof fn lemma_bytes_tell_text_apart(a: Seq<char>, b: Seq<char>)
    requires
        encode_utf8(a) == encode_utf8(b),
    ensures
        a == b,
{
    vstd::utf8::encode_utf8_decode_utf8(a);
    vstd::utf8::encode_utf8_decode_utf8(b);
}

/// What is inside a directory has the directory's path, one slash, and its name.
pub proof fn law_names_stand_behind_one_slash(dir: Seq<u8>, name: Seq<char>)
    ensures
        dir.len() > 0 && dir.last() != 47 ==> inside(dir, name) == dir + seq![47u8] + encode_utf8(
            name,
        ),
        inside(dir + seq![47u8], name) == dir + seq![47u8] + encode_utf8(name),
        dir.len() == 0 ==> inside(dir, name) == encode_utf8(name),
{
    assert(dir.push(47) =~= dir + seq![47u8]);
    assert((dir + seq![47u8]).last() == 47);
}

/// A file of the application stands in a directory of the application's name, and that
/// where the platform says, or under `/tmp` where it says nothing.
pub proof fn law_files_stand_in_the_applications_directory(found: Option<Seq<u8>>, name: Seq<char>)
    ensures
        found is None ==> base_of(found) == encode_utf8("/tmp"@),
        found is Some ==> base_of(found) == found->0,
        base_of(found).len() > 0 && base_of(found).last() != 47 ==> app_path(found, name) == base_of(
            found,
        ) + seq![47u8] + encode_utf8("DisplayStudio"@) + seq![47u8] + encode_utf8(name),
{
    let at = base_of(found);
    if at.len() > 0 && at.last() != 47 {
        reveal_strlit("DisplayStudio");
        let app = "DisplayStudio"@;
        vstd::utf8::is_ascii_chars_encode_utf8(app);
        let d = inside(at, app);
        law_names_stand_behind_one_slash(at, app);
        assert(encode_utf8(app)[12] == 0x6F);
        assert(d.last() == encode_utf8(app).last());
        law_names_stand_behind_one_slash(d, name);
        assert(app_path(found, name) =~= at + seq![47u8] + encode_utf8(app) + seq![47u8]
            + encode_utf8(name));
    }
}

} // verus!
