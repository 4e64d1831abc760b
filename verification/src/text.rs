//! Text as sequences of characters.
//!
//! Every operation works on the characters of a string, so its contract can be
//! stated over `Seq<char>` without reference to the encoding.

use vstd::prelude::*;

verus! {

// ── Characters ─────────────────────────────────────────────────────────────

/// `String::push` of the standard library: appends one character.
pub assume_specification[ String::push ](s: &mut String, c: char)
    ensures
        final(s)@ == old(s)@.push(c),
;

/// The characters with the Unicode `White_Space` property.
pub open spec fn is_space(c: char) -> bool {
    let n = c as u32;
    ||| 0x09 <= n <= 0x0D
    ||| n == 0x20
    ||| n == 0x85
    ||| n == 0xA0
    ||| n == 0x1680
    ||| 0x2000 <= n <= 0x200A
    ||| n == 0x2028
    ||| n == 0x2029
    ||| n == 0x202F
    ||| n == 0x205F
    ||| n == 0x3000
}

/// Whether a character is white space.
pub fn space(c: char) -> (b: bool)
    ensures
        b == is_space(c),
{
    let n: u32 = c as u32;
    (0x09 <= n && n <= 0x0D) || n == 0x20 || n == 0x85 || n == 0xA0 || n == 0x1680 || (0x2000 <= n
        && n <= 0x200A) || n == 0x2028 || n == 0x2029 || n == 0x202F || n == 0x205F || n == 0x3000
}

/// `c` with an ASCII capital letter replaced by its small one.
pub open spec fn ascii_lower_char(c: char) -> char {
    if 'A' <= c <= 'Z' {
        ((c as u8 + 32) as u8) as char
    } else {
        c
    }
}

/// Lower one character, ASCII letters only.
pub fn lower_char(c: char) -> (r: char)
    ensures
        r == ascii_lower_char(c),
{
    if 'A' <= c && c <= 'Z' {
        ((c as u8) + 32) as char
    } else {
        c
    }
}

/// Letters, digits, `-` and `_`: what a name may be made of.
pub open spec fn is_name_char(c: char) -> bool {
    ||| 'a' <= c <= 'z'
    ||| 'A' <= c <= 'Z'
    ||| '0' <= c <= '9'
    ||| c == '-'
    ||| c == '_'
}

/// Whether a character may occur in a name.
pub fn name_char(c: char) -> (b: bool)
    ensures
        b == is_name_char(c),
{
    ('a' <= c && c <= 'z') || ('A' <= c && c <= 'Z') || ('0' <= c && c <= '9') || c == '-' || c
        == '_'
}

// ── Strings and their characters ───────────────────────────────────────────

/// The characters of a string.
pub fn chars_of(s: &str) -> (r: Vec<char>)
    ensures
        r@ == s@,
{
    let mut out: Vec<char> = Vec::new();
    for c in it: s.chars()
        invariant
            it.seq() == s@,
            out@ == s@.take(it.index() as int),
    {
        out.push(c);
    }
    out
}

/// The string made of the characters `cs[from..to]`.
pub fn string_from(cs: &Vec<char>, from: usize, to: usize) -> (r: String)
    requires
        from <= to <= cs@.len(),
    ensures
        r@ == cs@.subrange(from as int, to as int),
{
    let mut out = String::new();
    let mut i: usize = from;
    while i < to
        invariant
            from <= i <= to <= cs@.len(),
            out@ == cs@.subrange(from as int, i as int),
        decreases to - i,
    {
        out.push(cs[i]);
        i = i + 1;
        assert(cs@.subrange(from as int, i as int) =~= cs@.subrange(from as int, i - 1).push(
            cs@[i - 1],
        ));
    }
    out
}

/// Whether two strings hold the same characters.
pub fn same(a: &str, b: &str) -> (r: bool)
    ensures
        r == (a@ == b@),
{
    let x = chars_of(a);
    let y = chars_of(b);
    if x.len() != y.len() {
        return false;
    }
    let mut i: usize = 0;
    while i < x.len()
        invariant
            x@ == a@,
            y@ == b@,
            x@.len() == y@.len(),
            i <= x@.len(),
            forall|k: int| 0 <= k < i ==> x@[k] == y@[k],
        decreases x@.len() - i,
    {
        if x[i] != y[i] {
            return false;
        }
        i = i + 1;
    }
    assert(a@ =~= b@);
    true
}

/// The views of a sequence of strings.
pub open spec fn texts(v: Seq<String>) -> Seq<Seq<char>> {
    Seq::new(v.len(), |i: int| v[i]@)
}

/// An owned copy of a string.
pub fn own(s: &str) -> (r: String)
    ensures
        r@ == s@,
{
    s.to_owned()
}

/// Whether a string holds no character.
pub fn empty(s: &str) -> (b: bool)
    ensures
        b == (s@.len() == 0),
{
    s.unicode_len() == 0
}

/// One string behind another.
pub fn after(a: &str, b: &str) -> (r: String)
    ensures
        r@ == a@ + b@,
{
    let mut out = a.to_owned();
    out.append(b);
    out
}

/// One string between two others.
pub fn between(a: &str, b: &str, c: &str) -> (r: String)
    ensures
        r@ == a@ + b@ + c@,
{
    let mut out = a.to_owned();
    out.append(b);
    out.append(c);
    out
}

/// Put a text behind others.
pub fn push_text(v: &mut Vec<String>, s: String)
    ensures
        texts(final(v)@) == texts(old(v)@) + seq![s@],
{
    let ghost before = texts(v@);
    let ghost t = s@;
    v.push(s);
    assert(texts(v@) =~= before + seq![t]);
}

/// The view of an optional string.
pub open spec fn opt_text(s: Option<String>) -> Option<Seq<char>> {
    match s {
        Some(t) => Some(t@),
        None => None,
    }
}

/// A copy of a list of strings.
pub fn copy_texts(v: &Vec<String>) -> (r: Vec<String>)
    ensures
        r@ == v@,
{
    let mut out: Vec<String> = Vec::new();
    let mut i: usize = 0;
    while i < v.len()
        invariant
            i <= v@.len(),
            out@ == v@.take(i as int),
        decreases v@.len() - i,
    {
        out.push(v[i].clone());
        i = i + 1;
        assert(v@.take(i as int) =~= v@.take(i - 1).push(v@[i - 1]));
    }
    assert(v@.take(i as int) =~= v@);
    out
}

/// The concatenation of the pieces, in order.
pub open spec fn concat(parts: Seq<Seq<char>>) -> Seq<char>
    decreases parts.len(),
{
    if parts.len() == 0 {
        Seq::empty()
    } else {
        concat(parts.drop_last()) + parts.last()
    }
}

/// The pieces with `sep` between neighbours.
pub open spec fn joined(parts: Seq<Seq<char>>, sep: Seq<char>) -> Seq<char>
    decreases parts.len(),
{
    if parts.len() == 0 {
        Seq::empty()
    } else if parts.len() == 1 {
        parts[0]
    } else {
        joined(parts.drop_last(), sep) + sep + parts.last()
    }
}

/// Join strings with a separator.
pub fn join(parts: &Vec<String>, sep: &str) -> (r: String)
    ensures
        r@ == joined(texts(parts@), sep@),
{
    let mut out = String::new();
    let mut i: usize = 0;
    let ghost all = texts(parts@);
    while i < parts.len()
        invariant
            i <= parts@.len(),
            all == texts(parts@),
            out@ == joined(all.take(i as int), sep@),
        decreases parts@.len() - i,
    {
        if i > 0 {
            out.append(sep);
        }
        out.append(parts[i].as_str());
        i = i + 1;
        assert(all.take(i as int).drop_last() =~= all.take(i - 1));
        assert(out@ =~= joined(all.take(i as int), sep@));
    }
    assert(all.take(i as int) =~= all);
    out
}

// ── Trimming and case ──────────────────────────────────────────────────────

/// `s` without its leading white space.
pub open spec fn trimmed_start(s: Seq<char>) -> Seq<char>
    decreases s.len(),
{
    if s.len() > 0 && is_space(s[0]) {
        trimmed_start(s.drop_first())
    } else {
        s
    }
}

/// `s` without its trailing white space.
pub open spec fn trimmed_end(s: Seq<char>) -> Seq<char>
    decreases s.len(),
{
    if s.len() > 0 && is_space(s.last()) {
        trimmed_end(s.drop_last())
    } else {
        s
    }
}

/// `s` without the white space at either end.
pub open spec fn trimmed(s: Seq<char>) -> Seq<char> {
    trimmed_end(trimmed_start(s))
}

/// Strip white space from both ends.
pub fn trim(s: &str) -> (r: String)
    ensures
        r@ == trimmed(s@),
{
    let cs = chars_of(s);
    let mut i: usize = 0;
    assert(cs@.skip(0) =~= cs@);
    while i < cs.len() && space(cs[i])
        invariant
            i <= cs@.len(),
            trimmed_start(cs@) == trimmed_start(cs@.skip(i as int)),
        decreases cs@.len() - i,
    {
        assert(cs@.skip(i as int).drop_first() =~= cs@.skip(i + 1));
        i = i + 1;
    }
    assert(trimmed_start(cs@) == cs@.skip(i as int));
    let ghost body = cs@.skip(i as int);
    let mut j: usize = cs.len();
    assert(cs@.subrange(i as int, j as int) =~= body);
    while i < j && space(cs[j - 1])
        invariant
            i <= j <= cs@.len(),
            trimmed_end(body) == trimmed_end(cs@.subrange(i as int, j as int)),
        decreases j,
    {
        assert(cs@.subrange(i as int, j as int).drop_last() =~= cs@.subrange(i as int, j - 1));
        assert(cs@.subrange(i as int, j as int).last() == cs@[j - 1]);
        j = j - 1;
    }
    string_from(&cs, i, j)
}

/// A string that starts and ends with something other than white space is
/// already trimmed.
pub proof fn lemma_trimmed_of_tight(s: Seq<char>)
    requires
        s.len() > 0 ==> !is_space(s[0]) && !is_space(s.last()),
    ensures
        trimmed(s) == s,
{
}

/// `s` with ASCII capital letters replaced by small ones.
pub open spec fn ascii_lowered(s: Seq<char>) -> Seq<char> {
    Seq::new(s.len(), |i: int| ascii_lower_char(s[i]))
}

/// Lower a string, ASCII letters only.
pub fn lower_ascii(s: &str) -> (r: String)
    ensures
        r@ == ascii_lowered(s@),
{
    let mut out = String::new();
    for c in it: s.chars()
        invariant
            it.seq() == s@,
            out@ == ascii_lowered(s@).take(it.index() as int),
    {
        out.push(lower_char(c));
    }
    assert(out@ =~= ascii_lowered(s@));
    out
}

/// Whether two strings are equal once ASCII letters are lowered.
pub fn same_ignoring_ascii_case(a: &str, b: &str) -> (r: bool)
    ensures
        r == (ascii_lowered(a@) == ascii_lowered(b@)),
{
    same(lower_ascii(a).as_str(), lower_ascii(b).as_str())
}

/// What `str::to_lowercase` makes of a string.
pub uninterp spec fn lowercase(s: Seq<char>) -> Seq<char>;

/// `str::to_lowercase` of the standard library: the lower-case equivalent of
/// the whole string by the Unicode tables, a function of its characters alone.
#[verifier::external_body]
pub(crate) fn lower(s: &str) -> (r: String)
    ensures
        r@ == lowercase(s@),
{
    s.to_lowercase()
}

/// What the `Debug` form of a string slice is: the text in double quotes, with
/// the characters that need it escaped.
pub uninterp spec fn quoted(s: Seq<char>) -> Seq<char>;

/// The standard library's `Debug` form of a string slice, a function of its
/// characters alone.
#[verifier::external_body]
pub(crate) fn quote(s: &str) -> (r: String)
    ensures
        r@ == quoted(s@),
{
    format!("{:?}", s)
}

/// What `FromUtf8Error` says of bytes that are not UTF-8.
pub uninterp spec fn utf8_complaint(bytes: Seq<u8>) -> Seq<char>;

/// `String::from_utf8` of the standard library: the characters that the bytes
/// encode where they are valid UTF-8, and otherwise the text of its error, which
/// is a function of the bytes alone.
#[verifier::external_body]
pub(crate) fn utf8_string(bytes: Vec<u8>) -> (r: core::result::Result<String, String>)
    ensures
        match r {
            Ok(s) => vstd::utf8::valid_utf8(bytes@) && s@ == vstd::utf8::decode_utf8(bytes@),
            Err(e) => !vstd::utf8::valid_utf8(bytes@) && e@ == utf8_complaint(bytes@),
        },
{
    String::from_utf8(bytes).map_err(|e| e.to_string())
}

/// Every `from` in `s` replaced by `to`.
pub open spec fn replaced(s: Seq<char>, from: char, to: char) -> Seq<char> {
    Seq::new(s.len(), |i: int| if s[i] == from { to } else { s[i] })
}

/// Replace one character by another throughout.
pub fn replace_char(s: &str, from: char, to: char) -> (r: String)
    ensures
        r@ == replaced(s@, from, to),
{
    let mut out = String::new();
    for c in it: s.chars()
        invariant
            it.seq() == s@,
            out@ == replaced(s@, from, to).take(it.index() as int),
    {
        if c == from {
            out.push(to);
        } else {
            out.push(c);
        }
    }
    assert(out@ =~= replaced(s@, from, to));
    out
}

// ── Searching ──────────────────────────────────────────────────────────────

/// Whether `needle` occurs in `hay` at position `at`.
pub open spec fn occurs_at(hay: Seq<char>, needle: Seq<char>, at: int) -> bool {
    &&& 0 <= at
    &&& at + needle.len() <= hay.len()
    &&& hay.subrange(at, at + needle.len()) == needle
}

/// Whether `needle` occurs anywhere in `hay`.
pub open spec fn has_text(hay: Seq<char>, needle: Seq<char>) -> bool {
    exists|at: int| occurs_at(hay, needle, at)
}

/// Whether one string occurs inside another.
pub fn contains_text(hay: &str, needle: &str) -> (r: bool)
    ensures
        r == has_text(hay@, needle@),
{
    let h = chars_of(hay);
    let n = chars_of(needle);
    if n.len() > h.len() {
        return false;
    }
    let mut at: usize = 0;
    let size: usize = h.len();
    let last: usize = size - n.len();
    loop
        invariant
            size == h@.len(),
            h@ == hay@,
            n@ == needle@,
            last == h@.len() - n@.len(),
            at <= last,
            forall|k: int| 0 <= k < at ==> !occurs_at(hay@, needle@, k),
        decreases last - at,
    {
        let mut j: usize = 0;
        while j < n.len() && h[at + j] == n[j]
            invariant
                j <= n@.len(),
                size == h@.len(),
                at + n@.len() <= size,
                forall|k: int| 0 <= k < j ==> h@[at + k] == n@[k],
            decreases n@.len() - j,
        {
            j = j + 1;
        }
        if j == n.len() {
            assert(hay@.subrange(at as int, at + needle@.len()) =~= needle@);
            assert(occurs_at(hay@, needle@, at as int));
            return true;
        }
        assert(!occurs_at(hay@, needle@, at as int)) by {
            if occurs_at(hay@, needle@, at as int) {
                assert(hay@.subrange(at as int, at + needle@.len())[j as int] == needle@[j as int]);
            }
        }
        if at == last {
            return false;
        }
        at = at + 1;
    }
}

/// The position of the first `c` in `s`, or the length of `s`.
pub open spec fn first_index(s: Seq<char>, c: char) -> int
    decreases s.len(),
{
    if s.len() == 0 || s[0] == c {
        0
    } else {
        1 + first_index(s.drop_first(), c)
    }
}

/// Find the first occurrence of a character.
pub fn find_char(s: &Vec<char>, c: char) -> (r: usize)
    ensures
        r == first_index(s@, c),
        r <= s@.len(),
        r < s@.len() ==> s@[r as int] == c,
        forall|k: int| 0 <= k < r ==> s@[k] != c,
{
    let mut i: usize = 0;
    assert(s@.skip(0) =~= s@);
    while i < s.len() && s[i] != c
        invariant
            i <= s@.len(),
            first_index(s@, c) == i + first_index(s@.skip(i as int), c),
            forall|k: int| 0 <= k < i ==> s@[k] != c,
        decreases s@.len() - i,
    {
        assert(s@.skip(i as int).drop_first() =~= s@.skip(i + 1));
        i = i + 1;
    }
    i
}

/// A run of characters as a list of at most one word.
pub open spec fn word(cur: Seq<char>) -> Seq<Seq<char>> {
    if cur.len() == 0 {
        Seq::empty()
    } else {
        seq![cur]
    }
}

/// The words of `s` from position `i` on, where `cur` is the part of a word
/// that stands before it.
pub open spec fn words_from(s: Seq<char>, i: int, cur: Seq<char>) -> Seq<Seq<char>>
    decreases s.len() - i,
{
    if i < 0 || i >= s.len() {
        word(cur)
    } else if is_space(s[i]) {
        word(cur) + words_from(s, i + 1, Seq::empty())
    } else {
        words_from(s, i + 1, cur.push(s[i]))
    }
}

/// The maximal runs of `s` without white space.
pub open spec fn words(s: Seq<char>) -> Seq<Seq<char>> {
    words_from(s, 0, Seq::empty())
}

/// Split at white space.
pub fn split_words(s: &str) -> (r: Vec<String>)
    ensures
        texts(r@) == words(s@),
{
    let cs = chars_of(s);
    let mut out: Vec<String> = Vec::new();
    let mut cur = String::new();
    let mut i: usize = 0;
    while i < cs.len()
        invariant
            cs@ == s@,
            i <= cs@.len(),
            texts(out@) + words_from(s@, i as int, cur@) == words(s@),
        decreases cs@.len() - i,
    {
        let c: char = cs[i];
        if space(c) {
            let ghost before = texts(out@);
            let ghost run = cur@;
            if !empty(cur.as_str()) {
                out.push(cur);
                assert(texts(out@) =~= before.push(run));
            }
            cur = String::new();
            assert(cur@ =~= Seq::<char>::empty());
            assert(texts(out@) =~= before + word(run));
            assert(before + (word(run) + words_from(s@, i + 1, Seq::empty())) =~= (before + word(run))
                + words_from(s@, i + 1, Seq::empty()));
        } else {
            cur.push(c);
        }
        i = i + 1;
    }
    let ghost before = texts(out@);
    let ghost run = cur@;
    if !empty(cur.as_str()) {
        out.push(cur);
        assert(texts(out@) =~= before.push(run));
    }
    assert(texts(out@) =~= before + word(run));
    out
}

// ── Order ──────────────────────────────────────────────────────────────────

/// Dictionary order by code point. A proper prefix comes first.
pub open spec fn text_before(a: Seq<char>, b: Seq<char>) -> bool
    decreases a.len(),
{
    if b.len() == 0 {
        false
    } else if a.len() == 0 {
        true
    } else if a[0] == b[0] {
        text_before(a.drop_first(), b.drop_first())
    } else {
        a[0] < b[0]
    }
}

/// Whether one string comes strictly before another.
pub fn before(a: &str, b: &str) -> (r: bool)
    ensures
        r == text_before(a@, b@),
{
    let x = chars_of(a);
    let y = chars_of(b);
    let mut i: usize = 0;
    assert(x@.skip(0) =~= x@);
    assert(y@.skip(0) =~= y@);
    while i < x.len() && i < y.len() && x[i] == y[i]
        invariant
            i <= x@.len(),
            i <= y@.len(),
            text_before(x@, y@) == text_before(x@.skip(i as int), y@.skip(i as int)),
        decreases x@.len() - i,
    {
        assert(x@.skip(i as int).drop_first() =~= x@.skip(i + 1));
        assert(y@.skip(i as int).drop_first() =~= y@.skip(i + 1));
        i = i + 1;
    }
    if i >= y.len() {
        false
    } else if i >= x.len() {
        true
    } else {
        x[i] < y[i]
    }
}

/// Dictionary order is irreflexive.
pub proof fn lemma_before_irreflexive(a: Seq<char>)
    ensures
        !text_before(a, a),
    decreases a.len(),
{
    if a.len() > 0 {
        lemma_before_irreflexive(a.drop_first());
    }
}

/// Dictionary order is transitive.
pub proof fn lemma_before_transitive(a: Seq<char>, b: Seq<char>, c: Seq<char>)
    requires
        text_before(a, b),
        text_before(b, c),
    ensures
        text_before(a, c),
    decreases a.len(),
{
    if a.len() > 0 && a[0] == b[0] && b[0] == c[0] {
        lemma_before_transitive(a.drop_first(), b.drop_first(), c.drop_first());
    }
}

/// Two different strings are ordered one way or the other.
pub proof fn lemma_before_total(a: Seq<char>, b: Seq<char>)
    requires
        a != b,
    ensures
        text_before(a, b) || text_before(b, a),
    decreases a.len(),
{
    if a.len() == 0 || b.len() == 0 {
        assert(a.len() != 0 || b.len() != 0) by {
            if a.len() == 0 && b.len() == 0 {
                assert(a =~= b);
            }
        }
    } else if a[0] == b[0] {
        if a.drop_first() == b.drop_first() {
            assert(a =~= seq![a[0]] + a.drop_first());
            assert(b =~= seq![b[0]] + b.drop_first());
        }
        lemma_before_total(a.drop_first(), b.drop_first());
    }
}

/// Whether texts stand in dictionary order.
pub open spec fn ordered(v: Seq<Seq<char>>) -> bool {
    forall|i: int, j: int| 0 <= i < j < v.len() ==> !text_before(#[trigger] v[j], #[trigger] v[i])
}

/// Two ordered lists of the same texts are the same list.
pub proof fn lemma_order_is_unique(a: Seq<Seq<char>>, b: Seq<Seq<char>>)
    requires
        ordered(a),
        ordered(b),
        a.to_multiset() == b.to_multiset(),
    ensures
        a == b,
{
    let leq = |x: Seq<char>, y: Seq<char>| !text_before(y, x);
    assert(vstd::relations::total_ordering(leq)) by {
        assert forall|x: Seq<char>| #[trigger] leq(x, x) by {
            lemma_before_irreflexive(x);
        }
        assert forall|x: Seq<char>, y: Seq<char>| #[trigger] leq(x, y) && #[trigger] leq(y, x) implies x
            == y by {
            if x != y {
                lemma_before_total(x, y);
            }
        }
        assert forall|x: Seq<char>, y: Seq<char>, z: Seq<char>| #[trigger]
            leq(x, y) && #[trigger] leq(y, z) implies leq(x, z) by {
            if text_before(z, x) {
                if x != y {
                    lemma_before_total(x, y);
                    lemma_before_transitive(z, x, y);
                }
            }
        }
        assert forall|x: Seq<char>, y: Seq<char>| #[trigger] leq(x, y) || leq(y, x) by {
            if text_before(y, x) && text_before(x, y) {
                lemma_before_transitive(x, y, x);
                lemma_before_irreflexive(x);
            }
        }
    }
    assert forall|i: int, j: int| 0 <= i < j < a.len() implies #[trigger] leq(a[i], a[j]) by {}
    assert forall|i: int, j: int| 0 <= i < j < b.len() implies #[trigger] leq(b[i], b[j]) by {}
    vstd::seq_lib::lemma_sorted_unique(a, b, leq);
}

/// Put a string into its place in an ordered list.
pub fn insert_ordered(v: &mut Vec<String>, s: String)
    requires
        ordered(texts(old(v)@)),
    ensures
        ordered(texts(final(v)@)),
        texts(final(v)@).to_multiset() == texts(old(v)@).to_multiset().insert(s@),
{
    let ghost before_texts = texts(v@);
    let ghost t = s@;
    let mut p: usize = 0;
    while p < v.len() && !before(s.as_str(), v[p].as_str())
        invariant
            p <= v@.len(),
            before_texts == texts(v@),
            t == s@,
            forall|i: int| 0 <= i < p ==> !text_before(t, #[trigger] before_texts[i]),
        decreases v@.len() - p,
    {
        p = p + 1;
    }
    proof {
        assert forall|i: int| p <= i < before_texts.len() implies !text_before(
            #[trigger] before_texts[i],
            t,
        ) by {
            let q = before_texts[p as int];
            if text_before(before_texts[i], t) {
                // t comes before q, and q not behind any later one.
                if before_texts[i] == q {
                    lemma_before_transitive(t, q, t);
                } else {
                    lemma_before_transitive(before_texts[i], t, q);
                    assert(i > p);
                }
                lemma_before_irreflexive(t);
            }
        }
    }
    v.insert(p, s);
    assert(texts(v@) =~= before_texts.insert(p as int, t));
    broadcast use vstd::seq_lib::to_multiset_insert;
}

/// A list of strings in dictionary order.
pub fn sort_texts(v: Vec<String>) -> (r: Vec<String>)
    ensures
        ordered(texts(r@)),
        texts(r@).to_multiset() == texts(v@).to_multiset(),
{
    let ghost all = texts(v@);
    let mut out: Vec<String> = Vec::new();
    let mut i: usize = 0;
    assert(texts(out@) =~= all.take(0));
    while i < v.len()
        invariant
            i <= v@.len(),
            all == texts(v@),
            ordered(texts(out@)),
            texts(out@).to_multiset() == all.take(i as int).to_multiset(),
        decreases v@.len() - i,
    {
        insert_ordered(&mut out, v[i].clone());
        assert(all.take(i + 1) =~= all.take(i as int).push(all[i as int]));
        broadcast use vstd::seq_lib::to_multiset_build;
        i = i + 1;
    }
    assert(all.take(i as int) =~= all);
    out
}

// ── Numbers ────────────────────────────────────────────────────────────────

/// The digit character for a value below sixteen.
pub open spec fn digit_char(d: nat, upper: bool) -> char {
    if d < 10 {
        (('0' as u8 + d) as u8) as char
    } else if upper {
        (('A' as u8 + (d - 10)) as u8) as char
    } else {
        (('a' as u8 + (d - 10)) as u8) as char
    }
}

/// The digit character for a value below sixteen.
pub fn digit(d: u64, upper: bool) -> (c: char)
    requires
        d < 16,
    ensures
        c == digit_char(d as nat, upper),
{
    let b: u8 = d as u8;
    if b < 10 {
        (48u8 + b) as char
    } else if upper {
        (65u8 + (b - 10)) as char
    } else {
        (97u8 + (b - 10)) as char
    }
}

/// The digits of `n` in a base, most significant first, without leading zeros.
pub open spec fn digits(n: nat, base: nat, upper: bool) -> Seq<char>
    decreases n,
{
    if base < 2 || n < base {
        seq![digit_char(n, upper)]
    } else {
        proof {
            assert(n / base < n) by (nonlinear_arith)
                requires
                    n >= base,
                    base >= 2,
            ;
        }
        digits(n / base, base, upper).push(digit_char(n % base, upper))
    }
}

/// `n` in decimal.
pub open spec fn decimal(n: nat) -> Seq<char> {
    digits(n, 10, false)
}

/// `n` in decimal with a minus sign where it is negative.
pub open spec fn signed_decimal(n: int) -> Seq<char> {
    if n < 0 {
        seq!['-'] + decimal((-n) as nat)
    } else {
        decimal(n as nat)
    }
}

/// `s` with `fill` put in front until it is at least `width` long.
pub open spec fn padded_left(s: Seq<char>, width: nat, fill: char) -> Seq<char> {
    if s.len() >= width {
        s
    } else {
        Seq::new((width - s.len()) as nat, |i: int| fill) + s
    }
}

/// `s` with spaces behind it until it is at least `width` long.
pub open spec fn padded_right(s: Seq<char>, width: nat) -> Seq<char> {
    if s.len() >= width {
        s
    } else {
        s + Seq::new((width - s.len()) as nat, |i: int| ' ')
    }
}

/// `n` in hexadecimal, at least `width` digits wide, zero-filled.
pub open spec fn hex(n: nat, width: nat, upper: bool) -> Seq<char> {
    padded_left(digits(n, 16, upper), width, '0')
}

/// A byte or word as `0x` and at least two lower-case hexadecimal digits.
pub open spec fn hex_number(n: nat) -> Seq<char> {
    "0x"@ + hex(n, 2, false)
}

/// Write a number in a base between two and sixteen.
pub fn write_digits(n: u64, base: u64, upper: bool) -> (r: String)
    requires
        2 <= base <= 16,
    ensures
        r@ == digits(n as nat, base as nat, upper),
    decreases n,
{
    if n < base {
        let mut out = String::new();
        out.push(digit(n, upper));
        assert(out@ =~= digits(n as nat, base as nat, upper));
        out
    } else {
        assert(n / base < n && n % base < base) by (nonlinear_arith)
            requires
                n >= base,
                base >= 2,
        ;
        let mut out = write_digits(n / base, base, upper);
        out.push(digit(n % base, upper));
        out
    }
}

/// Write an unsigned number in decimal.
pub fn write_decimal(n: u64) -> (r: String)
    ensures
        r@ == decimal(n as nat),
{
    write_digits(n, 10, false)
}

/// Write a signed number in decimal.
pub fn write_signed(n: i64) -> (r: String)
    ensures
        r@ == signed_decimal(n as int),
{
    if n < 0 {
        let magnitude: u64 = (-(n as i128)) as u64;
        let mut out = String::new();
        out.push('-');
        assert(out@ =~= seq!['-']);
        out.append(write_decimal(magnitude).as_str());
        out
    } else {
        write_decimal(n as u64)
    }
}

/// Put `fill` in front of a string until it is at least `width` long.
pub fn pad_left(s: &str, width: usize, fill: char) -> (r: String)
    ensures
        r@ == padded_left(s@, width as nat, fill),
{
    let mut out = String::new();
    let len: usize = s.unicode_len();
    if len < width {
        let gap: usize = width - len;
        let mut i: usize = 0;
        while i < gap
            invariant
                i <= gap,
                out@ == Seq::new(i as nat, |k: int| fill),
            decreases gap - i,
        {
            out.push(fill);
            i = i + 1;
            assert(out@ =~= Seq::new(i as nat, |k: int| fill));
        }
    }
    out.append(s);
    assert(out@ =~= padded_left(s@, width as nat, fill));
    out
}

/// Put spaces behind a string until it is at least `width` long.
pub fn pad_right(s: &str, width: usize) -> (r: String)
    ensures
        r@ == padded_right(s@, width as nat),
{
    let mut out = s.to_owned();
    let len: usize = s.unicode_len();
    if len < width {
        let gap: usize = width - len;
        let mut i: usize = 0;
        while i < gap
            invariant
                i <= gap,
                out@ == s@ + Seq::new(i as nat, |k: int| ' '),
            decreases gap - i,
        {
            out.push(' ');
            i = i + 1;
            assert(out@ =~= s@ + Seq::new(i as nat, |k: int| ' '));
        }
    }
    assert(out@ =~= padded_right(s@, width as nat));
    out
}

/// Write a number in hexadecimal with at least `width` digits.
pub fn write_hex(n: u64, width: usize, upper: bool) -> (r: String)
    ensures
        r@ == hex(n as nat, width as nat, upper),
{
    pad_left(write_digits(n, 16, upper).as_str(), width, '0')
}

/// Write `0x` and at least two lower-case hexadecimal digits.
pub fn write_hex_number(n: u64) -> (r: String)
    ensures
        r@ == hex_number(n as nat),
{
    let mut out = own("0x");
    out.append(write_hex(n, 2, false).as_str());
    out
}

/// The value of a digit character, sixteen where it is none.
pub open spec fn digit_value(c: char) -> nat {
    if '0' <= c <= '9' {
        (c as u32 - '0' as u32) as nat
    } else if 'a' <= c <= 'f' {
        (c as u32 - 'a' as u32 + 10) as nat
    } else if 'A' <= c <= 'F' {
        (c as u32 - 'A' as u32 + 10) as nat
    } else {
        16
    }
}

/// The value of a digit character, sixteen where it is none.
pub fn digit_of(c: char) -> (d: u64)
    ensures
        d == digit_value(c),
{
    let n: u32 = c as u32;
    if 0x30 <= n && n <= 0x39 {
        (n - 0x30) as u64
    } else if 0x61 <= n && n <= 0x66 {
        (n - 0x61 + 10) as u64
    } else if 0x41 <= n && n <= 0x46 {
        (n - 0x41 + 10) as u64
    } else {
        16
    }
}

/// Whether `s` is one or more digits of a base.
pub open spec fn is_number(s: Seq<char>, base: nat) -> bool {
    &&& s.len() > 0
    &&& forall|i: int| 0 <= i < s.len() ==> digit_value(#[trigger] s[i]) < base
}

/// The number that a run of digits denotes.
pub open spec fn number_value(s: Seq<char>, base: nat) -> nat
    decreases s.len(),
{
    if s.len() == 0 {
        0
    } else {
        number_value(s.drop_last(), base) * base + digit_value(s.last())
    }
}

/// `s` without one leading plus sign.
pub open spec fn unsigned_part(s: Seq<char>) -> Seq<char> {
    if s.len() > 0 && s[0] == '+' {
        s.drop_first()
    } else {
        s
    }
}

/// The number written in `s`: an optional plus sign and one or more digits,
/// where the value is at most `max`.
pub open spec fn parsed_number(s: Seq<char>, base: nat, max: nat) -> Option<nat> {
    let body = unsigned_part(s);
    if is_number(body, base) && number_value(body, base) <= max {
        Some(number_value(body, base))
    } else {
        None
    }
}

/// A decimal number is digits that denote it.
pub proof fn lemma_decimal_reads_back(n: nat)
    ensures
        is_number(decimal(n), 10),
        number_value(decimal(n), 10) == n,
        forall|i: int| 0 <= i < decimal(n).len() ==> '0' <= #[trigger] decimal(n)[i] <= '9',
    decreases n,
{
    reveal_with_fuel(number_value, 2);
    if n >= 10 {
        lemma_decimal_reads_back(n / 10);
        let rest = decimal(n / 10);
        let last = digit_char(n % 10, false);
        assert(decimal(n) == rest.push(last));
        assert(decimal(n).drop_last() =~= rest);
        assert forall|i: int| 0 <= i < decimal(n).len() implies '0' <= #[trigger] decimal(n)[i]
            <= '9' by {
            if i < rest.len() {
                assert(decimal(n)[i] == rest[i]);
            }
        }
    } else {
        assert(decimal(n).drop_last() =~= Seq::<char>::empty());
    }
}

/// A prefix of a run of digits denotes no more than the whole.
pub proof fn lemma_number_prefix(s: Seq<char>, base: nat, k: int)
    requires
        0 <= k <= s.len(),
        base >= 1,
    ensures
        number_value(s.take(k), base) <= number_value(s, base),
    decreases s.len() - k,
{
    if k == s.len() {
        assert(s.take(k) =~= s);
    } else {
        lemma_number_prefix(s, base, k + 1);
        assert(s.take(k + 1).drop_last() =~= s.take(k));
        let a = number_value(s.take(k), base);
        assert(a <= a * base) by (nonlinear_arith)
            requires
                base >= 1,
        ;
    }
}

/// Read an unsigned number no larger than `max`.
pub fn parse_number(s: &str, base: u64, max: u64) -> (r: Option<u64>)
    requires
        2 <= base <= 16,
        max <= u32::MAX,
    ensures
        match parsed_number(s@, base as nat, max as nat) {
            Some(n) => r == Some(n as u64) && n <= max,
            None => r is None,
        },
{
    let cs = chars_of(s);
    let start: usize = if cs.len() > 0 && cs[0] == '+' {
        1
    } else {
        0
    };
    let ghost body = cs@.skip(start as int);
    assert(body =~= unsigned_part(s@));
    if cs.len() == start {
        return None;
    }
    let mut acc: u64 = 0;
    let mut i: usize = start;
    while i < cs.len()
        invariant
            2 <= base <= 16,
            max <= u32::MAX,
            cs@ == s@,
            start <= i <= cs@.len(),
            body == cs@.skip(start as int),
            body == unsigned_part(s@),
            acc <= max,
            acc == number_value(body.take(i - start), base as nat),
            forall|k: int| 0 <= k < i - start ==> digit_value(#[trigger] body[k]) < base,
        decreases cs@.len() - i,
    {
        let d: u64 = digit_of(cs[i]);
        assert(body[i - start] == cs@[i as int]);
        if d >= base {
            return None;
        }
        assert(body.take(i - start + 1).drop_last() =~= body.take(i - start));
        assert(acc * base <= 0xFFFF_FFFF * 16) by (nonlinear_arith)
            requires
                acc <= 0xFFFF_FFFF,
                base <= 16,
        ;
        let next: u64 = acc * base + d;
        if next > max {
            proof {
                lemma_number_prefix(body, base as nat, i - start + 1);
            }
            return None;
        }
        acc = next;
        i = i + 1;
    }
    assert(body.take(i - start) =~= body);
    Some(acc)
}

/// A byte in hexadecimal is two digits, neither white space nor a parenthesis,
/// and is read back as the byte.
pub proof fn lemma_hex_pair(n: u8)
    ensures
        hex(n as nat, 2, true) == seq![
            digit_char((n / 16) as nat, true),
            digit_char((n % 16) as nat, true),
        ],
        parsed_number(hex(n as nat, 2, true), 16, 255) == Some(n as nat),
        forall|i: int|
            0 <= i < 2 ==> {
                let c = #[trigger] hex(n as nat, 2, true)[i];
                digit_value(c) < 16 && !is_space(c) && c != '(' && c != ')'
            },
{
    reveal_with_fuel(digits, 2);
    let d = digits(n as nat, 16, true);
    let pair = seq![digit_char((n / 16) as nat, true), digit_char((n % 16) as nat, true)];
    if n < 16 {
        assert(d =~= seq![digit_char(n as nat, true)]);
    } else {
        assert((n as nat) / 16 == (n / 16) as nat);
        assert(d =~= pair);
    }
    assert(hex(n as nat, 2, true) =~= pair);
    reveal_with_fuel(number_value, 3);
    assert(pair.drop_last().drop_last() =~= Seq::empty());
    assert(number_value(pair, 16) == (n / 16) * 16 + n % 16);
    assert(is_number(pair, 16));
}

/// Words do not depend on what stands before the place they are read from.
proof fn lemma_words_shift(p: Seq<char>, b: Seq<char>, k: int, cur: Seq<char>)
    requires
        0 <= k <= b.len(),
    ensures
        words_from(p + b, p.len() + k, cur) == words_from(b, k, cur),
    decreases b.len() - k,
{
    if k < b.len() {
        assert((p + b)[p.len() + k] == b[k]);
        if is_space(b[k]) {
            lemma_words_shift(p, b, k + 1, Seq::empty());
        } else {
            lemma_words_shift(p, b, k + 1, cur.push(b[k]));
        }
    }
}

/// White space parts words.
proof fn lemma_words_part(a: Seq<char>, sp: char, b: Seq<char>, i: int, cur: Seq<char>)
    requires
        0 <= i <= a.len(),
        is_space(sp),
    ensures
        words_from(a + seq![sp] + b, i, cur) == words_from(a, i, cur) + words(b),
    decreases a.len() - i,
{
    let s = a + seq![sp] + b;
    if i == a.len() {
        assert(s[i] == sp);
        assert(s =~= (a + seq![sp]) + b);
        lemma_words_shift(a + seq![sp], b, 0, Seq::empty());
    } else {
        assert(s[i] == a[i]);
        if is_space(a[i]) {
            lemma_words_part(a, sp, b, i + 1, Seq::empty());
            assert(word(cur) + (words_from(a, i + 1, Seq::empty()) + words(b)) =~= (word(cur)
                + words_from(a, i + 1, Seq::empty())) + words(b));
        } else {
            lemma_words_part(a, sp, b, i + 1, cur.push(a[i]));
        }
    }
}

/// Text without white space is one word.
proof fn lemma_single_word(w: Seq<char>, i: int)
    requires
        0 <= i <= w.len(),
        forall|k: int| 0 <= k < w.len() ==> !is_space(#[trigger] w[k]),
    ensures
        words_from(w, i, w.take(i)) == word(w),
    decreases w.len() - i,
{
    if i == w.len() {
        assert(w.take(i) =~= w);
    } else {
        assert(w.take(i).push(w[i]) =~= w.take(i + 1));
        lemma_single_word(w, i + 1);
    }
}

/// Words that are joined by a space are read back.
pub proof fn lemma_joined_words(ws: Seq<Seq<char>>)
    requires
        forall|i: int|
            0 <= i < ws.len() ==> (#[trigger] ws[i]).len() > 0 && forall|k: int|
                0 <= k < ws[i].len() ==> !is_space(#[trigger] ws[i][k]),
    ensures
        words(joined(ws, seq![' '])) == ws,
    decreases ws.len(),
{
    if ws.len() == 0 {
        assert(words(Seq::empty()) =~= ws);
    } else {
        let last = ws.last();
        assert(last.take(0) =~= Seq::empty());
        lemma_single_word(last, 0);
        if ws.len() == 1 {
            assert(ws =~= seq![last]);
        } else {
            lemma_joined_words(ws.drop_last());
            lemma_words_part(joined(ws.drop_last(), seq![' ']), ' ', last, 0, Seq::empty());
            assert(ws =~= ws.drop_last() + seq![last]);
        }
    }
}

// ── Laws ───────────────────────────────────────────────────────────────────

/// Whether four characters are the upper-case hexadecimal digits of a 16-bit
/// number, the highest first.
pub open spec fn spells(cs: Seq<char>, n: int) -> bool {
    &&& cs.len() == 4
    &&& cs[0] == "0123456789ABCDEF"@[n / 4096]
    &&& cs[1] == "0123456789ABCDEF"@[n / 256 % 16]
    &&& cs[2] == "0123456789ABCDEF"@[n / 16 % 16]
    &&& cs[3] == "0123456789ABCDEF"@[n % 16]
}

/// A digit character is the one that stands at its value among the digits.
pub proof fn law_digits_are_in_order(d: nat)
    requires
        d < 16,
    ensures
        digit_char(d, true) == "0123456789ABCDEF"@[d as int],
        digit_char(d, false) == "0123456789abcdef"@[d as int],
        digit_value("0123456789ABCDEF"@[d as int]) == d,
        digit_value("0123456789abcdef"@[d as int]) == d,
{
    reveal_strlit("0123456789ABCDEF");
    reveal_strlit("0123456789abcdef");
}

/// A 16-bit number in four upper-case hexadecimal digits is what spells it, and
/// nothing else does. A byte in two is the last two of these.
pub proof fn law_hex_spells(n: nat, cs: Seq<char>)
    requires
        n <= 0xFFFF,
    ensures
        spells(hex(n, 4, true), n as int),
        spells(cs, n as int) ==> cs == hex(n, 4, true),
        n <= 0xFF ==> hex(n, 2, true) == hex(n, 4, true).skip(2),
{
    reveal_with_fuel(digits, 4);
    law_digits_are_in_order(n / 4096);
    law_digits_are_in_order(n / 256 % 16);
    law_digits_are_in_order(n / 16 % 16);
    law_digits_are_in_order(n % 16);
    law_digits_are_in_order(0);
    reveal_strlit("0123456789ABCDEF");
    assert(n / 16 / 16 == n / 256);
    assert(n / 256 / 16 == n / 4096);
    let h = hex(n, 4, true);
    let d = digits(n, 16, true);
    if n < 16 {
        assert(d =~= seq![digit_char(n, true)]);
    } else if n < 256 {
        assert(d =~= seq![digit_char(n / 16, true), digit_char(n % 16, true)]);
    } else if n < 4096 {
        assert(d =~= seq![
            digit_char(n / 256, true),
            digit_char(n / 16 % 16, true),
            digit_char(n % 16, true),
        ]);
    } else {
        assert(d =~= seq![
            digit_char(n / 4096, true),
            digit_char(n / 256 % 16, true),
            digit_char(n / 16 % 16, true),
            digit_char(n % 16, true),
        ]);
    }
    assert(h.len() == 4);
    assert(h[3] == digit_char(n % 16, true));
    assert(h[2] == digit_char(n / 16 % 16, true));
    assert(h[1] == digit_char(n / 256 % 16, true));
    assert(h[0] == digit_char(n / 4096, true));
    if spells(cs, n as int) {
        assert(cs =~= h);
    }
    if n <= 0xFF {
        assert(hex(n, 2, true) =~= h.skip(2));
    }
}

/// Two texts are the same but for case exactly when each letter is the other's or
/// its counterpart in the other case.
pub proof fn law_ascii_case_is_ignored(a: Seq<char>, b: Seq<char>)
    ensures
        (ascii_lowered(a) == ascii_lowered(b)) == (a.len() == b.len() && forall|i: int|
            0 <= i < a.len() ==> (#[trigger] a[i] == b[i] || ('A' <= a[i] <= 'Z' && b[i] as int
                == a[i] as int + 32) || ('A' <= b[i] <= 'Z' && a[i] as int == b[i] as int + 32))),
{
    let x = ascii_lowered(a);
    let y = ascii_lowered(b);
    if x == y {
        assert(x.len() == a.len() && y.len() == b.len());
        assert forall|i: int| 0 <= i < a.len() implies (#[trigger] a[i] == b[i] || ('A' <= a[i]
            <= 'Z' && b[i] as int == a[i] as int + 32) || ('A' <= b[i] <= 'Z' && a[i] as int
            == b[i] as int + 32)) by {
            assert(x[i] == y[i]);
        }
    }
    if a.len() == b.len() && forall|i: int|
        0 <= i < a.len() ==> (#[trigger] a[i] == b[i] || ('A' <= a[i] <= 'Z' && b[i] as int
            == a[i] as int + 32) || ('A' <= b[i] <= 'Z' && a[i] as int == b[i] as int + 32)) {
        assert forall|i: int| 0 <= i < x.len() implies x[i] == y[i] by {
            assert(a[i] == a[i]);
        }
        assert(x =~= y);
    }
}

/// White space at either end goes, and nothing else does: what is left starts and
/// ends with something other than white space, and everything around it was white
/// space.
pub proof fn law_trimming_takes_white_space_alone(s: Seq<char>) -> (at: int)
    ensures
        0 <= at,
        at + trimmed(s).len() <= s.len(),
        trimmed(s) == s.subrange(at, at + trimmed(s).len()),
        forall|i: int|
            0 <= i < s.len() && !(at <= i < at + trimmed(s).len()) ==> is_space(#[trigger] s[i]),
        trimmed(s).len() > 0 ==> !is_space(trimmed(s)[0]) && !is_space(trimmed(s).last()),
{
    let at = lemma_trimmed_start(s);
    let body = trimmed_start(s);
    lemma_trimmed_end(body);
    let t = trimmed_end(body);
    assert(t =~= s.subrange(at, at + t.len()));
    assert forall|i: int| 0 <= i < s.len() && !(at <= i < at + t.len()) implies is_space(
        #[trigger] s[i],
    ) by {
        if i >= at {
            assert(body[i - at] == s[i]);
        }
    }
    at
}

/// What stands before the first character that is not white space.
proof fn lemma_trimmed_start(s: Seq<char>) -> (at: int)
    ensures
        0 <= at <= s.len(),
        trimmed_start(s) == s.skip(at),
        forall|i: int| 0 <= i < at ==> is_space(#[trigger] s[i]),
        at < s.len() ==> !is_space(s[at]),
    decreases s.len(),
{
    if s.len() > 0 && is_space(s[0]) {
        let at = lemma_trimmed_start(s.drop_first());
        assert(s.drop_first().skip(at) =~= s.skip(at + 1));
        assert forall|i: int| 0 <= i < at + 1 implies is_space(#[trigger] s[i]) by {
            if i > 0 {
                assert(s.drop_first()[i - 1] == s[i]);
            }
        }
        at + 1
    } else {
        assert(s.skip(0) =~= s);
        0
    }
}

/// What stands behind the last character that is not white space.
proof fn lemma_trimmed_end(s: Seq<char>)
    ensures
        trimmed_end(s).len() <= s.len(),
        trimmed_end(s) == s.take(trimmed_end(s).len() as int),
        forall|i: int| trimmed_end(s).len() <= i < s.len() ==> is_space(#[trigger] s[i]),
        trimmed_end(s).len() > 0 ==> !is_space(trimmed_end(s).last()),
    decreases s.len(),
{
    if s.len() > 0 && is_space(s.last()) {
        lemma_trimmed_end(s.drop_last());
        assert(s.drop_last().take(trimmed_end(s).len() as int) =~= s.take(
            trimmed_end(s).len() as int,
        ));
        assert forall|i: int| trimmed_end(s).len() <= i < s.len() implies is_space(#[trigger] s[i]) by {
            if i < s.len() - 1 {
                assert(s.drop_last()[i] == s[i]);
            }
        }
    } else {
        assert(s.take(s.len() as int) =~= s);
    }
}

/// Reading back what was written in decimal gives the number, up to a limit.
pub proof fn law_decimals_read_back(n: nat, max: nat)
    ensures
        parsed_number(decimal(n), 10, max) == (if n <= max {
            Some(n)
        } else {
            None
        }),
        forall|i: int| 0 <= i < decimal(n).len() ==> '0' <= #[trigger] decimal(n)[i] <= '9',
        n > 0 ==> decimal(n)[0] != '0',
    decreases n,
{
    lemma_decimal_reads_back(n);
    assert('0' <= decimal(n)[0] <= '9');
    if n >= 10 {
        law_decimals_read_back(n / 10, max);
    }
}

/// Different numbers are written differently.
pub proof fn law_decimals_are_distinct(a: nat, b: nat)
    requires
        decimal(a) == decimal(b),
    ensures
        a == b,
{
    lemma_decimal_reads_back(a);
    lemma_decimal_reads_back(b);
}

/// Text is found wherever it stands, and only where it stands: between what is before it
/// and what is behind it.
pub proof fn law_text_is_found_where_it_stands(hay: Seq<char>, a: Seq<char>, n: Seq<char>, b: Seq<char>) -> (r: (
    Seq<char>,
    Seq<char>,
))
    ensures
        has_text(a + n + b, n),
        has_text(hay, n) ==> hay == r.0 + n + r.1,
        hay.len() < n.len() ==> !has_text(hay, n),
{
    assert((a + n + b).subrange(a.len() as int, a.len() as int + n.len() as int) =~= n);
    assert(occurs_at(a + n + b, n, a.len() as int));
    if has_text(hay, n) {
        let at = choose|at: int| occurs_at(hay, n, at);
        let end = at + n.len();
        assert(hay.take(at) + n + hay.skip(end) =~= hay) by {
            assert forall|i: int| at <= i < end implies hay[i] == #[trigger] n[i - at] by {
                assert(hay.subrange(at, end)[i - at] == hay[i]);
            }
        }
        (hay.take(at), hay.skip(end))
    } else {
        (Seq::empty(), Seq::empty())
    }
}

/// The words of a text from a place on.
proof fn lemma_words_are_the_rest(s: Seq<char>, i: int, cur: Seq<char>)
    requires
        0 <= i <= s.len(),
        forall|k: int| 0 <= k < cur.len() ==> !is_space(#[trigger] cur[k]),
    ensures
        forall|k: int, c: int|
            0 <= k < words_from(s, i, cur).len() && 0 <= c < words_from(s, i, cur)[k].len()
                ==> !is_space(#[trigger] words_from(s, i, cur)[k][c]),
        forall|k: int|
            0 <= k < words_from(s, i, cur).len() ==> (#[trigger] words_from(s, i, cur)[k]).len() > 0,
        words_from(s, i, cur).flatten() == cur + s.skip(i).filter(|c: char| !is_space(c)),
    decreases s.len() - i,
{
    let f = |c: char| !is_space(c);
    let ws = words_from(s, i, cur);
    reveal(Seq::filter);
    let one = word(cur);
    assert(one.flatten() =~= cur) by {
        if cur.len() > 0 {
            assert(one =~= seq![cur]);
            one.lemma_flatten_one_element();
        }
    }
    if i == s.len() {
        assert(s.skip(i) =~= Seq::empty());
        assert(ws.flatten() =~= cur + s.skip(i).filter(f));
    } else {
        let c = s[i];
        assert(s.skip(i) =~= seq![c] + s.skip(i + 1));
        Seq::filter_distributes_over_add(seq![c], s.skip(i + 1), f);
        assert(seq![c].drop_last() =~= Seq::<char>::empty());
        assert(Seq::<char>::empty().filter(f) =~= Seq::<char>::empty());
        assert(seq![c].last() == c);
        assert(seq![c].filter(f) =~= if is_space(c) {
            Seq::<char>::empty()
        } else {
            seq![c]
        });
        if is_space(c) {
            let rest = words_from(s, i + 1, Seq::empty());
            lemma_words_are_the_rest(s, i + 1, Seq::empty());
            lemma_flatten_two(one, rest);
            assert(ws.flatten() =~= cur + s.skip(i).filter(f));
            assert forall|k: int, d: int|
                0 <= k < ws.len() && 0 <= d < ws[k].len() implies !is_space(#[trigger] ws[k][d]) by {
                if k >= one.len() {
                    assert(ws[k] == rest[k - one.len()]);
                }
            }
        } else {
            lemma_words_are_the_rest(s, i + 1, cur.push(c));
            assert(ws.flatten() =~= cur + s.skip(i).filter(f));
        }
    }
}

/// Two lists strung together.
proof fn lemma_flatten_two(a: Seq<Seq<char>>, b: Seq<Seq<char>>)
    ensures
        (a + b).flatten() == a.flatten() + b.flatten(),
    decreases a.len(),
{
    if a.len() == 0 {
        assert(a + b =~= b);
        assert(a.flatten() + b.flatten() =~= b.flatten());
    } else {
        lemma_flatten_two(a.drop_first(), b);
        assert((a + b).drop_first() =~= a.drop_first() + b);
        assert((a + b).first() == a.first());
        assert((a + b).flatten() =~= a.flatten() + b.flatten());
    }
}

/// The words of a text are all of it but the white space, in order: none is empty, and none
/// holds white space.
pub proof fn law_words_are_all_but_the_spaces(s: Seq<char>)
    ensures
        words(s).flatten() == s.filter(|c: char| !is_space(c)),
        forall|k: int| 0 <= k < words(s).len() ==> (#[trigger] words(s)[k]).len() > 0,
        forall|k: int, c: int|
            0 <= k < words(s).len() && 0 <= c < words(s)[k].len() ==> !is_space(
                #[trigger] words(s)[k][c],
            ),
{
    lemma_words_are_the_rest(s, 0, Seq::empty());
    assert(s.skip(0) =~= s);
    assert(words(s).flatten() =~= s.filter(|c: char| !is_space(c)));
}

/// Two lists joined are the one joined, the separator, and the other joined. One text joined
/// is that text, and none is nothing.
pub proof fn law_joining_puts_the_separator_between(
    a: Seq<Seq<char>>,
    b: Seq<Seq<char>>,
    sep: Seq<char>,
)
    ensures
        a.len() == 0 ==> joined(a, sep).len() == 0,
        a.len() == 1 ==> joined(a, sep) == a[0],
        a.len() > 0 && b.len() > 0 ==> joined(a + b, sep) == joined(a, sep) + sep + joined(b, sep),
    decreases b.len(),
{
    if a.len() > 0 && b.len() > 0 {
        let all = a + b;
        assert(all.drop_last() =~= a + b.drop_last());
        if b.len() == 1 {
            assert(all.drop_last() =~= a);
        } else {
            law_joining_puts_the_separator_between(a, b.drop_last(), sep);
            assert(joined(all, sep) =~= joined(a, sep) + sep + joined(b, sep));
        }
    }
}

/// Padding adds what is missing to the width and nothing else: spaces behind the text, or
/// the filling in front of it.
pub proof fn law_padding_fills_up_to_the_width(s: Seq<char>, width: nat, fill: char, i: int)
    ensures
        padded_right(s, width).len() == if s.len() < width {
            width
        } else {
            s.len()
        },
        padded_left(s, width, fill).len() == padded_right(s, width).len(),
        0 <= i < s.len() ==> padded_right(s, width)[i] == s[i],
        s.len() <= i < width ==> padded_right(s, width)[i] == ' ',
        s.len() < width && 0 <= i < s.len() ==> padded_left(s, width, fill)[width - s.len() + i]
            == s[i],
        0 <= i < width - s.len() ==> padded_left(s, width, fill)[i] == fill,
        s.len() >= width ==> padded_left(s, width, fill) == s,
{
}

/// A character is replaced wherever it stands, and no other.
pub proof fn law_replacing_changes_one_character(s: Seq<char>, from: char, to: char, i: int)
    ensures
        replaced(s, from, to).len() == s.len(),
        0 <= i < s.len() && s[i] == from ==> replaced(s, from, to)[i] == to,
        0 <= i < s.len() && s[i] != from ==> replaced(s, from, to)[i] == s[i],
{
}

/// A number below zero is written with a minus in front of it.
pub proof fn law_signs_are_written(n: nat)
    ensures
        signed_decimal(n as int) == decimal(n),
        n > 0 ==> signed_decimal(-(n as int)) == seq!['-'] + decimal(n),
{
}

/// A text comes before another where the two first differ by the smaller character, or
/// where it ends while the other goes on.
pub proof fn law_order_goes_by_the_first_difference(a: Seq<char>, b: Seq<char>, k: int)
    requires
        0 <= k <= a.len(),
        k <= b.len(),
        a.take(k) == b.take(k),
        k < a.len() && k < b.len() ==> a[k] != b[k],
    ensures
        text_before(a, b) <==> k < b.len() && (k == a.len() || a[k] < b[k]),
    decreases a.len(),
{
    if k > 0 {
        assert(a[0] == a.take(k)[0]);
        assert(b[0] == b.take(k)[0]);
        let x = a.drop_first();
        let y = b.drop_first();
        assert(x.take(k - 1) =~= y.take(k - 1)) by {
            assert forall|i: int| 0 <= i < k - 1 implies x[i] == y[i] by {
                assert(a.take(k)[i + 1] == a[i + 1]);
                assert(b.take(k)[i + 1] == b[i + 1]);
            }
        }
        law_order_goes_by_the_first_difference(x, y, k - 1);
    }
}

/// A number may have one plus in front of it. Nothing, a plus alone, and text with anything
/// but digits in it are no numbers.
pub proof fn law_what_is_no_number(s: Seq<char>, base: nat, max: nat, i: int)
    ensures
        parsed_number(Seq::empty(), base, max) is None,
        parsed_number(seq!['+'], base, max) is None,
        s.len() == 0 || s[0] != '+' ==> parsed_number(seq!['+'] + s, base, max) == parsed_number(
            s,
            base,
            max,
        ),
        0 <= i < s.len() && !(i == 0 && s[0] == '+') && digit_value(s[i]) >= base ==> parsed_number(
            s,
            base,
            max,
        ) is None,
        parsed_number(s, base, max) is Some ==> parsed_number(s, base, max)->0 <= max,
{
    assert((seq!['+'] + s).drop_first() =~= s);
    assert(seq!['+'].drop_first() =~= Seq::<char>::empty());
    if 0 <= i < s.len() && !(i == 0 && s[0] == '+') && digit_value(s[i]) >= base {
        let body = unsigned_part(s);
        if s[0] == '+' {
            assert(body[i - 1] == s[i]);
        } else {
            assert(body[i] == s[i]);
        }
    }
}

/// One more digit makes a number so many times larger, and the digit more.
pub proof fn law_each_digit_weighs_its_place(s: Seq<char>, c: char, base: nat)
    requires
        base <= 16,
        is_number(s, base),
        digit_value(c) < base,
        s[0] != '+',
    ensures
        parsed_number(s.push(c), base, number_value(s.push(c), base)) == Some(
            (parsed_number(s, base, number_value(s, base))->0 * base + digit_value(c)) as nat,
        ),
{
    let t = s.push(c);
    assert(t.drop_last() =~= s);
    assert forall|i: int| 0 <= i < t.len() implies digit_value(#[trigger] t[i]) < base by {
        if i < s.len() {
            assert(t[i] == s[i]);
        }
    }
}

} // verus!
