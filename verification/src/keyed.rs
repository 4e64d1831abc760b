//! Maps and sets keyed by text, kept in dictionary order.

use crate::text;
use vstd::prelude::*;

verus! {

/// Whether the keys of `entries` are strictly ascending in dictionary order.
pub open spec fn ascending<V>(entries: Seq<(String, V)>) -> bool {
    forall|i: int, j: int|
        0 <= i < j < entries.len() ==> text::text_before(
            #[trigger] entries[i].0@,
            #[trigger] entries[j].0@,
        )
}

/// The position of `key` among `entries`.
pub open spec fn at_key<V>(entries: Seq<(String, V)>, key: Seq<char>, i: int) -> bool {
    0 <= i < entries.len() && entries[i].0@ == key
}

/// Whether `key` occurs among `entries`.
pub open spec fn has_key<V>(entries: Seq<(String, V)>, key: Seq<char>) -> bool {
    exists|i: int| at_key(entries, key, i)
}

/// The value that `entries` give `key`.
pub open spec fn value_at<V>(entries: Seq<(String, V)>, key: Seq<char>) -> V {
    entries[choose|i: int| at_key(entries, key, i)].1
}

/// The map that `entries` hold.
pub open spec fn entry_map<V>(entries: Seq<(String, V)>) -> Map<Seq<char>, V> {
    Map::new(|k: Seq<char>| has_key(entries, k), |k: Seq<char>| value_at(entries, k))
}

/// A map from text, walked in dictionary order of its keys.
#[derive(Debug, PartialEq, Eq)]
pub struct TextMap<V> {
    entries: Vec<(String, V)>,
}

/// A set of text, walked in dictionary order.
pub type TextSet = TextMap<()>;

impl<V> View for TextMap<V> {
    type V = Map<Seq<char>, V>;

    open spec fn view(&self) -> Map<Seq<char>, V> {
        entry_map(self.listed())
    }
}

impl<V: Clone> Clone for TextMap<V> {
    fn clone(&self) -> (r: Self)
        ensures
            r.listed().len() == self.listed().len(),
            forall|i: int|
                0 <= i < self.listed().len() ==> {
                    &&& (#[trigger] r.listed()[i]).0 == self.listed()[i].0
                    &&& cloned::<V>(self.listed()[i].1, r.listed()[i].1)
                },
    {
        proof {
            use_type_invariant(self);
        }
        let mut entries: Vec<(String, V)> = Vec::new();
        let mut i: usize = 0;
        while i < self.entries.len()
            invariant
                i <= self.entries@.len(),
                entries@.len() == i,
                forall|k: int|
                    0 <= k < i ==> {
                        &&& (#[trigger] entries@[k]).0 == self.entries@[k].0
                        &&& cloned::<V>(self.entries@[k].1, entries@[k].1)
                    },
            decreases self.entries@.len() - i,
        {
            entries.push((self.entries[i].0.clone(), self.entries[i].1.clone()));
            i = i + 1;
        }
        assert forall|a: int, b: int| 0 <= a < b < entries@.len() implies text::text_before(
            #[trigger] entries@[a].0@,
            #[trigger] entries@[b].0@,
        ) by {
            assert(text::text_before(self.entries@[a].0@, self.entries@[b].0@));
        }
        TextMap { entries }
    }
}

/// In ascending entries a key determines its position.
pub proof fn lemma_key_unique<V>(entries: Seq<(String, V)>, i: int, j: int)
    requires
        ascending(entries),
        0 <= i < entries.len(),
        0 <= j < entries.len(),
        entries[i].0@ == entries[j].0@,
    ensures
        i == j,
{
    text::lemma_before_irreflexive(entries[i].0@);
}

/// The map of ascending entries gives each listed key its listed value.
pub proof fn lemma_entry_map<V>(entries: Seq<(String, V)>, i: int)
    requires
        ascending(entries),
        0 <= i < entries.len(),
    ensures
        entry_map(entries).contains_key(entries[i].0@),
        entry_map(entries)[entries[i].0@] == entries[i].1,
{
    assert(at_key(entries, entries[i].0@, i));
    let k = choose|k: int| at_key(entries, entries[i].0@, k);
    lemma_key_unique(entries, i, k);
}

impl<V> TextMap<V> {
    /// The entries in dictionary order of their keys.
    pub closed spec fn listed(&self) -> Seq<(String, V)> {
        self.entries@
    }

    #[verifier::type_invariant]
    spec fn well_formed(&self) -> bool {
        ascending(self.entries@)
    }

    /// The empty map.
    pub fn new() -> (m: Self)
        ensures
            m.listed() == Seq::<(String, V)>::empty(),
            m@ == Map::<Seq<char>, V>::empty(),
    {
        let m = TextMap { entries: Vec::new() };
        assert(m@ =~= Map::<Seq<char>, V>::empty()) by {
            assert forall|k: Seq<char>| !has_key(m.listed(), k) by {}
        }
        m
    }

    /// How many entries there are.
    pub fn len(&self) -> (n: usize)
        ensures
            n == self.listed().len(),
            ascending(self.listed()),
    {
        proof {
            use_type_invariant(self);
        }
        self.entries.len()
    }

    /// Whether there is no entry.
    pub fn is_empty(&self) -> (b: bool)
        ensures
            b == (self.listed().len() == 0),
            b == (self@ == Map::<Seq<char>, V>::empty()),
    {
        let b = self.entries.len() == 0;
        proof {
            if b {
                assert forall|k: Seq<char>| !has_key(self.listed(), k) by {}
                assert(self@ =~= Map::<Seq<char>, V>::empty());
            } else {
                let k = self.listed()[0].0@;
                assert(at_key(self.listed(), k, 0));
                assert(self@.contains_key(k));
            }
        }
        b
    }

    /// The key at a position in dictionary order.
    pub fn key(&self, i: usize) -> (k: &String)
        requires
            i < self.listed().len(),
        ensures
            *k == self.listed()[i as int].0,
    {
        &self.entries[i].0
    }

    /// The value at a position in dictionary order.
    pub fn value(&self, i: usize) -> (v: &V)
        requires
            i < self.listed().len(),
        ensures
            *v == self.listed()[i as int].1,
    {
        &self.entries[i].1
    }

    /// The first position whose key does not come before `key`.
    fn position(&self, key: &str) -> (p: usize)
        ensures
            p <= self.entries@.len(),
            forall|i: int| 0 <= i < p ==> text::text_before(#[trigger] self.entries@[i].0@, key@),
            p < self.entries@.len() ==> !text::text_before(self.entries@[p as int].0@, key@),
    {
        let mut p: usize = 0;
        while p < self.entries.len() && text::before(self.entries[p].0.as_str(), key)
            invariant
                p <= self.entries@.len(),
                forall|i: int| 0 <= i < p ==> text::text_before(#[trigger] self.entries@[i].0@, key@),
            decreases self.entries@.len() - p,
        {
            p = p + 1;
        }
        p
    }

    /// Look a key up.
    pub fn get(&self, key: &str) -> (r: Option<&V>)
        ensures
            match r {
                Some(v) => self@.contains_key(key@) && *v == self@[key@],
                None => !self@.contains_key(key@),
            },
    {
        proof {
            use_type_invariant(self);
        }
        let p: usize = self.position(key);
        if p < self.entries.len() && text::same(self.entries[p].0.as_str(), key) {
            proof {
                lemma_entry_map(self.entries@, p as int);
            }
            Some(&self.entries[p].1)
        } else {
            proof {
                if has_key(self.entries@, key@) {
                    let i = choose|i: int| at_key(self.entries@, key@, i);
                    text::lemma_before_irreflexive(key@);
                    assert(i > p);
                    assert(text::text_before(self.entries@[p as int].0@, self.entries@[i].0@));
                }
            }
            None
        }
    }

    /// Whether a key is present.
    pub fn contains_key(&self, key: &str) -> (b: bool)
        ensures
            b == self@.contains_key(key@),
    {
        self.get(key).is_some()
    }

    /// Bind a key to a value. The former value, if there was one, is returned.
    pub fn insert(&mut self, key: String, value: V) -> (r: Option<V>)
        ensures
            final(self)@ == old(self)@.insert(key@, value),
            ascending(final(self).listed()),
            r == (if old(self)@.contains_key(key@) {
                Some(old(self)@[key@])
            } else {
                None
            }),
    {
        proof {
            use_type_invariant(&*self);
        }
        let ghost before_entries = self.entries@;
        let ghost k = key@;
        let p: usize = self.position(key.as_str());
        let found: bool = p < self.entries.len() && text::same(self.entries[p].0.as_str(), key.as_str());
        let mut entries: Vec<(String, V)> = Vec::new();
        std::mem::swap(&mut entries, &mut self.entries);
        let mut prior: Option<V> = None;
        if found {
            proof {
                lemma_entry_map(before_entries, p as int);
            }
            let e: (String, V) = entries.remove(p);
            prior = Some(e.1);
        } else {
            proof {
                if has_key(before_entries, k) {
                    let i = choose|i: int| at_key(before_entries, k, i);
                    text::lemma_before_irreflexive(k);
                    assert(i > p);
                    assert(text::text_before(before_entries[p as int].0@, before_entries[i].0@));
                }
            }
        }
        let ghost rest = entries@;
        proof {
            assert(forall|i: int| 0 <= i < p ==> rest[i] == before_entries[i]);
            assert(forall|i: int|
                p <= i < rest.len() ==> #[trigger] rest[i] == before_entries[if found {
                    i + 1
                } else {
                    i
                }]);
            assert forall|i: int| p <= i < rest.len() implies text::text_before(
                k,
                #[trigger] rest[i].0@,
            ) by {
                if found {
                    assert(rest[i] == before_entries[i + 1]);
                    assert(text::text_before(before_entries[p as int].0@, before_entries[i + 1].0@));
                } else {
                    let q = before_entries[p as int].0@;
                    text::lemma_before_total(q, k);
                    assert(rest[i] == before_entries[i]);
                    if i > p {
                        assert(text::text_before(q, before_entries[i].0@));
                        text::lemma_before_transitive(k, q, before_entries[i].0@);
                    }
                }
            }
            assert(ascending(rest));
        }
        entries.insert(p, (key, value));
        proof {
            let now = entries@;
            assert forall|i: int, j: int| 0 <= i < j < now.len() implies text::text_before(
                #[trigger] now[i].0@,
                #[trigger] now[j].0@,
            ) by {
                let a = if i < p {
                    i
                } else {
                    i - 1
                };
                let b = if j < p {
                    j
                } else {
                    j - 1
                };
                if i != p {
                    assert(now[i] == rest[a]);
                }
                if j != p {
                    assert(now[j] == rest[b]);
                }
            }
            assert(ascending(now));
            lemma_entry_map(now, p as int);
            assert(entry_map(now) =~= entry_map(before_entries).insert(k, value)) by {
                assert forall|x: Seq<char>|
                    has_key(now, x) == (x == k || has_key(before_entries, x)) by {
                    if has_key(now, x) && x != k {
                        let i = choose|i: int| at_key(now, x, i);
                        let a = if i < p {
                            i
                        } else {
                            i - 1
                        };
                        assert(now[i] == rest[a]);
                        let o = if a < p {
                            a
                        } else if found {
                            a + 1
                        } else {
                            a
                        };
                        assert(rest[a] == before_entries[o]);
                        assert(at_key(before_entries, x, o));
                    }
                    if has_key(before_entries, x) && x != k {
                        let o = choose|o: int| at_key(before_entries, x, o);
                        let i = if o < p {
                            o
                        } else if found {
                            o
                        } else {
                            o + 1
                        };
                        assert(at_key(now, x, i));
                    }
                }
                assert forall|x: Seq<char>|
                    x != k && has_key(before_entries, x) implies #[trigger] value_at(now, x)
                    == value_at(before_entries, x) by {
                    let o = choose|o: int| at_key(before_entries, x, o);
                    let i = if o < p {
                        o
                    } else if found {
                        o
                    } else {
                        o + 1
                    };
                    lemma_entry_map(before_entries, o);
                    lemma_entry_map(now, i);
                    assert(now[i] == before_entries[o]);
                }
            }
        }
        self.entries = entries;
        prior
    }

    /// Remove a key. The value it had, if it was present, is returned.
    pub fn remove(&mut self, key: &str) -> (r: Option<V>)
        ensures
            final(self)@ == old(self)@.remove(key@),
            ascending(final(self).listed()),
            r == (if old(self)@.contains_key(key@) {
                Some(old(self)@[key@])
            } else {
                None
            }),
    {
        proof {
            use_type_invariant(&*self);
        }
        let ghost was = self.entries@;
        let ghost k = key@;
        let p: usize = self.position(key);
        let found: bool = p < self.entries.len() && text::same(self.entries[p].0.as_str(), key);
        if !found {
            proof {
                if has_key(was, k) {
                    let i = choose|i: int| at_key(was, k, i);
                    text::lemma_before_irreflexive(k);
                    assert(i > p);
                    assert(text::text_before(was[p as int].0@, was[i].0@));
                }
                assert(self@.remove(k) =~= self@);
            }
            return None;
        }
        proof {
            lemma_entry_map(was, p as int);
        }
        let mut entries: Vec<(String, V)> = Vec::new();
        std::mem::swap(&mut entries, &mut self.entries);
        let e: (String, V) = entries.remove(p);
        proof {
            let now = entries@;
            assert forall|i: int, j: int| 0 <= i < j < now.len() implies text::text_before(
                #[trigger] now[i].0@,
                #[trigger] now[j].0@,
            ) by {
                let a = if i < p {
                    i
                } else {
                    i + 1
                };
                let b = if j < p {
                    j
                } else {
                    j + 1
                };
                assert(now[i] == was[a]);
                assert(now[j] == was[b]);
            }
            assert(entry_map(now) =~= entry_map(was).remove(k)) by {
                assert forall|x: Seq<char>| has_key(now, x) == (x != k && has_key(was, x)) by {
                    if has_key(now, x) {
                        let i = choose|i: int| at_key(now, x, i);
                        let a = if i < p {
                            i
                        } else {
                            i + 1
                        };
                        assert(now[i] == was[a]);
                        assert(at_key(was, x, a));
                        if x == k {
                            lemma_key_unique(was, a, p as int);
                        }
                    }
                    if x != k && has_key(was, x) {
                        let a = choose|a: int| at_key(was, x, a);
                        let i = if a < p {
                            a
                        } else {
                            a - 1
                        };
                        assert(at_key(now, x, i));
                    }
                }
                assert forall|x: Seq<char>|
                    x != k && has_key(was, x) implies #[trigger] value_at(now, x) == value_at(
                    was,
                    x,
                ) by {
                    let a = choose|a: int| at_key(was, x, a);
                    let i = if a < p {
                        a
                    } else {
                        a - 1
                    };
                    lemma_entry_map(was, a);
                    lemma_entry_map(now, i);
                    assert(now[i] == was[a]);
                }
            }
        }
        self.entries = entries;
        Some(e.1)
    }
}

// ── Laws ───────────────────────────────────────────────────────────────────

/// A map holds exactly what is listed: every listed key with its listed value, and no key
/// that is not listed. No key is listed twice, and they are listed in order.
pub proof fn law_maps_hold_what_is_listed<V>(entries: Seq<(String, V)>, i: int, j: int, key: Seq<char>)
    requires
        ascending(entries),
    ensures
        0 <= i < entries.len() ==> entry_map(entries).contains_key(entries[i].0@) && entry_map(
            entries,
        )[entries[i].0@] == entries[i].1,
        entry_map(entries).contains_key(key) ==> exists|k: int|
            0 <= k < entries.len() && (#[trigger] entries[k]).0@ == key,
        0 <= i < j < entries.len() ==> text::text_before(entries[i].0@, entries[j].0@)
            && entries[i].0@ != entries[j].0@,
{
    if 0 <= i < entries.len() {
        lemma_entry_map(entries, i);
    }
    if 0 <= i < j < entries.len() {
        text::lemma_before_irreflexive(entries[i].0@);
    }
    if entry_map(entries).contains_key(key) {
        let k = choose|k: int| at_key(entries, key, k);
        assert(entries[k].0@ == key);
    }
}

} // verus!
