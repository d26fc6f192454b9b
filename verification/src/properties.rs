//! The string-to-string property map of an element, kept as a list of
//! entries in insertion order.

use vstd::prelude::*;
use crate::text::str_eq;

verus! {

/// The entries of a list of pairs, as character sequences.
pub open spec fn pairs_view(entries: Seq<(String, String)>) -> Seq<(Seq<char>, Seq<char>)> {
    Seq::new(entries.len(), |i: int| (entries[i].0@, entries[i].1@))
}

/// No key occurs in two entries.
pub open spec fn distinct_keys(s: Seq<(Seq<char>, Seq<char>)>) -> bool {
    forall|i: int, j: int| 0 <= i < j < s.len() ==> (#[trigger] s[i]).0 != (#[trigger] s[j]).0
}

/// Index of the last entry that holds `key`, or `s.len()` if there is none.
pub open spec fn key_index(s: Seq<(Seq<char>, Seq<char>)>, key: Seq<char>) -> int
    decreases s.len(),
{
    if s.len() == 0 {
        0
    } else if s.last().0 == key {
        s.len() - 1
    } else if key_index(s.drop_last(), key) < s.len() - 1 {
        key_index(s.drop_last(), key)
    } else {
        s.len() as int
    }
}

/// The mapping that a list of entries stands for; a later entry wins.
pub open spec fn props_map(s: Seq<(Seq<char>, Seq<char>)>) -> Map<Seq<char>, Seq<char>>
    decreases s.len(),
{
    if s.len() == 0 {
        Map::empty()
    } else {
        props_map(s.drop_last()).insert(s.last().0, s.last().1)
    }
}

/// The entries after `key` is set to `value`: replaced in place if the key is
/// present, appended otherwise.
pub open spec fn with_entry(
    s: Seq<(Seq<char>, Seq<char>)>,
    key: Seq<char>,
    value: Seq<char>,
) -> Seq<(Seq<char>, Seq<char>)> {
    if key_index(s, key) < s.len() {
        s.update(key_index(s, key), (key, value))
    } else {
        s.push((key, value))
    }
}

/// `key_index` is the last position of the key.
pub proof fn lemma_key_index(s: Seq<(Seq<char>, Seq<char>)>, key: Seq<char>)
    ensures
        0 <= key_index(s, key) <= s.len(),
        forall|j: int| key_index(s, key) < j < s.len() ==> (#[trigger] s[j]).0 != key,
        key_index(s, key) < s.len() ==> s[key_index(s, key)].0 == key,
        key_index(s, key) == s.len() ==> forall|j: int|
            0 <= j < s.len() ==> (#[trigger] s[j]).0 != key,
    decreases s.len(),
{
    if s.len() > 0 && s.last().0 != key {
        let t = s.drop_last();
        lemma_key_index(t, key);
        assert forall|j: int| key_index(s, key) < j < s.len() implies (#[trigger] s[j]).0
            != key by {
            if j < t.len() {
                assert(s[j] == t[j]);
            }
        }
        if key_index(s, key) == s.len() {
            assert forall|j: int| 0 <= j < s.len() implies (#[trigger] s[j]).0 != key by {
                if j < t.len() {
                    assert(s[j] == t[j]);
                }
            }
        }
    }
}

/// A position after which the key does not occur, and which holds it, is
/// `key_index`.
pub proof fn lemma_key_index_is(s: Seq<(Seq<char>, Seq<char>)>, key: Seq<char>, i: int)
    requires
        0 <= i <= s.len(),
        forall|j: int| i < j < s.len() ==> (#[trigger] s[j]).0 != key,
        i < s.len() ==> s[i].0 == key,
        i == s.len() ==> forall|j: int| 0 <= j < s.len() ==> (#[trigger] s[j]).0 != key,
    ensures
        key_index(s, key) == i,
{
    lemma_key_index(s, key);
    let f = key_index(s, key);
    if f < i {
        if i < s.len() {
            assert(s[i].0 != key);
        } else {
            assert(s[f].0 != key);
        }
    } else if i < f {
        if f < s.len() {
            assert(s[f].0 != key);
        } else {
            assert(s[i].0 != key);
        }
    }
}

/// The mapping holds exactly the keys of the entries, each with the value of
/// its last entry.
pub proof fn lemma_props_map(s: Seq<(Seq<char>, Seq<char>)>, key: Seq<char>)
    ensures
        props_map(s).contains_key(key) <==> key_index(s, key) < s.len(),
        key_index(s, key) < s.len() ==> props_map(s)[key] == s[key_index(s, key)].1,
    decreases s.len(),
{
    if s.len() > 0 {
        lemma_props_map(s.drop_last(), key);
        lemma_key_index(s.drop_last(), key);
    }
}

/// Setting a key in the entries sets it in the mapping, and keeps keys
/// distinct.
pub proof fn lemma_with_entry(s: Seq<(Seq<char>, Seq<char>)>, key: Seq<char>, value: Seq<char>)
    ensures
        props_map(with_entry(s, key, value)) == props_map(s).insert(key, value),
        distinct_keys(s) ==> distinct_keys(with_entry(s, key, value)),
    decreases s.len(),
{
    let r = with_entry(s, key, value);
    let k = key_index(s, key);
    lemma_key_index(s, key);
    if distinct_keys(s) {
        assert forall|a: int, b: int| 0 <= a < b < r.len() implies (#[trigger] r[a]).0 != (
        #[trigger] r[b]).0 by {
            if k < s.len() {
                assert(r[a].0 == s[a].0);
                assert(r[b].0 == s[b].0);
            } else if b < s.len() {
                assert(r[a] == s[a]);
                assert(r[b] == s[b]);
            } else {
                assert(r[a] == s[a]);
            }
        }
    }
    if k >= s.len() {
        assert(r.drop_last() =~= s);
    } else if k == s.len() - 1 {
        assert(r.drop_last() =~= s.drop_last());
        assert(props_map(r) =~= props_map(s).insert(key, value));
    } else {
        let t = s.drop_last();
        lemma_with_entry(t, key, value);
        assert(key_index(t, key) == k);
        assert(r.drop_last() =~= with_entry(t, key, value));
        assert(r.last() == s.last());
        assert(props_map(r) =~= props_map(s).insert(key, value));
    }
}

/// An element's properties: a map from names to values.
#[derive(Debug)]
pub struct Properties {
    entries: Vec<(String, String)>,
}

impl View for Properties {
    type V = Seq<(Seq<char>, Seq<char>)>;

    closed spec fn view(&self) -> Seq<(Seq<char>, Seq<char>)> {
        pairs_view(self.entries@)
    }
}

impl Properties {
    /// Each key occurs once. `new` establishes this and `insert` keeps it.
    pub open spec fn wf(&self) -> bool {
        distinct_keys(self@)
    }

    /// The empty property map.
    pub fn new() -> (r: Self)
        ensures
            r@ == Seq::<(Seq<char>, Seq<char>)>::empty(),
            r.wf(),
    {
        let r = Properties { entries: Vec::new() };
        assert(r@ =~= Seq::<(Seq<char>, Seq<char>)>::empty());
        r
    }

    /// Number of entries.
    pub fn len(&self) -> (n: usize)
        ensures
            n == self@.len(),
    {
        self.entries.len()
    }

    /// Whether there is no entry.
    pub fn is_empty(&self) -> (r: bool)
        ensures
            r == (self@.len() == 0),
    {
        self.entries.len() == 0
    }

    /// The key of the entry at `index`.
    pub fn key_at(&self, index: usize) -> (r: &String)
        requires
            index < self@.len(),
        ensures
            r@ == self@[index as int].0,
    {
        &self.entries[index].0
    }

    /// The value of the entry at `index`.
    pub fn value_at(&self, index: usize) -> (r: &String)
        requires
            index < self@.len(),
        ensures
            r@ == self@[index as int].1,
    {
        &self.entries[index].1
    }

    /// Index of the last entry for `key`, or the number of entries if it is
    /// absent.
    fn index_of(&self, key: &str) -> (i: usize)
        ensures
            i == key_index(self@, key@),
            i <= self@.len(),
    {
        let n = self.entries.len();
        let mut i: usize = n;
        while i > 0 && !str_eq(self.entries[i - 1].0.as_str(), key)
            invariant
                i <= n,
                n == self.entries.len(),
                forall|j: int| i <= j < n ==> (#[trigger] self@[j]).0 != key@,
            decreases i,
        {
            assert(self@[i - 1].0 == self.entries@[i - 1].0@);
            i -= 1;
        }
        if i == 0 {
            proof {
                lemma_key_index_is(self@, key@, n as int);
            }
            n
        } else {
            proof {
                assert(self@[i - 1].0 == self.entries@[i - 1].0@);
                lemma_key_index_is(self@, key@, i - 1);
            }
            i - 1
        }
    }

    /// The value stored for `key`, if any.
    pub fn get(&self, key: &str) -> (r: Option<&String>)
        ensures
            match r {
                Some(v) => props_map(self@).contains_key(key@) && v@ == props_map(self@)[key@],
                None => !props_map(self@).contains_key(key@),
            },
    {
        let i = self.index_of(key);
        proof {
            lemma_props_map(self@, key@);
        }
        if i < self.entries.len() {
            Some(&self.entries[i].1)
        } else {
            None
        }
    }

    /// Sets `key` to `value`: replaces the value of the entry with that key,
    /// or appends a new entry.
    pub fn insert(&mut self, key: String, value: String)
        ensures
            final(self)@ == with_entry(old(self)@, key@, value@),
            props_map(final(self)@) == props_map(old(self)@).insert(key@, value@),
            old(self).wf() ==> final(self).wf(),
    {
        let i = self.index_of(key.as_str());
        proof {
            lemma_with_entry(self@, key@, value@);
        }
        let ghost before = self.entries@;
        if i < self.entries.len() {
            self.entries[i] = (key, value);
            assert(pairs_view(self.entries@) =~= with_entry(pairs_view(before), key@, value@));
        } else {
            self.entries.push((key, value));
            assert(pairs_view(self.entries@) =~= with_entry(pairs_view(before), key@, value@));
        }
    }

    /// Whether every entry of `self` has the same value in `other`.
    fn included_in(&self, other: &Properties) -> (r: bool)
        ensures
            r == forall|q: Seq<char>| #[trigger]
                props_map(self@).contains_key(q) ==> props_map(other@).contains_key(q)
                    && props_map(other@)[q] == props_map(self@)[q],
    {
        let mut i: usize = 0;
        while i < self.entries.len()
            invariant
                i <= self.entries.len(),
                forall|j: int|
                    0 <= j < i ==> props_map(other@).contains_key((#[trigger] self@[j]).0)
                        && props_map(other@)[self@[j].0] == props_map(self@)[self@[j].0],
            decreases self.entries.len() - i,
        {
            let key = self.entries[i].0.as_str();
            let here = self.get(key);
            let there = other.get(key);
            proof {
                lemma_props_map(self@, key@);
                lemma_key_index(self@, key@);
                if key_index(self@, key@) >= self@.len() {
                    assert(self@[i as int].0 != key@);
                }
            }
            let agree = match (here, there) {
                (Some(a), Some(b)) => *a == *b,
                _ => false,
            };
            if !agree {
                return false;
            }
            i += 1;
        }
        proof {
            assert forall|q: Seq<char>| #[trigger]
                props_map(self@).contains_key(q) implies props_map(other@).contains_key(q)
                && props_map(other@)[q] == props_map(self@)[q] by {
                lemma_props_map(self@, q);
                lemma_key_index(self@, q);
                assert(self@[key_index(self@, q)].0 == q);
            }
        }
        true
    }

    /// Whether both hold the same mapping, whatever the order of the entries.
    pub fn same(&self, other: &Properties) -> (r: bool)
        ensures
            r == (props_map(self@) == props_map(other@)),
    {
        let r = self.included_in(other) && other.included_in(self);
        proof {
            if r {
                assert(props_map(self@) =~= props_map(other@));
            }
        }
        r
    }
}

} // verus!
