//! Named options: an ordered list of key and value pairs in which no key
//! occurs twice.  Setting a key that is present replaces its value where it
//! stands, so of several values given for one key the last one wins.

use vstd::prelude::*;
use vstd::utf8::valid_utf8;
use crate::scan::same_bytes;

verus! {

/// The mathematical model of an option list.
pub type Entries = Seq<(Seq<u8>, Seq<u8>)>;

/// `i` is the position of the first entry with the key `key`, or the
/// length of the list when no entry has that key.
pub open spec fn is_position(entries: Entries, key: Seq<u8>, i: int) -> bool {
    &&& 0 <= i <= entries.len()
    &&& forall|j: int| 0 <= j < i ==> (#[trigger] entries[j]).0 != key
    &&& i < entries.len() ==> entries[i].0 == key
}

/// The position of the first entry with the key `key`, or the length of the
/// list when there is none.
pub open spec fn position(entries: Entries, key: Seq<u8>) -> int {
    choose|i: int| is_position(entries, key, i)
}

/// No key occurs in two entries.
pub open spec fn distinct_keys(entries: Entries) -> bool {
    forall|i: int, j: int|
        0 <= i < j < entries.len() ==> (#[trigger] entries[i]).0 != (#[trigger] entries[j]).0
}

/// Every key and every value is well-formed UTF-8.
pub open spec fn all_text(entries: Entries) -> bool {
    forall|i: int|
        0 <= i < entries.len() ==> valid_utf8((#[trigger] entries[i]).0) && valid_utf8(
            entries[i].1,
        )
}

/// The value stored under `key`, if any.
pub open spec fn spec_lookup(entries: Entries, key: Seq<u8>) -> Option<Seq<u8>> {
    let i = position(entries, key);
    if 0 <= i < entries.len() {
        Some(entries[i].1)
    } else {
        None
    }
}

/// The list after `key` has been given the value `value`: replaced in place
/// where the key is present, added at the end where it is not.
pub open spec fn spec_set(entries: Entries, key: Seq<u8>, value: Seq<u8>) -> Entries {
    let i = position(entries, key);
    if 0 <= i < entries.len() {
        entries.update(i, (key, value))
    } else {
        entries.push((key, value))
    }
}

/// The list after each entry of `extra` has been set in turn, the first
/// `n` of them.
pub open spec fn spec_set_all(entries: Entries, extra: Entries, n: int) -> Entries
    decreases n,
{
    if n <= 0 {
        entries
    } else {
        let sofar = spec_set_all(entries, extra, n - 1);
        spec_set(sofar, extra[n - 1].0, extra[n - 1].1)
    }
}

/// `position` is determined by `is_position`.
pub proof fn lemma_position_unique(entries: Entries, key: Seq<u8>, i: int)
    requires
        is_position(entries, key, i),
    ensures
        position(entries, key) == i,
{
    let c = position(entries, key);
    assert(is_position(entries, key, c));
    if c < i {
        assert(entries[c].0 == key);
    } else if i < c {
        assert(entries[i].0 == key);
    }
}

/// Every list has a position for every key.
pub proof fn lemma_position_exists(entries: Entries, key: Seq<u8>)
    ensures
        is_position(entries, key, position(entries, key)),
    decreases entries.len(),
{
    if entries.len() == 0 {
        assert(is_position(entries, key, 0));
    } else {
        let t = entries.drop_last();
        lemma_position_exists(t, key);
        let c = position(t, key);
        assert forall|j: int| 0 <= j < c implies (#[trigger] entries[j]).0 != key by {
            assert(entries[j] == t[j]);
        }
        if c < t.len() {
            assert(entries[c] == t[c]);
            assert(is_position(entries, key, c));
        } else if entries[t.len() as int].0 == key {
            assert(is_position(entries, key, t.len() as int));
        } else {
            assert(is_position(entries, key, entries.len() as int));
        }
    }
}

/// Setting a key keeps the keys distinct, makes that key's value the one
/// given, and leaves the value of every other key as it was.
pub proof fn lemma_set(entries: Entries, key: Seq<u8>, value: Seq<u8>)
    requires
        distinct_keys(entries),
    ensures
        distinct_keys(spec_set(entries, key, value)),
        spec_lookup(spec_set(entries, key, value), key) == Some(value),
        forall|other: Seq<u8>|
            other != key ==> spec_lookup(spec_set(entries, key, value), other) == spec_lookup(
                entries,
                other,
            ),
{
    let after = spec_set(entries, key, value);
    lemma_position_exists(entries, key);
    let p = position(entries, key);
    assert(after.len() > p);
    assert(after[p] == (key, value));
    assert forall|j: int| 0 <= j < after.len() && j != p implies #[trigger] after[j]
        == entries[j] by {}
    assert forall|j: int| 0 <= j < p implies (#[trigger] after[j]).0 != key by {
        assert(after[j] == entries[j]);
    }
    assert(is_position(after, key, p));
    lemma_position_unique(after, key, p);
    assert forall|i: int, j: int| 0 <= i < j < after.len() implies (#[trigger] after[i]).0 != (
    #[trigger] after[j]).0 by {
        if i != p && j != p {
            assert(after[i] == entries[i] && after[j] == entries[j]);
        } else if p < entries.len() {
            if i == p {
                assert(after[j] == entries[j]);
                assert(entries[i].0 == key);
            } else {
                assert(after[i] == entries[i]);
                assert(entries[j].0 == key);
            }
        } else {
            assert(after[i] == entries[i]);
        }
    }
    assert forall|other: Seq<u8>| other != key implies spec_lookup(after, other) == spec_lookup(
        entries,
        other,
    ) by {
        lemma_position_exists(entries, other);
        let q = position(entries, other);
        if q < entries.len() {
            assert(q != p);
            assert(after[q] == entries[q]);
            assert forall|j: int| 0 <= j < q implies (#[trigger] after[j]).0 != other by {
                if j != p {
                    assert(after[j] == entries[j]);
                }
            }
            assert(is_position(after, other, q));
            lemma_position_unique(after, other, q);
        } else {
            assert forall|j: int| 0 <= j < after.len() implies (#[trigger] after[j]).0
                != other by {
                if j != p {
                    assert(after[j] == entries[j]);
                }
            }
            assert(is_position(after, other, after.len() as int));
            lemma_position_unique(after, other, after.len() as int);
        }
    }
}

/// Setting a key to a value keeps a list of text a list of text, where
/// key and value are text themselves.
pub proof fn lemma_set_text(entries: Entries, key: Seq<u8>, value: Seq<u8>)
    requires
        all_text(entries),
        valid_utf8(key),
        valid_utf8(value),
    ensures
        all_text(spec_set(entries, key, value)),
{
    let after = spec_set(entries, key, value);
    lemma_position_exists(entries, key);
    let p = position(entries, key);
    assert forall|i: int| 0 <= i < after.len() implies valid_utf8((#[trigger] after[i]).0)
        && valid_utf8(after[i].1) by {
        if i != p {
            assert(after[i] == entries[i]);
        }
    }
}

/// One option: a name and its value.
#[derive(Debug)]
pub struct OptionEntry {
    pub key: Vec<u8>,
    pub value: Vec<u8>,
}

/// An ordered list of options with distinct keys.
#[derive(Debug)]
pub struct Options {
    entries: Vec<OptionEntry>,
}

impl View for Options {
    type V = Entries;

    closed spec fn view(&self) -> Entries {
        Seq::new(self.entries@.len(), |i: int| (self.entries@[i].key@, self.entries@[i].value@))
    }
}

impl Options {
    /// The list is well formed: no key occurs twice.
    pub open spec fn wf(&self) -> bool {
        distinct_keys(self@)
    }

    /// The empty list.
    pub fn new() -> (r: Options)
        ensures
            r@ == Entries::empty(),
            r.wf(),
    {
        let r = Options { entries: Vec::new() };
        assert(r@ =~= Entries::empty());
        r
    }

    /// The number of options.
    pub fn len(&self) -> (n: usize)
        ensures
            n == self@.len(),
    {
        self.entries.len()
    }

    /// The name of the option at position `i`.
    pub fn key_at(&self, i: usize) -> (k: &Vec<u8>)
        requires
            i < self@.len(),
        ensures
            k@ == self@[i as int].0,
    {
        &self.entries[i].key
    }

    /// The value of the option at position `i`.
    pub fn value_at(&self, i: usize) -> (v: &Vec<u8>)
        requires
            i < self@.len(),
        ensures
            v@ == self@[i as int].1,
    {
        &self.entries[i].value
    }

    /// The position of the option named `key`, or the number of options
    /// when there is none.
    pub fn find(&self, key: &[u8]) -> (i: usize)
        ensures
            i == position(self@, key@),
            is_position(self@, key@, i as int),
    {
        let mut i: usize = 0;
        while i < self.entries.len()
            invariant
                i <= self.entries@.len(),
                self@.len() == self.entries@.len(),
                forall|j: int| 0 <= j < i ==> (#[trigger] self@[j]).0 != key@,
            decreases self.entries@.len() - i,
        {
            if same_bytes(self.entries[i].key.as_slice(), key) {
                proof {
                    lemma_position_unique(self@, key@, i as int);
                }
                return i;
            }
            i += 1;
        }
        proof {
            lemma_position_unique(self@, key@, i as int);
        }
        i
    }

    /// The value of the option named `key`, if there is one.
    pub fn get(&self, key: &[u8]) -> (r: Option<&Vec<u8>>)
        ensures
            r is Some <==> spec_lookup(self@, key@) is Some,
            r is Some ==> r.unwrap()@ == spec_lookup(self@, key@).unwrap(),
    {
        let i = self.find(key);
        if i < self.entries.len() {
            Some(&self.entries[i].value)
        } else {
            None
        }
    }

    /// Gives `key` the value `value`.  A key that is present keeps its
    /// place and loses its earlier value; a new key goes to the end.
    pub fn set(&mut self, key: Vec<u8>, value: Vec<u8>)
        requires
            old(self).wf(),
        ensures
            final(self)@ == spec_set(old(self)@, key@, value@),
            final(self).wf(),
            spec_lookup(final(self)@, key@) == Some(value@),
            forall|other: Seq<u8>|
                other != key@ ==> spec_lookup(final(self)@, other) == spec_lookup(
                    old(self)@,
                    other,
                ),
    {
        let i = self.find(key.as_slice());
        let ghost k = key@;
        let ghost v = value@;
        let ghost before = self@;
        if i < self.entries.len() {
            self.entries.set(i, OptionEntry { key, value });
        } else {
            self.entries.push(OptionEntry { key, value });
        }
        proof {
            assert(self@ =~= spec_set(before, k, v));
            lemma_set(before, k, v);
        }
    }

    /// Sets every option of `extra` in turn, so that where both lists name
    /// a key the value from `extra` stands.
    pub fn set_all(&mut self, extra: &Options)
        requires
            old(self).wf(),
        ensures
            final(self)@ == spec_set_all(old(self)@, extra@, extra@.len() as int),
            final(self).wf(),
    {
        let mut n: usize = 0;
        while n < extra.len()
            invariant
                n <= extra@.len(),
                self.wf(),
                self@ == spec_set_all(old(self)@, extra@, n as int),
            decreases extra@.len() - n,
        {
            let key = extra.key_at(n).clone();
            let value = extra.value_at(n).clone();
            self.set(key, value);
            n += 1;
        }
    }

    /// A copy of the list.
    pub fn duplicate(&self) -> (r: Options)
        ensures
            r@ == self@,
    {
        let mut entries: Vec<OptionEntry> = Vec::new();
        let mut n: usize = 0;
        while n < self.entries.len()
            invariant
                n <= self.entries@.len(),
                entries@.len() == n,
                forall|j: int|
                    0 <= j < n ==> (#[trigger] entries@[j]).key@ == self.entries@[j].key@
                        && entries@[j].value@ == self.entries@[j].value@,
            decreases self.entries@.len() - n,
        {
            let key = self.entries[n].key.clone();
            let value = self.entries[n].value.clone();
            entries.push(OptionEntry { key, value });
            n += 1;
        }
        let r = Options { entries };
        assert(r@ =~= self@);
        r
    }
}

} // verus!
