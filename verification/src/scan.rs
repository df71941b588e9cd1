//! Searching and comparing byte strings.

use vstd::prelude::*;

verus! {

/// `i` is the position of the first `b` in `s`, or the length of `s` when
/// `s` holds no `b`.
pub open spec fn is_first_index(s: Seq<u8>, b: u8, i: int) -> bool {
    &&& 0 <= i <= s.len()
    &&& forall|j: int| 0 <= j < i ==> s[j] != b
    &&& i < s.len() ==> s[i] == b
}

/// The position of the first `b` in `s`, or `s.len()` when there is none.
pub open spec fn first_index(s: Seq<u8>, b: u8) -> int {
    choose|i: int| is_first_index(s, b, i)
}

/// `first_index` is determined by `is_first_index`: any position that
/// satisfies the predicate is the one that `first_index` names.
pub proof fn lemma_first_index_unique(s: Seq<u8>, b: u8, i: int)
    requires
        is_first_index(s, b, i),
    ensures
        first_index(s, b) == i,
{
    let c = first_index(s, b);
    assert(is_first_index(s, b, c));
    if c < i {
        assert(s[c] == b);
    } else if i < c {
        assert(s[i] == b);
    }
}

/// Every byte string has a first index for every byte.
pub proof fn lemma_first_index_exists(s: Seq<u8>, b: u8)
    ensures
        is_first_index(s, b, first_index(s, b)),
    decreases s.len(),
{
    if s.len() == 0 {
        assert(is_first_index(s, b, 0));
    } else {
        let t = s.drop_last();
        lemma_first_index_exists(t, b);
        let c = first_index(t, b);
        if c < t.len() {
            assert(s[c] == t[c]);
            assert forall|j: int| 0 <= j < c implies s[j] != b by {
                assert(s[j] == t[j]);
            }
            assert(is_first_index(s, b, c));
        } else if s[t.len() as int] == b {
            assert forall|j: int| 0 <= j < t.len() implies s[j] != b by {
                assert(s[j] == t[j]);
            }
            assert(is_first_index(s, b, t.len() as int));
        } else {
            assert forall|j: int| 0 <= j < s.len() implies s[j] != b by {
                if j < t.len() {
                    assert(s[j] == t[j]);
                }
            }
            assert(is_first_index(s, b, s.len() as int));
        }
    }
}

/// The part of `s` before its first `b`: all of `s` when it holds no `b`.
pub open spec fn before_first(s: Seq<u8>, b: u8) -> Seq<u8> {
    s.subrange(0, first_index(s, b))
}

/// The part of `s` after its first `b`: empty when it holds no `b`.
pub open spec fn after_first(s: Seq<u8>, b: u8) -> Seq<u8> {
    let i = first_index(s, b);
    if i < s.len() {
        s.subrange(i + 1, s.len() as int)
    } else {
        Seq::empty()
    }
}

/// A list of byte strings as a sequence of sequences.
pub open spec fn rows(v: Seq<Vec<u8>>) -> Seq<Seq<u8>> {
    Seq::new(v.len(), |i: int| v[i]@)
}

/// `s` begins with `prefix`.
pub open spec fn has_prefix(s: Seq<u8>, prefix: Seq<u8>) -> bool {
    prefix.len() <= s.len() && s.subrange(0, prefix.len() as int) == prefix
}

/// Finds the first `b` in `s`.
pub fn find(s: &[u8], b: u8) -> (i: usize)
    ensures
        i == first_index(s@, b),
        is_first_index(s@, b, i as int),
{
    let mut i: usize = 0;
    while i < s.len() && s[i] != b
        invariant
            i <= s.len(),
            forall|j: int| 0 <= j < i ==> s@[j] != b,
        decreases s.len() - i,
    {
        i += 1;
    }
    proof {
        lemma_first_index_unique(s@, b, i as int);
    }
    i
}

/// Tells whether two byte strings are equal.
pub fn same_bytes(a: &[u8], b: &[u8]) -> (r: bool)
    ensures
        r == (a@ == b@),
{
    if a.len() != b.len() {
        return false;
    }
    let mut i: usize = 0;
    while i < a.len()
        invariant
            i <= a.len(),
            a.len() == b.len(),
            forall|j: int| 0 <= j < i ==> a@[j] == b@[j],
        decreases a.len() - i,
    {
        if a[i] != b[i] {
            return false;
        }
        i += 1;
    }
    assert(a@ =~= b@);
    true
}

/// Tells whether `s` begins with `prefix`.
pub fn starts_with(s: &[u8], prefix: &[u8]) -> (r: bool)
    ensures
        r == has_prefix(s@, prefix@),
{
    if prefix.len() > s.len() {
        return false;
    }
    let head = vstd::slice::slice_subrange(s, 0, prefix.len());
    same_bytes(head, prefix)
}

/// Cuts `s` at its first `b`, which belongs to neither part.
pub fn split_first<'a>(s: &'a [u8], b: u8) -> (r: (&'a [u8], &'a [u8]))
    ensures
        r.0@ == before_first(s@, b),
        r.1@ == after_first(s@, b),
        s@.len() > 0 ==> r.1@.len() < s@.len(),
{
    let i = find(s, b);
    let head = vstd::slice::slice_subrange(s, 0, i);
    if i < s.len() {
        let tail = vstd::slice::slice_subrange(s, i + 1, s.len());
        (head, tail)
    } else {
        let tail = vstd::slice::slice_subrange(s, i, i);
        assert(tail@ =~= Seq::<u8>::empty());
        (head, tail)
    }
}

/// Copies a byte string into a vector of its own.
pub fn to_vec(s: &[u8]) -> (v: Vec<u8>)
    ensures
        v@ == s@,
{
    vstd::slice::slice_to_vec(s)
}

} // verus!
