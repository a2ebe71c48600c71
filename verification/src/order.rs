//! Lists kept in descending order of a key, built by insertion. An element goes
//! behind every element whose key is at least its own, so equal keys stay in
//! the order in which they came.

use vstd::prelude::*;
use vstd::seq_lib::*;

verus! {

/// A value that is ordered by an integer key.
pub trait Keyed: Copy {
    /// The key a value is ordered by.
    spec fn key(&self) -> int;

    /// Whether `self` has a strictly higher key than `other`.
    fn outranks(&self, other: &Self) -> (b: bool)
        ensures
            b == (self.key() > other.key()),
    ;
}

/// No element has a lower key than one that follows it.
pub open spec fn descending<T: Keyed>(s: Seq<T>) -> bool {
    forall|i: int, j: int| 0 <= i < j < s.len() ==> s[i].key() >= s[j].key()
}

/// Where `e` goes in `s`: the number of leading elements whose key is at least
/// that of `e`.
pub open spec fn insert_point<T: Keyed>(s: Seq<T>, e: T) -> int
    decreases s.len(),
{
    if s.len() == 0 || e.key() > s[0].key() {
        0
    } else {
        1 + insert_point(s.drop_first(), e)
    }
}

/// `s` with `e` put in at its insert point.
pub open spec fn place<T: Keyed>(s: Seq<T>, e: T) -> Seq<T> {
    s.insert(insert_point(s, e), e)
}

/// The elements of `s` in descending order of their keys, equal keys in the
/// order they have in `s`.
pub open spec fn sort_desc<T: Keyed>(s: Seq<T>) -> Seq<T>
    decreases s.len(),
{
    if s.len() == 0 {
        s
    } else {
        place(sort_desc(s.drop_last()), s.last())
    }
}

/// The insert point lies inside the list, behind keys that are at least the
/// new one and in front of a strictly lower key.
pub proof fn lemma_insert_point<T: Keyed>(s: Seq<T>, e: T)
    ensures
        0 <= insert_point(s, e) <= s.len(),
        forall|j: int| 0 <= j < insert_point(s, e) ==> (#[trigger] s[j]).key() >= e.key(),
        insert_point(s, e) < s.len() ==> e.key() > s[insert_point(s, e)].key(),
    decreases s.len(),
{
    if s.len() == 0 || e.key() > s[0].key() {
    } else {
        let rest = s.drop_first();
        lemma_insert_point(rest, e);
        let p = insert_point(rest, e);
        assert forall|j: int| 0 <= j < p + 1 implies (#[trigger] s[j]).key() >= e.key() by {
            if j > 0 {
                assert(s[j] == rest[j - 1]);
            }
        }
        if p + 1 < s.len() {
            assert(s[p + 1] == rest[p]);
        }
    }
}

/// The first position that holds a strictly lower key is the insert point.
pub proof fn lemma_insert_point_is<T: Keyed>(s: Seq<T>, e: T, i: int)
    requires
        0 <= i <= s.len(),
        forall|j: int| 0 <= j < i ==> (#[trigger] s[j]).key() >= e.key(),
        i < s.len() ==> e.key() > s[i].key(),
    ensures
        insert_point(s, e) == i,
    decreases s.len(),
{
    if s.len() == 0 || e.key() > s[0].key() {
        if i > 0 {
            assert(s[0].key() >= e.key());
        }
    } else {
        let rest = s.drop_first();
        assert(i > 0);
        assert forall|j: int| 0 <= j < i - 1 implies (#[trigger] rest[j]).key() >= e.key() by {
            assert(rest[j] == s[j + 1]);
        }
        if i - 1 < rest.len() {
            assert(rest[i - 1] == s[i]);
        }
        lemma_insert_point_is(rest, e, i - 1);
    }
}

/// Placing an element keeps a descending list descending and adds that
/// element, and nothing else, to what the list holds.
pub proof fn lemma_place<T: Keyed>(s: Seq<T>, e: T)
    ensures
        place(s, e).len() == s.len() + 1,
        place(s, e).to_multiset() == s.to_multiset().insert(e),
        place(s, e)[insert_point(s, e)] == e,
        descending(s) ==> descending(place(s, e)),
{
    lemma_insert_point(s, e);
    let p = insert_point(s, e);
    let t = place(s, e);
    to_multiset_insert(s, p, e);
    if descending(s) {
        assert forall|i: int, j: int| 0 <= i < j < t.len() implies t[i].key() >= t[j].key() by {
            if j < p {
                assert(t[i] == s[i] && t[j] == s[j]);
            } else if j == p {
                assert(t[i] == s[i]);
            } else if i < p {
                assert(t[i] == s[i] && t[j] == s[j - 1]);
                assert(s[i].key() >= e.key());
                assert(s[p].key() >= s[j - 1].key() || p == j - 1);
            } else if i == p {
                assert(t[j] == s[j - 1]);
                assert(s[p].key() >= s[j - 1].key() || p == j - 1);
            } else {
                assert(t[i] == s[i - 1] && t[j] == s[j - 1]);
            }
        }
    }
}

/// Sorting gives a descending list that holds what the input holds.
pub proof fn lemma_sort_desc<T: Keyed>(s: Seq<T>)
    ensures
        descending(sort_desc(s)),
        sort_desc(s).len() == s.len(),
        sort_desc(s).to_multiset() == s.to_multiset(),
    decreases s.len(),
{
    if s.len() == 0 {
    } else {
        let init = s.drop_last();
        lemma_sort_desc(init);
        lemma_place(sort_desc(init), s.last());
        to_multiset_build(init, s.last());
        assert(init.push(s.last()) =~= s);
    }
}

/// Sorting neither adds an element nor loses one.
pub proof fn lemma_sort_desc_contains<T: Keyed>(s: Seq<T>, e: T)
    ensures
        sort_desc(s).contains(e) <==> s.contains(e),
{
    lemma_sort_desc(s);
    to_multiset_contains(s, e);
    to_multiset_contains(sort_desc(s), e);
}

/// Sorting a list that was extended by one element places that element in the
/// sorted list.
pub proof fn lemma_sort_desc_push<T: Keyed>(s: Seq<T>, e: T)
    ensures
        sort_desc(s.push(e)) == place(sort_desc(s), e),
{
    assert(s.push(e).drop_last() =~= s);
}

/// Puts `e` into a list at its insert point.
pub fn place_in<T: Keyed>(list: &mut Vec<T>, e: T)
    ensures
        final(list)@ == place(old(list)@, e),
        final(list)@.len() == old(list)@.len() + 1,
        final(list)@.to_multiset() == old(list)@.to_multiset().insert(e),
        descending(old(list)@) ==> descending(final(list)@),
{
    proof {
        lemma_place(list@, e);
    }
    let mut i: usize = 0;
    while i < list.len() && !e.outranks(&list[i])
        invariant
            0 <= i <= list.len(),
            forall|j: int| 0 <= j < i ==> (#[trigger] list@[j]).key() >= e.key(),
        decreases list.len() - i,
    {
        i = i + 1;
    }
    proof {
        lemma_insert_point_is(list@, e, i as int);
    }
    list.insert(i, e);
}

/// The elements of `list` in descending order of their keys, equal keys in the
/// order they have in `list`.
pub fn sorted_descending<T: Keyed>(list: &Vec<T>) -> (r: Vec<T>)
    ensures
        r@ == sort_desc(list@),
        descending(r@),
        r@.len() == list@.len(),
        r@.to_multiset() == list@.to_multiset(),
{
    proof {
        lemma_sort_desc(list@);
    }
    let mut out: Vec<T> = Vec::new();
    let mut i: usize = 0;
    while i < list.len()
        invariant
            0 <= i <= list.len(),
            out@ == sort_desc(list@.take(i as int)),
        decreases list.len() - i,
    {
        proof {
            lemma_sort_desc_push(list@.take(i as int), list@[i as int]);
            assert(list@.take(i as int).push(list@[i as int]) =~= list@.take(i as int + 1));
        }
        place_in(&mut out, list[i]);
        i = i + 1;
    }
    proof {
        assert(list@.take(i as int) =~= list@);
    }
    out
}

} // verus!
