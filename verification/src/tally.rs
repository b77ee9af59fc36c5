//! Counting how often each key occurs in a sequence, with the keys kept in
//! the order in which they were first seen.

use vstd::prelude::*;

verus! {

/// How many times `k` occurs in `keys`.
pub open spec fn occurrences<K>(keys: Seq<K>, k: K) -> nat
    decreases keys.len(),
{
    if keys.len() == 0 {
        0
    } else {
        occurrences(keys.drop_last(), k) + if keys.last() == k {
            1nat
        } else {
            0nat
        }
    }
}

/// The values that occur in `keys`, each once, in the order of their first
/// occurrences.
pub open spec fn distinct<K>(keys: Seq<K>) -> Seq<K>
    decreases keys.len(),
{
    if keys.len() == 0 {
        Seq::empty()
    } else if distinct(keys.drop_last()).contains(keys.last()) {
        distinct(keys.drop_last())
    } else {
        distinct(keys.drop_last()).push(keys.last())
    }
}

/// Each value that occurs in `keys` with the number of its occurrences, in
/// the order of the first occurrences.
pub open spec fn tally<K>(keys: Seq<K>) -> Seq<(K, nat)> {
    Seq::new(distinct(keys).len(), |i: int| (distinct(keys)[i], occurrences(keys, distinct(keys)[i])))
}

/// Whether `k` has the greatest count in the tally `t` and stands before
/// every other key that has the same count.
pub open spec fn leads<K>(t: Seq<(K, nat)>, k: K) -> bool {
    exists|j: int| #[trigger] is_leader(t, j) && t[j].0 == k
}

/// Whether the entry at `j` has the greatest count in `t`, and a greater one
/// than every entry before it.
pub open spec fn is_leader<K>(t: Seq<(K, nat)>, j: int) -> bool {
    &&& 0 <= j < t.len()
    &&& forall|i: int| 0 <= i < t.len() ==> (#[trigger] t[i]).1 <= t[j].1
    &&& forall|i: int| 0 <= i < j ==> (#[trigger] t[i]).1 < t[j].1
}

/// One more key at the end adds one occurrence of that key and none of any
/// other.
pub proof fn lemma_occurrences_push<K>(keys: Seq<K>, last: K, k: K)
    ensures
        occurrences(keys.push(last), k) == occurrences(keys, k) + if last == k {
            1nat
        } else {
            0nat
        },
{
    assert(keys.push(last).drop_last() =~= keys);
}

/// One more key at the end is listed last if it is new, and not again if it
/// was listed.
pub proof fn lemma_distinct_push<K>(keys: Seq<K>, last: K)
    ensures
        distinct(keys.push(last)) == if distinct(keys).contains(last) {
            distinct(keys)
        } else {
            distinct(keys).push(last)
        },
{
    assert(keys.push(last).drop_last() =~= keys);
}

/// No key occurs more often than the sequence is long.
pub proof fn lemma_occurrences_bound<K>(keys: Seq<K>, k: K)
    ensures
        occurrences(keys, k) <= keys.len(),
    decreases keys.len(),
{
    if keys.len() > 0 {
        lemma_occurrences_bound(keys.drop_last(), k);
    }
}

/// A key that is the only one in the sequence occurs as often as the
/// sequence is long.
pub proof fn lemma_occurrences_of_only_key<K>(keys: Seq<K>, k: K)
    requires
        forall|i: int| 0 <= i < keys.len() ==> keys[i] == k,
    ensures
        occurrences(keys, k) == keys.len(),
    decreases keys.len(),
{
    if keys.len() > 0 {
        lemma_occurrences_of_only_key(keys.drop_last(), k);
    }
}

/// The keys that are listed are the keys that occur.
pub proof fn lemma_distinct_members<K>(keys: Seq<K>, k: K)
    ensures
        distinct(keys).contains(k) <==> occurrences(keys, k) > 0,
        keys.contains(k) <==> occurrences(keys, k) > 0,
    decreases keys.len(),
{
    if keys.len() > 0 {
        let init = keys.drop_last();
        let last = keys.last();
        lemma_distinct_members(init, k);
        if last == k {
            if !distinct(init).contains(last) {
                assert(distinct(keys)[distinct(init).len() as int] == k);
            }
        } else {
            if distinct(init).contains(k) {
                let j = choose|j: int| 0 <= j < distinct(init).len() && distinct(init)[j] == k;
                assert(distinct(keys)[j] == k);
            }
            if keys.contains(k) {
                let j = choose|j: int| 0 <= j < keys.len() && keys[j] == k;
                assert(init[j] == k);
            }
        }
    }
}

/// No key is listed twice.
pub proof fn lemma_distinct_no_duplicates<K>(keys: Seq<K>)
    ensures
        distinct(keys).no_duplicates(),
    decreases keys.len(),
{
    if keys.len() > 0 {
        lemma_distinct_no_duplicates(keys.drop_last());
    }
}

/// A tally is a map written as a list: no key stands in it twice, and every
/// count in it is at least one.
pub proof fn lemma_tally_is_a_map<K>(keys: Seq<K>)
    ensures
        tally(keys).len() == distinct(keys).len(),
        forall|i: int, j: int|
            0 <= i < j < tally(keys).len() ==> (#[trigger] tally(keys)[i]).0 != (
            #[trigger] tally(keys)[j]).0,
        forall|i: int| 0 <= i < tally(keys).len() ==> (#[trigger] tally(keys)[i]).1 >= 1,
{
    let listed = distinct(keys);
    let t = tally(keys);
    lemma_distinct_no_duplicates(keys);
    assert forall|i: int, j: int| 0 <= i < j < t.len() implies (#[trigger] t[i]).0 != (
    #[trigger] t[j]).0 by {
        assert(t[i].0 == listed[i]);
        assert(t[j].0 == listed[j]);
        assert(listed[i] != listed[j]);
    }
    assert forall|i: int| 0 <= i < t.len() implies (#[trigger] t[i]).1 >= 1 by {
        assert(t[i].1 == occurrences(keys, listed[i]));
        assert(listed.contains(listed[i]));
        lemma_distinct_members(keys, listed[i]);
    }
}

/// What one more key does to the tally: a key that was listed has its count
/// raised by one where it stands, and a new key is added at the end with a
/// count of one.
pub proof fn lemma_tally_push<K>(keys: Seq<K>, k: K)
    ensures
        distinct(keys).contains(k) ==> tally(keys.push(k)).len() == tally(keys).len()
            && forall|i: int|
            0 <= i < tally(keys).len() ==> #[trigger] tally(keys.push(k))[i] == if tally(keys)[i].0
                == k {
                (k, tally(keys)[i].1 + 1)
            } else {
                tally(keys)[i]
            },
        !distinct(keys).contains(k) ==> tally(keys.push(k)) == tally(keys).push((k, 1nat)),
{
    lemma_distinct_push(keys, k);
    lemma_distinct_members(keys, k);
    assert forall|i: int| 0 <= i < distinct(keys).len() implies occurrences(
        keys.push(k),
        #[trigger] distinct(keys)[i],
    ) == occurrences(keys, distinct(keys)[i]) + if distinct(keys)[i] == k {
        1nat
    } else {
        0nat
    } by {
        lemma_occurrences_push(keys, k, distinct(keys)[i]);
    }
    lemma_occurrences_push(keys, k, k);
}

/// The key that leads a tally occurs at least as often as any other.
pub proof fn lemma_leader_occurs_most<K>(keys: Seq<K>, k: K, other: K)
    requires
        leads(tally(keys), k),
    ensures
        keys.contains(k),
        occurrences(keys, other) <= occurrences(keys, k),
{
    let t = tally(keys);
    let j = choose|j: int| #[trigger] is_leader(t, j) && t[j].0 == k;
    lemma_distinct_members(keys, k);
    lemma_distinct_members(keys, other);
    if occurrences(keys, other) > 0 {
        let i = choose|i: int| 0 <= i < distinct(keys).len() && distinct(keys)[i] == other;
        assert(t[i].1 <= t[j].1);
    }
}

/// The index of the entry that leads the counts in `v`: the first of those
/// with the greatest count.
pub fn leader<K>(v: &Vec<(K, usize)>) -> (r: Option<usize>)
    ensures
        match r {
            None => v@.len() == 0,
            Some(j) => {
                &&& j < v@.len()
                &&& forall|i: int| 0 <= i < v@.len() ==> (#[trigger] v@[i]).1 <= v@[j as int].1
                &&& forall|i: int| 0 <= i < j ==> (#[trigger] v@[i]).1 < v@[j as int].1
            },
        },
{
    if v.len() == 0 {
        return None;
    }
    let mut best: usize = 0;
    let mut i: usize = 1;
    while i < v.len()
        invariant
            best < i <= v.len(),
            forall|h: int| 0 <= h < i ==> (#[trigger] v@[h]).1 <= v@[best as int].1,
            forall|h: int| 0 <= h < best ==> (#[trigger] v@[h]).1 < v@[best as int].1,
        decreases v.len() - i,
    {
        if v[i].1 > v[best].1 {
            best = i;
        }
        i += 1;
    }
    Some(best)
}

} // verus!
