//! String-keyed association lists and their view as a mathematical map.
//!
//! The cache and the file store both hold their entries as a vector of
//! key/value pairs with pairwise-distinct keys; their contracts speak of the
//! `Map` those pairs denote. This module defines that denotation and proves
//! how each vector operation acts on it.

use vstd::prelude::*;

verus! {

/// Whether the keys of the pairs are pairwise distinct.
pub open spec fn unique_keys<V>(s: Seq<(String, V)>) -> bool {
    forall|i: int, j: int| 0 <= i < j < s.len() ==> s[i].0@ != s[j].0@
}

/// The map denoted by an association list; a later pair with the same key
/// shadows an earlier one.
pub open spec fn assoc_map<V: View>(s: Seq<(String, V)>) -> Map<Seq<char>, V::V>
    decreases s.len(),
{
    if s.len() == 0 {
        Map::empty()
    } else {
        assoc_map(s.drop_last()).insert(s.last().0@, s.last().1@)
    }
}

/// Every prefix of a list with distinct keys has distinct keys.
proof fn lemma_unique_drop_last<V>(s: Seq<(String, V)>)
    requires
        unique_keys(s),
        s.len() > 0,
    ensures
        unique_keys(s.drop_last()),
{
}

/// Under distinct keys, the denoted map sends each pair's key to its value.
pub proof fn lemma_assoc_map_index<V: View>(s: Seq<(String, V)>, i: int)
    requires
        unique_keys(s),
        0 <= i < s.len(),
    ensures
        assoc_map(s).contains_key(s[i].0@),
        assoc_map(s)[s[i].0@] == s[i].1@,
    decreases s.len(),
{
    if i < s.len() - 1 {
        lemma_unique_drop_last(s);
        lemma_assoc_map_index(s.drop_last(), i);
        assert(s.last().0@ != s[i].0@);
    }
}

/// A key held by no pair is absent from the denoted map.
pub proof fn lemma_assoc_map_absent<V: View>(s: Seq<(String, V)>, k: Seq<char>)
    requires
        forall|i: int| 0 <= i < s.len() ==> s[i].0@ != k,
    ensures
        !assoc_map(s).contains_key(k),
    decreases s.len(),
{
    if s.len() > 0 {
        lemma_assoc_map_absent(s.drop_last(), k);
    }
}

/// Appending a pair inserts its key into the denoted map.
pub proof fn lemma_assoc_map_push<V: View>(s: Seq<(String, V)>, k: String, v: V)
    ensures
        assoc_map(s.push((k, v))) == assoc_map(s).insert(k@, v@),
{
    assert(s.push((k, v)).drop_last() =~= s);
}

/// Replacing the value of the pair at `i` (key kept) updates that key in the
/// denoted map, and keeps the keys distinct.
pub proof fn lemma_assoc_map_update<V: View>(s: Seq<(String, V)>, i: int, v: V)
    requires
        unique_keys(s),
        0 <= i < s.len(),
    ensures
        assoc_map(s.update(i, (s[i].0, v))) == assoc_map(s).insert(s[i].0@, v@),
        unique_keys(s.update(i, (s[i].0, v))),
    decreases s.len(),
{
    let t = s.update(i, (s[i].0, v));
    assert(unique_keys(t));
    if i == s.len() - 1 {
        assert(t.drop_last() =~= s.drop_last());
        assert(assoc_map(s).insert(s[i].0@, v@) =~= assoc_map(s.drop_last()).insert(s[i].0@, v@));
    } else {
        lemma_unique_drop_last(s);
        assert(t.drop_last() =~= s.drop_last().update(i, (s[i].0, v)));
        lemma_assoc_map_update(s.drop_last(), i, v);
        assert(s.last().0@ != s[i].0@);
        assert(assoc_map(s.drop_last()).insert(s[i].0@, v@).insert(s.last().0@, s.last().1@)
            =~= assoc_map(s.drop_last()).insert(s.last().0@, s.last().1@).insert(s[i].0@, v@));
        assert(t.last() == s.last());
    }
}

/// Removing the pair at `i` removes its key from the denoted map, and keeps
/// the keys distinct.
pub proof fn lemma_assoc_map_remove<V: View>(s: Seq<(String, V)>, i: int)
    requires
        unique_keys(s),
        0 <= i < s.len(),
    ensures
        assoc_map(s.remove(i)) == assoc_map(s).remove(s[i].0@),
        unique_keys(s.remove(i)),
    decreases s.len(),
{
    let t = s.remove(i);
    assert(unique_keys(t));
    lemma_unique_drop_last(s);
    if i == s.len() - 1 {
        assert(t =~= s.drop_last());
        lemma_assoc_map_absent(s.drop_last(), s[i].0@);
        assert(assoc_map(s.drop_last()).insert(s[i].0@, s[i].1@).remove(s[i].0@) =~= assoc_map(
            s.drop_last(),
        ));
    } else {
        assert(t.drop_last() =~= s.drop_last().remove(i));
        lemma_assoc_map_remove(s.drop_last(), i);
        assert(s.last().0@ != s[i].0@);
        assert(assoc_map(s.drop_last()).remove(s[i].0@).insert(s.last().0@, s.last().1@)
            =~= assoc_map(s.drop_last()).insert(s.last().0@, s.last().1@).remove(s[i].0@));
        assert(t.last() == s.last());
    }
}

/// Under distinct keys, the denoted map has exactly one key per pair.
pub proof fn lemma_assoc_map_len<V: View>(s: Seq<(String, V)>)
    requires
        unique_keys(s),
    ensures
        assoc_map(s).dom().finite(),
        assoc_map(s).len() == s.len(),
    decreases s.len(),
{
    if s.len() > 0 {
        lemma_unique_drop_last(s);
        lemma_assoc_map_len(s.drop_last());
        lemma_assoc_map_absent(s.drop_last(), s.last().0@);
    }
}

/// The index of the pair holding `key`, if any pair holds it.
pub fn find_index<V>(entries: &Vec<(String, V)>, key: &String) -> (r: Option<usize>)
    ensures
        r matches Some(i) ==> i < entries@.len() && entries@[i as int].0@ == key@,
        r is None ==> forall|i: int| 0 <= i < entries@.len() ==> entries@[i].0@ != key@,
{
    let mut i: usize = 0;
    while i < entries.len()
        invariant
            i <= entries@.len(),
            forall|j: int| 0 <= j < i ==> entries@[j].0@ != key@,
        decreases entries@.len() - i,
    {
        if entries[i].0 == *key {
            return Some(i);
        }
        i = i + 1;
    }
    None
}

} // verus!
