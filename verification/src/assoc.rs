//! Association lists with string keys, and their mathematical contents.
//!
//! Both the dirty-file tracker and the environment table hold their entries as
//! a vector of key/value pairs with pairwise-distinct keys; their contracts
//! speak of the finite map those entries denote.

use vstd::prelude::*;

verus! {

/// The finite map denoted by an association list; a later entry for the same
/// key would win, but well-formed lists have distinct keys.
pub open spec fn assoc_map<T>(s: Seq<(String, T)>) -> Map<Seq<char>, T>
    decreases s.len(),
{
    if s.len() == 0 {
        Map::empty()
    } else {
        assoc_map(s.drop_last()).insert(s.last().0@, s.last().1)
    }
}

/// No two entries share a key.
pub open spec fn keys_unique<T>(s: Seq<(String, T)>) -> bool {
    forall|i: int, j: int| 0 <= i < j < s.len() ==> s[i].0@ != s[j].0@
}

/// On a list with distinct keys, the denoted map has exactly the listed keys,
/// each bound to its listed value.
pub proof fn lemma_assoc_map_props<T>(s: Seq<(String, T)>)
    requires
        keys_unique(s),
    ensures
        forall|k: Seq<char>|
            #[trigger] assoc_map(s).contains_key(k) <==> exists|i: int|
                0 <= i < s.len() && s[i].0@ == k,
        forall|i: int|
            0 <= i < s.len() ==> assoc_map(s).contains_key(#[trigger] s[i].0@) && assoc_map(s)[s[i].0@]
                == s[i].1,
    decreases s.len(),
{
    if s.len() > 0 {
        let t = s.drop_last();
        assert(keys_unique(t)) by {
            assert(forall|i: int, j: int|
                0 <= i < j < t.len() ==> t[i].0@ != t[j].0@) by {
                assert(forall|i: int| 0 <= i < t.len() ==> t[i] == s[i]);
            }
        }
        lemma_assoc_map_props(t);
        assert(forall|i: int| 0 <= i < t.len() ==> t[i] == s[i]);
        assert forall|k: Seq<char>| #[trigger] assoc_map(s).contains_key(k) implies exists|i: int|
            0 <= i < s.len() && s[i].0@ == k by {
            if k == s.last().0@ {
                assert(s[s.len() - 1].0@ == k);
            } else {
                assert(assoc_map(t).contains_key(k));
                let i = choose|i: int| 0 <= i < t.len() && t[i].0@ == k;
                assert(s[i].0@ == k);
            }
        }
        assert forall|i: int| 0 <= i < s.len() implies assoc_map(s).contains_key(
            #[trigger] s[i].0@,
        ) && assoc_map(s)[s[i].0@] == s[i].1 by {
            if i == s.len() - 1 {
            } else {
                assert(t[i] == s[i]);
                assert(s[i].0@ != s.last().0@);
            }
        }
    }
}

/// Replacing the entry at `i`, whose key already is `key`, updates the map at
/// that key alone.
pub proof fn lemma_assoc_map_update<T>(s: Seq<(String, T)>, i: int, key: String, value: T)
    requires
        keys_unique(s),
        0 <= i < s.len(),
        s[i].0@ == key@,
    ensures
        assoc_map(s.update(i, (key, value))) == assoc_map(s).insert(key@, value),
        keys_unique(s.update(i, (key, value))),
    decreases s.len(),
{
    let s2 = s.update(i, (key, value));
    assert(keys_unique(s2)) by {
        assert(forall|a: int| 0 <= a < s.len() ==> s2[a].0@ == s[a].0@);
    }
    if i == s.len() - 1 {
        assert(s2.drop_last() =~= s.drop_last());
        assert(assoc_map(s2) == assoc_map(s.drop_last()).insert(key@, value));
        assert(assoc_map(s) == assoc_map(s.drop_last()).insert(s.last().0@, s.last().1));
        assert(assoc_map(s.drop_last()).insert(s.last().0@, s.last().1).insert(key@, value)
            =~= assoc_map(s.drop_last()).insert(key@, value));
    } else {
        let t = s.drop_last();
        assert(keys_unique(t)) by {
            assert(forall|a: int| 0 <= a < t.len() ==> t[a] == s[a]);
        }
        assert(t[i] == s[i]);
        lemma_assoc_map_update(t, i, key, value);
        assert(s2.drop_last() =~= t.update(i, (key, value)));
        assert(s2.last() == s.last());
        assert(key@ != s.last().0@);
        assert(assoc_map(s2) == assoc_map(t).insert(key@, value).insert(s.last().0@, s.last().1));
        assert(assoc_map(t).insert(key@, value).insert(s.last().0@, s.last().1) =~= assoc_map(
            t,
        ).insert(s.last().0@, s.last().1).insert(key@, value));
    }
}

/// Removing the entry at `i` removes exactly its key from the map.
pub proof fn lemma_assoc_map_remove<T>(s: Seq<(String, T)>, i: int)
    requires
        keys_unique(s),
        0 <= i < s.len(),
    ensures
        assoc_map(s.remove(i)) == assoc_map(s).remove(s[i].0@),
        keys_unique(s.remove(i)),
    decreases s.len(),
{
    let s2 = s.remove(i);
    assert(keys_unique(s2)) by {
        assert(forall|a: int|
            0 <= a < s2.len() ==> s2[a] == (if a < i {
                s[a]
            } else {
                s[a + 1]
            }));
    }
    if i == s.len() - 1 {
        assert(s2 =~= s.drop_last());
        lemma_assoc_map_props(s.drop_last());
        assert forall|k: Seq<char>| true implies #[trigger] assoc_map(s.drop_last()).contains_key(k)
            == assoc_map(s).remove(s[i].0@).contains_key(k) && (assoc_map(
            s.drop_last(),
        ).contains_key(k) ==> assoc_map(s.drop_last())[k] == assoc_map(s).remove(s[i].0@)[k]) by {
            if k == s[i].0@ {
                if assoc_map(s.drop_last()).contains_key(k) {
                    let j = choose|j: int| 0 <= j < s.drop_last().len() && s.drop_last()[j].0@ == k;
                    assert(s[j].0@ == s[i].0@);
                    assert(false);
                }
            }
        }
        assert(assoc_map(s2) =~= assoc_map(s).remove(s[i].0@));
    } else {
        let t = s.drop_last();
        assert(keys_unique(t)) by {
            assert(forall|a: int| 0 <= a < t.len() ==> t[a] == s[a]);
        }
        assert(t[i] == s[i]);
        lemma_assoc_map_remove(t, i);
        assert(s2.drop_last() =~= t.remove(i));
        assert(s2.last() == s.last());
        assert(s[i].0@ != s.last().0@);
        assert(assoc_map(s2) == assoc_map(t).remove(s[i].0@).insert(s.last().0@, s.last().1));
        assert(assoc_map(t).remove(s[i].0@).insert(s.last().0@, s.last().1) =~= assoc_map(
            t,
        ).insert(s.last().0@, s.last().1).remove(s[i].0@));
    }
}

} // verus!
