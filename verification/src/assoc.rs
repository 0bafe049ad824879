//! Association lists of string-keyed entries, abstracted as a `Map` from
//! the key's character sequence to a view of the entry. Both the cache's
//! entry table and the persistence backend are built on this shape; the
//! lemmas here relate pushes and removals on the list to `insert` and
//! `remove` on the abstract map.

use vstd::map::*;
use vstd::prelude::*;

verus! {

/// Some entry of `s` carries the key `k`.
pub open spec fn has_key<T>(s: Seq<(String, T)>, k: Seq<char>) -> bool {
    exists|i: int| 0 <= i < s.len() && #[trigger] s[i].0@ == k
}

/// The index of the entry carrying key `k` (unique when keys are unique).
pub open spec fn key_index<T>(s: Seq<(String, T)>, k: Seq<char>) -> int {
    choose|i: int| 0 <= i < s.len() && #[trigger] s[i].0@ == k
}

/// No two entries of `s` carry the same key.
pub open spec fn keys_unique<T>(s: Seq<(String, T)>) -> bool {
    forall|i: int, j: int| 0 <= i < j < s.len() ==> #[trigger] s[i].0@ != #[trigger] s[j].0@
}

/// The abstract map that an association list stands for, each entry's
/// value abstracted to its view.
pub open spec fn assoc_map<T: View>(s: Seq<(String, T)>) -> Map<Seq<char>, T::V> {
    Map::new(|k: Seq<char>| has_key(s, k), |k: Seq<char>| s[key_index(s, k)].1@)
}

/// With unique keys, the entry carrying `k` is the only one, so
/// `key_index` lands on it.
pub proof fn lemma_key_index<T>(s: Seq<(String, T)>, k: Seq<char>, i: int)
    requires
        keys_unique(s),
        0 <= i < s.len(),
        s[i].0@ == k,
    ensures
        has_key(s, k),
        key_index(s, k) == i,
{
    assert(has_key(s, k));
    let j = key_index(s, k);
    if j < i {
        assert(s[j].0@ != s[i].0@);
    } else if i < j {
        assert(s[i].0@ != s[j].0@);
    }
}

/// The empty list stands for the empty map.
pub proof fn lemma_amap_empty<T: View>()
    ensures
        assoc_map(Seq::<(String, T)>::empty()) == Map::<Seq<char>, T::V>::empty(),
{
    assert(assoc_map(Seq::<(String, T)>::empty()) =~= Map::<Seq<char>, T::V>::empty());
}

/// Pushing an entry with a fresh key is `insert` on the abstract map.
pub proof fn lemma_amap_push<T: View>(s: Seq<(String, T)>, ks: String, v: T)
    requires
        keys_unique(s),
        !has_key(s, ks@),
    ensures
        keys_unique(s.push((ks, v))),
        assoc_map(s.push((ks, v))) == assoc_map(s).insert(ks@, v@),
{
    let s2 = s.push((ks, v));
    assert forall|i: int, j: int| 0 <= i < j < s2.len() implies #[trigger] s2[i].0@ != #[trigger] s2[j].0@ by {
        if j == s.len() {
            assert(s2[i] == s[i]);
            assert(s2[j] == (ks, v));
            if s[i].0@ == ks@ {
                assert(has_key(s, ks@));
            }
        } else {
            assert(s2[i] == s[i]);
            assert(s2[j] == s[j]);
        }
    }
    let m1 = assoc_map(s2);
    let m2 = assoc_map(s).insert(ks@, v@);
    assert forall|k: Seq<char>| #[trigger] m1.contains_key(k) <==> m2.contains_key(k) by {
        if k == ks@ {
            assert(s2[s.len() as int].0@ == k);
            assert(has_key(s2, k));
        } else {
            if has_key(s, k) {
                let i = key_index(s, k);
                assert(s2[i] == s[i]);
                assert(has_key(s2, k));
            }
            if has_key(s2, k) {
                let i = key_index(s2, k);
                if i == s.len() {
                    assert(s2[i].0@ == ks@);
                } else {
                    assert(s2[i] == s[i]);
                    assert(has_key(s, k));
                }
            }
        }
    }
    assert forall|k: Seq<char>| m1.contains_key(k) implies m1[k] == m2[k] by {
        if k == ks@ {
            assert(s2[s.len() as int].0@ == k);
            lemma_key_index(s2, k, s.len() as int);
            assert(m1[k] == v@);
        } else {
            assert(m2.contains_key(k));
            assert(has_key(s, k));
            let i = key_index(s, k);
            assert(s2[i] == s[i]);
            lemma_key_index(s2, k, i);
            lemma_key_index(s, k, i);
        }
    }
    assert(m1 =~= m2);
}

/// Removing the entry at index `i` is `remove` of its key on the
/// abstract map.
pub proof fn lemma_amap_remove<T: View>(s: Seq<(String, T)>, i: int)
    requires
        keys_unique(s),
        0 <= i < s.len(),
    ensures
        keys_unique(s.remove(i)),
        assoc_map(s.remove(i)) == assoc_map(s).remove(s[i].0@),
{
    let s2 = s.remove(i);
    assert forall|a: int, b: int| 0 <= a < b < s2.len() implies #[trigger] s2[a].0@ != #[trigger] s2[b].0@ by {
        let a0: int = if a < i { a } else { a + 1 };
        let b0: int = if b < i { b } else { b + 1 };
        assert(s2[a] == s[a0]);
        assert(s2[b] == s[b0]);
    }
    let m1 = assoc_map(s2);
    let m2 = assoc_map(s).remove(s[i].0@);
    assert forall|k: Seq<char>| #[trigger] m1.contains_key(k) <==> m2.contains_key(k) by {
        if k == s[i].0@ {
            if has_key(s2, k) {
                let a = key_index(s2, k);
                let a0: int = if a < i { a } else { a + 1 };
                assert(s2[a] == s[a0]);
                assert(s[a0].0@ == s[i].0@);
                if a0 < i {
                    assert(s[a0].0@ != s[i].0@);
                } else {
                    assert(s[i].0@ != s[a0].0@);
                }
            }
        } else {
            if has_key(s, k) {
                let a = key_index(s, k);
                let a2: int = if a < i { a } else { a - 1 };
                assert(a != i);
                assert(s2[a2] == s[a]);
                assert(has_key(s2, k));
            }
            if has_key(s2, k) {
                let a = key_index(s2, k);
                let a0: int = if a < i { a } else { a + 1 };
                assert(s2[a] == s[a0]);
                assert(has_key(s, k));
            }
        }
    }
    assert forall|k: Seq<char>| m1.contains_key(k) implies m1[k] == m2[k] by {
        assert(m2.contains_key(k));
        assert(has_key(s, k));
        let a = key_index(s, k);
        let a2: int = if a < i { a } else { a - 1 };
        assert(a != i);
        assert(s2[a2] == s[a]);
        lemma_key_index(s2, k, a2);
        lemma_key_index(s, k, a);
    }
    assert(m1 =~= m2);
}

} // verus!
