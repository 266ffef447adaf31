//! Tables: lists of keys with values, in the order in which the keys first came.

use vstd::prelude::*;

verus! {

/// The first position of `key`.
pub open spec fn position<K, V>(s: Seq<(K, V)>, key: K) -> Option<int>
    decreases s.len(),
{
    if s.len() == 0 {
        None
    } else {
        match position(s.drop_last(), key) {
            Some(i) => Some(i),
            None => if s.last().0 == key {
                Some(s.len() - 1)
            } else {
                None
            },
        }
    }
}

/// The value of `key`.
pub open spec fn value_of<K, V>(s: Seq<(K, V)>, key: K) -> Option<V> {
    match position(s, key) {
        Some(i) => Some(s[i].1),
        None => None,
    }
}

/// The table in which `key` has the value `value`: a key that was there keeps its place.
pub open spec fn inserted<K, V>(s: Seq<(K, V)>, key: K, value: V) -> Seq<(K, V)> {
    match position(s, key) {
        Some(i) => s.update(i, (key, value)),
        None => s.push((key, value)),
    }
}

/// `position` is the least position that holds the key.
pub proof fn lemma_position<K, V>(s: Seq<(K, V)>, key: K)
    ensures
        match position(s, key) {
            Some(i) => 0 <= i < s.len() && s[i].0 == key && forall|j: int|
                0 <= j < i ==> (#[trigger] s[j]).0 != key,
            None => forall|j: int| 0 <= j < s.len() ==> (#[trigger] s[j]).0 != key,
        },
    decreases s.len(),
{
    if s.len() > 0 {
        let d = s.drop_last();
        lemma_position(d, key);
        match position(d, key) {
            Some(i) => {
                assert(d[i] == s[i]);
                assert forall|j: int| 0 <= j < i implies (#[trigger] s[j]).0 != key by {
                    assert(d[j].0 != key);
                }
            },
            None => {
                assert forall|j: int| 0 <= j < s.len() - 1 implies (#[trigger] s[j]).0 != key by {
                    assert(d[j].0 != key);
                }
            },
        }
    }
}

/// The first position of a key is where it is found first.
pub proof fn lemma_position_is<K, V>(s: Seq<(K, V)>, key: K, i: int)
    requires
        0 <= i < s.len(),
        s[i].0 == key,
        forall|j: int| 0 <= j < i ==> (#[trigger] s[j]).0 != key,
    ensures
        position(s, key) == Some(i),
{
    lemma_position(s, key);
}

/// What was put into a table is found in it; the values of other keys stay.
pub proof fn law_insert_then_look_up<K, V>(s: Seq<(K, V)>, key: K, value: V, other: K)
    ensures
        value_of(inserted(s, key, value), key) == Some(value),
        other != key ==> value_of(inserted(s, key, value), other) == value_of(s, other),
{
    let t = inserted(s, key, value);
    lemma_position(s, key);
    lemma_position(t, key);
    lemma_position(s, other);
    lemma_position(t, other);
    match position(s, key) {
        Some(i) => {
            assert(t[i].0 == key);
            assert forall|j: int| 0 <= j < i implies (#[trigger] t[j]).0 != key by {
                assert(s[j].0 != key);
            }
            lemma_position_is(t, key, i);
            if other != key {
                match position(s, other) {
                    Some(k) => {
                        assert(t[k] == s[k]);
                        assert forall|j: int| 0 <= j < k implies (#[trigger] t[j]).0 != other by {
                            assert(s[j].0 != other);
                        }
                        lemma_position_is(t, other, k);
                    },
                    None => {
                        if let Some(k) = position(t, other) {
                            assert(s[k].0 != other);
                        }
                    },
                }
            }
        },
        None => {
            let n = s.len() as int;
            assert(t[n].0 == key);
            assert forall|j: int| 0 <= j < n implies (#[trigger] t[j]).0 != key by {
                assert(s[j].0 != key);
            }
            lemma_position_is(t, key, n);
            if other != key {
                match position(s, other) {
                    Some(k) => {
                        assert(t[k] == s[k]);
                        assert forall|j: int| 0 <= j < k implies (#[trigger] t[j]).0 != other by {
                            assert(s[j].0 != other);
                        }
                        lemma_position_is(t, other, k);
                    },
                    None => {
                        if let Some(k) = position(t, other) {
                            assert(k < n);
                            assert(s[k].0 != other);
                        }
                    },
                }
            }
        },
    }
}

} // verus!
