//! Strictly sorted sequences of keys and binary search in them.

use vstd::prelude::*;

verus! {

/// How one key stands to another.
#[derive(Clone, Copy, Debug, PartialEq, Eq)]
pub enum Order {
    Before,
    Same,
    After,
}

/// A type whose values are strictly and totally ordered by `precedes`.
pub trait SortKey: Sized {
    /// The strict order: `self` comes before `other`.
    spec fn precedes(&self, other: &Self) -> bool;

    /// `precedes` is irreflexive and transitive, and any two distinct keys
    /// are ordered by it.
    proof fn lemma_strict_total_order(a: &Self, b: &Self, c: &Self)
        ensures
            !a.precedes(a),
            a.precedes(b) && b.precedes(c) ==> a.precedes(c),
            a.precedes(b) || *a == *b || b.precedes(a),
    ;

    /// Decides how `self` stands to `other`.
    fn compare(&self, other: &Self) -> (o: Order)
        ensures
            o is Before <==> self.precedes(other),
            o is Same <==> *self == *other,
            o is After <==> other.precedes(self),
    ;
}

/// Every key of `s` precedes all the keys behind it. No key then occurs twice.
pub open spec fn strictly_sorted<K: SortKey>(s: Seq<K>) -> bool {
    forall|i: int, j: int| 0 <= i < j < s.len() ==> #[trigger] s[i].precedes(&s[j])
}

/// The length of the shortest prefix of `s` behind which no key precedes
/// `key`. In a strictly sorted `s` this is the index of `key` if `s` holds it,
/// and otherwise the index at which `key` has to be inserted.
pub open spec fn lower_bound<K: SortKey>(s: Seq<K>, key: K) -> int
    decreases s.len(),
{
    if s.len() == 0 {
        0
    } else if s.last().precedes(&key) {
        s.len() as int
    } else {
        lower_bound(s.drop_last(), key)
    }
}

/// A position that has only preceding keys before it and none from it on is
/// the lower bound.
pub proof fn lemma_lower_bound_is<K: SortKey>(s: Seq<K>, key: K, at: int)
    requires
        0 <= at <= s.len(),
        forall|i: int| 0 <= i < at ==> (#[trigger] s[i]).precedes(&key),
        forall|i: int| at <= i < s.len() ==> !(#[trigger] s[i]).precedes(&key),
    ensures
        lower_bound(s, key) == at,
    decreases s.len(),
{
    if s.len() > 0 && !s.last().precedes(&key) {
        lemma_lower_bound_is(s.drop_last(), key, at);
    }
}

/// In a strictly sorted sequence the lower bound of a key parts the keys that
/// precede it from those that do not, and a key that the sequence holds
/// stands at its lower bound.
pub proof fn lemma_lower_bound_splits<K: SortKey>(s: Seq<K>, key: K)
    requires
        strictly_sorted(s),
    ensures
        0 <= lower_bound(s, key) <= s.len(),
        forall|i: int| 0 <= i < lower_bound(s, key) ==> (#[trigger] s[i]).precedes(&key),
        forall|i: int|
            lower_bound(s, key) <= i < s.len() ==> (#[trigger] s[i] == key && i == lower_bound(
                s,
                key,
            )) || key.precedes(&s[i]),
    decreases s.len(),
{
    if s.len() > 0 {
        let last = s.len() - 1;
        if s.last().precedes(&key) {
            assert forall|i: int| 0 <= i < s.len() implies (#[trigger] s[i]).precedes(&key) by {
                if i < last {
                    K::lemma_strict_total_order(&s[i], &s[last], &key);
                }
            }
        } else {
            let front = s.drop_last();
            assert forall|i: int, j: int|
                0 <= i < j < front.len() implies #[trigger] front[i].precedes(&front[j]) by {
                assert(s[i].precedes(&s[j]));
            }
            lemma_lower_bound_splits(front, key);
            let at = lower_bound(front, key);
            K::lemma_strict_total_order(&s[last], &key, &s[last]);
            assert forall|i: int| at <= i < s.len() implies (#[trigger] s[i] == key && i == at)
                || key.precedes(&s[i]) by {
                if i < last {
                    assert(front[i] == s[i]);
                }
            }
            assert forall|i: int| 0 <= i < at implies (#[trigger] s[i]).precedes(&key) by {
                assert(front[i] == s[i]);
            }
        }
    }
}

/// A strictly sorted sequence holds a key exactly if the key stands at its
/// lower bound.
pub proof fn lemma_contains_at_lower_bound<K: SortKey>(s: Seq<K>, key: K)
    requires
        strictly_sorted(s),
    ensures
        0 <= lower_bound(s, key) <= s.len(),
        s.contains(key) <==> (lower_bound(s, key) < s.len() && s[lower_bound(s, key)] == key),
{
    lemma_lower_bound_splits(s, key);
    K::lemma_strict_total_order(&key, &key, &key);
}

/// Inserting an absent key at its lower bound keeps a sequence strictly
/// sorted.
pub proof fn lemma_insert_keeps_sorted<K: SortKey>(s: Seq<K>, key: K)
    requires
        strictly_sorted(s),
        !s.contains(key),
    ensures
        strictly_sorted(s.insert(lower_bound(s, key), key)),
{
    lemma_lower_bound_splits(s, key);
}

/// Removing a key keeps a sequence strictly sorted.
pub proof fn lemma_remove_keeps_sorted<K: SortKey>(s: Seq<K>, at: int)
    requires
        strictly_sorted(s),
        0 <= at < s.len(),
    ensures
        strictly_sorted(s.remove(at)),
{
}

/// Finds `key` in the strictly sorted `v`: `Ok` with its index, or `Err` with
/// the index at which it has to be inserted.
pub fn search<K: SortKey>(v: &Vec<K>, key: &K) -> (r: Result<usize, usize>)
    requires
        strictly_sorted(v@),
    ensures
        match r {
            Ok(at) => at < v.len() && v[at as int] == *key && at == lower_bound(v@, *key),
            Err(at) => at <= v.len() && !v@.contains(*key) && at == lower_bound(v@, *key),
        },
{
    let mut low: usize = 0;
    let mut high: usize = v.len();
    while low < high
        invariant
            low <= high <= v.len(),
            strictly_sorted(v@),
            forall|i: int| 0 <= i < low ==> (#[trigger] v[i]).precedes(key),
            forall|i: int| high <= i < v.len() ==> key.precedes(&#[trigger] v[i]),
        decreases high - low,
    {
        let middle = low + (high - low) / 2;
        match v[middle].compare(key) {
            Order::Before => {
                proof {
                    assert forall|i: int| 0 <= i < middle + 1 implies (#[trigger] v[i]).precedes(
                        key,
                    ) by {
                        if i < middle {
                            K::lemma_strict_total_order(&v[i], &v[middle as int], key);
                        }
                    }
                }
                low = middle + 1;
            },
            Order::Same => {
                proof {
                    lemma_contains_at_lower_bound(v@, *key);
                }
                return Ok(middle);
            },
            Order::After => {
                proof {
                    assert forall|i: int| middle <= i < v.len() implies key.precedes(
                        &#[trigger] v[i],
                    ) by {
                        if middle < i {
                            K::lemma_strict_total_order(key, &v[middle as int], &v[i]);
                        }
                    }
                }
                high = middle;
            },
        }
    }
    proof {
        assert forall|i: int| low <= i < v.len() implies !(#[trigger] v[i]).precedes(key) by {
            K::lemma_strict_total_order(key, &v[i], key);
        }
        lemma_lower_bound_is(v@, *key, low as int);
        lemma_contains_at_lower_bound(v@, *key);
    }
    Err(low)
}

/// The keys of a sequence after an insertion are those before it and the
/// key inserted.
pub proof fn lemma_insert_to_set<K>(s: Seq<K>, at: int, key: K)
    requires
        0 <= at <= s.len(),
    ensures
        s.insert(at, key).to_set() == s.to_set().insert(key),
{
    let t = s.insert(at, key);
    assert forall|k: K| t.contains(k) <==> (k == key || s.contains(k)) by {
        if s.contains(k) {
            let i = choose|i: int| 0 <= i < s.len() && s[i] == k;
            if i < at {
                assert(t[i] == k);
            } else {
                assert(t[i + 1] == k);
            }
        }
        assert(t[at] == key);
    }
}

} // verus!
