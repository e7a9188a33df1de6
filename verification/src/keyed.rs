//! Vectors of `(key, value)` entries with distinct string keys, used where a
//! map is wanted: a key is found again by comparing strings, and an entry
//! keeps its place when its value is replaced.

use vstd::prelude::*;

verus! {

/// The entries as plain values.
pub open spec fn entries_view<V: View>(v: Seq<(String, V)>) -> Seq<(Seq<char>, V::V)> {
    v.map_values(|e: (String, V)| (e.0@, e.1@))
}

/// No key occurs twice.
pub open spec fn keys_unique<W>(s: Seq<(Seq<char>, W)>) -> bool {
    forall|i: int, j: int| 0 <= i < s.len() && 0 <= j < s.len() && i != j ==> s[i].0 != s[j].0
}

/// Some entry has key `k`.
pub open spec fn has_key<W>(s: Seq<(Seq<char>, W)>, k: Seq<char>) -> bool {
    exists|i: int| 0 <= i < s.len() && #[trigger] s[i].0 == k
}

/// The entries after setting key `k` to `v`: an existing entry is replaced
/// in place, a new one is appended.
pub open spec fn upserted<W>(s: Seq<(Seq<char>, W)>, k: Seq<char>, v: W) -> Seq<(Seq<char>, W)> {
    if has_key(s, k) {
        Seq::new(s.len(), |i: int| if s[i].0 == k { (k, v) } else { s[i] })
    } else {
        s.push((k, v))
    }
}

/// The entries after setting each of `items` in turn.
pub open spec fn upserted_all<W>(s: Seq<(Seq<char>, W)>, items: Seq<(Seq<char>, W)>) -> Seq<(Seq<char>, W)>
    decreases items.len(),
{
    if items.len() == 0 {
        s
    } else {
        let p = upserted_all(s, items.drop_last());
        upserted(p, items.last().0, items.last().1)
    }
}

/// The value stored under `k`, if any.
pub open spec fn lookup<W>(s: Seq<(Seq<char>, W)>, k: Seq<char>) -> Option<W> {
    if has_key(s, k) {
        Some(s[choose|i: int| 0 <= i < s.len() && #[trigger] s[i].0 == k].1)
    } else {
        None
    }
}

/// Setting a key keeps the keys distinct, stores the value under that key
/// and leaves every other key as it was.
pub proof fn lemma_upserted<W>(s: Seq<(Seq<char>, W)>, k: Seq<char>, v: W)
    requires
        keys_unique(s),
    ensures
        keys_unique(upserted(s, k, v)),
        lookup(upserted(s, k, v), k) == Some(v),
        forall|k2: Seq<char>| k2 != k ==> #[trigger] lookup(upserted(s, k, v), k2) == lookup(s, k2),
{
    let t = upserted(s, k, v);
    if has_key(s, k) {
        let i = choose|i: int| 0 <= i < s.len() && #[trigger] s[i].0 == k;
        assert forall|a: int, b: int| 0 <= a < t.len() && 0 <= b < t.len() && a != b implies t[a].0 != t[b].0 by {
            assert(s[a].0 != s[b].0);
        }
        assert(t[i].0 == k);
        let j = choose|j: int| 0 <= j < t.len() && #[trigger] t[j].0 == k;
        if j != i {
            assert(t[j].0 != t[i].0);
        }
        assert forall|k2: Seq<char>| k2 != k implies #[trigger] lookup(t, k2) == lookup(s, k2) by {
            if has_key(s, k2) {
                let a = choose|a: int| 0 <= a < s.len() && #[trigger] s[a].0 == k2;
                assert(t[a].0 == k2);
                let b = choose|b: int| 0 <= b < t.len() && #[trigger] t[b].0 == k2;
                if a != b {
                    assert(s[a].0 != s[b].0);
                }
            }
            if has_key(t, k2) {
                let b = choose|b: int| 0 <= b < t.len() && #[trigger] t[b].0 == k2;
                assert(s[b].0 == k2);
            }
        }
    } else {
        assert forall|a: int, b: int| 0 <= a < t.len() && 0 <= b < t.len() && a != b implies t[a].0 != t[b].0 by {
            if a < s.len() && b < s.len() {
                assert(s[a].0 != s[b].0);
            } else if a < s.len() {
                assert(t[a] == s[a]);
            } else {
                assert(t[b] == s[b]);
            }
        }
        assert(t[s.len() as int].0 == k);
        let j = choose|j: int| 0 <= j < t.len() && #[trigger] t[j].0 == k;
        if j != s.len() {
            assert(t[j] == s[j]);
        }
        assert forall|k2: Seq<char>| k2 != k implies #[trigger] lookup(t, k2) == lookup(s, k2) by {
            if has_key(s, k2) {
                let a = choose|a: int| 0 <= a < s.len() && #[trigger] s[a].0 == k2;
                assert(t[a].0 == k2);
                let b = choose|b: int| 0 <= b < t.len() && #[trigger] t[b].0 == k2;
                if a != b && b < s.len() {
                    assert(s[a].0 != s[b].0);
                }
            }
            if has_key(t, k2) {
                let b = choose|b: int| 0 <= b < t.len() && #[trigger] t[b].0 == k2;
                assert(s[b].0 == k2);
            }
        }
    }
}

/// Position of the entry with key `k`, if any.
pub fn position_of<V: View>(v: &Vec<(String, V)>, k: &String) -> (r: Option<usize>)
    ensures
        match r {
            Some(i) => i < v.len() && v@[i as int].0@ == k@,
            None => forall|i: int| 0 <= i < v.len() ==> (#[trigger] v@[i]).0@ != k@,
        },
{
    let mut i: usize = 0;
    while i < v.len()
        invariant
            i <= v.len(),
            forall|j: int| 0 <= j < i ==> (#[trigger] v@[j]).0@ != k@,
        decreases v.len() - i,
    {
        if v[i].0 == *k {
            return Some(i);
        }
        i = i + 1;
    }
    None
}

/// Sets the value for key `k`, replacing an existing entry in place or
/// appending a new one.
pub fn upsert<V: View>(v: &mut Vec<(String, V)>, k: String, val: V)
    requires
        keys_unique(entries_view(old(v)@)),
    ensures
        keys_unique(entries_view(final(v)@)),
        entries_view(final(v)@) == upserted(entries_view(old(v)@), k@, val@),
{
    let ghost s0 = entries_view(v@);
    let ghost kv = k@;
    let ghost vv = val@;
    proof { lemma_upserted(s0, kv, vv); }
    match position_of(v, &k) {
        Some(i) => {
            v.set(i, (k, val));
            proof {
                assert(s0[i as int].0 == kv);
                assert(has_key(s0, kv));
                assert forall|j: int| 0 <= j < s0.len() && j != i implies #[trigger] s0[j].0 != kv by {
                    assert(s0[j].0 != s0[i as int].0);
                }
                assert(entries_view(v@) =~= upserted(s0, kv, vv));
            }
        },
        None => {
            v.push((k, val));
            proof {
                assert(!has_key(s0, kv));
                assert(entries_view(v@) =~= upserted(s0, kv, vv));
            }
        },
    }
}

} // verus!
