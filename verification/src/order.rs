//! Lexicographic order on strings and a stable sort by string keys.

use vstd::prelude::*;

verus! {

/// `a` comes strictly before `b` in lexicographic order of code points, the
/// order `String`'s `Ord` gives.
pub open spec fn lex_lt(a: Seq<char>, b: Seq<char>) -> bool
    decreases a.len(),
{
    if b.len() == 0 {
        false
    } else if a.len() == 0 {
        true
    } else if a[0] < b[0] {
        true
    } else if b[0] < a[0] {
        false
    } else {
        lex_lt(a.drop_first(), b.drop_first())
    }
}

/// Order on pairs of strings: by the first, then by the second.
pub open spec fn pair_lt(a: (Seq<char>, Seq<char>), b: (Seq<char>, Seq<char>)) -> bool {
    lex_lt(a.0, b.0) || (a.0 == b.0 && lex_lt(a.1, b.1))
}

/// Law: `a` comes before `b` exactly when `a` is a proper prefix of `b`, or
/// at the first position where they differ `a` has the smaller character.
pub proof fn lemma_lex_lt_meaning(a: Seq<char>, b: Seq<char>)
    ensures
        lex_lt(a, b) <==> {
            ||| (a.len() < b.len() && a =~= b.take(a.len() as int))
            ||| exists|i: int| #![trigger a[i], b[i]]
                0 <= i < a.len() && i < b.len() && a.take(i) =~= b.take(i) && a[i] < b[i]
        },
    decreases a.len(),
{
    if a.len() > 0 && b.len() > 0 {
        let (a1, b1) = (a.drop_first(), b.drop_first());
        lemma_lex_lt_meaning(a1, b1);
        if a[0] == b[0] {
            if a1.len() < b1.len() && a1 =~= b1.take(a1.len() as int) {
                assert forall|k: int| 0 <= k < a.len() implies #[trigger] a[k] == b.take(a.len() as int)[k] by {
                    if k > 0 {
                        assert(a1[k - 1] == b1.take(a1.len() as int)[k - 1]);
                    }
                }
                assert(a =~= b.take(a.len() as int));
            }
            if a.len() < b.len() && a =~= b.take(a.len() as int) {
                assert(a1 =~= b1.take(a1.len() as int));
            }
            if exists|i: int| #![trigger a1[i], b1[i]] 0 <= i < a1.len() && i < b1.len() && a1.take(i) =~= b1.take(i) && a1[i] < b1[i] {
                let i = choose|i: int| #![trigger a1[i], b1[i]] 0 <= i < a1.len() && i < b1.len() && a1.take(i) =~= b1.take(i) && a1[i] < b1[i];
                assert(a.take(i + 1) =~= b.take(i + 1)) by {
                    assert forall|k: int| 0 <= k < i + 1 implies #[trigger] a.take(i + 1)[k] == b.take(i + 1)[k] by {
                        if k > 0 {
                            assert(a1.take(i)[k - 1] == b1.take(i)[k - 1]);
                        }
                    }
                }
                assert(a[i + 1] == a1[i] && b[i + 1] == b1[i]);
            }
            if exists|i: int| #![trigger a[i], b[i]] 0 <= i < a.len() && i < b.len() && a.take(i) =~= b.take(i) && a[i] < b[i] {
                let i = choose|i: int| #![trigger a[i], b[i]] 0 <= i < a.len() && i < b.len() && a.take(i) =~= b.take(i) && a[i] < b[i];
                assert(i > 0);
                assert(a1.take(i - 1) =~= b1.take(i - 1)) by {
                    assert forall|k: int| 0 <= k < i - 1 implies #[trigger] a1.take(i - 1)[k] == b1.take(i - 1)[k] by {
                        assert(a.take(i)[k + 1] == b.take(i)[k + 1]);
                    }
                }
                assert(a1[i - 1] == a[i] && b1[i - 1] == b[i]);
            }
        } else {
            assert(a.take(0) =~= b.take(0));
            assert(a[0] == a[0] && b[0] == b[0]);
            if a.len() < b.len() && a =~= b.take(a.len() as int) {
                assert(a[0] == b.take(a.len() as int)[0]);
            }
            if exists|i: int| #![trigger a[i], b[i]] 0 <= i < a.len() && i < b.len() && a.take(i) =~= b.take(i) && a[i] < b[i] {
                let i = choose|i: int| #![trigger a[i], b[i]] 0 <= i < a.len() && i < b.len() && a.take(i) =~= b.take(i) && a[i] < b[i];
                if i > 0 {
                    assert(a.take(i)[0] == b.take(i)[0]);
                }
            }
        }
    } else if a.len() == 0 && b.len() > 0 {
        assert(a =~= b.take(0));
    }
}

/// Lexicographic order is a strict total order.
pub proof fn lemma_lex_order(a: Seq<char>, b: Seq<char>, c: Seq<char>)
    ensures
        !lex_lt(a, a),
        lex_lt(a, b) ==> !lex_lt(b, a),
        lex_lt(a, b) && lex_lt(b, c) ==> lex_lt(a, c),
        a != b ==> lex_lt(a, b) || lex_lt(b, a),
    decreases a.len(),
{
    if a.len() > 0 {
        lemma_lex_order(a.drop_first(), b.drop_first(), c.drop_first());
        if b.len() > 0 && a[0] == b[0] && a != b {
            if a.drop_first() == b.drop_first() {
                assert(a =~= seq![a[0]] + a.drop_first());
                assert(b =~= seq![b[0]] + b.drop_first());
            }
        }
    } else {
        if b.len() == 0 {
            assert(a =~= b);
        }
    }
}

/// The pair order is a strict total order.
pub proof fn lemma_pair_order(a: (Seq<char>, Seq<char>), b: (Seq<char>, Seq<char>), c: (Seq<char>, Seq<char>))
    ensures
        !pair_lt(a, a),
        pair_lt(a, b) ==> !pair_lt(b, a),
        pair_lt(a, b) && pair_lt(b, c) ==> pair_lt(a, c),
        a != b ==> pair_lt(a, b) || pair_lt(b, a),
{
    lemma_lex_order(a.0, b.0, c.0);
    lemma_lex_order(a.1, b.1, c.1);
    lemma_lex_order(b.0, a.0, c.0);
    lemma_lex_order(b.1, a.1, c.1);
    lemma_lex_order(a.0, c.0, b.0);
    lemma_lex_order(b.0, c.0, a.0);
}

/// Whether `a` comes strictly before `b`.
pub fn lex_less(a: &Vec<char>, b: &Vec<char>) -> (r: bool)
    ensures
        r == lex_lt(a@, b@),
{
    let mut i: usize = 0;
    assert(a@.skip(0) =~= a@);
    assert(b@.skip(0) =~= b@);
    while i < a.len() && i < b.len()
        invariant
            i <= a.len(),
            i <= b.len(),
            lex_lt(a@, b@) == lex_lt(a@.skip(i as int), b@.skip(i as int)),
        decreases a.len() - i,
    {
        let x = a[i];
        let y = b[i];
        assert(a@.skip(i as int)[0] == x);
        assert(b@.skip(i as int)[0] == y);
        if x < y {
            return true;
        }
        if y < x {
            return false;
        }
        assert(a@.skip(i as int).drop_first() =~= a@.skip(i as int + 1));
        assert(b@.skip(i as int).drop_first() =~= b@.skip(i as int + 1));
        i = i + 1;
    }
    i < b.len()
}

/// The keys as plain values.
pub open spec fn plain_keys(keys: Seq<(Vec<char>, Vec<char>)>) -> Seq<(Seq<char>, Seq<char>)> {
    keys.map_values(|k: (Vec<char>, Vec<char>)| (k.0@, k.1@))
}

/// The key of entry `i` as plain values.
pub open spec fn key_at(keys: Seq<(Vec<char>, Vec<char>)>, i: int) -> (Seq<char>, Seq<char>) {
    plain_keys(keys)[i]
}

/// `order` lists every position below `n` exactly once.
pub open spec fn is_permutation_of_range(order: Seq<usize>, n: nat) -> bool {
    &&& order.len() == n
    &&& forall|i: int| 0 <= i < order.len() ==> #[trigger] order[i] < n
    &&& forall|i: int, j: int| 0 <= i < order.len() && 0 <= j < order.len() && i != j ==> order[i] != order[j]
}

/// Along `order` keys never decrease, and equal keys keep their original order.
pub open spec fn sorted_stably(keys: Seq<(Seq<char>, Seq<char>)>, order: Seq<usize>) -> bool {
    forall|i: int, j: int| #![trigger order[i], order[j]] 0 <= i < j < order.len() ==> {
        &&& !pair_lt(keys[order[j] as int], keys[order[i] as int])
        &&& (keys[order[j] as int] == keys[order[i] as int] ==> order[i] < order[j])
    }
}

fn pair_less(keys: &Vec<(Vec<char>, Vec<char>)>, a: usize, b: usize) -> (r: bool)
    requires
        a < keys.len(),
        b < keys.len(),
    ensures
        r == pair_lt(key_at(keys@, a as int), key_at(keys@, b as int)),
{
    if lex_less(&keys[a].0, &keys[b].0) {
        true
    } else if lex_less(&keys[b].0, &keys[a].0) {
        false
    } else {
        proof { lemma_lex_order(keys@[a as int].0@, keys@[b as int].0@, keys@[b as int].0@); }
        lex_less(&keys[a].1, &keys[b].1)
    }
}

proof fn lemma_insert_keeps_sorted(keys: Seq<(Vec<char>, Vec<char>)>, prev: Seq<usize>, p: int, j: usize)
    requires
        sorted_stably(plain_keys(keys), prev),
        0 <= j < keys.len(),
        prev.len() == j,
        forall|i: int| 0 <= i < prev.len() ==> #[trigger] prev[i] < j,
        0 <= p <= prev.len(),
        forall|i: int| 0 <= i < p ==> !pair_lt(key_at(keys, j as int), key_at(keys, #[trigger] prev[i] as int)),
        p < prev.len() ==> pair_lt(key_at(keys, j as int), key_at(keys, prev[p] as int)),
    ensures
        sorted_stably(plain_keys(keys), prev.insert(p, j)),
{
    let new = prev.insert(p, j);
    let kj = key_at(keys, j as int);
    assert forall|a: int, b: int| #![trigger new[a], new[b]] 0 <= a < b < new.len() implies {
        &&& !pair_lt(key_at(keys, new[b] as int), key_at(keys, new[a] as int))
        &&& (key_at(keys, new[b] as int) == key_at(keys, new[a] as int) ==> new[a] < new[b])
    } by {
        let ka = key_at(keys, new[a] as int);
        let kb = key_at(keys, new[b] as int);
        if a == p {
            // the inserted key is below the one it was put before, which is
            // not above any later one
            let kp = key_at(keys, prev[p] as int);
            assert(new[b] == prev[b - 1]);
            if b - 1 > p {
                assert(!pair_lt(kb, kp));
            }
            lemma_pair_order(kj, kp, kb);
            lemma_pair_order(kp, kb, kj);
            lemma_pair_order(kj, kb, kj);
        } else if b == p {
            // no earlier key is above the inserted one
            assert(new[a] == prev[a]);
            lemma_pair_order(ka, kj, ka);
        } else {
            let oa = if a < p { a } else { a - 1 };
            let ob = if b < p { b } else { b - 1 };
            assert(new[a] == prev[oa]);
            assert(new[b] == prev[ob]);
        }
    }
}

/// The positions of `keys` in stably sorted order (what a stable sort by the
/// pair order leaves).
pub fn sorted_order(keys: &Vec<(Vec<char>, Vec<char>)>) -> (order: Vec<usize>)
    ensures
        is_permutation_of_range(order@, keys.len() as nat),
        sorted_stably(plain_keys(keys@), order@),
{
    let mut order: Vec<usize> = Vec::new();
    let mut j: usize = 0;
    while j < keys.len()
        invariant
            j <= keys.len(),
            is_permutation_of_range(order@, j as nat),
            sorted_stably(plain_keys(keys@), order@),
        decreases keys.len() - j,
    {
        let mut p: usize = 0;
        while p < order.len() && !pair_less(keys, j, order[p])
            invariant
                p <= order.len(),
                j < keys.len(),
                is_permutation_of_range(order@, j as nat),
                forall|i: int| 0 <= i < p ==> !pair_lt(key_at(keys@, j as int), key_at(keys@, #[trigger] order@[i] as int)),
            decreases order.len() - p,
        {
            p = p + 1;
        }
        let ghost old_order = order@;
        order.insert(p, j);
        proof {
            let kj = key_at(keys@, j as int);
            assert(order@ == old_order.insert(p as int, j));
            lemma_insert_keeps_sorted(keys@, old_order, p as int, j);
            assert forall|a: int, b: int| 0 <= a < order@.len() && 0 <= b < order@.len() && a != b
                implies order@[a] != order@[b] by {
                if a != p && b != p {
                    let oa = if a < p { a } else { a - 1 };
                    let ob = if b < p { b } else { b - 1 };
                    assert(order@[a] == old_order[oa]);
                    assert(order@[b] == old_order[ob]);
                } else if a == p {
                    let ob = if b < p { b } else { b - 1 };
                    assert(order@[b] == old_order[ob]);
                } else {
                    let oa = if a < p { a } else { a - 1 };
                    assert(order@[a] == old_order[oa]);
                }
            }
            assert forall|a: int| 0 <= a < order@.len() implies #[trigger] order@[a] < j + 1 by {
                if a != p {
                    let oa = if a < p { a } else { a - 1 };
                    assert(order@[a] == old_order[oa]);
                }
            }
        }
        j = j + 1;
    }
    order
}

} // verus!
