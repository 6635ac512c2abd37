//! Association sequences read as finite maps.
//!
//! The executable containers of this crate hold `Vec`s of key-value pairs
//! with string keys. These spec functions and lemmas relate such a sequence
//! to the `Map` that the public contracts speak of: `map_of` folds the pairs
//! into a map, `unique_keys` is the representation invariant, and the lemmas
//! say how removing or appending a pair moves the map.

use vstd::prelude::*;

verus! {

/// The map that an association sequence denotes; a later pair with the
/// same key would win, though well-formed sequences never hold one.
pub open spec fn map_of<V>(s: Seq<(Seq<char>, V)>) -> Map<Seq<char>, V>
    decreases s.len(),
{
    if s.len() == 0 {
        Map::empty()
    } else {
        map_of(s.drop_last()).insert(s.last().0, s.last().1)
    }
}

/// No key occurs twice in the sequence.
pub open spec fn unique_keys<V>(s: Seq<(Seq<char>, V)>) -> bool {
    forall|i: int, j: int| 0 <= i < j < s.len() ==> s[i].0 != s[j].0
}

/// A key lies in the map exactly when some pair of the sequence carries it.
pub proof fn lemma_map_of_contains<V>(s: Seq<(Seq<char>, V)>, k: Seq<char>)
    ensures
        map_of(s).contains_key(k) <==> exists|i: int| 0 <= i < s.len() && s[i].0 == k,
    decreases s.len(),
{
    if s.len() == 0 {
    } else {
        lemma_map_of_contains(s.drop_last(), k);
        if s.last().0 == k {
            assert(s[s.len() - 1].0 == k);
        } else {
            if map_of(s).contains_key(k) {
                let i = choose|i: int|
                    0 <= i < s.drop_last().len() && s.drop_last()[i].0 == k;
                assert(s[i].0 == k);
            }
            if exists|i: int| 0 <= i < s.len() && s[i].0 == k {
                let i = choose|i: int| 0 <= i < s.len() && s[i].0 == k;
                assert(s.drop_last()[i].0 == k);
            }
        }
    }
}

/// Dropping the last pair keeps the keys unique.
pub proof fn lemma_unique_drop_last<V>(s: Seq<(Seq<char>, V)>)
    requires
        s.len() > 0,
        unique_keys(s),
    ensures
        unique_keys(s.drop_last()),
{
    assert forall|i: int, j: int|
        0 <= i < j < s.drop_last().len() implies s.drop_last()[i].0 != s.drop_last()[j].0 by {
        assert(s[i].0 != s[j].0);
    }
}

/// In a duplicate-free sequence, each pair is what the map holds at its key.
pub proof fn lemma_map_of_index<V>(s: Seq<(Seq<char>, V)>, i: int)
    requires
        unique_keys(s),
        0 <= i < s.len(),
    ensures
        map_of(s).contains_key(s[i].0),
        map_of(s)[s[i].0] == s[i].1,
    decreases s.len(),
{
    if i == s.len() - 1 {
    } else {
        lemma_unique_drop_last(s);
        lemma_map_of_index(s.drop_last(), i);
        assert(s[i].0 != s[s.len() - 1].0);
    }
}

/// Appending a pair writes its key into the map.
pub proof fn lemma_map_of_push<V>(s: Seq<(Seq<char>, V)>, k: Seq<char>, v: V)
    ensures
        map_of(s.push((k, v))) == map_of(s).insert(k, v),
{
    assert(s.push((k, v)).drop_last() =~= s);
    assert(s.push((k, v)).last() == (k, v));
}

/// Appending a pair with a fresh key keeps the keys unique.
pub proof fn lemma_unique_push<V>(s: Seq<(Seq<char>, V)>, k: Seq<char>, v: V)
    requires
        unique_keys(s),
        forall|i: int| 0 <= i < s.len() ==> s[i].0 != k,
    ensures
        unique_keys(s.push((k, v))),
{
    let t = s.push((k, v));
    assert forall|i: int, j: int| 0 <= i < j < t.len() implies t[i].0 != t[j].0 by {
        if j < s.len() {
            assert(s[i].0 != s[j].0);
        } else {
            assert(s[i].0 != k);
        }
    }
}

/// Removing an inner pair commutes with dropping the last one.
pub proof fn lemma_remove_drop_last<A>(s: Seq<A>, i: int)
    requires
        0 <= i < s.len() - 1,
    ensures
        s.remove(i).drop_last() =~= s.drop_last().remove(i),
        s.remove(i).last() == s.last(),
{
    s.remove_ensures(i);
    s.drop_last().remove_ensures(i);
}

/// Removing the pair at one index removes exactly its key from the map.
pub proof fn lemma_map_of_remove<V>(s: Seq<(Seq<char>, V)>, i: int)
    requires
        unique_keys(s),
        0 <= i < s.len(),
    ensures
        unique_keys(s.remove(i)),
        map_of(s.remove(i)) == map_of(s).remove(s[i].0),
    decreases s.len(),
{
    s.remove_ensures(i);
    let t = s.remove(i);
    assert forall|a: int, b: int| 0 <= a < b < t.len() implies t[a].0 != t[b].0 by {
        if a < i {
            assert(t[a] == s[a]);
        } else {
            assert(t[a] == s[a + 1]);
        }
        if b < i {
            assert(t[b] == s[b]);
        } else {
            assert(t[b] == s[b + 1]);
        }
    }
    if i == s.len() - 1 {
        assert(t =~= s.drop_last());
        lemma_map_of_contains(s.drop_last(), s[i].0);
        assert forall|j: int|
            0 <= j < s.drop_last().len() implies s.drop_last()[j].0 != s[i].0 by {
            assert(s[j].0 != s[i].0);
        }
        assert(!map_of(s.drop_last()).contains_key(s[i].0));
        assert(map_of(t) =~= map_of(s).remove(s[i].0));
    } else {
        lemma_unique_drop_last(s);
        lemma_map_of_remove(s.drop_last(), i);
        lemma_remove_drop_last(s, i);
        assert(s.drop_last()[i] == s[i]);
        assert(map_of(t) == map_of(t.drop_last()).insert(t.last().0, t.last().1));
        assert(s[i].0 != s[s.len() - 1].0);
        assert(map_of(t) =~= map_of(s).remove(s[i].0));
    }
}

/// Taking the pair at one index out and appending the same key with a new
/// value rewrites exactly that key of the map.
pub proof fn lemma_map_of_replace<V>(s: Seq<(Seq<char>, V)>, i: int, v: V)
    requires
        unique_keys(s),
        0 <= i < s.len(),
    ensures
        unique_keys(s.remove(i).push((s[i].0, v))),
        map_of(s.remove(i).push((s[i].0, v))) == map_of(s).insert(s[i].0, v),
{
    s.remove_ensures(i);
    lemma_map_of_remove(s, i);
    assert forall|j: int|
        0 <= j < s.remove(i).len() implies s.remove(i)[j].0 != s[i].0 by {
        if j < i {
            assert(s.remove(i)[j] == s[j]);
        } else {
            assert(s.remove(i)[j] == s[j + 1]);
        }
    }
    lemma_unique_push(s.remove(i), s[i].0, v);
    lemma_map_of_push(s.remove(i), s[i].0, v);
    assert(map_of(s).remove(s[i].0).insert(s[i].0, v) =~= map_of(s).insert(s[i].0, v));
}

/// Mapping the elements commutes with removing one of them.
pub proof fn lemma_map_values_remove<A, B>(s: Seq<A>, f: spec_fn(A) -> B, i: int)
    requires
        0 <= i < s.len(),
    ensures
        s.remove(i).map_values(f) =~= s.map_values(f).remove(i),
{
    s.remove_ensures(i);
    s.map_values(f).remove_ensures(i);
}

/// Mapping the elements commutes with appending one.
pub proof fn lemma_map_values_push<A, B>(s: Seq<A>, f: spec_fn(A) -> B, x: A)
    ensures
        s.push(x).map_values(f) =~= s.map_values(f).push(f(x)),
{
}

/// Sum of the values of an association sequence.
pub open spec fn sum_of(s: Seq<(Seq<char>, u128)>) -> int
    decreases s.len(),
{
    if s.len() == 0 {
        0
    } else {
        sum_of(s.drop_last()) + s.last().1
    }
}

/// The values are unsigned, so the sum never goes below zero.
pub proof fn lemma_sum_nonneg(s: Seq<(Seq<char>, u128)>)
    ensures
        sum_of(s) >= 0,
    decreases s.len(),
{
    if s.len() > 0 {
        lemma_sum_nonneg(s.drop_last());
    }
}

/// Each value is bounded by the sum of all of them.
pub proof fn lemma_index_le_sum(s: Seq<(Seq<char>, u128)>, i: int)
    requires
        0 <= i < s.len(),
    ensures
        s[i].1 <= sum_of(s),
    decreases s.len(),
{
    if i == s.len() - 1 {
        lemma_sum_nonneg(s.drop_last());
    } else {
        lemma_index_le_sum(s.drop_last(), i);
    }
}

/// Removing a pair takes exactly its value out of the sum.
pub proof fn lemma_sum_remove(s: Seq<(Seq<char>, u128)>, i: int)
    requires
        0 <= i < s.len(),
    ensures
        sum_of(s.remove(i)) == sum_of(s) - s[i].1,
    decreases s.len(),
{
    if i == s.len() - 1 {
        assert(s.remove(i) =~= s.drop_last());
    } else {
        lemma_remove_drop_last(s, i);
        lemma_sum_remove(s.drop_last(), i);
        assert(sum_of(s.remove(i)) == sum_of(s.remove(i).drop_last()) + s.remove(i).last().1);
        assert(sum_of(s.remove(i).drop_last()) == sum_of(s.drop_last().remove(i)));
    }
}

/// Appending a pair adds exactly its value to the sum.
pub proof fn lemma_sum_push(s: Seq<(Seq<char>, u128)>, p: (Seq<char>, u128))
    ensures
        sum_of(s.push(p)) == sum_of(s) + p.1,
{
    assert(s.push(p).drop_last() =~= s);
    assert(s.push(p).last() == p);
}

} // verus!
