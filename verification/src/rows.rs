//! Spec-level model of a table with a uniqueness constraint.
//!
//! Each store keeps its rows in a `Vec` whose keys are pairwise distinct;
//! its mathematical meaning is the finite map from key to row, built here
//! by `row_map`. The lemmas relate the sequence operations an upsert
//! performs (`push`, `update`) to `Map::insert`, and give the map a
//! cardinality and a sum, so that contracts can speak entirely in terms
//! of the map.

use vstd::prelude::*;

verus! {

broadcast use vstd::set::group_set_axioms;

/// The uniqueness constraint: no two rows share a key.
pub open spec fn distinct_keys<K, R>(s: Seq<R>, key: spec_fn(R) -> K) -> bool {
    forall|i: int, j: int| 0 <= i < j < s.len() ==> key(#[trigger] s[i]) != key(#[trigger] s[j])
}

/// The map a row sequence denotes; a later row wins over an earlier one
/// with the same key, which under `distinct_keys` never happens.
pub open spec fn row_map<K, R>(s: Seq<R>, key: spec_fn(R) -> K) -> Map<K, R>
    decreases s.len(),
{
    if s.len() == 0 {
        Map::empty()
    } else {
        row_map(s.drop_last(), key).insert(key(s.last()), s.last())
    }
}

/// A prefix of a sequence with distinct keys has distinct keys.
pub proof fn lemma_distinct_prefix<K, R>(s: Seq<R>, key: spec_fn(R) -> K, n: int)
    requires
        distinct_keys(s, key),
        0 <= n <= s.len(),
    ensures
        distinct_keys(s.take(n), key),
{
    assert forall|i: int, j: int| 0 <= i < j < n implies key(#[trigger] s.take(n)[i]) != key(
        #[trigger] s.take(n)[j],
    ) by {
        assert(s.take(n)[i] == s[i]);
        assert(s.take(n)[j] == s[j]);
    }
}

/// A key is in the map exactly when some row carries it.
pub proof fn lemma_row_map_contains<K, R>(s: Seq<R>, key: spec_fn(R) -> K, k: K)
    ensures
        row_map(s, key).contains_key(k) <==> exists|i: int|
            0 <= i < s.len() && key(#[trigger] s[i]) == k,
    decreases s.len(),
{
    if s.len() == 0 {
    } else {
        lemma_row_map_contains(s.drop_last(), key, k);
        if key(s.last()) == k {
            assert(key(s[s.len() - 1]) == k);
        } else if row_map(s, key).contains_key(k) {
            let i = choose|i: int| 0 <= i < s.drop_last().len() && key(#[trigger] s.drop_last()[i]) == k;
            assert(s.drop_last()[i] == s[i]);
        } else {
            if exists|i: int| 0 <= i < s.len() && key(#[trigger] s[i]) == k {
                let i = choose|i: int| 0 <= i < s.len() && key(#[trigger] s[i]) == k;
                assert(i < s.len() - 1);
                assert(s.drop_last()[i] == s[i]);
            }
        }
    }
}

/// Under the uniqueness constraint the map sends each row's key to it.
pub proof fn lemma_row_map_index<K, R>(s: Seq<R>, key: spec_fn(R) -> K, i: int)
    requires
        distinct_keys(s, key),
        0 <= i < s.len(),
    ensures
        row_map(s, key).contains_key(key(s[i])),
        row_map(s, key)[key(s[i])] == s[i],
    decreases s.len(),
{
    if i == s.len() - 1 {
    } else {
        lemma_distinct_prefix(s, key, s.len() - 1);
        assert(s.take(s.len() - 1) =~= s.drop_last());
        assert(s.drop_last()[i] == s[i]);
        lemma_row_map_index(s.drop_last(), key, i);
        assert(key(s[i]) != key(s[s.len() - 1]));
    }
}

/// The map of a row sequence is finite.
pub proof fn lemma_row_map_finite<K, R>(s: Seq<R>, key: spec_fn(R) -> K)
    ensures
        row_map(s, key).dom().finite(),
    decreases s.len(),
{
    if s.len() == 0 {
    } else {
        lemma_row_map_finite(s.drop_last(), key);
    }
}

/// Under the uniqueness constraint, the map has exactly one entry per row.
pub proof fn lemma_row_map_len<K, R>(s: Seq<R>, key: spec_fn(R) -> K)
    requires
        distinct_keys(s, key),
    ensures
        row_map(s, key).dom().finite(),
        row_map(s, key).dom().len() == s.len(),
    decreases s.len(),
{
    lemma_row_map_finite(s, key);
    if s.len() == 0 {
        assert(row_map(s, key).dom() =~= Set::<K>::empty());
    } else {
        lemma_distinct_prefix(s, key, s.len() - 1);
        assert(s.take(s.len() - 1) =~= s.drop_last());
        lemma_row_map_len(s.drop_last(), key);
        lemma_row_map_contains(s.drop_last(), key, key(s.last()));
        assert forall|i: int| 0 <= i < s.drop_last().len() implies key(#[trigger] s.drop_last()[i])
            != key(s.last()) by {
            assert(s.drop_last()[i] == s[i]);
            assert(s.last() == s[s.len() - 1]);
        }
        assert(!row_map(s.drop_last(), key).dom().contains(key(s.last())));
        assert(row_map(s, key).dom() =~= row_map(s.drop_last(), key).dom().insert(key(s.last())));
    }
}

/// Appending a fresh row is a map insert.
pub proof fn lemma_row_map_push<K, R>(s: Seq<R>, key: spec_fn(R) -> K, r: R)
    ensures
        row_map(s.push(r), key) == row_map(s, key).insert(key(r), r),
{
    assert(s.push(r).drop_last() =~= s);
    assert(s.push(r).last() == r);
}

/// Overwriting the row that carries a key is a map insert.
pub proof fn lemma_row_map_update<K, R>(s: Seq<R>, key: spec_fn(R) -> K, i: int, r: R)
    requires
        distinct_keys(s, key),
        0 <= i < s.len(),
        key(r) == key(s[i]),
    ensures
        row_map(s.update(i, r), key) == row_map(s, key).insert(key(r), r),
    decreases s.len(),
{
    let t = s.update(i, r);
    if i == s.len() - 1 {
        assert(t.drop_last() =~= s.drop_last());
        assert(t.last() == r);
        assert(row_map(s.drop_last(), key).insert(key(r), r) =~= row_map(s.drop_last(), key)
            .insert(key(s.last()), s.last()).insert(key(r), r));
    } else {
        lemma_distinct_prefix(s, key, s.len() - 1);
        assert(s.take(s.len() - 1) =~= s.drop_last());
        assert(s.drop_last()[i] == s[i]);
        lemma_row_map_update(s.drop_last(), key, i, r);
        assert(t.drop_last() =~= s.drop_last().update(i, r));
        assert(t.last() == s.last());
        assert(key(r) != key(s.last()));
        assert(row_map(s.drop_last(), key).insert(key(r), r).insert(key(s.last()), s.last())
            =~= row_map(s.drop_last(), key).insert(key(s.last()), s.last()).insert(key(r), r));
    }
}

/// Inserting a row with a fresh key at any position is a map insert.
pub proof fn lemma_row_map_insert_at<K, R>(s: Seq<R>, key: spec_fn(R) -> K, i: int, r: R)
    requires
        0 <= i <= s.len(),
        forall|j: int| 0 <= j < s.len() ==> key(#[trigger] s[j]) != key(r),
    ensures
        row_map(s.insert(i, r), key) == row_map(s, key).insert(key(r), r),
    decreases s.len(),
{
    if i == s.len() {
        assert(s.insert(i, r) =~= s.push(r));
        lemma_row_map_push(s, key, r);
    } else {
        let t = s.insert(i, r);
        assert(t.last() == s.last());
        assert(t.drop_last() =~= s.drop_last().insert(i, r));
        assert forall|j: int| 0 <= j < s.drop_last().len() implies key(#[trigger] s.drop_last()[j])
            != key(r) by {
            assert(s.drop_last()[j] == s[j]);
        }
        lemma_row_map_insert_at(s.drop_last(), key, i, r);
        assert(key(s[s.len() - 1]) != key(r));
        assert(row_map(s.drop_last(), key).insert(key(r), r).insert(key(s.last()), s.last())
            =~= row_map(s.drop_last(), key).insert(key(s.last()), s.last()).insert(key(r), r));
    }
}

/// The weighted sum of a map's entries; the workhorse behind the
/// read-side aggregation contracts.
pub open spec fn map_sum<K, R>(m: Map<K, R>, w: spec_fn(K, R) -> int) -> int {
    m.dom().fold(0, sum_step(m, w))
}

pub open spec fn sum_step<K, R>(m: Map<K, R>, w: spec_fn(K, R) -> int) -> spec_fn(int, K) -> int {
    |acc: int, k: K| acc + w(k, m[k])
}

proof fn lemma_sum_step_commutative<K, R>(m: Map<K, R>, w: spec_fn(K, R) -> int)
    ensures
        vstd::set::fold::is_fun_commutative(sum_step(m, w)),
{
}

/// Folding a finite set with two functions that agree on its elements
/// gives the same result.
proof fn lemma_fold_congruence<A>(s: Set<A>, f1: spec_fn(int, A) -> int, f2: spec_fn(int, A) -> int)
    requires
        s.finite(),
        vstd::set::fold::is_fun_commutative(f1),
        vstd::set::fold::is_fun_commutative(f2),
        forall|b: int, a: A| s.contains(a) ==> #[trigger] f1(b, a) == f2(b, a),
    ensures
        s.fold(0, f1) == s.fold(0, f2),
{
    let pred = |t: Set<A>| (t.finite() && t.subset_of(s)) ==> t.fold(0, f1) == t.fold(0, f2);
    assert(pred(Set::<A>::empty())) by {
        vstd::set::fold::lemma_fold_empty(0, f1);
        vstd::set::fold::lemma_fold_empty(0, f2);
    }
    assert forall|t: Set<A>, a: A| pred(t) && t.finite() && !t.contains(a) implies #[trigger] pred(
        t.insert(a),
    ) by {
        if t.insert(a).finite() && t.insert(a).subset_of(s) {
            assert(t.subset_of(s));
            assert(s.contains(a));
            vstd::set::fold::lemma_fold_insert(t, 0, f1, a);
            vstd::set::fold::lemma_fold_insert(t, 0, f2, a);
        }
    }
    vstd::set::fold::lemma_finite_set_induct(s, pred);
    assert(pred(s));
}

/// The sum over the empty map is zero.
pub proof fn lemma_map_sum_empty<K, R>(w: spec_fn(K, R) -> int)
    ensures
        map_sum(Map::<K, R>::empty(), w) == 0,
{
    assert(Map::<K, R>::empty().dom() =~= Set::<K>::empty());
    vstd::set::fold::lemma_fold_empty(0, sum_step(Map::<K, R>::empty(), w));
}

/// Inserting a fresh entry adds its weight to the sum.
pub proof fn lemma_map_sum_insert<K, R>(m: Map<K, R>, w: spec_fn(K, R) -> int, k: K, r: R)
    requires
        m.dom().finite(),
        !m.dom().contains(k),
    ensures
        map_sum(m.insert(k, r), w) == map_sum(m, w) + w(k, r),
{
    let m2 = m.insert(k, r);
    assert(m2.dom() =~= m.dom().insert(k));
    lemma_sum_step_commutative(m, w);
    lemma_sum_step_commutative(m2, w);
    vstd::set::fold::lemma_fold_insert(m.dom(), 0, sum_step(m2, w), k);
    assert forall|b: int, a: K| m.dom().contains(a) implies #[trigger] sum_step(m, w)(b, a)
        == sum_step(m2, w)(b, a) by {
        assert(a != k);
        assert(m2[a] == m[a]);
    }
    lemma_fold_congruence(m.dom(), sum_step(m, w), sum_step(m2, w));
    assert(sum_step(m2, w)(map_sum(m, w), k) == map_sum(m, w) + w(k, r));
}

} // verus!
