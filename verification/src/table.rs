//! The mathematical model shared by the three state tables: an
//! association list with unique keys, read through `table_get` and,
//! for the balance table, summed by `sum_values`.

use vstd::prelude::*;

verus! {

/// No key occurs twice among the entries.
pub open spec fn keys_unique<K, V>(s: Seq<(K, V)>) -> bool {
    forall|i: int, j: int| 0 <= i < j < s.len() ==> s[i].0 != s[j].0
}

/// The value stored under `k`, or `None` when `k` is absent.
pub open spec fn table_get<K, V>(s: Seq<(K, V)>, k: K) -> Option<V>
    decreases s.len(),
{
    if s.len() == 0 {
        None
    } else if s.last().0 == k {
        Some(s.last().1)
    } else {
        table_get(s.drop_last(), k)
    }
}

/// The balance read for key `k`: the stored value, or 0 when absent —
/// zero is the terminal and the absence state alike.
pub open spec fn balance_in<K>(s: Seq<(K, i128)>, k: K) -> int {
    match table_get(s, k) {
        Some(b) => b as int,
        None => 0,
    }
}

/// The sum of every stored value, over the unbounded integers.
pub open spec fn sum_values<K>(s: Seq<(K, i128)>) -> int
    decreases s.len(),
{
    if s.len() == 0 {
        0
    } else {
        sum_values(s.drop_last()) + s.last().1
    }
}

/// An entry at position `i` is what `table_get` returns for its key,
/// provided keys are unique.
pub proof fn lemma_table_get_present<K, V>(s: Seq<(K, V)>, k: K, i: int)
    requires
        keys_unique(s),
        0 <= i < s.len(),
        s[i].0 == k,
    ensures
        table_get(s, k) == Some(s[i].1),
    decreases s.len(),
{
    if i < s.len() - 1 {
        assert(s.last().0 != k);
        lemma_table_get_present(s.drop_last(), k, i);
    }
}

/// A key held by no entry reads back `None`.
pub proof fn lemma_table_get_absent<K, V>(s: Seq<(K, V)>, k: K)
    requires
        forall|i: int| 0 <= i < s.len() ==> s[i].0 != k,
    ensures
        table_get(s, k) == None::<V>,
    decreases s.len(),
{
    if s.len() > 0 {
        lemma_table_get_absent(s.drop_last(), k);
    }
}

/// Overwriting the value at position `i` (key kept) changes only that
/// key's lookup and keeps the keys unique.
pub proof fn lemma_table_update_entry<K, V>(s: Seq<(K, V)>, i: int, v: V)
    requires
        keys_unique(s),
        0 <= i < s.len(),
    ensures
        keys_unique(s.update(i, (s[i].0, v))),
        table_get(s.update(i, (s[i].0, v)), s[i].0) == Some(v),
        forall|k: K| k != s[i].0 ==> table_get(s.update(i, (s[i].0, v)), k) == table_get(s, k),
{
    let t = s.update(i, (s[i].0, v));
    assert(keys_unique(t));
    lemma_table_get_present(t, s[i].0, i);
    assert forall|k: K| k != s[i].0 implies table_get(t, k) == table_get(s, k) by {
        if exists|j: int| 0 <= j < s.len() && s[j].0 == k {
            let j = choose|j: int| 0 <= j < s.len() && s[j].0 == k;
            lemma_table_get_present(s, k, j);
            lemma_table_get_present(t, k, j);
        } else {
            lemma_table_get_absent(s, k);
            lemma_table_get_absent(t, k);
        }
    }
}

/// Appending an entry under a fresh key adds exactly that lookup and
/// keeps the keys unique.
pub proof fn lemma_table_push_entry<K, V>(s: Seq<(K, V)>, k: K, v: V)
    requires
        keys_unique(s),
        forall|i: int| 0 <= i < s.len() ==> s[i].0 != k,
    ensures
        keys_unique(s.push((k, v))),
        table_get(s.push((k, v)), k) == Some(v),
        forall|k2: K| k2 != k ==> table_get(s.push((k, v)), k2) == table_get(s, k2),
{
    let t = s.push((k, v));
    assert(keys_unique(t));
    assert(t.last() == (k, v));
    assert(t.drop_last() =~= s);
}

/// Overwriting the value at position `i` moves the sum by the
/// difference of new and old value.
pub proof fn lemma_sum_update<K>(s: Seq<(K, i128)>, i: int, p: (K, i128))
    requires
        0 <= i < s.len(),
    ensures
        sum_values(s.update(i, p)) == sum_values(s) - s[i].1 + p.1,
    decreases s.len(),
{
    let t = s.update(i, p);
    if i == s.len() - 1 {
        assert(t.drop_last() =~= s.drop_last());
    } else {
        assert(t.drop_last() =~= s.drop_last().update(i, p));
        assert(t.last() == s.last());
        lemma_sum_update(s.drop_last(), i, p);
    }
}

/// Appending an entry adds its value to the sum.
pub proof fn lemma_sum_push<K>(s: Seq<(K, i128)>, p: (K, i128))
    ensures
        sum_values(s.push(p)) == sum_values(s) + p.1,
{
    let t = s.push(p);
    assert(t.last() == p);
    assert(t.drop_last() =~= s);
}

/// One more entry of a prefix adds that entry's value to the prefix sum.
pub proof fn lemma_sum_take_step<K>(s: Seq<(K, i128)>, i: int)
    requires
        0 <= i < s.len(),
    ensures
        sum_values(s.take(i + 1)) == sum_values(s.take(i)) + s[i].1,
{
    let t = s.take(i + 1);
    assert(t.last() == s[i]);
    assert(t.drop_last() =~= s.take(i));
}

} // verus!
