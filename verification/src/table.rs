//! Lists of key-value pairs with distinct keys, read as maps.

use vstd::prelude::*;

verus! {

/// Some pair of `pairs` has the key `key`.
pub open spec fn has_key<K, V>(pairs: Seq<(K, V)>, key: K) -> bool {
    exists|i: int| 0 <= i < pairs.len() && (#[trigger] pairs[i]).0 == key
}

/// Some pair of `pairs` has the value `value`.
pub open spec fn has_value<K, V>(pairs: Seq<(K, V)>, value: V) -> bool {
    exists|i: int| 0 <= i < pairs.len() && (#[trigger] pairs[i]).1 == value
}

/// The index of a pair with the key `key`.
pub open spec fn place<K, V>(pairs: Seq<(K, V)>, key: K) -> int {
    choose|i: int| 0 <= i < pairs.len() && (#[trigger] pairs[i]).0 == key
}

/// The map that holds each pair's value under its key.
pub open spec fn table<K, V>(pairs: Seq<(K, V)>) -> Map<K, V> {
    Map::new(|key: K| has_key(pairs, key), |key: K| pairs[place(pairs, key)].1)
}

/// No two pairs share a key.
pub open spec fn distinct_keys<K, V>(pairs: Seq<(K, V)>) -> bool {
    forall|i: int, j: int|
        0 <= i < j < pairs.len() ==> (#[trigger] pairs[i]).0 != (#[trigger] pairs[j]).0
}

/// No two pairs share a value.
pub open spec fn distinct_values<K, V>(pairs: Seq<(K, V)>) -> bool {
    forall|i: int, j: int|
        0 <= i < j < pairs.len() ==> (#[trigger] pairs[i]).1 != (#[trigger] pairs[j]).1
}

/// The table holds each pair under its key.
pub proof fn lemma_entry<K, V>(pairs: Seq<(K, V)>, i: int)
    requires
        distinct_keys(pairs),
        0 <= i < pairs.len(),
    ensures
        table(pairs).contains_key(pairs[i].0),
        table(pairs)[pairs[i].0] == pairs[i].1,
{
    assert(has_key(pairs, pairs[i].0));
    assert(place(pairs, pairs[i].0) == i);
}

/// A value is in the table exactly if some pair has it.
pub proof fn lemma_values<K, V>(pairs: Seq<(K, V)>, value: V)
    requires
        distinct_keys(pairs),
    ensures
        table(pairs).contains_value(value) <==> has_value(pairs, value),
{
    if has_value(pairs, value) {
        let i = choose|i: int| 0 <= i < pairs.len() && (#[trigger] pairs[i]).1 == value;
        lemma_entry(pairs, i);
    }
    if table(pairs).contains_value(value) {
        let key = choose|key: K| #[trigger]
            table(pairs).dom().contains(key) && table(pairs)[key] == value;
        assert(pairs[place(pairs, key)].1 == value);
    }
}

/// A key that is missing from a prefix, and is not the key of the pair
/// behind it, is missing from the prefix that is one pair longer.
pub proof fn lemma_prefix_step<K, V>(pairs: Seq<(K, V)>, n: int, key: K)
    requires
        0 <= n < pairs.len(),
        !has_key(pairs.take(n), key),
        pairs[n].0 != key,
    ensures
        !has_key(pairs.take(n + 1), key),
{
    let before = pairs.take(n);
    let upto = pairs.take(n + 1);
    if has_key(upto, key) {
        let k = choose|k: int| 0 <= k < upto.len() && (#[trigger] upto[k]).0 == key;
        assert(before[k].0 == key);
    }
}

/// A value is in the prefix that is one pair longer exactly if it is in the
/// prefix or is the value of the pair behind it.
pub proof fn lemma_prefix_step_value<K, V>(pairs: Seq<(K, V)>, n: int, value: V)
    requires
        0 <= n < pairs.len(),
    ensures
        has_value(pairs.take(n + 1), value) <==> has_value(pairs.take(n), value) || pairs[n].1
            == value,
{
    let before = pairs.take(n);
    let upto = pairs.take(n + 1);
    if has_value(upto, value) && pairs[n].1 != value {
        let k = choose|k: int| 0 <= k < upto.len() && (#[trigger] upto[k]).1 == value;
        assert(before[k].1 == value);
    }
    if has_value(before, value) {
        let k = choose|k: int| 0 <= k < before.len() && (#[trigger] before[k]).1 == value;
        assert(upto[k].1 == value);
    }
    if pairs[n].1 == value {
        assert(upto[n].1 == value);
    }
}

/// Appending a pair with a new key inserts it into the table.
pub proof fn lemma_push<K, V>(pairs: Seq<(K, V)>, key: K, value: V)
    requires
        distinct_keys(pairs),
        !has_key(pairs, key),
    ensures
        distinct_keys(pairs.push((key, value))),
        table(pairs.push((key, value))) == table(pairs).insert(key, value),
{
    let more = pairs.push((key, value));
    let wider = table(pairs).insert(key, value);
    assert forall|i: int, j: int| 0 <= i < j < more.len() implies (#[trigger] more[i]).0 != (
    #[trigger] more[j]).0 by {
        assert(more[i] == pairs[i]);
        if j < pairs.len() {
            assert(more[j] == pairs[j]);
        }
    }
    assert forall|k: K| #[trigger] table(more).dom().contains(k) implies wider.dom().contains(
        k,
    ) by {
        let i = place(more, k);
        if i < pairs.len() {
            assert(pairs[i].0 == k);
        }
    }
    assert forall|k: K| #[trigger] wider.dom().contains(k) implies table(more).dom().contains(k)
        && table(more)[k] == wider[k] by {
        if k == key {
            assert(more[pairs.len() as int] == (key, value));
            lemma_entry(more, pairs.len() as int);
        } else {
            let i = place(pairs, k);
            assert(more[i] == pairs[i]);
            lemma_entry(more, i);
        }
    }
    assert(table(more).dom() =~= wider.dom());
    assert(table(more) =~= wider);
}

/// Taking out the pair at `i` removes its key from the table.
pub proof fn lemma_remove<K, V>(pairs: Seq<(K, V)>, i: int)
    requires
        distinct_keys(pairs),
        0 <= i < pairs.len(),
    ensures
        distinct_keys(pairs.remove(i)),
        table(pairs.remove(i)) == table(pairs).remove(pairs[i].0),
{
    let key = pairs[i].0;
    let fewer = pairs.remove(i);
    let narrower = table(pairs).remove(key);
    assert forall|a: int, b: int| 0 <= a < b < fewer.len() implies (#[trigger] fewer[a]).0 != (
    #[trigger] fewer[b]).0 by {
        assert(fewer[a] == pairs[if a < i { a } else { a + 1 }]);
        assert(fewer[b] == pairs[if b < i { b } else { b + 1 }]);
    }
    assert forall|k: K| #[trigger] table(fewer).dom().contains(k) implies narrower.dom().contains(
        k,
    ) by {
        let a = place(fewer, k);
        let b = if a < i { a } else { a + 1 };
        assert(fewer[a] == pairs[b]);
        assert(pairs[b].0 == k);
        assert(b != i);
    }
    assert forall|k: K| #[trigger] narrower.dom().contains(k) implies table(fewer).dom().contains(
        k,
    ) && table(fewer)[k] == narrower[k] by {
        let b = place(pairs, k);
        assert(pairs[b].0 == k);
        let a = if b < i { b } else { b - 1 };
        assert(fewer[a] == pairs[b]);
        lemma_entry(fewer, a);
    }
    assert(table(fewer).dom() =~= narrower.dom());
    assert(table(fewer) =~= narrower);
}

/// The table has as many keys as there are pairs.
pub proof fn lemma_len<K, V>(pairs: Seq<(K, V)>)
    requires
        distinct_keys(pairs),
    ensures
        table(pairs).dom().finite(),
        table(pairs).dom().len() == pairs.len(),
    decreases pairs.len(),
{
    if pairs.len() == 0 {
        assert(table(pairs).dom() =~= Set::<K>::empty());
    } else {
        let front = pairs.drop_last();
        let last = pairs.last();
        assert(distinct_keys(front)) by {
            assert forall|i: int, j: int| 0 <= i < j < front.len() implies (#[trigger] front[i]).0
                != (#[trigger] front[j]).0 by {
                assert(front[i] == pairs[i] && front[j] == pairs[j]);
            }
        }
        lemma_len(front);
        assert(!has_key(front, last.0)) by {
            if has_key(front, last.0) {
                let i = place(front, last.0);
                assert(pairs[i].0 == pairs[pairs.len() - 1].0);
            }
        }
        lemma_push(front, last.0, last.1);
        assert(front.push((last.0, last.1)) =~= pairs);
    }
}

/// With distinct values, no value is held under two keys.
pub proof fn lemma_injective<K, V>(pairs: Seq<(K, V)>)
    requires
        distinct_keys(pairs),
        distinct_values(pairs),
    ensures
        table(pairs).is_injective(),
{
    let m = table(pairs);
    assert forall|x: K, y: K|
        x != y && m.dom().contains(x) && m.dom().contains(y) implies #[trigger] m[x]
        != #[trigger] m[y] by {
        let i = place(pairs, x);
        let j = place(pairs, y);
        assert(pairs[i].0 == x && pairs[j].0 == y);
        assert(i != j);
        if i < j {
            assert(pairs[i].1 != pairs[j].1);
        } else {
            assert(pairs[j].1 != pairs[i].1);
        }
    }
}

} // verus!
