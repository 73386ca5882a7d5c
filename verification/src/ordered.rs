//! Mathematical model of insertion-ordered maps and sets.
//!
//! An ordered map is viewed as a sequence of `(key, value)` entries in
//! insertion order; an ordered set as a sequence of keys.
use vstd::prelude::*;

verus! {

/// No key occurs twice among the entries.
pub open spec fn keys_distinct<K, V>(s: Seq<(K, V)>) -> bool {
    forall|i: int, j: int| 0 <= i < s.len() && 0 <= j < s.len() && i != j ==> s[i].0 != s[j].0
}

/// Some entry has key `k`.
pub open spec fn has_key<K, V>(s: Seq<(K, V)>, k: K) -> bool {
    exists|i: int| 0 <= i < s.len() && s[i].0 == k
}

/// The position of the entry with key `k` (meaningful when `has_key(s, k)`).
pub open spec fn key_pos<K, V>(s: Seq<(K, V)>, k: K) -> int {
    choose|i: int| 0 <= i < s.len() && s[i].0 == k
}

/// The value stored under `k` (meaningful when `has_key(s, k)`).
pub open spec fn value_of<K, V>(s: Seq<(K, V)>, k: K) -> V {
    s[key_pos(s, k)].1
}

/// Inserting `(k, v)`: an existing entry keeps its place and takes the new
/// value; otherwise the entry is appended.
pub open spec fn entries_insert<K, V>(s: Seq<(K, V)>, k: K, v: V) -> Seq<(K, V)> {
    if has_key(s, k) {
        s.update(key_pos(s, k), (k, v))
    } else {
        s.push((k, v))
    }
}

/// Removing the entry with key `k`, shifting the entries after it.
pub open spec fn entries_remove<K, V>(s: Seq<(K, V)>, k: K) -> Seq<(K, V)> {
    if has_key(s, k) {
        s.remove(key_pos(s, k))
    } else {
        s
    }
}

/// Inserting `x` into an ordered set: no change if present, else appended.
pub open spec fn set_insert(s: Seq<u64>, x: u64) -> Seq<u64> {
    if s.contains(x) {
        s
    } else {
        s.push(x)
    }
}

/// The ordered set obtained by inserting the items of `items` in order.
pub open spec fn set_from_seq(items: Seq<u64>) -> Seq<u64>
    decreases items.len(),
{
    if items.len() == 0 {
        Seq::empty()
    } else {
        set_insert(set_from_seq(items.drop_last()), items.last())
    }
}

/// With distinct keys, an entry's key leads back to its own position.
pub proof fn lemma_key_pos<K, V>(s: Seq<(K, V)>, i: int)
    requires
        keys_distinct(s),
        0 <= i < s.len(),
    ensures
        has_key(s, s[i].0),
        key_pos(s, s[i].0) == i,
{
    assert(s[i].0 == s[i].0);
    let j = key_pos(s, s[i].0);
    assert(0 <= j < s.len() && s[j].0 == s[i].0);
}

/// Inserting keeps keys distinct, and a lookup after an insert sees the
/// inserted value under its key and the old values under the other keys.
pub proof fn lemma_insert<K, V>(s: Seq<(K, V)>, k: K, v: V, k2: K)
    requires
        keys_distinct(s),
    ensures
        keys_distinct(entries_insert(s, k, v)),
        has_key(entries_insert(s, k, v), k2) <==> (k2 == k || has_key(s, k2)),
        has_key(entries_insert(s, k, v), k2) ==> value_of(entries_insert(s, k, v), k2) == if k2 == k {
            v
        } else {
            value_of(s, k2)
        },
        entries_insert(s, k, v).len() == if has_key(s, k) {
            s.len()
        } else {
            s.len() + 1
        },
{
    let t = entries_insert(s, k, v);
    if has_key(s, k) {
        let p = key_pos(s, k);
        assert forall|i: int, j: int| 0 <= i < t.len() && 0 <= j < t.len() && i != j implies t[i].0
            != t[j].0 by {
            assert(t[i].0 == s[i].0 && t[j].0 == s[j].0);
        }
        if has_key(t, k2) {
            let q = key_pos(t, k2);
            lemma_key_pos(t, q);
            assert(t[q].0 == s[q].0);
            if k2 != k {
                lemma_key_pos(s, q);
            }
        }
        if has_key(s, k2) {
            let q = key_pos(s, k2);
            assert(t[q].0 == k2);
        }
    } else {
        assert forall|i: int, j: int| 0 <= i < t.len() && 0 <= j < t.len() && i != j implies t[i].0
            != t[j].0 by {
            if i < s.len() && j < s.len() {
            } else if i == s.len() {
                assert(s[j].0 == t[j].0);
            } else {
                assert(s[i].0 == t[i].0);
            }
        }
        assert(t[s.len() as int].0 == k);
        if has_key(t, k2) {
            let q = key_pos(t, k2);
            lemma_key_pos(t, q);
            if q < s.len() {
                lemma_key_pos(s, q);
            }
        }
        if has_key(s, k2) {
            let q = key_pos(s, k2);
            assert(t[q].0 == k2);
        }
    }
}

/// Inserting adds key `k` and keeps the other keys, whether or not keys are
/// distinct.
pub proof fn lemma_insert_keys<K, V>(s: Seq<(K, V)>, k: K, v: V, k2: K)
    ensures
        has_key(entries_insert(s, k, v), k2) <==> (k2 == k || has_key(s, k2)),
{
    let t = entries_insert(s, k, v);
    if has_key(s, k) {
        let p = key_pos(s, k);
        if has_key(t, k2) {
            let q = choose|q: int| 0 <= q < t.len() && t[q].0 == k2;
            assert(t[q].0 == s[q].0);
        }
        if has_key(s, k2) {
            let q = choose|q: int| 0 <= q < s.len() && s[q].0 == k2;
            assert(t[q].0 == s[q].0);
        }
        assert(t[p].0 == k);
    } else {
        if has_key(t, k2) {
            let q = choose|q: int| 0 <= q < t.len() && t[q].0 == k2;
            if q < s.len() {
                assert(t[q] == s[q]);
            }
        }
        if has_key(s, k2) {
            let q = choose|q: int| 0 <= q < s.len() && s[q].0 == k2;
            assert(t[q] == s[q]);
        }
        assert(t[s.len() as int].0 == k);
    }
}

/// Each entry after an insert is the inserted entry or the entry that was
/// at the same position.
pub proof fn lemma_insert_values<K, V>(s: Seq<(K, V)>, k: K, v: V)
    ensures
        entries_insert(s, k, v).len() >= s.len(),
        entries_insert(s, k, v).len() <= s.len() + 1,
        forall|j: int|
            0 <= j < entries_insert(s, k, v).len() ==> #[trigger] entries_insert(s, k, v)[j] == (k, v) || (j
                < s.len() && entries_insert(s, k, v)[j] == s[j]),
{
}

/// Removing an entry keeps keys distinct and leaves the other keys.
pub proof fn lemma_remove<K, V>(s: Seq<(K, V)>, k: K, k2: K)
    requires
        keys_distinct(s),
    ensures
        keys_distinct(entries_remove(s, k)),
        has_key(entries_remove(s, k), k2) <==> (k2 != k && has_key(s, k2)),
        has_key(entries_remove(s, k), k2) ==> value_of(entries_remove(s, k), k2) == value_of(s, k2),
{
    let t = entries_remove(s, k);
    if has_key(s, k) {
        let p = key_pos(s, k);
        assert forall|i: int, j: int| 0 <= i < t.len() && 0 <= j < t.len() && i != j implies t[i].0
            != t[j].0 by {
            let si = if i < p { i } else { i + 1 };
            let sj = if j < p { j } else { j + 1 };
            assert(t[i] == s[si] && t[j] == s[sj]);
        }
        if has_key(t, k2) {
            let q = key_pos(t, k2);
            lemma_key_pos(t, q);
            let sq = if q < p { q } else { q + 1 };
            assert(t[q] == s[sq]);
            lemma_key_pos(s, sq);
        }
        if has_key(s, k2) && k2 != k {
            let q = key_pos(s, k2);
            if q < p {
                assert(t[q] == s[q]);
            } else {
                assert(q != p);
                assert(t[q - 1] == s[q]);
            }
        }
    }
}

/// An ordered set built from a sequence holds exactly the sequence's items.
pub proof fn lemma_set_from_seq(items: Seq<u64>, x: u64)
    ensures
        set_from_seq(items).contains(x) <==> items.contains(x),
    decreases items.len(),
{
    if items.len() > 0 {
        lemma_set_from_seq(items.drop_last(), x);
        let prefix = set_from_seq(items.drop_last());
        if items.contains(x) {
            let i = choose|i: int| 0 <= i < items.len() && items[i] == x;
            if i < items.len() - 1 {
                assert(items.drop_last()[i] == x);
            }
        }
        if items.drop_last().contains(x) {
            let i = choose|i: int| 0 <= i < items.drop_last().len() && items.drop_last()[i] == x;
            assert(items[i] == x);
        }
        if set_insert(prefix, items.last()).contains(x) && !prefix.contains(x) {
            assert(prefix.push(items.last()).contains(x));
            let i = choose|i: int| 0 <= i < prefix.push(items.last()).len() && prefix.push(items.last())[i] == x;
            assert(items[items.len() - 1] == x);
        }
        if prefix.contains(x) {
            let i = choose|i: int| 0 <= i < prefix.len() && prefix[i] == x;
            if !set_insert(prefix, items.last()).contains(x) {
                assert(prefix.push(items.last())[i] == x);
            }
        }
        if x == items.last() {
            if !prefix.contains(x) {
                assert(prefix.push(items.last())[prefix.len() as int] == x);
            }
        }
    }
}

} // verus!
