//! Lists of entries with distinct text keys, read as maps from key to value.
use vstd::prelude::*;

verus! {

/// The keys of the entries of `s`, in order.
pub open spec fn keys_of<T>(s: Seq<T>, key: spec_fn(T) -> Seq<char>) -> Seq<Seq<char>> {
    s.map_values(key)
}

/// The index of an entry with key `k` within `s`.
pub open spec fn index_of_key<T>(s: Seq<T>, key: spec_fn(T) -> Seq<char>, k: Seq<char>) -> int {
    choose|i: int| 0 <= i < s.len() && key(s[i]) == k
}

/// The entries of `s` as a map from key to value.
pub open spec fn keyed_map<T, V>(
    s: Seq<T>,
    key: spec_fn(T) -> Seq<char>,
    val: spec_fn(T) -> V,
) -> Map<Seq<char>, V> {
    Map::new(
        |k: Seq<char>| keys_of(s, key).contains(k),
        |k: Seq<char>| val(s[index_of_key(s, key, k)]),
    )
}

/// The entry at `i` is what the map holds under its key.
pub proof fn lemma_keyed_at<T, V>(
    s: Seq<T>,
    key: spec_fn(T) -> Seq<char>,
    val: spec_fn(T) -> V,
    i: int,
)
    requires
        keys_of(s, key).no_duplicates(),
        0 <= i < s.len(),
    ensures
        keyed_map(s, key, val).contains_key(key(s[i])),
        keyed_map(s, key, val)[key(s[i])] == val(s[i]),
{
    let k = key(s[i]);
    assert(keys_of(s, key)[i] == k);
    assert(keys_of(s, key).contains(k));
    let j = index_of_key(s, key, k);
    assert(keys_of(s, key)[j] == k);
    if j != i {
        assert(keys_of(s, key)[i] != keys_of(s, key)[j]);
    }
}

/// The map holds a key exactly when an entry has it.
pub proof fn lemma_keyed_contains<T, V>(
    s: Seq<T>,
    key: spec_fn(T) -> Seq<char>,
    val: spec_fn(T) -> V,
    k: Seq<char>,
)
    ensures
        keyed_map(s, key, val).contains_key(k) <==> exists|i: int|
            0 <= i < s.len() && #[trigger] key(s[i]) == k,
{
    if keys_of(s, key).contains(k) {
        let i = choose|i: int| 0 <= i < keys_of(s, key).len() && keys_of(s, key)[i] == k;
        assert(key(s[i]) == k);
    }
    if exists|i: int| 0 <= i < s.len() && #[trigger] key(s[i]) == k {
        let i = choose|i: int| 0 <= i < s.len() && #[trigger] key(s[i]) == k;
        assert(keys_of(s, key)[i] == k);
    }
}

/// Appending an entry with a new key inserts it.
pub proof fn lemma_keyed_push<T, V>(
    s: Seq<T>,
    key: spec_fn(T) -> Seq<char>,
    val: spec_fn(T) -> V,
    p: T,
)
    requires
        keys_of(s, key).no_duplicates(),
        !keyed_map(s, key, val).contains_key(key(p)),
    ensures
        keys_of(s.push(p), key).no_duplicates(),
        keyed_map(s.push(p), key, val) == keyed_map(s, key, val).insert(key(p), val(p)),
{
    let t = s.push(p);
    lemma_keyed_contains(s, key, val, key(p));
    assert(keys_of(t, key) =~= keys_of(s, key).push(key(p)));
    assert forall|i: int, j: int|
        0 <= i < keys_of(t, key).len() && 0 <= j < keys_of(t, key).len() && i != j implies keys_of(
        t,
        key,
    )[i] != keys_of(t, key)[j] by {
        if i < s.len() && j < s.len() {
            assert(keys_of(s, key)[i] != keys_of(s, key)[j]);
        } else if i < s.len() {
            assert(key(s[i]) == keys_of(t, key)[i]);
        } else {
            assert(key(s[j]) == keys_of(t, key)[j]);
        }
    }
    let m = keyed_map(t, key, val);
    let n = keyed_map(s, key, val).insert(key(p), val(p));
    assert forall|k: Seq<char>| m.contains_key(k) <==> n.contains_key(k) by {
        lemma_keyed_contains(s, key, val, k);
        lemma_keyed_contains(t, key, val, k);
        if k == key(p) {
            assert(key(t[s.len() as int]) == k);
        }
        if exists|i: int| 0 <= i < t.len() && #[trigger] key(t[i]) == k {
            let i = choose|i: int| 0 <= i < t.len() && #[trigger] key(t[i]) == k;
            if i < s.len() {
                assert(key(s[i]) == k);
            }
        }
        if exists|i: int| 0 <= i < s.len() && #[trigger] key(s[i]) == k {
            let i = choose|i: int| 0 <= i < s.len() && #[trigger] key(s[i]) == k;
            assert(key(t[i]) == k);
        }
    }
    assert forall|k: Seq<char>| m.contains_key(k) implies m[k] == n[k] by {
        lemma_keyed_contains(t, key, val, k);
        let i = choose|i: int| 0 <= i < t.len() && #[trigger] key(t[i]) == k;
        lemma_keyed_at(t, key, val, i);
        if i < s.len() {
            assert(s[i] == t[i]);
            lemma_keyed_at(s, key, val, i);
        }
    }
    assert(m =~= n);
}

/// Replacing an entry by one with the same key updates that key.
pub proof fn lemma_keyed_update<T, V>(
    s: Seq<T>,
    key: spec_fn(T) -> Seq<char>,
    val: spec_fn(T) -> V,
    i: int,
    p: T,
)
    requires
        keys_of(s, key).no_duplicates(),
        0 <= i < s.len(),
        key(p) == key(s[i]),
    ensures
        keys_of(s.update(i, p), key).no_duplicates(),
        keyed_map(s.update(i, p), key, val) == keyed_map(s, key, val).insert(key(p), val(p)),
{
    let t = s.update(i, p);
    assert(keys_of(t, key) =~= keys_of(s, key));
    let m = keyed_map(t, key, val);
    let n = keyed_map(s, key, val).insert(key(p), val(p));
    lemma_keyed_at(s, key, val, i);
    assert forall|k: Seq<char>| m.contains_key(k) <==> n.contains_key(k) by {
        lemma_keyed_contains(s, key, val, k);
        lemma_keyed_contains(t, key, val, k);
        if exists|j: int| 0 <= j < t.len() && #[trigger] key(t[j]) == k {
            let j = choose|j: int| 0 <= j < t.len() && #[trigger] key(t[j]) == k;
            if j != i {
                assert(key(s[j]) == k);
            }
        }
        if exists|j: int| 0 <= j < s.len() && #[trigger] key(s[j]) == k {
            let j = choose|j: int| 0 <= j < s.len() && #[trigger] key(s[j]) == k;
            assert(key(t[j]) == k);
        }
    }
    assert forall|k: Seq<char>| m.contains_key(k) implies m[k] == n[k] by {
        lemma_keyed_contains(t, key, val, k);
        let j = choose|j: int| 0 <= j < t.len() && #[trigger] key(t[j]) == k;
        lemma_keyed_at(t, key, val, j);
        if j != i {
            lemma_keyed_at(s, key, val, j);
            assert(keys_of(s, key)[i] != keys_of(s, key)[j]);
            assert(t[j] == s[j]);
        }
    }
    assert(m =~= n);
}

/// Removing the entry at `i` removes its key.
pub proof fn lemma_keyed_remove<T, V>(
    s: Seq<T>,
    key: spec_fn(T) -> Seq<char>,
    val: spec_fn(T) -> V,
    i: int,
)
    requires
        keys_of(s, key).no_duplicates(),
        0 <= i < s.len(),
    ensures
        keys_of(s.remove(i), key).no_duplicates(),
        keyed_map(s.remove(i), key, val) == keyed_map(s, key, val).remove(key(s[i])),
{
    let t = s.remove(i);
    assert forall|a: int, b: int|
        0 <= a < keys_of(t, key).len() && 0 <= b < keys_of(t, key).len() && a != b implies keys_of(
        t,
        key,
    )[a] != keys_of(t, key)[b] by {
        let a2 = if a < i {
            a
        } else {
            a + 1
        };
        let b2 = if b < i {
            b
        } else {
            b + 1
        };
        assert(keys_of(t, key)[a] == keys_of(s, key)[a2]);
        assert(keys_of(t, key)[b] == keys_of(s, key)[b2]);
    }
    let m = keyed_map(t, key, val);
    let n = keyed_map(s, key, val).remove(key(s[i]));
    lemma_keyed_at(s, key, val, i);
    assert forall|k: Seq<char>| m.contains_key(k) <==> n.contains_key(k) by {
        lemma_keyed_contains(s, key, val, k);
        lemma_keyed_contains(t, key, val, k);
        if exists|j: int| 0 <= j < t.len() && #[trigger] key(t[j]) == k {
            let j = choose|j: int| 0 <= j < t.len() && #[trigger] key(t[j]) == k;
            let j2 = if j < i {
                j
            } else {
                j + 1
            };
            assert(key(s[j2]) == k);
            assert(keys_of(s, key)[j2] == k);
            assert(keys_of(s, key)[i] == key(s[i]));
        }
        if exists|j: int| 0 <= j < s.len() && #[trigger] key(s[j]) == k && k != key(s[i]) {
            let j = choose|j: int| 0 <= j < s.len() && #[trigger] key(s[j]) == k && k != key(s[i]);
            let j2 = if j < i {
                j
            } else {
                j - 1
            };
            assert(key(t[j2]) == k);
        }
    }
    assert forall|k: Seq<char>| m.contains_key(k) implies m[k] == n[k] by {
        lemma_keyed_contains(t, key, val, k);
        assert(n.contains_key(k));
        let j = choose|j: int| 0 <= j < t.len() && #[trigger] key(t[j]) == k;
        lemma_keyed_at(t, key, val, j);
        let j2 = if j < i {
            j
        } else {
            j + 1
        };
        assert(t[j] == s[j2]);
        lemma_keyed_at(s, key, val, j2);
    }
    assert(m =~= n);
}

/// With distinct keys, the map has one key per entry and finitely many.
pub proof fn lemma_keyed_len<T, V>(s: Seq<T>, key: spec_fn(T) -> Seq<char>, val: spec_fn(T) -> V)
    requires
        keys_of(s, key).no_duplicates(),
    ensures
        keyed_map(s, key, val).dom() == keys_of(s, key).to_set(),
        keyed_map(s, key, val).dom().finite(),
        keyed_map(s, key, val).len() == s.len(),
{
    vstd::seq_lib::seq_to_set_is_finite(keys_of(s, key));
    assert(keyed_map(s, key, val).dom() =~= keys_of(s, key).to_set());
    keys_of(s, key).unique_seq_to_set();
}

} // verus!
