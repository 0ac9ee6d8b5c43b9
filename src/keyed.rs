use vstd::prelude::*;

verus! {

/// The map from key to element of a sequence whose elements carry a key.
pub open spec fn keyed<T>(s: Seq<T>, key: spec_fn(T) -> usize) -> Map<usize, T> {
    Map::new(
        |k: usize| exists|i: int| 0 <= i < s.len() && #[trigger] key(s[i]) == k,
        |k: usize| s[choose|i: int| 0 <= i < s.len() && #[trigger] key(s[i]) == k],
    )
}

/// No two elements of the sequence share a key.
pub open spec fn unique_keys<T>(s: Seq<T>, key: spec_fn(T) -> usize) -> bool {
    forall|i: int, j: int|
        0 <= i < s.len() && 0 <= j < s.len() && #[trigger] key(s[i]) == #[trigger] key(s[j])
            ==> i == j
}

/// An element of a sequence with unique keys is what its key maps to.
pub proof fn lemma_keyed_index<T>(s: Seq<T>, key: spec_fn(T) -> usize, i: int)
    requires
        unique_keys(s, key),
        0 <= i < s.len(),
    ensures
        keyed(s, key).contains_key(key(s[i])),
        keyed(s, key)[key(s[i])] == s[i],
{
    let k = key(s[i]);
    assert(exists|j: int| 0 <= j < s.len() && #[trigger] key(s[j]) == k);
    let j = choose|j: int| 0 <= j < s.len() && #[trigger] key(s[j]) == k;
    assert(j == i);
}

/// A key that no element carries is not in the map.
pub proof fn lemma_keyed_absent<T>(s: Seq<T>, key: spec_fn(T) -> usize, k: usize)
    requires
        forall|i: int| 0 <= i < s.len() ==> #[trigger] key(s[i]) != k,
    ensures
        !keyed(s, key).contains_key(k),
{
}

/// Appending an element with a new key inserts it into the map.
pub proof fn lemma_keyed_push<T>(s: Seq<T>, key: spec_fn(T) -> usize, x: T)
    requires
        unique_keys(s, key),
        !keyed(s, key).contains_key(key(x)),
    ensures
        unique_keys(s.push(x), key),
        keyed(s.push(x), key) == keyed(s, key).insert(key(x), x),
{
    let t = s.push(x);
    assert forall|i: int| 0 <= i < s.len() implies key(s[i]) != key(x) by {
        if key(s[i]) == key(x) {
            assert(keyed(s, key).contains_key(key(s[i])));
        }
    }
    assert(unique_keys(t, key)) by {
        assert forall|i: int, j: int|
            0 <= i < t.len() && 0 <= j < t.len() && #[trigger] key(t[i]) == #[trigger] key(t[j])
            implies i == j by {
            if i < s.len() && j < s.len() {
                assert(t[i] == s[i] && t[j] == s[j]);
            } else if i < s.len() {
                assert(t[i] == s[i]);
            } else if j < s.len() {
                assert(t[j] == s[j]);
            }
        }
    }
    assert forall|k: usize| #[trigger] keyed(t, key).contains_key(k) == keyed(s, key).insert(key(x), x).contains_key(k) by {
        if keyed(s, key).contains_key(k) {
            let i = choose|i: int| 0 <= i < s.len() && #[trigger] key(s[i]) == k;
            assert(t[i] == s[i]);
        }
        if keyed(t, key).contains_key(k) && k != key(x) {
            let i = choose|i: int| 0 <= i < t.len() && #[trigger] key(t[i]) == k;
            assert(i < s.len());
            assert(t[i] == s[i]);
        }
        assert(key(t[s.len() as int]) == key(x));
    }
    assert forall|k: usize| #[trigger] keyed(t, key).contains_key(k) implies keyed(t, key)[k] == keyed(s, key).insert(key(x), x)[k] by {
        let i = choose|i: int| 0 <= i < t.len() && #[trigger] key(t[i]) == k;
        lemma_keyed_index(t, key, i);
        if i < s.len() {
            assert(t[i] == s[i]);
            lemma_keyed_index(s, key, i);
        }
    }
    assert(keyed(t, key) =~= keyed(s, key).insert(key(x), x));
}

/// Replacing an element by one with the same key updates the map there.
pub proof fn lemma_keyed_update<T>(s: Seq<T>, key: spec_fn(T) -> usize, i: int, x: T)
    requires
        unique_keys(s, key),
        0 <= i < s.len(),
        key(x) == key(s[i]),
    ensures
        unique_keys(s.update(i, x), key),
        keyed(s.update(i, x), key) == keyed(s, key).insert(key(x), x),
{
    let t = s.update(i, x);
    assert(unique_keys(t, key)) by {
        assert forall|a: int, b: int|
            0 <= a < t.len() && 0 <= b < t.len() && #[trigger] key(t[a]) == #[trigger] key(t[b])
            implies a == b by {
            let a2 = a;
            let b2 = b;
            assert(key(t[a]) == key(s[a]));
            assert(key(t[b]) == key(s[b]));
        }
    }
    assert forall|k: usize| #[trigger] keyed(t, key).contains_key(k) == keyed(s, key).insert(key(x), x).contains_key(k) by {
        if keyed(s, key).contains_key(k) {
            let j = choose|j: int| 0 <= j < s.len() && #[trigger] key(s[j]) == k;
            assert(key(t[j]) == key(s[j]));
        }
        if keyed(t, key).contains_key(k) {
            let j = choose|j: int| 0 <= j < t.len() && #[trigger] key(t[j]) == k;
            assert(key(t[j]) == key(s[j]));
        }
        assert(key(t[i]) == key(x));
    }
    assert forall|k: usize| #[trigger] keyed(t, key).contains_key(k) implies keyed(t, key)[k] == keyed(s, key).insert(key(x), x)[k] by {
        let j = choose|j: int| 0 <= j < t.len() && #[trigger] key(t[j]) == k;
        lemma_keyed_index(t, key, j);
        if j != i {
            assert(t[j] == s[j]);
            lemma_keyed_index(s, key, j);
        }
    }
    assert(keyed(t, key) =~= keyed(s, key).insert(key(x), x));
}

/// Removing an element removes its key from the map.
pub proof fn lemma_keyed_remove<T>(s: Seq<T>, key: spec_fn(T) -> usize, i: int)
    requires
        unique_keys(s, key),
        0 <= i < s.len(),
    ensures
        unique_keys(s.remove(i), key),
        keyed(s.remove(i), key) == keyed(s, key).remove(key(s[i])),
{
    let t = s.remove(i);
    assert forall|a: int| 0 <= a < t.len() implies #[trigger] t[a] == s[if a < i { a } else { a + 1 }] by {
    }
    assert(unique_keys(t, key)) by {
        assert forall|a: int, b: int|
            0 <= a < t.len() && 0 <= b < t.len() && #[trigger] key(t[a]) == #[trigger] key(t[b])
            implies a == b by {
            let a2 = if a < i { a } else { a + 1 };
            let b2 = if b < i { b } else { b + 1 };
            assert(t[a] == s[a2]);
            assert(t[b] == s[b2]);
        }
    }
    assert forall|k: usize| #[trigger] keyed(t, key).contains_key(k) == keyed(s, key).remove(key(s[i])).contains_key(k) by {
        if keyed(s, key).contains_key(k) && k != key(s[i]) {
            let j = choose|j: int| 0 <= j < s.len() && #[trigger] key(s[j]) == k;
            let j2 = if j < i { j } else { j - 1 };
            assert(t[j2] == s[j]);
        }
        if keyed(t, key).contains_key(k) {
            let j = choose|j: int| 0 <= j < t.len() && #[trigger] key(t[j]) == k;
            let j2 = if j < i { j } else { j + 1 };
            assert(t[j] == s[j2]);
        }
    }
    assert forall|k: usize| #[trigger] keyed(t, key).contains_key(k) implies keyed(t, key)[k] == keyed(s, key).remove(key(s[i]))[k] by {
        let j = choose|j: int| 0 <= j < t.len() && #[trigger] key(t[j]) == k;
        let j2 = if j < i { j } else { j + 1 };
        assert(t[j] == s[j2]);
        lemma_keyed_index(t, key, j);
        lemma_keyed_index(s, key, j2);
    }
    assert(keyed(t, key) =~= keyed(s, key).remove(key(s[i])));
}

} // verus!
