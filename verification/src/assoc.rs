//! Sequences used as association lists: every ledger in this crate keeps
//! its entries in a `Vec` and looks them up by a string key drawn from the
//! entry by a spec-level projection.

use vstd::prelude::*;

verus! {

/// Index of the first element of `s` whose key (under `k`) is `key`,
/// or -1 when there is none.
pub open spec fn key_at<T>(s: Seq<T>, k: spec_fn(T) -> Seq<char>, key: Seq<char>) -> int
    decreases s.len(),
{
    if s.len() == 0 {
        -1
    } else if k(s[0]) == key {
        0
    } else if key_at(s.drop_first(), k, key) == -1 {
        -1
    } else {
        key_at(s.drop_first(), k, key) + 1
    }
}

pub open spec fn has_key<T>(s: Seq<T>, k: spec_fn(T) -> Seq<char>, key: Seq<char>) -> bool {
    key_at(s, k, key) >= 0
}

/// No two elements of `s` carry the same key.
pub open spec fn distinct_keys<T>(s: Seq<T>, k: spec_fn(T) -> Seq<char>) -> bool {
    forall|i: int, j: int| 0 <= i < j < s.len() ==> k(#[trigger] s[i]) != k(#[trigger] s[j])
}

/// `key_at` returns a position in bounds, that position carries the key,
/// no earlier position does, and -1 means no position does.
pub proof fn lemma_key_at<T>(s: Seq<T>, k: spec_fn(T) -> Seq<char>, key: Seq<char>)
    ensures
        -1 <= key_at(s, k, key) < s.len(),
        key_at(s, k, key) >= 0 ==> k(s[key_at(s, k, key)]) == key,
        forall|j: int| 0 <= j < key_at(s, k, key) ==> k(#[trigger] s[j]) != key,
        key_at(s, k, key) == -1 ==> forall|j: int| 0 <= j < s.len() ==> k(#[trigger] s[j]) != key,
    decreases s.len(),
{
    if s.len() > 0 {
        lemma_key_at(s.drop_first(), k, key);
        assert(forall|j: int| 1 <= j < s.len() ==> #[trigger] s[j] == s.drop_first()[j - 1]);
    }
}

/// The first position that carries `key` is what `key_at` returns.
pub proof fn lemma_key_at_witness<T>(s: Seq<T>, k: spec_fn(T) -> Seq<char>, i: int)
    requires
        0 <= i < s.len(),
        forall|j: int| 0 <= j < i ==> k(#[trigger] s[j]) != k(s[i]),
    ensures
        key_at(s, k, k(s[i])) == i,
    decreases i,
{
    if i == 0 {
    } else {
        assert(forall|j: int| 0 <= j < s.len() - 1 ==> s.drop_first()[j] == #[trigger] s[j + 1]);
        lemma_key_at_witness(s.drop_first(), k, i - 1);
    }
}

/// How appending one element moves `key_at`.
pub proof fn lemma_key_at_push<T>(s: Seq<T>, k: spec_fn(T) -> Seq<char>, key: Seq<char>, v: T)
    ensures
        key_at(s.push(v), k, key) == (if has_key(s, k, key) {
            key_at(s, k, key)
        } else if k(v) == key {
            s.len() as int
        } else {
            -1
        }),
    decreases s.len(),
{
    if s.len() == 0 {
        assert(s.push(v)[0] == v);
        assert(s.push(v).drop_first() =~= Seq::<T>::empty());
        assert(key_at(Seq::<T>::empty(), k, key) == -1);
        assert(key_at(s, k, key) == -1);
        assert(s =~= Seq::<T>::empty());
    } else {
        assert(s.push(v)[0] == s[0]);
        assert(s.push(v).drop_first() =~= s.drop_first().push(v));
        lemma_key_at_push(s.drop_first(), k, key, v);
        let df = s.drop_first();
        if k(s[0]) == key {
            assert(key_at(s.push(v), k, key) == 0);
            assert(key_at(s, k, key) == 0);
        } else {
            assert(key_at(s.push(v), k, key) == (if key_at(df.push(v), k, key) == -1 {
                -1
            } else {
                key_at(df.push(v), k, key) + 1
            }));
            assert(key_at(s, k, key) == (if key_at(df, k, key) == -1 {
                -1
            } else {
                key_at(df, k, key) + 1
            }));
        }
    }
}

/// Replacing an element by one with the same key leaves every `key_at`
/// unchanged.
pub proof fn lemma_key_at_update<T>(
    s: Seq<T>,
    k: spec_fn(T) -> Seq<char>,
    key: Seq<char>,
    i: int,
    v: T,
)
    requires
        0 <= i < s.len(),
        k(v) == k(s[i]),
    ensures
        key_at(s.update(i, v), k, key) == key_at(s, k, key),
    decreases s.len(),
{
    if s.len() > 0 {
        if i == 0 {
            assert(s.update(i, v)[0] == v);
            assert(s.update(i, v).drop_first() =~= s.drop_first());
        } else {
            assert(s.update(i, v)[0] == s[0]);
            assert(s.update(i, v).drop_first() =~= s.drop_first().update(i - 1, v));
            lemma_key_at_update(s.drop_first(), k, key, i - 1, v);
        }
    }
}

/// Removing the element at `i` does not disturb lookups of other keys.
pub proof fn lemma_key_at_remove<T>(
    s: Seq<T>,
    k: spec_fn(T) -> Seq<char>,
    key: Seq<char>,
    i: int,
)
    requires
        0 <= i < s.len(),
        k(s[i]) != key,
    ensures
        has_key(s.remove(i), k, key) == has_key(s, k, key),
        has_key(s, k, key) ==> s.remove(i)[key_at(s.remove(i), k, key)] == s[key_at(s, k, key)],
    decreases s.len(),
{
    if i == 0 {
        assert(s.remove(0) =~= s.drop_first());
        lemma_key_at(s.drop_first(), k, key);
        assert(forall|j: int| 0 <= j < s.len() - 1 ==> s.drop_first()[j] == #[trigger] s[j + 1]);
    } else {
        assert(s.remove(i).drop_first() =~= s.drop_first().remove(i - 1));
        assert(s.remove(i)[0] == s[0]);
        lemma_key_at_remove(s.drop_first(), k, key, i - 1);
        lemma_key_at(s.drop_first().remove(i - 1), k, key);
        lemma_key_at(s.drop_first(), k, key);
    }
}

/// After removing the only element that carries its key, the key is gone.
pub proof fn lemma_key_at_remove_self<T>(s: Seq<T>, k: spec_fn(T) -> Seq<char>, i: int)
    requires
        0 <= i < s.len(),
        forall|j: int| 0 <= j < s.len() && j != i ==> k(#[trigger] s[j]) != k(s[i]),
    ensures
        !has_key(s.remove(i), k, k(s[i])),
{
    lemma_key_at(s.remove(i), k, k(s[i]));
    assert(forall|j: int| 0 <= j < i ==> s.remove(i)[j] == #[trigger] s[j]);
    assert(forall|j: int| i <= j < s.len() - 1 ==> s.remove(i)[j] == #[trigger] s[j + 1]);
    if has_key(s.remove(i), k, k(s[i])) {
        let w = key_at(s.remove(i), k, k(s[i]));
        if w < i {
            assert(k(s[w]) == k(s[i]));
        } else {
            assert(k(s[w + 1]) == k(s[i]));
        }
    }
}

/// Distinctness survives removing an element.
pub proof fn lemma_distinct_remove<T>(s: Seq<T>, k: spec_fn(T) -> Seq<char>, i: int)
    requires
        0 <= i < s.len(),
        distinct_keys(s, k),
    ensures
        distinct_keys(s.remove(i), k),
{
    assert(forall|j: int| 0 <= j < i ==> s.remove(i)[j] == #[trigger] s[j]);
    assert(forall|j: int| i <= j < s.len() - 1 ==> s.remove(i)[j] == #[trigger] s[j + 1]);
}

/// Distinctness survives appending a fresh key.
pub proof fn lemma_distinct_push<T>(s: Seq<T>, k: spec_fn(T) -> Seq<char>, v: T)
    requires
        distinct_keys(s, k),
        !has_key(s, k, k(v)),
    ensures
        distinct_keys(s.push(v), k),
{
    lemma_key_at(s, k, k(v));
    assert(forall|j: int| 0 <= j < s.len() ==> s.push(v)[j] == #[trigger] s[j]);
    assert(s.push(v)[s.len() as int] == v);
}

/// Distinctness survives replacing an element by one with the same key.
pub proof fn lemma_distinct_update<T>(s: Seq<T>, k: spec_fn(T) -> Seq<char>, i: int, v: T)
    requires
        0 <= i < s.len(),
        distinct_keys(s, k),
        k(v) == k(s[i]),
    ensures
        distinct_keys(s.update(i, v), k),
{
}

/// Under distinct keys, any position that carries `key` is the one
/// `key_at` returns.
pub proof fn lemma_key_at_unique<T>(s: Seq<T>, k: spec_fn(T) -> Seq<char>, i: int)
    requires
        0 <= i < s.len(),
        distinct_keys(s, k),
    ensures
        key_at(s, k, k(s[i])) == i,
{
    lemma_key_at_witness(s, k, i);
}

} // verus!
