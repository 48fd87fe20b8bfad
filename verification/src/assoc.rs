//! Association lists: sequences of key and value pairs, looked up by the first
//! entry with a given key.
use vstd::prelude::*;

verus! {

/// Whether `i` is the position of the first entry of `s` with key `k`.
pub open spec fn is_first_key<K, V>(s: Seq<(K, V)>, k: K, i: int) -> bool {
    &&& 0 <= i < s.len()
    &&& s[i].0 == k
    &&& forall|j: int| 0 <= j < i ==> s[j].0 != k
}

/// The position of the first entry of `s` with key `k`, if there is one.
pub open spec fn first_key<K, V>(s: Seq<(K, V)>, k: K) -> Option<int> {
    if exists|i: int| is_first_key(s, k, i) {
        Some(choose|i: int| is_first_key(s, k, i))
    } else {
        None
    }
}

/// The first entry with a key is where [first_key] points; with no entry of
/// that key, there is none.
pub proof fn lemma_first_key<K, V>(s: Seq<(K, V)>, k: K, i: int)
    requires
        is_first_key(s, k, i),
    ensures
        first_key(s, k) == Some(i),
{
    let c = choose|j: int| is_first_key(s, k, j);
    assert(is_first_key(s, k, c));
    if c < i {
        assert(s[c].0 != k);
    }
    if i < c {
        assert(s[i].0 != k);
    }
}

/// With no entry of key `k`, [first_key] is `None`.
pub proof fn lemma_no_key<K, V>(s: Seq<(K, V)>, k: K)
    requires
        forall|j: int| 0 <= j < s.len() ==> s[j].0 != k,
    ensures
        first_key(s, k) is None,
{
    if exists|i: int| is_first_key(s, k, i) {
        let c = choose|i: int| is_first_key(s, k, i);
        assert(s[c].0 == k);
    }
}

/// `s` with the value of the first entry of key `k` replaced by `v`, or with
/// `(k, v)` added at the end when there is no such entry.
pub open spec fn key_put<K, V>(s: Seq<(K, V)>, k: K, v: V) -> Seq<(K, V)> {
    match first_key(s, k) {
        Some(i) => s.update(i, (k, v)),
        None => s.push((k, v)),
    }
}

/// Each entry of `more` put into `s` in turn, as [key_put] does.
pub open spec fn key_put_all<K, V>(s: Seq<(K, V)>, more: Seq<(K, V)>) -> Seq<(K, V)>
    decreases more.len(),
{
    if more.len() == 0 {
        s
    } else {
        key_put_all(key_put(s, more[0].0, more[0].1), more.drop_first())
    }
}

} // verus!
