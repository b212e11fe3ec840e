//! Records identified by a string key, kept in vectors with distinct keys.

use vstd::prelude::*;
use crate::text::str_eq;

verus! {

/// A record that carries a string key.
pub trait Keyed {
    /// The key of the record.
    spec fn key(&self) -> Seq<char>;

    /// The key as a string slice.
    fn key_str(&self) -> (k: &str)
        ensures
            k@ == self.key(),
    ;
}

/// No two records of `s` share a key.
pub open spec fn keys_distinct<T: Keyed>(s: Seq<T>) -> bool {
    forall|i: int, j: int| 0 <= i < j < s.len() ==> s[i].key() != s[j].key()
}

/// Some record of `s` has key `k`.
pub open spec fn has_key<T: Keyed>(s: Seq<T>, k: Seq<char>) -> bool {
    exists|i: int| 0 <= i < s.len() && s[i].key() == k
}

/// The index of the first record of `v` with key `k`, if any.
pub fn position_of<T: Keyed>(v: &Vec<T>, k: &str) -> (r: Option<usize>)
    ensures
        match r {
            Some(i) => {
                &&& i < v@.len()
                &&& v@[i as int].key() == k@
                &&& forall|j: int| 0 <= j < i ==> v@[j].key() != k@
            },
            None => forall|j: int| 0 <= j < v@.len() ==> v@[j].key() != k@,
        },
        r is Some <==> has_key(v@, k@),
{
    let mut i: usize = 0;
    while i < v.len()
        invariant
            i <= v@.len(),
            forall|j: int| 0 <= j < i ==> v@[j].key() != k@,
        decreases v@.len() - i,
    {
        if str_eq(v[i].key_str(), k) {
            return Some(i);
        }
        i = i + 1;
    }
    None
}

} // verus!

verus! {

/// The map from keys to records of a sequence of records: a later record
/// replaces an earlier one with the same key.
pub open spec fn seq_to_map<T, K>(s: Seq<T>, key: spec_fn(T) -> K) -> Map<K, T>
    decreases s.len(),
{
    if s.len() == 0 {
        Map::empty()
    } else {
        seq_to_map(s.drop_last(), key).insert(key(s.last()), s.last())
    }
}

/// No two records of `s` have the same key under `key`.
pub open spec fn distinct_by<T, K>(s: Seq<T>, key: spec_fn(T) -> K) -> bool {
    forall|i: int, j: int| 0 <= i < s.len() && 0 <= j < s.len() && i != j ==> key(s[i]) != key(s[j])
}

/// The keys of the map are those of the records.
pub proof fn lemma_seq_to_map_dom<T, K>(s: Seq<T>, key: spec_fn(T) -> K)
    ensures
        forall|k: K| #[trigger] seq_to_map(s, key).contains_key(k) <==> exists|i: int|
            0 <= i < s.len() && key(#[trigger] s[i]) == k,
    decreases s.len(),
{
    if s.len() > 0 {
        let q = s.drop_last();
        lemma_seq_to_map_dom(q, key);
        assert(seq_to_map(s, key) == seq_to_map(q, key).insert(key(s.last()), s.last()));
        assert forall|k: K| #[trigger] seq_to_map(s, key).contains_key(k) <==> exists|i: int|
            0 <= i < s.len() && key(#[trigger] s[i]) == k by {
            if seq_to_map(s, key).contains_key(k) {
                if k != key(s.last()) {
                    assert(seq_to_map(q, key).contains_key(k));
                }
                if k == key(s.last()) {
                    assert(key(s[s.len() - 1]) == k);
                } else {
                    let i = choose|i: int| 0 <= i < q.len() && key(#[trigger] q[i]) == k;
                    assert(s[i] == q[i]);
                }
            }
            if exists|i: int| 0 <= i < s.len() && key(#[trigger] s[i]) == k {
                let i = choose|i: int| 0 <= i < s.len() && key(#[trigger] s[i]) == k;
                if i < s.len() - 1 {
                    assert(q[i] == s[i]);
                }
            }
        }
    }
}

/// With distinct keys, the map sends each record's key to that record.
pub proof fn lemma_seq_to_map_get<T, K>(s: Seq<T>, key: spec_fn(T) -> K, i: int)
    requires
        distinct_by(s, key),
        0 <= i < s.len(),
    ensures
        seq_to_map(s, key).contains_key(key(s[i])),
        seq_to_map(s, key)[key(s[i])] == s[i],
    decreases s.len(),
{
    let q = s.drop_last();
    if i < s.len() - 1 {
        assert(q[i] == s[i]);
        assert(distinct_by(q, key)) by {
            assert forall|a: int, b: int|
                0 <= a < q.len() && 0 <= b < q.len() && a != b implies key(q[a]) != key(q[b]) by {
                assert(q[a] == s[a] && q[b] == s[b]);
            }
        }
        lemma_seq_to_map_get(q, key, i);
        assert(key(s[s.len() - 1]) != key(s[i]));
    }
}

/// Appending a record with a new key adds it to the map.
pub proof fn lemma_seq_to_map_push<T, K>(s: Seq<T>, key: spec_fn(T) -> K, x: T)
    ensures
        seq_to_map(s.push(x), key) == seq_to_map(s, key).insert(key(x), x),
{
    assert(s.push(x).drop_last() =~= s);
}

/// Replacing a record by one with the same key updates the map.
pub proof fn lemma_seq_to_map_update<T, K>(s: Seq<T>, key: spec_fn(T) -> K, i: int, x: T)
    requires
        distinct_by(s, key),
        0 <= i < s.len(),
        key(x) == key(s[i]),
    ensures
        seq_to_map(s.update(i, x), key) == seq_to_map(s, key).insert(key(x), x),
        distinct_by(s.update(i, x), key),
    decreases s.len(),
{
    let q = s.drop_last();
    let u = s.update(i, x);
    assert(distinct_by(q, key)) by {
        assert forall|a: int, b: int|
            0 <= a < q.len() && 0 <= b < q.len() && a != b implies key(q[a]) != key(q[b]) by {
            assert(q[a] == s[a] && q[b] == s[b]);
        }
    }
    assert(distinct_by(u, key)) by {
        assert forall|a: int, b: int|
            0 <= a < u.len() && 0 <= b < u.len() && a != b implies key(u[a]) != key(u[b]) by {
            if a == i {
                assert(key(s[b]) != key(s[i]));
            } else if b == i {
                assert(key(s[a]) != key(s[i]));
            }
        }
    }
    if i == s.len() - 1 {
        assert(u.drop_last() =~= q);
        assert(seq_to_map(u, key) =~= seq_to_map(q, key).insert(key(x), x));
        assert(seq_to_map(s, key).insert(key(x), x) =~= seq_to_map(q, key).insert(key(x), x));
    } else {
        assert(u.drop_last() =~= q.update(i, x));
        assert(q[i] == s[i]);
        lemma_seq_to_map_update(q, key, i, x);
        assert(key(s.last()) != key(x)) by {
            assert(key(s[s.len() - 1]) != key(s[i]));
        }
        assert(seq_to_map(u, key) =~= seq_to_map(s, key).insert(key(x), x));
    }
}

/// Removing a record removes its key from the map.
pub proof fn lemma_seq_to_map_remove<T, K>(s: Seq<T>, key: spec_fn(T) -> K, i: int)
    requires
        distinct_by(s, key),
        0 <= i < s.len(),
    ensures
        seq_to_map(s.remove(i), key) == seq_to_map(s, key).remove(key(s[i])),
        distinct_by(s.remove(i), key),
    decreases s.len(),
{
    let q = s.drop_last();
    let u = s.remove(i);
    assert(distinct_by(q, key)) by {
        assert forall|a: int, b: int|
            0 <= a < q.len() && 0 <= b < q.len() && a != b implies key(q[a]) != key(q[b]) by {
            assert(q[a] == s[a] && q[b] == s[b]);
        }
    }
    assert(distinct_by(u, key)) by {
        assert forall|a: int, b: int|
            0 <= a < u.len() && 0 <= b < u.len() && a != b implies key(u[a]) != key(u[b]) by {
            let a2 = if a < i { a } else { a + 1 };
            let b2 = if b < i { b } else { b + 1 };
            assert(u[a] == s[a2] && u[b] == s[b2]);
        }
    }
    if i == s.len() - 1 {
        assert(u =~= q);
        lemma_seq_to_map_dom(q, key);
        assert(!seq_to_map(q, key).contains_key(key(s[i]))) by {
            if seq_to_map(q, key).contains_key(key(s[i])) {
                let j = choose|j: int| 0 <= j < q.len() && key(#[trigger] q[j]) == key(s[i]);
                assert(q[j] == s[j]);
            }
        }
        assert(seq_to_map(u, key) =~= seq_to_map(s, key).remove(key(s[i])));
    } else {
        assert(u.drop_last() =~= q.remove(i));
        assert(u.last() == s.last());
        assert(q[i] == s[i]);
        lemma_seq_to_map_remove(q, key, i);
        assert(key(s.last()) != key(s[i])) by {
            assert(key(s[s.len() - 1]) != key(s[i]));
        }
        assert(seq_to_map(u, key) =~= seq_to_map(s, key).remove(key(s[i])));
    }
}

} // verus!

verus! {

/// With distinct keys, the map has one key per record.
pub proof fn lemma_seq_to_map_len<T, K>(s: Seq<T>, key: spec_fn(T) -> K)
    requires
        distinct_by(s, key),
    ensures
        seq_to_map(s, key).dom().finite(),
        seq_to_map(s, key).dom().len() == s.len(),
    decreases s.len(),
{
    if s.len() > 0 {
        let q = s.drop_last();
        assert(distinct_by(q, key)) by {
            assert forall|a: int, b: int|
                0 <= a < q.len() && 0 <= b < q.len() && a != b implies key(q[a]) != key(q[b]) by {
                assert(q[a] == s[a] && q[b] == s[b]);
            }
        }
        lemma_seq_to_map_len(q, key);
        lemma_seq_to_map_dom(q, key);
        assert(!seq_to_map(q, key).contains_key(key(s.last()))) by {
            if seq_to_map(q, key).contains_key(key(s.last())) {
                let j = choose|j: int| 0 <= j < q.len() && key(#[trigger] q[j]) == key(s.last());
                assert(q[j] == s[j]);
                assert(key(s[s.len() - 1]) != key(s[j]));
            }
        }
        assert(seq_to_map(s, key).dom() == seq_to_map(q, key).dom().insert(key(s.last())));
    }
}

} // verus!

verus! {

/// The records of `v` whose key is `k`, in order.
pub fn with_key<'a, T: Keyed>(v: &'a Vec<T>, k: &str) -> (r: Vec<&'a T>)
    ensures
        r@.map_values(|x: &T| *x) == v@.filter(|x: T| x.key() == k@),
{
    let ghost pred = |x: T| x.key() == k@;
    let mut r: Vec<&T> = Vec::new();
    let mut i: usize = 0;
    while i < v.len()
        invariant
            i <= v@.len(),
            pred == (|x: T| x.key() == k@),
            r@.map_values(|x: &T| *x) == v@.take(i as int).filter(pred),
        decreases v@.len() - i,
    {
        proof {
            assert(v@.take(i + 1) =~= v@.take(i as int).push(v@[i as int]));
            v@.take(i as int).lemma_filter_push(v@[i as int], pred);
        }
        if str_eq(v[i].key_str(), k) {
            r.push(&v[i]);
        }
        proof {
            assert(r@.map_values(|x: &T| *x) =~= v@.take(i + 1).filter(pred));
        }
        i = i + 1;
    }
    assert(v@.take(v@.len() as int) =~= v@);
    r
}

} // verus!

verus! {

/// Filtering then mapping a sequence with one more element.
pub proof fn lemma_filter_map_push<A, B>(s: Seq<A>, x: A, pred: spec_fn(A) -> bool, f: spec_fn(A) -> B)
    ensures
        s.push(x).filter(pred).map_values(f) == if pred(x) {
            s.filter(pred).map_values(f).push(f(x))
        } else {
            s.filter(pred).map_values(f)
        },
{
    s.lemma_filter_push(x, pred);
    if pred(x) {
        assert(s.push(x).filter(pred).map_values(f) =~= s.filter(pred).map_values(f).push(f(x)));
    }
}

/// Nothing survives filtering the empty prefix.
pub proof fn lemma_filter_take_zero<A>(s: Seq<A>, pred: spec_fn(A) -> bool)
    ensures
        s.take(0).filter(pred) == Seq::<A>::empty(),
{
    reveal(Seq::filter);
    assert(s.take(0).filter(pred) =~= Seq::<A>::empty());
}

} // verus!

verus! {

/// Some entry of `s` has key `k`.
pub open spec fn has_entry<V>(s: Seq<(Seq<char>, V)>, k: Seq<char>) -> bool {
    exists|i: int| 0 <= i < s.len() && (#[trigger] s[i]).0 == k
}

/// The index of an entry of `s` with key `k`.
pub open spec fn entry_index<V>(s: Seq<(Seq<char>, V)>, k: Seq<char>) -> int {
    choose|i: int| 0 <= i < s.len() && (#[trigger] s[i]).0 == k
}

/// The value stored under `k`, if any.
pub open spec fn lookup<V>(s: Seq<(Seq<char>, V)>, k: Seq<char>) -> Option<V> {
    if has_entry(s, k) {
        Some(s[entry_index(s, k)].1)
    } else {
        None
    }
}

/// `s` with the value under `k` replaced in place, or a new entry
/// appended when `k` is new.
pub open spec fn upsert<V>(s: Seq<(Seq<char>, V)>, k: Seq<char>, v: V) -> Seq<(Seq<char>, V)> {
    if has_entry(s, k) {
        s.update(entry_index(s, k), (k, v))
    } else {
        s.push((k, v))
    }
}

/// No two entries of `s` share a key.
pub open spec fn entry_keys_distinct<V>(s: Seq<(Seq<char>, V)>) -> bool {
    forall|i: int, j: int| 0 <= i < s.len() && 0 <= j < s.len() && i != j ==> s[i].0 != s[j].0
}

/// With distinct keys, the entry found at `i` is the one `entry_index` names.
pub proof fn lemma_entry_index<V>(s: Seq<(Seq<char>, V)>, i: int)
    requires
        entry_keys_distinct(s),
        0 <= i < s.len(),
    ensures
        has_entry(s, s[i].0),
        entry_index(s, s[i].0) == i,
        lookup(s, s[i].0) == Some(s[i].1),
{
    assert(has_entry(s, s[i].0));
}

/// Upserting keeps keys distinct.
pub proof fn lemma_upsert_distinct<V>(s: Seq<(Seq<char>, V)>, k: Seq<char>, v: V)
    requires
        entry_keys_distinct(s),
    ensures
        entry_keys_distinct(upsert(s, k, v)),
{
    let u = upsert(s, k, v);
    if has_entry(s, k) {
        let e = entry_index(s, k);
        assert forall|i: int, j: int| 0 <= i < u.len() && 0 <= j < u.len() && i != j implies u[i].0 != u[j].0 by {
            if i == e {
                assert(s[e].0 == k);
            } else if j == e {
                assert(s[e].0 == k);
            }
        }
    } else {
        assert forall|i: int, j: int| 0 <= i < u.len() && 0 <= j < u.len() && i != j implies u[i].0 != u[j].0 by {
            if i == s.len() {
                assert(s[j].0 != k);
            } else if j == s.len() {
                assert(s[i].0 != k);
            }
        }
    }
}


/// The index of the first element of `s` that satisfies `p`, or -1.
pub open spec fn first_index<T>(s: Seq<T>, p: spec_fn(T) -> bool) -> int
    decreases s.len(),
{
    if s.len() == 0 {
        -1
    } else if p(s[0]) {
        0
    } else {
        let k = first_index(s.drop_first(), p);
        if k < 0 {
            -1
        } else {
            k + 1
        }
    }
}

/// A scan that stops at `i` finds the first match (or none when `i` is the end).
pub proof fn lemma_first_index<T>(s: Seq<T>, p: spec_fn(T) -> bool, i: int)
    requires
        0 <= i <= s.len(),
        forall|j: int| 0 <= j < i ==> !p(#[trigger] s[j]),
        i < s.len() ==> p(s[i]),
    ensures
        first_index(s, p) == if i < s.len() { i } else { -1 },
    decreases s.len(),
{
    if s.len() > 0 && i > 0 {
        assert(!p(s[0]));
        assert forall|j: int| 0 <= j < i - 1 implies !p(#[trigger] s.drop_first()[j]) by {
            assert(s.drop_first()[j] == s[j + 1]);
        }
        if i - 1 < s.drop_first().len() {
            assert(s.drop_first()[i - 1] == s[i]);
        }
        lemma_first_index(s.drop_first(), p, i - 1);
    }
}

/// What `first_index` returns: -1 when nothing matches, else a match with
/// no match before it.
pub proof fn lemma_first_index_spec<T>(s: Seq<T>, p: spec_fn(T) -> bool)
    ensures
        -1 <= first_index(s, p) < s.len(),
        first_index(s, p) >= 0 ==> p(s[first_index(s, p)]),
        forall|j: int| 0 <= j < s.len() && (first_index(s, p) < 0 || j < first_index(s, p)) ==> !p(#[trigger] s[j]),
    decreases s.len(),
{
    if s.len() > 0 && !p(s[0]) {
        lemma_first_index_spec(s.drop_first(), p);
        assert forall|j: int| 0 <= j < s.len() && (first_index(s, p) < 0 || j < first_index(s, p)) implies !p(#[trigger] s[j]) by {
            if j > 0 {
                assert(s[j] == s.drop_first()[j - 1]);
            }
        }
    }
}

/// Keeping some records of a list with distinct keys keeps the keys
/// distinct.
pub proof fn lemma_filter_distinct_by<T, K>(s: Seq<T>, key: spec_fn(T) -> K, p: spec_fn(T) -> bool)
    requires
        distinct_by(s, key),
    ensures
        distinct_by(s.filter(p), key),
    decreases s.len(),
{
    reveal(Seq::filter);
    if s.len() > 0 {
        let t = s.drop_last();
        assert forall|i: int, j: int| 0 <= i < t.len() && 0 <= j < t.len() && i != j implies key(t[i]) != key(
            t[j],
        ) by {
            assert(t[i] == s[i] && t[j] == s[j]);
        }
        lemma_filter_distinct_by(t, key, p);
        if p(s.last()) {
            let f = t.filter(p);
            assert(s.filter(p) == f.push(s.last()));
            assert forall|i: int| 0 <= i < f.len() implies key(#[trigger] f[i]) != key(s.last()) by {
                assert(f.contains(f[i]));
                t.lemma_filter_contains_rev(p, f[i]);
                let j = choose|j: int| 0 <= j < t.len() && t[j] == f[i];
                assert(s[j] == t[j]);
            }
            let u = s.filter(p);
            assert forall|i: int, j: int| 0 <= i < u.len() && 0 <= j < u.len() && i != j implies key(u[i])
                != key(u[j]) by {
                if i < f.len() && j < f.len() {
                    assert(u[i] == f[i] && u[j] == f[j]);
                } else if i < f.len() {
                    assert(u[i] == f[i]);
                } else if j < f.len() {
                    assert(u[j] == f[j]);
                }
            }
        }
    }
}

/// The list with `x` in place of the first element that `p` picks, or
/// with `x` added when there is none.
pub open spec fn put_first<T>(s: Seq<T>, p: spec_fn(T) -> bool, x: T) -> Seq<T> {
    let k = first_index(s, p);
    if k < 0 {
        s.push(x)
    } else {
        s.update(k, x)
    }
}

/// After putting `x`, which `p` picks, the first element that `p` picks
/// is `x`.
pub proof fn lemma_put_first_found<T>(s: Seq<T>, p: spec_fn(T) -> bool, x: T)
    requires
        p(x),
    ensures
        first_index(put_first(s, p, x), p) >= 0,
        put_first(s, p, x)[first_index(put_first(s, p, x), p)] == x,
{
    lemma_first_index_spec(s, p);
    let k = first_index(s, p);
    let t = put_first(s, p, x);
    if k < 0 {
        assert forall|j: int| 0 <= j < s.len() implies !p(#[trigger] t[j]) by {
            assert(t[j] == s[j]);
        }
        lemma_first_index(t, p, s.len() as int);
    } else {
        assert forall|j: int| 0 <= j < k implies !p(#[trigger] t[j]) by {
            assert(t[j] == s[j]);
        }
        lemma_first_index(t, p, k);
    }
}

} // verus!
