//! Per-key totals of keyed amounts, in order of first appearance.
//!
//! A stream of `(key, amount)` pairs is summarised as the distinct keys in
//! the order in which they first occur, each with the sum of its amounts.
//! This is the model of every "count per application" table of the
//! library; the executable tables are `Vec<(String, _)>`.

use vstd::prelude::*;
use crate::text::str_eq;

verus! {

/// The distinct keys of `p`, in order of first occurrence.
pub open spec fn first_keys(p: Seq<(Seq<char>, int)>) -> Seq<Seq<char>>
    decreases p.len(),
{
    if p.len() == 0 {
        Seq::empty()
    } else {
        let ks = first_keys(p.drop_last());
        if ks.contains(p.last().0) {
            ks
        } else {
            ks.push(p.last().0)
        }
    }
}

/// The sum of the amounts that `p` pairs with key `k`.
pub open spec fn key_total(p: Seq<(Seq<char>, int)>, k: Seq<char>) -> int
    decreases p.len(),
{
    if p.len() == 0 {
        0
    } else {
        key_total(p.drop_last(), k) + if p.last().0 == k {
            p.last().1
        } else {
            0
        }
    }
}

/// `t` is the table of `p`: one row per distinct key, in order of first
/// occurrence, holding the key's total.
pub open spec fn is_tally(p: Seq<(Seq<char>, int)>, t: Seq<(String, u64)>) -> bool {
    &&& t.len() == first_keys(p).len()
    &&& forall|i: int|
        0 <= i < t.len() ==> (#[trigger] t[i]).0@ == first_keys(p)[i] && t[i].1 as int
            == key_total(p, first_keys(p)[i])
}

/// `t` is the table of `p` with totals as `usize`.
pub open spec fn is_count_tally(p: Seq<(Seq<char>, int)>, t: Seq<(String, usize)>) -> bool {
    &&& t.len() == first_keys(p).len()
    &&& forall|i: int|
        0 <= i < t.len() ==> (#[trigger] t[i]).0@ == first_keys(p)[i] && t[i].1 as int
            == key_total(p, first_keys(p)[i])
}

/// Every pair of `p` carries amount 1.
pub open spec fn all_ones(p: Seq<(Seq<char>, int)>) -> bool {
    forall|i: int| 0 <= i < p.len() ==> (#[trigger] p[i]).1 == 1
}

/// Every pair of `p` carries a non-negative amount.
pub open spec fn all_nonneg(p: Seq<(Seq<char>, int)>) -> bool {
    forall|i: int| 0 <= i < p.len() ==> (#[trigger] p[i]).1 >= 0
}

/// The keys of `first_keys(p)` are distinct, and they are exactly the keys
/// that occur in `p`.
pub proof fn lemma_first_keys(p: Seq<(Seq<char>, int)>)
    ensures
        first_keys(p).no_duplicates(),
        forall|k: Seq<char>| #[trigger] first_keys(p).contains(k) <==> exists|j: int|
            0 <= j < p.len() && (#[trigger] p[j]).0 == k,
    decreases p.len(),
{
    if p.len() > 0 {
        let q = p.drop_last();
        lemma_first_keys(q);
        let ks = first_keys(q);
        let x = p.last().0;
        assert(p[p.len() - 1].0 == x);
        if !ks.contains(x) {
            assert(first_keys(p) == ks.push(x));
            assert forall|a: int, b: int|
                0 <= a < ks.push(x).len() && 0 <= b < ks.push(x).len() && a != b implies ks.push(
                x,
            )[a] != ks.push(x)[b] by {
                if a < ks.len() && b < ks.len() {
                } else if a < ks.len() {
                    assert(ks.contains(ks[a]));
                } else if b < ks.len() {
                    assert(ks.contains(ks[b]));
                }
            }
        }
        assert forall|k: Seq<char>| #[trigger] first_keys(p).contains(k) <==> exists|j: int|
            0 <= j < p.len() && (#[trigger] p[j]).0 == k by {
            if first_keys(p).contains(k) {
                if ks.contains(k) {
                    let j = choose|j: int| 0 <= j < q.len() && (#[trigger] q[j]).0 == k;
                    assert(p[j] == q[j]);
                } else {
                    let i = choose|i: int| 0 <= i < first_keys(p).len() && first_keys(p)[i] == k;
                    assert(first_keys(p) == ks.push(x));
                    if i < ks.len() {
                        assert(ks[i] == k);
                        assert(ks.contains(k));
                    }
                    assert(k == x);
                    assert(p[p.len() - 1].0 == k);
                }
            }
            if exists|j: int| 0 <= j < p.len() && (#[trigger] p[j]).0 == k {
                let j = choose|j: int| 0 <= j < p.len() && (#[trigger] p[j]).0 == k;
                if j < p.len() - 1 {
                    assert(q[j] == p[j]);
                    assert(ks.contains(k));
                    let i = choose|i: int| 0 <= i < ks.len() && ks[i] == k;
                    if !ks.contains(x) {
                        assert(ks.push(x)[i] == k);
                    }
                    assert(first_keys(p).contains(k));
                } else {
                    assert(k == x);
                    if ks.contains(x) {
                    } else {
                        assert(ks.push(x)[ks.len() as int] == k);
                    }
                }
            }
        }
    }
}

/// The total of a key over a stream of unit amounts is at most its length.
pub proof fn lemma_key_total_bounded(p: Seq<(Seq<char>, int)>, k: Seq<char>)
    requires
        all_ones(p),
    ensures
        0 <= key_total(p, k) <= p.len(),
    decreases p.len(),
{
    if p.len() > 0 {
        assert(all_ones(p.drop_last())) by {
            assert forall|i: int| 0 <= i < p.drop_last().len() implies (
            #[trigger] p.drop_last()[i]).1 == 1 by {
                assert(p.drop_last()[i] == p[i]);
            }
        }
        lemma_key_total_bounded(p.drop_last(), k);
        assert(p[p.len() - 1].1 == 1);
    }
}

/// The total of a key over a prefix is at most its total over the whole
/// stream, when amounts are non-negative.
pub proof fn lemma_key_total_prefix(p: Seq<(Seq<char>, int)>, n: int, k: Seq<char>)
    requires
        all_nonneg(p),
        0 <= n <= p.len(),
    ensures
        0 <= key_total(p.take(n), k) <= key_total(p, k),
    decreases p.len(),
{
    if p.len() > 0 {
        let q = p.drop_last();
        assert(all_nonneg(q)) by {
            assert forall|i: int| 0 <= i < q.len() implies (#[trigger] q[i]).1 >= 0 by {
                assert(q[i] == p[i]);
            }
        }
        assert(p[p.len() - 1].1 >= 0);
        if n == p.len() {
            assert(p.take(n) =~= p);
            lemma_key_total_prefix(q, q.len() as int, k);
            assert(q.take(q.len() as int) =~= q);
        } else {
            assert(p.take(n) =~= q.take(n));
            lemma_key_total_prefix(q, n, k);
        }
    }
}

/// Add `amount` to the row of `key` in a table, or append a new row.
pub fn tally_add(
    t: &mut Vec<(String, u64)>,
    key: &str,
    amount: u64,
    Ghost(p): Ghost<Seq<(Seq<char>, int)>>,
)
    requires
        is_tally(p, old(t)@),
        key_total(p, key@) + amount <= u64::MAX,
    ensures
        is_tally(p.push((key@, amount as int)), final(t)@),
{
    let ghost q = p.push((key@, amount as int));
    proof {
        lemma_first_keys(p);
        assert(q.drop_last() =~= p);
    }
    let mut i: usize = 0;
    while i < t.len()
        invariant
            i <= t@.len(),
            is_tally(p, t@),
            forall|j: int| 0 <= j < i ==> t@[j].0@ != key@,
            q == p.push((key@, amount as int)),
            q.drop_last() == p,
            first_keys(p).no_duplicates(),
            key_total(p, key@) + amount <= u64::MAX,
        decreases t@.len() - i,
    {
        if str_eq(t[i].0.as_str(), key) {
            let name = t[i].0.clone();
            let c = t[i].1;
            assert(first_keys(p)[i as int] == key@);
            assert(first_keys(p).contains(key@));
            t.set(i, (name, c + amount));
            proof {
                assert(first_keys(q) == first_keys(p));
                assert forall|j: int| 0 <= j < t@.len() implies (#[trigger] t@[j]).0@
                    == first_keys(q)[j] && t@[j].1 as int == key_total(q, first_keys(q)[j]) by {
                    if j != i {
                        assert(first_keys(p)[j] != first_keys(p)[i as int]);
                    }
                }
            }
            return;
        }
        i = i + 1;
    }
    proof {
        assert(!first_keys(p).contains(key@)) by {
            if first_keys(p).contains(key@) {
                let j = choose|j: int| 0 <= j < first_keys(p).len() && first_keys(p)[j] == key@;
                assert(t@[j].0@ == key@);
            }
        }
        assert(first_keys(q) == first_keys(p).push(key@));
        assert(key_total(p, key@) == 0) by {
            lemma_key_total_zero(p, key@);
        }
    }
    t.push((String::from_str(key), amount));
    proof {
        assert forall|j: int| 0 <= j < t@.len() implies (#[trigger] t@[j]).0@ == first_keys(q)[j]
            && t@[j].1 as int == key_total(q, first_keys(q)[j]) by {
            if j < t@.len() - 1 {
                assert(first_keys(p)[j] != key@) by {
                    assert(first_keys(p).contains(first_keys(p)[j]));
                }
            }
        }
    }
}

/// A key that does not occur in `p` has total 0.
pub proof fn lemma_key_total_zero(p: Seq<(Seq<char>, int)>, k: Seq<char>)
    requires
        !first_keys(p).contains(k),
    ensures
        key_total(p, k) == 0,
    decreases p.len(),
{
    if p.len() > 0 {
        let q = p.drop_last();
        assert(!first_keys(q).contains(k)) by {
            if first_keys(q).contains(k) {
                let j = choose|j: int| 0 <= j < first_keys(q).len() && first_keys(q)[j] == k;
                if first_keys(q).contains(p.last().0) {
                } else {
                    assert(first_keys(p)[j] == k);
                }
            }
        }
        lemma_key_total_zero(q, k);
        if p.last().0 == k {
            if first_keys(q).contains(k) {
            } else {
                assert(first_keys(p)[first_keys(q).len() as int] == k);
            }
        }
    }
}

/// Add one to the row of `key` in a table of counts, or append a new row.
pub fn count_add(
    t: &mut Vec<(String, usize)>,
    key: &str,
    Ghost(p): Ghost<Seq<(Seq<char>, int)>>,
)
    requires
        is_count_tally(p, old(t)@),
        all_ones(p),
        p.len() < usize::MAX,
    ensures
        is_count_tally(p.push((key@, 1)), final(t)@),
{
    let ghost q = p.push((key@, 1));
    proof {
        lemma_first_keys(p);
        assert(q.drop_last() =~= p);
    }
    let mut i: usize = 0;
    while i < t.len()
        invariant
            i <= t@.len(),
            is_count_tally(p, t@),
            all_ones(p),
            p.len() < usize::MAX,
            forall|j: int| 0 <= j < i ==> t@[j].0@ != key@,
            q == p.push((key@, 1)),
            q.drop_last() == p,
            first_keys(p).no_duplicates(),
        decreases t@.len() - i,
    {
        if str_eq(t[i].0.as_str(), key) {
            let name = t[i].0.clone();
            let c = t[i].1;
            proof {
                lemma_key_total_bounded(p, key@);
            }
            assert(first_keys(p)[i as int] == key@);
            assert(first_keys(p).contains(key@));
            t.set(i, (name, c + 1));
            proof {
                assert(first_keys(q) == first_keys(p));
                assert forall|j: int| 0 <= j < t@.len() implies (#[trigger] t@[j]).0@
                    == first_keys(q)[j] && t@[j].1 as int == key_total(q, first_keys(q)[j]) by {
                    if j != i {
                        assert(first_keys(p)[j] != first_keys(p)[i as int]);
                    }
                }
            }
            return;
        }
        i = i + 1;
    }
    proof {
        assert(!first_keys(p).contains(key@)) by {
            if first_keys(p).contains(key@) {
                let j = choose|j: int| 0 <= j < first_keys(p).len() && first_keys(p)[j] == key@;
                assert(t@[j].0@ == key@);
            }
        }
        assert(first_keys(q) == first_keys(p).push(key@));
        lemma_key_total_zero(p, key@);
    }
    t.push((String::from_str(key), 1));
    proof {
        assert forall|j: int| 0 <= j < t@.len() implies (#[trigger] t@[j]).0@ == first_keys(q)[j]
            && t@[j].1 as int == key_total(q, first_keys(q)[j]) by {
            if j < t@.len() - 1 {
                assert(first_keys(p)[j] != key@) by {
                    assert(first_keys(p).contains(first_keys(p)[j]));
                }
            }
        }
    }
}

/// No key's total in `p` exceeds `u64::MAX`.
pub open spec fn totals_fit(p: Seq<(Seq<char>, int)>) -> bool {
    forall|k: Seq<char>| #[trigger] key_total(p, k) <= u64::MAX
}

/// A table of `(key, total)` over a stream of non-negative amounts, built
/// row by row with `tally_add`.
pub fn tally_of(
    keys: &Vec<&str>,
    amounts: &Vec<u64>,
    Ghost(p): Ghost<Seq<(Seq<char>, int)>>,
) -> (t: Vec<(String, u64)>)
    requires
        keys@.len() == amounts@.len(),
        p.len() == keys@.len(),
        forall|i: int| 0 <= i < p.len() ==> (#[trigger] p[i]) == (keys@[i]@, amounts@[i] as int),
        totals_fit(p),
    ensures
        is_tally(p, t@),
{
    let mut t: Vec<(String, u64)> = Vec::new();
    let mut i: usize = 0;
    assert(p.take(0) =~= Seq::<(Seq<char>, int)>::empty());
    while i < keys.len()
        invariant
            i <= keys@.len(),
            keys@.len() == amounts@.len(),
            p.len() == keys@.len(),
            forall|j: int| 0 <= j < p.len() ==> (#[trigger] p[j]) == (keys@[j]@, amounts@[j] as int),
            totals_fit(p),
            is_tally(p.take(i as int), t@),
        decreases keys@.len() - i,
    {
        proof {
            assert(p.take(i + 1) =~= p.take(i as int).push((keys@[i as int]@, amounts@[i as int] as int)));
            assert(all_nonneg(p)) by {
                assert forall|j: int| 0 <= j < p.len() implies (#[trigger] p[j]).1 >= 0 by {
                    assert(p[j] == (keys@[j]@, amounts@[j] as int));
                }
            }
            lemma_key_total_prefix(p, i + 1, keys@[i as int]@);
            assert(key_total(p, keys@[i as int]@) <= u64::MAX);
            assert(p.take(i + 1).drop_last() =~= p.take(i as int));
            assert(key_total(p.take(i + 1), keys@[i as int]@) == key_total(p.take(i as int), keys@[i as int]@)
                + amounts@[i as int]);
        }
        tally_add(&mut t, keys[i], amounts[i], Ghost(p.take(i as int)));
        i = i + 1;
    }
    assert(p.take(keys@.len() as int) =~= p);
    t
}

} // verus!
