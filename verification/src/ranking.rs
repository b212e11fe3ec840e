//! Selecting the highest-scoring items of a collection.

use vstd::prelude::*;
use vstd::multiset::Multiset;
use crate::keyed::{first_index, lemma_first_index, lemma_first_index_spec};

verus! {

broadcast use vstd::seq_lib::group_to_multiset_ensures;

/// An item with a non-negative integer score.
pub trait Scored {
    /// The score of the item.
    spec fn score(&self) -> int;

    /// The score as a machine integer.
    fn score_value(&self) -> (v: u64)
        requires
            self.score() <= u64::MAX,
        ensures
            v as int == self.score(),
    ;
}

impl Scored for (String, u64) {
    open spec fn score(&self) -> int {
        self.1 as int
    }

    fn score_value(&self) -> (v: u64) {
        self.1
    }
}

/// Every score of `s` fits in a `u64`.
pub open spec fn scores_fit<T: Scored>(s: Seq<T>) -> bool {
    forall|i: int| 0 <= i < s.len() ==> (#[trigger] s[i]).score() <= u64::MAX
}

/// `r` lists the items of `items`, each as often, from the highest score
/// down.
pub open spec fn is_sorted_desc<T: Scored>(items: Seq<T>, r: Seq<T>) -> bool {
    r.to_multiset() == items.to_multiset() && scores_nonincreasing(r)
}

/// Scores never increase along `s`.
pub open spec fn scores_nonincreasing<T: Scored>(s: Seq<T>) -> bool {
    forall|i: int, j: int| 0 <= i < j < s.len() ==> s[i].score() >= s[j].score()
}

/// `r` is a choice of the `n` highest-scoring items of `items` (fewer when
/// there are fewer items), listed from the highest score down: it takes
/// items from `items` without repetition, and every item left out scores
/// no more than every item taken.
pub open spec fn is_top_n<T: Scored>(items: Seq<T>, n: nat, r: Seq<T>) -> bool {
    &&& r.len() == if n < items.len() { n } else { items.len() }
    &&& r.to_multiset().subset_of(items.to_multiset())
    &&& scores_nonincreasing(r)
    &&& forall|x: T, i: int|
        items.to_multiset().count(x) > r.to_multiset().count(x) && 0 <= i < r.len()
            ==> #[trigger] x.score() <= #[trigger] r[i].score()
}

/// The index of the first highest-scoring item of a non-empty vector.
fn index_of_max<T: Scored>(v: &Vec<T>) -> (m: usize)
    requires
        v@.len() > 0,
        scores_fit(v@),
    ensures
        m < v@.len(),
        forall|j: int| 0 <= j < v@.len() ==> v@[j].score() <= v@[m as int].score(),
{
    let mut m: usize = 0;
    let mut best = v[0].score_value();
    let mut i: usize = 1;
    while i < v.len()
        invariant
            1 <= i <= v@.len(),
            m < i,
            best as int == v@[m as int].score(),
            scores_fit(v@),
            forall|j: int| 0 <= j < i ==> v@[j].score() <= best,
        decreases v@.len() - i,
    {
        let s = v[i].score_value();
        if s > best {
            best = s;
            m = i;
        }
        i = i + 1;
    }
    m
}

/// The `n` highest-scoring items of `items`, highest first. Among items
/// with equal scores the earlier one comes first.
pub fn top_n<T: Scored>(items: Vec<T>, n: usize) -> (r: Vec<T>)
    requires
        scores_fit(items@),
    ensures
        is_top_n(items@, n as nat, r@),
        n >= items@.len() ==> r@.to_multiset() == items@.to_multiset(),
{
    let ghost orig = items@;
    let mut rest = items;
    let mut out: Vec<T> = Vec::new();
    while out.len() < n && rest.len() > 0
        invariant
            out@.to_multiset().add(rest@.to_multiset()) =~= orig.to_multiset(),
            out@.len() + rest@.len() == orig.len(),
            out@.len() <= n,
            scores_nonincreasing(out@),
            scores_fit(rest@),
            forall|i: int, j: int|
                0 <= i < out@.len() && 0 <= j < rest@.len() ==> out@[i].score()
                    >= rest@[j].score(),
        decreases rest@.len(),
    {
        let m = index_of_max(&rest);
        let ghost before = rest@;
        let ghost out_before = out@;
        let x = rest.remove(m);
        proof {
            assert(rest@ =~= before.remove(m as int));
            assert(forall|j: int| 0 <= j < rest@.len() ==> #[trigger] rest@[j] == (if j < m {
                before[j]
            } else {
                before[j + 1]
            }));
        }
        out.push(x);
        proof {
            assert(scores_fit(rest@)) by {
                assert forall|j: int| 0 <= j < rest@.len() implies (#[trigger] rest@[j]).score() <= u64::MAX by {
                    if j < m {
                        assert(rest@[j] == before[j]);
                    } else {
                        assert(rest@[j] == before[j + 1]);
                    }
                }
            }
            assert(out@ =~= out_before.push(x));
            assert forall|i: int, j: int|
                0 <= i < out@.len() && 0 <= j < rest@.len() implies out@[i].score()
                >= rest@[j].score() by {
                if j < m {
                    assert(rest@[j] == before[j]);
                } else {
                    assert(rest@[j] == before[j + 1]);
                }
            }
        }
    }
    proof {
        if n >= orig.len() {
            assert(rest@.len() == 0);
            assert(rest@.to_multiset() =~= Multiset::<T>::empty());
            assert(out@.to_multiset() =~= orig.to_multiset());
        }
        assert(out@.to_multiset().subset_of(orig.to_multiset()));
        assert forall|x: T, i: int|
            orig.to_multiset().count(x) > out@.to_multiset().count(x) && 0 <= i < out@.len()
                implies #[trigger] x.score() <= #[trigger] out@[i].score() by {
            assert(rest@.to_multiset().count(x) > 0);
            assert(rest@.contains(x));
            let j = choose|j: int| 0 <= j < rest@.len() && rest@[j] == x;
        }
    }
    out
}

/// The items, highest score first.
pub fn sort_desc<T: Scored>(items: Vec<T>) -> (r: Vec<T>)
    requires
        scores_fit(items@),
    ensures
        is_sorted_desc(items@, r@),
{
    let n = items.len();
    top_n(items, n)
}

} // verus!

verus! {


/// Mapping two sequences with the same elements gives sequences with the
/// same elements.
pub proof fn lemma_map_same_multiset<A, B>(a: Seq<A>, b: Seq<A>, f: spec_fn(A) -> B)
    requires
        a.to_multiset() == b.to_multiset(),
    ensures
        a.map_values(f).to_multiset() == b.map_values(f).to_multiset(),
    decreases a.len(),
{
    if a.len() == 0 {
        assert(a.to_multiset().len() == 0);
        assert(b.to_multiset().len() == b.len());
        assert(b.len() == 0);
        assert(a.map_values(f) =~= b.map_values(f));
    } else {
        let x = a.last();
        let a2 = a.drop_last();
        assert(a =~= a2.push(x));
        assert(a.to_multiset().count(x) > 0);
        assert(b.contains(x));
        let j = choose|j: int| 0 <= j < b.len() && b[j] == x;
        let b2 = b.remove(j);
        assert(b2.to_multiset() == b.to_multiset().remove(x));
        assert(a2.to_multiset() =~= a.to_multiset().remove(x));
        lemma_map_same_multiset(a2, b2, f);
        assert(a.map_values(f) =~= a2.map_values(f).push(f(x)));
        assert(b.map_values(f).remove(j) =~= b2.map_values(f));
        assert(b.map_values(f)[j] == f(x));
        assert(b.map_values(f).remove(j).to_multiset() == b.map_values(f).to_multiset().remove(f(x)));
        assert(b.map_values(f).to_multiset().count(f(x)) > 0) by {
            assert(b.map_values(f).contains(f(x)));
        }
        assert(b.map_values(f).to_multiset() =~= b2.map_values(f).to_multiset().insert(f(x)));
    }
}

} // verus!

verus! {

/// The items that score less than `x`.
pub open spec fn scores_below<T: Scored>(x: T) -> spec_fn(T) -> bool {
    |y: T| y.score() < x.score()
}

/// Where `x` goes in `s`: after every item that scores at least as much.
pub open spec fn insert_pos<T: Scored>(s: Seq<T>, x: T) -> int {
    let k = first_index(s, scores_below(x));
    if k < 0 {
        s.len() as int
    } else {
        k
    }
}

/// `x` placed into `s` after every item that scores at least as much.
pub open spec fn insert_desc<T: Scored>(s: Seq<T>, x: T) -> Seq<T> {
    s.insert(insert_pos(s, x), x)
}

/// The items of `s`, highest score first; items of equal score keep the
/// order they have in `s`.
pub open spec fn stable_desc<T: Scored>(s: Seq<T>) -> Seq<T>
    decreases s.len(),
{
    if s.len() == 0 {
        Seq::empty()
    } else {
        insert_desc(stable_desc(s.drop_last()), s.last())
    }
}

/// The stable order holds the items of `s`, each as often, with scores
/// never increasing.
pub proof fn lemma_stable_desc<T: Scored>(s: Seq<T>)
    ensures
        is_sorted_desc(s, stable_desc(s)),
        stable_desc(s).len() == s.len(),
    decreases s.len(),
{
    if s.len() == 0 {
        assert(s =~= Seq::<T>::empty());
    } else {
        let t = stable_desc(s.drop_last());
        let x = s.last();
        lemma_stable_desc(s.drop_last());
        lemma_first_index_spec(t, scores_below(x));
        let k = insert_pos(t, x);
        let u = t.insert(k, x);
        vstd::seq_lib::to_multiset_insert(t, k, x);
        assert(s.drop_last().push(x) =~= s);
        assert(s.to_multiset() =~= s.drop_last().to_multiset().insert(x)) by {
            s.drop_last().to_multiset_ensures();
        }
        assert(stable_desc(s) == u);
        assert forall|m: int| 0 <= m < t.len() implies (#[trigger] t[m]).score() >= x.score() <==> m < k by {
            if m >= k {
                assert(t[k].score() < x.score());
                assert(t[k].score() >= t[m].score());
            }
        }
        assert forall|i: int, j: int| 0 <= i < j < u.len() implies u[i].score() >= u[j].score() by {
            if i < k {
                assert(u[i] == t[i]);
            } else if i > k {
                assert(u[i] == t[i - 1]);
            }
            if j < k {
                assert(u[j] == t[j]);
            } else if j > k {
                assert(u[j] == t[j - 1]);
            }
        }
    }
}

/// Sorting items that score like their images under `f` and then taking
/// the images gives the sorted images.
pub proof fn lemma_stable_desc_map<A: Scored, B: Scored>(s: Seq<A>, f: spec_fn(A) -> B)
    requires
        forall|a: A| #[trigger] f(a).score() == a.score(),
    ensures
        stable_desc(s.map_values(f)) == stable_desc(s).map_values(f),
    decreases s.len(),
{
    if s.len() > 0 {
        let x = s.last();
        let t = stable_desc(s.drop_last());
        lemma_stable_desc_map(s.drop_last(), f);
        assert(s.map_values(f).drop_last() =~= s.drop_last().map_values(f));
        let tf = t.map_values(f);
        lemma_first_index_spec(t, scores_below(x));
        let k = insert_pos(t, x);
        assert forall|j: int| 0 <= j < k implies !scores_below(f(x))(#[trigger] tf[j]) by {
            assert(!scores_below(x)(t[j]));
        }
        if k < t.len() {
            assert(scores_below(x)(t[k]));
            assert(scores_below(f(x))(tf[k]));
        }
        lemma_first_index(tf, scores_below(f(x)), k);
        assert(insert_pos(tf, f(x)) == k);
        assert(t.insert(k, x).map_values(f) =~= tf.insert(k, f(x)));
    }
}

/// The items, highest score first; items of equal score keep their order.
pub fn stable_sort_desc<T: Scored>(items: Vec<T>) -> (r: Vec<T>)
    requires
        scores_fit(items@),
    ensures
        r@ == stable_desc(items@),
        is_sorted_desc(items@, r@),
{
    let ghost orig = items@;
    let ghost mut i: int = 0;
    let mut rest = items;
    let mut out: Vec<T> = Vec::new();
    proof {
        assert(orig.take(0) =~= Seq::<T>::empty());
        assert(orig.skip(0) =~= orig);
    }
    while rest.len() > 0
        invariant
            0 <= i <= orig.len(),
            rest@ == orig.skip(i),
            out@ == stable_desc(orig.take(i)),
            scores_fit(orig),
            scores_fit(out@),
        decreases rest@.len(),
    {
        let x = rest.remove(0);
        assert(x == orig[i]);
        let xs = x.score_value();
        let mut k: usize = 0;
        while k < out.len() && !(out[k].score_value() < xs)
            invariant
                k <= out@.len(),
                scores_fit(out@),
                xs as int == x.score(),
                forall|j: int| 0 <= j < k ==> !scores_below(x)(#[trigger] out@[j]),
            decreases out@.len() - k,
        {
            k = k + 1;
        }
        proof {
            lemma_first_index(out@, scores_below(x), k as int);
            assert(orig.take(i + 1).drop_last() =~= orig.take(i));
            assert(orig.take(i + 1).last() == x);
        }
        let ghost before = out@;
        out.insert(k, x);
        proof {
            assert(out@ == insert_desc(before, x));
            assert forall|j: int| 0 <= j < out@.len() implies (#[trigger] out@[j]).score() <= u64::MAX by {
                if j < k {
                    assert(out@[j] == before[j]);
                } else if j > k {
                    assert(out@[j] == before[j - 1]);
                }
            }
            i = i + 1;
            assert(rest@ =~= orig.skip(i));
        }
    }
    proof {
        assert(orig.take(i) =~= orig);
        lemma_stable_desc(orig);
    }
    out
}

} // verus!
