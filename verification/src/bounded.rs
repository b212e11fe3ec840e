//! Logs that keep only their most recent entries.

use vstd::prelude::*;

verus! {

/// The last `max` entries of `s` (all of them when there are fewer).
pub open spec fn keep_last<T>(s: Seq<T>, max: nat) -> Seq<T> {
    if s.len() > max {
        s.subrange(s.len() - max, s.len() as int)
    } else {
        s
    }
}

/// Append `x` and drop the oldest entry when the log grows past `max`.
pub fn push_bounded<T>(v: &mut Vec<T>, x: T, max: usize)
    requires
        old(v)@.len() <= max,
    ensures
        final(v)@ == keep_last(old(v)@.push(x), max as nat),
        final(v)@.len() <= max,
{
    v.push(x);
    if v.len() > max {
        v.remove(0);
        assert(v@ =~= old(v)@.push(x).subrange(1, old(v)@.len() as int + 1));
    }
}

/// A log never holds more than its limit, and what it holds is the most
/// recent part of what was pushed.
pub proof fn lemma_keep_last_bounded<T>(s: Seq<T>, max: nat)
    ensures
        keep_last(s, max).len() <= max || keep_last(s, max) == s,
        keep_last(s, max).len() == if s.len() > max { max } else { s.len() },
        forall|i: int|
            0 <= i < keep_last(s, max).len() ==> #[trigger] keep_last(s, max)[i] == s[s.len() - keep_last(
                s,
                max,
            ).len() + i],
{
}

/// The entry just pushed is kept, as the newest, whenever the limit is
/// not zero.
pub proof fn lemma_keep_last_keeps_newest<T>(s: Seq<T>, x: T, max: nat)
    requires
        max > 0,
    ensures
        keep_last(s.push(x), max).len() > 0,
        keep_last(s.push(x), max).last() == x,
{
}

} // verus!
