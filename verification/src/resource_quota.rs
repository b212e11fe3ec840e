//! Resource quota — the enforcement modes and resource kinds of per-app
//! CPU, memory, I/O and network caps, and the bounded log of the
//! violations that a quota check records.

use vstd::prelude::*;
use crate::bounded::keep_last;
use crate::ranking::{is_top_n, top_n};
use crate::tally::{all_ones, count_add, is_count_tally};
use crate::text::str_eq;

verus! {

/// What happens when a quota is exceeded.
#[derive(Debug, Clone, Copy, PartialEq, Eq, Structural)]
pub enum EnforcementMode {
    /// Only track violations.
    Monitor,
    /// Slow down the process.
    Throttle,
    /// Terminate if exceeded.
    Kill,
}

/// A resource that a quota caps.
#[derive(Debug, Clone, Copy, PartialEq, Eq, Structural)]
pub enum Resource {
    Cpu,
    Memory,
    DiskRead,
    DiskWrite,
    Network,
    OpenFiles,
    Threads,
}

/// How many violations a quota log keeps.
pub const QUOTA_HISTORY_LIMIT: usize = 5000;

/// One logged violation: the application, the resource it exceeded, and
/// what the caller attaches to it (limit, reading, time, action).
pub struct LoggedViolation<T> {
    pub app_id: String,
    pub resource: Resource,
    pub detail: T,
}

/// The `(application, 1)` pairs of a violation log, counted per application.
pub open spec fn logged_pairs<T>(v: Seq<LoggedViolation<T>>) -> Seq<(Seq<char>, int)> {
    v.map_values(|x: LoggedViolation<T>| (x.app_id@, 1int))
}

/// The violations of a log that concern application `app`.
pub open spec fn logged_for<T>(v: Seq<LoggedViolation<T>>, app: Seq<char>) -> Seq<LoggedViolation<T>> {
    v.filter(|x: LoggedViolation<T>| x.app_id@ == app)
}

/// The violations of a log that concern resource `res`.
pub open spec fn logged_of<T>(v: Seq<LoggedViolation<T>>, res: Resource) -> Seq<LoggedViolation<T>> {
    v.filter(|x: LoggedViolation<T>| x.resource == res)
}

/// The most recent quota violations, oldest first, never more than
/// `QUOTA_HISTORY_LIMIT` of them.
pub struct ViolationLog<T> {
    entries: Vec<LoggedViolation<T>>,
}

impl<T> ViolationLog<T> {
    /// The logged violations, oldest first.
    pub closed spec fn entries(&self) -> Seq<LoggedViolation<T>> {
        self.entries@
    }

    /// The log holds no more than its limit.
    pub closed spec fn wf(&self) -> bool {
        self.entries@.len() <= QUOTA_HISTORY_LIMIT
    }

    /// An empty log.
    pub fn new() -> (r: Self)
        ensures
            r.wf(),
            r.entries() == Seq::<LoggedViolation<T>>::empty(),
    {
        ViolationLog { entries: Vec::new() }
    }

    /// Append a batch of violations, then drop the oldest ones beyond the
    /// limit.
    pub fn extend(&mut self, batch: Vec<LoggedViolation<T>>)
        requires
            old(self).wf(),
        ensures
            final(self).wf(),
            final(self).entries() == keep_last(old(self).entries() + batch@, QUOTA_HISTORY_LIMIT as nat),
    {
        let mut batch = batch;
        let ghost all = self.entries@ + batch@;
        self.entries.append(&mut batch);
        assert(self.entries@ == all);
        if self.entries.len() > QUOTA_HISTORY_LIMIT {
            let excess = self.entries.len() - QUOTA_HISTORY_LIMIT;
            let kept = self.entries.split_off(excess);
            self.entries = kept;
        }
    }

    /// How many violations the log holds.
    pub fn violation_count(&self) -> (r: usize)
        ensures
            r == self.entries().len(),
    {
        self.entries.len()
    }

    /// The violations of one application, oldest first.
    pub fn violations_for(&self, app_id: &str) -> (r: Vec<&LoggedViolation<T>>)
        ensures
            r@.map_values(|v: &LoggedViolation<T>| *v) == logged_for(self.entries(), app_id@),
    {
        let ghost pred = |x: LoggedViolation<T>| x.app_id@ == app_id@;
        let mut r: Vec<&LoggedViolation<T>> = Vec::new();
        let mut i: usize = 0;
        while i < self.entries.len()
            invariant
                i <= self.entries@.len(),
                pred == (|x: LoggedViolation<T>| x.app_id@ == app_id@),
                r@.map_values(|v: &LoggedViolation<T>| *v) == self.entries@.take(i as int).filter(pred),
            decreases self.entries@.len() - i,
        {
            proof {
                assert(self.entries@.take(i + 1) =~= self.entries@.take(i as int).push(self.entries@[i as int]));
                self.entries@.take(i as int).lemma_filter_push(self.entries@[i as int], pred);
            }
            if str_eq(self.entries[i].app_id.as_str(), app_id) {
                r.push(&self.entries[i]);
            }
            proof {
                assert(r@.map_values(|v: &LoggedViolation<T>| *v) =~= self.entries@.take(i + 1).filter(pred));
            }
            i = i + 1;
        }
        assert(self.entries@.take(self.entries@.len() as int) =~= self.entries@);
        r
    }

    /// The violations of one resource, oldest first.
    pub fn violations_by_resource(&self, resource: Resource) -> (r: Vec<&LoggedViolation<T>>)
        ensures
            r@.map_values(|v: &LoggedViolation<T>| *v) == logged_of(self.entries(), resource),
    {
        let ghost pred = |x: LoggedViolation<T>| x.resource == resource;
        let mut r: Vec<&LoggedViolation<T>> = Vec::new();
        let mut i: usize = 0;
        while i < self.entries.len()
            invariant
                i <= self.entries@.len(),
                pred == (|x: LoggedViolation<T>| x.resource == resource),
                r@.map_values(|v: &LoggedViolation<T>| *v) == self.entries@.take(i as int).filter(pred),
            decreases self.entries@.len() - i,
        {
            proof {
                assert(self.entries@.take(i + 1) =~= self.entries@.take(i as int).push(self.entries@[i as int]));
                self.entries@.take(i as int).lemma_filter_push(self.entries@[i as int], pred);
            }
            if self.entries[i].resource == resource {
                r.push(&self.entries[i]);
            }
            proof {
                assert(r@.map_values(|v: &LoggedViolation<T>| *v) =~= self.entries@.take(i + 1).filter(pred));
            }
            i = i + 1;
        }
        assert(self.entries@.take(self.entries@.len() as int) =~= self.entries@);
        r
    }

    /// The `n` applications with the most logged violations, most first,
    /// each with its count.
    pub fn top_violators(&self, n: usize) -> (r: Vec<(String, usize)>)
        requires
            self.wf(),
        ensures
            exists|t: Seq<(String, usize)>|
                is_count_tally(logged_pairs(self.entries()), t) && is_top_n(t, n as nat, r@),
    {
        let ghost pairs = logged_pairs(self.entries@);
        let mut t: Vec<(String, usize)> = Vec::new();
        let mut i: usize = 0;
        while i < self.entries.len()
            invariant
                i <= self.entries@.len(),
                self.entries@.len() <= QUOTA_HISTORY_LIMIT,
                pairs == logged_pairs(self.entries@),
                is_count_tally(pairs.take(i as int), t@),
            decreases self.entries@.len() - i,
        {
            proof {
                assert(pairs.take(i + 1) =~= pairs.take(i as int).push((self.entries@[i as int].app_id@, 1)));
                assert(all_ones(pairs.take(i as int)));
            }
            count_add(&mut t, self.entries[i].app_id.as_str(), Ghost(pairs.take(i as int)));
            i = i + 1;
        }
        assert(pairs.take(self.entries@.len() as int) =~= pairs);
        let ghost tv = t@;
        let r = top_n(t, n);
        assert(is_count_tally(pairs, tv) && is_top_n(tv, n as nat, r@));
        r
    }
}

} // verus!
