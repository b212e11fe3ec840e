//! Data exfiltration monitor — per-application outbound volume baselines.
//!
//! Each application keeps a sliding window of its recent uploads. The
//! statistics over that window (mean, spread, z-scores) are computed by
//! the caller; the window itself, its pruning and its byte total live
//! here.

use vstd::prelude::*;
use crate::clock::{Timestamp, now_millis};
use crate::keyed::lemma_filter_take_zero;

verus! {

/// Exfiltration suspicion tier.
#[derive(Debug, Clone, Copy, PartialEq, Eq, Structural)]
pub enum SuspicionLevel {
    Normal,
    Elevated,
    High,
    Critical,
}

/// A single recorded upload event.
#[derive(Debug, Clone, Copy)]
pub struct UploadEvent {
    pub bytes: u64,
    pub at: Timestamp,
}

/// Milliseconds from `at` to `now`, or zero when `at` is later.
pub open spec fn age(now: Timestamp, at: Timestamp) -> int {
    if now >= at {
        now - at
    } else {
        0
    }
}

/// An upload still inside the window at `now`.
pub open spec fn in_window(now: Timestamp, window_ms: u64) -> spec_fn(UploadEvent) -> bool {
    |e: UploadEvent| age(now, e.at) <= window_ms
}

/// The bytes of a list of uploads.
pub open spec fn upload_bytes(s: Seq<UploadEvent>) -> int
    decreases s.len(),
{
    if s.len() == 0 {
        0
    } else {
        upload_bytes(s.drop_last()) + s.last().bytes
    }
}

/// Dropping uploads never adds bytes.
pub proof fn lemma_upload_bytes_filter(s: Seq<UploadEvent>, p: spec_fn(UploadEvent) -> bool)
    ensures
        0 <= upload_bytes(s.filter(p)) <= upload_bytes(s),
    decreases s.len(),
{
    reveal(Seq::filter);
    if s.len() > 0 {
        lemma_upload_bytes_filter(s.drop_last(), p);
        if p(s.last()) {
            assert(s.filter(p).drop_last() =~= s.drop_last().filter(p));
        }
    }
}

/// Per-application rolling baseline.
#[derive(Debug, Clone)]
pub struct AppBaseline {
    pub app_id: String,
    pub events: Vec<UploadEvent>,
    pub total_bytes: u64,
    /// Window length in milliseconds.
    pub window_ms: u64,
}

impl AppBaseline {
    /// The byte total matches the uploads in the window.
    pub open spec fn wf(&self) -> bool {
        self.total_bytes == upload_bytes(self.events@)
    }

    pub fn new(app_id: &str, window_ms: u64) -> (r: Self)
        ensures
            r.wf(),
            r.app_id@ == app_id@,
            r.events@ == Seq::<UploadEvent>::empty(),
            r.window_ms == window_ms,
    {
        Self { app_id: String::from_str(app_id), events: Vec::new(), total_bytes: 0, window_ms }
    }

    /// Drop the uploads that left the window at `now` and recount the bytes.
    pub fn prune(&mut self, now: Timestamp)
        requires
            upload_bytes(old(self).events@) <= u64::MAX,
        ensures
            final(self).wf(),
            final(self).events@ == old(self).events@.filter(in_window(now, old(self).window_ms)),
            final(self).app_id == old(self).app_id,
            final(self).window_ms == old(self).window_ms,
    {
        let ghost pred = in_window(now, self.window_ms);
        let ghost all = self.events@;
        proof {
            lemma_upload_bytes_filter(all, pred);
        }
        let mut kept: Vec<UploadEvent> = Vec::new();
        let mut sum: u64 = 0;
        let mut i: usize = 0;
        proof {
            lemma_filter_take_zero(all, pred);
        }
        while i < self.events.len()
            invariant
                i <= self.events@.len(),
                all == self.events@,
                pred == in_window(now, self.window_ms),
                upload_bytes(all.filter(pred)) <= u64::MAX,
                kept@ == all.take(i as int).filter(pred),
                sum == upload_bytes(kept@),
            decreases self.events@.len() - i,
        {
            let e = self.events[i];
            proof {
                assert(all.take(i + 1) =~= all.take(i as int).push(e));
                all.take(i as int).lemma_filter_push(e, pred);
            }
            let age: i128 = if e.at <= now { (now as i128) - (e.at as i128) } else { 0 };
            if age <= self.window_ms as i128 {
                proof {
                    let k = all.take(i + 1).filter(pred);
                    assert(k.drop_last() =~= kept@);
                    lemma_filter_prefix_bytes(all, pred, i + 1);
                }
                kept.push(e);
                sum = sum + e.bytes;
            }
            i = i + 1;
        }
        assert(all.take(all.len() as int) =~= all);
        self.events = kept;
        self.total_bytes = sum;
    }

    /// Record an upload at the given instant, then prune.
    pub fn record_at(&mut self, bytes: u64, now: Timestamp)
        requires
            old(self).wf(),
            old(self).total_bytes + bytes <= u64::MAX,
        ensures
            final(self).wf(),
            final(self).events@ == old(self).events@.push(UploadEvent { bytes, at: now }).filter(
                in_window(now, old(self).window_ms),
            ),
            final(self).app_id == old(self).app_id,
            final(self).window_ms == old(self).window_ms,
    {
        let ghost before = self.events@;
        self.events.push(UploadEvent { bytes, at: now });
        self.total_bytes = self.total_bytes + bytes;
        proof {
            assert(self.events@.drop_last() =~= before);
        }
        self.prune(now);
    }

    /// Record an upload now, then prune.
    pub fn record(&mut self, bytes: u64)
        requires
            old(self).wf(),
            old(self).total_bytes + bytes <= u64::MAX,
        ensures
            final(self).wf(),
            exists|now: Timestamp|
                final(self).events@ == #[trigger] old(self).events@.push(UploadEvent { bytes, at: now }).filter(
                    in_window(now, old(self).window_ms),
                ),
            final(self).app_id == old(self).app_id,
            final(self).window_ms == old(self).window_ms,
    {
        let now = now_millis();
        self.record_at(bytes, now);
    }

    pub fn event_count(&self) -> (r: usize)
        ensures
            r == self.events@.len(),
    {
        self.events.len()
    }
}

/// The bytes kept from a prefix never exceed those kept from the whole.
proof fn lemma_filter_prefix_bytes(s: Seq<UploadEvent>, p: spec_fn(UploadEvent) -> bool, n: int)
    requires
        0 <= n <= s.len(),
    ensures
        upload_bytes(s.take(n).filter(p)) <= upload_bytes(s.filter(p)),
    decreases s.len(),
{
    reveal(Seq::filter);
    if s.len() > 0 {
        let q = s.drop_last();
        if n == s.len() {
            assert(s.take(n) =~= s);
        } else {
            assert(s.take(n) =~= q.take(n));
            lemma_filter_prefix_bytes(q, p, n);
            lemma_upload_bytes_filter(q, p);
            if p(s.last()) {
                assert(s.filter(p).drop_last() =~= q.filter(p));
            }
        }
    }
}

} // verus!
