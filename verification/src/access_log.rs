//! Access log — record file/network/IPC access events for forensic review.

use vstd::prelude::*;
use crate::bounded::{keep_last, push_bounded};
use crate::clock::Timestamp;
use crate::keyed::lemma_filter_take_zero;
use crate::ranking::{is_top_n, top_n};
use crate::tally::{is_count_tally, all_ones, count_add};
use crate::text::{str_eq, contains, seq_contains_str};

verus! {

/// Access event type.
#[derive(Debug, Clone, Copy, PartialEq, Eq, Hash, Structural)]
pub enum AccessType {
    FileRead,
    FileWrite,
    FileDelete,
    FileExecute,
    NetworkConnect,
    NetworkListen,
    IpcSend,
    IpcReceive,
    DeviceAccess,
    SyscallExec,
}

/// Access event.
#[derive(Debug, Clone)]
pub struct AccessEvent {
    pub timestamp: Timestamp,
    pub app_id: String,
    pub access_type: AccessType,
    pub resource: String,
    pub success: bool,
    pub user: String,
}

/// An access event as plain data.
pub struct AccessEventView {
    pub timestamp: Timestamp,
    pub app_id: Seq<char>,
    pub access_type: AccessType,
    pub resource: Seq<char>,
    pub success: bool,
    pub user: Seq<char>,
}

impl View for AccessEvent {
    type V = AccessEventView;

    open spec fn view(&self) -> AccessEventView {
        AccessEventView {
            timestamp: self.timestamp,
            app_id: self.app_id@,
            access_type: self.access_type,
            resource: self.resource@,
            success: self.success,
            user: self.user@,
        }
    }
}

/// The views of a list of event references.
pub open spec fn event_views(s: Seq<&AccessEvent>) -> Seq<AccessEventView> {
    s.map_values(|e: &AccessEvent| e@)
}

/// An event of `app`.
pub open spec fn of_app(app: Seq<char>) -> spec_fn(AccessEventView) -> bool {
    |e: AccessEventView| e.app_id == app
}

/// An event of the given type.
pub open spec fn of_type(t: AccessType) -> spec_fn(AccessEventView) -> bool {
    |e: AccessEventView| e.access_type == t
}

/// An event whose resource contains `resource`.
pub open spec fn on_resource(resource: Seq<char>) -> spec_fn(AccessEventView) -> bool {
    |e: AccessEventView| seq_contains_str(e.resource, resource)
}

/// A failed access attempt.
pub open spec fn failed() -> spec_fn(AccessEventView) -> bool {
    |e: AccessEventView| !e.success
}

/// One `(application, 1)` pair per event, for counting events per
/// application.
pub open spec fn app_pairs(s: Seq<AccessEventView>) -> Seq<(Seq<char>, int)> {
    s.map_values(|e: AccessEventView| (e.app_id, 1int))
}

enum Query {
    App(String),
    Type(AccessType),
    Resource(String),
    Failure,
}

spec fn query_pred(q: Query) -> spec_fn(AccessEventView) -> bool {
    match q {
        Query::App(a) => of_app(a@),
        Query::Type(t) => of_type(t),
        Query::Resource(r) => on_resource(r@),
        Query::Failure => failed(),
    }
}

fn query_matches(e: &AccessEvent, q: &Query) -> (r: bool)
    ensures
        r == query_pred(*q)(e@),
{
    match q {
        Query::App(a) => str_eq(e.app_id.as_str(), a.as_str()),
        Query::Type(t) => e.access_type == *t,
        Query::Resource(r) => contains(e.resource.as_str(), r.as_str()),
        Query::Failure => !e.success,
    }
}

/// Access log with bounded storage.
pub struct AccessLog {
    events: Vec<AccessEvent>,
    max_events: usize,
}

impl AccessLog {
    /// The retained events, oldest first.
    pub closed spec fn events(&self) -> Seq<AccessEventView> {
        self.events@.map_values(|e: AccessEvent| e@)
    }

    /// The number of events retained.
    pub closed spec fn limit(&self) -> nat {
        self.max_events as nat
    }

    /// The log holds no more events than its limit.
    pub open spec fn wf(&self) -> bool {
        self.events().len() <= self.limit()
    }

    /// An empty log that keeps the last `max_events` events.
    pub fn new(max_events: usize) -> (r: Self)
        ensures
            r.wf(),
            r.events() == Seq::<AccessEventView>::empty(),
            r.limit() == max_events,
    {
        let r = Self { events: Vec::new(), max_events };
        assert(r.events() =~= Seq::<AccessEventView>::empty());
        r
    }

    /// Record an access event, dropping the oldest beyond the limit.
    pub fn record(&mut self, event: AccessEvent)
        requires
            old(self).wf(),
        ensures
            final(self).wf(),
            final(self).events() == keep_last(old(self).events().push(event@), old(self).limit()),
            final(self).limit() == old(self).limit(),
    {
        let ghost ev = event@;
        let ghost o = self.events@.push(event);
        push_bounded(&mut self.events, event, self.max_events);
        proof {
            assert(o.map_values(|e: AccessEvent| e@) =~= old(self).events().push(ev));
            if o.len() > self.max_events {
                assert(self.events() =~= o.map_values(|e: AccessEvent| e@).subrange(
                    o.len() - self.max_events,
                    o.len() as int,
                ));
            } else {
                assert(self.events() =~= o.map_values(|e: AccessEvent| e@));
            }
        }
    }

    fn select(&self, q: &Query) -> (r: Vec<&AccessEvent>)
        ensures
            event_views(r@) == self.events().filter(query_pred(*q)),
    {
        let ghost s = self.events();
        let ghost p = query_pred(*q);
        let mut r: Vec<&AccessEvent> = Vec::new();
        let mut i: usize = 0;
        proof {
            lemma_filter_take_zero(s, p);
            assert(event_views(r@) =~= Seq::<AccessEventView>::empty());
        }
        while i < self.events.len()
            invariant
                i <= self.events@.len(),
                s == self.events(),
                p == query_pred(*q),
                event_views(r@) == s.take(i as int).filter(p),
            decreases self.events@.len() - i,
        {
            let e = &self.events[i];
            proof {
                assert(s.take(i + 1) =~= s.take(i as int).push(e@));
                s.take(i as int).lemma_filter_push(e@, p);
            }
            if query_matches(e, q) {
                let ghost before = event_views(r@);
                r.push(e);
                assert(event_views(r@) =~= before.push(e@));
            }
            i = i + 1;
        }
        assert(s.take(self.events@.len() as int) =~= s);
        r
    }

    /// Events of one application, oldest first.
    pub fn for_app(&self, app_id: &str) -> (r: Vec<&AccessEvent>)
        ensures
            event_views(r@) == self.events().filter(of_app(app_id@)),
    {
        self.select(&Query::App(String::from_str(app_id)))
    }

    /// Events of one type, oldest first.
    pub fn by_type(&self, access_type: &AccessType) -> (r: Vec<&AccessEvent>)
        ensures
            event_views(r@) == self.events().filter(of_type(*access_type)),
    {
        self.select(&Query::Type(*access_type))
    }

    /// Events whose resource contains `resource`, oldest first.
    pub fn for_resource(&self, resource: &str) -> (r: Vec<&AccessEvent>)
        ensures
            event_views(r@) == self.events().filter(on_resource(resource@)),
    {
        self.select(&Query::Resource(String::from_str(resource)))
    }

    /// Failed access attempts, oldest first.
    pub fn failures(&self) -> (r: Vec<&AccessEvent>)
        ensures
            event_views(r@) == self.events().filter(failed()),
    {
        self.select(&Query::Failure)
    }

    /// The last `n` events, oldest first.
    pub fn recent(&self, n: usize) -> (r: Vec<&AccessEvent>)
        ensures
            event_views(r@) == keep_last(self.events(), n as nat),
    {
        let len = self.events.len();
        let start = if len > n {
            len - n
        } else {
            0
        };
        let mut r: Vec<&AccessEvent> = Vec::new();
        let mut i: usize = start;
        while i < len
            invariant
                len == self.events@.len(),
                start <= i <= len,
                event_views(r@) == self.events().subrange(start as int, i as int),
            decreases len - i,
        {
            let ghost before = event_views(r@);
            r.push(&self.events[i]);
            assert(event_views(r@) =~= before.push(self.events@[i as int]@));
            assert(event_views(r@) =~= self.events().subrange(start as int, i + 1));
            i = i + 1;
        }
        assert(self.events().subrange(start as int, len as int) =~= keep_last(self.events(), n as nat));
        r
    }

    /// The `n` applications with the most events, most first.
    pub fn top_accessors(&self, n: usize) -> (r: Vec<(String, usize)>)
        ensures
            exists|t: Seq<(String, usize)>| is_count_tally(app_pairs(self.events()), t) && is_top_n(t, n as nat, r@),
    {
        let ghost pairs = app_pairs(self.events());
        let mut t: Vec<(String, usize)> = Vec::new();
        let mut i: usize = 0;
        assert(pairs.take(0) =~= Seq::<(Seq<char>, int)>::empty());
        while i < self.events.len()
            invariant
                i <= self.events@.len(),
                pairs == app_pairs(self.events()),
                is_count_tally(pairs.take(i as int), t@),
            decreases self.events@.len() - i,
        {
            proof {
                assert(pairs.take(i + 1) =~= pairs.take(i as int).push((self.events@[i as int].app_id@, 1)));
                assert(all_ones(pairs.take(i as int)));
            }
            count_add(&mut t, self.events[i].app_id.as_str(), Ghost(pairs.take(i as int)));
            i = i + 1;
        }
        assert(pairs.take(self.events@.len() as int) =~= pairs);
        let ghost tv = t@;
        let r = top_n(t, n);
        assert(is_count_tally(pairs, tv) && is_top_n(tv, n as nat, r@));
        r
    }

    /// Clear all events.
    pub fn clear(&mut self)
        ensures
            final(self).wf(),
            final(self).events() == Seq::<AccessEventView>::empty(),
            final(self).limit() == old(self).limit(),
    {
        self.events = Vec::new();
        assert(self.events() =~= Seq::<AccessEventView>::empty());
    }

    pub fn count(&self) -> (r: usize)
        ensures
            r == self.events().len(),
    {
        self.events.len()
    }
}

impl Default for AccessLog {
    fn default() -> (r: Self)
        ensures
            r.wf(),
            r.events() == Seq::<AccessEventView>::empty(),
            r.limit() == 100_000,
    {
        Self::new(100_000)
    }
}

} // verus!
