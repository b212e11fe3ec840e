//! Network audit — tracks which apps connect to which destinations.
//!
//! Complements permission auditing with actual network behavior analysis.
//! An app may have NetworkAccess permission but connecting to a known
//! malware C2 server is still suspicious.

use vstd::prelude::*;
use crate::clock::Timestamp;
use crate::keyed::{Keyed, with_key};
use crate::ranking::{is_top_n, top_n};
use crate::tally::{first_keys, key_total, is_tally, totals_fit, tally_of, all_ones, lemma_key_total_bounded};
use crate::text::{seq_contains_str, contains};

verus! {

/// A network connection made by an app.
#[derive(Debug, Clone)]
pub struct AppConnection {
    pub app_id: String,
    pub dest_ip: String,
    pub dest_port: u16,
    pub dest_domain: Option<String>,
    pub bytes_sent: u64,
    pub bytes_received: u64,
    pub timestamp: Timestamp,
    pub protocol: String,
}

impl Keyed for AppConnection {
    open spec fn key(&self) -> Seq<char> {
        self.app_id@
    }

    fn key_str(&self) -> (k: &str) {
        self.app_id.as_str()
    }
}

/// Network behavior profile for an app.
#[derive(Debug, Clone)]
pub struct AppNetworkProfile {
    pub app_id: String,
    /// Every destination with its connection count, in order of first
    /// connection.
    pub destinations: Vec<(String, u64)>,
    /// Total bytes sent by this app.
    pub total_bytes_sent: u64,
    /// Total bytes received.
    pub total_bytes_received: u64,
    /// Total connections made.
    pub total_connections: u64,
    /// Unique destination count.
    pub unique_destinations: usize,
}

/// Where a connection went: its domain when known, else its address.
pub open spec fn dest_of(c: AppConnection) -> Seq<char> {
    match c.dest_domain {
        Some(d) => d@,
        None => c.dest_ip@,
    }
}

/// The destination of a connection as a string slice.
pub fn dest_str(c: &AppConnection) -> (r: &str)
    ensures
        r@ == dest_of(*c),
{
    match &c.dest_domain {
        Some(d) => d.as_str(),
        None => c.dest_ip.as_str(),
    }
}

/// A connection of `app`.
pub open spec fn conn_by(app: Seq<char>) -> spec_fn(AppConnection) -> bool {
    |c: AppConnection| c.app_id@ == app
}

/// The connections of `app`, in order.
pub open spec fn conns_of(s: Seq<AppConnection>, app: Seq<char>) -> Seq<AppConnection> {
    s.filter(conn_by(app))
}

/// The `(destination, 1)` pairs of a list of connections.
pub open spec fn dest_pairs(s: Seq<AppConnection>) -> Seq<(Seq<char>, int)> {
    s.map_values(|c: AppConnection| (dest_of(c), 1int))
}

/// The bytes sent over a list of connections.
pub open spec fn sent_total(s: Seq<AppConnection>) -> int
    decreases s.len(),
{
    if s.len() == 0 {
        0
    } else {
        sent_total(s.drop_last()) + s.last().bytes_sent
    }
}

/// The bytes received over a list of connections.
pub open spec fn received_total(s: Seq<AppConnection>) -> int
    decreases s.len(),
{
    if s.len() == 0 {
        0
    } else {
        received_total(s.drop_last()) + s.last().bytes_received
    }
}

/// The `(application, bytes sent and received)` pairs of a connection log.
pub open spec fn traffic_pairs(s: Seq<AppConnection>) -> Seq<(Seq<char>, int)> {
    s.map_values(|c: AppConnection| (c.app_id@, c.bytes_sent + c.bytes_received))
}

/// A destination under one of the listed suspicious names.
pub open spec fn is_suspicious_dest(list: Seq<String>, d: Seq<char>) -> bool {
    exists|i: int| 0 <= i < list.len() && seq_contains_str(d, (#[trigger] list[i])@)
}

/// A suspicious connection of `app`.
pub open spec fn suspicious_conn(list: Seq<String>, app: Seq<char>) -> spec_fn(AppConnection) -> bool {
    |c: AppConnection| c.app_id@ == app && is_suspicious_dest(list, dest_of(c))
}

/// The connections behind a list of references.
pub open spec fn conn_values(s: Seq<&AppConnection>) -> Seq<AppConnection> {
    s.map_values(|c: &AppConnection| *c)
}

proof fn lemma_total_prefix(s: Seq<AppConnection>, n: int)
    requires
        0 <= n <= s.len(),
    ensures
        0 <= sent_total(s.take(n)) <= sent_total(s),
        0 <= received_total(s.take(n)) <= received_total(s),
    decreases s.len(),
{
    if s.len() > 0 {
        if n == s.len() {
            assert(s.take(n) =~= s);
            lemma_total_prefix(s.drop_last(), s.len() - 1);
            assert(s.drop_last().take(s.len() - 1) =~= s.drop_last());
        } else {
            assert(s.take(n) =~= s.drop_last().take(n));
            lemma_total_prefix(s.drop_last(), n);
        }
    }
}

/// Network auditor — builds profiles of app network behavior.
pub struct NetworkAuditor {
    connections: Vec<AppConnection>,
    suspicious_destinations: Vec<String>,
}

impl NetworkAuditor {
    /// The recorded connections, oldest first.
    pub closed spec fn connections(&self) -> Seq<AppConnection> {
        self.connections@
    }

    /// The known-suspicious destination names.
    pub closed spec fn suspicious_list(&self) -> Seq<String> {
        self.suspicious_destinations@
    }

    pub fn new() -> (r: Self)
        ensures
            r.connections() == Seq::<AppConnection>::empty(),
            r.suspicious_list().len() == 3,
            r.suspicious_list()[0]@ == "malware-c2.example.com"@,
            r.suspicious_list()[1]@ == "phishing.evil.com"@,
            r.suspicious_list()[2]@ == "cryptominer-pool.xyz"@,
    {
        let mut list: Vec<String> = Vec::new();
        list.push(String::from_str("malware-c2.example.com"));
        list.push(String::from_str("phishing.evil.com"));
        list.push(String::from_str("cryptominer-pool.xyz"));
        Self { connections: Vec::new(), suspicious_destinations: list }
    }

    /// Record a network connection.
    pub fn record(&mut self, conn: AppConnection)
        ensures
            final(self).connections() == old(self).connections().push(conn),
            final(self).suspicious_list() == old(self).suspicious_list(),
    {
        self.connections.push(conn);
    }

    /// Build a network profile for an app.
    pub fn profile(&self, app_id: &str) -> (r: AppNetworkProfile)
        requires
            sent_total(conns_of(self.connections(), app_id@)) <= u64::MAX,
            received_total(conns_of(self.connections(), app_id@)) <= u64::MAX,
        ensures
            r.app_id@ == app_id@,
            is_tally(dest_pairs(conns_of(self.connections(), app_id@)), r.destinations@),
            r.total_bytes_sent == sent_total(conns_of(self.connections(), app_id@)),
            r.total_bytes_received == received_total(conns_of(self.connections(), app_id@)),
            r.total_connections == conns_of(self.connections(), app_id@).len(),
            r.unique_destinations == first_keys(dest_pairs(conns_of(self.connections(), app_id@))).len(),
    {
        let conns = with_key(&self.connections, app_id);
        let ghost cs = conns_of(self.connections@, app_id@);
        assert((|x: AppConnection| x.key() == app_id@) == conn_by(app_id@));
        assert(conn_values(conns@) == cs);
        let ghost p = dest_pairs(cs);
        let mut keys: Vec<&str> = Vec::new();
        let mut amounts: Vec<u64> = Vec::new();
        let mut total_sent: u64 = 0;
        let mut total_recv: u64 = 0;
        let mut i: usize = 0;
        while i < conns.len()
            invariant
                i <= conns@.len(),
                cs == conn_values(conns@),
                cs.len() == conns@.len(),
                p == dest_pairs(cs),
                sent_total(cs) <= u64::MAX,
                received_total(cs) <= u64::MAX,
                keys@.len() == i,
                amounts@.len() == i,
                forall|j: int| 0 <= j < i ==> (#[trigger] p[j]) == (keys@[j]@, amounts@[j] as int),
                total_sent == sent_total(cs.take(i as int)),
                total_recv == received_total(cs.take(i as int)),
            decreases conns@.len() - i,
        {
            let c = conns[i];
            proof {
                assert(cs[i as int] == *c);
                assert(cs.take(i + 1).drop_last() =~= cs.take(i as int));
                lemma_total_prefix(cs, i + 1);
            }
            keys.push(dest_str(c));
            amounts.push(1);
            total_sent = total_sent + c.bytes_sent;
            total_recv = total_recv + c.bytes_received;
            i = i + 1;
        }
        assert(cs.take(cs.len() as int) =~= cs);
        proof {
            assert(all_ones(p));
            assert forall|k: Seq<char>| #[trigger] key_total(p, k) <= u64::MAX by {
                lemma_key_total_bounded(p, k);
            }
        }
        let destinations = tally_of(&keys, &amounts, Ghost(p));
        let unique = destinations.len();
        AppNetworkProfile {
            app_id: String::from_str(app_id),
            destinations,
            total_bytes_sent: total_sent,
            total_bytes_received: total_recv,
            total_connections: conns.len() as u64,
            unique_destinations: unique,
        }
    }

    fn is_suspicious(&self, dest: &str) -> (r: bool)
        ensures
            r == is_suspicious_dest(self.suspicious_list(), dest@),
    {
        let mut i: usize = 0;
        while i < self.suspicious_destinations.len()
            invariant
                i <= self.suspicious_destinations@.len(),
                forall|j: int| 0 <= j < i ==> !seq_contains_str(dest@, (#[trigger] self.suspicious_destinations@[j])@),
            decreases self.suspicious_destinations@.len() - i,
        {
            if contains(dest, self.suspicious_destinations[i].as_str()) {
                return true;
            }
            i = i + 1;
        }
        false
    }

    /// The connections of an app to known-suspicious destinations, in order.
    pub fn check_suspicious(&self, app_id: &str) -> (r: Vec<&AppConnection>)
        ensures
            conn_values(r@) == self.connections().filter(suspicious_conn(self.suspicious_list(), app_id@)),
    {
        let ghost pred = suspicious_conn(self.suspicious_destinations@, app_id@);
        let mut r: Vec<&AppConnection> = Vec::new();
        let mut i: usize = 0;
        proof {
            reveal(Seq::filter);
            assert(self.connections@.take(0).filter(pred) =~= Seq::<AppConnection>::empty());
            assert(conn_values(r@) =~= Seq::<AppConnection>::empty());
        }
        while i < self.connections.len()
            invariant
                i <= self.connections@.len(),
                pred == suspicious_conn(self.suspicious_destinations@, app_id@),
                conn_values(r@) == self.connections@.take(i as int).filter(pred),
            decreases self.connections@.len() - i,
        {
            proof {
                assert(self.connections@.take(i + 1) =~= self.connections@.take(i as int).push(self.connections@[i as int]));
                self.connections@.take(i as int).lemma_filter_push(self.connections@[i as int], pred);
            }
            let c = &self.connections[i];
            let ghost rb = r@;
            if str_eq_app(c, app_id) && self.is_suspicious(dest_str(c)) {
                r.push(c);
                assert(conn_values(r@) =~= conn_values(rb).push(*c));
            }
            i = i + 1;
        }
        assert(self.connections@.take(self.connections@.len() as int) =~= self.connections@);
        r
    }

    /// The `count` apps with the most traffic (sent and received), most first.
    pub fn top_talkers(&self, count: usize) -> (r: Vec<(String, u64)>)
        requires
            forall|i: int| 0 <= i < self.connections().len() ==> (#[trigger] self.connections()[i]).bytes_sent
                + self.connections()[i].bytes_received <= u64::MAX,
            totals_fit(traffic_pairs(self.connections())),
        ensures
            exists|t: Seq<(String, u64)>| is_tally(traffic_pairs(self.connections()), t) && is_top_n(t, count as nat, r@),
    {
        let ghost p = traffic_pairs(self.connections@);
        let mut keys: Vec<&str> = Vec::new();
        let mut amounts: Vec<u64> = Vec::new();
        let mut i: usize = 0;
        while i < self.connections.len()
            invariant
                i <= self.connections@.len(),
                p == traffic_pairs(self.connections@),
                forall|j: int| 0 <= j < self.connections@.len() ==> (#[trigger] self.connections@[j]).bytes_sent
                    + self.connections@[j].bytes_received <= u64::MAX,
                keys@.len() == i,
                amounts@.len() == i,
                forall|j: int| 0 <= j < i ==> (#[trigger] p[j]) == (keys@[j]@, amounts@[j] as int),
            decreases self.connections@.len() - i,
        {
            let c = &self.connections[i];
            assert(c.bytes_sent + c.bytes_received <= u64::MAX);
            keys.push(c.app_id.as_str());
            amounts.push(c.bytes_sent + c.bytes_received);
            i = i + 1;
        }
        let t = tally_of(&keys, &amounts, Ghost(p));
        let ghost tv = t@;
        let r = top_n(t, count);
        assert(is_tally(p, tv) && is_top_n(tv, count as nat, r@));
        r
    }

    /// Total connections recorded.
    pub fn connection_count(&self) -> (r: usize)
        ensures
            r == self.connections().len(),
    {
        self.connections.len()
    }
}

fn str_eq_app(c: &AppConnection, app_id: &str) -> (r: bool)
    ensures
        r == (c.app_id@ == app_id@),
{
    crate::text::str_eq(c.app_id.as_str(), app_id)
}

impl Default for NetworkAuditor {
    fn default() -> (r: Self)
        ensures
            r.connections() == Seq::<AppConnection>::empty(),
            r.suspicious_list().len() == 3,
            r.suspicious_list()[0]@ == "malware-c2.example.com"@,
            r.suspicious_list()[1]@ == "phishing.evil.com"@,
            r.suspicious_list()[2]@ == "cryptominer-pool.xyz"@,
    {
        Self::new()
    }
}

} // verus!
