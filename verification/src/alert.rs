//! Alert system — notifications for permission violations and suspicious activity.

use vstd::prelude::*;
use crate::bounded::{keep_last, push_bounded};
use crate::clock::{Timestamp, now_millis};
use crate::keyed::lemma_filter_take_zero;
use crate::text::str_eq;

verus! {

/// Alert severity, from least to most severe.
#[derive(Debug, Clone, Copy, PartialEq, Eq, PartialOrd, Ord, Structural)]
pub enum AlertSeverity {
    Info,
    Warning,
    Critical,
}

/// The rank of a severity: 0 for `Info`, 1 for `Warning`, 2 for `Critical`.
pub open spec fn severity_rank(s: AlertSeverity) -> nat {
    match s {
        AlertSeverity::Info => 0,
        AlertSeverity::Warning => 1,
        AlertSeverity::Critical => 2,
    }
}

impl AlertSeverity {
    /// The rank of the severity.
    pub fn rank(&self) -> (r: u8)
        ensures
            r == severity_rank(*self),
    {
        match self {
            AlertSeverity::Info => 0,
            AlertSeverity::Warning => 1,
            AlertSeverity::Critical => 2,
        }
    }
}

/// An alert.
#[derive(Debug, Clone)]
pub struct Alert {
    pub timestamp: Timestamp,
    pub severity: AlertSeverity,
    pub app_id: String,
    pub message: String,
    pub acknowledged: bool,
}

/// An alert as plain data.
pub struct AlertView {
    pub timestamp: Timestamp,
    pub severity: AlertSeverity,
    pub app_id: Seq<char>,
    pub message: Seq<char>,
    pub acknowledged: bool,
}

impl View for Alert {
    type V = AlertView;

    open spec fn view(&self) -> AlertView {
        AlertView {
            timestamp: self.timestamp,
            severity: self.severity,
            app_id: self.app_id@,
            message: self.message@,
            acknowledged: self.acknowledged,
        }
    }
}

/// The views of a list of alert references.
pub open spec fn alert_views(s: Seq<&Alert>) -> Seq<AlertView> {
    s.map_values(|a: &Alert| a@)
}

/// An alert not yet acknowledged.
pub open spec fn open_alert() -> spec_fn(AlertView) -> bool {
    |a: AlertView| !a.acknowledged
}

/// An alert at least as severe as `min`.
pub open spec fn at_least(min: AlertSeverity) -> spec_fn(AlertView) -> bool {
    |a: AlertView| severity_rank(a.severity) >= severity_rank(min)
}

/// An alert about `app`.
pub open spec fn about(app: Seq<char>) -> spec_fn(AlertView) -> bool {
    |a: AlertView| a.app_id == app
}

/// The alert raised at `now`.
pub open spec fn raised(severity: AlertSeverity, app: Seq<char>, message: Seq<char>, now: Timestamp) -> AlertView {
    AlertView { timestamp: now, severity, app_id: app, message, acknowledged: false }
}

/// The alerts after acknowledging the one at `index` (unchanged when there
/// is none).
pub open spec fn acknowledged_at(s: Seq<AlertView>, index: int) -> Seq<AlertView> {
    if 0 <= index < s.len() {
        s.update(index, AlertView { acknowledged: true, ..s[index] })
    } else {
        s
    }
}

enum Query {
    Open,
    Severity(AlertSeverity),
    App(String),
}

spec fn query_pred(q: Query) -> spec_fn(AlertView) -> bool {
    match q {
        Query::Open => open_alert(),
        Query::Severity(m) => at_least(m),
        Query::App(a) => about(a@),
    }
}

fn query_matches(a: &Alert, q: &Query) -> (r: bool)
    ensures
        r == query_pred(*q)(a@),
{
    match q {
        Query::Open => !a.acknowledged,
        Query::Severity(m) => a.severity.rank() >= m.rank(),
        Query::App(x) => str_eq(a.app_id.as_str(), x.as_str()),
    }
}

/// Alert manager with bounded storage.
pub struct AlertManager {
    alerts: Vec<Alert>,
    max_alerts: usize,
}

impl AlertManager {
    /// The retained alerts, oldest first.
    pub closed spec fn alerts(&self) -> Seq<AlertView> {
        self.alerts@.map_values(|a: Alert| a@)
    }

    /// The number of alerts retained.
    pub closed spec fn limit(&self) -> nat {
        self.max_alerts as nat
    }

    /// The manager holds no more alerts than its limit.
    pub open spec fn wf(&self) -> bool {
        self.alerts().len() <= self.limit()
    }

    pub fn new(max_alerts: usize) -> (r: Self)
        ensures
            r.wf(),
            r.alerts() == Seq::<AlertView>::empty(),
            r.limit() == max_alerts,
    {
        let r = Self { alerts: Vec::new(), max_alerts };
        assert(r.alerts() =~= Seq::<AlertView>::empty());
        r
    }

    /// Raise an alert at the given instant, dropping the oldest beyond the
    /// limit.
    pub fn raise_at(&mut self, severity: AlertSeverity, app_id: &str, message: &str, now: Timestamp)
        requires
            old(self).wf(),
        ensures
            final(self).wf(),
            final(self).alerts() == keep_last(
                old(self).alerts().push(raised(severity, app_id@, message@, now)),
                old(self).limit(),
            ),
            final(self).limit() == old(self).limit(),
    {
        let a = Alert {
            timestamp: now,
            severity,
            app_id: String::from_str(app_id),
            message: String::from_str(message),
            acknowledged: false,
        };
        let ghost av = a@;
        let ghost o = self.alerts@.push(a);
        push_bounded(&mut self.alerts, a, self.max_alerts);
        proof {
            assert(o.map_values(|a: Alert| a@) =~= old(self).alerts().push(av));
            if o.len() > self.max_alerts {
                assert(self.alerts() =~= o.map_values(|a: Alert| a@).subrange(
                    o.len() - self.max_alerts,
                    o.len() as int,
                ));
            } else {
                assert(self.alerts() =~= o.map_values(|a: Alert| a@));
            }
        }
    }

    /// Raise an alert now.
    pub fn raise(&mut self, severity: AlertSeverity, app_id: &str, message: &str)
        requires
            old(self).wf(),
        ensures
            final(self).wf(),
            exists|t: Timestamp|
                final(self).alerts() == keep_last(
                    old(self).alerts().push(#[trigger] raised(severity, app_id@, message@, t)),
                    old(self).limit(),
                ),
            final(self).limit() == old(self).limit(),
    {
        let now = now_millis();
        self.raise_at(severity, app_id, message, now);
        assert(self.alerts() == keep_last(
            old(self).alerts().push(raised(severity, app_id@, message@, now)),
            old(self).limit(),
        ));
    }

    /// Acknowledge the alert at `index` (oldest first); nothing happens
    /// when there is none.
    pub fn acknowledge(&mut self, index: usize)
        requires
            old(self).wf(),
        ensures
            final(self).wf(),
            final(self).alerts() == acknowledged_at(old(self).alerts(), index as int),
            final(self).limit() == old(self).limit(),
    {
        let ghost s = self.alerts();
        if index < self.alerts.len() {
            let mut a = Alert {
                timestamp: 0,
                severity: AlertSeverity::Info,
                app_id: String::new(),
                message: String::new(),
                acknowledged: false,
            };
            std::mem::swap(&mut a, &mut self.alerts[index]);
            a.acknowledged = true;
            let ghost av = a@;
            self.alerts.set(index, a);
            assert(self.alerts() =~= s.update(index as int, av));
        }
    }

    fn select(&self, q: &Query) -> (r: Vec<&Alert>)
        ensures
            alert_views(r@) == self.alerts().filter(query_pred(*q)),
    {
        let ghost s = self.alerts();
        let ghost p = query_pred(*q);
        let mut r: Vec<&Alert> = Vec::new();
        let mut i: usize = 0;
        proof {
            lemma_filter_take_zero(s, p);
            assert(alert_views(r@) =~= Seq::<AlertView>::empty());
        }
        while i < self.alerts.len()
            invariant
                i <= self.alerts@.len(),
                s == self.alerts(),
                p == query_pred(*q),
                alert_views(r@) == s.take(i as int).filter(p),
            decreases self.alerts@.len() - i,
        {
            let a = &self.alerts[i];
            proof {
                assert(s.take(i + 1) =~= s.take(i as int).push(a@));
                s.take(i as int).lemma_filter_push(a@, p);
            }
            if query_matches(a, q) {
                let ghost before = alert_views(r@);
                r.push(a);
                assert(alert_views(r@) =~= before.push(a@));
            }
            i = i + 1;
        }
        assert(s.take(self.alerts@.len() as int) =~= s);
        r
    }

    /// Alerts not yet acknowledged, oldest first.
    pub fn unacknowledged(&self) -> (r: Vec<&Alert>)
        ensures
            alert_views(r@) == self.alerts().filter(open_alert()),
    {
        self.select(&Query::Open)
    }

    /// Alerts at least as severe as `min`, oldest first.
    pub fn by_severity(&self, min: AlertSeverity) -> (r: Vec<&Alert>)
        ensures
            alert_views(r@) == self.alerts().filter(at_least(min)),
    {
        self.select(&Query::Severity(min))
    }

    /// Alerts about one application, oldest first.
    pub fn by_app(&self, app_id: &str) -> (r: Vec<&Alert>)
        ensures
            alert_views(r@) == self.alerts().filter(about(app_id@)),
    {
        self.select(&Query::App(String::from_str(app_id)))
    }

    pub fn count(&self) -> (r: usize)
        ensures
            r == self.alerts().len(),
    {
        self.alerts.len()
    }

    /// Remove every alert.
    pub fn clear(&mut self)
        ensures
            final(self).wf(),
            final(self).alerts() == Seq::<AlertView>::empty(),
            final(self).limit() == old(self).limit(),
    {
        self.alerts = Vec::new();
        assert(self.alerts() =~= Seq::<AlertView>::empty());
    }
}

impl Default for AlertManager {
    fn default() -> (r: Self)
        ensures
            r.wf(),
            r.alerts() == Seq::<AlertView>::empty(),
            r.limit() == 500,
    {
        Self::new(500)
    }
}

} // verus!
