//! Permission auditing — tracks what permissions each app uses.

use vstd::prelude::*;
use crate::clock::Timestamp;
use crate::keyed::{Keyed, lemma_filter_map_push, lemma_filter_take_zero, position_of, distinct_by, seq_to_map, lemma_seq_to_map_dom, lemma_seq_to_map_get, lemma_seq_to_map_push, lemma_seq_to_map_update};
use crate::text::{str_eq, copy_string};

verus! {

/// System permission categories.
#[derive(Debug, Clone)]
pub enum Permission {
    Camera,
    Microphone,
    Location,
    Contacts,
    Calendar,
    Storage,
    Phone,
    Sms,
    Notifications,
    BackgroundActivity,
    NetworkAccess,
    Bluetooth,
    Usb,
    Accessibility,
    DeviceAdmin,
    SystemAlert,
    InstallApps,
    /// Platform-specific permission not in the standard list.
    Custom(String),
}

/// A permission as plain data.
pub enum PermissionView {
    Camera,
    Microphone,
    Location,
    Contacts,
    Calendar,
    Storage,
    Phone,
    Sms,
    Notifications,
    BackgroundActivity,
    NetworkAccess,
    Bluetooth,
    Usb,
    Accessibility,
    DeviceAdmin,
    SystemAlert,
    InstallApps,
    Custom(Seq<char>),
}

impl View for Permission {
    type V = PermissionView;

    open spec fn view(&self) -> PermissionView {
        match self {
            Permission::Camera => PermissionView::Camera,
            Permission::Microphone => PermissionView::Microphone,
            Permission::Location => PermissionView::Location,
            Permission::Contacts => PermissionView::Contacts,
            Permission::Calendar => PermissionView::Calendar,
            Permission::Storage => PermissionView::Storage,
            Permission::Phone => PermissionView::Phone,
            Permission::Sms => PermissionView::Sms,
            Permission::Notifications => PermissionView::Notifications,
            Permission::BackgroundActivity => PermissionView::BackgroundActivity,
            Permission::NetworkAccess => PermissionView::NetworkAccess,
            Permission::Bluetooth => PermissionView::Bluetooth,
            Permission::Usb => PermissionView::Usb,
            Permission::Accessibility => PermissionView::Accessibility,
            Permission::DeviceAdmin => PermissionView::DeviceAdmin,
            Permission::SystemAlert => PermissionView::SystemAlert,
            Permission::InstallApps => PermissionView::InstallApps,
            Permission::Custom(s) => PermissionView::Custom(s@),
        }
    }
}

/// Do two permissions name the same thing?
pub fn same_permission(a: &Permission, b: &Permission) -> (r: bool)
    ensures
        r == (a@ == b@),
{
    match a {
        Permission::Camera => matches!(b, Permission::Camera),
        Permission::Microphone => matches!(b, Permission::Microphone),
        Permission::Location => matches!(b, Permission::Location),
        Permission::Contacts => matches!(b, Permission::Contacts),
        Permission::Calendar => matches!(b, Permission::Calendar),
        Permission::Storage => matches!(b, Permission::Storage),
        Permission::Phone => matches!(b, Permission::Phone),
        Permission::Sms => matches!(b, Permission::Sms),
        Permission::Notifications => matches!(b, Permission::Notifications),
        Permission::BackgroundActivity => matches!(b, Permission::BackgroundActivity),
        Permission::NetworkAccess => matches!(b, Permission::NetworkAccess),
        Permission::Bluetooth => matches!(b, Permission::Bluetooth),
        Permission::Usb => matches!(b, Permission::Usb),
        Permission::Accessibility => matches!(b, Permission::Accessibility),
        Permission::DeviceAdmin => matches!(b, Permission::DeviceAdmin),
        Permission::SystemAlert => matches!(b, Permission::SystemAlert),
        Permission::InstallApps => matches!(b, Permission::InstallApps),
        Permission::Custom(s) => match b {
            Permission::Custom(t) => str_eq(s.as_str(), t.as_str()),
            _ => false,
        },
    }
}

/// A copy of a permission.
pub fn copy_permission(p: &Permission) -> (r: Permission)
    ensures
        r@ == p@,
{
    match p {
        Permission::Camera => Permission::Camera,
        Permission::Microphone => Permission::Microphone,
        Permission::Location => Permission::Location,
        Permission::Contacts => Permission::Contacts,
        Permission::Calendar => Permission::Calendar,
        Permission::Storage => Permission::Storage,
        Permission::Phone => Permission::Phone,
        Permission::Sms => Permission::Sms,
        Permission::Notifications => Permission::Notifications,
        Permission::BackgroundActivity => Permission::BackgroundActivity,
        Permission::NetworkAccess => Permission::NetworkAccess,
        Permission::Bluetooth => Permission::Bluetooth,
        Permission::Usb => Permission::Usb,
        Permission::Accessibility => Permission::Accessibility,
        Permission::DeviceAdmin => Permission::DeviceAdmin,
        Permission::SystemAlert => Permission::SystemAlert,
        Permission::InstallApps => Permission::InstallApps,
        Permission::Custom(s) => Permission::Custom(copy_string(s)),
    }
}

/// Is the permission in the list?
pub fn permission_listed(list: &[Permission], p: &Permission) -> (r: bool)
    ensures
        r == perm_views(list@).contains(p@),
{
    let mut i: usize = 0;
    while i < list.len()
        invariant
            i <= list@.len(),
            forall|j: int| 0 <= j < i ==> (#[trigger] list@[j])@ != p@,
        decreases list@.len() - i,
    {
        if same_permission(&list[i], p) {
            assert(perm_views(list@)[i as int] == p@);
            return true;
        }
        i = i + 1;
    }
    assert forall|j: int| 0 <= j < perm_views(list@).len() implies perm_views(list@)[j] != p@ by {
        assert(perm_views(list@)[j] == list@[j]@);
    }
    false
}

/// The views of a list of permissions.
pub open spec fn perm_views(s: Seq<Permission>) -> Seq<PermissionView> {
    s.map_values(|p: Permission| p@)
}

/// Record of a permission being used.
#[derive(Debug, Clone)]
pub struct PermissionAccess {
    pub permission: Permission,
    pub app_id: String,
    pub accessed_at: Timestamp,
    /// Was the user actively using the app when it accessed this permission?
    pub foreground: bool,
}

/// A permission access as plain data.
pub struct AccessView {
    pub permission: PermissionView,
    pub app_id: Seq<char>,
    pub accessed_at: Timestamp,
    pub foreground: bool,
}

impl View for PermissionAccess {
    type V = AccessView;

    open spec fn view(&self) -> AccessView {
        AccessView {
            permission: self.permission@,
            app_id: self.app_id@,
            accessed_at: self.accessed_at,
            foreground: self.foreground,
        }
    }
}

fn copy_access(a: &PermissionAccess) -> (r: PermissionAccess)
    ensures
        r@ == a@,
{
    PermissionAccess {
        permission: copy_permission(&a.permission),
        app_id: copy_string(&a.app_id),
        accessed_at: a.accessed_at,
        foreground: a.foreground,
    }
}

/// Audit result for an application.
#[derive(Debug, Clone)]
pub struct PermissionAudit {
    pub app_id: String,
    pub granted_permissions: Vec<Permission>,
    pub used_permissions: Vec<Permission>,
    /// Permissions granted but never used (candidates for revocation).
    pub unused_permissions: Vec<Permission>,
    /// Permissions used in background (suspicious).
    pub background_accesses: Vec<PermissionAccess>,
    /// Risk in percent (0 to 100) based on the permission profile.
    pub risk_percent: u64,
}

/// The risk weight of a granted permission, in percent.
pub open spec fn permission_weight(p: PermissionView) -> nat {
    match p {
        PermissionView::Camera => 15,
        PermissionView::Microphone => 15,
        PermissionView::Location => 12,
        PermissionView::Contacts => 10,
        PermissionView::DeviceAdmin => 20,
        PermissionView::Accessibility => 18,
        PermissionView::InstallApps => 15,
        PermissionView::Storage => 8,
        PermissionView::BackgroundActivity => 5,
        _ => 2,
    }
}

/// The summed weights of a list of grants.
pub open spec fn weight_sum(s: Seq<PermissionView>) -> nat
    decreases s.len(),
{
    if s.len() == 0 {
        0
    } else {
        weight_sum(s.drop_last()) + permission_weight(s.last())
    }
}

/// The risk of a profile: the weights of the grants plus 5 per background
/// access, capped at 100.
pub open spec fn risk_of(granted: Seq<PermissionView>, background: nat) -> nat {
    let total = weight_sum(granted) + 5 * background;
    if total > 100 {
        100
    } else {
        total
    }
}

fn weight_of(p: &Permission) -> (w: u64)
    ensures
        w == permission_weight(p@),
{
    match p {
        Permission::Camera => 15,
        Permission::Microphone => 15,
        Permission::Location => 12,
        Permission::Contacts => 10,
        Permission::DeviceAdmin => 20,
        Permission::Accessibility => 18,
        Permission::InstallApps => 15,
        Permission::Storage => 8,
        Permission::BackgroundActivity => 5,
        _ => 2,
    }
}

/// Calculate the risk (percent, 0 to 100) of a permission profile.
pub fn calculate_risk(granted: &[Permission], background_accesses: &[PermissionAccess]) -> (r: u64)
    ensures
        r == risk_of(perm_views(granted@), background_accesses@.len()),
{
    let ghost g = perm_views(granted@);
    let mut score: u64 = 0;
    let mut i: usize = 0;
    while i < granted.len()
        invariant
            i <= granted@.len(),
            g == perm_views(granted@),
            score == if weight_sum(g.take(i as int)) > 100 { 100 } else { weight_sum(g.take(i as int)) },
        decreases granted@.len() - i,
    {
        assert(g.take(i + 1).drop_last() =~= g.take(i as int));
        assert(g.take(i + 1).last() == granted@[i as int]@);
        let w = weight_of(&granted[i]);
        score = if score + w > 100 { 100 } else { score + w };
        i = i + 1;
    }
    assert(g.take(granted@.len() as int) =~= g);
    let bg = background_accesses.len();
    let extra: u64 = if bg >= 20 { 100 } else { 5 * (bg as u64) };
    if score + extra > 100 {
        100
    } else {
        score + extra
    }
}

/// The distinct elements of `s`, in order of first occurrence.
pub open spec fn distinct_first<T>(s: Seq<T>) -> Seq<T>
    decreases s.len(),
{
    if s.len() == 0 {
        Seq::empty()
    } else {
        let d = distinct_first(s.drop_last());
        if d.contains(s.last()) {
            d
        } else {
            d.push(s.last())
        }
    }
}

/// The permissions granted to one application.
pub struct Grant {
    pub app_id: String,
    pub permissions: Vec<Permission>,
}

impl Keyed for Grant {
    open spec fn key(&self) -> Seq<char> {
        self.app_id@
    }

    fn key_str(&self) -> (k: &str) {
        self.app_id.as_str()
    }
}

/// The key of a grant: its application.
pub open spec fn grant_key() -> spec_fn(Grant) -> Seq<char> {
    |g: Grant| g.app_id@
}

/// An access by `app`.
pub open spec fn access_by(app: Seq<char>) -> spec_fn(PermissionAccess) -> bool {
    |a: PermissionAccess| a.app_id@ == app
}

/// An access by `app` while it was in the background.
pub open spec fn background_access_by(app: Seq<char>) -> spec_fn(PermissionAccess) -> bool {
    |a: PermissionAccess| a.app_id@ == app && !a.foreground
}

/// The permission an access exercised.
pub open spec fn accessed_permission() -> spec_fn(PermissionAccess) -> PermissionView {
    |a: PermissionAccess| a.permission@
}

/// The plain content of an access.
pub open spec fn access_view() -> spec_fn(PermissionAccess) -> AccessView {
    |a: PermissionAccess| a@
}

/// A permission outside `used`.
pub open spec fn not_in(used: Seq<PermissionView>) -> spec_fn(PermissionView) -> bool {
    |p: PermissionView| !used.contains(p)
}

/// The permissions an application uses: those of its accesses, each once,
/// in order of first use.
pub open spec fn used_of(accesses: Seq<PermissionAccess>, app: Seq<char>) -> Seq<PermissionView> {
    distinct_first(accesses.filter(access_by(app)).map_values(accessed_permission()))
}

/// The background accesses of an application, in order.
pub open spec fn background_of(accesses: Seq<PermissionAccess>, app: Seq<char>) -> Seq<AccessView> {
    accesses.filter(background_access_by(app)).map_values(access_view())
}

/// The grants that no access exercised, in order.
pub open spec fn unused_of(granted: Seq<PermissionView>, used: Seq<PermissionView>) -> Seq<PermissionView> {
    granted.filter(not_in(used))
}

fn copy_permissions(v: &Vec<Permission>) -> (r: Vec<Permission>)
    ensures
        perm_views(r@) == perm_views(v@),
{
    let mut r: Vec<Permission> = Vec::new();
    let mut i: usize = 0;
    while i < v.len()
        invariant
            i <= v@.len(),
            r@.len() == i,
            perm_views(r@) == perm_views(v@.take(i as int)),
        decreases v@.len() - i,
    {
        let x = copy_permission(&v[i]);
        let ghost rb = r@;
        r.push(x);
        proof {
            assert(perm_views(r@).len() == perm_views(v@.take(i + 1)).len());
            assert forall|j: int| 0 <= j < i + 1 implies perm_views(r@)[j] == perm_views(v@.take(i + 1))[j] by {
                if j < i {
                    assert(r@[j] == rb[j]);
                    assert(perm_views(rb)[j] == perm_views(v@.take(i as int))[j]);
                }
            }
            assert(perm_views(r@) =~= perm_views(v@.take(i + 1)));
        }
        i = i + 1;
    }
    assert(v@.take(v@.len() as int) =~= v@);
    r
}

/// Permission auditor.
pub struct PermissionAuditor {
    accesses: Vec<PermissionAccess>,
    granted: Vec<Grant>,
}

impl PermissionAuditor {
    /// One grant list per application.
    pub closed spec fn wf(&self) -> bool {
        distinct_by(self.granted@, grant_key())
    }

    /// The registered grants, by application.
    pub closed spec fn grants(&self) -> Map<Seq<char>, Seq<PermissionView>> {
        seq_to_map(self.granted@, grant_key()).map_values(|g: Grant| perm_views(g.permissions@))
    }

    /// The recorded accesses, oldest first.
    pub closed spec fn accesses(&self) -> Seq<PermissionAccess> {
        self.accesses@
    }

    /// The grants of an application (none when it is not registered).
    pub open spec fn granted_to(&self, app: Seq<char>) -> Seq<PermissionView> {
        if self.grants().contains_key(app) {
            self.grants()[app]
        } else {
            Seq::empty()
        }
    }

    pub fn new() -> (r: Self)
        ensures
            r.wf(),
            r.grants() == Map::<Seq<char>, Seq<PermissionView>>::empty(),
            r.accesses() == Seq::<PermissionAccess>::empty(),
    {
        let r = Self { accesses: Vec::new(), granted: Vec::new() };
        assert(r.grants() =~= Map::<Seq<char>, Seq<PermissionView>>::empty());
        r
    }

    /// Register an app's granted permissions, replacing earlier ones.
    pub fn register_app(&mut self, app_id: &str, permissions: Vec<Permission>)
        requires
            old(self).wf(),
        ensures
            final(self).wf(),
            final(self).grants() == old(self).grants().insert(app_id@, perm_views(permissions@)),
            final(self).accesses() == old(self).accesses(),
    {
        let ghost before = self.granted@;
        let g = Grant { app_id: String::from_str(app_id), permissions };
        let ghost gv = g;
        match position_of(&self.granted, app_id) {
            Some(i) => {
                proof {
                    lemma_seq_to_map_update(before, grant_key(), i as int, gv);
                }
                self.granted.set(i, g);
            },
            None => {
                proof {
                    lemma_seq_to_map_push(before, grant_key(), gv);
                }
                self.granted.push(g);
                proof {
                    assert forall|a: int, b: int|
                        0 <= a < self.granted@.len() && 0 <= b < self.granted@.len() && a != b
                        implies grant_key()(self.granted@[a]) != grant_key()(self.granted@[b]) by {
                        if a < before.len() && b < before.len() {
                            assert(self.granted@[a] == before[a] && self.granted@[b] == before[b]);
                        } else if a < before.len() {
                            assert(self.granted@[a] == before[a]);
                        } else {
                            assert(self.granted@[b] == before[b]);
                        }
                    }
                }
            },
        }
        assert(self.grants() =~= old(self).grants().insert(app_id@, perm_views(permissions@)));
    }

    /// Record a permission access event.
    pub fn record_access(&mut self, access: PermissionAccess)
        requires
            old(self).wf(),
        ensures
            final(self).wf(),
            final(self).grants() == old(self).grants(),
            final(self).accesses() == old(self).accesses().push(access),
    {
        self.accesses.push(access);
    }
}

impl PermissionAuditor {
    fn granted_list(&self, app_id: &str) -> (r: Vec<Permission>)
        requires
            self.wf(),
        ensures
            perm_views(r@) == self.granted_to(app_id@),
    {
        proof {
            lemma_seq_to_map_dom(self.granted@, grant_key());
        }
        match position_of(&self.granted, app_id) {
            Some(i) => {
                proof {
                    lemma_seq_to_map_get(self.granted@, grant_key(), i as int);
                }
                copy_permissions(&self.granted[i].permissions)
            },
            None => {
                let r: Vec<Permission> = Vec::new();
                assert(perm_views(r@) =~= Seq::<PermissionView>::empty());
                r
            },
        }
    }

    fn used_list(&self, app_id: &str) -> (r: Vec<Permission>)
        ensures
            perm_views(r@) == used_of(self.accesses(), app_id@),
    {
        let ghost acc = self.accesses@;
        let ghost pred = access_by(app_id@);
        let ghost f = accessed_permission();
        let mut used: Vec<Permission> = Vec::new();
        let mut i: usize = 0;
        proof {
            lemma_filter_take_zero(acc, pred);
            assert(acc.take(0).filter(pred).map_values(f) =~= Seq::<PermissionView>::empty());
            assert(perm_views(used@) =~= Seq::<PermissionView>::empty());
        }
        while i < self.accesses.len()
            invariant
                i <= acc.len(),
                acc == self.accesses@,
                pred == access_by(app_id@),
                f == accessed_permission(),
                perm_views(used@) == distinct_first(acc.take(i as int).filter(pred).map_values(f)),
            decreases acc.len() - i,
        {
            let ghost s = acc.take(i as int).filter(pred).map_values(f);
            proof {
                assert(acc.take(i + 1) =~= acc.take(i as int).push(acc[i as int]));
                lemma_filter_map_push(acc.take(i as int), acc[i as int], pred, f);
            }
            let a = &self.accesses[i];
            if str_eq(a.app_id.as_str(), app_id) {
                assert(s.push(a.permission@).drop_last() =~= s);
                if !permission_listed(used.as_slice(), &a.permission) {
                    used.push(copy_permission(&a.permission));
                    assert(perm_views(used@) =~= distinct_first(s).push(a.permission@));
                }
            }
            i = i + 1;
        }
        assert(acc.take(acc.len() as int) =~= acc);
        used
    }

    fn background_list(&self, app_id: &str) -> (r: Vec<PermissionAccess>)
        ensures
            r@.map_values(|a: PermissionAccess| a@) == background_of(self.accesses(), app_id@),
    {
        let ghost acc = self.accesses@;
        let ghost pred = background_access_by(app_id@);
        let ghost f = access_view();
        let mut out: Vec<PermissionAccess> = Vec::new();
        let mut i: usize = 0;
        proof {
            lemma_filter_take_zero(acc, pred);
            assert(acc.take(0).filter(pred).map_values(f) =~= Seq::<AccessView>::empty());
            assert(out@.map_values(|a: PermissionAccess| a@) =~= Seq::<AccessView>::empty());
        }
        while i < self.accesses.len()
            invariant
                i <= acc.len(),
                acc == self.accesses@,
                pred == background_access_by(app_id@),
                f == access_view(),
                out@.map_values(|a: PermissionAccess| a@) == acc.take(i as int).filter(pred).map_values(f),
            decreases acc.len() - i,
        {
            proof {
                assert(acc.take(i + 1) =~= acc.take(i as int).push(acc[i as int]));
                lemma_filter_map_push(acc.take(i as int), acc[i as int], pred, f);
            }
            let a = &self.accesses[i];
            if str_eq(a.app_id.as_str(), app_id) && !a.foreground {
                out.push(copy_access(a));
            }
            assert(out@.map_values(|a: PermissionAccess| a@) =~= acc.take(i + 1).filter(pred).map_values(f));
            i = i + 1;
        }
        assert(acc.take(acc.len() as int) =~= acc);
        out
    }

    /// Audit a specific app.
    pub fn audit_app(&self, app_id: &str) -> (r: PermissionAudit)
        requires
            self.wf(),
        ensures
            r.app_id@ == app_id@,
            perm_views(r.granted_permissions@) == self.granted_to(app_id@),
            perm_views(r.used_permissions@) == used_of(self.accesses(), app_id@),
            perm_views(r.unused_permissions@) == unused_of(
                self.granted_to(app_id@),
                used_of(self.accesses(), app_id@),
            ),
            r.background_accesses@.map_values(|a: PermissionAccess| a@) == background_of(self.accesses(), app_id@),
            r.risk_percent == risk_of(self.granted_to(app_id@), background_of(self.accesses(), app_id@).len()),
    {
        let granted = self.granted_list(app_id);
        let used = self.used_list(app_id);
        let ghost g = perm_views(granted@);
        let ghost u = perm_views(used@);
        let ghost pred = not_in(u);
        let mut unused: Vec<Permission> = Vec::new();
        let mut i: usize = 0;
        proof {
            lemma_filter_take_zero(g, pred);
            assert(perm_views(unused@) =~= Seq::<PermissionView>::empty());
        }
        while i < granted.len()
            invariant
                i <= granted@.len(),
                g == perm_views(granted@),
                u == perm_views(used@),
                pred == not_in(u),
                perm_views(unused@) == g.take(i as int).filter(pred),
            decreases granted@.len() - i,
        {
            proof {
                assert(g.take(i + 1) =~= g.take(i as int).push(g[i as int]));
                g.take(i as int).lemma_filter_push(g[i as int], pred);
            }
            if !permission_listed(used.as_slice(), &granted[i]) {
                unused.push(copy_permission(&granted[i]));
            }
            assert(perm_views(unused@) =~= g.take(i + 1).filter(pred));
            i = i + 1;
        }
        assert(g.take(g.len() as int) =~= g);
        let background = self.background_list(app_id);
        let risk_percent = calculate_risk(granted.as_slice(), background.as_slice());
        PermissionAudit {
            app_id: String::from_str(app_id),
            granted_permissions: granted,
            used_permissions: used,
            unused_permissions: unused,
            background_accesses: background,
            risk_percent,
        }
    }
}

impl Default for PermissionAuditor {
    fn default() -> (r: Self)
        ensures
            r.wf(),
            r.grants() == Map::<Seq<char>, Seq<PermissionView>>::empty(),
            r.accesses() == Seq::<PermissionAccess>::empty(),
    {
        Self::new()
    }
}

} // verus!

verus! {

/// Keeping the first occurrence of each item keeps exactly the items.
proof fn lemma_distinct_first_contains<T>(s: Seq<T>, x: T)
    ensures
        distinct_first(s).contains(x) <==> s.contains(x),
    decreases s.len(),
{
    if s.len() > 0 {
        let q = s.drop_last();
        lemma_distinct_first_contains(q, x);
        lemma_distinct_first_contains(q, s.last());
        if s.contains(x) && x != s.last() {
            let i = choose|i: int| 0 <= i < s.len() && s[i] == x;
            assert(q[i] == x);
        }
        if q.contains(x) {
            let i = choose|i: int| 0 <= i < q.len() && q[i] == x;
            assert(s[i] == x);
        }
        if x == s.last() {
            assert(s[s.len() - 1] == x);
        }
        let d = distinct_first(q);
        if !d.contains(s.last()) {
            assert(d.push(s.last())[d.len() as int] == s.last());
            if d.contains(x) {
                let i = choose|i: int| 0 <= i < d.len() && d[i] == x;
                assert(d.push(s.last())[i] == x);
            }
            if d.push(s.last()).contains(x) && x != s.last() {
                let i = choose|i: int| 0 <= i < d.len() + 1 && d.push(s.last())[i] == x;
                assert(d[i] == x);
            }
        }
    }
}

/// The permissions of an application's accesses are those exercised by a
/// recorded access of that application.
proof fn lemma_accessed_by(accesses: Seq<PermissionAccess>, app: Seq<char>, p: PermissionView)
    ensures
        accesses.filter(access_by(app)).map_values(accessed_permission()).contains(p) <==> exists|i: int|
            0 <= i < accesses.len() && (#[trigger] accesses[i]).app_id@ == app && accesses[i].permission@ == p,
    decreases accesses.len(),
{
    let f = accessed_permission();
    let pred = access_by(app);
    if accesses.len() == 0 {
        assert(accesses.filter(pred) =~= Seq::<PermissionAccess>::empty()) by {
            reveal(Seq::filter);
        }
    } else {
        let q = accesses.drop_last();
        let a = accesses.last();
        lemma_accessed_by(q, app, p);
        assert(q.push(a) =~= accesses);
        lemma_filter_map_push(q, a, pred, f);
        let m = q.filter(pred).map_values(f);
        if exists|i: int| 0 <= i < accesses.len() && (#[trigger] accesses[i]).app_id@ == app && accesses[i].permission@ == p {
            let i = choose|i: int| 0 <= i < accesses.len() && (#[trigger] accesses[i]).app_id@ == app && accesses[i].permission@ == p;
            if i < q.len() {
                assert(q[i] == accesses[i]);
                let k = choose|k: int| 0 <= k < m.len() && m[k] == p;
                assert(m.push(f(a))[k] == p);
            } else {
                assert(a == accesses[i]);
                assert(m.push(f(a))[m.len() as int] == p);
            }
        }
        if accesses.filter(pred).map_values(f).contains(p) {
            if pred(a) {
                let mp = m.push(f(a));
                let k = choose|k: int| 0 <= k < mp.len() && #[trigger] mp[k] == p;
                if k < m.len() {
                    assert(m[k] == p);
                    let i = choose|i: int| 0 <= i < q.len() && (#[trigger] q[i]).app_id@ == app && q[i].permission@ == p;
                    assert(accesses[i] == q[i]);
                } else {
                    assert(accesses[accesses.len() - 1] == a);
                }
            } else {
                let i = choose|i: int| 0 <= i < q.len() && (#[trigger] q[i]).app_id@ == app && q[i].permission@ == p;
                assert(accesses[i] == q[i]);
            }
        }
    }
}

/// A permission is among an application's used permissions exactly when
/// some recorded access of that same application exercised it.
pub proof fn lemma_used_by_own_accesses(accesses: Seq<PermissionAccess>, app: Seq<char>, p: PermissionView)
    ensures
        used_of(accesses, app).contains(p) <==> exists|i: int|
            0 <= i < accesses.len() && (#[trigger] accesses[i]).app_id@ == app && accesses[i].permission@ == p,
{
    lemma_distinct_first_contains(accesses.filter(access_by(app)).map_values(accessed_permission()), p);
    lemma_accessed_by(accesses, app, p);
}

/// Recording an access of another application changes nothing of this
/// application's audit: its used and unused permissions, its background
/// accesses and its risk stay as they were.
pub proof fn lemma_other_access_irrelevant(accesses: Seq<PermissionAccess>, a: PermissionAccess, app: Seq<char>)
    requires
        a.app_id@ != app,
    ensures
        used_of(accesses.push(a), app) == used_of(accesses, app),
        background_of(accesses.push(a), app) == background_of(accesses, app),
{
    accesses.lemma_filter_push(a, access_by(app));
    accesses.lemma_filter_push(a, background_access_by(app));
}

} // verus!
