//! Application inventory — catalog all installed applications.
//!
//! Desktop entries are read by the caller; this module parses them and
//! keeps the catalog.

use vstd::prelude::*;
use crate::autostart::{SourceFile, has_extension};
use crate::clock::Timestamp;
use crate::keyed::{first_index, lemma_first_index, lemma_first_index_spec, lemma_filter_take_zero, put_first, lemma_put_first_found};
use crate::paths::extension_of;
use crate::text::{
    seq_starts_with, seq_contains_str, starts_with, contains, str_eq, split_lines, text_lines, first_word,
    first_word_str, split_on, nonempty, split_nonempty, texts, lowercase_of, to_lowercase,
};

verus! {

/// Source of an installed application.
#[derive(Debug, Clone, Copy, PartialEq, Eq, Hash, Structural)]
pub enum InstallSource {
    Dpkg,
    Flatpak,
    Snap,
    AppImage,
    Manual,
    Pip,
    Npm,
    Cargo,
    Unknown,
}

/// An installed application.
#[derive(Debug, Clone)]
pub struct InstalledApp {
    pub name: String,
    pub version: String,
    pub source: InstallSource,
    pub desktop_file: Option<String>,
    pub exec_path: Option<String>,
    pub install_size_bytes: u64,
    pub last_used: Option<Timestamp>,
    pub categories: Vec<String>,
    pub autostart: bool,
}

/// An installed application as plain data.
pub struct InstalledAppView {
    pub name: Seq<char>,
    pub version: Seq<char>,
    pub source: InstallSource,
    pub desktop_file: Option<Seq<char>>,
    pub exec_path: Option<Seq<char>>,
    pub install_size_bytes: u64,
    pub last_used: Option<Timestamp>,
    pub categories: Seq<Seq<char>>,
    pub autostart: bool,
}

/// The characters of an optional text.
pub open spec fn opt_chars(s: Option<String>) -> Option<Seq<char>> {
    match s {
        Some(t) => Some(t@),
        None => None,
    }
}

impl View for InstalledApp {
    type V = InstalledAppView;

    open spec fn view(&self) -> InstalledAppView {
        InstalledAppView {
            name: self.name@,
            version: self.version@,
            source: self.source,
            desktop_file: opt_chars(self.desktop_file),
            exec_path: opt_chars(self.exec_path),
            install_size_bytes: self.install_size_bytes,
            last_used: self.last_used,
            categories: texts(self.categories@),
            autostart: self.autostart,
        }
    }
}

/// The views of a list of application references.
pub open spec fn app_views(s: Seq<&InstalledApp>) -> Seq<InstalledAppView> {
    s.map_values(|a: &InstalledApp| a@)
}

/// The name, command and categories that the lines of a desktop entry
/// give: the first non-empty `Name=`, the first word of the last `Exec=`,
/// and the non-empty `;`-separated parts of the last `Categories=`.
pub open spec fn desktop_fields(lines: Seq<Seq<char>>) -> (Seq<char>, Seq<char>, Seq<Seq<char>>)
    decreases lines.len(),
{
    if lines.len() == 0 {
        (Seq::empty(), Seq::empty(), Seq::empty())
    } else {
        let (n, x, c) = desktop_fields(lines.drop_last());
        let l = lines.last();
        if seq_starts_with(l, "Name="@) {
            (if n.len() == 0 { l.skip("Name="@.len() as int) } else { n }, x, c)
        } else if seq_starts_with(l, "Exec="@) {
            (n, first_word(l.skip("Exec="@.len() as int)), c)
        } else if seq_starts_with(l, "Categories="@) {
            (n, x, split_on(l.skip("Categories="@.len() as int), ';').filter(nonempty()))
        } else {
            (n, x, c)
        }
    }
}

/// The application that a desktop entry at `path` describes: none when it
/// names no application.
pub open spec fn desktop_app(path: Seq<char>, contents: Seq<char>) -> Option<InstalledAppView> {
    let (name, exec, categories) = desktop_fields(text_lines(contents));
    if name.len() == 0 {
        None
    } else {
        Some(
            InstalledAppView {
                name,
                version: Seq::empty(),
                source: InstallSource::Dpkg,
                desktop_file: Some(path),
                exec_path: if exec.len() == 0 { None } else { Some(exec) },
                install_size_bytes: 0,
                last_used: None,
                categories,
                autostart: false,
            },
        )
    }
}

fn strip_known_prefix<'a>(l: &'a str, p: &str) -> (r: &'a str)
    requires
        seq_starts_with(l@, p@),
    ensures
        r@ == l@.skip(p@.len() as int),
{
    let n = l.unicode_len();
    let k = p.unicode_len();
    let r = l.substring_char(k, n);
    assert(r@ =~= l@.skip(p@.len() as int));
    r
}

/// Parse the contents of a desktop entry found at `path`.
pub fn parse_desktop_entry(path: &str, contents: &str) -> (r: Option<InstalledApp>)
    ensures
        match r {
            Some(a) => desktop_app(path@, contents@) == Some(a@),
            None => desktop_app(path@, contents@) is None,
        },
{
    let lines = split_lines(contents);
    let ghost ls = text_lines(contents@);
    let mut name = String::new();
    let mut exec = String::new();
    let mut categories: Vec<String> = Vec::new();
    let mut k: usize = 0;
    proof {
        assert(ls.take(0) =~= Seq::<Seq<char>>::empty());
        assert(texts(categories@) =~= Seq::<Seq<char>>::empty());
    }
    while k < lines.len()
        invariant
            k <= lines@.len(),
            lines@.map_values(|x: String| x@) == ls,
            (name@, exec@, texts(categories@)) == desktop_fields(ls.take(k as int)),
        decreases lines@.len() - k,
    {
        let line = lines[k].as_str();
        proof {
            assert(ls.take(k + 1).drop_last() =~= ls.take(k as int));
            assert(ls.take(k + 1).last() == line@);
        }
        if starts_with(line, "Name=") {
            if name.unicode_len() == 0 {
                name = String::from_str(strip_known_prefix(line, "Name="));
            }
        } else if starts_with(line, "Exec=") {
            exec = String::from_str(first_word_str(strip_known_prefix(line, "Exec=")));
        } else if starts_with(line, "Categories=") {
            categories = split_nonempty(strip_known_prefix(line, "Categories="), ';');
        }
        k = k + 1;
    }
    assert(ls.take(lines@.len() as int) =~= ls);
    if name.unicode_len() == 0 {
        return None;
    }
    let exec_path = if exec.unicode_len() == 0 {
        None
    } else {
        Some(exec)
    };
    Some(
        InstalledApp {
            name,
            version: String::new(),
            source: InstallSource::Dpkg,
            desktop_file: Some(String::from_str(path)),
            exec_path,
            install_size_bytes: 0,
            last_used: None,
            categories,
            autostart: false,
        },
    )
}

/// An application with the given name.
pub open spec fn named(name: Seq<char>) -> spec_fn(InstalledAppView) -> bool {
    |a: InstalledAppView| a.name == name
}

/// `s` with `a` in place of the application of the same name, or with `a`
/// added when its name is new.
pub open spec fn registered(s: Seq<InstalledAppView>, a: InstalledAppView) -> Seq<InstalledAppView> {
    let k = first_index(s, named(a.name));
    if k < 0 {
        s.push(a)
    } else {
        s.update(k, a)
    }
}

/// The catalog after scanning the desktop entries among `files`.
pub open spec fn scanned(s: Seq<InstalledAppView>, files: Seq<SourceFile>) -> Seq<InstalledAppView>
    decreases files.len(),
{
    if files.len() == 0 {
        s
    } else {
        let before = scanned(s, files.drop_last());
        let f = files.last();
        if extension_of(f.path@) == Some("desktop"@) {
            match desktop_app(f.path@, f.contents@) {
                Some(a) => registered(before, a),
                None => before,
            }
        } else {
            before
        }
    }
}

/// No two applications share a name.
pub open spec fn names_distinct(s: Seq<InstalledAppView>) -> bool {
    forall|i: int, j: int| 0 <= i < s.len() && 0 <= j < s.len() && i != j ==> s[i].name != s[j].name
}

/// Registering keeps names distinct.
pub proof fn lemma_registered_distinct(s: Seq<InstalledAppView>, a: InstalledAppView)
    requires
        names_distinct(s),
    ensures
        names_distinct(registered(s, a)),
{
    lemma_first_index_spec(s, named(a.name));
    let k = first_index(s, named(a.name));
    let u = registered(s, a);
    assert forall|i: int, j: int| 0 <= i < u.len() && 0 <= j < u.len() && i != j implies u[i].name
        != u[j].name by {
        if k < 0 {
            if i == s.len() {
                assert(!named(a.name)(s[j]));
            } else if j == s.len() {
                assert(!named(a.name)(s[i]));
            }
        } else {
            if i == k {
                assert(named(a.name)(s[k]));
            } else if j == k {
                assert(named(a.name)(s[k]));
            }
        }
    }
}

/// After an application is registered, looking its name up finds it.
pub proof fn lemma_register_then_get(s: Seq<InstalledAppView>, a: InstalledAppView)
    ensures
        first_index(registered(s, a), named(a.name)) >= 0,
        registered(s, a)[first_index(registered(s, a), named(a.name))] == a,
{
    assert(registered(s, a) == put_first(s, named(a.name), a));
    lemma_put_first_found(s, named(a.name), a);
}

/// An application installed from `source`.
pub open spec fn from_source(source: InstallSource) -> spec_fn(InstalledAppView) -> bool {
    |a: InstalledAppView| a.source == source
}

/// An application with a category whose lower-case form contains that of
/// `category`.
pub open spec fn in_category(category: Seq<char>) -> spec_fn(InstalledAppView) -> bool {
    |a: InstalledAppView|
        exists|i: int|
            0 <= i < a.categories.len() && seq_contains_str(
                lowercase_of(#[trigger] a.categories[i]),
                lowercase_of(category),
            )
}

/// An application that starts at login.
pub open spec fn starts_at_login() -> spec_fn(InstalledAppView) -> bool {
    |a: InstalledAppView| a.autostart
}

/// An application whose lower-case name contains that of `query`.
pub open spec fn name_matches(query: Seq<char>) -> spec_fn(InstalledAppView) -> bool {
    |a: InstalledAppView| seq_contains_str(lowercase_of(a.name), lowercase_of(query))
}

/// The install sizes of `s`, summed.
pub open spec fn size_sum(s: Seq<InstalledAppView>) -> int
    decreases s.len(),
{
    if s.len() == 0 {
        0
    } else {
        size_sum(s.drop_last()) + s.last().install_size_bytes
    }
}

proof fn lemma_size_sum_take(s: Seq<InstalledAppView>, n: int)
    requires
        0 <= n <= s.len(),
    ensures
        0 <= size_sum(s.take(n)) <= size_sum(s),
    decreases s.len(),
{
    if n < s.len() {
        assert(s.take(n) =~= s.drop_last().take(n));
        lemma_size_sum_take(s.drop_last(), n);
    } else {
        assert(s.take(n) =~= s);
        if s.len() > 0 {
            lemma_size_sum_take(s.drop_last(), s.len() - 1);
            assert(s.drop_last().take(s.len() - 1) =~= s.drop_last());
        }
    }
}

enum Query {
    Source(InstallSource),
    Category(String),
    Autostart,
    Name(String),
}

spec fn query_pred(q: Query) -> spec_fn(InstalledAppView) -> bool {
    match q {
        Query::Source(s) => from_source(s),
        Query::Category(c) => |a: InstalledAppView|
            exists|i: int|
                0 <= i < a.categories.len() && seq_contains_str(lowercase_of(#[trigger] a.categories[i]), c@),
        Query::Autostart => starts_at_login(),
        Query::Name(n) => |a: InstalledAppView| seq_contains_str(lowercase_of(a.name), n@),
    }
}

fn any_category_contains(categories: &Vec<String>, lowered: &str) -> (r: bool)
    ensures
        r == exists|i: int|
            0 <= i < categories@.len() && seq_contains_str(
                lowercase_of(#[trigger] texts(categories@)[i]),
                lowered@,
            ),
{
    let mut i: usize = 0;
    while i < categories.len()
        invariant
            i <= categories@.len(),
            forall|j: int|
                0 <= j < i ==> !seq_contains_str(lowercase_of(#[trigger] texts(categories@)[j]), lowered@),
        decreases categories@.len() - i,
    {
        let c = to_lowercase(categories[i].as_str());
        if contains(c.as_str(), lowered) {
            assert(texts(categories@)[i as int] == categories@[i as int]@);
            return true;
        }
        assert(texts(categories@)[i as int] == categories@[i as int]@);
        i = i + 1;
    }
    false
}

fn query_matches(a: &InstalledApp, q: &Query) -> (r: bool)
    ensures
        r == query_pred(*q)(a@),
{
    match q {
        Query::Source(s) => {
            let r = a.source == *s;
            assert(query_pred(*q)(a@) == (a@.source == *s));
            r
        },
        Query::Category(c) => {
            let r = any_category_contains(&a.categories, c.as_str());
            assert(a@.categories == texts(a.categories@));
            r
        },
        Query::Autostart => a.autostart,
        Query::Name(n) => {
            let l = to_lowercase(a.name.as_str());
            contains(l.as_str(), n.as_str())
        },
    }
}

/// Application inventory.
pub struct AppInventory {
    apps: Vec<InstalledApp>,
}

impl AppInventory {
    /// The catalogued applications, in the order first registered.
    pub closed spec fn apps(&self) -> Seq<InstalledAppView> {
        self.apps@.map_values(|a: InstalledApp| a@)
    }

    /// One application per name.
    pub open spec fn wf(&self) -> bool {
        names_distinct(self.apps())
    }

    pub fn new() -> (r: Self)
        ensures
            r.wf(),
            r.apps() == Seq::<InstalledAppView>::empty(),
    {
        let r = Self { apps: Vec::new() };
        assert(r.apps() =~= Seq::<InstalledAppView>::empty());
        r
    }

    fn index_of(&self, name: &str) -> (r: Option<usize>)
        ensures
            first_index(self.apps(), named(name@)) == match r {
                Some(k) => k as int,
                None => -1,
            },
            match r {
                Some(k) => k < self.apps().len(),
                None => true,
            },
    {
        let ghost s = self.apps();
        let mut k: usize = 0;
        while k < self.apps.len()
            invariant
                k <= self.apps@.len(),
                s == self.apps(),
                forall|j: int| 0 <= j < k ==> !named(name@)(#[trigger] s[j]),
            decreases self.apps@.len() - k,
        {
            if str_eq(self.apps[k].name.as_str(), name) {
                proof {
                    lemma_first_index(s, named(name@), k as int);
                }
                return Some(k);
            }
            k = k + 1;
        }
        proof {
            lemma_first_index(s, named(name@), k as int);
        }
        None
    }

    /// Register an application, replacing one of the same name.
    pub fn register(&mut self, app: InstalledApp)
        requires
            old(self).wf(),
        ensures
            final(self).wf(),
            final(self).apps() == registered(old(self).apps(), app@),
    {
        let ghost s = self.apps();
        let ghost a = app@;
        proof {
            lemma_registered_distinct(s, a);
        }
        match self.index_of(app.name.as_str()) {
            Some(k) => {
                self.apps.set(k, app);
                assert(self.apps() =~= s.update(k as int, a));
            },
            None => {
                self.apps.push(app);
                assert(self.apps() =~= s.push(a));
            },
        }
    }

    /// Register the applications of the desktop entries among `files`
    /// (those whose name ends in `.desktop`).
    pub fn scan_desktop_entries(&mut self, files: &[SourceFile])
        requires
            old(self).wf(),
        ensures
            final(self).wf(),
            final(self).apps() == scanned(old(self).apps(), files@),
    {
        let mut i: usize = 0;
        assert(files@.take(0) =~= Seq::<SourceFile>::empty());
        while i < files.len()
            invariant
                i <= files@.len(),
                self.wf(),
                self.apps() == scanned(old(self).apps(), files@.take(i as int)),
            decreases files@.len() - i,
        {
            let f = &files[i];
            proof {
                assert(files@.take(i + 1).drop_last() =~= files@.take(i as int));
                assert(files@.take(i + 1).last() == *f);
            }
            if has_extension(f.path.as_str(), "desktop") {
                match parse_desktop_entry(f.path.as_str(), f.contents.as_str()) {
                    Some(app) => {
                        self.register(app);
                    },
                    None => {},
                }
            }
            i = i + 1;
        }
        assert(files@.take(files@.len() as int) =~= files@);
    }

    fn select(&self, q: &Query) -> (r: Vec<&InstalledApp>)
        ensures
            app_views(r@) == self.apps().filter(query_pred(*q)),
    {
        let ghost s = self.apps();
        let ghost p = query_pred(*q);
        let mut r: Vec<&InstalledApp> = Vec::new();
        let mut i: usize = 0;
        proof {
            lemma_filter_take_zero(s, p);
            assert(app_views(r@) =~= Seq::<InstalledAppView>::empty());
        }
        while i < self.apps.len()
            invariant
                i <= self.apps@.len(),
                s == self.apps(),
                p == query_pred(*q),
                app_views(r@) == s.take(i as int).filter(p),
            decreases self.apps@.len() - i,
        {
            let a = &self.apps[i];
            proof {
                assert(s.take(i + 1) =~= s.take(i as int).push(a@));
                s.take(i as int).lemma_filter_push(a@, p);
            }
            if query_matches(a, q) {
                let ghost before = app_views(r@);
                r.push(a);
                assert(app_views(r@) =~= before.push(a@));
            }
            i = i + 1;
        }
        assert(s.take(self.apps@.len() as int) =~= s);
        r
    }

    /// Applications installed from `source`, in catalog order.
    pub fn by_source(&self, source: &InstallSource) -> (r: Vec<&InstalledApp>)
        ensures
            app_views(r@) == self.apps().filter(from_source(*source)),
    {
        let q = Query::Source(*source);
        let r = self.select(&q);
        assert(query_pred(q) == from_source(*source));
        r
    }

    /// Applications with a category that contains `category`, ignoring
    /// case, in catalog order.
    pub fn by_category(&self, category: &str) -> (r: Vec<&InstalledApp>)
        ensures
            app_views(r@) == self.apps().filter(in_category(category@)),
    {
        let lowered = to_lowercase(category);
        let q = Query::Category(lowered);
        let r = self.select(&q);
        assert(query_pred(q) =~= in_category(category@));
        r
    }

    /// Applications that start at login, in catalog order.
    pub fn autostart_apps(&self) -> (r: Vec<&InstalledApp>)
        ensures
            app_views(r@) == self.apps().filter(starts_at_login()),
    {
        let q = Query::Autostart;
        let r = self.select(&q);
        assert(query_pred(q) == starts_at_login());
        r
    }

    /// Applications whose name contains `query`, ignoring case, in catalog
    /// order.
    pub fn search(&self, query: &str) -> (r: Vec<&InstalledApp>)
        ensures
            app_views(r@) == self.apps().filter(name_matches(query@)),
    {
        let lowered = to_lowercase(query);
        let q = Query::Name(lowered);
        let r = self.select(&q);
        assert(query_pred(q) =~= name_matches(query@));
        r
    }

    /// Total disk usage across all tracked apps.
    pub fn total_size(&self) -> (r: u64)
        requires
            size_sum(self.apps()) <= u64::MAX,
        ensures
            r == size_sum(self.apps()),
    {
        let ghost s = self.apps();
        let mut total: u64 = 0;
        let mut i: usize = 0;
        assert(s.take(0) =~= Seq::<InstalledAppView>::empty());
        while i < self.apps.len()
            invariant
                i <= self.apps@.len(),
                s == self.apps(),
                size_sum(s) <= u64::MAX,
                total == size_sum(s.take(i as int)),
            decreases self.apps@.len() - i,
        {
            proof {
                assert(s.take(i + 1).drop_last() =~= s.take(i as int));
                lemma_size_sum_take(s, i + 1);
            }
            total = total + self.apps[i].install_size_bytes;
            i = i + 1;
        }
        assert(s.take(self.apps@.len() as int) =~= s);
        total
    }

    /// The application of a name.
    pub fn get(&self, name: &str) -> (r: Option<&InstalledApp>)
        ensures
            match r {
                Some(a) => first_index(self.apps(), named(name@)) >= 0 && a@ == self.apps()[first_index(
                    self.apps(),
                    named(name@),
                )],
                None => first_index(self.apps(), named(name@)) < 0,
            },
    {
        match self.index_of(name) {
            Some(k) => Some(&self.apps[k]),
            None => None,
        }
    }

    pub fn count(&self) -> (r: usize)
        ensures
            r == self.apps().len(),
    {
        self.apps.len()
    }

    /// How many applications come from each source, for the sources that
    /// occur, in the order they first occur.
    pub fn source_stats(&self) -> (r: Vec<(InstallSource, usize)>)
        ensures
            forall|i: int, j: int| 0 <= i < j < r@.len() ==> r@[i].0 != r@[j].0,
            forall|i: int|
                0 <= i < r@.len() ==> (#[trigger] r@[i]).1 == self.apps().filter(from_source(r@[i].0)).len()
                    && r@[i].1 > 0,
            forall|k: int|
                0 <= k < self.apps().len() ==> exists|i: int|
                    0 <= i < r@.len() && (#[trigger] r@[i]).0 == (#[trigger] self.apps()[k]).source,
    {
        let ghost s = self.apps();
        let mut stats: Vec<(InstallSource, usize)> = Vec::new();
        let mut i: usize = 0;
        while i < self.apps.len()
            invariant
                i <= self.apps@.len(),
                s == self.apps(),
                forall|a: int, b: int| 0 <= a < b < stats@.len() ==> stats@[a].0 != stats@[b].0,
                forall|a: int|
                    0 <= a < stats@.len() ==> (#[trigger] stats@[a]).1 == s.take(i as int).filter(
                        from_source(stats@[a].0),
                    ).len() && stats@[a].1 > 0,
                forall|k: int|
                    0 <= k < i ==> exists|a: int| 0 <= a < stats@.len() && (#[trigger] stats@[a]).0 == (#[trigger] s[k]).source,
                forall|src: InstallSource|
                    (forall|a: int| 0 <= a < stats@.len() ==> (#[trigger] stats@[a]).0 != src) ==> s.take(
                        i as int,
                    ).filter(from_source(src)).len() == 0,
            decreases self.apps@.len() - i,
        {
            let src = self.apps[i].source;
            let ghost t = s.take(i as int);
            proof {
                assert(s.take(i + 1) =~= t.push(s[i as int]));
                assert forall|x: InstallSource| true implies #[trigger] s.take(i + 1).filter(from_source(x))
                    == if s[i as int].source == x {
                    t.filter(from_source(x)).push(s[i as int])
                } else {
                    t.filter(from_source(x))
                } by {
                    t.lemma_filter_push(s[i as int], from_source(x));
                }
            }
            let mut a: usize = 0;
            while a < stats.len() && stats[a].0 != src
                invariant
                    a <= stats@.len(),
                    forall|b: int| 0 <= b < a ==> (#[trigger] stats@[b]).0 != src,
                decreases stats@.len() - a,
            {
                a = a + 1;
            }
            let ghost old_stats = stats@;
            if a < stats.len() {
                let c = stats[a].1;
                proof {
                    t.filter(from_source(src)).lemma_filter_len(from_source(src));
                    t.lemma_filter_len(from_source(src));
                }
                stats.set(a, (src, c + 1));
                proof {
                    assert(stats@ == old_stats.update(a as int, (src, (c + 1) as usize)));
                    assert forall|x: int, y: int| 0 <= x < y < stats@.len() implies stats@[x].0 != stats@[y].0 by {
                        assert(stats@[x].0 == old_stats[x].0);
                        assert(stats@[y].0 == old_stats[y].0);
                    }
                    assert forall|k: int| 0 <= k < i + 1 implies exists|b: int|
                        0 <= b < stats@.len() && (#[trigger] stats@[b]).0 == (#[trigger] s[k]).source by {
                        if k < i {
                            let b0 = choose|b: int| 0 <= b < old_stats.len() && (#[trigger] old_stats[b]).0 == s[k].source;
                            assert(stats@[b0].0 == old_stats[b0].0);
                        } else {
                            assert(stats@[a as int].0 == s[k].source);
                        }
                    }
                    assert forall|x: InstallSource|
                        (forall|b: int| 0 <= b < stats@.len() ==> (#[trigger] stats@[b]).0 != x) implies s.take(
                            i + 1,
                        ).filter(from_source(x)).len() == 0 by {
                        assert forall|b: int| 0 <= b < old_stats.len() implies (#[trigger] old_stats[b]).0 != x by {
                            assert(stats@[b].0 == old_stats[b].0);
                        }
                        assert(stats@[a as int].0 != x);
                        assert(s.take(i + 1).filter(from_source(x)) == t.filter(from_source(x)));
                    }
                }
            } else {
                stats.push((src, 1));
                proof {
                    assert(t.filter(from_source(src)).len() == 0);
                    assert forall|k: int| 0 <= k < i + 1 implies exists|b: int|
                        0 <= b < stats@.len() && (#[trigger] stats@[b]).0 == (#[trigger] s[k]).source by {
                        if k < i {
                            let b0 = choose|b: int| 0 <= b < old_stats.len() && (#[trigger] old_stats[b]).0 == s[k].source;
                            assert(stats@[b0].0 == old_stats[b0].0);
                        } else {
                            assert(stats@[old_stats.len() as int].0 == s[k].source);
                        }
                    }
                    assert forall|x: InstallSource|
                        (forall|b: int| 0 <= b < stats@.len() ==> (#[trigger] stats@[b]).0 != x) implies s.take(
                            i + 1,
                        ).filter(from_source(x)).len() == 0 by {
                        assert forall|b: int| 0 <= b < old_stats.len() implies (#[trigger] old_stats[b]).0 != x by {
                            assert(stats@[b].0 == old_stats[b].0);
                        }
                        assert(stats@[old_stats.len() as int].0 != x);
                        assert(s.take(i + 1).filter(from_source(x)) == t.filter(from_source(x)));
                    }
                }
            }
            i = i + 1;
        }
        assert(s.take(self.apps@.len() as int) =~= s);
        stats
    }
}

impl Default for AppInventory {
    fn default() -> (r: Self)
        ensures
            r.wf(),
            r.apps() == Seq::<InstalledAppView>::empty(),
    {
        Self::new()
    }
}

} // verus!
