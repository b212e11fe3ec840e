//! Autostart entry management — detects and controls persistence mechanisms.
//!
//! Covers the three main Linux autostart vectors: XDG autostart
//! (`~/.config/autostart/*.desktop`), systemd user units
//! (`~/.config/systemd/user/*.service`) and the user crontab. The manager
//! turns what was read from those sources into entries, keeps a baseline
//! snapshot, and reports entries that appeared since.

use vstd::prelude::*;
use crate::paths::{extension_of, file_name_of, joined_path, path_extension, path_file_name, path_join};
use crate::permissions::distinct_first;
use crate::text::{
    seq_starts_with, str_eq, starts_with, copy_string, concat2, trim, trim_start, trim_str, trim_start_str,
    text_lines, split_lines, join, texts, lines_state, lemma_trim_plain, lemma_lines_state_append, strip_cr,
    lemma_trim_drop_ws_last,
};

verus! {

/// The mechanism through which an entry auto-starts.
#[derive(Debug, Clone, Copy, PartialEq, Eq, Hash, Structural)]
pub enum AutostartKind {
    /// XDG `.desktop` file in `~/.config/autostart/`.
    XdgDesktop,
    /// systemd user unit in `~/.config/systemd/user/`.
    SystemdUser,
    /// Line in the user's crontab.
    Crontab,
}

/// A single autostart entry.
#[derive(Debug, Clone)]
pub struct AutostartEntry {
    pub kind: AutostartKind,
    /// Human-readable identifier (filename, unit name, or cron line).
    pub identifier: String,
    /// Full path to the backing file, if applicable.
    pub path: Option<String>,
    /// Whether the entry is currently enabled.
    pub enabled: bool,
    /// The command/exec line.
    pub command: String,
}

/// An autostart entry as plain data.
pub struct EntryView {
    pub kind: AutostartKind,
    pub identifier: Seq<char>,
    pub path: Option<Seq<char>>,
    pub enabled: bool,
    pub command: Seq<char>,
}

impl View for AutostartEntry {
    type V = EntryView;

    open spec fn view(&self) -> EntryView {
        EntryView {
            kind: self.kind,
            identifier: self.identifier@,
            path: match self.path {
                Some(p) => Some(p@),
                None => None,
            },
            enabled: self.enabled,
            command: self.command@,
        }
    }
}

/// The views of a list of entries.
pub open spec fn entry_views(s: Seq<AutostartEntry>) -> Seq<EntryView> {
    s.map_values(|e: AutostartEntry| e@)
}

/// Do two entries hold the same data?
pub fn same_entry(a: &AutostartEntry, b: &AutostartEntry) -> (r: bool)
    ensures
        r == (a@ == b@),
{
    let same_path = match (&a.path, &b.path) {
        (Some(x), Some(y)) => str_eq(x.as_str(), y.as_str()),
        (None, None) => true,
        _ => false,
    };
    a.kind == b.kind && str_eq(a.identifier.as_str(), b.identifier.as_str()) && same_path && a.enabled == b.enabled
        && str_eq(a.command.as_str(), b.command.as_str())
}

fn copy_entry(e: &AutostartEntry) -> (r: AutostartEntry)
    ensures
        r@ == e@,
{
    AutostartEntry {
        kind: e.kind,
        identifier: copy_string(&e.identifier),
        path: match &e.path {
            Some(p) => Some(copy_string(p)),
            None => None,
        },
        enabled: e.enabled,
        command: copy_string(&e.command),
    }
}

fn entry_listed(list: &Vec<AutostartEntry>, e: &AutostartEntry) -> (r: bool)
    ensures
        r == entry_views(list@).contains(e@),
{
    let mut i: usize = 0;
    while i < list.len()
        invariant
            i <= list@.len(),
            forall|j: int| 0 <= j < i ==> (#[trigger] list@[j])@ != e@,
        decreases list@.len() - i,
    {
        if same_entry(&list[i], e) {
            assert(entry_views(list@)[i as int] == e@);
            return true;
        }
        i = i + 1;
    }
    assert forall|j: int| 0 <= j < entry_views(list@).len() implies entry_views(list@)[j] != e@ by {
        assert(entry_views(list@)[j] == list@[j]@);
    }
    false
}

/// `l` with every leading repetition of `p` removed (as
/// `str::trim_start_matches` does with a text pattern).
pub open spec fn strip_all_prefix(l: Seq<char>, p: Seq<char>) -> Seq<char>
    decreases l.len(),
{
    if p.len() > 0 && seq_starts_with(l, p) {
        strip_all_prefix(l.subrange(p.len() as int, l.len() as int), p)
    } else {
        l
    }
}

fn strip_all_prefix_str<'a>(l: &'a str, p: &str) -> (r: &'a str)
    ensures
        r@ == strip_all_prefix(l@, p@),
{
    let n = l.unicode_len();
    let m = p.unicode_len();
    let mut rest: &str = l;
    let mut k: usize = 0;
    if m == 0 {
        return l;
    }
    while starts_with(rest, p)
        invariant
            m == p@.len(),
            m > 0,
            strip_all_prefix(rest@, p@) == strip_all_prefix(l@, p@),
        decreases rest@.len(),
    {
        let len = rest.unicode_len();
        rest = rest.substring_char(m, len);
    }
    rest
}

/// The first line of `lines` that begins with `p`, if any.
pub open spec fn first_starting(lines: Seq<Seq<char>>, p: Seq<char>) -> Option<Seq<char>>
    decreases lines.len(),
{
    if lines.len() == 0 {
        None
    } else if seq_starts_with(lines[0], p) {
        Some(lines[0])
    } else {
        first_starting(lines.drop_first(), p)
    }
}

/// The value of the first `key` line of a text (all leading repetitions of
/// `key` removed), or the empty text without one.
pub open spec fn keyed_value(contents: Seq<char>, key: Seq<char>) -> Seq<char> {
    match first_starting(text_lines(contents), key) {
        Some(l) => strip_all_prefix(l, key),
        None => Seq::empty(),
    }
}

fn keyed_value_of(contents: &str, key: &str) -> (r: String)
    ensures
        r@ == keyed_value(contents@, key@),
{
    let lines = split_lines(contents);
    let ghost ls = lines@.map_values(|x: String| x@);
    let mut i: usize = 0;
    assert(ls.skip(0) =~= ls);
    while i < lines.len()
        invariant
            i <= lines@.len(),
            ls == lines@.map_values(|x: String| x@),
            ls == text_lines(contents@),
            first_starting(ls, key@) == first_starting(ls.skip(i as int), key@),
        decreases lines@.len() - i,
    {
        proof {
            assert(ls.skip(i as int)[0] == lines@[i as int]@);
            assert(ls.skip(i as int).drop_first() =~= ls.skip(i + 1));
        }
        if starts_with(lines[i].as_str(), key) {
            let v = strip_all_prefix_str(lines[i].as_str(), key);
            return String::from_str(v);
        }
        i = i + 1;
    }
    assert(ls.skip(i as int) =~= Seq::<Seq<char>>::empty());
    proof {
        reveal_strlit("");
    }
    String::from_str("")
}

/// The command of an XDG desktop file: its first `Exec=` line.
pub open spec fn desktop_exec(contents: Seq<char>) -> Seq<char> {
    keyed_value(contents, "Exec="@)
}

/// The command of a systemd unit: its first `ExecStart=` line.
pub open spec fn unit_exec(contents: Seq<char>) -> Seq<char> {
    keyed_value(contents, "ExecStart="@)
}

/// A desktop file is enabled unless a line reads `Hidden=true` (surrounding
/// white space aside).
pub open spec fn desktop_enabled(contents: Seq<char>) -> bool {
    !exists|i: int| 0 <= i < text_lines(contents).len() && trim(#[trigger] text_lines(contents)[i]) == "Hidden=true"@
}

/// The command of an XDG desktop file.
pub fn parse_desktop_exec(contents: &str) -> (r: String)
    ensures
        r@ == desktop_exec(contents@),
{
    keyed_value_of(contents, "Exec=")
}

/// Is the XDG desktop file enabled?
pub fn parse_desktop_enabled(contents: &str) -> (r: bool)
    ensures
        r == desktop_enabled(contents@),
{
    let lines = split_lines(contents);
    let ghost ls = lines@.map_values(|x: String| x@);
    let mut i: usize = 0;
    while i < lines.len()
        invariant
            i <= lines@.len(),
            ls == lines@.map_values(|x: String| x@),
            ls == text_lines(contents@),
            forall|j: int| 0 <= j < i ==> trim(#[trigger] ls[j]) != "Hidden=true"@,
        decreases lines@.len() - i,
    {
        assert(ls[i as int] == lines@[i as int]@);
        if str_eq(trim_str(lines[i].as_str()), "Hidden=true") {
            return false;
        }
        i = i + 1;
    }
    true
}

/// The command of a systemd unit.
pub fn parse_unit_exec(contents: &str) -> (r: String)
    ensures
        r@ == unit_exec(contents@),
{
    keyed_value_of(contents, "ExecStart=")
}

/// A systemd user unit counts as enabled (its install links are not
/// inspected).
pub fn parse_unit_enabled(contents: &str) -> (r: bool)
    ensures
        r,
{
    true
}

/// What follows the `k`-th space of `l`, if it has that many.
pub open spec fn after_spaces(l: Seq<char>, k: nat) -> Option<Seq<char>>
    decreases l.len(),
{
    if k == 0 {
        Some(l)
    } else if l.len() == 0 {
        None
    } else if l[0] == ' ' {
        after_spaces(l.drop_first(), (k - 1) as nat)
    } else {
        after_spaces(l.drop_first(), k)
    }
}

/// The command of a crontab line: what follows its five schedule fields,
/// or the whole line when it has fewer than five spaces.
pub open spec fn cron_command(l: Seq<char>) -> Seq<char> {
    match after_spaces(l, 5) {
        Some(rest) => rest,
        None => l,
    }
}

/// A crontab line that schedules something: not blank, not a comment.
pub open spec fn cron_job_line(l: Seq<char>) -> bool {
    trim(l).len() > 0 && !seq_starts_with(trim_start(l), "#"@)
}

/// The entry of a crontab line.
pub open spec fn cron_entry(l: Seq<char>) -> EntryView {
    EntryView { kind: AutostartKind::Crontab, identifier: l, path: None, enabled: true, command: cron_command(l) }
}

fn cron_command_of(l: &str) -> (r: String)
    ensures
        r@ == cron_command(l@),
{
    let n = l.unicode_len();
    let mut i: usize = 0;
    let mut k: u64 = 5;
    assert(l@.skip(0) =~= l@);
    while i < n && k > 0
        invariant
            n == l@.len(),
            i <= n,
            k <= 5,
            after_spaces(l@, 5) == after_spaces(l@.skip(i as int), k as nat),
        decreases n - i,
    {
        proof {
            assert(l@.skip(i as int)[0] == l@[i as int]);
            assert(l@.skip(i as int).drop_first() =~= l@.skip(i + 1));
        }
        if l.get_char(i) == ' ' {
            k = k - 1;
        }
        i = i + 1;
    }
    if k == 0 {
        assert(l@.skip(i as int) =~= l@.subrange(i as int, n as int));
        String::from_str(l.substring_char(i, n))
    } else {
        assert(l@.skip(i as int) =~= Seq::<char>::empty());
        String::from_str(l)
    }
}

/// The entries of a crontab listing: one per scheduling line, in order.
pub fn parse_crontab_lines(text: &str) -> (r: Vec<AutostartEntry>)
    ensures
        entry_views(r@) == text_lines(text@).filter(|l: Seq<char>| cron_job_line(l)).map_values(
            |l: Seq<char>| cron_entry(l),
        ),
{
    let lines = split_lines(text);
    let ghost ls = lines@.map_values(|x: String| x@);
    let ghost pred = |l: Seq<char>| cron_job_line(l);
    let ghost f = |l: Seq<char>| cron_entry(l);
    let mut out: Vec<AutostartEntry> = Vec::new();
    let mut i: usize = 0;
    proof {
        crate::keyed::lemma_filter_take_zero(ls, pred);
        assert(entry_views(out@) =~= ls.take(0).filter(pred).map_values(f));
    }
    while i < lines.len()
        invariant
            i <= lines@.len(),
            ls == lines@.map_values(|x: String| x@),
            pred == (|l: Seq<char>| cron_job_line(l)),
            f == (|l: Seq<char>| cron_entry(l)),
            entry_views(out@) == ls.take(i as int).filter(pred).map_values(f),
        decreases lines@.len() - i,
    {
        let l = lines[i].as_str();
        proof {
            assert(ls[i as int] == l@);
            assert(ls.take(i + 1) =~= ls.take(i as int).push(l@));
            crate::keyed::lemma_filter_map_push(ls.take(i as int), l@, pred, f);
        }
        let t = trim_str(l);
        if t.unicode_len() > 0 && !starts_with(trim_start_str(l), "#") {
            let e = AutostartEntry {
                kind: AutostartKind::Crontab,
                identifier: String::from_str(l),
                path: None,
                enabled: true,
                command: cron_command_of(l),
            };
            let ghost before = entry_views(out@);
            out.push(e);
            assert(entry_views(out@) =~= before.push(e@));
        }
        i = i + 1;
    }
    assert(ls.take(ls.len() as int) =~= ls);
    out
}

/// A line other than `Hidden=true` (surrounding white space aside).
pub open spec fn not_hidden_line(l: Seq<char>) -> bool {
    trim(l) != "Hidden=true"@
}

/// A desktop file with every `Hidden=true` line removed and, to hide the
/// entry, one `Hidden=true` line appended.
pub open spec fn toggled_contents(contents: Seq<char>, hide: bool) -> Seq<char> {
    join(text_lines(contents).filter(|l: Seq<char>| not_hidden_line(l)), "\n"@) + if hide {
        "\nHidden=true\n"@
    } else {
        "\n"@
    }
}

/// Hiding a desktop entry disables it: the new text has a `Hidden=true`
/// line.
pub proof fn lemma_hidden_entry_disabled(contents: Seq<char>)
    ensures
        !desktop_enabled(toggled_contents(contents, true)),
{
    reveal_strlit("\nHidden=true\n");
    reveal_strlit("Hidden=true");
    let x = join(text_lines(contents).filter(|l: Seq<char>| not_hidden_line(l)), "\n"@);
    let h = "Hidden=true"@;
    let t = toggled_contents(contents, true);
    assert(t =~= (x.push('\n') + h).push('\n'));
    let a = lines_state(x.push('\n'));
    assert(x.push('\n').drop_last() =~= x);
    assert(a.1 =~= Seq::<char>::empty());
    lemma_lines_state_append(x.push('\n'), h);
    assert(a.1 + h =~= h);
    assert((x.push('\n') + h).push('\n').drop_last() =~= x.push('\n') + h);
    assert(lines_state(t) == (a.0.push(h), Seq::<char>::empty()));
    lemma_trim_plain(h);
    assert(text_lines(t)[a.0.len() as int] == h);
}

/// No line break inside the text `l`.
pub open spec fn single_line(l: Seq<char>) -> bool {
    forall|i: int| 0 <= i < l.len() ==> #[trigger] l[i] != '\n'
}

proof fn lemma_lines_single(s: Seq<char>)
    ensures
        forall|i: int| 0 <= i < lines_state(s).0.len() ==> single_line(#[trigger] lines_state(s).0[i]),
        single_line(lines_state(s).1),
    decreases s.len(),
{
    if s.len() > 0 {
        lemma_lines_single(s.drop_last());
        let (ls, cur) = lines_state(s.drop_last());
        if s.last() == '\n' {
            assert(single_line(strip_cr(cur))) by {
                if cur.len() > 0 && cur.last() == '\r' {
                    assert forall|i: int| 0 <= i < cur.drop_last().len() implies #[trigger] cur.drop_last()[i]
                        != '\n' by {
                        assert(cur.drop_last()[i] == cur[i]);
                    }
                }
            }
            assert forall|i: int| 0 <= i < ls.push(strip_cr(cur)).len() implies single_line(
                #[trigger] ls.push(strip_cr(cur))[i],
            ) by {
                if i < ls.len() {
                    assert(ls.push(strip_cr(cur))[i] == ls[i]);
                }
            }
        } else {
            assert forall|i: int| 0 <= i < cur.push(s.last()).len() implies #[trigger] cur.push(s.last())[i]
                != '\n' by {
                if i < cur.len() {
                    assert(cur.push(s.last())[i] == cur[i]);
                }
            }
        }
    }
}

/// The lines of a text carry no line breaks.
proof fn lemma_text_lines_single(s: Seq<char>)
    ensures
        forall|i: int| 0 <= i < text_lines(s).len() ==> single_line(#[trigger] text_lines(s)[i]),
{
    lemma_lines_single(s);
    let (ls, cur) = lines_state(s);
    if cur.len() > 0 {
        assert forall|i: int| 0 <= i < text_lines(s).len() implies single_line(#[trigger] text_lines(s)[i]) by {
            if i < ls.len() {
                assert(text_lines(s)[i] == ls[i]);
            }
        }
    }
}

/// Joining single lines with line breaks and reading the lines back gives
/// them back, each without one trailing carriage return, the last still in
/// progress.
proof fn lemma_join_lines(k: Seq<Seq<char>>)
    requires
        k.len() > 0,
        forall|i: int| 0 <= i < k.len() ==> single_line(#[trigger] k[i]),
    ensures
        lines_state(join(k, "\n"@)) == (k.drop_last().map_values(|l: Seq<char>| strip_cr(l)), k.last()),
    decreases k.len(),
{
    reveal_strlit("\n");
    if k.len() == 1 {
        lemma_lines_state_append(Seq::<char>::empty(), k[0]);
        assert(Seq::<char>::empty() + k[0] =~= k[0]);
        assert(lines_state(Seq::<char>::empty()) == (Seq::<Seq<char>>::empty(), Seq::<char>::empty()));
        assert(Seq::<char>::empty() + k[0] =~= k[0]);
        assert(k.drop_last().map_values(|l: Seq<char>| strip_cr(l)) =~= Seq::<Seq<char>>::empty());
    } else {
        let p = k.drop_last();
        assert forall|i: int| 0 <= i < p.len() implies single_line(#[trigger] p[i]) by {
            assert(p[i] == k[i]);
        }
        lemma_join_lines(p);
        let j = join(p, "\n"@);
        assert(join(k, "\n"@) == j + "\n"@ + k.last());
        assert(j + "\n"@ =~= j.push('\n'));
        assert(j.push('\n').drop_last() =~= j);
        let st = lines_state(j.push('\n'));
        assert(st == (p.drop_last().map_values(|l: Seq<char>| strip_cr(l)).push(strip_cr(p.last())), Seq::<char>::empty()));
        assert(st.0 =~= k.drop_last().map_values(|l: Seq<char>| strip_cr(l)));
        lemma_lines_state_append(j.push('\n'), k.last());
        assert(st.1 + k.last() =~= k.last());
    }
}

/// Showing a desktop entry enables it: the new text has no `Hidden=true`
/// line.
pub proof fn lemma_shown_entry_enabled(contents: Seq<char>)
    ensures
        desktop_enabled(toggled_contents(contents, false)),
{
    reveal_strlit("\n");
    let pred = |l: Seq<char>| not_hidden_line(l);
    let all = text_lines(contents);
    let k = all.filter(pred);
    lemma_text_lines_single(contents);
    all.filter_lemma(pred);
    assert forall|i: int| 0 <= i < k.len() implies single_line(#[trigger] k[i]) && not_hidden_line(k[i]) by {
        assert(k.contains(k[i]));
        all.lemma_filter_contains_rev(pred, k[i]);
        let j = choose|j: int| 0 <= j < all.len() && all[j] == k[i];
        assert(single_line(all[j]));
    }
    let t = toggled_contents(contents, false);
    let x = join(k, "\n"@);
    assert(t =~= x.push('\n'));
    assert(x.push('\n').drop_last() =~= x);
    if k.len() == 0 {
        assert(x =~= Seq::<char>::empty());
        assert(t.drop_last() =~= Seq::<char>::empty());
        assert(t.last() == '\n');
        assert(strip_cr(Seq::<char>::empty()) == Seq::<char>::empty());
        assert(lines_state(Seq::<char>::empty()) == (Seq::<Seq<char>>::empty(), Seq::<char>::empty()));
        assert(lines_state(t).0 =~= seq![Seq::<char>::empty()]);
        assert(lines_state(t).1 =~= Seq::<char>::empty());
        assert(text_lines(t) =~= seq![Seq::<char>::empty()]);
        assert(trim(Seq::<char>::empty()) =~= Seq::<char>::empty());
        reveal_strlit("Hidden=true");
    } else {
        lemma_join_lines(k);
        let lines = k.map_values(|l: Seq<char>| strip_cr(l));
        assert(lines_state(t).0 =~= lines);
        assert(text_lines(t) == lines);
        assert forall|i: int| 0 <= i < lines.len() implies trim(#[trigger] lines[i]) != "Hidden=true"@ by {
            let l = k[i];
            if l.len() > 0 && l.last() == '\r' {
                assert(l.drop_last().push('\r') =~= l);
                lemma_trim_drop_ws_last(l.drop_last(), '\r');
            }
            assert(not_hidden_line(k[i]));
        }
    }
}

/// The new text of a desktop file when hiding or showing its entry.
pub fn toggle_hidden_contents(contents: &str, hide: bool) -> (r: String)
    ensures
        r@ == toggled_contents(contents@, hide),
{
    let lines = split_lines(contents);
    let ghost ls = lines@.map_values(|x: String| x@);
    let ghost pred = |l: Seq<char>| not_hidden_line(l);
    let mut kept: Vec<String> = Vec::new();
    let mut i: usize = 0;
    proof {
        crate::keyed::lemma_filter_take_zero(ls, pred);
        assert(texts(kept@) =~= ls.take(0).filter(pred));
    }
    while i < lines.len()
        invariant
            i <= lines@.len(),
            ls == lines@.map_values(|x: String| x@),
            pred == (|l: Seq<char>| not_hidden_line(l)),
            texts(kept@) == ls.take(i as int).filter(pred),
        decreases lines@.len() - i,
    {
        proof {
            assert(ls[i as int] == lines@[i as int]@);
            assert(ls.take(i + 1) =~= ls.take(i as int).push(ls[i as int]));
            ls.take(i as int).lemma_filter_push(ls[i as int], pred);
        }
        if !str_eq(trim_str(lines[i].as_str()), "Hidden=true") {
            let ghost before = texts(kept@);
            kept.push(copy_string(&lines[i]));
            assert(texts(kept@) =~= before.push(ls[i as int]));
        }
        i = i + 1;
    }
    assert(ls.take(ls.len() as int) =~= ls);
    let mut out = crate::text::join_strings(&kept, "\n");
    if hide {
        out.append("\nHidden=true\n");
    } else {
        out.append("\n");
    }
    out
}

/// The entry of a file of the given kind: named by the file, enabled and
/// commanded as its contents say.
pub open spec fn file_entry(kind: AutostartKind, path: Seq<char>, contents: Seq<char>) -> EntryView {
    EntryView {
        kind,
        identifier: file_name_of(path),
        path: Some(path),
        enabled: if kind == AutostartKind::XdgDesktop { desktop_enabled(contents) } else { true },
        command: if kind == AutostartKind::XdgDesktop { desktop_exec(contents) } else { unit_exec(contents) },
    }
}

/// A file read from an autostart directory: its path and its text.
#[derive(Debug, Clone)]
pub struct SourceFile {
    pub path: String,
    pub contents: String,
}

/// The file has the extension that marks entries of the directory.
pub open spec fn is_entry_file(f: SourceFile, extension: Seq<char>) -> bool {
    extension_of(f.path@) == Some(extension)
}

/// The entries of the files of a directory: the files with the given
/// extension, in order.
pub open spec fn dir_entries(files: Seq<SourceFile>, extension: Seq<char>, kind: AutostartKind) -> Seq<EntryView> {
    files.filter(|f: SourceFile| is_entry_file(f, extension)).map_values(
        |f: SourceFile| file_entry(kind, f.path@, f.contents@),
    )
}

pub(crate) fn has_extension(path: &str, extension: &str) -> (r: bool)
    ensures
        r == (extension_of(path@) == Some(extension@)),
{
    match path_extension(path) {
        Some(e) => str_eq(e.as_str(), extension),
        None => false,
    }
}

fn list_dir_entries(files: &[SourceFile], extension: &str, kind: AutostartKind) -> (r: Vec<AutostartEntry>)
    ensures
        entry_views(r@) == dir_entries(files@, extension@, kind),
{
    let ghost pred = |f: SourceFile| is_entry_file(f, extension@);
    let ghost g = |f: SourceFile| file_entry(kind, f.path@, f.contents@);
    let mut out: Vec<AutostartEntry> = Vec::new();
    let mut i: usize = 0;
    proof {
        crate::keyed::lemma_filter_take_zero(files@, pred);
        assert(entry_views(out@) =~= files@.take(0).filter(pred).map_values(g));
    }
    while i < files.len()
        invariant
            i <= files@.len(),
            pred == (|f: SourceFile| is_entry_file(f, extension@)),
            g == (|f: SourceFile| file_entry(kind, f.path@, f.contents@)),
            entry_views(out@) == files@.take(i as int).filter(pred).map_values(g),
        decreases files@.len() - i,
    {
        let f = &files[i];
        proof {
            assert(files@.take(i + 1) =~= files@.take(i as int).push(*f));
            crate::keyed::lemma_filter_map_push(files@.take(i as int), *f, pred, g);
        }
        if has_extension(f.path.as_str(), extension) {
            let (enabled, command) = match kind {
                AutostartKind::XdgDesktop => (
                    parse_desktop_enabled(f.contents.as_str()),
                    parse_desktop_exec(f.contents.as_str()),
                ),
                _ => (parse_unit_enabled(f.contents.as_str()), parse_unit_exec(f.contents.as_str())),
            };
            let e = AutostartEntry {
                kind,
                identifier: path_file_name(f.path.as_str()),
                path: Some(copy_string(&f.path)),
                enabled,
                command,
            };
            let ghost before = entry_views(out@);
            out.push(e);
            assert(entry_views(out@) =~= before.push(e@));
        }
        i = i + 1;
    }
    assert(files@.take(files@.len() as int) =~= files@);
    out
}

/// Manages discovery and manipulation of autostart entries.
pub struct AutostartManager {
    xdg_autostart_dir: String,
    systemd_user_dir: String,
    baseline: Option<Vec<AutostartEntry>>,
}

impl AutostartManager {
    /// The XDG autostart directory.
    pub closed spec fn xdg_dir(&self) -> Seq<char> {
        self.xdg_autostart_dir@
    }

    /// The systemd user unit directory.
    pub closed spec fn systemd_dir(&self) -> Seq<char> {
        self.systemd_user_dir@
    }

    /// The entries of the last snapshot, if one was taken.
    pub closed spec fn baseline(&self) -> Option<Seq<EntryView>> {
        match self.baseline {
            Some(b) => Some(entry_views(b@)),
            None => None,
        }
    }

    /// A manager for the standard directories under a home directory.
    pub fn with_home(home: &str) -> (r: Self)
        ensures
            r.xdg_dir() == home@ + "/.config/autostart"@,
            r.systemd_dir() == home@ + "/.config/systemd/user"@,
            r.baseline() is None,
    {
        Self {
            xdg_autostart_dir: concat2(home, "/.config/autostart"),
            systemd_user_dir: concat2(home, "/.config/systemd/user"),
            baseline: None,
        }
    }

    /// A manager with custom directories.
    pub fn with_dirs(xdg_dir: &str, systemd_dir: &str) -> (r: Self)
        ensures
            r.xdg_dir() == xdg_dir@,
            r.systemd_dir() == systemd_dir@,
            r.baseline() is None,
    {
        Self {
            xdg_autostart_dir: String::from_str(xdg_dir),
            systemd_user_dir: String::from_str(systemd_dir),
            baseline: None,
        }
    }

    /// The XDG autostart directory.
    pub fn xdg_autostart_dir(&self) -> (r: &str)
        ensures
            r@ == self.xdg_dir(),
    {
        self.xdg_autostart_dir.as_str()
    }

    /// The systemd user unit directory.
    pub fn systemd_user_dir(&self) -> (r: &str)
        ensures
            r@ == self.systemd_dir(),
    {
        self.systemd_user_dir.as_str()
    }

    /// XDG `.desktop` autostart entries among the files read from the XDG
    /// autostart directory.
    pub fn list_xdg(&self, files: &[SourceFile]) -> (r: Vec<AutostartEntry>)
        ensures
            entry_views(r@) == dir_entries(files@, "desktop"@, AutostartKind::XdgDesktop),
    {
        list_dir_entries(files, "desktop", AutostartKind::XdgDesktop)
    }

    /// systemd user service units among the files read from the systemd
    /// user directory.
    pub fn list_systemd_user(&self, files: &[SourceFile]) -> (r: Vec<AutostartEntry>)
        ensures
            entry_views(r@) == dir_entries(files@, "service"@, AutostartKind::SystemdUser),
    {
        list_dir_entries(files, "service", AutostartKind::SystemdUser)
    }

    /// Entries of the user's crontab, given the output of `crontab -l`
    /// (none when it could not be read).
    pub fn list_crontab(&self, crontab: Option<&str>) -> (r: Vec<AutostartEntry>)
        ensures
            entry_views(r@) == match crontab {
                Some(t) => text_lines(t@).filter(|l: Seq<char>| cron_job_line(l)).map_values(
                    |l: Seq<char>| cron_entry(l),
                ),
                None => Seq::<EntryView>::empty(),
            },
    {
        match crontab {
            Some(t) => parse_crontab_lines(t),
            None => {
                let r: Vec<AutostartEntry> = Vec::new();
                assert(entry_views(r@) =~= Seq::<EntryView>::empty());
                r
            },
        }
    }

    /// Every entry: XDG, then systemd, then crontab.
    pub fn list_all(&self, xdg_files: &[SourceFile], unit_files: &[SourceFile], crontab: Option<&str>) -> (r: Vec<
        AutostartEntry,
    >)
        ensures
            entry_views(r@) == dir_entries(xdg_files@, "desktop"@, AutostartKind::XdgDesktop) + dir_entries(
                unit_files@,
                "service"@,
                AutostartKind::SystemdUser,
            ) + match crontab {
                Some(t) => text_lines(t@).filter(|l: Seq<char>| cron_job_line(l)).map_values(
                    |l: Seq<char>| cron_entry(l),
                ),
                None => Seq::<EntryView>::empty(),
            },
    {
        let mut all = self.list_xdg(xdg_files);
        let mut units = self.list_systemd_user(unit_files);
        let mut cron = self.list_crontab(crontab);
        let ghost a = entry_views(all@);
        let ghost b = entry_views(units@);
        let ghost c = entry_views(cron@);
        all.append(&mut units);
        assert(entry_views(all@) =~= a + b);
        all.append(&mut cron);
        assert(entry_views(all@) =~= a + b + c);
        all
    }

    /// Keep the current entries as the baseline.
    pub fn snapshot_baseline(&mut self, current: Vec<AutostartEntry>)
        ensures
            final(self).baseline() == Some(entry_views(current@)),
            final(self).xdg_dir() == old(self).xdg_dir(),
            final(self).systemd_dir() == old(self).systemd_dir(),
    {
        self.baseline = Some(current);
    }

    /// The entries present now but absent from the baseline, each once, in
    /// the order of `current`; everything is new without a baseline.
    pub fn detect_new_entries(&self, current: &Vec<AutostartEntry>) -> (r: Vec<AutostartEntry>)
        ensures
            entry_views(r@) == match self.baseline() {
                Some(base) => distinct_first(entry_views(current@).filter(|e: EntryView| !base.contains(e))),
                None => distinct_first(entry_views(current@)),
            },
    {
        let ghost cv = entry_views(current@);
        let ghost pred = match self.baseline() {
            Some(base) => |e: EntryView| !base.contains(e),
            None => |e: EntryView| true,
        };
        let mut out: Vec<AutostartEntry> = Vec::new();
        let mut i: usize = 0;
        proof {
            crate::keyed::lemma_filter_take_zero(cv, pred);
            assert(entry_views(out@) =~= Seq::<EntryView>::empty());
        }
        while i < current.len()
            invariant
                i <= current@.len(),
                cv == entry_views(current@),
                pred == match self.baseline() {
                    Some(base) => |e: EntryView| !base.contains(e),
                    None => |e: EntryView| true,
                },
                entry_views(out@) == distinct_first(cv.take(i as int).filter(pred)),
            decreases current@.len() - i,
        {
            let e = &current[i];
            let ghost s = cv.take(i as int).filter(pred);
            proof {
                assert(cv[i as int] == e@);
                assert(cv.take(i + 1) =~= cv.take(i as int).push(e@));
                cv.take(i as int).lemma_filter_push(e@, pred);
            }
            let fresh = match &self.baseline {
                Some(base) => !entry_listed(base, e),
                None => true,
            };
            if fresh {
                assert(s.push(e@).drop_last() =~= s);
                if !entry_listed(&out, e) {
                    let ghost before = entry_views(out@);
                    out.push(copy_entry(e));
                    assert(entry_views(out@) =~= before.push(e@));
                }
            }
            i = i + 1;
        }
        assert(cv.take(cv.len() as int) =~= cv);
        proof {
            match self.baseline() {
                Some(base) => {
                    assert(pred == (|e: EntryView| !base.contains(e)));
                },
                None => {
                    assert(cv.filter(pred) =~= cv) by {
                        lemma_filter_all(cv, pred);
                    }
                },
            }
        }
        out
    }

    /// The path of an XDG autostart entry's file.
    pub fn xdg_entry_path(&self, identifier: &str) -> (r: String)
        ensures
            r@ == joined_path(self.xdg_dir(), identifier@),
    {
        path_join(self.xdg_autostart_dir.as_str(), identifier)
    }

    /// The path and new text of an XDG entry's file when disabling it
    /// (`Hidden=true`), given its current text.
    pub fn disable_xdg(&self, identifier: &str, contents: &str) -> (r: (String, String))
        ensures
            r.0@ == joined_path(self.xdg_dir(), identifier@),
            r.1@ == toggled_contents(contents@, true),
    {
        (self.xdg_entry_path(identifier), toggle_hidden_contents(contents, true))
    }

    /// The path and new text of an XDG entry's file when enabling it
    /// (every `Hidden=true` removed), given its current text.
    pub fn enable_xdg(&self, identifier: &str, contents: &str) -> (r: (String, String))
        ensures
            r.0@ == joined_path(self.xdg_dir(), identifier@),
            r.1@ == toggled_contents(contents@, false),
    {
        (self.xdg_entry_path(identifier), toggle_hidden_contents(contents, false))
    }
}

/// Detecting against a baseline taken of the very entries present finds
/// nothing new.
pub proof fn lemma_snapshot_then_nothing_new(current: Seq<EntryView>)
    ensures
        distinct_first(current.filter(|e: EntryView| !current.contains(e))) == Seq::<EntryView>::empty(),
{
    let pred = |e: EntryView| !current.contains(e);
    lemma_filter_none(current, current, pred);
}

/// An entry added after the baseline was taken is detected, and it alone.
pub proof fn lemma_added_entry_detected(base: Seq<EntryView>, x: EntryView)
    requires
        !base.contains(x),
    ensures
        distinct_first(base.push(x).filter(|e: EntryView| !base.contains(e))) == seq![x],
{
    let pred = |e: EntryView| !base.contains(e);
    lemma_filter_none(base, base, pred);
    base.lemma_filter_push(x, pred);
    assert(base.push(x).filter(pred) =~= seq![x]);
    assert(seq![x].drop_last() =~= Seq::<EntryView>::empty());
    reveal_with_fuel(distinct_first, 2);
}

/// Nothing of a part of `whole` survives a filter that rejects whatever
/// `whole` contains.
proof fn lemma_filter_none(s: Seq<EntryView>, whole: Seq<EntryView>, pred: spec_fn(EntryView) -> bool)
    requires
        forall|i: int| 0 <= i < s.len() ==> whole.contains(#[trigger] s[i]),
        forall|e: EntryView| #[trigger] pred(e) == !whole.contains(e),
    ensures
        s.filter(pred) == Seq::<EntryView>::empty(),
    decreases s.len(),
{
    reveal(Seq::filter);
    if s.len() > 0 {
        lemma_filter_none(s.drop_last(), whole, pred);
        assert(whole.contains(s[s.len() - 1]));
        assert(s.filter(pred) =~= Seq::<EntryView>::empty());
    }
}

/// A filter that keeps everything changes nothing.
pub proof fn lemma_filter_all<A>(s: Seq<A>, pred: spec_fn(A) -> bool)
    requires
        forall|x: A| #[trigger] pred(x),
    ensures
        s.filter(pred) == s,
    decreases s.len(),
{
    reveal(Seq::filter);
    if s.len() > 0 {
        lemma_filter_all(s.drop_last(), pred);
        assert(s.drop_last().push(s.last()) =~= s);
    }
}

} // verus!
