//! Live process monitor — the parsing and selection behind a `/proc` scan.
//!
//! The caller reads the files of `/proc/<pid>`; this module turns their
//! contents into process snapshots and selects among them.

use vstd::prelude::*;
use crate::clock::Timestamp;
use crate::keyed::{first_index, lemma_first_index, lemma_filter_take_zero};
use crate::paths::{joined_path, path_join};
use crate::ranking::{Scored, scores_nonincreasing, sort_desc, lemma_map_same_multiset};
use crate::text::{
    seq_starts_with, seq_contains_str, starts_with, contains, split_lines, text_lines, trim, trim_str,
    first_word, first_word_str, trim_start, word_len, join, join_strings, texts, lowercase_of, to_lowercase,
    decimal, digit_char, u64_to_decimal,
};

verus! {

/// A snapshot of a running process (its CPU share, which takes two
/// samples, is left to the caller).
#[derive(Debug, Clone)]
pub struct ProcessSnapshot {
    pub pid: u32,
    pub name: String,
    pub cmdline: String,
    pub user: String,
    pub mem_rss_kb: u64,
    pub open_files: u32,
    pub network_connections: u32,
    pub started_at: Timestamp,
}

/// A process snapshot as plain data.
pub struct SnapshotView {
    pub pid: u32,
    pub name: Seq<char>,
    pub cmdline: Seq<char>,
    pub user: Seq<char>,
    pub mem_rss_kb: u64,
    pub open_files: u32,
    pub network_connections: u32,
    pub started_at: Timestamp,
}

impl View for ProcessSnapshot {
    type V = SnapshotView;

    open spec fn view(&self) -> SnapshotView {
        SnapshotView {
            pid: self.pid,
            name: self.name@,
            cmdline: self.cmdline@,
            user: self.user@,
            mem_rss_kb: self.mem_rss_kb,
            open_files: self.open_files,
            network_connections: self.network_connections,
            started_at: self.started_at,
        }
    }
}

/// The views of a list of snapshots.
pub open spec fn snapshot_views(s: Seq<ProcessSnapshot>) -> Seq<SnapshotView> {
    s.map_values(|p: ProcessSnapshot| p@)
}

impl Scored for ProcessSnapshot {
    open spec fn score(&self) -> int {
        self.mem_rss_kb as int
    }

    fn score_value(&self) -> (v: u64) {
        self.mem_rss_kb
    }
}

// ── numbers ────────────────────────────────────────────────────────

/// Every character of `s` is an ASCII digit.
pub open spec fn all_digits(s: Seq<char>) -> bool {
    forall|i: int| 0 <= i < s.len() ==> '0' <= #[trigger] s[i] <= '9'
}

/// The value of a string of decimal digits.
pub open spec fn digits_value(s: Seq<char>) -> int
    decreases s.len(),
{
    if s.len() == 0 {
        0
    } else {
        digits_value(s.drop_last()) * 10 + (s.last() as int - '0' as int)
    }
}

/// The number that `str::parse` reads from `s` for an unsigned type whose
/// largest value is `max`: an optional `+`, then at least one digit, and
/// no more than `max`.
pub open spec fn parsed_unsigned(s: Seq<char>, max: int) -> Option<int> {
    let d = if s.len() > 0 && s[0] == '+' {
        s.drop_first()
    } else {
        s
    };
    if d.len() > 0 && all_digits(d) && digits_value(d) <= max {
        Some(digits_value(d))
    } else {
        None
    }
}

proof fn lemma_digits_value_nonneg(s: Seq<char>)
    requires
        all_digits(s),
    ensures
        digits_value(s) >= 0,
    decreases s.len(),
{
    if s.len() > 0 {
        assert(all_digits(s.drop_last())) by {
            assert forall|i: int| 0 <= i < s.drop_last().len() implies '0' <= #[trigger] s.drop_last()[i] <= '9' by {
                assert(s.drop_last()[i] == s[i]);
            }
        }
        lemma_digits_value_nonneg(s.drop_last());
    }
}

proof fn lemma_digit_char(d: nat)
    requires
        d < 10,
    ensures
        '0' <= digit_char(d) <= '9',
        digit_char(d) as int - '0' as int == d,
{
}

/// The digits of a number read back as the number.
pub proof fn lemma_decimal_digits(n: nat)
    ensures
        all_digits(decimal(n)),
        digits_value(decimal(n)) == n,
        decimal(n).len() > 0,
        decimal(n)[0] != '+',
    decreases n,
{
    if n < 10 {
        lemma_digit_char(n);
        assert(decimal(n).drop_last() =~= Seq::<char>::empty());
        assert(decimal(n).last() == digit_char(n));
        assert(digits_value(Seq::<char>::empty()) == 0);
        assert(digits_value(decimal(n)) == digits_value(decimal(n).drop_last()) * 10 + (decimal(n).last() as int
            - '0' as int));
    } else {
        lemma_decimal_digits(n / 10);
        lemma_digit_char(n % 10);
        let d = decimal(n);
        assert(d.drop_last() == decimal(n / 10));
        assert forall|i: int| 0 <= i < d.len() implies '0' <= #[trigger] d[i] <= '9' by {
            if i < d.len() - 1 {
                assert(d[i] == decimal(n / 10)[i]);
            }
        }
        assert(d[0] == decimal(n / 10)[0]);
        assert(d.last() == digit_char(n % 10));
        assert(digits_value(d) == digits_value(d.drop_last()) * 10 + (d.last() as int - '0' as int));
        assert(n == (n / 10) * 10 + n % 10);
    }
}

/// Parsing the decimal rendering of a number gives the number back.
pub proof fn lemma_parse_decimal(n: nat, max: int)
    requires
        n <= max,
    ensures
        parsed_unsigned(decimal(n), max) == Some(n as int),
{
    lemma_decimal_digits(n);
}

/// Parse an unsigned decimal number no larger than `max`.
pub fn parse_unsigned(s: &str, max: u64) -> (r: Option<u64>)
    ensures
        match r {
            Some(v) => parsed_unsigned(s@, max as int) == Some(v as int),
            None => parsed_unsigned(s@, max as int) is None,
        },
{
    let n = s.unicode_len();
    let start: usize = if n > 0 && s.get_char(0) == '+' {
        1
    } else {
        0
    };
    let ghost d = if s@.len() > 0 && s@[0] == '+' {
        s@.drop_first()
    } else {
        s@
    };
    assert(d =~= s@.subrange(start as int, n as int));
    if start >= n {
        assert(d.len() == 0);
        return None;
    }
    let mut value: u64 = 0;
    let mut i: usize = start;
    assert(d.take(0) =~= Seq::<char>::empty());
    while i < n
        invariant
            n == s@.len(),
            start <= i <= n,
            d == s@.subrange(start as int, n as int),
            d.len() > 0,
            all_digits(d.take(i - start)),
            value as int == digits_value(d.take(i - start)),
            value <= max,
            d == (if s@.len() > 0 && s@[0] == '+' {
                s@.drop_first()
            } else {
                s@
            }),
        decreases n - i,
    {
        let c = s.get_char(i);
        let ghost k = i - start;
        assert(d.take(k + 1).drop_last() =~= d.take(k));
        assert(d[k] == c);
        if c < '0' || c > '9' {
            assert(!all_digits(d)) by {
                assert(d[k] == c);
            }
            assert(parsed_unsigned(s@, max as int) is None);
            return None;
        }
        let digit: u64 = (c as u32 - '0' as u32) as u64;
        proof {
            assert forall|j: int| 0 <= j < d.take(k + 1).len() implies '0' <= #[trigger] d.take(k + 1)[j] <= '9' by {
                if j < k {
                    assert(d.take(k + 1)[j] == d.take(k)[j]);
                }
            }
            assert(d.take(k + 1).last() == c);
            assert(digits_value(d.take(k + 1)) == value * 10 + digit);
        }
        if digit > max || value > (max - digit) / 10 {
            proof {
                assert(value * 10 + digit > max) by (nonlinear_arith)
                    requires
                        digit > max || value > (max - digit) / 10,
                ;
                lemma_digits_prefix_grows(d, k + 1);
                assert(parsed_unsigned(s@, max as int) is None);
            }
            return None;
        }
        assert(value * 10 + digit <= max) by (nonlinear_arith)
            requires
                digit <= max,
                value <= (max - digit) / 10,
        ;
        value = value * 10 + digit;
        i = i + 1;
    }
    assert(d.take(n - start) =~= d);
    Some(value)
}

/// The value of a string of digits is at least that of any prefix.
proof fn lemma_digits_prefix_grows(d: Seq<char>, k: int)
    requires
        0 <= k <= d.len(),
        all_digits(d.take(k)),
    ensures
        all_digits(d) ==> digits_value(d) >= digits_value(d.take(k)),
    decreases d.len() - k,
{
    if k < d.len() && all_digits(d) {
        assert(all_digits(d.take(k + 1))) by {
            assert forall|j: int| 0 <= j < d.take(k + 1).len() implies '0' <= #[trigger] d.take(k + 1)[j] <= '9' by {
                assert(d.take(k + 1)[j] == d[j]);
            }
        }
        lemma_digits_prefix_grows(d, k + 1);
        assert(d.take(k + 1).drop_last() =~= d.take(k));
        lemma_digits_value_nonneg(d.take(k));
    } else if k == d.len() {
        assert(d.take(k) =~= d);
    }
}

// ── file contents ──────────────────────────────────────────────────

/// The second white-space-separated word of `s`, if any.
pub open spec fn second_word(s: Seq<char>) -> Option<Seq<char>> {
    let t = trim_start(s);
    let rest = t.skip(word_len(t) as int);
    let w = first_word(rest);
    if w.len() > 0 {
        Some(w)
    } else {
        None
    }
}

/// A line of `/proc/<pid>/status` that gives the resident set size.
pub open spec fn rss_line() -> spec_fn(Seq<char>) -> bool {
    |l: Seq<char>| seq_starts_with(l, "VmRSS:"@)
}

/// The resident set size in kilobytes that a `status` file gives: the
/// number after `VmRSS:` on the first such line, or 0.
pub open spec fn status_rss(status: Seq<char>) -> int {
    let ls = text_lines(status);
    let k = first_index(ls, rss_line());
    if k < 0 {
        0
    } else {
        match second_word(ls[k]) {
            Some(w) => match parsed_unsigned(w, u64::MAX as int) {
                Some(v) => v,
                None => 0,
            },
            None => 0,
        }
    }
}

fn second_word_str(s: &str) -> (r: Option<&str>)
    ensures
        match r {
            Some(w) => second_word(s@) == Some(w@),
            None => second_word(s@) is None,
        },
{
    let first = first_word_str(s);
    let t = crate::text::trim_start_str(s);
    let n = t.unicode_len();
    let k = first.unicode_len();
    proof {
        assert(first@ == trim_start(s@).take(word_len(trim_start(s@)) as int));
    }
    proof {
        crate::text::lemma_word_len_bound(trim_start(s@));
    }
    let rest = t.substring_char(k, n);
    assert(rest@ =~= trim_start(s@).skip(word_len(trim_start(s@)) as int));
    let w = first_word_str(rest);
    if w.unicode_len() > 0 {
        Some(w)
    } else {
        None
    }
}

/// The resident set size in kilobytes that a `status` file gives.
pub fn parse_status_rss(status: &str) -> (r: u64)
    ensures
        r == status_rss(status@),
{
    let lines = split_lines(status);
    let ghost ls = text_lines(status@);
    let mut k: usize = 0;
    while k < lines.len()
        invariant
            k <= lines@.len(),
            lines@.map_values(|x: String| x@) == ls,
            ls == text_lines(status@),
            forall|j: int| 0 <= j < k ==> !rss_line()(#[trigger] ls[j]),
        decreases lines@.len() - k,
    {
        assert(ls[k as int] == lines@[k as int]@);
        if starts_with(lines[k].as_str(), "VmRSS:") {
            proof {
                lemma_first_index(ls, rss_line(), k as int);
            }
            let line = lines[k].as_str();
            assert(line@ == ls[k as int]);
            let r: u64 = match second_word_str(line) {
                Some(w) => {
                    assert(second_word(ls[k as int]) == Some(w@));
                    match parse_unsigned(w, u64::MAX) {
                        Some(v) => {
                            assert(parsed_unsigned(w@, u64::MAX as int) == Some(v as int));
                            v
                        },
                        None => 0,
                    }
                },
                None => 0,
            };
            assert(first_index(ls, rss_line()) == k);
            assert(r == status_rss(status@));
            return r;
        }
        k = k + 1;
    }
    proof {
        lemma_first_index(ls, rss_line(), k as int);
    }
    0
}

/// A line with something besides white space.
pub open spec fn not_blank() -> spec_fn(Seq<char>) -> bool {
    |l: Seq<char>| trim(l).len() > 0
}

/// The number of connections that a `net/tcp` file lists: its non-blank
/// lines after the header.
pub open spec fn net_entry_count(text: Seq<char>) -> int {
    let ls = text_lines(text);
    let body = if ls.len() > 0 {
        ls.drop_first()
    } else {
        ls
    };
    body.filter(not_blank()).len() as int
}

/// Count the connections that a `net/tcp` file lists.
pub fn count_net_entries(text: &str) -> (r: u32)
    ensures
        r == net_entry_count(text@) as u32,
{
    let lines = split_lines(text);
    let ghost ls = text_lines(text@);
    let ghost body = if ls.len() > 0 {
        ls.drop_first()
    } else {
        ls
    };
    let mut count: usize = 0;
    let mut k: usize = 1;
    proof {
        lemma_filter_take_zero(body, not_blank());
    }
    if lines.len() == 0 {
        assert(body.len() == 0);
        assert(body.filter(not_blank()) =~= body.take(0).filter(not_blank())) by {
            assert(body.take(0) =~= body);
        }
        return 0;
    }
    while k < lines.len()
        invariant
            1 <= k <= lines@.len(),
            lines@.map_values(|x: String| x@) == ls,
            ls.len() > 0,
            body == ls.drop_first(),
            count == body.take(k - 1).filter(not_blank()).len(),
            count <= k - 1,
        decreases lines@.len() - k,
    {
        let ghost t = body.take(k - 1);
        proof {
            assert(body.take(k as int) =~= t.push(ls[k as int]));
            t.lemma_filter_push(ls[k as int], not_blank());
            assert(ls[k as int] == lines@[k as int]@);
        }
        let l = trim_str(lines[k].as_str());
        if l.unicode_len() > 0 {
            count = count + 1;
        }
        k = k + 1;
    }
    assert(body.take(lines@.len() - 1) =~= body);
    count as u32
}

/// The pieces found so far, and the piece in progress, after splitting
/// `b` at every zero byte.
pub open spec fn nul_split_state(b: Seq<u8>) -> (Seq<Seq<u8>>, Seq<u8>)
    decreases b.len(),
{
    if b.len() == 0 {
        (Seq::empty(), Seq::empty())
    } else {
        let (ps, cur) = nul_split_state(b.drop_last());
        if b.last() == 0 {
            (ps.push(cur), Seq::empty())
        } else {
            (ps, cur.push(b.last()))
        }
    }
}

/// The pieces of `b` between zero bytes (as `split` on a byte slice
/// yields them).
pub open spec fn nul_pieces(b: Seq<u8>) -> Seq<Seq<u8>> {
    let (ps, cur) = nul_split_state(b);
    ps.push(cur)
}

/// The text of bytes decoded as UTF-8, each invalid sequence replaced by
/// U+FFFD, as `String::from_utf8_lossy` decodes it.
pub uninterp spec fn utf8_lossy(bytes: Seq<u8>) -> Seq<char>;

/// Calls `String::from_utf8_lossy`. Its result is named by `utf8_lossy`:
/// the decoding and the replacement of invalid sequences are std's and are
/// not restated.
#[verifier::external_body]
fn decode_lossy(bytes: &[u8]) -> (r: String)
    ensures
        r@ == utf8_lossy(bytes@),
{
    String::from_utf8_lossy(bytes).into_owned()
}

/// The command line that `/proc/<pid>/cmdline` holds: its zero-separated
/// arguments decoded, joined with spaces, and trimmed.
pub open spec fn cmdline_text(b: Seq<u8>) -> Seq<char> {
    trim(join(nul_pieces(b).map_values(|p: Seq<u8>| utf8_lossy(p)), " "@))
}

/// The command line that the bytes of a `cmdline` file give.
pub fn cmdline_from_bytes(bytes: &[u8]) -> (r: String)
    ensures
        r@ == cmdline_text(bytes@),
{
    let n = bytes.len();
    let mut parts: Vec<String> = Vec::new();
    let mut start: usize = 0;
    let mut i: usize = 0;
    let ghost f = |p: Seq<u8>| utf8_lossy(p);
    assert(bytes@.take(0) =~= Seq::<u8>::empty());
    while i < n
        invariant
            n == bytes@.len(),
            start <= i <= n,
            f == (|p: Seq<u8>| utf8_lossy(p)),
            texts(parts@) == nul_split_state(bytes@.take(i as int)).0.map_values(f),
            bytes@.subrange(start as int, i as int) == nul_split_state(bytes@.take(i as int)).1,
        decreases n - i,
    {
        let b = bytes[i];
        proof {
            assert(bytes@.take(i + 1).drop_last() =~= bytes@.take(i as int));
            assert(bytes@.take(i + 1).last() == b);
        }
        if b == 0 {
            let piece = decode_lossy(slice_range(bytes, start, i));
            let ghost before = texts(parts@);
            parts.push(piece);
            proof {
                assert(texts(parts@) =~= before.push(utf8_lossy(bytes@.subrange(start as int, i as int))));
                assert(bytes@.subrange((i + 1) as int, (i + 1) as int) =~= Seq::<u8>::empty());
            }
            start = i + 1;
        } else {
            assert(bytes@.subrange(start as int, i + 1) =~= bytes@.subrange(start as int, i as int).push(b));
        }
        i = i + 1;
    }
    assert(bytes@.take(n as int) =~= bytes@);
    let last = decode_lossy(slice_range(bytes, start, n));
    let ghost before = texts(parts@);
    parts.push(last);
    assert(texts(parts@) =~= before.push(utf8_lossy(bytes@.subrange(start as int, n as int))));
    assert(texts(parts@) =~= nul_pieces(bytes@).map_values(f));
    let joined = join_strings(&parts, " ");
    let t = trim_str(joined.as_str());
    String::from_str(t)
}

fn slice_range(bytes: &[u8], from: usize, to: usize) -> (r: &[u8])
    requires
        from <= to <= bytes@.len(),
    ensures
        r@ == bytes@.subrange(from as int, to as int),
{
    let mut v = vstd::slice::slice_subrange(bytes, from, to);
    v
}

/// A trimmed text read from a file, or `default` where there is none.
pub open spec fn trimmed_or(contents: Option<Seq<char>>, default: Seq<char>) -> Seq<char> {
    match contents {
        Some(c) => trim(c),
        None => default,
    }
}

/// The characters of an optional text.
pub open spec fn opt_chars(s: Option<&str>) -> Option<Seq<char>> {
    match s {
        Some(t) => Some(t@),
        None => None,
    }
}

fn trimmed_or_default(contents: Option<&str>, default: &str) -> (r: String)
    ensures
        r@ == trimmed_or(opt_chars(contents), default@),
{
    match contents {
        Some(c) => String::from_str(trim_str(c)),
        None => String::from_str(default),
    }
}

/// What was read of `/proc/<pid>`: each file's contents, `None` where it
/// could not be read, and the number of entries of its `fd` directory.
pub struct ProcFiles<'a> {
    pub comm: Option<&'a str>,
    pub cmdline: Option<&'a [u8]>,
    pub loginuid: Option<&'a str>,
    pub status: Option<&'a str>,
    pub fd_count: Option<usize>,
    pub tcp: Option<&'a str>,
    pub tcp6: Option<&'a str>,
}

/// The connection count of an optional `net/tcp` file.
pub open spec fn net_count(text: Option<&str>) -> int {
    match text {
        Some(t) => net_entry_count(t@) as u32 as int,
        None => 0,
    }
}

/// The connections of both `net` files can be counted in a `u32`.
pub open spec fn net_counts_fit(files: ProcFiles) -> bool {
    net_count(files.tcp) + net_count(files.tcp6) <= u32::MAX
}

/// The snapshot of process `pid` from what was read of its directory at
/// `now`: none when it has no name.
pub open spec fn snapshot_of(pid: u32, files: ProcFiles, now: Timestamp) -> Option<SnapshotView> {
    let name = trimmed_or(opt_chars(files.comm), Seq::empty());
    if name.len() == 0 {
        None
    } else {
        Some(
            SnapshotView {
                pid,
                name,
                cmdline: match files.cmdline {
                    Some(b) => cmdline_text(b@),
                    None => Seq::empty(),
                },
                user: trimmed_or(opt_chars(files.loginuid), "unknown"@),
                mem_rss_kb: match files.status {
                    Some(s) => status_rss(s@) as u64,
                    None => 0,
                },
                open_files: match files.fd_count {
                    Some(c) => c as u32,
                    None => 0,
                },
                network_connections: (net_count(files.tcp) + net_count(files.tcp6)) as u32,
                started_at: now,
            },
        )
    }
}

/// Build the snapshot of process `pid` from what was read of its
/// directory at `now`.
pub fn snapshot_from(pid: u32, files: &ProcFiles, now: Timestamp) -> (r: Option<ProcessSnapshot>)
    requires
        net_counts_fit(*files),
    ensures
        match r {
            Some(p) => snapshot_of(pid, *files, now) == Some(p@),
            None => snapshot_of(pid, *files, now) is None,
        },
{
    proof {
        reveal_strlit("");
    }
    let name = trimmed_or_default(files.comm, "");
    if name.unicode_len() == 0 {
        return None;
    }
    let cmdline = match files.cmdline {
        Some(b) => cmdline_from_bytes(b),
        None => String::new(),
    };
    let user = trimmed_or_default(files.loginuid, "unknown");
    let mem_rss_kb = match files.status {
        Some(s) => parse_status_rss(s),
        None => 0,
    };
    let open_files: u32 = match files.fd_count {
        Some(c) => c as u32,
        None => 0,
    };
    let tcp: u32 = match files.tcp {
        Some(t) => count_net_entries(t),
        None => 0,
    };
    let tcp6: u32 = match files.tcp6 {
        Some(t) => count_net_entries(t),
        None => 0,
    };
    let r = ProcessSnapshot {
        pid,
        name,
        cmdline,
        user,
        mem_rss_kb,
        open_files,
        network_connections: tcp + tcp6,
        started_at: now,
    };
    assert(r@.pid == pid);
    assert(r@.name == trimmed_or(opt_chars(files.comm), Seq::empty()));
    assert(r@.user == trimmed_or(opt_chars(files.loginuid), "unknown"@));
    assert(r@.open_files == (match files.fd_count {
        Some(c) => c as u32,
        None => 0u32,
    }));
    assert(tcp as int == net_count(files.tcp));
    assert(tcp6 as int == net_count(files.tcp6));
    assert(r@.cmdline == (match files.cmdline {
        Some(b) => cmdline_text(b@),
        None => Seq::<char>::empty(),
    }));
    assert(r@.mem_rss_kb == (match files.status {
        Some(s) => status_rss(s@) as u64,
        None => 0u64,
    }));
    Some(r)
}

/// The number that a `/proc` entry's name gives, where it names a process.
pub fn pid_of_entry(name: &str) -> (r: Option<u32>)
    ensures
        match r {
            Some(p) => parsed_unsigned(name@, u32::MAX as int) == Some(p as int),
            None => parsed_unsigned(name@, u32::MAX as int) is None,
        },
{
    match parse_unsigned(name, u32::MAX as u64) {
        Some(v) => Some(v as u32),
        None => None,
    }
}

// ── selection ──────────────────────────────────────────────────────

/// A process whose lower-case name contains that of `needle`.
pub open spec fn name_matches(needle: Seq<char>) -> spec_fn(SnapshotView) -> bool {
    |p: SnapshotView| seq_contains_str(lowercase_of(p.name), lowercase_of(needle))
}

/// A process using more than `threshold_kb` kilobytes of memory.
pub open spec fn uses_more_than(threshold_kb: int) -> spec_fn(SnapshotView) -> bool {
    |p: SnapshotView| p.mem_rss_kb > threshold_kb
}

/// A process with a network connection.
pub open spec fn on_network() -> spec_fn(SnapshotView) -> bool {
    |p: SnapshotView| p.network_connections > 0
}

/// The first word of the command line starts with a directory often used
/// by malware (`/tmp`, `/var/tmp`, `/dev/shm`, `/dev/mqueue`, `/run/user`).
pub open spec fn from_suspicious_place() -> spec_fn(SnapshotView) -> bool {
    |p: SnapshotView| {
        let exe = first_word(p.cmdline);
        ||| seq_starts_with(exe, "/tmp"@)
        ||| seq_starts_with(exe, "/var/tmp"@)
        ||| seq_starts_with(exe, "/dev/shm"@)
        ||| seq_starts_with(exe, "/dev/mqueue"@)
        ||| seq_starts_with(exe, "/run/user"@)
    }
}

enum Query {
    Name(String),
    Memory(u64),
    Network,
    Suspicious,
}

spec fn query_pred(q: Query) -> spec_fn(SnapshotView) -> bool {
    match q {
        Query::Name(n) => |p: SnapshotView| seq_contains_str(lowercase_of(p.name), n@),
        Query::Memory(t) => uses_more_than(t as int),
        Query::Network => on_network(),
        Query::Suspicious => from_suspicious_place(),
    }
}

fn query_matches(p: &ProcessSnapshot, q: &Query) -> (r: bool)
    ensures
        r == query_pred(*q)(p@),
{
    match q {
        Query::Name(n) => {
            let l = to_lowercase(p.name.as_str());
            contains(l.as_str(), n.as_str())
        },
        Query::Memory(t) => p.mem_rss_kb > *t,
        Query::Network => p.network_connections > 0,
        Query::Suspicious => {
            let exe = first_word_str(p.cmdline.as_str());
            starts_with(exe, "/tmp") || starts_with(exe, "/var/tmp") || starts_with(exe, "/dev/shm")
                || starts_with(exe, "/dev/mqueue") || starts_with(exe, "/run/user")
        },
    }
}

fn copy_snapshot(p: &ProcessSnapshot) -> (r: ProcessSnapshot)
    ensures
        r@ == p@,
{
    ProcessSnapshot {
        pid: p.pid,
        name: p.name.clone(),
        cmdline: p.cmdline.clone(),
        user: p.user.clone(),
        mem_rss_kb: p.mem_rss_kb,
        open_files: p.open_files,
        network_connections: p.network_connections,
        started_at: p.started_at,
    }
}

fn select(procs: &Vec<ProcessSnapshot>, q: &Query) -> (r: Vec<ProcessSnapshot>)
    ensures
        snapshot_views(r@) == snapshot_views(procs@).filter(query_pred(*q)),
{
    let ghost s = snapshot_views(procs@);
    let ghost p = query_pred(*q);
    let mut r: Vec<ProcessSnapshot> = Vec::new();
    let mut i: usize = 0;
    proof {
        lemma_filter_take_zero(s, p);
        assert(snapshot_views(r@) =~= Seq::<SnapshotView>::empty());
    }
    while i < procs.len()
        invariant
            i <= procs@.len(),
            s == snapshot_views(procs@),
            p == query_pred(*q),
            snapshot_views(r@) == s.take(i as int).filter(p),
        decreases procs@.len() - i,
    {
        let x = &procs[i];
        proof {
            assert(s.take(i + 1) =~= s.take(i as int).push(x@));
            s.take(i as int).lemma_filter_push(x@, p);
        }
        if query_matches(x, q) {
            let ghost before = snapshot_views(r@);
            r.push(copy_snapshot(x));
            assert(snapshot_views(r@) =~= before.push(x@));
        }
        i = i + 1;
    }
    assert(s.take(procs@.len() as int) =~= s);
    r
}

/// Scans `/proc` (or a directory laid out like it).
pub struct ProcessMonitor {
    proc_root: String,
}

impl ProcessMonitor {
    /// A monitor of the real `/proc`.
    pub fn new() -> (r: Self)
        ensures
            r.root() == "/proc"@,
    {
        Self { proc_root: String::from_str("/proc") }
    }

    /// A monitor of a directory laid out like `/proc`.
    pub fn with_root(root: &str) -> (r: Self)
        ensures
            r.root() == root@,
    {
        Self { proc_root: String::from_str(root) }
    }

    /// The directory scanned.
    pub closed spec fn root(&self) -> Seq<char> {
        self.proc_root@
    }

    /// The directory scanned.
    pub fn proc_root(&self) -> (r: &str)
        ensures
            r@ == self.root(),
    {
        self.proc_root.as_str()
    }

    /// The processes whose name contains `needle`, ignoring case, in scan
    /// order.
    pub fn find_by_name(&self, procs: Vec<ProcessSnapshot>, needle: &str) -> (r: Vec<ProcessSnapshot>)
        ensures
            snapshot_views(r@) == snapshot_views(procs@).filter(name_matches(needle@)),
    {
        let lowered = to_lowercase(needle);
        let q = Query::Name(lowered);
        let r = select(&procs, &q);
        assert(query_pred(q) =~= name_matches(needle@));
        r
    }

    /// The processes using more than `threshold_mb` megabytes of memory,
    /// most memory first.
    pub fn resource_hogs(&self, procs: Vec<ProcessSnapshot>, threshold_mb: u64) -> (r: Vec<ProcessSnapshot>)
        requires
            threshold_mb * 1024 <= u64::MAX,
        ensures
            snapshot_views(r@).to_multiset() == snapshot_views(procs@).filter(
                uses_more_than(threshold_mb * 1024),
            ).to_multiset(),
            scores_nonincreasing(r@),
    {
        let threshold_kb = threshold_mb * 1024;
        let q = Query::Memory(threshold_kb);
        let hogs = select(&procs, &q);
        let ghost h = hogs@;
        let r = sort_desc(hogs);
        proof {
            lemma_map_same_multiset(r@, h, |p: ProcessSnapshot| p@);
        }
        r
    }

    /// The processes with a network connection, in scan order.
    pub fn network_active(&self, procs: Vec<ProcessSnapshot>) -> (r: Vec<ProcessSnapshot>)
        ensures
            snapshot_views(r@) == snapshot_views(procs@).filter(on_network()),
    {
        select(&procs, &Query::Network)
    }

    /// The processes started from a directory often used by malware, in
    /// scan order.
    pub fn suspicious_processes(&self, procs: Vec<ProcessSnapshot>) -> (r: Vec<ProcessSnapshot>)
        ensures
            snapshot_views(r@) == snapshot_views(procs@).filter(from_suspicious_place()),
    {
        select(&procs, &Query::Suspicious)
    }

    /// The directory of process `pid`.
    pub fn process_dir(&self, pid: u32) -> (r: String)
        ensures
            r@ == joined_path(self.root(), decimal(pid as nat)),
    {
        let p = u64_to_decimal(pid as u64);
        path_join(self.proc_root.as_str(), p.as_str())
    }
}

impl Default for ProcessMonitor {
    fn default() -> (r: Self)
        ensures
            r.root() == "/proc"@,
    {
        Self::new()
    }
}

} // verus!
