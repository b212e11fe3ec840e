//! Character-level string operations with exact specifications.
//!
//! Every function here works on the `Seq<char>` view of its arguments, so
//! the contracts of the rest of the library can speak about prefixes,
//! suffixes, substrings and decimal renderings without leaving the
//! mathematical model.

use vstd::prelude::*;

verus! {

/// `s` begins with `p`.
pub open spec fn seq_starts_with(s: Seq<char>, p: Seq<char>) -> bool {
    p.len() <= s.len() && s.subrange(0, p.len() as int) == p
}

/// `s` ends with `p`.
pub open spec fn seq_ends_with(s: Seq<char>, p: Seq<char>) -> bool {
    p.len() <= s.len() && s.subrange(s.len() - p.len(), s.len() as int) == p
}

/// `n` occurs in `s` starting at index `i`.
pub open spec fn occurs_at(s: Seq<char>, n: Seq<char>, i: int) -> bool {
    0 <= i && i + n.len() <= s.len() && s.subrange(i, i + n.len()) == n
}

/// `n` occurs somewhere in `s` (the empty needle occurs everywhere).
pub open spec fn seq_contains_str(s: Seq<char>, n: Seq<char>) -> bool {
    exists|i: int| occurs_at(s, n, i)
}

/// Character equality of two strings.
pub fn str_eq(a: &str, b: &str) -> (r: bool)
    ensures
        r == (a@ == b@),
{
    let la = a.unicode_len();
    let lb = b.unicode_len();
    if la != lb {
        return false;
    }
    let mut i: usize = 0;
    while i < la
        invariant
            la == a@.len(),
            lb == b@.len(),
            la == lb,
            i <= la,
            forall|j: int| 0 <= j < i ==> a@[j] == b@[j],
        decreases la - i,
    {
        if a.get_char(i) != b.get_char(i) {
            return false;
        }
        i = i + 1;
    }
    assert(a@ =~= b@);
    true
}

/// Does `n` occur in `s` at character index `i`?
pub fn occurs_at_exec(s: &str, n: &str, i: usize) -> (r: bool)
    ensures
        r == occurs_at(s@, n@, i as int),
{
    let ls = s.unicode_len();
    let ln = n.unicode_len();
    if i > ls || ln > ls - i {
        return false;
    }
    let mut k: usize = 0;
    while k < ln
        invariant
            ls == s@.len(),
            ln == n@.len(),
            i + ln <= ls,
            k <= ln,
            forall|j: int| 0 <= j < k ==> s@[i + j] == n@[j],
        decreases ln - k,
    {
        if s.get_char(i + k) != n.get_char(k) {
            assert(s@.subrange(i as int, i + ln)[k as int] != n@[k as int]);
            return false;
        }
        k = k + 1;
    }
    assert(s@.subrange(i as int, i + ln) =~= n@);
    true
}

/// `s` begins with `p`.
pub fn starts_with(s: &str, p: &str) -> (r: bool)
    ensures
        r == seq_starts_with(s@, p@),
{
    occurs_at_exec(s, p, 0)
}

/// `s` ends with `p`.
pub fn ends_with(s: &str, p: &str) -> (r: bool)
    ensures
        r == seq_ends_with(s@, p@),
{
    let ls = s.unicode_len();
    let lp = p.unicode_len();
    if lp > ls {
        return false;
    }
    occurs_at_exec(s, p, ls - lp)
}

/// `n` occurs somewhere in `s`.
pub fn contains(s: &str, n: &str) -> (r: bool)
    ensures
        r == seq_contains_str(s@, n@),
{
    let ls = s.unicode_len();
    let ln = n.unicode_len();
    if ln > ls {
        assert forall|i: int| !occurs_at(s@, n@, i) by {}
        return false;
    }
    let last = ls - ln;
    let mut i: usize = 0;
    loop
        invariant
            ls == s@.len(),
            ln == n@.len(),
            ln <= ls,
            last == ls - ln,
            i <= last,
            forall|k: int| 0 <= k < i ==> !occurs_at(s@, n@, k),
        ensures
            forall|k: int| 0 <= k <= last ==> !occurs_at(s@, n@, k),
        decreases last - i,
    {
        if occurs_at_exec(s, n, i) {
            return true;
        }
        if i == last {
            break;
        }
        i = i + 1;
    }
    assert forall|k: int| !occurs_at(s@, n@, k) by {
        if 0 <= k && k <= last {
        }
    }
    false
}

/// The character of a decimal digit.
pub open spec fn digit_char(d: nat) -> char {
    if d == 0 { '0' }
    else if d == 1 { '1' }
    else if d == 2 { '2' }
    else if d == 3 { '3' }
    else if d == 4 { '4' }
    else if d == 5 { '5' }
    else if d == 6 { '6' }
    else if d == 7 { '7' }
    else if d == 8 { '8' }
    else { '9' }
}

/// The decimal rendering of a natural number, without sign or padding.
pub open spec fn decimal(n: nat) -> Seq<char>
    decreases n,
{
    if n < 10 {
        seq![digit_char(n)]
    } else {
        decimal(n / 10).push(digit_char(n % 10))
    }
}

/// The decimal rendering of an integer, with a leading `-` when negative.
pub open spec fn signed_decimal(n: int) -> Seq<char> {
    if n < 0 {
        seq!['-'] + decimal((-n) as nat)
    } else {
        decimal(n as nat)
    }
}

fn digit_str(d: u64) -> (r: &'static str)
    requires
        d < 10,
    ensures
        r@ == seq![digit_char(d as nat)],
{
    proof {
        reveal_strlit("0");
        reveal_strlit("1");
        reveal_strlit("2");
        reveal_strlit("3");
        reveal_strlit("4");
        reveal_strlit("5");
        reveal_strlit("6");
        reveal_strlit("7");
        reveal_strlit("8");
        reveal_strlit("9");
    }
    let r = if d == 0 { "0" }
    else if d == 1 { "1" }
    else if d == 2 { "2" }
    else if d == 3 { "3" }
    else if d == 4 { "4" }
    else if d == 5 { "5" }
    else if d == 6 { "6" }
    else if d == 7 { "7" }
    else if d == 8 { "8" }
    else { "9" };
    assert(r@ =~= seq![digit_char(d as nat)]);
    r
}

/// The decimal rendering of `n`.
pub fn u64_to_decimal(n: u64) -> (r: String)
    ensures
        r@ == decimal(n as nat),
    decreases n,
{
    if n < 10 {
        String::from_str(digit_str(n))
    } else {
        let mut s = u64_to_decimal(n / 10);
        s.append(digit_str(n % 10));
        s
    }
}

/// The decimal rendering of `n`, with a leading `-` when negative.
pub fn i64_to_decimal(n: i64) -> (r: String)
    ensures
        r@ == signed_decimal(n as int),
{
    if n < 0 {
        let m: u64 = if n == i64::MIN {
            9_223_372_036_854_775_808u64
        } else {
            (-n) as u64
        };
        let mut s = String::from_str("-");
        proof {
            reveal_strlit("-");
        }
        let d = u64_to_decimal(m);
        s.append(d.as_str());
        assert(s@ =~= seq!['-'] + decimal((-n) as nat));
        s
    } else {
        u64_to_decimal(n as u64)
    }
}

/// Concatenation of two strings.
pub fn concat2(a: &str, b: &str) -> (r: String)
    ensures
        r@ == a@ + b@,
{
    let mut s = String::from_str(a);
    s.append(b);
    s
}

/// Concatenation of three strings.
pub fn concat3(a: &str, b: &str, c: &str) -> (r: String)
    ensures
        r@ == a@ + b@ + c@,
{
    let mut s = String::from_str(a);
    s.append(b);
    s.append(c);
    s
}

/// Concatenation of four strings.
pub fn concat4(a: &str, b: &str, c: &str, d: &str) -> (r: String)
    ensures
        r@ == a@ + b@ + c@ + d@,
{
    let mut s = String::from_str(a);
    s.append(b);
    s.append(c);
    s.append(d);
    s
}

/// Concatenation of five strings.
pub fn concat5(a: &str, b: &str, c: &str, d: &str, e: &str) -> (r: String)
    ensures
        r@ == a@ + b@ + c@ + d@ + e@,
{
    let mut s = String::from_str(a);
    s.append(b);
    s.append(c);
    s.append(d);
    s.append(e);
    s
}

/// A copy of a string with the same characters.
pub fn copy_string(s: &String) -> (r: String)
    ensures
        r@ == s@,
{
    s.clone()
}

} // verus!

verus! {

/// Unicode white space (the characters for which `char::is_whitespace`
/// holds).
pub open spec fn is_ws(c: char) -> bool {
    ('\u{9}' <= c <= '\u{d}') || c == ' ' || c == '\u{85}' || c == '\u{a0}' || c == '\u{1680}'
        || ('\u{2000}' <= c <= '\u{200a}') || c == '\u{2028}' || c == '\u{2029}' || c == '\u{202f}'
        || c == '\u{205f}' || c == '\u{3000}'
}

/// Is the character white space?
pub fn char_is_ws(c: char) -> (r: bool)
    ensures
        r == is_ws(c),
{
    ('\u{9}' <= c && c <= '\u{d}') || c == ' ' || c == '\u{85}' || c == '\u{a0}' || c == '\u{1680}'
        || ('\u{2000}' <= c && c <= '\u{200a}') || c == '\u{2028}' || c == '\u{2029}' || c == '\u{202f}'
        || c == '\u{205f}' || c == '\u{3000}'
}

/// The number of white-space characters at the front of `s`.
pub open spec fn lead_ws(s: Seq<char>) -> nat
    decreases s.len(),
{
    if s.len() > 0 && is_ws(s[0]) {
        1 + lead_ws(s.drop_first())
    } else {
        0
    }
}

/// The number of white-space characters at the end of `s`.
pub open spec fn trail_ws(s: Seq<char>) -> nat
    decreases s.len(),
{
    if s.len() > 0 && is_ws(s.last()) {
        1 + trail_ws(s.drop_last())
    } else {
        0
    }
}

/// `s` without leading white space.
pub open spec fn trim_start(s: Seq<char>) -> Seq<char> {
    s.subrange(lead_ws(s) as int, s.len() as int)
}

/// `s` without trailing white space.
pub open spec fn trim_end(s: Seq<char>) -> Seq<char> {
    s.subrange(0, s.len() - trail_ws(s))
}

/// `s` without leading and trailing white space.
pub open spec fn trim(s: Seq<char>) -> Seq<char> {
    trim_end(trim_start(s))
}

proof fn lemma_lead_ws_bound(s: Seq<char>)
    ensures
        lead_ws(s) <= s.len(),
        forall|j: int| 0 <= j < lead_ws(s) ==> is_ws(#[trigger] s[j]),
        lead_ws(s) < s.len() ==> !is_ws(s[lead_ws(s) as int]),
    decreases s.len(),
{
    if s.len() > 0 && is_ws(s[0]) {
        lemma_lead_ws_bound(s.drop_first());
        assert forall|j: int| 0 <= j < lead_ws(s) implies is_ws(#[trigger] s[j]) by {
            if j > 0 {
                assert(s[j] == s.drop_first()[j - 1]);
            }
        }
        if lead_ws(s) < s.len() {
            assert(s[lead_ws(s) as int] == s.drop_first()[lead_ws(s.drop_first()) as int]);
        }
    }
}

proof fn lemma_lead_ws_char(s: Seq<char>, k: nat)
    requires
        k <= s.len(),
        forall|j: int| 0 <= j < k ==> is_ws(#[trigger] s[j]),
        k < s.len() ==> !is_ws(s[k as int]),
    ensures
        lead_ws(s) == k,
    decreases s.len(),
{
    if k > 0 {
        assert(is_ws(s[0]));
        assert forall|j: int| 0 <= j < k - 1 implies is_ws(#[trigger] s.drop_first()[j]) by {
            assert(s.drop_first()[j] == s[j + 1]);
        }
        if k - 1 < s.drop_first().len() {
            assert(s.drop_first()[k - 1] == s[k as int]);
        }
        lemma_lead_ws_char(s.drop_first(), (k - 1) as nat);
    } else if s.len() > 0 {
        assert(!is_ws(s[0]));
    }
}

proof fn lemma_trail_ws_char(s: Seq<char>, k: nat)
    requires
        k <= s.len(),
        forall|j: int| s.len() - k <= j < s.len() ==> is_ws(#[trigger] s[j]),
        k < s.len() ==> !is_ws(s[s.len() - 1 - k]),
    ensures
        trail_ws(s) == k,
    decreases s.len(),
{
    if k > 0 {
        assert(is_ws(s[s.len() - 1]));
        let q = s.drop_last();
        assert forall|j: int| q.len() - (k - 1) <= j < q.len() implies is_ws(#[trigger] q[j]) by {
            assert(q[j] == s[j]);
        }
        if k - 1 < q.len() {
            assert(q[q.len() - 1 - (k - 1)] == s[s.len() - 1 - k]);
        }
        lemma_trail_ws_char(q, (k - 1) as nat);
    } else if s.len() > 0 {
        assert(!is_ws(s[s.len() - 1]));
    }
}

/// `s` without leading and trailing white space.
pub fn trim_str(s: &str) -> (r: &str)
    ensures
        r@ == trim(s@),
{
    let n = s.unicode_len();
    let mut a: usize = 0;
    while a < n && char_is_ws(s.get_char(a))
        invariant
            n == s@.len(),
            a <= n,
            forall|j: int| 0 <= j < a ==> is_ws(#[trigger] s@[j]),
        decreases n - a,
    {
        a = a + 1;
    }
    proof {
        lemma_lead_ws_char(s@, a as nat);
    }
    let ghost t = trim_start(s@);
    let mut b: usize = n;
    while b > a && char_is_ws(s.get_char(b - 1))
        invariant
            n == s@.len(),
            a <= b <= n,
            t == s@.subrange(a as int, n as int),
            forall|j: int| b <= j < n ==> is_ws(#[trigger] s@[j]),
        decreases b - a,
    {
        b = b - 1;
    }
    proof {
        assert forall|j: int| t.len() - (n - b) <= j < t.len() implies is_ws(#[trigger] t[j]) by {
            assert(t[j] == s@[a + j]);
        }
        if n - b < t.len() {
            assert(t[t.len() - 1 - (n - b)] == s@[b - 1]);
        }
        lemma_trail_ws_char(t, (n - b) as nat);
    }
    let r = s.substring_char(a, b);
    assert(r@ =~= trim(s@));
    r
}

/// `s` without leading white space.
pub fn trim_start_str(s: &str) -> (r: &str)
    ensures
        r@ == trim_start(s@),
{
    let n = s.unicode_len();
    let mut a: usize = 0;
    while a < n && char_is_ws(s.get_char(a))
        invariant
            n == s@.len(),
            a <= n,
            forall|j: int| 0 <= j < a ==> is_ws(#[trigger] s@[j]),
        decreases n - a,
    {
        a = a + 1;
    }
    proof {
        lemma_lead_ws_char(s@, a as nat);
    }
    s.substring_char(a, n)
}

/// `cur` without one trailing carriage return.
pub open spec fn strip_cr(cur: Seq<char>) -> Seq<char> {
    if cur.len() > 0 && cur.last() == '\r' {
        cur.drop_last()
    } else {
        cur
    }
}

/// The lines completed so far, and the line in progress, after reading `s`.
pub open spec fn lines_state(s: Seq<char>) -> (Seq<Seq<char>>, Seq<char>)
    decreases s.len(),
{
    if s.len() == 0 {
        (Seq::empty(), Seq::empty())
    } else {
        let (ls, cur) = lines_state(s.drop_last());
        if s.last() == '\n' {
            (ls.push(strip_cr(cur)), Seq::empty())
        } else {
            (ls, cur.push(s.last()))
        }
    }
}

/// The lines of a text, as `str::lines` yields them: split at `\n`, with
/// a `\r` before the `\n` removed, and no empty line after a final `\n`.
pub open spec fn text_lines(s: Seq<char>) -> Seq<Seq<char>> {
    let (ls, cur) = lines_state(s);
    if cur.len() > 0 {
        ls.push(cur)
    } else {
        ls
    }
}

/// The lines of a text.
pub fn split_lines(s: &str) -> (r: Vec<String>)
    ensures
        r@.map_values(|x: String| x@) == text_lines(s@),
{
    let n = s.unicode_len();
    let mut lines: Vec<String> = Vec::new();
    let mut start: usize = 0;
    let mut i: usize = 0;
    assert(s@.take(0) =~= Seq::<char>::empty());
    while i < n
        invariant
            n == s@.len(),
            start <= i <= n,
            lines@.map_values(|x: String| x@) == lines_state(s@.take(i as int)).0,
            s@.subrange(start as int, i as int) == lines_state(s@.take(i as int)).1,
        decreases n - i,
    {
        let c = s.get_char(i);
        proof {
            assert(s@.take(i + 1).drop_last() =~= s@.take(i as int));
            assert(s@.take(i + 1).last() == c);
        }
        if c == '\n' {
            let mut end = i;
            if end > start && s.get_char(end - 1) == '\r' {
                end = end - 1;
            }
            let piece = s.substring_char(start, end);
            let ghost before = lines@.map_values(|x: String| x@);
            lines.push(String::from_str(piece));
            proof {
                let cur = s@.subrange(start as int, i as int);
                assert(piece@ =~= strip_cr(cur));
                assert(lines@.map_values(|x: String| x@) =~= before.push(strip_cr(cur)));
                assert(s@.subrange((i + 1) as int, (i + 1) as int) =~= Seq::<char>::empty());
            }
            start = i + 1;
        } else {
            assert(s@.subrange(start as int, i + 1) =~= s@.subrange(start as int, i as int).push(c));
        }
        i = i + 1;
    }
    assert(s@.take(n as int) =~= s@);
    if start < n {
        let piece = s.substring_char(start, n);
        let ghost before = lines@.map_values(|x: String| x@);
        lines.push(String::from_str(piece));
        assert(lines@.map_values(|x: String| x@) =~= before.push(piece@));
    }
    lines
}

/// The characters of a list of strings.
pub open spec fn texts(v: Seq<String>) -> Seq<Seq<char>> {
    v.map_values(|s: String| s@)
}

/// The strings of `s` joined with `sep` between neighbours.
pub open spec fn join(s: Seq<Seq<char>>, sep: Seq<char>) -> Seq<char>
    decreases s.len(),
{
    if s.len() == 0 {
        Seq::empty()
    } else if s.len() == 1 {
        s[0]
    } else {
        join(s.drop_last(), sep) + sep + s.last()
    }
}

/// Join strings with a separator.
pub fn join_strings(v: &Vec<String>, sep: &str) -> (r: String)
    ensures
        r@ == join(texts(v@), sep@),
{
    let mut out = String::from_str("");
    proof {
        reveal_strlit("");
    }
    let mut i: usize = 0;
    while i < v.len()
        invariant
            i <= v@.len(),
            out@ == join(texts(v@.take(i as int)), sep@),
        decreases v@.len() - i,
    {
        proof {
            assert(texts(v@.take(i + 1)).drop_last() =~= texts(v@.take(i as int)));
            assert(texts(v@.take(i + 1)).last() == v@[i as int]@);
            if i == 0 {
                assert(texts(v@.take(1))[0] == v@[0]@);
            }
        }
        if i > 0 {
            out.append(sep);
        }
        out.append(v[i].as_str());
        i = i + 1;
    }
    assert(v@.take(v@.len() as int) =~= v@);
    out
}


/// The number of characters of `s` before its first white space.
pub open spec fn word_len(s: Seq<char>) -> nat
    decreases s.len(),
{
    if s.len() > 0 && !is_ws(s[0]) {
        1 + word_len(s.drop_first())
    } else {
        0
    }
}

/// The first white-space-separated word of `s` (empty when there is none),
/// as `split_whitespace().next()` finds it.
pub open spec fn first_word(s: Seq<char>) -> Seq<char> {
    let t = trim_start(s);
    t.take(word_len(t) as int)
}

/// Text that neither begins nor ends with white space is its own trim.
pub proof fn lemma_trim_plain(s: Seq<char>)
    requires
        s.len() > 0,
        !is_ws(s[0]),
        !is_ws(s.last()),
    ensures
        trim(s) == s,
{
    lemma_lead_ws_char(s, 0);
    assert(trim_start(s) =~= s);
    lemma_trail_ws_char(s, 0);
    assert(trim_end(s) =~= s);
}

proof fn lemma_trail_ws_bound(s: Seq<char>)
    ensures
        trail_ws(s) <= s.len(),
    decreases s.len(),
{
    if s.len() > 0 && is_ws(s.last()) {
        lemma_trail_ws_bound(s.drop_last());
    }
}

/// A white-space character at the end does not change the trim.
pub proof fn lemma_trim_drop_ws_last(m: Seq<char>, c: char)
    requires
        is_ws(c),
    ensures
        trim(m.push(c)) == trim(m),
{
    let l = m.push(c);
    lemma_lead_ws_bound(m);
    let k = lead_ws(m);
    if k < m.len() {
        assert forall|j: int| 0 <= j < k implies is_ws(#[trigger] l[j]) by {
            assert(l[j] == m[j]);
        }
        assert(l[k as int] == m[k as int]);
        lemma_lead_ws_char(l, k);
        let tm = trim_start(m);
        let tl = trim_start(l);
        assert(tl =~= tm.push(c));
        assert(tm.push(c).drop_last() =~= tm);
        assert(trail_ws(tl) == 1 + trail_ws(tm));
        lemma_trail_ws_bound(tm);
        assert(trim_end(tl) =~= trim_end(tm));
    } else {
        assert forall|j: int| 0 <= j < l.len() implies is_ws(#[trigger] l[j]) by {
            if j < m.len() {
                assert(l[j] == m[j]);
            }
        }
        lemma_lead_ws_char(l, l.len());
        assert(trim_start(l) =~= Seq::<char>::empty());
        assert(trim_start(m) =~= Seq::<char>::empty());
        assert(trail_ws(Seq::<char>::empty()) == 0);
        assert(trim_end(Seq::<char>::empty()) =~= Seq::<char>::empty());
    }
}

/// Appending text without line breaks extends the line in progress.
pub proof fn lemma_lines_state_append(s: Seq<char>, w: Seq<char>)
    requires
        forall|i: int| 0 <= i < w.len() ==> #[trigger] w[i] != '\n',
    ensures
        lines_state(s + w) == (lines_state(s).0, lines_state(s).1 + w),
    decreases w.len(),
{
    if w.len() == 0 {
        assert(s + w =~= s);
        assert(lines_state(s).1 + w =~= lines_state(s).1);
    } else {
        let v = w.drop_last();
        lemma_lines_state_append(s, v);
        assert((s + w).drop_last() =~= s + v);
        assert((s + w).last() == w.last());
        assert(lines_state(s).1 + v + seq![w.last()] =~= lines_state(s).1 + w);
        assert((lines_state(s).1 + v).push(w.last()) =~= lines_state(s).1 + w);
    }
}

/// A word is no longer than its text.
pub proof fn lemma_word_len_bound(s: Seq<char>)
    ensures
        word_len(s) <= s.len(),
    decreases s.len(),
{
    if s.len() > 0 && !is_ws(s[0]) {
        lemma_word_len_bound(s.drop_first());
    }
}

proof fn lemma_word_len_char(s: Seq<char>, k: nat)
    requires
        k <= s.len(),
        forall|j: int| 0 <= j < k ==> !is_ws(#[trigger] s[j]),
        k < s.len() ==> is_ws(s[k as int]),
    ensures
        word_len(s) == k,
    decreases s.len(),
{
    if k > 0 {
        assert(!is_ws(s[0]));
        assert forall|j: int| 0 <= j < k - 1 implies !is_ws(#[trigger] s.drop_first()[j]) by {
            assert(s.drop_first()[j] == s[j + 1]);
        }
        if k - 1 < s.drop_first().len() {
            assert(s.drop_first()[k - 1] == s[k as int]);
        }
        lemma_word_len_char(s.drop_first(), (k - 1) as nat);
    } else if s.len() > 0 {
        assert(is_ws(s[0]));
    }
}

/// The first white-space-separated word of `s`.
pub fn first_word_str(s: &str) -> (r: &str)
    ensures
        r@ == first_word(s@),
{
    let t = trim_start_str(s);
    let n = t.unicode_len();
    let mut k: usize = 0;
    while k < n && !char_is_ws(t.get_char(k))
        invariant
            n == t@.len(),
            k <= n,
            forall|j: int| 0 <= j < k ==> !is_ws(#[trigger] t@[j]),
        decreases n - k,
    {
        k = k + 1;
    }
    proof {
        lemma_word_len_char(t@, k as nat);
    }
    let r = t.substring_char(0, k);
    assert(r@ =~= first_word(s@));
    r
}

/// The pieces found so far, and the piece in progress, after splitting
/// `s` at `sep`.
pub open spec fn split_state(s: Seq<char>, sep: char) -> (Seq<Seq<char>>, Seq<char>)
    decreases s.len(),
{
    if s.len() == 0 {
        (Seq::empty(), Seq::empty())
    } else {
        let (ps, cur) = split_state(s.drop_last(), sep);
        if s.last() == sep {
            (ps.push(cur), Seq::empty())
        } else {
            (ps, cur.push(s.last()))
        }
    }
}

/// The pieces of `s` between the occurrences of `sep`, as `str::split`
/// yields them.
pub open spec fn split_on(s: Seq<char>, sep: char) -> Seq<Seq<char>> {
    let (ps, cur) = split_state(s, sep);
    ps.push(cur)
}

/// A piece with at least one character.
pub open spec fn nonempty() -> spec_fn(Seq<char>) -> bool {
    |p: Seq<char>| p.len() > 0
}

/// The non-empty pieces of `s` between the occurrences of `sep`.
pub fn split_nonempty(s: &str, sep: char) -> (r: Vec<String>)
    ensures
        texts(r@) == split_on(s@, sep).filter(nonempty()),
{
    let n = s.unicode_len();
    let mut out: Vec<String> = Vec::new();
    let mut start: usize = 0;
    let mut i: usize = 0;
    proof {
        assert(s@.take(0) =~= Seq::<char>::empty());
        lemma_filter_empty_seq(nonempty());
        assert(texts(out@) =~= Seq::<Seq<char>>::empty());
    }
    while i < n
        invariant
            n == s@.len(),
            start <= i <= n,
            texts(out@) == split_state(s@.take(i as int), sep).0.filter(nonempty()),
            s@.subrange(start as int, i as int) == split_state(s@.take(i as int), sep).1,
        decreases n - i,
    {
        let c = s.get_char(i);
        let ghost st = split_state(s@.take(i as int), sep);
        proof {
            assert(s@.take(i + 1).drop_last() =~= s@.take(i as int));
            assert(s@.take(i + 1).last() == c);
        }
        if c == sep {
            proof {
                st.0.lemma_filter_push(st.1, nonempty());
                assert(s@.subrange((i + 1) as int, (i + 1) as int) =~= Seq::<char>::empty());
            }
            if start < i {
                let piece = s.substring_char(start, i);
                let ghost before = texts(out@);
                out.push(String::from_str(piece));
                assert(texts(out@) =~= before.push(piece@));
            }
            start = i + 1;
        } else {
            assert(s@.subrange(start as int, i + 1) =~= s@.subrange(start as int, i as int).push(c));
        }
        i = i + 1;
    }
    assert(s@.take(n as int) =~= s@);
    let ghost st = split_state(s@, sep);
    proof {
        st.0.lemma_filter_push(st.1, nonempty());
    }
    if start < n {
        let piece = s.substring_char(start, n);
        let ghost before = texts(out@);
        out.push(String::from_str(piece));
        assert(texts(out@) =~= before.push(piece@));
    }
    out
}

proof fn lemma_filter_empty_seq(p: spec_fn(Seq<char>) -> bool)
    ensures
        Seq::<Seq<char>>::empty().filter(p) == Seq::<Seq<char>>::empty(),
{
    reveal(Seq::filter);
    assert(Seq::<Seq<char>>::empty().filter(p) =~= Seq::<Seq<char>>::empty());
}

/// The lower-case form of a text, as `str::to_lowercase` gives it.
pub uninterp spec fn lowercase_of(s: Seq<char>) -> Seq<char>;

/// Calls `str::to_lowercase`. Its result is named by `lowercase_of`: std
/// maps each character to its Unicode lower-case form, which can change
/// the length, and nothing more of it is stated here.
#[verifier::external_body]
pub(crate) fn to_lowercase(s: &str) -> (r: String)
    ensures
        r@ == lowercase_of(s@),
{
    s.to_lowercase()
}

/// `n / m` rounded to the nearest integer, ties to the even one.
pub open spec fn round_half_even(n: nat, m: nat) -> nat {
    let q = n / m;
    let r = n % m;
    if 2 * r > m || (2 * r == m && q % 2 == 1) {
        q + 1
    } else {
        q
    }
}

/// `b / unit` rendered with `digits` decimals (one or two), rounded to the
/// nearest, ties to even, as `{:.1}` and `{:.2}` render the exact quotient.
pub open spec fn fixed_text(b: nat, unit: nat, digits: nat) -> Seq<char> {
    let p: nat = if digits == 1 { 10 } else { 100 };
    let q = round_half_even(b * p, unit);
    let frac = q % p;
    decimal(q / p) + "."@ + if digits == 2 && frac < 10 {
        "0"@ + decimal(frac)
    } else {
        decimal(frac)
    }
}

/// `b / unit` with one or two decimals, followed by `suffix`.
pub fn format_fixed(b: u64, unit: u64, digits: u64, suffix: &str) -> (r: String)
    requires
        unit >= 1024,
        digits == 1 || digits == 2,
    ensures
        r@ == fixed_text(b as nat, unit as nat, digits as nat) + suffix@,
{
    let p: u128 = if digits == 1 { 10 } else { 100 };
    let num: u128 = (b as u128) * p;
    let mut q: u128 = num / (unit as u128);
    let rem: u128 = num % (unit as u128);
    assert(q * 1024 <= num) by (nonlinear_arith)
        requires
            unit >= 1024,
            q == num / (unit as u128);
    if 2 * rem > unit as u128 || (2 * rem == unit as u128 && q % 2 == 1) {
        q = q + 1;
    }
    let whole: u64 = (q / p) as u64;
    let frac: u64 = (q % p) as u64;
    let mut s = u64_to_decimal(whole);
    proof {
        reveal_strlit(".");
        reveal_strlit("0");
    }
    s.append(".");
    if digits == 2 && frac < 10 {
        s.append("0");
    }
    let f = u64_to_decimal(frac);
    s.append(f.as_str());
    s.append(suffix);
    assert(s@ =~= fixed_text(b as nat, unit as nat, digits as nat) + suffix@);
    s
}

} // verus!
