//! Data attribution — track which app touched which file last.

use vstd::prelude::*;
use crate::clock::{Timestamp, now_millis};
use crate::keyed::{first_index, lemma_first_index, lemma_first_index_spec, lemma_filter_take_zero, put_first, lemma_put_first_found};
use crate::paths::{same_path, paths_equal};
use crate::text::{str_eq, texts};

verus! {

/// Attribution record for a file.
#[derive(Debug, Clone)]
pub struct AttributionRecord {
    pub path: String,
    pub last_writer: String,
    pub last_reader: String,
    pub creator: String,
    pub created_at: Timestamp,
    pub last_written: Timestamp,
    pub last_read: Timestamp,
    pub write_count: u64,
    pub read_count: u64,
    pub all_writers: Vec<String>,
    pub all_readers: Vec<String>,
}

/// An attribution record as plain data.
pub struct AttributionView {
    pub path: Seq<char>,
    pub last_writer: Seq<char>,
    pub last_reader: Seq<char>,
    pub creator: Seq<char>,
    pub created_at: Timestamp,
    pub last_written: Timestamp,
    pub last_read: Timestamp,
    pub write_count: u64,
    pub read_count: u64,
    pub all_writers: Seq<Seq<char>>,
    pub all_readers: Seq<Seq<char>>,
}

impl View for AttributionRecord {
    type V = AttributionView;

    open spec fn view(&self) -> AttributionView {
        AttributionView {
            path: self.path@,
            last_writer: self.last_writer@,
            last_reader: self.last_reader@,
            creator: self.creator@,
            created_at: self.created_at,
            last_written: self.last_written,
            last_read: self.last_read,
            write_count: self.write_count,
            read_count: self.read_count,
            all_writers: texts(self.all_writers@),
            all_readers: texts(self.all_readers@),
        }
    }
}

/// The views of a list of record references.
pub open spec fn record_views(s: Seq<&AttributionRecord>) -> Seq<AttributionView> {
    s.map_values(|r: &AttributionRecord| r@)
}

/// A record of the file at `path` (paths compared as `Path` compares them).
pub open spec fn at_path(path: Seq<char>) -> spec_fn(AttributionView) -> bool {
    |r: AttributionView| same_path(r.path, path)
}

/// The record made when `writer` first writes `path` at `now`, before the
/// write is counted.
pub open spec fn fresh_record(path: Seq<char>, writer: Seq<char>, now: Timestamp) -> AttributionView {
    AttributionView {
        path,
        last_writer: writer,
        last_reader: writer,
        creator: writer,
        created_at: now,
        last_written: now,
        last_read: now,
        write_count: 0,
        read_count: 0,
        all_writers: Seq::empty(),
        all_readers: Seq::empty(),
    }
}

/// `names` with `name` added at the end unless it is already listed.
pub open spec fn with_name(names: Seq<Seq<char>>, name: Seq<char>) -> Seq<Seq<char>> {
    if names.contains(name) {
        names
    } else {
        names.push(name)
    }
}

/// Record `r` after a write by `writer` at `now`.
pub open spec fn written(r: AttributionView, writer: Seq<char>, now: Timestamp) -> AttributionView {
    AttributionView {
        last_writer: writer,
        last_written: now,
        write_count: (r.write_count + 1) as u64,
        all_writers: with_name(r.all_writers, writer),
        ..r
    }
}

/// Record `r` after a read by `reader` at `now`.
pub open spec fn read_by(r: AttributionView, reader: Seq<char>, now: Timestamp) -> AttributionView {
    AttributionView {
        last_reader: reader,
        last_read: now,
        read_count: (r.read_count + 1) as u64,
        all_readers: with_name(r.all_readers, reader),
        ..r
    }
}

/// The records after `writer` writes `path` at `now`: the record of the
/// file is updated, or a new one is added.
pub open spec fn after_write(
    s: Seq<AttributionView>,
    path: Seq<char>,
    writer: Seq<char>,
    now: Timestamp,
) -> Seq<AttributionView> {
    let k = first_index(s, at_path(path));
    if k < 0 {
        s.push(written(fresh_record(path, writer, now), writer, now))
    } else {
        s.update(k, written(s[k], writer, now))
    }
}

/// The records after `reader` reads `path` at `now`: only a file already
/// recorded is updated.
pub open spec fn after_read(
    s: Seq<AttributionView>,
    path: Seq<char>,
    reader: Seq<char>,
    now: Timestamp,
) -> Seq<AttributionView> {
    let k = first_index(s, at_path(path));
    if k < 0 {
        s
    } else {
        s.update(k, read_by(s[k], reader, now))
    }
}

/// After `writer` writes `path`, the file's record names `writer` as its
/// last writer and lists it among its writers (paths compare equal to
/// themselves, as `Path` equality does).
pub proof fn lemma_write_then_attributed(s: Seq<AttributionView>, path: Seq<char>, writer: Seq<char>, now: Timestamp)
    requires
        same_path(path, path),
    ensures
        first_index(after_write(s, path, writer, now), at_path(path)) >= 0,
        ({
            let t = after_write(s, path, writer, now);
            let r = t[first_index(t, at_path(path))];
            &&& r.last_writer == writer
            &&& r.last_written == now
            &&& r.all_writers.contains(writer)
        }),
{
    lemma_first_index_spec(s, at_path(path));
    let k = first_index(s, at_path(path));
    let x = if k < 0 {
        written(fresh_record(path, writer, now), writer, now)
    } else {
        written(s[k], writer, now)
    };
    assert(at_path(path)(x));
    assert(after_write(s, path, writer, now) == put_first(s, at_path(path), x));
    lemma_put_first_found(s, at_path(path), x);
    let names = if k < 0 {
        Seq::<Seq<char>>::empty()
    } else {
        s[k].all_writers
    };
    if !names.contains(writer) {
        assert(names.push(writer)[names.len() as int] == writer);
    }
}

/// A file that `writer` has written.
pub open spec fn written_by(writer: Seq<char>) -> spec_fn(AttributionView) -> bool {
    |r: AttributionView| r.all_writers.contains(writer)
}

/// A file that `reader` has read.
pub open spec fn read_by_app(reader: Seq<char>) -> spec_fn(AttributionView) -> bool {
    |r: AttributionView| r.all_readers.contains(reader)
}

/// A file with more than one writer or more than one reader.
pub open spec fn is_shared() -> spec_fn(AttributionView) -> bool {
    |r: AttributionView| r.all_writers.len() > 1 || r.all_readers.len() > 1
}

fn lists(names: &Vec<String>, name: &str) -> (r: bool)
    ensures
        r == texts(names@).contains(name@),
{
    let mut i: usize = 0;
    while i < names.len()
        invariant
            i <= names@.len(),
            forall|j: int| 0 <= j < i ==> texts(names@)[j] != name@,
        decreases names@.len() - i,
    {
        if str_eq(names[i].as_str(), name) {
            assert(texts(names@)[i as int] == name@);
            return true;
        }
        i = i + 1;
    }
    false
}

fn add_name(names: &mut Vec<String>, name: &str)
    ensures
        texts(final(names)@) == with_name(texts(old(names)@), name@),
{
    if !lists(names, name) {
        let ghost before = texts(names@);
        names.push(String::from_str(name));
        assert(texts(names@) =~= before.push(name@));
    }
}

enum Query {
    Writer(String),
    Reader(String),
    Shared,
}

spec fn query_pred(q: Query) -> spec_fn(AttributionView) -> bool {
    match q {
        Query::Writer(w) => written_by(w@),
        Query::Reader(r) => read_by_app(r@),
        Query::Shared => is_shared(),
    }
}

fn query_matches(r: &AttributionRecord, q: &Query) -> (b: bool)
    ensures
        b == query_pred(*q)(r@),
{
    match q {
        Query::Writer(w) => lists(&r.all_writers, w.as_str()),
        Query::Reader(x) => lists(&r.all_readers, x.as_str()),
        Query::Shared => {
            assert(texts(r.all_writers@).len() == r.all_writers@.len());
            assert(texts(r.all_readers@).len() == r.all_readers@.len());
            r.all_writers.len() > 1 || r.all_readers.len() > 1
        },
    }
}

/// Data attribution tracker.
pub struct AttributionTracker {
    records: Vec<AttributionRecord>,
}

impl AttributionTracker {
    /// The records, in the order the files were first written.
    pub closed spec fn records(&self) -> Seq<AttributionView> {
        self.records@.map_values(|r: AttributionRecord| r@)
    }

    pub fn new() -> (r: Self)
        ensures
            r.records() == Seq::<AttributionView>::empty(),
    {
        let r = Self { records: Vec::new() };
        assert(r.records() =~= Seq::<AttributionView>::empty());
        r
    }

    fn index_of(&self, path: &str) -> (r: Option<usize>)
        ensures
            first_index(self.records(), at_path(path@)) == match r {
                Some(k) => k as int,
                None => -1,
            },
            match r {
                Some(k) => k < self.records().len(),
                None => true,
            },
    {
        let ghost s = self.records();
        let mut k: usize = 0;
        while k < self.records.len()
            invariant
                k <= self.records@.len(),
                s == self.records(),
                forall|j: int| 0 <= j < k ==> !at_path(path@)(#[trigger] s[j]),
            decreases self.records@.len() - k,
        {
            if paths_equal(self.records[k].path.as_str(), path) {
                proof {
                    lemma_first_index(s, at_path(path@), k as int);
                }
                return Some(k);
            }
            k = k + 1;
        }
        proof {
            lemma_first_index(s, at_path(path@), k as int);
        }
        None
    }

    fn take_record(&mut self, k: usize) -> (r: AttributionRecord)
        requires
            k < old(self).records().len(),
        ensures
            r@ == old(self).records()[k as int],
            final(self).records().len() == old(self).records().len(),
            forall|j: int| 0 <= j < old(self).records().len() && j != k ==> final(self).records()[j] == old(
                self,
            ).records()[j],
    {
        let mut r = AttributionRecord {
            path: String::new(),
            last_writer: String::new(),
            last_reader: String::new(),
            creator: String::new(),
            created_at: 0,
            last_written: 0,
            last_read: 0,
            write_count: 0,
            read_count: 0,
            all_writers: Vec::new(),
            all_readers: Vec::new(),
        };
        std::mem::swap(&mut r, &mut self.records[k]);
        r
    }

    /// Record at the given instant that `writer` wrote the file at `path`.
    pub fn record_write_at(&mut self, path: &str, writer: &str, now: Timestamp)
        requires
            ({
                let k = first_index(old(self).records(), at_path(path@));
                k >= 0 ==> old(self).records()[k].write_count < u64::MAX
            }),
        ensures
            final(self).records() == after_write(old(self).records(), path@, writer@, now),
    {
        let ghost s = self.records();
        match self.index_of(path) {
            Some(k) => {
                let mut r = self.take_record(k);
                r.last_writer = String::from_str(writer);
                r.last_written = now;
                r.write_count = r.write_count + 1;
                add_name(&mut r.all_writers, writer);
                let ghost nv = r@;
                self.records.set(k, r);
                assert(nv == written(s[k as int], writer@, now));
                assert(self.records() =~= s.update(k as int, nv));
            },
            None => {
                let mut writers: Vec<String> = Vec::new();
                writers.push(String::from_str(writer));
                let r = AttributionRecord {
                    path: String::from_str(path),
                    last_writer: String::from_str(writer),
                    last_reader: String::from_str(writer),
                    creator: String::from_str(writer),
                    created_at: now,
                    last_written: now,
                    last_read: now,
                    write_count: 1,
                    read_count: 0,
                    all_writers: writers,
                    all_readers: Vec::new(),
                };
                assert(texts(r.all_writers@) =~= with_name(Seq::<Seq<char>>::empty(), writer@));
                assert(texts(r.all_readers@) =~= Seq::<Seq<char>>::empty());
                self.records.push(r);
                assert(self.records() =~= s.push(written(fresh_record(path@, writer@, now), writer@, now)));
            },
        }
    }

    /// Record now that `writer` wrote the file at `path`.
    pub fn record_write(&mut self, path: &str, writer: &str)
        requires
            ({
                let k = first_index(old(self).records(), at_path(path@));
                k >= 0 ==> old(self).records()[k].write_count < u64::MAX
            }),
        ensures
            exists|t: Timestamp|
                final(self).records() == #[trigger] after_write(old(self).records(), path@, writer@, t),
    {
        let now = now_millis();
        self.record_write_at(path, writer, now);
        assert(self.records() == after_write(old(self).records(), path@, writer@, now));
    }

    /// Record at the given instant that `reader` read the file at `path`;
    /// a file never written is not recorded.
    pub fn record_read_at(&mut self, path: &str, reader: &str, now: Timestamp)
        requires
            ({
                let k = first_index(old(self).records(), at_path(path@));
                k >= 0 ==> old(self).records()[k].read_count < u64::MAX
            }),
        ensures
            final(self).records() == after_read(old(self).records(), path@, reader@, now),
    {
        let ghost s = self.records();
        match self.index_of(path) {
            Some(k) => {
                let mut r = self.take_record(k);
                r.last_reader = String::from_str(reader);
                r.last_read = now;
                r.read_count = r.read_count + 1;
                add_name(&mut r.all_readers, reader);
                let ghost nv = r@;
                self.records.set(k, r);
                assert(nv == read_by(s[k as int], reader@, now));
                assert(self.records() =~= s.update(k as int, nv));
            },
            None => {},
        }
    }

    /// Record now that `reader` read the file at `path`.
    pub fn record_read(&mut self, path: &str, reader: &str)
        requires
            ({
                let k = first_index(old(self).records(), at_path(path@));
                k >= 0 ==> old(self).records()[k].read_count < u64::MAX
            }),
        ensures
            exists|t: Timestamp|
                final(self).records() == #[trigger] after_read(old(self).records(), path@, reader@, t),
    {
        let now = now_millis();
        self.record_read_at(path, reader, now);
        assert(self.records() == after_read(old(self).records(), path@, reader@, now));
    }

    /// The record of the file at `path`.
    pub fn get(&self, path: &str) -> (r: Option<&AttributionRecord>)
        ensures
            match r {
                Some(x) => first_index(self.records(), at_path(path@)) >= 0 && x@ == self.records()[first_index(
                    self.records(),
                    at_path(path@),
                )],
                None => first_index(self.records(), at_path(path@)) < 0,
            },
    {
        match self.index_of(path) {
            Some(k) => Some(&self.records[k]),
            None => None,
        }
    }

    fn select(&self, q: &Query) -> (r: Vec<&AttributionRecord>)
        ensures
            record_views(r@) == self.records().filter(query_pred(*q)),
    {
        let ghost s = self.records();
        let ghost p = query_pred(*q);
        let mut r: Vec<&AttributionRecord> = Vec::new();
        let mut i: usize = 0;
        proof {
            lemma_filter_take_zero(s, p);
            assert(record_views(r@) =~= Seq::<AttributionView>::empty());
        }
        while i < self.records.len()
            invariant
                i <= self.records@.len(),
                s == self.records(),
                p == query_pred(*q),
                record_views(r@) == s.take(i as int).filter(p),
            decreases self.records@.len() - i,
        {
            let x = &self.records[i];
            proof {
                assert(s.take(i + 1) =~= s.take(i as int).push(x@));
                s.take(i as int).lemma_filter_push(x@, p);
            }
            if query_matches(x, q) {
                let ghost before = record_views(r@);
                r.push(x);
                assert(record_views(r@) =~= before.push(x@));
            }
            i = i + 1;
        }
        assert(s.take(self.records@.len() as int) =~= s);
        r
    }

    /// Files written by `writer`, in record order.
    pub fn files_by_writer(&self, writer: &str) -> (r: Vec<&AttributionRecord>)
        ensures
            record_views(r@) == self.records().filter(written_by(writer@)),
    {
        let q = Query::Writer(String::from_str(writer));
        self.select(&q)
    }

    /// Files read by `reader`, in record order.
    pub fn files_by_reader(&self, reader: &str) -> (r: Vec<&AttributionRecord>)
        ensures
            record_views(r@) == self.records().filter(read_by_app(reader@)),
    {
        let q = Query::Reader(String::from_str(reader));
        self.select(&q)
    }

    /// Files with more than one writer or more than one reader.
    pub fn shared_files(&self) -> (r: Vec<&AttributionRecord>)
        ensures
            record_views(r@) == self.records().filter(is_shared()),
    {
        self.select(&Query::Shared)
    }

    pub fn record_count(&self) -> (r: usize)
        ensures
            r == self.records().len(),
    {
        self.records.len()
    }
}

impl Default for AttributionTracker {
    fn default() -> (r: Self)
        ensures
            r.records() == Seq::<AttributionView>::empty(),
    {
        Self::new()
    }
}

} // verus!
