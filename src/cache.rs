//! The cache: a map from file identity to digest, filled from record files
//! and written to one record file.
use vstd::prelude::*;
use crate::path::{normalize_path, spec_normalize};
use crate::record::{
    decimal, parse_u64, spec_parse_u64, spec_valid_hash, u64_to_decimal, validate_hash, Algorithm,
    HashEntry,
};
use crate::table::{csv_row, csv_table, fields_view, read_table, rows_view, write_row};

verus! {

/// What identifies a cached digest: normalized path, size, modification
/// time and algorithm.
pub type KeyView = (Seq<char>, u64, u64, Algorithm);

/// The fields of a record, in file order.
pub type EntryView = (Seq<char>, u64, u64, Algorithm, Seq<char>);

/// The key under which a digest is cached. Load, lookup and anything else
/// that keys a record build it through `CacheKey::new`.
#[derive(Clone, Debug, PartialEq, Eq)]
pub struct CacheKey {
    pub path: String,
    pub size: u64,
    pub time: u64,
    pub algo: Algorithm,
}

impl View for CacheKey {
    type V = KeyView;

    open spec fn view(&self) -> KeyView {
        (self.path@, self.size, self.time, self.algo)
    }
}

/// The text form of a key: its four parts separated by `|`.
pub open spec fn key_text(k: KeyView) -> Seq<char> {
    k.0 + seq!['|'] + decimal(k.1 as nat) + seq!['|'] + decimal(k.2 as nat) + seq!['|']
        + k.3.spec_name()
}

impl CacheKey {
    pub fn new(path: &str, size: u64, time: u64, algo: Algorithm) -> (r: CacheKey)
        ensures
            r@ == (path@, size, time, algo),
    {
        CacheKey { path: String::from_str(path), size, time, algo }
    }

    /// Whether two keys name the same identity.
    pub fn same(&self, other: &CacheKey) -> (r: bool)
        ensures
            r == (self@ == other@),
    {
        self.size == other.size && self.time == other.time && self.algo == other.algo
            && self.path == other.path
    }

    /// The key as one delimited string.
    pub fn render(&self) -> (r: String)
        ensures
            r@ == key_text(self@),
    {
        proof {
            reveal_strlit("|");
        }
        let r = String::from_str(self.path.as_str()).concat("|").concat(
            u64_to_decimal(self.size).as_str(),
        ).concat("|").concat(u64_to_decimal(self.time).as_str()).concat("|").concat(
            self.algo.name().as_str(),
        );
        assert(r@ =~= key_text(self@));
        r
    }
}

pub open spec fn name_path() -> Seq<char> {
    seq!['p', 'a', 't', 'h']
}

pub open spec fn name_size() -> Seq<char> {
    seq!['s', 'i', 'z', 'e']
}

pub open spec fn name_time() -> Seq<char> {
    seq!['t', 'i', 'm', 'e']
}

pub open spec fn name_algo() -> Seq<char> {
    seq!['a', 'l', 'g', 'o']
}

pub open spec fn name_hash() -> Seq<char> {
    seq!['h', 'a', 's', 'h']
}

/// The header of a record file, in field order.
pub open spec fn header_names() -> Seq<Seq<char>> {
    seq![name_path(), name_size(), name_time(), name_algo(), name_hash()]
}

/// Column `i` is the first one named `name`.
pub open spec fn is_first_column(h: Seq<Seq<char>>, name: Seq<char>, i: int) -> bool {
    &&& 0 <= i < h.len()
    &&& h[i] == name
    &&& forall|j: int| 0 <= j < i ==> h[j] != name
}

/// The first column of the header named `name`.
pub open spec fn column_of(h: Seq<Seq<char>>, name: Seq<char>) -> Option<int> {
    if exists|i: int| is_first_column(h, name, i) {
        Some(choose|i: int| is_first_column(h, name, i))
    } else {
        None
    }
}

/// The record that a row holds: it has one field per header column, the
/// header names each field, size and time are numbers and the algorithm
/// a known tag.
pub open spec fn spec_parse_row(h: Seq<Seq<char>>, row: Seq<Seq<char>>) -> Option<EntryView> {
    let p = column_of(h, name_path());
    let s = column_of(h, name_size());
    let t = column_of(h, name_time());
    let a = column_of(h, name_algo());
    let x = column_of(h, name_hash());
    if row.len() == h.len() && p is Some && s is Some && t is Some && a is Some && x is Some {
        let size = spec_parse_u64(row[s->Some_0]);
        let time = spec_parse_u64(row[t->Some_0]);
        let algo = Algorithm::spec_from_name(row[a->Some_0]);
        if size is Some && time is Some && algo is Some {
            Some((row[p->Some_0], size->Some_0, time->Some_0, algo->Some_0, row[x->Some_0]))
        } else {
            None
        }
    } else {
        None
    }
}

/// The record that a row adds to the cache: one that was read, parses,
/// and carries a valid digest for its algorithm.
pub open spec fn accepted(h: Seq<Seq<char>>, row: Option<Seq<Seq<char>>>) -> Option<EntryView> {
    match row {
        Some(f) => match spec_parse_row(h, f) {
            Some(e) => if spec_valid_hash(e.4, e.3) {
                Some(e)
            } else {
                None
            },
            None => None,
        },
        None => None,
    }
}

/// The key of a record read from the file at `source`.
pub open spec fn entry_key(e: EntryView, source: Seq<char>, base: Seq<char>) -> KeyView {
    (spec_normalize(e.0, source, base), e.1, e.2, e.3)
}

/// The map after the rows, in order, are merged into `m`; later rows win.
pub open spec fn load_rows(
    m: Map<KeyView, Seq<char>>,
    h: Seq<Seq<char>>,
    rows: Seq<Option<Seq<Seq<char>>>>,
    source: Seq<char>,
    base: Seq<char>,
) -> Map<KeyView, Seq<char>>
    decreases rows.len(),
{
    if rows.len() == 0 {
        m
    } else {
        let prev = load_rows(m, h, rows.drop_last(), source, base);
        match accepted(h, rows.last()) {
            Some(e) => prev.insert(entry_key(e, source, base), e.4),
            None => prev,
        }
    }
}

/// How many rows add a record.
pub open spec fn count_accepted(h: Seq<Seq<char>>, rows: Seq<Option<Seq<Seq<char>>>>) -> nat
    decreases rows.len(),
{
    if rows.len() == 0 {
        0
    } else {
        count_accepted(h, rows.drop_last()) + if accepted(h, rows.last()) is Some {
            1nat
        } else {
            0nat
        }
    }
}

/// The fields of a record as a record file holds them.
pub open spec fn entry_fields(e: EntryView) -> Seq<Seq<char>> {
    seq![e.0, decimal(e.1 as nat), decimal(e.2 as nat), e.3.spec_name(), e.4]
}

/// What appending a record adds to a record file of `existing_len` bytes:
/// the header row when the file is empty, then the record's row.
pub open spec fn append_output(e: EntryView, existing_len: u64) -> Seq<u8> {
    (if existing_len == 0 {
        csv_row(header_names())
    } else {
        Seq::empty()
    }) + csv_row(entry_fields(e))
}

/// The header names as string literals.
proof fn lemma_header_literals()
    ensures
        "path"@ == name_path(),
        "size"@ == name_size(),
        "time"@ == name_time(),
        "algo"@ == name_algo(),
        "hash"@ == name_hash(),
{
    reveal_strlit("path");
    reveal_strlit("size");
    reveal_strlit("time");
    reveal_strlit("algo");
    reveal_strlit("hash");
    assert("path"@ =~= name_path());
    assert("size"@ =~= name_size());
    assert("time"@ =~= name_time());
    assert("algo"@ =~= name_algo());
    assert("hash"@ =~= name_hash());
}

fn column_index(h: &Vec<String>, name: &str) -> (r: Option<usize>)
    ensures
        match r {
            Some(i) => column_of(fields_view(h@), name@) == Some(i as int),
            None => column_of(fields_view(h@), name@) is None,
        },
{
    let ghost hv = fields_view(h@);
    let target = String::from_str(name);
    let mut i: usize = 0;
    while i < h.len()
        invariant
            i <= h@.len(),
            hv == fields_view(h@),
            target@ == name@,
            forall|j: int| 0 <= j < i ==> hv[j] != name@,
        decreases h@.len() - i,
    {
        if h[i] == target {
            assert(is_first_column(hv, name@, i as int));
            let ghost c = choose|c: int| is_first_column(hv, name@, c);
            assert(c == i);
            return Some(i);
        }
        i = i + 1;
    }
    assert(forall|c: int| !is_first_column(hv, name@, c));
    None
}

fn parse_row(h: &Vec<String>, row: &Vec<String>) -> (r: Option<HashEntry>)
    ensures
        match r {
            Some(e) => spec_parse_row(fields_view(h@), fields_view(row@)) == Some(e@),
            None => spec_parse_row(fields_view(h@), fields_view(row@)) is None,
        },
{
    proof {
        lemma_header_literals();
    }
    if row.len() != h.len() {
        return None;
    }
    let p = column_index(h, "path");
    let s = column_index(h, "size");
    let t = column_index(h, "time");
    let a = column_index(h, "algo");
    let x = column_index(h, "hash");
    match (p, s, t, a, x) {
        (Some(p), Some(s), Some(t), Some(a), Some(x)) => {
            let size = parse_u64(row[s].as_str());
            let time = parse_u64(row[t].as_str());
            let algo = Algorithm::from_name(row[a].as_str());
            match (size, time, algo) {
                (Some(size), Some(time), Some(algo)) => Some(
                    HashEntry {
                        path: String::from_str(row[p].as_str()),
                        size,
                        time,
                        algo,
                        hash: String::from_str(row[x].as_str()),
                    },
                ),
                _ => None,
            }
        },
        _ => None,
    }
}

/// Why a load or an append failed.
#[derive(Clone, Copy, Debug, PartialEq, Eq, Structural)]
pub enum CacheError {
    /// The source could not be read as a record file: its header is unreadable.
    Load,
    /// The record could not be written out.
    Persist,
}

pub struct HashCache {
    cache: Vec<(CacheKey, String)>,
    csv_path: String,
    base_path: String,
    model: Ghost<Map<KeyView, Seq<char>>>,
}

impl View for HashCache {
    type V = Map<KeyView, Seq<char>>;

    closed spec fn view(&self) -> Map<KeyView, Seq<char>> {
        self.model@
    }
}

impl HashCache {
    /// The entries are the model's, each key once.
    pub closed spec fn wf(&self) -> bool {
        &&& self.model@.dom().finite()
        &&& self.model@.len() == self.cache@.len()
        &&& forall|i: int|
            0 <= i < self.cache@.len() ==> self.model@.contains_key(#[trigger] self.cache@[i].0@)
                && self.model@[self.cache@[i].0@] == self.cache@[i].1@
        &&& forall|k: KeyView|
            #[trigger] self.model@.contains_key(k) ==> exists|i: int|
                0 <= i < self.cache@.len() && #[trigger] self.cache@[i].0@ == k
        &&& forall|i: int, j: int|
            0 <= i < j < self.cache@.len() ==> #[trigger] self.cache@[i].0@
                != #[trigger] self.cache@[j].0@
    }

    /// The record file that `append` writes to.
    pub closed spec fn spec_csv_path(&self) -> Seq<char> {
        self.csv_path@
    }

    /// The directory against which loaded paths are normalized.
    pub closed spec fn spec_base_path(&self) -> Seq<char> {
        self.base_path@
    }

    /// An empty cache that appends to `csv_path` and normalizes loaded
    /// paths against `base_path`.
    pub fn new(csv_path: String, base_path: String) -> (r: HashCache)
        ensures
            r.wf(),
            r@ == Map::<KeyView, Seq<char>>::empty(),
            r.spec_csv_path() == csv_path@,
            r.spec_base_path() == base_path@,
    {
        HashCache { cache: Vec::new(), csv_path, base_path, model: Ghost(Map::empty()) }
    }

    fn find(&self, key: &CacheKey) -> (r: Option<usize>)
        requires
            self.wf(),
        ensures
            match r {
                Some(i) => i < self.cache@.len() && self.cache@[i as int].0@ == key@,
                None => !self@.contains_key(key@),
            },
    {
        let mut i: usize = 0;
        while i < self.cache.len()
            invariant
                self.wf(),
                i <= self.cache@.len(),
                forall|j: int| 0 <= j < i ==> self.cache@[j].0@ != key@,
            decreases self.cache@.len() - i,
        {
            if self.cache[i].0.same(key) {
                return Some(i);
            }
            i = i + 1;
        }
        None
    }

    /// Sets the digest cached under `key`, replacing any earlier one.
    fn insert(&mut self, key: CacheKey, hash: String)
        requires
            old(self).wf(),
        ensures
            final(self).wf(),
            final(self)@ == old(self)@.insert(key@, hash@),
            final(self).spec_csv_path() == old(self).spec_csv_path(),
            final(self).spec_base_path() == old(self).spec_base_path(),
    {
        let ghost k = key@;
        let ghost h = hash@;
        let ghost m = self.model@;
        match self.find(&key) {
            Some(i) => {
                self.cache.set(i, (key, hash));
                self.model = Ghost(m.insert(k, h));
                assert(self.model@.dom() =~= m.dom());
                assert forall|k2: KeyView| #[trigger] self.model@.contains_key(k2) implies exists|
                    j: int,
                | 0 <= j < self.cache@.len() && #[trigger] self.cache@[j].0@ == k2 by {
                    if k2 != k {
                        let j = choose|j: int| 0 <= j < self.cache@.len() && old(self).cache@[j].0@ == k2;
                        assert(self.cache@[j].0@ == k2);
                    } else {
                        assert(self.cache@[i as int].0@ == k2);
                    }
                }
            },
            None => {
                self.cache.push((key, hash));
                self.model = Ghost(m.insert(k, h));
                assert(self.model@.dom() =~= m.dom().insert(k));
                assert forall|k2: KeyView| #[trigger] self.model@.contains_key(k2) implies exists|
                    j: int,
                | 0 <= j < self.cache@.len() && #[trigger] self.cache@[j].0@ == k2 by {
                    if k2 != k {
                        let j = choose|j: int| 0 <= j < old(self).cache@.len() && old(self).cache@[j].0@ == k2;
                        assert(self.cache@[j].0@ == k2);
                    } else {
                        assert(self.cache@[self.cache@.len() - 1].0@ == k2);
                    }
                }
            },
        }
    }

    /// Merges the rows of a record file, as read, into the cache. `csv_path`
    /// is where the file lies, `header` its header row, and `rows` its data
    /// rows, `None` for one that could not be read. Rows that cannot be read
    /// or parsed, and rows whose digest is not valid for their algorithm,
    /// are skipped; later rows overwrite earlier ones with the same key.
    /// Returns how many rows were merged.
    pub fn merge_rows(
        &mut self,
        csv_path: &str,
        header: &Vec<String>,
        rows: &Vec<Option<Vec<String>>>,
    ) -> (r: usize)
        requires
            old(self).wf(),
        ensures
            final(self).wf(),
            final(self).spec_csv_path() == old(self).spec_csv_path(),
            final(self).spec_base_path() == old(self).spec_base_path(),
            r == count_accepted(fields_view(header@), rows_view(rows@)),
            final(self)@ == load_rows(
                old(self)@,
                fields_view(header@),
                rows_view(rows@),
                csv_path@,
                old(self).spec_base_path(),
            ),
    {
        let ghost hv = fields_view(header@);
        let ghost rv = rows_view(rows@);
        let ghost start = self@;
        let mut loaded: usize = 0;
        let mut i: usize = 0;
        assert(rv.subrange(0, 0) =~= Seq::<Option<Seq<Seq<char>>>>::empty());
        while i < rows.len()
            invariant
                self.wf(),
                self.spec_csv_path() == old(self).spec_csv_path(),
                self.spec_base_path() == old(self).spec_base_path(),
                start == old(self)@,
                hv == fields_view(header@),
                rv == rows_view(rows@),
                i <= rows@.len(),
                loaded <= i,
                loaded == count_accepted(hv, rv.subrange(0, i as int)),
                self@ == load_rows(start, hv, rv.subrange(0, i as int), csv_path@, self.spec_base_path()),
            decreases rows@.len() - i,
        {
            let ghost sub = rv.subrange(0, i + 1);
            assert(sub.drop_last() =~= rv.subrange(0, i as int));
            assert(sub.last() == rv[i as int]);
            match &rows[i] {
                Some(fields) => {
                    match parse_row(header, fields) {
                        Some(e) => {
                            if validate_hash(e.hash.as_str(), e.algo) {
                                let path = normalize_path(
                                    e.path.as_str(),
                                    csv_path,
                                    self.base_path.as_str(),
                                );
                                let key = CacheKey::new(path.as_str(), e.size, e.time, e.algo);
                                let HashEntry { hash, .. } = e;
                                self.insert(key, hash);
                                loaded = loaded + 1;
                            }
                        },
                        None => {},
                    }
                },
                None => {},
            }
            i = i + 1;
        }
        assert(rv.subrange(0, rows@.len() as int) =~= rv);
        loaded
    }

    /// Merges the records of a record file into the cache. `csv_path` is
    /// where the file lies, `text` what it holds. Fails, leaving the cache
    /// as it was, when the header cannot be read; otherwise merges the rows
    /// as `merge_rows` does and returns how many were merged.
    pub fn load_csv(&mut self, csv_path: &str, text: &[u8]) -> (r: Result<usize, CacheError>)
        requires
            old(self).wf(),
        ensures
            final(self).wf(),
            final(self).spec_csv_path() == old(self).spec_csv_path(),
            final(self).spec_base_path() == old(self).spec_base_path(),
            csv_table(text@) matches Some((h, rows)) ==> rows.len() <= usize::MAX,
            match csv_table(text@) {
                None => r == Err::<usize, CacheError>(CacheError::Load) && final(self)@ == old(
                    self,
                )@,
                Some((h, rows)) => r == Ok::<usize, CacheError>(count_accepted(h, rows) as usize)
                    && final(self)@ == load_rows(
                    old(self)@,
                    h,
                    rows,
                    csv_path@,
                    old(self).spec_base_path(),
                ),
            },
    {
        match read_table(text) {
            Ok((header, rows)) => {
                let n = rows.len();
                assert(rows_view(rows@).len() == n);
                Ok(self.merge_rows(csv_path, &header, &rows))
            },
            Err(_) => Err(CacheError::Load),
        }
    }

    /// The bytes to add to the cache's record file, which holds
    /// `existing_len` bytes, so that it also holds `entry`: the header row
    /// first when the file is empty or missing, then the record's row. The
    /// digest is not checked, and the cache itself is left as it is: the
    /// record is found after the file is loaded again. Encoding always
    /// succeeds; a failure to write the bytes out is the caller's.
    pub fn append(&self, entry: &HashEntry, existing_len: u64) -> (r: Result<Vec<u8>, CacheError>)
        ensures
            r matches Ok(b) && b@ == append_output(entry@, existing_len),
    {
        let mut out: Vec<u8> = Vec::new();
        if existing_len == 0 {
            proof {
                lemma_header_literals();
            }
            let header = vec![
                String::from_str("path"),
                String::from_str("size"),
                String::from_str("time"),
                String::from_str("algo"),
                String::from_str("hash"),
            ];
            assert(fields_view(header@) =~= header_names());
            match write_row(&header) {
                Ok(b) => {
                    out = b;
                },
                Err(_) => return Err(CacheError::Persist),
            }
        }
        let fields = vec![
            String::from_str(entry.path.as_str()),
            u64_to_decimal(entry.size),
            u64_to_decimal(entry.time),
            entry.algo.name(),
            String::from_str(entry.hash.as_str()),
        ];
        assert(fields_view(fields@) =~= entry_fields(entry@));
        match write_row(&fields) {
            Ok(mut b) => {
                out.append(&mut b);
                assert(out@ =~= append_output(entry@, existing_len));
                Ok(out)
            },
            Err(_) => Err(CacheError::Persist),
        }
    }

    /// The record file that `append` writes to.
    pub fn csv_path(&self) -> (r: &String)
        ensures
            r@ == self.spec_csv_path(),
    {
        &self.csv_path
    }

    /// The directory against which loaded paths are normalized.
    pub fn base_path(&self) -> (r: &String)
        ensures
            r@ == self.spec_base_path(),
    {
        &self.base_path
    }

    /// The digest cached for this identity.
    pub fn get(&self, path: &str, size: u64, mtime: u64, algo: Algorithm) -> (r: Option<&String>)
        requires
            self.wf(),
        ensures
            match r {
                Some(h) => self@.contains_key((path@, size, mtime, algo)) && h@ == self@[(
                    path@,
                    size,
                    mtime,
                    algo,
                )],
                None => !self@.contains_key((path@, size, mtime, algo)),
            },
    {
        let key = CacheKey::new(path, size, mtime, algo);
        match self.find(&key) {
            Some(i) => Some(&self.cache[i].1),
            None => None,
        }
    }

    /// Whether a digest is cached for this identity.
    pub fn contains(&self, path: &str, size: u64, mtime: u64, algo: Algorithm) -> (r: bool)
        requires
            self.wf(),
        ensures
            r == self@.contains_key((path@, size, mtime, algo)),
    {
        let key = CacheKey::new(path, size, mtime, algo);
        self.find(&key).is_some()
    }

    /// The number of cached digests.
    pub fn len(&self) -> (r: usize)
        requires
            self.wf(),
        ensures
            r == self@.len(),
    {
        self.cache.len()
    }

    pub fn is_empty(&self) -> (r: bool)
        requires
            self.wf(),
        ensures
            r == (self@.len() == 0),
    {
        self.cache.len() == 0
    }

    /// The cached entries, each key once, in no particular order.
    pub fn inner(&self) -> (r: &Vec<(CacheKey, String)>)
        requires
            self.wf(),
        ensures
            r@.len() == self@.len(),
            forall|i: int|
                0 <= i < r@.len() ==> self@.contains_key(#[trigger] r@[i].0@) && self@[r@[i].0@]
                    == r@[i].1@,
            forall|k: KeyView|
                #[trigger] self@.contains_key(k) ==> exists|i: int|
                    0 <= i < r@.len() && #[trigger] r@[i].0@ == k,
            forall|i: int, j: int| 0 <= i < j < r@.len() ==> #[trigger] r@[i].0@ != #[trigger] r@[j].0@,
    {
        &self.cache
    }
}

} // verus!
