use vstd::prelude::*;
use crate::telemetry::option_view;
use r2d2::Pool;
use r2d2_sqlite::SqliteConnectionManager;

verus! {

#[verifier::external_type_specification]
#[verifier::external_body]
pub struct ExPoolError(r2d2::Error);

/// Query for the call sign of one unit.
pub const SELECT_CALLSIGN: &'static str = "SELECT callsign FROM uav_callsigns WHERE serial_number = ?1";

/// Query for every known unit and its call sign.
pub const SELECT_ALL_CALLSIGNS: &'static str = "SELECT serial_number, callsign FROM uav_callsigns";

/// A pool of connections to the SQLite identity store. Verus cannot declare
/// `r2d2::Pool`, whose parameter is bound by r2d2's `ManageConnection`, so the
/// pool is held here out of its sight.
#[verifier::external_body]
pub struct IdentityStore {
    pool: Pool<SqliteConnectionManager>,
}

impl IdentityStore {
    /// Relies on SqliteConnectionManager::file and r2d2::Pool::new: a pool of
    /// connections to the SQLite database at `db_path`, or the pool's error.
    #[verifier::external_body]
    fn open(db_path: &str) -> (r: Result<IdentityStore, r2d2::Error>) {
        Pool::new(SqliteConnectionManager::file(db_path)).map(|pool| IdentityStore { pool })
    }

    /// Relies on r2d2::Pool::get and rusqlite::Connection::query_row: the first
    /// column of the first row that `sql` selects for `key`, or none when no
    /// connection could be had within the pool's timeout, there is no such row
    /// or the query fails.
    #[verifier::external_body]
    fn query_text(&self, sql: &str, key: &str) -> (r: Option<String>) {
        let conn = self.pool.get().ok()?;
        conn.query_row(sql, [key], |row| row.get(0)).ok()
    }

    /// Relies on r2d2::Pool::get, rusqlite::Connection::prepare and
    /// Statement::query_map: the first two columns of every row that `sql`
    /// selects, leaving out rows that cannot be read as text; empty when no
    /// connection could be had or the query fails.
    #[verifier::external_body]
    fn query_pairs(&self, sql: &str) -> (r: Vec<(String, String)>) {
        let Ok(conn) = self.pool.get() else { return Vec::new() };
        let Ok(mut stmt) = conn.prepare(sql) else { return Vec::new() };
        let pairs = match stmt.query_map([], |row| Ok((row.get(0)?, row.get(1)?))) {
            Ok(rows) => rows.flatten().collect(),
            Err(_) => Vec::new(),
        };
        pairs
    }
}

/// The mapping that a list of (unit, call sign) entries stands for; a later
/// entry for a unit overrides an earlier one.
pub open spec fn entries_map(s: Seq<(String, String)>) -> Map<Seq<char>, Seq<char>>
    decreases s.len(),
{
    if s.len() == 0 {
        Map::empty()
    } else {
        entries_map(s.drop_last()).insert(s.last().0@, s.last().1@)
    }
}

proof fn lemma_entries_map_last(s: Seq<(String, String)>, k: Seq<char>, m: int)
    requires
        -1 <= m < s.len(),
        m >= 0 ==> s[m].0@ == k,
        forall|j: int| m < j < s.len() ==> (#[trigger] s[j]).0@ != k,
    ensures
        m >= 0 ==> entries_map(s).contains_key(k) && entries_map(s)[k] == s[m].1@,
        m == -1 ==> !entries_map(s).contains_key(k),
    decreases s.len(),
{
    if s.len() > 0 {
        let d = s.drop_last();
        if m < s.len() - 1 {
            assert forall|j: int| m < j < d.len() implies (#[trigger] d[j]).0@ != k by {
                assert(d[j] == s[j]);
            }
            assert(s[s.len() - 1].0@ != k);
            lemma_entries_map_last(d, k, m);
            if m >= 0 {
                assert(d[m] == s[m]);
            }
        }
    }
}

/// Call signs already known, by unit identifier. Entries never expire.
pub struct CallsignCache {
    entries: Vec<(String, String)>,
}

impl View for CallsignCache {
    type V = Map<Seq<char>, Seq<char>>;

    closed spec fn view(&self) -> Map<Seq<char>, Seq<char>> {
        entries_map(self.entries@)
    }
}

impl CallsignCache {
    pub fn new() -> (r: CallsignCache)
        ensures
            r@ == Map::<Seq<char>, Seq<char>>::empty(),
    {
        CallsignCache { entries: Vec::new() }
    }

    /// A cache holding `rows`; a later row for a unit overrides an earlier one.
    pub fn from_rows(rows: Vec<(String, String)>) -> (r: CallsignCache)
        ensures
            r@ == entries_map(rows@),
    {
        CallsignCache { entries: rows }
    }

    /// The call sign known for `sn`, if any.
    pub fn get(&self, sn: &str) -> (r: Option<String>)
        ensures
            option_view(r) == (if self@.contains_key(sn@) {
                Some(self@[sn@])
            } else {
                None
            }),
    {
        let key = sn.to_owned();
        let mut i: usize = self.entries.len();
        while i > 0
            invariant
                i <= self.entries@.len(),
                key@ == sn@,
                forall|j: int| i <= j < self.entries@.len() ==> (#[trigger] self.entries@[j]).0@ != sn@,
            decreases i,
        {
            i = i - 1;
            if self.entries[i].0 == key {
                proof {
                    lemma_entries_map_last(self.entries@, sn@, i as int);
                }
                return Some(self.entries[i].1.clone());
            }
        }
        proof {
            lemma_entries_map_last(self.entries@, sn@, -1);
        }
        None
    }

    /// Records `call_sign` for `sn`.
    pub fn insert(&mut self, sn: String, call_sign: String)
        ensures
            final(self)@ == old(self)@.insert(sn@, call_sign@),
    {
        let ghost s = self.entries@;
        self.entries.push((sn, call_sign));
        assert(self.entries@.drop_last() == s);
    }
}

/// The identity store could not be opened.
#[derive(Debug, PartialEq, Eq, Structural)]
pub enum CallsignError {
    StoreUnavailable,
}

/// `new` is what a call-sign lookup for `sn` leaves after starting from
/// `old` and returning `r`: a cached call sign is returned with no store read;
/// otherwise the store is read once, for `sn`, and a call sign that it gave is
/// cached.
pub open spec fn resolves(
    old: CallsignService,
    new: CallsignService,
    sn: Seq<char>,
    r: Option<Seq<char>>,
) -> bool {
    if old.cache_view().contains_key(sn) {
        &&& r == Some(old.cache_view()[sn])
        &&& new.cache_view() == old.cache_view()
        &&& new.store_lookups() == old.store_lookups()
    } else {
        &&& new.store_lookups() == old.store_lookups().push(sn)
        &&& new.cache_view() == match r {
            Some(c) => old.cache_view().insert(sn, c),
            None => old.cache_view(),
        }
    }
}

/// Cache-aside resolution of unit identifiers to call signs, backed by a
/// pooled SQLite identity store.
pub struct CallsignService {
    store: IdentityStore,
    cache: CallsignCache,
    lookups: Ghost<Seq<Seq<char>>>,
}

impl CallsignService {
    /// What the cache holds.
    pub closed spec fn cache_view(&self) -> Map<Seq<char>, Seq<char>> {
        self.cache@
    }

    /// The unit identifiers for which the identity store was read, in order.
    pub closed spec fn store_lookups(&self) -> Seq<Seq<char>> {
        self.lookups@
    }

    /// How many times the identity store has been read for a single unit.
    pub open spec fn store_reads(&self) -> nat {
        self.store_lookups().len()
    }

    /// A service over an opened `store` whose cache holds the preloaded
    /// `rows`, empty or partial as the preload gave them.
    pub fn preloaded(store: IdentityStore, rows: Vec<(String, String)>) -> (s: CallsignService)
        ensures
            s.cache_view() == entries_map(rows@),
            s.store_lookups() == Seq::<Seq<char>>::empty(),
    {
        CallsignService { store, cache: CallsignCache::from_rows(rows), lookups: Ghost(Seq::empty()) }
    }

    /// A service over the result of opening the identity store: an opened
    /// store gives a service, whatever its preload read; a store that could
    /// not be opened gives the error.
    pub fn from_opened(opened: Result<IdentityStore, r2d2::Error>) -> (r: Result<
        CallsignService,
        CallsignError,
    >)
        ensures
            opened is Ok <==> r is Ok,
            r is Err ==> r == Err::<CallsignService, CallsignError>(CallsignError::StoreUnavailable),
            r matches Ok(s) ==> s.store_lookups() == Seq::<Seq<char>>::empty(),
    {
        match opened {
            Ok(store) => {
                let rows = store.query_pairs(SELECT_ALL_CALLSIGNS);
                Ok(Self::preloaded(store, rows))
            },
            Err(_) => Err(CallsignError::StoreUnavailable),
        }
    }

    /// Opens the identity store at `db_path` and preloads every call sign it
    /// holds; a failed preload leaves the cache empty or partial and is no
    /// error.
    pub fn new(db_path: &str) -> (r: Result<CallsignService, CallsignError>)
        ensures
            r matches Ok(s) ==> s.store_lookups() == Seq::<Seq<char>>::empty(),
    {
        Self::from_opened(IdentityStore::open(db_path))
    }

    /// Reads the call sign of `key` from the store, noting the read.
    fn lookup_store(&mut self, key: &str) -> (r: Option<String>)
        ensures
            final(self).store_lookups() == old(self).store_lookups().push(key@),
            final(self).cache_view() == old(self).cache_view(),
    {
        self.lookups = Ghost(self.lookups@.push(key@));
        self.store.query_text(SELECT_CALLSIGN, key)
    }

    /// The call sign of `sn`: from the cache when known there, else read from
    /// the store, and cached when found. A store that cannot be reached counts
    /// as a miss.
    pub fn get_callsign(&mut self, sn: &str) -> (r: Option<String>)
        ensures
            resolves(*old(self), *final(self), sn@, option_view(r)),
    {
        let cached = self.cache.get(sn);
        if cached.is_some() {
            return cached;
        }
        let result = self.lookup_store(sn);
        match result {
            Some(call_sign) => {
                self.cache.insert(sn.to_owned(), call_sign.clone());
                Some(call_sign)
            },
            None => None,
        }
    }
}

/// Two lookups of one unit in a row read the store at most once when the
/// first finds a call sign, and the second returns the same call sign.
pub proof fn lemma_second_lookup_hits_cache(
    s0: CallsignService,
    s1: CallsignService,
    s2: CallsignService,
    sn: Seq<char>,
    r1: Option<Seq<char>>,
    r2: Option<Seq<char>>,
)
    requires
        resolves(s0, s1, sn, r1),
        resolves(s1, s2, sn, r2),
        r1 is Some,
    ensures
        s2.store_reads() <= s0.store_reads() + 1,
        s2.store_lookups() == s1.store_lookups(),
        r2 == r1,
{
}

} // verus!
