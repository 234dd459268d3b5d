//! An in-memory table of session records, each with its state and the
//! instant it expires at. Expired records are dropped as they are read.

use vstd::prelude::*;
use crate::form::str_eq;

verus! {

/// The state of one session: its key/value pairs.
pub type SessionState = Vec<(String, String)>;

/// The view of a session state.
pub type StateView = Seq<(Seq<char>, Seq<char>)>;

/// The view of a record: its state and the instant (in nanoseconds since
/// the Unix epoch) at which it expires.
pub type RecordView = (StateView, int);

/// The view of a session state.
pub open spec fn state_view(s: Seq<(String, String)>) -> StateView {
    s.map_values(|p: (String, String)| (p.0@, p.1@))
}

/// The expiry instant of a record written at `now` with time-to-live `ttl`,
/// both in nanoseconds, held to the range of `i128`.
pub open spec fn expiry(now: int, ttl: int) -> int {
    if now + ttl > i128::MAX {
        i128::MAX as int
    } else if now + ttl < i128::MIN {
        i128::MIN as int
    } else {
        now + ttl
    }
}

/// What loading `key` at instant `now` returns and leaves in the table: no
/// state for an unknown key; no state and the record removed when it has
/// expired (its expiry is not after `now`); otherwise its state.
pub open spec fn load_outcome(m: Map<Seq<char>, RecordView>, key: Seq<char>, now: int) -> (
    Option<StateView>,
    Map<Seq<char>, RecordView>,
) {
    if !m.contains_key(key) {
        (None, m)
    } else if m[key].1 <= now {
        (None, m.remove(key))
    } else {
        (Some(m[key].0), m)
    }
}

/// The table after the time-to-live of `key` is renewed at `now`: a known
/// record keeps its state and expires `ttl` after `now`; nothing else
/// changes.
pub open spec fn ttl_renewed(m: Map<Seq<char>, RecordView>, key: Seq<char>, ttl: int, now: int) -> Map<
    Seq<char>,
    RecordView,
> {
    if m.contains_key(key) {
        m.insert(key, (m[key].0, expiry(now, ttl)))
    } else {
        m
    }
}

/// The current time in nanoseconds since the Unix epoch, from
/// `time::OffsetDateTime::now_utc().unix_timestamp_nanos()` (re-exported
/// through Actix Web's cookie module). Nothing is claimed of the value.
#[verifier::external_body]
fn now_unix_nanos() -> i128 {
    actix_web::cookie::time::OffsetDateTime::now_utc().unix_timestamp_nanos()
}

/// A fresh random session key from
/// `actix_session::storage::generate_session_key`, as a `String`. The
/// contract claims only its length: the source samples 64 alphanumeric
/// characters.
#[verifier::external_body]
fn new_session_key() -> (r: String)
    ensures
        r@.len() == 64,
{
    actix_session::storage::generate_session_key().into()
}

struct Entry {
    key: String,
    state: SessionState,
    expires_at: i128,
}

spec fn entry_view(e: Entry) -> RecordView {
    (state_view(e.state@), e.expires_at as int)
}

/// A table of session records keyed by session key.
pub struct MemoryStore {
    entries: Vec<Entry>,
    records: Ghost<Map<Seq<char>, RecordView>>,
}

impl View for MemoryStore {
    type V = Map<Seq<char>, RecordView>;

    closed spec fn view(&self) -> Map<Seq<char>, RecordView> {
        self.records@
    }
}

/// The expiry instant of a record written at `now` with time-to-live `ttl`.
fn expiry_exec(now: i128, ttl: i128) -> (r: i128)
    ensures
        r as int == expiry(now as int, ttl as int),
{
    match now.checked_add(ttl) {
        Some(v) => v,
        None => if ttl > 0 {
            i128::MAX
        } else {
            i128::MIN
        },
    }
}

/// A copy of a session state.
fn clone_state(s: &SessionState) -> (r: SessionState)
    ensures
        state_view(r@) == state_view(s@),
{
    let mut out: SessionState = Vec::new();
    let n = s.len();
    for i in 0..n
        invariant
            n == s@.len(),
            out@.len() == i,
            forall|j: int| 0 <= j < i ==> (#[trigger] out@[j]).0@ == s@[j].0@ && out@[j].1@ == s@[j].1@,
    {
        let k = s[i].0.clone();
        let v = s[i].1.clone();
        out.push((k, v));
    }
    assert(state_view(out@) =~= state_view(s@));
    out
}

impl MemoryStore {
    /// The table's invariant: keys are unique and the view maps each key to
    /// the view of its record.
    pub closed spec fn wf(&self) -> bool {
        &&& forall|i: int, j: int|
            0 <= i < j < self.entries@.len() ==> self.entries@[i].key@ != self.entries@[j].key@
        &&& forall|i: int|
            0 <= i < self.entries@.len() ==> #[trigger] self.records@.contains_key(
                self.entries@[i].key@,
            ) && self.records@[self.entries@[i].key@] == entry_view(self.entries@[i])
        &&& forall|k: Seq<char>| #[trigger]
            self.records@.contains_key(k) ==> exists|i: int|
                0 <= i < self.entries@.len() && self.entries@[i].key@ == k
        &&& self.records@.dom().finite()
        &&& self.records@.dom().len() == self.entries@.len()
    }

    /// Creates an empty table.
    pub fn new() -> (r: Self)
        ensures
            r.wf(),
            r@ == Map::<Seq<char>, RecordView>::empty(),
            r@.dom().finite(),
    {
        MemoryStore { entries: Vec::new(), records: Ghost(Map::empty()) }
    }

    /// The number of records currently held, expired ones included.
    pub fn len(&self) -> (r: usize)
        requires
            self.wf(),
        ensures
            r == self@.len(),
    {
        self.entries.len()
    }

    /// Whether the table holds no records at all.
    pub fn is_empty(&self) -> (r: bool)
        requires
            self.wf(),
        ensures
            r == (self@.len() == 0),
    {
        self.len() == 0
    }

    /// A well-formed table holds finitely many records, so its view has a
    /// length that counts them.
    pub proof fn lemma_finite(&self)
        requires
            self.wf(),
        ensures
            self@.dom().finite(),
    {
    }

    /// The index of the entry for `key`, if there is one.
    fn find(&self, key: &str) -> (r: Option<usize>)
        requires
            self.wf(),
        ensures
            match r {
                Some(i) => i < self.entries@.len() && self.entries@[i as int].key@ == key@,
                None => !self@.contains_key(key@),
            },
    {
        let n = self.entries.len();
        for i in 0..n
            invariant
                n == self.entries@.len(),
                forall|j: int| 0 <= j < i ==> self.entries@[j].key@ != key@,
        {
            if str_eq(self.entries[i].key.as_str(), key) {
                return Some(i);
            }
        }
        None
    }

    /// Stores `state` under `key`, expiring at `expires_at`, replacing any
    /// record the key had.
    fn put(&mut self, key: String, state: SessionState, expires_at: i128)
        requires
            old(self).wf(),
        ensures
            final(self).wf(),
            final(self)@.dom().finite(),
            final(self)@ == old(self)@.insert(key@, (state_view(state@), expires_at as int)),
    {
        let ghost rec = (state_view(state@), expires_at as int);
        let ghost k = key@;
        match self.find(key.as_str()) {
            Some(i) => {
                let ghost old_entries = self.entries@;
                let e = Entry { key, state, expires_at };
                self.entries.set(i, e);
                self.records = Ghost(self.records@.insert(k, rec));
                proof {
                    assert(old_entries[i as int].key@ == k);
                    assert(self.records@.dom() =~= old(self).records@.dom());
                    assert forall|kk: Seq<char>| #[trigger]
                        self.records@.contains_key(kk) implies exists|j: int|
                        0 <= j < self.entries@.len() && self.entries@[j].key@ == kk by {
                        let j = choose|j: int|
                            0 <= j < old_entries.len() && old_entries[j].key@ == kk;
                        assert(self.entries@[j].key@ == kk);
                    }
                }
            },
            None => {
                let ghost old_entries = self.entries@;
                let e = Entry { key, state, expires_at };
                self.entries.push(e);
                self.records = Ghost(self.records@.insert(k, rec));
                proof {
                    let n = old_entries.len() as int;
                    assert(self.entries@[n].key@ == k);
                    assert forall|i: int, j: int|
                        0 <= i < j < self.entries@.len() implies self.entries@[i].key@
                        != self.entries@[j].key@ by {
                        if j == n {
                            assert(old(self).records@.contains_key(old_entries[i].key@));
                        }
                    }
                    assert forall|kk: Seq<char>| #[trigger]
                        self.records@.contains_key(kk) implies exists|j: int|
                        0 <= j < self.entries@.len() && self.entries@[j].key@ == kk by {
                        if kk != k {
                            let j = choose|j: int|
                                0 <= j < old_entries.len() && old_entries[j].key@ == kk;
                            assert(self.entries@[j].key@ == kk);
                        }
                    }
                }
            },
        }
    }

    /// Removes the entry at index `i`.
    fn remove_at(&mut self, i: usize)
        requires
            old(self).wf(),
            i < old(self).entries@.len(),
        ensures
            final(self).wf(),
            final(self)@.dom().finite(),
            final(self)@ == old(self)@.remove(old(self).entries@[i as int].key@),
    {
        let ghost old_entries = self.entries@;
        let ghost k = self.entries@[i as int].key@;
        let ghost last = old_entries.len() - 1;
        let _ = self.entries.swap_remove(i);
        self.records = Ghost(self.records@.remove(k));
        proof {
            assert forall|a: int, b: int|
                0 <= a < b < self.entries@.len() implies self.entries@[a].key@
                != self.entries@[b].key@ by {
                let oa = if a == i { last } else { a };
                let ob = if b == i { last } else { b };
                assert(self.entries@[a] == old_entries[oa]);
                assert(self.entries@[b] == old_entries[ob]);
            }
            assert forall|a: int| 0 <= a < self.entries@.len() implies #[trigger]
                self.records@.contains_key(self.entries@[a].key@) && self.records@[self.entries@[
                a].key@] == entry_view(self.entries@[a]) by {
                let oa = if a == i { last } else { a };
                assert(self.entries@[a] == old_entries[oa]);
                assert(oa != i);
                if oa < i {
                    assert(old_entries[oa].key@ != old_entries[i as int].key@);
                } else {
                    assert(old_entries[i as int].key@ != old_entries[oa].key@);
                }
                assert(old(self).records@.contains_key(old_entries[oa].key@));
                assert(old(self).records@[old_entries[oa].key@] == entry_view(old_entries[oa]));
            }
            assert forall|kk: Seq<char>| #[trigger]
                self.records@.contains_key(kk) implies exists|j: int|
                0 <= j < self.entries@.len() && self.entries@[j].key@ == kk by {
                let j = choose|j: int| 0 <= j < old_entries.len() && old_entries[j].key@ == kk;
                assert(j != i);
                if j == last {
                    assert(self.entries@[i as int].key@ == kk);
                } else {
                    assert(self.entries@[j].key@ == kk);
                }
            }
        }
    }

    /// Loads the state stored under `key` as of instant `now` (nanoseconds
    /// since the Unix epoch). An expired record is removed and reads as
    /// absent.
    pub fn load_at(&mut self, key: &str, now: i128) -> (r: Option<SessionState>)
        requires
            old(self).wf(),
        ensures
            final(self).wf(),
            final(self)@.dom().finite(),
            (match r {
                Some(s) => Some(state_view(s@)),
                None => None,
            }, final(self)@) == load_outcome(old(self)@, key@, now as int),
            old(self)@.contains_key(key@) && old(self)@[key@].1 <= now ==> final(self)@.len()
                == old(self)@.len() - 1,
    {
        match self.find(key) {
            None => None,
            Some(i) => {
                proof {
                    assert(self.records@.contains_key(self.entries@[i as int].key@));
                }
                if self.entries[i].expires_at <= now {
                    self.remove_at(i);
                    None
                } else {
                    Some(clone_state(&self.entries[i].state))
                }
            },
        }
    }

    /// Stores `state` under `key` as of instant `now`, to expire `ttl`
    /// nanoseconds later, replacing any record the key had.
    pub fn insert_at(&mut self, key: String, state: SessionState, ttl: i128, now: i128)
        requires
            old(self).wf(),
        ensures
            final(self).wf(),
            final(self)@.dom().finite(),
            final(self)@ == old(self)@.insert(
                key@,
                (state_view(state@), expiry(now as int, ttl as int)),
            ),
    {
        let expires_at = expiry_exec(now, ttl);
        self.put(key, state, expires_at);
    }

    /// Renews the time-to-live of the record under `key` as of instant
    /// `now`; an unknown key is left alone.
    pub fn update_ttl_at(&mut self, key: &str, ttl: i128, now: i128)
        requires
            old(self).wf(),
        ensures
            final(self).wf(),
            final(self)@.dom().finite(),
            final(self)@ == ttl_renewed(old(self)@, key@, ttl as int, now as int),
    {
        match self.find(key) {
            None => {},
            Some(i) => {
                proof {
                    assert(self.records@.contains_key(self.entries@[i as int].key@));
                }
                let k = self.entries[i].key.clone();
                let state = clone_state(&self.entries[i].state);
                let expires_at = expiry_exec(now, ttl);
                self.put(k, state, expires_at);
            },
        }
    }

    /// Loads the state stored under `key` as of the current time (see
    /// [`MemoryStore::load_at`]).
    pub fn load(&mut self, key: &str) -> (r: Option<SessionState>)
        requires
            old(self).wf(),
        ensures
            final(self).wf(),
            final(self)@.dom().finite(),
            exists|now: int|
                (match r {
                    Some(s) => Some(state_view(s@)),
                    None => None,
                }, final(self)@) == load_outcome(old(self)@, key@, now),
            r is None && old(self)@.contains_key(key@) ==> final(self)@.len() == old(self)@.len()
                - 1,
    {
        let now = now_unix_nanos();
        self.load_at(key, now)
    }

    /// Stores `state` under a fresh random session key, to expire `ttl`
    /// nanoseconds from now, and returns the key.
    pub fn save(&mut self, state: SessionState, ttl: i128) -> (r: String)
        requires
            old(self).wf(),
        ensures
            final(self).wf(),
            final(self)@.dom().finite(),
            r@.len() == 64,
            exists|now: int|
                final(self)@ == old(self)@.insert(
                    r@,
                    (state_view(state@), expiry(now, ttl as int)),
                ),
            !old(self)@.contains_key(r@) ==> final(self)@.len() == old(self)@.len() + 1,
            old(self)@.contains_key(r@) ==> final(self)@.len() == old(self)@.len(),
    {
        let key = new_session_key();
        let now = now_unix_nanos();
        self.insert_at(key.clone(), state, ttl, now);
        key
    }

    /// Replaces the state stored under `key`, to expire `ttl` nanoseconds
    /// from now, and returns the key.
    pub fn update(&mut self, key: String, state: SessionState, ttl: i128) -> (r: String)
        requires
            old(self).wf(),
        ensures
            final(self).wf(),
            final(self)@.dom().finite(),
            r@ == key@,
            exists|now: int|
                final(self)@ == old(self)@.insert(
                    key@,
                    (state_view(state@), expiry(now, ttl as int)),
                ),
    {
        let now = now_unix_nanos();
        self.insert_at(key.clone(), state, ttl, now);
        key
    }

    /// Renews the time-to-live of the record under `key` as of the current
    /// time; an unknown key is left alone.
    pub fn update_ttl(&mut self, key: &str, ttl: i128)
        requires
            old(self).wf(),
        ensures
            final(self).wf(),
            final(self)@.dom().finite(),
            exists|now: int| final(self)@ == ttl_renewed(old(self)@, key@, ttl as int, now),
    {
        let now = now_unix_nanos();
        self.update_ttl_at(key, ttl, now);
    }

    /// Removes the record under `key`, if there is one.
    pub fn delete(&mut self, key: &str)
        requires
            old(self).wf(),
        ensures
            final(self).wf(),
            final(self)@.dom().finite(),
            final(self)@ == old(self)@.remove(key@),
    {
        match self.find(key) {
            None => {
                assert(self.records@.remove(key@) =~= self.records@);
            },
            Some(i) => {
                self.remove_at(i);
            },
        }
    }
}


/// A saved state is loaded back: before its expiry, loading the key just
/// written gives the state written and leaves the table as it was.
pub proof fn lemma_saved_state_is_loaded_back(
    m: Map<Seq<char>, RecordView>,
    key: Seq<char>,
    state: StateView,
    expires_at: int,
    now: int,
)
    requires
        now < expires_at,
    ensures
        load_outcome(m.insert(key, (state, expires_at)), key, now) == (
            Some(state),
            m.insert(key, (state, expires_at)),
        ),
{
}

/// A state saved with a positive time-to-live at `now` is loaded back at
/// every instant from `now` until the time-to-live has run out (or the
/// range of `i128` ends), and the load leaves the table as it was.
pub proof fn lemma_saved_state_is_loaded_back_within_ttl(
    m: Map<Seq<char>, RecordView>,
    key: Seq<char>,
    state: StateView,
    now: int,
    ttl: int,
    at: int,
)
    requires
        i128::MIN <= now,
        0 < ttl,
        now <= at < now + ttl,
        at < i128::MAX,
    ensures
        load_outcome(m.insert(key, (state, expiry(now, ttl))), key, at) == (
            Some(state),
            m.insert(key, (state, expiry(now, ttl))),
        ),
{
}

/// Renewing the time-to-live of a held key at `now` makes it expire `ttl`
/// after `now`, whatever its expiry was before, and keeps its state; within
/// the range of `i128` that is `now + ttl`, beyond it the range's bound.
/// An unknown key is left alone, and no other record changes. Once the
/// renewed time-to-live has run out, a load finds nothing.
pub proof fn lemma_ttl_renewal_sets_expiry(
    m: Map<Seq<char>, RecordView>,
    key: Seq<char>,
    ttl: int,
    now: int,
    at: int,
)
    ensures
        !m.contains_key(key) ==> ttl_renewed(m, key, ttl, now) == m,
        m.contains_key(key) ==> ttl_renewed(m, key, ttl, now).dom() == m.dom(),
        forall|k: Seq<char>|
            k != key && m.contains_key(k) ==> #[trigger] ttl_renewed(m, key, ttl, now)[k] == m[k],
        m.contains_key(key) && i128::MIN <= now + ttl <= i128::MAX ==> ttl_renewed(
            m,
            key,
            ttl,
            now,
        )[key] == (m[key].0, now + ttl),
        m.contains_key(key) && now + ttl > i128::MAX ==> ttl_renewed(m, key, ttl, now)[key] == (
            m[key].0,
            i128::MAX as int,
        ),
        m.contains_key(key) && now + ttl < i128::MIN ==> ttl_renewed(m, key, ttl, now)[key] == (
            m[key].0,
            i128::MIN as int,
        ),
        m.contains_key(key) && i128::MIN <= now + ttl <= i128::MAX && at >= now + ttl
            ==> load_outcome(ttl_renewed(m, key, ttl, now), key, at) == (
            None::<StateView>,
            m.remove(key),
        ),
{
    if m.contains_key(key) {
        assert(ttl_renewed(m, key, ttl, now).dom() =~= m.dom());
        assert(ttl_renewed(m, key, ttl, now).remove(key) =~= m.remove(key));
    }
}

/// What a load at `now` does, in terms of the table alone: an unknown key
/// reads as absent and changes nothing; a record whose expiry is after
/// `now` reads as its state and changes nothing; any other record reads as
/// absent and is removed, leaving every other record as it was.
pub proof fn lemma_load_meaning(m: Map<Seq<char>, RecordView>, key: Seq<char>, now: int)
    ensures
        !m.contains_key(key) ==> load_outcome(m, key, now) == (None::<StateView>, m),
        m.contains_key(key) && now < m[key].1 ==> load_outcome(m, key, now) == (Some(m[key].0), m),
        m.contains_key(key) && m[key].1 <= now ==> {
            &&& load_outcome(m, key, now).0 is None
            &&& load_outcome(m, key, now).1.dom() == m.dom().remove(key)
            &&& forall|k: Seq<char>|
                k != key && m.contains_key(k) ==> #[trigger] load_outcome(m, key, now).1[k] == m[k]
        },
{
    if m.contains_key(key) && m[key].1 <= now {
        assert(load_outcome(m, key, now).1.dom() =~= m.dom().remove(key));
    }
}

/// A deleted key loads nothing, at any time.
pub proof fn lemma_deleted_key_loads_nothing(
    m: Map<Seq<char>, RecordView>,
    key: Seq<char>,
    now: int,
)
    ensures
        load_outcome(m.remove(key), key, now).0 is None,
{
}

/// Writing a key again replaces its state: only the last write is held, and
/// the number of records is that after the first write.
pub proof fn lemma_update_replaces_state(
    m: Map<Seq<char>, RecordView>,
    key: Seq<char>,
    first: RecordView,
    second: RecordView,
)
    requires
        m.dom().finite(),
    ensures
        m.insert(key, first).insert(key, second) == m.insert(key, second),
        m.insert(key, first).insert(key, second).len() == m.insert(key, first).len(),
{
    assert(m.insert(key, first).insert(key, second) =~= m.insert(key, second));
    assert(m.insert(key, second).dom() =~= m.insert(key, first).dom());
}

/// An expired record is dropped on load: it reads as absent and is no
/// longer held afterwards.
pub proof fn lemma_expired_record_is_dropped(
    m: Map<Seq<char>, RecordView>,
    key: Seq<char>,
    now: int,
)
    requires
        m.contains_key(key),
        m[key].1 <= now,
    ensures
        load_outcome(m, key, now).0 is None,
        !load_outcome(m, key, now).1.contains_key(key),
        load_outcome(m, key, now).1 == m.remove(key),
{
}

/// Renewing the time-to-live revives a record that was about to expire: a
/// positive time-to-live renewed at `now` makes a load at `now` give the
/// record's state back.
pub proof fn lemma_ttl_renewal_revives(
    m: Map<Seq<char>, RecordView>,
    key: Seq<char>,
    ttl: int,
    now: int,
)
    requires
        m.contains_key(key),
        ttl > 0,
        i128::MIN <= now < i128::MAX,
    ensures
        load_outcome(ttl_renewed(m, key, ttl, now), key, now).0 == Some(m[key].0),
{
}

/// Saving under a key the table does not hold adds one record: the table
/// stays finite and its length grows by one.
pub proof fn lemma_fresh_save_adds_one(
    m: Map<Seq<char>, RecordView>,
    key: Seq<char>,
    record: RecordView,
)
    requires
        m.dom().finite(),
        !m.contains_key(key),
    ensures
        m.insert(key, record).dom().finite(),
        m.insert(key, record).len() == m.len() + 1,
{
}

/// Loading an expired record removes exactly that record: the table stays
/// finite and its length drops by one.
pub proof fn lemma_expired_load_removes_one(
    m: Map<Seq<char>, RecordView>,
    key: Seq<char>,
    now: int,
)
    requires
        m.dom().finite(),
        m.contains_key(key),
        m[key].1 <= now,
    ensures
        load_outcome(m, key, now).1.dom().finite(),
        load_outcome(m, key, now).1.len() == m.len() - 1,
{
}

} // verus!
