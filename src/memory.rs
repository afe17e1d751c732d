use vstd::prelude::*;

use crate::error::DatabaseError;
use crate::store::{CacheWrite, after_insert, after_store_lookup, user_from_cache, StoreFailure, EMAIL_TTL_SECONDS};
use crate::user::{lemma_user_json_injective, decoded, email_cache_key, email_key_of, id_key_of, user_json, NewUser, User, UserView};

verus! {

/// One write the cache received: `payload` under `key`, live until
/// `expires_at` (a time in seconds; forever for `None`).
pub struct CacheSlot {
    pub key: String,
    pub payload: String,
    pub expires_at: Option<u64>,
}

/// What a `CacheSlot` holds, as mathematical values.
pub struct SlotView {
    pub key: Seq<char>,
    pub payload: Seq<char>,
    pub expires_at: Option<u64>,
}

impl View for CacheSlot {
    type V = SlotView;

    open spec fn view(&self) -> SlotView {
        SlotView { key: self.key@, payload: self.payload@, expires_at: self.expires_at }
    }
}

/// A store, a cache and a clock held in memory, driven through the same
/// steps as the pooled backends: the user table, every cache write in the
/// order received, the time in seconds, and how many statements the store
/// has run.
pub struct BackendView {
    pub rows: Seq<UserView>,
    pub slots: Seq<SlotView>,
    pub now: nat,
    pub store_queries: nat,
}

/// The most recent write under `key`.
pub open spec fn latest_slot(slots: Seq<SlotView>, key: Seq<char>) -> Option<SlotView>
    decreases slots.len(),
{
    if slots.len() == 0 {
        None
    } else if slots.last().key == key {
        Some(slots.last())
    } else {
        latest_slot(slots.drop_last(), key)
    }
}

/// What the cache holds under `key` at time `now`: the latest write, unless
/// it has expired.
pub open spec fn live_payload(slots: Seq<SlotView>, key: Seq<char>, now: nat) -> Option<Seq<char>> {
    match latest_slot(slots, key) {
        Some(s) => if s.expires_at matches Some(t) && t <= now {
            None
        } else {
            Some(s.payload)
        },
        None => None,
    }
}

pub open spec fn email_taken(rows: Seq<UserView>, email: Seq<char>) -> bool {
    exists|i: int| 0 <= i < rows.len() && rows[i].email == email
}

/// The row with e-mail address `email`.
pub open spec fn find_row(rows: Seq<UserView>, email: Seq<char>) -> Option<UserView> {
    if email_taken(rows, email) {
        Some(rows[choose|i: int| 0 <= i < rows.len() && rows[i].email == email])
    } else {
        None
    }
}

/// The user that the by-email slot serves at this moment.
pub open spec fn cached_user(b: BackendView, email: Seq<char>) -> Option<UserView> {
    match live_payload(b.slots, email_key_of(email), b.now) {
        Some(p) => decoded(p),
        None => None,
    }
}

/// A lookup by e-mail address: the user found (none: `NotFound`) and the
/// state after it. A cache hit leaves everything as it was; otherwise the
/// store is asked and a row found is written to the by-email slot for an
/// hour.
pub open spec fn lookup(b: BackendView, email: Seq<char>) -> (Option<UserView>, BackendView) {
    match cached_user(b, email) {
        Some(v) => (Some(v), b),
        None => {
            let b1 = BackendView { store_queries: b.store_queries + 1 as nat, ..b };
            match find_row(b.rows, email) {
                Some(v) => (
                    Some(v),
                    BackendView {
                        slots: b.slots.push(
                            SlotView {
                                key: email_key_of(email),
                                payload: user_json(v),
                                expires_at: Some((b.now + EMAIL_TTL_SECONDS) as u64),
                            },
                        ),
                        ..b1
                    },
                ),
                None => (None, b1),
            }
        },
    }
}

/// The row that creating an account appends.
pub open spec fn next_row(b: BackendView, email: Seq<char>, hashed_password: Seq<char>) -> UserView {
    UserView { id: (b.rows.len() + 1) as i32, email, hashed_password }
}

/// Creating an account: whether it succeeded and the state after it. The
/// store refuses a second row with the same e-mail address; a new row is
/// written to its by-id slot with no expiry.
pub open spec fn create(b: BackendView, email: Seq<char>, hashed_password: Seq<char>) -> (bool, BackendView) {
    let b1 = BackendView { store_queries: b.store_queries + 1 as nat, ..b };
    if email_taken(b.rows, email) {
        (false, b1)
    } else {
        let v = next_row(b, email, hashed_password);
        (
            true,
            BackendView {
                rows: b.rows.push(v),
                slots: b.slots.push(SlotView { key: id_key_of(v.id), payload: user_json(v), expires_at: None }),
                ..b1
            },
        )
    }
}

/// No two rows share an e-mail address, and ids count up from one.
pub open spec fn rows_wf(rows: Seq<UserView>) -> bool {
    &&& forall|i: int, j: int|
        0 <= i < rows.len() && 0 <= j < rows.len() && rows[i].email == rows[j].email ==> i == j
    &&& forall|i: int| 0 <= i < rows.len() ==> #[trigger] rows[i].id == i + 1
}

/// An in-memory stand-in for the two pools, for running the access layer
/// without a database or a cache server.
pub struct MemoryBackend {
    rows: Vec<User>,
    slots: Vec<CacheSlot>,
    now: u64,
    store_queries: u64,
}

impl View for MemoryBackend {
    type V = BackendView;

    closed spec fn view(&self) -> BackendView {
        BackendView {
            rows: self.rows@.map_values(|u: User| u@),
            slots: self.slots@.map_values(|s: CacheSlot| s@),
            now: self.now as nat,
            store_queries: self.store_queries as nat,
        }
    }
}

/// A payload read back from a slot decodes to the user it was written for.
pub proof fn lemma_payload_decodes(v: UserView)
    ensures
        decoded(user_json(v)) == Some(v),
{
    let w = choose|w: UserView| user_json(w) == user_json(v);
    lemma_user_json_injective(v, w);
}

/// Writing a user to the by-email slot and reading it back before the entry
/// expires gives the same user, field for field.
pub proof fn lemma_cache_round_trip(b: BackendView, email: Seq<char>, v: UserView, expires_at: Option<u64>)
    requires
        expires_at matches Some(t) ==> b.now < t,
    ensures
        cached_user(
            BackendView {
                slots: b.slots.push(SlotView { key: email_key_of(email), payload: user_json(v), expires_at }),
                ..b
            },
            email,
        ) == Some(v),
{
    let slots = b.slots.push(SlotView { key: email_key_of(email), payload: user_json(v), expires_at });
    assert(latest_slot(slots, email_key_of(email)) == Some(slots.last()));
    lemma_payload_decodes(v);
}

/// Once a lookup has found a user, a second lookup of the same address at the
/// same moment is served from the cache: the store is not asked again and
/// nothing changes.
pub proof fn lemma_repeat_lookup_from_cache(b: BackendView, email: Seq<char>)
    requires
        lookup(b, email).0 is Some,
        b.now + EMAIL_TTL_SECONDS <= u64::MAX,
    ensures
        lookup(lookup(b, email).1, email) == lookup(b, email),
{
    if cached_user(b, email) is None {
        let v = find_row(b.rows, email)->Some_0;
        let b1 = BackendView { store_queries: b.store_queries + 1 as nat, ..b };
        lemma_cache_round_trip(b1, email, v, Some((b.now + EMAIL_TTL_SECONDS) as u64));
    }
}

/// Once the by-email entry has expired, a lookup asks the store again and,
/// where the row is there, writes it back; a second lookup within the new
/// hour does not ask the store.
pub proof fn lemma_expired_entry_refetched(b: BackendView, email: Seq<char>)
    requires
        latest_slot(b.slots, email_key_of(email)) matches Some(s) && s.expires_at matches Some(
            t,
        ) && t <= b.now,
        b.now + EMAIL_TTL_SECONDS <= u64::MAX,
    ensures
        lookup(b, email).1.store_queries == b.store_queries + 1,
        lookup(b, email).0 == find_row(b.rows, email),
        find_row(b.rows, email) is Some ==> lookup(lookup(b, email).1, email).1.store_queries
            == lookup(b, email).1.store_queries,
{
    if find_row(b.rows, email) is Some {
        lemma_repeat_lookup_from_cache(b, email);
    }
}

/// A lookup that finds nothing live in the by-email slot asks the store
/// once, returns the row and writes it to the slot for an hour; the slot then
/// serves that row.
pub proof fn lemma_miss_refills_cache(b: BackendView, email: Seq<char>)
    requires
        cached_user(b, email) is None,
        find_row(b.rows, email) is Some,
        b.now + EMAIL_TTL_SECONDS <= u64::MAX,
    ensures
        lookup(b, email).0 == find_row(b.rows, email),
        lookup(b, email).1.store_queries == b.store_queries + 1,
        lookup(b, email).1.rows == b.rows,
        latest_slot(lookup(b, email).1.slots, email_key_of(email)) == Some(
            SlotView {
                key: email_key_of(email),
                payload: user_json(find_row(b.rows, email)->Some_0),
                expires_at: Some((b.now + EMAIL_TTL_SECONDS) as u64),
            },
        ),
        cached_user(lookup(b, email).1, email) == find_row(b.rows, email),
{
    let v = find_row(b.rows, email)->Some_0;
    let b1 = BackendView { store_queries: b.store_queries + 1 as nat, ..b };
    lemma_cache_round_trip(b1, email, v, Some((b.now + EMAIL_TTL_SECONDS) as u64));
}

/// A created account is written to its by-id slot with no expiry, and that
/// payload reads back as the new row.
pub proof fn lemma_created_row_cached_by_id(b: BackendView, email: Seq<char>, hashed_password: Seq<char>)
    requires
        !email_taken(b.rows, email),
    ensures
        create(b, email, hashed_password).0,
        latest_slot(
            create(b, email, hashed_password).1.slots,
            id_key_of(next_row(b, email, hashed_password).id),
        ) == Some(
            SlotView {
                key: id_key_of(next_row(b, email, hashed_password).id),
                payload: user_json(next_row(b, email, hashed_password)),
                expires_at: None,
            },
        ),
        decoded(user_json(next_row(b, email, hashed_password))) == Some(
            next_row(b, email, hashed_password),
        ),
{
    lemma_payload_decodes(next_row(b, email, hashed_password));
}

/// A by-email entry that does not decode is treated as a miss: the lookup
/// still answers from the store.
pub proof fn lemma_corrupt_entry_falls_through(b: BackendView, email: Seq<char>)
    requires
        live_payload(b.slots, email_key_of(email), b.now) matches Some(p) && decoded(p) is None,
    ensures
        lookup(b, email).0 == find_row(b.rows, email),
        lookup(b, email).1.store_queries == b.store_queries + 1,
{
}

/// A lookup of an address with no row and nothing cached is `NotFound`, and
/// writes nothing to the cache.
pub proof fn lemma_miss_not_cached(b: BackendView, email: Seq<char>)
    requires
        find_row(b.rows, email) is None,
        cached_user(b, email) is None,
    ensures
        lookup(b, email).0 is None,
        lookup(b, email).1.slots == b.slots,
{
}

/// Of two accounts created with one e-mail address, the first succeeds and
/// the second is refused; the table then holds exactly one row with that
/// address.
pub proof fn lemma_duplicate_create_refused(
    b: BackendView,
    email: Seq<char>,
    first: Seq<char>,
    second: Seq<char>,
)
    requires
        rows_wf(b.rows),
        !email_taken(b.rows, email),
        b.rows.len() < i32::MAX,
    ensures
        create(b, email, first).0,
        !create(create(b, email, first).1, email, second).0,
        create(create(b, email, first).1, email, second).1.rows == create(b, email, first).1.rows,
        rows_wf(create(b, email, first).1.rows),
        ({
            let rows = create(b, email, first).1.rows;
            &&& email_taken(rows, email)
            &&& forall|i: int, j: int|
                0 <= i < rows.len() && 0 <= j < rows.len() && rows[i].email == email
                    && rows[j].email == email ==> i == j
        }),
{
    let rows = create(b, email, first).1.rows;
    assert(rows[b.rows.len() as int].email == email);
    assert forall|i: int, j: int|
        0 <= i < rows.len() && 0 <= j < rows.len() && rows[i].email == rows[j].email implies i
        == j by {
        if i < b.rows.len() && j == b.rows.len() {
            assert(rows[i] == b.rows[i]);
        }
        if j < b.rows.len() && i == b.rows.len() {
            assert(rows[j] == b.rows[j]);
        }
    }
}

/// The message the store gives when its unique index refuses a row.
pub const DUPLICATE_EMAIL: &'static str = "duplicate key value violates unique constraint on email";

impl MemoryBackend {
    pub open spec fn wf(&self) -> bool {
        rows_wf(self@.rows)
    }

    /// An empty table, an empty cache, the clock at zero.
    pub fn new() -> (r: MemoryBackend)
        ensures
            r.wf(),
            r@.rows == Seq::<UserView>::empty(),
            r@.slots == Seq::<SlotView>::empty(),
            r@.now == 0,
            r@.store_queries == 0,
    {
        let r = MemoryBackend { rows: Vec::new(), slots: Vec::new(), now: 0, store_queries: 0 };
        assert(r@.rows =~= Seq::<UserView>::empty());
        assert(r@.slots =~= Seq::<SlotView>::empty());
        r
    }

    /// The time in seconds.
    pub fn now(&self) -> (r: u64)
        ensures
            r == self@.now,
    {
        self.now
    }

    /// How many statements the store has run.
    pub fn store_queries(&self) -> (r: u64)
        ensures
            r == self@.store_queries,
    {
        self.store_queries
    }

    /// How many rows the user table holds.
    pub fn row_count(&self) -> (r: usize)
        ensures
            r == self@.rows.len(),
    {
        self.rows.len()
    }

    /// Moves the clock forward.
    pub fn advance(&mut self, seconds: u64)
        requires
            old(self)@.now + seconds <= u64::MAX,
        ensures
            final(self)@ == (BackendView { now: (old(self)@.now + seconds) as nat, ..old(self)@ }),
            final(self).wf() == old(self).wf(),
    {
        self.now = self.now + seconds;
    }

    /// What the cache serves under `key` now.
    pub fn cache_get(&self, key: &String) -> (r: Option<String>)
        ensures
            r matches Some(p) ==> live_payload(self@.slots, key@, self@.now) == Some(p@),
            r is None <==> live_payload(self@.slots, key@, self@.now) is None,
    {
        let ghost all = self@.slots;
        let mut i = self.slots.len();
        assert(all.take(i as int) =~= all);
        while i > 0
            invariant
                i <= self.slots.len(),
                all == self@.slots,
                latest_slot(all, key@) == latest_slot(all.take(i as int), key@),
            decreases i,
        {
            i = i - 1;
            assert(all.take(i + 1).drop_last() =~= all.take(i as int));
            assert(all.take(i + 1).last() == self.slots[i as int]@);
            if self.slots[i].key == *key {
                let slot = &self.slots[i];
                return match slot.expires_at {
                    Some(t) => if t <= self.now {
                        None
                    } else {
                        Some(slot.payload.clone())
                    },
                    None => Some(slot.payload.clone()),
                };
            }
        }
        assert(all.take(0) =~= Seq::<SlotView>::empty());
        None
    }

    /// Applies a write to the cache, stamping its expiry from the clock.
    pub fn cache_put(&mut self, w: CacheWrite)
        requires
            w.ttl_seconds matches Some(t) ==> old(self)@.now + t <= u64::MAX,
        ensures
            final(self)@ == (BackendView {
                slots: old(self)@.slots.push(
                    SlotView {
                        key: w.key@,
                        payload: w.payload@,
                        expires_at: match w.ttl_seconds {
                            Some(t) => Some((old(self)@.now + t) as u64),
                            None => None,
                        },
                    },
                ),
                ..old(self)@
            }),
    {
        let expires_at = match w.ttl_seconds {
            Some(t) => Some(self.now + t),
            None => None,
        };
        let slot = CacheSlot { key: w.key, payload: w.payload, expires_at };
        self.slots.push(slot);
        assert(self@.slots =~= old(self)@.slots.push(slot@));
    }

    /// The store's query by e-mail address.
    fn store_find(&self, email: &str) -> (r: Result<User, StoreFailure>)
        requires
            self.wf(),
        ensures
            match find_row(self@.rows, email@) {
                Some(v) => r matches Ok(u) && u@ == v,
                None => r == Err::<User, StoreFailure>(StoreFailure::NotFound),
            },
    {
        let target = String::from_str(email);
        let ghost rows = self@.rows;
        let mut i: usize = 0;
        while i < self.rows.len()
            invariant
                i <= self.rows.len(),
                rows == self@.rows,
                rows_wf(rows),
                target@ == email@,
                forall|j: int| 0 <= j < i ==> rows[j].email != email@,
            decreases self.rows.len() - i,
        {
            assert(rows[i as int] == self.rows[i as int]@);
            if self.rows[i].email == target {
                proof {
                    assert(rows[i as int].email == email@);
                    assert(email_taken(rows, email@));
                    let k = choose|k: int| 0 <= k < rows.len() && rows[k].email == email@;
                    assert(rows_wf(rows));
                    assert(rows[k].email == rows[i as int].email);
                    assert(k == i);
                }
                return Ok(self.rows[i].duplicate());
            }
            i = i + 1;
        }
        Err(StoreFailure::NotFound)
    }

    /// The store's insert, behind a unique index on e-mail addresses.
    fn store_insert(&mut self, new_user: &NewUser) -> (r: Result<User, StoreFailure>)
        requires
            old(self).wf(),
            old(self)@.rows.len() < i32::MAX,
        ensures
            final(self).wf(),
            email_taken(old(self)@.rows, new_user.email@) ==> (final(self)@ == old(self)@ && r
                is Err && r->Err_0 is UniqueViolation),
            !email_taken(old(self)@.rows, new_user.email@) ==> (r matches Ok(u) && u@ == next_row(
                old(self)@,
                new_user.email@,
                new_user.hashed_password@,
            ) && final(self)@ == (BackendView {
                rows: old(self)@.rows.push(u@),
                ..old(self)@
            })),
    {
        match self.store_find(new_user.email.as_str()) {
            Ok(_) => {
                return Err(StoreFailure::UniqueViolation(String::from_str(DUPLICATE_EMAIL)));
            },
            Err(_) => {},
        }
        let id = (self.rows.len() + 1) as i32;
        let u = User { id, email: new_user.email.clone(), hashed_password: new_user.hashed_password.clone() };
        let ghost before = self@.rows;
        self.rows.push(u.duplicate());
        assert(self@.rows =~= before.push(u@));
        Ok(u)
    }

    /// Looks a user up by e-mail address: the by-email cache slot first, and
    /// on a miss (or a payload that does not decode) the store, whose row is
    /// then cached for an hour. No row is `NotFound`, and is not cached.
    pub fn get_user_by_email(&mut self, email: &str) -> (r: Result<User, DatabaseError>)
        requires
            old(self).wf(),
            old(self)@.store_queries < u64::MAX,
            old(self)@.now + EMAIL_TTL_SECONDS <= u64::MAX,
        ensures
            final(self).wf(),
            final(self)@ == lookup(old(self)@, email@).1,
            match lookup(old(self)@, email@).0 {
                Some(v) => r matches Ok(u) && u@ == v,
                None => r == Err::<User, DatabaseError>(DatabaseError::NotFound),
            },
    {
        let key = email_cache_key(email);
        let cached = self.cache_get(&key);
        match user_from_cache(cached) {
            Some(u) => {
                return Ok(u);
            },
            None => {},
        }
        self.store_queries = self.store_queries + 1;
        let row = self.store_find(email);
        match after_store_lookup(email, row) {
            Ok((u, w)) => {
                self.cache_put(w);
                Ok(u)
            },
            Err(e) => Err(e),
        }
    }

    /// Creates an account. The store assigns the id; a second account with
    /// the same e-mail address is refused with `UserAlreadyExists`. The new
    /// row is then cached under its by-id key with no expiry.
    pub fn create_user(&mut self, new_user: &NewUser) -> (r: Result<(), DatabaseError>)
        requires
            old(self).wf(),
            old(self)@.store_queries < u64::MAX,
            old(self)@.rows.len() < i32::MAX,
        ensures
            final(self).wf(),
            final(self)@ == create(old(self)@, new_user.email@, new_user.hashed_password@).1,
            r is Ok <==> create(old(self)@, new_user.email@, new_user.hashed_password@).0,
            r matches Err(e) ==> e is UserAlreadyExists,
    {
        self.store_queries = self.store_queries + 1;
        let row = self.store_insert(new_user);
        match after_insert(row) {
            Ok(w) => {
                self.cache_put(w);
                Ok(())
            },
            Err(e) => Err(e),
        }
    }
}

} // verus!
