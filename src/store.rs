use vstd::prelude::*;

use crate::error::DatabaseError;
use crate::user::{
    decode_user, decoded, email_cache_key, email_key_of, encode_user, id_cache_key, id_key_of,
    user_json, User, UserView,
};

verus! {

/// How long a user found by e-mail address stays in the cache, in seconds.
pub const EMAIL_TTL_SECONDS: u64 = 3600;

/// A write that the cache is to receive: `payload` under `key`, expiring
/// after `ttl_seconds` (never, for `None`).
pub struct CacheWrite {
    pub key: String,
    pub payload: String,
    pub ttl_seconds: Option<u64>,
}

/// Why the durable store refused or failed a statement, as the store's
/// client reports it.
#[derive(Debug, Clone, PartialEq, Eq)]
pub enum StoreFailure {
    /// The unique index on the e-mail column refused the row.
    UniqueViolation(String),
    /// No row matched.
    NotFound,
    /// Anything else the store reported.
    Other(String),
}

/// The error the access layer reports for a failure of the durable store.
pub open spec fn store_error(f: StoreFailure) -> DatabaseError {
    match f {
        StoreFailure::UniqueViolation(m) => DatabaseError::UserAlreadyExists(m),
        StoreFailure::NotFound => DatabaseError::NotFound,
        StoreFailure::Other(m) => DatabaseError::DieselError(m),
    }
}

/// Maps a failure of the durable store onto the access layer's errors.
pub fn from_store_failure(f: StoreFailure) -> (r: DatabaseError)
    ensures
        r == store_error(f),
{
    match f {
        StoreFailure::UniqueViolation(m) => DatabaseError::UserAlreadyExists(m),
        StoreFailure::NotFound => DatabaseError::NotFound,
        StoreFailure::Other(m) => DatabaseError::DieselError(m),
    }
}

/// The first step of a lookup by e-mail address: what the by-email cache slot
/// held. A payload that decodes is a hit; an empty slot or a payload that does
/// not decode (a corrupted entry) sends the lookup on to the store.
pub fn user_from_cache(payload: Option<String>) -> (r: Option<User>)
    ensures
        payload is None ==> r is None,
        payload matches Some(p) ==> match decoded(p@) {
            Some(v) => r matches Some(u) && u@ == v,
            None => r is None,
        },
{
    match payload {
        None => None,
        Some(p) => decode_user(p.as_str()),
    }
}

/// The second step of a lookup by e-mail address: what the store answered.
/// A row is returned together with the write that puts it in the by-email
/// slot for an hour; no row is `NotFound`, and nothing is cached for it.
pub fn after_store_lookup(email: &str, row: Result<User, StoreFailure>) -> (r: Result<
    (User, CacheWrite),
    DatabaseError,
>)
    ensures
        row matches Ok(u) ==> (r matches Ok((v, w)) && v@ == u@ && w.key@ == email_key_of(email@)
            && w.payload@ == user_json(u@) && w.ttl_seconds == Some(EMAIL_TTL_SECONDS)),
        row matches Err(f) ==> r == Err::<(User, CacheWrite), DatabaseError>(store_error(f)),
{
    match row {
        Ok(u) => {
            let w = CacheWrite {
                key: email_cache_key(email),
                payload: encode_user(&u),
                ttl_seconds: Some(EMAIL_TTL_SECONDS),
            };
            Ok((u, w))
        },
        Err(f) => Err(from_store_failure(f)),
    }
}

/// What follows an insert: the new row goes to the by-id slot, with no
/// expiry. A refusal by the unique index is `UserAlreadyExists`.
pub fn after_insert(row: Result<User, StoreFailure>) -> (r: Result<CacheWrite, DatabaseError>)
    ensures
        row matches Ok(u) ==> (r matches Ok(w) && w.key@ == id_key_of(u.id) && w.payload@
            == user_json(u@) && w.ttl_seconds is None),
        row matches Err(f) ==> r == Err::<CacheWrite, DatabaseError>(store_error(f)),
{
    match row {
        Ok(u) => Ok(CacheWrite { key: id_cache_key(u.id), payload: encode_user(&u), ttl_seconds: None }),
        Err(f) => Err(from_store_failure(f)),
    }
}

/// The result of a store operation that succeeded with `value`, once the
/// cache write that follows it has run: still `Ok(value)`, since the store is
/// the source of truth and a later read fills the cache again. A failed write
/// is handed back beside it, to be logged.
pub fn result_after_cache_write<T>(value: T, write: Result<(), DatabaseError>) -> (r: (
    Result<T, DatabaseError>,
    Option<DatabaseError>,
))
    ensures
        r.0 == Ok::<T, DatabaseError>(value),
        r.1 == match write {
            Ok(()) => None::<DatabaseError>,
            Err(e) => Some(e),
        },
{
    match write {
        Ok(()) => (Ok(value), None),
        Err(e) => (Ok(value), Some(e)),
    }
}

} // verus!
