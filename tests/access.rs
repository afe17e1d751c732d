use user_access::error::DatabaseError;
use user_access::flow::{login_outcome, passwords_match, registration_check, LoginOutcome, RegisterForm};
use user_access::memory::MemoryBackend;
use user_access::password::{check_password, hash_password, verify_password};
use user_access::session::Session;
use user_access::store::{
    after_insert, after_store_lookup, result_after_cache_write, user_from_cache, CacheWrite, StoreFailure,
};
use user_access::user::{decimal_string, decode_user, email_cache_key, encode_user, id_cache_key, NewUser, User};

fn s(x: &str) -> String {
    x.to_string()
}

fn sample() -> User {
    User { id: 7, email: s("a@x.com"), hashed_password: s("$argon2id$v=19$m=19456,t=2,p=1$c2FsdA$aGFzaA") }
}

#[test]
fn hash_then_verify_accepts_same_password() {
    let h = hash_password(&s("secret1")).unwrap();
    assert!(h.starts_with("$argon2id$v=19$m=19456,t=2,p=1$"));
    assert!(h.len() > 31);
    assert!(verify_password(&s("secret1"), &h));
}

#[test]
fn verify_rejects_other_password() {
    let h = hash_password(&s("secret1")).unwrap();
    assert!(!verify_password(&s("secret2"), &h));
    assert_eq!(check_password(&s("secret2"), &h), Ok(false));
}

#[test]
fn two_hashes_differ_and_both_verify() {
    let a = hash_password(&s("pw")).unwrap();
    let b = hash_password(&s("pw")).unwrap();
    assert_ne!(a, b);
    assert!(verify_password(&s("pw"), &a));
    assert!(verify_password(&s("pw"), &b));
}

#[test]
fn malformed_hash_is_false_not_error() {
    assert!(!verify_password(&s("pw"), &s("not a hash")));
    assert!(matches!(check_password(&s("pw"), &s("not a hash")), Err(DatabaseError::MalformedHash(_))));
}

#[test]
fn new_user_keeps_only_the_hash() {
    let n = NewUser::new(&s("a@x.com"), &s("secret1")).unwrap();
    assert_eq!(n.email, "a@x.com");
    assert_ne!(n.hashed_password, "secret1");
    assert!(verify_password(&s("secret1"), &n.hashed_password));
}

#[test]
fn decimal_forms() {
    assert_eq!(decimal_string(0), "0");
    assert_eq!(decimal_string(42), "42");
    assert_eq!(decimal_string(-305), "-305");
    assert_eq!(decimal_string(i32::MIN), "-2147483648");
    assert_eq!(decimal_string(i32::MAX), "2147483647");
}

#[test]
fn cache_keys() {
    assert_eq!(id_cache_key(42), "user:42");
    assert_eq!(email_cache_key("a@x.com"), "user_email:a@x.com");
}

#[test]
fn payload_is_json_of_the_user() {
    assert_eq!(
        encode_user(&sample()),
        "{\"id\":7,\"email\":\"a@x.com\",\"hashed_password\":\"$argon2id$v=19$m=19456,t=2,p=1$c2FsdA$aGFzaA\"}"
    );
    let q = User { id: -3, email: s("q\"b\\c"), hashed_password: s("") };
    assert_eq!(encode_user(&q), "{\"id\":-3,\"email\":\"q\\\"b\\\\c\",\"hashed_password\":\"\"}");
    let c = User { id: 1, email: s("a\nb\u{1f}"), hashed_password: s("h") };
    assert_eq!(encode_user(&c), "{\"id\":1,\"email\":\"a\\u000ab\\u001f\",\"hashed_password\":\"h\"}");
}

#[test]
fn payload_round_trip() {
    for u in [
        sample(),
        User { id: -3, email: s("q\"b\\c"), hashed_password: s("") },
        User { id: i32::MIN, email: s("é@ü.de"), hashed_password: s("\\\\") },
        User { id: i32::MAX, email: s(""), hashed_password: s("\"") },
        User { id: 0, email: s("tab\there\nnl\u{0}\u{1f}"), hashed_password: s("\r") },
    ] {
        let back = decode_user(&encode_user(&u)).unwrap();
        assert_eq!(back.id, u.id);
        assert_eq!(back.email, u.email);
        assert_eq!(back.hashed_password, u.hashed_password);
    }
}

#[test]
fn corrupted_payloads_do_not_decode() {
    let good = encode_user(&sample());
    assert!(decode_user(&good[..good.len() - 1]).is_none());
    assert!(decode_user("").is_none());
    assert!(decode_user("{\"id\":07,\"email\":\"a\",\"hashed_password\":\"b\"}").is_none());
    assert!(decode_user("{\"id\":2147483648,\"email\":\"a\",\"hashed_password\":\"b\"}").is_none());
    assert!(decode_user("{\"id\":1,\"email\":\"a\",\"hashed_password\":\"b\"} ").is_none());
    assert!(decode_user("not json").is_none());
    assert!(decode_user("{\"id\":1,\"email\":\"\\u0041\",\"hashed_password\":\"b\"}").is_none());
    assert!(decode_user("{\"id\":1,\"email\":\"\\n\",\"hashed_password\":\"b\"}").is_none());
}

#[test]
fn cache_step_hit_miss_and_corruption() {
    let hit = user_from_cache(Some(encode_user(&sample()))).unwrap();
    assert_eq!(hit.id, 7);
    assert!(user_from_cache(None).is_none());
    assert!(user_from_cache(Some(s("{garbage"))).is_none());
}

#[test]
fn store_step_found_and_missing() {
    let (u, w) = after_store_lookup("a@x.com", Ok(sample())).unwrap();
    assert_eq!(u.id, 7);
    assert_eq!(w.key, "user_email:a@x.com");
    assert_eq!(w.payload, encode_user(&sample()));
    assert_eq!(w.ttl_seconds, Some(3600));
    assert!(matches!(after_store_lookup("m@x.com", Err(StoreFailure::NotFound)), Err(DatabaseError::NotFound)));
    assert!(matches!(
        after_store_lookup("m@x.com", Err(StoreFailure::Other(s("down")))),
        Err(DatabaseError::DieselError(m)) if m == "down"
    ));
}

#[test]
fn insert_step_writes_by_id_slot() {
    let w = after_insert(Ok(sample())).unwrap();
    assert_eq!(w.key, "user:7");
    assert_eq!(w.ttl_seconds, None);
    assert!(matches!(
        after_insert(Err(StoreFailure::UniqueViolation(s("dup")))),
        Err(DatabaseError::UserAlreadyExists(m)) if m == "dup"
    ));
}

fn new_user(email: &str, password: &str) -> NewUser {
    NewUser::new(&s(email), &s(password)).unwrap()
}

#[test]
fn scenario_create_then_lookups() {
    let mut b = MemoryBackend::new();
    // create
    assert_eq!(b.create_user(&new_user("a@x.com", "secret1")), Ok(()));
    assert_eq!(b.row_count(), 1);
    assert_eq!(b.store_queries(), 1);
    // first lookup: the by-email slot is empty, the store answers
    let u = b.get_user_by_email("a@x.com").unwrap();
    assert_eq!(u.id, 1);
    assert_eq!(u.email, "a@x.com");
    assert!(verify_password(&s("secret1"), &u.hashed_password));
    assert_eq!(b.store_queries(), 2);
    // second lookup within the hour: served by the cache
    let again = b.get_user_by_email("a@x.com").unwrap();
    assert_eq!(again.id, 1);
    assert_eq!(again.hashed_password, u.hashed_password);
    assert_eq!(b.store_queries(), 2);
}

#[test]
fn scenario_missing_user() {
    let mut b = MemoryBackend::new();
    assert_eq!(b.get_user_by_email("missing@x.com").unwrap_err(), DatabaseError::NotFound);
    assert!(b.cache_get(&email_cache_key("missing@x.com")).is_none());
    assert_eq!(b.store_queries(), 1);
}

#[test]
fn expired_entry_goes_back_to_store() {
    let mut b = MemoryBackend::new();
    b.create_user(&new_user("a@x.com", "pw")).unwrap();
    b.get_user_by_email("a@x.com").unwrap();
    assert_eq!(b.store_queries(), 2);
    b.advance(3599);
    b.get_user_by_email("a@x.com").unwrap();
    assert_eq!(b.store_queries(), 2);
    b.advance(1);
    assert!(b.cache_get(&email_cache_key("a@x.com")).is_none());
    b.get_user_by_email("a@x.com").unwrap();
    assert_eq!(b.store_queries(), 3);
    b.get_user_by_email("a@x.com").unwrap();
    assert_eq!(b.store_queries(), 3);
}

#[test]
fn duplicate_email_refused() {
    let mut b = MemoryBackend::new();
    assert!(b.create_user(&new_user("a@x.com", "one")).is_ok());
    assert!(matches!(b.create_user(&new_user("a@x.com", "two")), Err(DatabaseError::UserAlreadyExists(_))));
    assert_eq!(b.row_count(), 1);
    let u = b.get_user_by_email("a@x.com").unwrap();
    assert!(verify_password(&s("one"), &u.hashed_password));
}

#[test]
fn create_caches_by_id_only() {
    let mut b = MemoryBackend::new();
    b.create_user(&new_user("a@x.com", "pw")).unwrap();
    assert!(b.cache_get(&id_cache_key(1)).is_some());
    assert!(b.cache_get(&email_cache_key("a@x.com")).is_none());
    assert!(b.cache_get(&id_cache_key(1)).map(|p| decode_user(&p).unwrap().email) == Some(s("a@x.com")));
}

#[test]
fn corrupted_cache_entry_falls_through() {
    let mut b = MemoryBackend::new();
    b.create_user(&new_user("a@x.com", "pw")).unwrap();
    b.cache_put(CacheWrite { key: email_cache_key("a@x.com"), payload: s("{\"id\":"), ttl_seconds: Some(3600) });
    let u = b.get_user_by_email("a@x.com").unwrap();
    assert_eq!(u.id, 1);
    assert_eq!(b.store_queries(), 2);
    b.get_user_by_email("a@x.com").unwrap();
    assert_eq!(b.store_queries(), 2);
}

#[test]
fn session_establish_and_purge() {
    let mut session = Session::anonymous();
    assert_eq!(session.current_user_id(), None);
    session.establish(42);
    assert_eq!(session.current_user_id(), Some(42));
    session.purge();
    assert_eq!(session.current_user_id(), None);
    session.purge();
    assert_eq!(session.current_user_id(), None);
    assert_eq!(Session::from_user_id(Some(9)).current_user_id(), Some(9));
}

#[test]
fn login_decisions() {
    let h = hash_password(&s("secret1")).unwrap();
    let u = User { id: 5, email: s("a@x.com"), hashed_password: h };
    assert_eq!(login_outcome(Ok(u.clone()), &s("secret1")), LoginOutcome::SignIn(5));
    assert_eq!(login_outcome(Ok(u), &s("nope")), LoginOutcome::InvalidCredentials);
    assert_eq!(login_outcome(Err(DatabaseError::NotFound), &s("x")), LoginOutcome::InvalidCredentials);
    assert_eq!(login_outcome(Err(DatabaseError::R2D2Error(s("t"))), &s("x")), LoginOutcome::Unavailable);
    let bad = User { id: 6, email: s("b@x.com"), hashed_password: s("garbage") };
    assert_eq!(login_outcome(Ok(bad), &s("x")), LoginOutcome::InvalidCredentials);
}

#[test]
fn registration_decisions() {
    let form = RegisterForm { email: s("a@x.com"), password: s("p"), password_confirm: s("q") };
    assert!(!passwords_match(&form));
    let same = RegisterForm { email: s("a@x.com"), password: s("p"), password_confirm: s("p") };
    assert!(passwords_match(&same));
    assert_eq!(
        registration_check(Ok(sample())),
        Err(DatabaseError::UserAlreadyExists(s("An account already exists with that mail")))
    );
    assert_eq!(registration_check(Err(DatabaseError::NotFound)), Ok(()));
    assert_eq!(
        registration_check(Err(DatabaseError::RedisOperationError(s("x")))),
        Err(DatabaseError::RedisOperationError(s("x")))
    );
}

#[test]
fn error_messages() {
    assert_eq!(DatabaseError::R2D2Error(s("timed out")).message(), "Connection Pool Error: timed out");
    assert_eq!(DatabaseError::UserAlreadyExists(s("dup")).message(), "User already exists: dup");
    assert_eq!(DatabaseError::NotFound.message(), "Database Operation Error: Record not found");
    assert_eq!(DatabaseError::SessionError(s("w")).message(), "Session error: w");
}

#[test]
fn payload_reads_as_json_elsewhere() {
    let u = User { id: -12, email: s("q\"b\\c@x.com\n\u{7}"), hashed_password: s("$argon2id$x") };
    let v: serde_json::Value = serde_json::from_str(&encode_user(&u)).unwrap();
    assert_eq!(v["id"].as_i64(), Some(-12));
    assert_eq!(v["email"].as_str(), Some("q\"b\\c@x.com\n\u{7}"));
    assert_eq!(v["hashed_password"].as_str(), Some("$argon2id$x"));
}

#[test]
fn empty_password_hashes() {
    let h = hash_password(&s("")).unwrap();
    assert!(h.starts_with("$argon2id$v=19$m=19456,t=2,p=1$"));
    assert!(verify_password(&s(""), &h));
    assert!(!verify_password(&s("x"), &h));
}

#[test]
fn failed_cache_write_is_not_fatal() {
    let (r, logged) = result_after_cache_write(5, Err(DatabaseError::RedisOperationError(s("down"))));
    assert_eq!(r, Ok(5));
    assert_eq!(logged, Some(DatabaseError::RedisOperationError(s("down"))));
    let (r, logged) = result_after_cache_write((), Ok(()));
    assert_eq!(r, Ok(()));
    assert_eq!(logged, None);
}
