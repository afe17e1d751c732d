use vstd::prelude::*;

verus! {

/// Every failure the access layer reports to its callers.
///
/// Upstream detail (a driver's or a pool's message) is carried as text, so
/// the taxonomy does not depend on which store or cache client is in use.
#[derive(Debug, Clone, PartialEq, Eq)]
pub enum DatabaseError {
    /// A connection could not be checked out of a pool in time.
    R2D2Error(String),
    /// The durable store failed while running a statement.
    DieselError(String),
    /// No row matched the lookup key.
    NotFound,
    /// The cache failed while running a command.
    RedisOperationError(String),
    /// A user could not be encoded for the cache.
    SerializationError(String),
    /// A cached payload could not be decoded.
    DeserializationError(String),
    /// The password hasher failed.
    Argon2Error(String),
    /// A stored password hash could not be parsed.
    MalformedHash(String),
    /// The uniqueness rule on e-mail addresses refused a row.
    UserAlreadyExists(String),
    /// The session could not record the signed-in user.
    SessionError(String),
}

/// The text a failure is reported with: a heading for its kind, then the
/// upstream detail.
pub open spec fn message_of(e: DatabaseError) -> Seq<char> {
    match e {
        DatabaseError::R2D2Error(m) => "Connection Pool Error: "@ + m@,
        DatabaseError::DieselError(m) => "Database Operation Error: "@ + m@,
        DatabaseError::NotFound => "Database Operation Error: Record not found"@,
        DatabaseError::RedisOperationError(m) => "Redis operation error: "@ + m@,
        DatabaseError::SerializationError(m) => "Serialization error: "@ + m@,
        DatabaseError::DeserializationError(m) => "Deserialization error: "@ + m@,
        DatabaseError::Argon2Error(m) => "Argon2 error: "@ + m@,
        DatabaseError::MalformedHash(m) => "Malformed password hash: "@ + m@,
        DatabaseError::UserAlreadyExists(m) => "User already exists: "@ + m@,
        DatabaseError::SessionError(m) => "Session error: "@ + m@,
    }
}

impl DatabaseError {
    /// The text this failure is reported with.
    pub fn message(&self) -> (r: String)
        ensures
            r@ == message_of(*self),
    {
        match self {
            DatabaseError::R2D2Error(m) => String::from_str("Connection Pool Error: ").concat(m.as_str()),
            DatabaseError::DieselError(m) => String::from_str("Database Operation Error: ").concat(m.as_str()),
            DatabaseError::NotFound => String::from_str("Database Operation Error: Record not found"),
            DatabaseError::RedisOperationError(m) => String::from_str("Redis operation error: ").concat(m.as_str()),
            DatabaseError::SerializationError(m) => String::from_str("Serialization error: ").concat(m.as_str()),
            DatabaseError::DeserializationError(m) => String::from_str("Deserialization error: ").concat(m.as_str()),
            DatabaseError::Argon2Error(m) => String::from_str("Argon2 error: ").concat(m.as_str()),
            DatabaseError::MalformedHash(m) => String::from_str("Malformed password hash: ").concat(m.as_str()),
            DatabaseError::UserAlreadyExists(m) => String::from_str("User already exists: ").concat(m.as_str()),
            DatabaseError::SessionError(m) => String::from_str("Session error: ").concat(m.as_str()),
        }
    }
}

} // verus!
