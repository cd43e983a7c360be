//! Error taxonomy for the reservation system.

use vstd::prelude::*;

verus! {

/// An error surfaced by the entity store, mirroring the distinguished
/// failure kinds of a relational backend.
#[derive(Clone, Copy, Debug, PartialEq, Eq, Structural)]
pub enum DbError {
    /// A keyed lookup matched no row.
    NotFound,
    /// A write would violate a uniqueness constraint.
    UniqueViolation,
    /// A write referenced a row that does not exist.
    ForeignKeyViolation,
    /// A write left a required column unset.
    NotNullViolation,
}

impl DbError {
    /// A short human-readable description of the failure.
    pub fn message(&self) -> (r: &'static str)
        ensures
            *self == DbError::NotFound ==> r@ == "record not found"@,
            *self == DbError::UniqueViolation ==> r@ == "uniqueness constraint violated"@,
            *self == DbError::ForeignKeyViolation ==> r@ == "foreign key constraint violated"@,
            *self == DbError::NotNullViolation ==> r@ == "not-null constraint violated"@,
    {
        match self {
            DbError::NotFound => "record not found",
            DbError::UniqueViolation => "uniqueness constraint violated",
            DbError::ForeignKeyViolation => "foreign key constraint violated",
            DbError::NotNullViolation => "not-null constraint violated",
        }
    }
}

/// An application-level error.
#[derive(Debug)]
pub enum Error {
    /// Error authenticating a user.
    AuthError(String),
    /// Login is required to access a resource.
    AuthRequired,
    /// The server itself is misconfigured.
    ConfigError(String),
    /// An otherwise-uninterpreted failure of the entity store.
    DatabaseError(DbError),
    /// The user made an invalid request.
    BadRequest(String),
    /// Invalid data was received from somewhere.
    InvalidData(String),
    /// There was a problem communicating with a remote host.
    NetError(String),
    /// The user is not permitted to perform the requested action.
    NotAuthorized(String),
}

impl Error {
    /// The kind of this error, as a short label.
    pub fn kind(&self) -> (r: &'static str)
        ensures
            r@ == self.kind_spec(),
    {
        match self {
            Error::AuthError(_) => "Authentication error",
            Error::AuthRequired => "Authorization required",
            Error::BadRequest(_) => "Bad request",
            Error::ConfigError(_) => "Configuration error",
            Error::DatabaseError(_) => "Database error",
            Error::InvalidData(_) => "Invalid data",
            Error::NetError(_) => "Network error",
            Error::NotAuthorized(_) => "Authorization error",
        }
    }

    /// What `kind` returns for each variant.
    pub open spec fn kind_spec(&self) -> Seq<char> {
        match self {
            Error::AuthError(_) => "Authentication error"@,
            Error::AuthRequired => "Authorization required"@,
            Error::BadRequest(_) => "Bad request"@,
            Error::ConfigError(_) => "Configuration error"@,
            Error::DatabaseError(_) => "Database error"@,
            Error::InvalidData(_) => "Invalid data"@,
            Error::NetError(_) => "Network error"@,
            Error::NotAuthorized(_) => "Authorization error"@,
        }
    }
}

impl From<DbError> for Error {
    fn from(e: DbError) -> (r: Error) {
        Error::DatabaseError(e)
    }
}

impl vstd::std_specs::convert::FromSpecImpl<DbError> for Error {
    open spec fn obeys_from_spec() -> bool {
        true
    }

    open spec fn from_spec(e: DbError) -> Error {
        Error::DatabaseError(e)
    }
}

} // verus!
