//! The error type surfaced to request handlers, with the labels and
//! messages that error pages present.

use vstd::prelude::*;

use crate::error::DbError;

verus! {

/// A request-level error.
#[derive(Debug)]
pub enum Error {
    /// Error authenticating a user.
    AuthError(String),
    /// Login is required to access a resource.
    AuthRequired,
    /// The server itself is misconfigured.
    ConfigError(String),
    /// An otherwise-uninterpreted failure of the entity store.
    DatabaseError(DbError),
    /// The user made an invalid request.
    BadRequest(String),
    /// Invalid data was received from somewhere.
    InvalidData(String),
    /// There was a problem communicating with a remote host.
    NetError(String),
    /// The user is not permitted to perform the requested action.
    NotAuthorized(String),
}

impl Error {
    /// The kind of this error, as a short page heading.
    pub fn kind(&self) -> (r: &'static str)
        ensures
            r@ == self.kind_spec(),
    {
        match self {
            Error::AuthError(_) => "Authorization error",
            Error::AuthRequired => "Authorization required",
            Error::BadRequest(_) => "Bad request",
            Error::ConfigError(_) => "Configuration error",
            Error::DatabaseError(_) => "Database error",
            Error::InvalidData(_) => "Invalid data",
            Error::NetError(_) => "Network error",
            Error::NotAuthorized(_) => "Authorization error",
        }
    }

    /// What `kind` returns for each variant.
    pub open spec fn kind_spec(&self) -> Seq<char> {
        match self {
            Error::AuthError(_) => "Authorization error"@,
            Error::AuthRequired => "Authorization required"@,
            Error::BadRequest(_) => "Bad request"@,
            Error::ConfigError(_) => "Configuration error"@,
            Error::DatabaseError(_) => "Database error"@,
            Error::InvalidData(_) => "Invalid data"@,
            Error::NetError(_) => "Network error"@,
            Error::NotAuthorized(_) => "Authorization error"@,
        }
    }

    /// What `msg` returns for each variant.
    pub open spec fn msg_spec(&self) -> Seq<char> {
        match self {
            Error::AuthError(m) => m@,
            Error::AuthRequired => "Authorization required"@,
            Error::BadRequest(m) => m@,
            Error::ConfigError(m) => m@,
            Error::DatabaseError(e) => match e {
                DbError::NotFound => "record not found"@,
                DbError::UniqueViolation => "uniqueness constraint violated"@,
                DbError::ForeignKeyViolation => "foreign key constraint violated"@,
                DbError::NotNullViolation => "not-null constraint violated"@,
            },
            Error::InvalidData(m) => m@,
            Error::NetError(m) => m@,
            Error::NotAuthorized(m) => m@,
        }
    }

    /// The message body an error page shows, consuming the error.
    pub fn msg(self) -> (r: String)
        ensures
            r@ == self.msg_spec(),
    {
        match self {
            Error::AuthError(m) => m,
            Error::AuthRequired => "Authorization required".to_owned(),
            Error::BadRequest(m) => m,
            Error::ConfigError(m) => m,
            Error::DatabaseError(e) => e.message().to_owned(),
            Error::InvalidData(m) => m,
            Error::NetError(m) => m,
            Error::NotAuthorized(m) => m,
        }
    }
}

} // verus!
