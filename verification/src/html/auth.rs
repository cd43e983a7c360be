//! Session/identity binding: resolving an identity assertion (a cookie
//! value, or a bypass GitHub identity from local configuration) to a user.
//! Cookie and configuration plumbing stay outside the library; this module
//! holds the decision chain.

use vstd::prelude::*;

use crate::db::models::{GithubAccount, User};
use crate::db::store::Store;
use crate::error::DbError;
use crate::error::Error;

verus! {

/// Context for a logged-in user.
pub struct AuthContext {
    /// The authenticated user.
    pub user: User,
}

/// Look up a user by their own username; an unknown name is an
/// authentication failure, never an auto-provisioned account.
pub fn lookup_user(clowder_username: &str, c: &Store) -> (r: Result<User, Error>)
    requires
        c.wf(),
    ensures
        match r {
            Ok(u) => c.has_username(clowder_username@) && u@ == c.user_with_username(
                clowder_username@,
            ),
            Err(e) => !c.has_username(clowder_username@) && e matches Error::AuthError(_),
        },
{
    match User::with_username(clowder_username, c) {
        Ok(u) => Ok(u),
        Err(_) => {
            let mut m = "No such user ('".to_owned();
            m.append(clowder_username);
            m.append("')");
            Err(Error::AuthError(m))
        },
    }
}

/// Look up the user bound to a verified GitHub identity.
pub fn github_user(gh_username: &str, c: &Store) -> (r: Result<User, Error>)
    requires
        c.wf(),
    ensures
        match r {
            Ok(u) => c.has_github_username(gh_username@) && u@ == c.user_with_id(
                c.github_user_id(gh_username@),
            ),
            Err(e) => !c.has_github_username(gh_username@) && e matches Error::AuthError(_),
        },
{
    match GithubAccount::get(gh_username, c) {
        Ok((_, u)) => Ok(u),
        Err(_) => {
            let mut m = "Unknown GitHub user '".to_owned();
            m.append(gh_username);
            m.append("'");
            Err(Error::AuthError(m))
        },
    }
}

/// Resolve an identity assertion to a user: try the cookie identity first,
/// and on any failure fall back to the bypass GitHub identity permitted by
/// local policy.  A missing assertion demands login; an unrecognized one
/// fails, and never creates a user.
pub fn authenticate(
    cookie_username: Option<&str>,
    bypass_github: Option<&str>,
    c: &Store,
) -> (r: Result<AuthContext, Error>)
    requires
        c.wf(),
    ensures
        match r {
            Ok(ctx) => {
                ||| (cookie_username matches Some(u) && c.has_username(u@) && ctx.user@
                    == c.user_with_username(u@))
                ||| ((cookie_username is None || (cookie_username matches Some(u)
                    && !c.has_username(u@))) && (bypass_github matches Some(g)
                    && c.has_github_username(g@) && ctx.user@ == c.user_with_id(
                    c.github_user_id(g@),
                )))
            },
            Err(e) => {
                &&& (cookie_username is None || (cookie_username matches Some(u)
                    && !c.has_username(u@)))
                &&& (bypass_github is None ==> e matches Error::AuthRequired)
                &&& (bypass_github matches Some(g) ==> !c.has_github_username(g@))
                &&& (bypass_github is Some ==> e matches Error::AuthError(_))
            },
        },
{
    let primary: Result<User, Error> = match cookie_username {
        Option::Some(u) => lookup_user(u, c),
        Option::None => Err(Error::AuthRequired),
    };
    match primary {
        Ok(user) => Ok(AuthContext { user }),
        Err(_) => match bypass_github {
            Option::Some(g) => match github_user(g, c) {
                Ok(user) => Ok(AuthContext { user }),
                Err(e) => Err(e),
            },
            Option::None => Err(Error::AuthRequired),
        },
    }
}

/// The HTTP status that an authentication failure maps to: forbidden for a
/// recognized-but-rejected assertion, unauthorized when login is required,
/// and an internal error otherwise.
pub fn auth_failure_status(e: &Error) -> (r: u16)
    ensures
        e matches Error::AuthError(_) ==> r == 403,
        e matches Error::AuthRequired ==> r == 401,
        (e matches Error::DatabaseError(d) && d == DbError::NotFound) ==> r == 403,
        match e {
            Error::AuthError(_) => true,
            Error::AuthRequired => true,
            Error::DatabaseError(d) => d != DbError::NotFound ==> r == 500,
            _ => r == 500,
        },
{
    match e {
        Error::AuthError(_) => 403,
        Error::AuthRequired => 401,
        Error::DatabaseError(d) => {
            if *d == DbError::NotFound {
                403
            } else {
                500
            }
        },
        _ => 500,
    }
}

} // verus!
