//! Registration and login.

use vstd::prelude::*;

use crate::api_errors::ApiError;
use crate::array_string_types::{bytes_of, UsernameString, UuidString, USERNAME_MAX_LEN};
use crate::crypto::{SALT_BYTES_LEN, SECRET_MAX_LEN};
use crate::database::{has_key, lemma_find_by_key, username_key, Database, StoreError};
use crate::services::user::{authenticated_user, create_user, is_username_taken, new_user_row};

verus! {

/// Shortest accepted user name, in bytes.
pub const USERNAME_MIN_LEN: usize = 3;

/// Shortest accepted password, in bytes.
pub const PASSWORD_MIN_LEN: usize = 10;

/// Why a registration is refused before anything is stored, in the order
/// the checks are made, or `None` when it goes ahead.
pub open spec fn register_error(
    db: &Database,
    username: Seq<char>,
    password: Seq<char>,
    password2: Seq<char>,
) -> Option<ApiError> {
    if bytes_of(username).len() < USERNAME_MIN_LEN {
        Some(ApiError::UsernameTooShort)
    } else if bytes_of(password).len() < PASSWORD_MIN_LEN {
        Some(ApiError::PasswordTooShort)
    } else if password != password2 {
        Some(ApiError::PasswordsDontMatch)
    } else if has_key(db.users@, username_key(), username) {
        Some(ApiError::UsernameTaken)
    } else {
        None
    }
}

/// `db` holds a session `token` of user `user_id` created at `now`.
pub open spec fn holds_session(db: &Database, token: UuidString, user_id: i32, now: i64) -> bool {
    exists|i: int|
        0 <= i < db.sessions@.len() && #[trigger] db.sessions@[i].uuid == token
            && db.sessions@[i].user_id == user_id && db.sessions@[i].created_at == now
}

/// Logs in as `username` at time `now`, returning the new session's token.
/// A wrong name or password gives `InvalidCredentials`; a failure of the
/// random source or a token collision gives `DbError`.
pub fn login(db: &mut Database, username: &UsernameString, password: &String, now: i64) -> (r: Result<
    UuidString,
    ApiError,
>)
    requires
        old(db).wf(),
        bytes_of(username.0@).len() <= USERNAME_MAX_LEN,
        bytes_of(password@).len() < SECRET_MAX_LEN,
    ensures
        final(db).wf(),
        r is Err ==> *final(db) == *old(db),
        match authenticated_user(old(db), username.0@, password@) {
            None => r == Err::<UuidString, ApiError>(ApiError::InvalidCredentials) || r == Err::<
                UuidString,
                ApiError,
            >(ApiError::DbError),
            Some(u) => {
                &&& r is Err ==> r == Err::<UuidString, ApiError>(ApiError::DbError)
                &&& r matches Ok(t) ==> holds_session(final(db), t, u.id, now)
                    && final(db).sessions@.len() == old(db).sessions@.len() + 1
                    && final(db).users == old(db).users
            },
        },
{
    match crate::services::user::login(db, username, password.as_str(), now) {
        Ok(Some(session)) => {
            assert(db.sessions@.last() == session);
            Ok(session.uuid)
        },
        Ok(None) => Err(ApiError::InvalidCredentials),
        Err(_) => Err(ApiError::DbError),
    }
}

/// Registers `username` with `password` (given twice) and logs in at time
/// `now`, returning the session token. The name must be at least 3 bytes,
/// the password at least 10 bytes and both copies equal, and the name must be
/// free. A failure after the user was stored gives `DbError`.
pub fn register(
    db: &mut Database,
    username: UsernameString,
    password: &String,
    password2: &String,
    pbkdf2_iterations: i32,
    now: i64,
) -> (r: Result<UuidString, ApiError>)
    requires
        old(db).wf(),
        bytes_of(username.0@).len() <= USERNAME_MAX_LEN,
        bytes_of(password@).len() < SECRET_MAX_LEN,
        pbkdf2_iterations > 0,
    ensures
        final(db).wf(),
        match register_error(old(db), username.0@, password@, password2@) {
            Some(e) => r == Err::<UuidString, ApiError>(e) && *final(db) == *old(db),
            None => {
                &&& r is Err ==> r == Err::<UuidString, ApiError>(ApiError::DbError)
                &&& r matches Ok(t) ==> holds_session(final(db), t, old(db).next_id, now)
                &&& r is Ok ==> exists|db_salt: Seq<u8>|
                    {
                        &&& db_salt.len() == SALT_BYTES_LEN
                        &&& final(db).users@.len() == old(db).users@.len() + 1
                        &&& final(db).users@.drop_last() == old(db).users@
                        &&& #[trigger] new_user_row(
                            final(db).users@.last(),
                            old(db).next_id as int,
                            username,
                            password@,
                            pbkdf2_iterations,
                            db_salt,
                        )
                    }
            },
        },
{
    if username.0.as_str().as_bytes().len() < USERNAME_MIN_LEN {
        return Err(ApiError::UsernameTooShort);
    }
    if password.as_str().as_bytes().len() < PASSWORD_MIN_LEN {
        return Err(ApiError::PasswordTooShort);
    }
    if *password != *password2 {
        return Err(ApiError::PasswordsDontMatch);
    }
    if is_username_taken(db, &username) {
        return Err(ApiError::UsernameTaken);
    }
    let name = username.duplicate();
    match create_user(db, username, password.as_str(), pbkdf2_iterations) {
        Ok(()) => {},
        Err(StoreError::UniqueViolation) => return Err(ApiError::UsernameTaken),
        Err(_) => return Err(ApiError::DbError),
    }
    let ghost created = *db;
    let ghost db_salt = choose|db_salt: Seq<u8>|
        {
            &&& db_salt.len() == SALT_BYTES_LEN
            &&& created.users@.len() == old(db).users@.len() + 1
            &&& created.users@.drop_last() == old(db).users@
            &&& #[trigger] new_user_row(
                created.users@.last(),
                old(db).next_id as int,
                name,
                password@,
                pbkdf2_iterations,
                db_salt,
            )
        };
    proof {
        let n = created.users@.len() - 1;
        assert(created.users@[n] == created.users@.last());
        lemma_find_by_key(created.users@, username_key(), n);
        assert(has_key(created.users@, username_key(), name.0@));
    }
    let r = login(db, &name, password, now);
    proof {
        if r is Ok {
            assert(new_user_row(
                db.users@.last(),
                old(db).next_id as int,
                name,
                password@,
                pbkdf2_iterations,
                db_salt,
            ));
        }
    }
    r
}

/// Once a name is registered, every further registration of it that passes
/// the input checks is refused with `UsernameTaken`: of two registrations of
/// one name, at most one succeeds.
pub proof fn lemma_registered_name_is_taken(
    db: &Database,
    username: Seq<char>,
    password: Seq<char>,
    password2: Seq<char>,
)
    requires
        has_key(db.users@, username_key(), username),
        bytes_of(username).len() >= USERNAME_MIN_LEN,
        bytes_of(password).len() >= PASSWORD_MIN_LEN,
        password == password2,
    ensures
        register_error(db, username, password, password2) == Some(ApiError::UsernameTaken),
{
}

} // verus!
