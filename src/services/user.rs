//! Credential store and session manager.

use vstd::prelude::*;

use crate::array_string_types::{bytes_of, UsernameString, UuidString, USERNAME_MAX_LEN};
use crate::crypto::{
    pbkdf2_derive, pbkdf2_sha256_key, pbkdf2_verify, random_bytes, PASSWORD_KEY_LEN,
    SALT_BYTES_LEN, SECRET_MAX_LEN,
};
use crate::data::user::{Session, User};

use vstd::slice::slice_to_vec;
use crate::database::{
    find_by_key, has_key, keys_unique, lemma_filter_unique, lemma_find_by_key, lemma_push_unique,
    same_portfolios, same_works, session_key, username_key, Database, StoreError,
};

verus! {

/// The salt that a key is derived under: the user name's bytes, then the
/// random bytes stored with the user.
pub open spec fn salt_input(username: Seq<u8>, db_salt: Seq<u8>) -> Seq<u8> {
    username + db_salt
}

/// `password` matches the stored key of `u`, whose name has the bytes
/// `username`: the key derived with the stored iteration count and salt is
/// the stored key.
pub open spec fn password_matches(u: User, username: Seq<u8>, password: Seq<u8>) -> bool {
    &&& u.pbkdf2_iterations > 0
    &&& u.password_key matches Some(k)
    &&& k@.len() == PASSWORD_KEY_LEN
    &&& pbkdf2_sha256_key(u.pbkdf2_iterations as nat, salt_input(username, u.salt@), password)
        == k@
}

/// The user row that registration of `username` with `password` adds, with
/// identifier `id`, `iterations` rounds and the random salt bytes `db_salt`.
pub open spec fn new_user_row(
    u: User,
    id: int,
    username: UsernameString,
    password: Seq<char>,
    iterations: i32,
    db_salt: Seq<u8>,
) -> bool {
    &&& u.id == id
    &&& u.username == username
    &&& u.pbkdf2_iterations == iterations
    &&& u.salt@ == db_salt
    &&& u.password_key matches Some(k)
    &&& k@.len() == PASSWORD_KEY_LEN
    &&& k@ == pbkdf2_sha256_key(
        iterations as nat,
        salt_input(bytes_of(username.0@), db_salt),
        bytes_of(password),
    )
}

/// Adds a user whose key is derived from `password` with `pbkdf2_iterations`
/// rounds under the salt made of the user name and `db_salt`. Fails with
/// `UniqueViolation` when the name is taken.
pub fn create_user_with_salt(
    db: &mut Database,
    username: UsernameString,
    password: &str,
    pbkdf2_iterations: i32,
    db_salt: Vec<u8>,
) -> (r: Result<(), StoreError>)
    requires
        old(db).wf(),
        bytes_of(username.0@).len() <= USERNAME_MAX_LEN,
        bytes_of(password@).len() < SECRET_MAX_LEN,
        pbkdf2_iterations > 0,
        db_salt@.len() == SALT_BYTES_LEN,
    ensures
        final(db).wf(),
        r is Err ==> *final(db) == *old(db),
        r == Err::<(), StoreError>(StoreError::UniqueViolation) <==> has_key(
            old(db).users@,
            username_key(),
            username.0@,
        ),
        r == Err::<(), StoreError>(StoreError::OutOfRange) <==> !has_key(
            old(db).users@,
            username_key(),
            username.0@,
        ) && old(db).next_id == i32::MAX,
        r is Ok <==> !has_key(old(db).users@, username_key(), username.0@) && old(db).next_id
            < i32::MAX,
        r is Ok ==> {
            &&& final(db).users@.len() == old(db).users@.len() + 1
            &&& final(db).users@.drop_last() == old(db).users@
            &&& new_user_row(
                final(db).users@.last(),
                old(db).next_id as int,
                username,
                password@,
                pbkdf2_iterations,
                db_salt@,
            )
            &&& final(db).sessions == old(db).sessions
            &&& same_portfolios(final(db), old(db))
            &&& same_works(final(db), old(db))
        },
{
    if is_username_taken(db, &username) {
        return Err(StoreError::UniqueViolation);
    }
    let id = match db.fresh_id() {
        Ok(id) => id,
        Err(e) => return Err(e),
    };
    let mut salt: Vec<u8> = slice_to_vec(username.0.as_str().as_bytes());
    let mut i: usize = 0;
    while i < db_salt.len()
        invariant
            i <= db_salt@.len(),
            salt@ == bytes_of(username.0@) + db_salt@.subrange(0, i as int),
            bytes_of(username.0@).len() <= USERNAME_MAX_LEN,
            db_salt@.len() == SALT_BYTES_LEN,
        decreases db_salt@.len() - i,
    {
        salt.push(db_salt[i]);
        i = i + 1;
        assert(salt@ =~= bytes_of(username.0@) + db_salt@.subrange(0, i as int));
    }
    assert(db_salt@.subrange(0, i as int) =~= db_salt@);
    let key = pbkdf2_derive(pbkdf2_iterations as u32, salt.as_slice(), password.as_bytes());
    let user = User {
        id,
        username,
        password_key: Some(key),
        pbkdf2_iterations,
        salt: db_salt,
    };
    proof {
        lemma_push_unique(db.users@, user, username_key());
    }
    db.users.push(user);
    Ok(())
}

/// Adds a user as `create_user_with_salt` does, with 12 fresh random salt
/// bytes. A free name with identifiers left fails only with
/// `RandomUnavailable`, when no random bytes can be had.
pub fn create_user(
    db: &mut Database,
    username: UsernameString,
    password: &str,
    pbkdf2_iterations: i32,
) -> (r: Result<(), StoreError>)
    requires
        old(db).wf(),
        bytes_of(username.0@).len() <= USERNAME_MAX_LEN,
        bytes_of(password@).len() < SECRET_MAX_LEN,
        pbkdf2_iterations > 0,
    ensures
        final(db).wf(),
        r is Err ==> *final(db) == *old(db),
        r == Err::<(), StoreError>(StoreError::UniqueViolation) <==> has_key(
            old(db).users@,
            username_key(),
            username.0@,
        ),
        r == Err::<(), StoreError>(StoreError::OutOfRange) <==> !has_key(
            old(db).users@,
            username_key(),
            username.0@,
        ) && old(db).next_id == i32::MAX,
        !has_key(old(db).users@, username_key(), username.0@) && old(db).next_id < i32::MAX ==> (r is Ok
            || r == Err::<(), StoreError>(StoreError::RandomUnavailable)),
        r is Ok ==> exists|db_salt: Seq<u8>|
            {
                &&& db_salt.len() == SALT_BYTES_LEN
                &&& final(db).users@.len() == old(db).users@.len() + 1
                &&& final(db).users@.drop_last() == old(db).users@
                &&& #[trigger] new_user_row(
                    final(db).users@.last(),
                    old(db).next_id as int,
                    username,
                    password@,
                    pbkdf2_iterations,
                    db_salt,
                )
            },
        r is Ok ==> final(db).sessions == old(db).sessions && same_portfolios(final(db), old(db))
            && same_works(final(db), old(db)),
{
    if is_username_taken(db, &username) {
        return Err(StoreError::UniqueViolation);
    }
    if db.next_id == i32::MAX {
        return Err(StoreError::OutOfRange);
    }
    let db_salt = match random_bytes(SALT_BYTES_LEN) {
        Some(s) => s,
        None => return Err(StoreError::RandomUnavailable),
    };
    let ghost salt_view = db_salt@;
    let r = create_user_with_salt(db, username, password, pbkdf2_iterations, db_salt);
    if r.is_ok() {
        assert(new_user_row(
            db.users@.last(),
            old(db).next_id as int,
            username,
            password@,
            pbkdf2_iterations,
            salt_view,
        ));
    }
    r
}

/// Some user has the name `username`.
pub fn is_username_taken(db: &Database, username: &UsernameString) -> (r: bool)
    ensures
        r == has_key(db.users@, username_key(), username.0@),
{
    let mut i: usize = 0;
    while i < db.users.len()
        invariant
            i <= db.users@.len(),
            forall|j: int| 0 <= j < i ==> db.users@[j].username.0@ != username.0@,
        decreases db.users@.len() - i,
    {
        if db.users[i].username.0 == username.0 {
            return true;
        }
        i = i + 1;
    }
    false
}

/// Index of the user named `username`, if there is one.
fn find_user(db: &Database, username: &UsernameString) -> (r: Option<usize>)
    ensures
        match r {
            Some(i) => i < db.users@.len() && db.users@[i as int].username.0@ == username.0@,
            None => !has_key(db.users@, username_key(), username.0@),
        },
{
    let mut i: usize = 0;
    while i < db.users.len()
        invariant
            i <= db.users@.len(),
            forall|j: int| 0 <= j < i ==> db.users@[j].username.0@ != username.0@,
        decreases db.users@.len() - i,
    {
        if db.users[i].username.0 == username.0 {
            return Some(i);
        }
        i = i + 1;
    }
    None
}

/// The user named `username`, when `password` matches its stored key.
pub open spec fn authenticated_user(db: &Database, username: Seq<char>, password: Seq<char>) -> Option<User> {
    match find_by_key(db.users@, username_key(), username) {
        Some(u) => if password_matches(u, bytes_of(username), bytes_of(password)) {
            Some(u)
        } else {
            None
        },
        None => None,
    }
}

/// Checks `password` against the stored key of the user named `username`, in
/// constant time. An unknown name, a user without a key and a wrong password
/// all give `None`.
pub fn verify_password(db: &Database, username: &UsernameString, password: &str) -> (r: Option<usize>)
    requires
        db.wf(),
        bytes_of(username.0@).len() <= USERNAME_MAX_LEN,
        bytes_of(password@).len() < SECRET_MAX_LEN,
    ensures
        match r {
            Some(i) => i < db.users@.len() && authenticated_user(db, username.0@, password@) == Some(
                db.users@[i as int],
            ),
            None => authenticated_user(db, username.0@, password@) is None,
        },
{
    let i = match find_user(db, username) {
        Some(i) => i,
        None => return None,
    };
    proof {
        lemma_find_by_key(db.users@, username_key(), i as int);
    }
    let user = &db.users[i];
    let key = match &user.password_key {
        Some(k) => k,
        None => return None,
    };
    if user.pbkdf2_iterations <= 0 || key.len() != PASSWORD_KEY_LEN {
        return None;
    }
    let mut salt: Vec<u8> = slice_to_vec(username.0.as_str().as_bytes());
    let mut j: usize = 0;
    while j < user.salt.len()
        invariant
            j <= user.salt@.len(),
            salt@ == bytes_of(username.0@) + user.salt@.subrange(0, j as int),
            bytes_of(username.0@).len() <= USERNAME_MAX_LEN,
            user.salt@.len() == SALT_BYTES_LEN,
        decreases user.salt@.len() - j,
    {
        salt.push(user.salt[j]);
        j = j + 1;
        assert(salt@ =~= bytes_of(username.0@) + user.salt@.subrange(0, j as int));
    }
    assert(user.salt@.subrange(0, j as int) =~= user.salt@);
    if pbkdf2_verify(user.pbkdf2_iterations as u32, salt.as_slice(), password.as_bytes(), key.as_slice()) {
        Some(i)
    } else {
        None
    }
}

/// Logs in with a given session token: when the password matches, stores
/// the session `(token, user, now)` and returns it. A wrong name or password
/// gives `Ok(None)`; a token that is already in use gives `UniqueViolation`.
pub fn login_with_token(
    db: &mut Database,
    username: &UsernameString,
    password: &str,
    now: i64,
    token: UuidString,
) -> (r: Result<Option<Session>, StoreError>)
    requires
        old(db).wf(),
        bytes_of(username.0@).len() <= USERNAME_MAX_LEN,
        bytes_of(password@).len() < SECRET_MAX_LEN,
    ensures
        final(db).wf(),
        match authenticated_user(old(db), username.0@, password@) {
            None => r == Ok::<Option<Session>, StoreError>(None) && *final(db) == *old(db),
            Some(u) => if has_key(old(db).sessions@, session_key(), token.0@) {
                r == Err::<Option<Session>, StoreError>(StoreError::UniqueViolation) && *final(db)
                    == *old(db)
            } else {
                let s = Session { uuid: token, user_id: u.id, created_at: now };
                &&& r == Ok::<Option<Session>, StoreError>(Some(s))
                &&& final(db).sessions@ == old(db).sessions@.push(s)
                &&& final(db).users == old(db).users
                &&& final(db).next_id == old(db).next_id
                &&& same_portfolios(final(db), old(db))
                &&& same_works(final(db), old(db))
            },
        },
{
    let i = match verify_password(db, username, password) {
        Some(i) => i,
        None => return Ok(None),
    };
    match open_session(db, i, token, now) {
        Ok(s) => Ok(Some(s)),
        Err(e) => Err(e),
    }
}

/// Stores the session `(token, user i, now)`, unless the token is in use.
fn open_session(db: &mut Database, i: usize, token: UuidString, now: i64) -> (r: Result<Session, StoreError>)
    requires
        old(db).wf(),
        i < old(db).users@.len(),
    ensures
        final(db).wf(),
        if has_key(old(db).sessions@, session_key(), token.0@) {
            r == Err::<Session, StoreError>(StoreError::UniqueViolation) && *final(db) == *old(db)
        } else {
            let s = Session { uuid: token, user_id: old(db).users@[i as int].id, created_at: now };
            &&& r == Ok::<Session, StoreError>(s)
            &&& final(db).sessions@ == old(db).sessions@.push(s)
            &&& final(db).users == old(db).users
            &&& final(db).next_id == old(db).next_id
            &&& same_portfolios(final(db), old(db))
            &&& same_works(final(db), old(db))
        },
{
    if token_in_use(db, &token) {
        return Err(StoreError::UniqueViolation);
    }
    let session = Session { uuid: token, user_id: db.users[i].id, created_at: now };
    proof {
        lemma_push_unique(db.sessions@, session, session_key());
    }
    db.sessions.push(session.duplicate());
    Ok(session)
}

/// Logs in as `login_with_token` does, with a fresh random token. When no
/// token can be drawn it fails with `RandomUnavailable` and stores nothing;
/// otherwise the outcome is that of `login_with_token` with the drawn token,
/// so with the right password only a token collision (`UniqueViolation`)
/// can fail.
pub fn login(db: &mut Database, username: &UsernameString, password: &str, now: i64) -> (r: Result<
    Option<Session>,
    StoreError,
>)
    requires
        old(db).wf(),
        bytes_of(username.0@).len() <= USERNAME_MAX_LEN,
        bytes_of(password@).len() < SECRET_MAX_LEN,
    ensures
        final(db).wf(),
        r is Err ==> *final(db) == *old(db),
        r != Err::<Option<Session>, StoreError>(StoreError::RandomUnavailable) ==> match authenticated_user(
            old(db),
            username.0@,
            password@,
        ) {
            None => r == Ok::<Option<Session>, StoreError>(None) && *final(db) == *old(db),
            Some(u) => (r is Err ==> r == Err::<Option<Session>, StoreError>(StoreError::UniqueViolation))
                && (r is Ok ==> exists|s: Session|
                {
                    &&& r == Ok::<Option<Session>, StoreError>(Some(s))
                    &&& s.user_id == u.id
                    &&& s.created_at == now
                    &&& #[trigger] final(db).sessions@ == old(db).sessions@.push(s)
                    &&& final(db).users == old(db).users
                    &&& same_portfolios(final(db), old(db))
                    &&& same_works(final(db), old(db))
                }),
        },
{
    let token = match UuidString::generate() {
        Some(t) => t,
        None => return Err(StoreError::RandomUnavailable),
    };
    login_with_token(db, username, password, now, token)
}

/// Whether some stored session, fresh or stale, has the token `token`.
fn token_in_use(db: &Database, token: &UuidString) -> (r: bool)
    ensures
        r == has_key(db.sessions@, session_key(), token.0@),
{
    let mut i: usize = 0;
    while i < db.sessions.len()
        invariant
            i <= db.sessions@.len(),
            forall|j: int| 0 <= j < i ==> db.sessions@[j].uuid.0@ != token.0@,
        decreases db.sessions@.len() - i,
    {
        if db.sessions[i].uuid.0 == token.0 {
            assert(session_key()(db.sessions@[i as int]) == token.0@);
            return true;
        }
        i = i + 1;
    }
    false
}

/// The stored session `s` with token `token`, when it was created at or
/// after `not_before`.
pub open spec fn fresh_session(db: &Database, token: Seq<char>, not_before: i64) -> Option<Session> {
    match find_by_key(db.sessions@, session_key(), token) {
        Some(s) => if s.created_at >= not_before {
            Some(s)
        } else {
            None
        },
        None => None,
    }
}

/// The session whose token is `session_id`, when it is stored and was
/// created at or after `not_before` (now less the expiration window): a
/// stale session does not resolve, even before a sweep deletes it.
pub fn get_session(db: &Database, session_id: &UuidString, not_before: i64) -> (r: Option<Session>)
    requires
        db.wf(),
    ensures
        r == fresh_session(db, session_id.0@, not_before),
{
    let mut i: usize = 0;
    while i < db.sessions.len()
        invariant
            db.wf(),
            i <= db.sessions@.len(),
            forall|j: int| 0 <= j < i ==> db.sessions@[j].uuid.0@ != session_id.0@,
        decreases db.sessions@.len() - i,
    {
        if db.sessions[i].uuid.0 == session_id.0 {
            proof {
                lemma_find_by_key(db.sessions@, session_key(), i as int);
            }
            if db.sessions[i].created_at < not_before {
                return None;
            }
            return Some(db.sessions[i].duplicate());
        }
        i = i + 1;
    }
    None
}

/// Sessions created at or after `before`: those that a sweep keeps.
pub open spec fn created_since(before: i64) -> spec_fn(Session) -> bool {
    |s: Session| s.created_at >= before
}

/// Deletes every session created before `before_timestamp` (seconds since
/// the unix epoch); the others stay, in their order.
pub fn remove_sessions(db: &mut Database, before_timestamp: i64)
    requires
        old(db).wf(),
    ensures
        final(db).wf(),
        final(db).sessions@ == old(db).sessions@.filter(created_since(before_timestamp)),
        final(db).users == old(db).users,
        final(db).next_id == old(db).next_id,
        same_portfolios(final(db), old(db)),
        same_works(final(db), old(db)),
{
    let ghost all = db.sessions@;
    let mut kept: Vec<Session> = Vec::new();
    let mut i: usize = 0;
    while i < db.sessions.len()
        invariant
            i <= all.len(),
            all == db.sessions@,
            kept@ == all.take(i as int).filter(created_since(before_timestamp)),
        decreases all.len() - i,
    {
        if db.sessions[i].created_at >= before_timestamp {
            kept.push(db.sessions[i].duplicate());
        }
        proof {
            assert(all.take(i as int + 1) == all.take(i as int).push(all[i as int]));
            all.take(i as int).lemma_filter_push(all[i as int], created_since(before_timestamp));
        }
        i = i + 1;
    }
    assert(all.take(i as int) == all);
    proof {
        lemma_filter_unique(all, created_since(before_timestamp), session_key());
    }
    db.sessions = kept;
}

/// A user registered with `password` authenticates with password `p`
/// exactly when `p` derives the same key under the user's salt and
/// iteration count.
pub proof fn lemma_password_verifies_iff_same_key(
    db: &Database,
    i: int,
    username: UsernameString,
    password: Seq<char>,
    pbkdf2_iterations: i32,
    db_salt: Seq<u8>,
    p: Seq<char>,
)
    requires
        db.wf(),
        0 <= i < db.users@.len(),
        pbkdf2_iterations > 0,
        new_user_row(db.users@[i], db.users@[i].id as int, username, password, pbkdf2_iterations, db_salt),
    ensures
        authenticated_user(db, username.0@, p) is Some <==> pbkdf2_sha256_key(
            pbkdf2_iterations as nat,
            salt_input(bytes_of(username.0@), db_salt),
            bytes_of(p),
        ) == pbkdf2_sha256_key(
            pbkdf2_iterations as nat,
            salt_input(bytes_of(username.0@), db_salt),
            bytes_of(password),
        ),
{
    lemma_find_by_key(db.users@, username_key(), i);
}

/// After a sweep with cutoff `before`, the token of a stored session
/// resolves to that session exactly when it was created at or after the
/// cutoff, and to nothing otherwise.
pub proof fn lemma_sweep_resolves_fresh_sessions(sessions: Seq<Session>, before: i64, i: int)
    requires
        keys_unique(sessions, session_key()),
        0 <= i < sessions.len(),
    ensures
        find_by_key(sessions.filter(created_since(before)), session_key(), sessions[i].uuid.0@) == if sessions[i].created_at
            >= before {
            Some(sessions[i])
        } else {
            None
        },
{
    let pred = created_since(before);
    let kept = sessions.filter(pred);
    let k = sessions[i].uuid.0@;
    lemma_filter_unique(sessions, pred, session_key());
    if has_key(kept, session_key(), k) {
        let j = choose|j: int| 0 <= j < kept.len() && session_key()(kept[j]) == k;
        assert(kept.contains(kept[j]));
        let m = choose|m: int| 0 <= m < sessions.len() && sessions[m] == kept[j];
        assert(m == i);
        sessions.lemma_filter_pred(pred, j);
        lemma_find_by_key(kept, session_key(), j);
    }
    if sessions[i].created_at >= before {
        sessions.lemma_filter_contains(pred, i);
        assert(kept.contains(sessions[i]));
        let j = choose|j: int| 0 <= j < kept.len() && kept[j] == sessions[i];
        assert(session_key()(kept[j]) == k);
    }
}

} // verus!
