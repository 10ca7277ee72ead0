use vstd::prelude::*;

use crate::array_string_types::{UsernameString, UuidString};

verus! {

/// A registered author. A user without a password key cannot log in.
#[derive(Debug)]
pub struct User {
    pub id: i32,
    pub username: UsernameString,
    /// PBKDF2-HMAC-SHA256 key derived from the password, 32 bytes.
    pub password_key: Option<Vec<u8>>,
    pub pbkdf2_iterations: i32,
    /// The random part of the salt, 12 bytes; the user name is the other part.
    pub salt: Vec<u8>,
}

/// A bearer-token session of one user.
#[derive(Debug)]
pub struct Session {
    pub uuid: UuidString,
    pub user_id: i32,
    /// The creation time of this session, in seconds since the unix epoch.
    pub created_at: i64,
}

impl Session {
    pub fn duplicate(&self) -> (r: Session)
        ensures
            r == *self,
    {
        Session { uuid: self.uuid.duplicate(), user_id: self.user_id, created_at: self.created_at }
    }
}

} // verus!
