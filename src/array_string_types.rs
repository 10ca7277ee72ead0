//! Short text values with a bounded byte length: session tokens, user names,
//! slugs and media types.

use vstd::prelude::*;
use vstd::utf8::encode_utf8;

use crate::crypto::random_bytes;

verus! {

/// The UTF-8 bytes of a text.
pub open spec fn bytes_of(s: Seq<char>) -> Seq<u8> {
    encode_utf8(s)
}

/// Longest accepted session token, in bytes: a hyphenated UUID.
pub const UUID_MAX_LEN: usize = 36;

/// Longest accepted user name, in bytes.
pub const USERNAME_MAX_LEN: usize = 30;

/// Length in bytes of the random material of a UUID.
pub const UUID_BYTES_LEN: usize = 16;

/// Relies on uuid::Builder::from_random_bytes and the hyphenated format: the
/// version-4 UUID made of these 16 bytes, written as 36 ASCII characters (hex
/// digits and dashes).
#[verifier::external_body]
fn hyphenated_v4(bytes: &Vec<u8>) -> (r: String)
    requires
        bytes@.len() == UUID_BYTES_LEN,
    ensures
        r@.len() == 36,
        r.is_ascii(),
{
    let bytes: [u8; UUID_BYTES_LEN] = bytes.as_slice().try_into().unwrap();
    uuid::Builder::from_random_bytes(bytes).into_uuid().hyphenated().to_string()
}

/// A session token or big-file part identifier: the text of a UUID.
#[derive(Debug)]
pub struct UuidString(pub String);

impl UuidString {
    /// A new random identifier, or `None` when the system random source
    /// fails.
    pub fn generate() -> (r: Option<UuidString>)
        ensures
            r matches Some(u) ==> u.0@.len() == UUID_MAX_LEN && u.0.is_ascii(),
    {
        match random_bytes(UUID_BYTES_LEN) {
            Some(bytes) => Some(UuidString(hyphenated_v4(&bytes))),
            None => None,
        }
    }

    /// Accepts `s` as a token when it is at most 36 bytes long.
    pub fn from_text(s: &str) -> (r: Option<UuidString>)
        ensures
            r is Some <==> bytes_of(s@).len() <= UUID_MAX_LEN,
            r matches Some(u) ==> u.0@ == s@,
    {
        if s.as_bytes().len() <= UUID_MAX_LEN {
            Some(UuidString(s.to_owned()))
        } else {
            None
        }
    }

    pub fn duplicate(&self) -> (r: UuidString)
        ensures
            r == *self,
    {
        UuidString(self.0.clone())
    }
}

/// A user name of at most 30 bytes.
#[derive(Debug)]
pub struct UsernameString(pub String);

impl UsernameString {
    /// Accepts `s` as a user name when it is at most 30 bytes long.
    pub fn from_text(s: &str) -> (r: Option<UsernameString>)
        ensures
            r is Some <==> bytes_of(s@).len() <= USERNAME_MAX_LEN,
            r matches Some(u) ==> u.0@ == s@,
    {
        if s.as_bytes().len() <= USERNAME_MAX_LEN {
            Some(UsernameString(s.to_owned()))
        } else {
            None
        }
    }

    pub fn duplicate(&self) -> (r: UsernameString)
        ensures
            r == *self,
    {
        UsernameString(self.0.clone())
    }
}

/// The short, URL-safe, unique name of a portfolio or a work.
#[derive(Debug)]
pub struct SlugString(pub String);

impl SlugString {
    pub fn duplicate(&self) -> (r: SlugString)
        ensures
            r == *self,
    {
        SlugString(self.0.clone())
    }
}

/// The media type of an attachment.
#[derive(Debug)]
pub struct ContentType(pub String);

impl ContentType {
    pub fn duplicate(&self) -> (r: ContentType)
        ensures
            r == *self,
    {
        ContentType(self.0.clone())
    }
}

} // verus!
