//! The request authenticator: `Authorization: Bearer <uuid>` headers resolved
//! to a stored session.

use vstd::prelude::*;

use crate::api_errors::ApiError;
use crate::array_string_types::{bytes_of, UuidString, UUID_MAX_LEN};
use crate::data::user::Session;
use crate::database::Database;
use crate::services::user::{fresh_session, get_session};

verus! {

/// The scheme prefix of a bearer header value.
pub open spec fn bearer_prefix() -> Seq<char> {
    seq!['B', 'e', 'a', 'r', 'e', 'r', ' ']
}

/// The token of a header value: what follows `Bearer `, when that is at most
/// 36 bytes long.
pub open spec fn header_token(h: Seq<char>) -> Option<Seq<char>> {
    if h.len() >= 7 && h.subrange(0, 7) == bearer_prefix() && bytes_of(h.subrange(7, h.len() as int)).len()
        <= UUID_MAX_LEN {
        Some(h.subrange(7, h.len() as int))
    } else {
        None
    }
}

/// The token of the first header value that carries one.
pub open spec fn first_token(hs: Seq<Seq<char>>) -> Option<Seq<char>>
    decreases hs.len(),
{
    if hs.len() == 0 {
        None
    } else if header_token(hs[0]) is Some {
        header_token(hs[0])
    } else {
        first_token(hs.drop_first())
    }
}

/// The texts of header values.
pub open spec fn header_texts(headers: Seq<String>) -> Seq<Seq<char>> {
    headers.map_values(|h: String| h@)
}

/// The token that header value `h` carries, if any.
pub fn bearer_token(h: &String) -> (r: Option<UuidString>)
    ensures
        match header_token(h@) {
            Some(t) => r matches Some(u) && u.0@ == t,
            None => r is None,
        },
{
    let s = h.as_str();
    let n = s.unicode_len();
    if n < 7 {
        return None;
    }
    let prefix = ['B', 'e', 'a', 'r', 'e', 'r', ' '];
    let mut i: usize = 0;
    while i < 7
        invariant
            n == h@.len() >= 7,
            s@ == h@,
            i <= 7,
            prefix@ == bearer_prefix(),
            forall|j: int| 0 <= j < i ==> h@[j] == bearer_prefix()[j],
        decreases 7 - i,
    {
        if s.get_char(i) != prefix[i] {
            assert(h@.subrange(0, 7)[i as int] != bearer_prefix()[i as int]);
            return None;
        }
        i = i + 1;
    }
    assert(h@.subrange(0, 7) =~= bearer_prefix());
    let rest = s.substring_char(7, n);
    UuidString::from_text(rest)
}

/// Resolves the `Authorization` header values of a request, in order: the
/// first that carries a bearer token decides. A stored session for it that
/// was created at or after `not_before` (now less the expiration window) is
/// returned; an unknown or expired token gives `InvalidSession`; no token at
/// all gives `MissingSession`.
pub fn session_from_headers(db: &Database, headers: &Vec<String>, not_before: i64) -> (r: Result<
    Session,
    ApiError,
>)
    requires
        db.wf(),
    ensures
        match first_token(header_texts(headers@)) {
            None => r == Err::<Session, ApiError>(ApiError::MissingSession),
            Some(t) => match fresh_session(db, t, not_before) {
                Some(s) => r == Ok::<Session, ApiError>(s),
                None => r == Err::<Session, ApiError>(ApiError::InvalidSession),
            },
        },
{
    let ghost texts = header_texts(headers@);
    let mut i: usize = 0;
    assert(texts.subrange(0, texts.len() as int) == texts);
    while i < headers.len()
        invariant
            db.wf(),
            i <= headers@.len(),
            texts == header_texts(headers@),
            first_token(texts) == first_token(texts.subrange(i as int, texts.len() as int)),
        decreases headers@.len() - i,
    {
        let ghost rest = texts.subrange(i as int, texts.len() as int);
        assert(rest[0] == headers@[i as int]@);
        assert(rest.drop_first() =~= texts.subrange(i as int + 1, texts.len() as int));
        if let Some(token) = bearer_token(&headers[i]) {
            return match get_session(db, &token, not_before) {
                Some(s) => Ok(s),
                None => Err(ApiError::InvalidSession),
            };
        }
        i = i + 1;
    }
    assert(texts.subrange(i as int, texts.len() as int).len() == 0);
    Err(ApiError::MissingSession)
}

} // verus!
