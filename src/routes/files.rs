//! Big-file upload and the decisions of the streaming download.

use vstd::prelude::*;
use vstd::string::StringExecFns;

use crate::api_errors::ApiError;
use crate::array_string_types::{bytes_of, UuidString};
use crate::data::work::BytesBase64;
use crate::database::Database;
use crate::encoding::base64_decoded;
use crate::services::big_files::{
    append_error, appended_parts, attachment_owned, create_file_part, get_file_part, readable_part,
};

verus! {

/// A printable ASCII character other than space.
pub open spec fn is_ascii_graphic(c: char) -> bool {
    0x21 <= c as u32 <= 0x7e
}

/// The file name with every character that is not printable ASCII (space
/// included) replaced by `_`.
pub open spec fn sanitized(name: Seq<char>) -> Seq<char> {
    name.map_values(
        |c: char|
            if is_ascii_graphic(c) {
                c
            } else {
                '_'
            },
    )
}

/// The `Content-Disposition` header value for a download of `name`.
pub open spec fn disposition_of(name: Seq<char>) -> Seq<char> {
    seq!['a', 't', 't', 'a', 'c', 'h', 'm', 'e', 'n', 't', ';', ' ', 'f', 'i', 'l', 'e', 'n', 'a', 'm', 'e', '=', '"']
        + sanitized(name) + seq!['"']
}

/// The header value `attachment; filename="<name>"`, with the name limited
/// to printable ASCII.
pub fn content_disposition(filename: &String) -> (r: String)
    ensures
        r@ == disposition_of(filename@),
{
    let mut out = String::new();
    out.append("attachment; filename=\"");
    proof {
        reveal_strlit("attachment; filename=\"");
    }
    assert(out@ =~= disposition_of(filename@).take(22));
    let name = filename.as_str();
    let n = name.unicode_len();
    let ghost start = out@;
    let mut j: usize = 0;
    while j < n
        invariant
            n == filename@.len(),
            name@ == filename@,
            j <= n,
            start.len() == 22,
            out@ == start + sanitized(filename@).take(j as int),
        decreases n - j,
    {
        let c = name.get_char(j);
        if 0x21 <= c as u32 && c as u32 <= 0x7e {
            out.append(name.substring_char(j, j + 1));
        } else {
            out.append("_");
            proof {
                reveal_strlit("_");
            }
        }
        j = j + 1;
        assert(out@ =~= start + sanitized(filename@).take(j as int));
    }
    out.append("\"");
    proof {
        reveal_strlit("\"");
    }
    assert(sanitized(filename@).take(j as int) == sanitized(filename@));
    assert(out@ =~= disposition_of(filename@));
    out
}

/// What a download sends first: the head part's bytes, the part to fetch
/// next (none for `HEAD`, or at the end of the chain), and the
/// `Content-Disposition` header value.
#[derive(Debug)]
pub struct StreamStart {
    pub first_chunk: Vec<u8>,
    pub next_uuid: Option<UuidString>,
    pub content_disposition: String,
}

/// Opens the download of the chain starting at part `uuid` for `caller`.
/// An unknown or unreadable part gives `NoSuchFile`; a stored payload that is
/// not base64 gives `DbError`.
pub fn open_stream(db: &Database, uuid: &UuidString, caller: Option<i32>, head_only: bool) -> (r: Result<
    StreamStart,
    ApiError,
>)
    requires
        db.wf(),
    ensures
        match readable_part(db, uuid.0@, caller) {
            None => r == Err::<StreamStart, ApiError>(ApiError::NoSuchFile),
            Some((p, a)) => match base64_decoded(bytes_of(p.bytes_base64.0@)) {
                None => r == Err::<StreamStart, ApiError>(ApiError::DbError),
                Some(d) => r matches Ok(s) && s.first_chunk@ == d && s.next_uuid == (if head_only {
                    None
                } else {
                    p.next_uuid
                }) && s.content_disposition@ == disposition_of(a.filename@),
            },
        },
{
    let part = match get_file_part(db, uuid, caller) {
        Ok(Some(part)) => part,
        Ok(None) => return Err(ApiError::NoSuchFile),
        Err(_) => return Err(ApiError::DbError),
    };
    let content_disposition = content_disposition(&part.filename);
    let next_uuid = if head_only {
        None
    } else {
        part.next_uuid
    };
    Ok(StreamStart { first_chunk: part.bytes, next_uuid, content_disposition })
}

/// The next chunk of a download: the bytes of part `uuid` and the part after
/// it. `None` ends the stream (the part is gone, unreadable or corrupt).
pub fn next_chunk(db: &Database, uuid: &UuidString, caller: Option<i32>) -> (r: Option<
    (Vec<u8>, Option<UuidString>),
>)
    requires
        db.wf(),
    ensures
        match readable_part(db, uuid.0@, caller) {
            None => r is None,
            Some((p, a)) => match base64_decoded(bytes_of(p.bytes_base64.0@)) {
                None => r is None,
                Some(d) => r matches Some((b, n)) && b@ == d && n == p.next_uuid,
            },
        },
{
    match get_file_part(db, uuid, caller) {
        Ok(Some(part)) => Some((part.bytes, part.next_uuid)),
        _ => None,
    }
}

/// Appends an uploaded part for `user_id`; every failure gives `DbError`.
pub fn add_file_part(
    db: &mut Database,
    user_id: i32,
    work_attachment_id: i32,
    previous_uuid: Option<UuidString>,
    part_bytes_base64: String,
) -> (r: Result<UuidString, ApiError>)
    requires
        old(db).wf(),
    ensures
        final(db).wf(),
        r is Err ==> r == Err::<UuidString, ApiError>(ApiError::DbError) && *final(db) == *old(db),
        !attachment_owned(old(db), work_attachment_id, user_id) ==> r is Err,
        r matches Ok(u) ==> append_error(
            old(db),
            previous_uuid,
            work_attachment_id,
            part_bytes_base64@,
            u.0@,
            user_id,
        ) is None && final(db).big_file_parts@ == appended_parts(
            old(db),
            previous_uuid,
            work_attachment_id,
            BytesBase64(part_bytes_base64),
            u,
        ),
{
    match create_file_part(db, previous_uuid, work_attachment_id, part_bytes_base64, user_id) {
        Ok(u) => Ok(u),
        Err(_) => Err(ApiError::DbError),
    }
}

} // verus!
