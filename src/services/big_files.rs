//! Big-file chain store: parts appended to an attachment's chain, read one
//! at a time by uuid.

use vstd::prelude::*;

use crate::access::{can_read_work, owns_work, user_owns_work, work_readable};
use crate::array_string_types::{bytes_of, UuidString};
use crate::data::work::{duplicate_uuid_opt, BigFilePartDecoded, BigFilePartRow, BytesBase64, WorkAttachment};
use crate::database::{
    attachment_key, find_by_key, has_key, keys_unique, lemma_links_filter, lemma_links_map,
    lemma_links_push, link_stored, links_stored, payload_decodes, lemma_filter_unique, lemma_find_by_key,
    lemma_push_unique, part_key, same_accounts, same_portfolios, Database, StoreError,
};
use crate::encoding::{base64_decoded, decode_base64};
use crate::services::subtables::{lemma_same_part_uuids, part_exists};

verus! {

/// Some attachment `attachment_id` belongs to a work that `user_id` owns.
pub open spec fn attachment_owned(db: &Database, attachment_id: i32, user_id: i32) -> bool {
    exists|i: int|
        0 <= i < db.work_attachments.len() && #[trigger] db.work_attachments@[i].id == attachment_id
            && owns_work(db, user_id, db.work_attachments@[i].work_id)
}

/// The parts of attachments other than `attachment_id`.
pub open spec fn not_of_attachment(attachment_id: i32) -> spec_fn(BigFilePartRow) -> bool {
    |p: BigFilePartRow| p.work_attachment_id != attachment_id
}

/// `parts` with the part `prev` pointing at `next`.
pub open spec fn linked(parts: Seq<BigFilePartRow>, prev: Seq<char>, next: UuidString) -> Seq<BigFilePartRow> {
    parts.map_values(
        |p: BigFilePartRow|
            if p.uuid.0@ == prev {
                BigFilePartRow { next_uuid: Some(next), ..p }
            } else {
                p
            },
    )
}

/// `parts` with every part of `attachment_id` carrying the file length `len`.
pub open spec fn with_length(parts: Seq<BigFilePartRow>, attachment_id: i32, len: int) -> Seq<BigFilePartRow> {
    parts.map_values(
        |p: BigFilePartRow|
            if p.work_attachment_id == attachment_id {
                BigFilePartRow { whole_file_length: len as i32, ..p }
            } else {
                p
            },
    )
}

/// `attachments` with attachment `attachment_id` naming `head` as its chain's head.
pub open spec fn with_head(attachments: Seq<WorkAttachment>, attachment_id: i32, head: UuidString) -> Seq<
    WorkAttachment,
> {
    attachments.map_values(
        |a: WorkAttachment|
            if a.id == attachment_id {
                WorkAttachment { big_file_uuid: Some(head), ..a }
            } else {
                a
            },
    )
}

/// Why appending fails, in the order the checks are made, or `None` when it
/// succeeds: the caller must own the attachment's work, the new uuid must be
/// unused, the payload must be base64 of at most `i32::MAX` bytes, a
/// previous part must exist within the same attachment, and the file's
/// length must fit an `i32`.
pub open spec fn append_error(
    db: &Database,
    previous_uuid: Option<UuidString>,
    attachment_id: i32,
    text: Seq<char>,
    new_uuid: Seq<char>,
    user_id: i32,
) -> Option<StoreError> {
    if !attachment_owned(db, attachment_id, user_id) {
        Some(StoreError::NotFound)
    } else if has_key(db.big_file_parts@, part_key(), new_uuid) {
        Some(StoreError::UniqueViolation)
    } else {
        match base64_decoded(bytes_of(text)) {
            None => Some(StoreError::InvalidBase64),
            Some(d) => if d.len() > i32::MAX {
                Some(StoreError::OutOfRange)
            } else {
                match previous_uuid {
                    None => None,
                    Some(p) => match find_by_key(db.big_file_parts@, part_key(), p.0@) {
                        Some(q) => if q.work_attachment_id != attachment_id {
                            Some(StoreError::NotFound)
                        } else if q.whole_file_length + d.len() > i32::MAX || q.whole_file_length
                            + d.len() < 0 {
                            Some(StoreError::OutOfRange)
                        } else {
                            None
                        },
                        None => Some(StoreError::NotFound),
                    },
                }
            },
        }
    }
}

/// Decoded length of the whole file after appending a part of `len` bytes.
pub open spec fn appended_length(db: &Database, previous_uuid: Option<UuidString>, len: int) -> int {
    match previous_uuid {
        None => len,
        Some(p) => find_by_key(db.big_file_parts@, part_key(), p.0@)->0.whole_file_length + len,
    }
}

/// The parts after a successful append of `new` (holding `text`) to
/// `attachment_id`: linked after `previous_uuid`, or replacing every part of
/// the attachment; then all parts of the attachment carry the new length.
pub open spec fn appended_parts(
    db: &Database,
    previous_uuid: Option<UuidString>,
    attachment_id: i32,
    text: BytesBase64,
    new: UuidString,
) -> Seq<BigFilePartRow> {
    let len = appended_length(db, previous_uuid, base64_decoded(bytes_of(text.0@))->0.len() as int);
    let base = match previous_uuid {
        Some(p) => linked(db.big_file_parts@, p.0@, new),
        None => db.big_file_parts@.filter(not_of_attachment(attachment_id)),
    };
    let part = BigFilePartRow {
        uuid: new,
        next_uuid: None,
        work_attachment_id: attachment_id,
        whole_file_length: len as i32,
        bytes_base64: text,
    };
    with_length(base.push(part), attachment_id, len)
}

/// Whether some attachment `attachment_id` belongs to a work that `user_id` owns.
fn attachment_owned_by(db: &Database, attachment_id: i32, user_id: i32) -> (r: bool)
    ensures
        r == attachment_owned(db, attachment_id, user_id),
{
    let mut i: usize = 0;
    while i < db.work_attachments.len()
        invariant
            i <= db.work_attachments@.len(),
            forall|j: int|
                0 <= j < i ==> !(db.work_attachments@[j].id == attachment_id && owns_work(
                    db,
                    user_id,
                    db.work_attachments@[j].work_id,
                )),
        decreases db.work_attachments@.len() - i,
    {
        if db.work_attachments[i].id == attachment_id && user_owns_work(
            db,
            user_id,
            db.work_attachments[i].work_id,
        ) {
            assert(db.work_attachments@[i as int].id == attachment_id);
            return true;
        }
        i = i + 1;
    }
    false
}

/// Index of the part `uuid`.
fn find_part(parts: &Vec<BigFilePartRow>, uuid: &UuidString) -> (r: Option<usize>)
    requires
        keys_unique(parts@, part_key()),
    ensures
        match r {
            Some(i) => i < parts@.len() && parts@[i as int].uuid.0@ == uuid.0@ && find_by_key(
                parts@,
                part_key(),
                uuid.0@,
            ) == Some(parts@[i as int]),
            None => find_by_key(parts@, part_key(), uuid.0@) is None,
        },
{
    let mut i: usize = 0;
    while i < parts.len()
        invariant
            i <= parts@.len(),
            keys_unique(parts@, part_key()),
            forall|j: int| 0 <= j < i ==> parts@[j].uuid.0@ != uuid.0@,
        decreases parts@.len() - i,
    {
        if parts[i].uuid.0 == uuid.0 {
            proof {
                lemma_find_by_key(parts@, part_key(), i as int);
            }
            return Some(i);
        }
        i = i + 1;
    }
    None
}

/// The parts of attachments other than `attachment_id`.
fn drop_attachment_parts(parts: &Vec<BigFilePartRow>, attachment_id: i32) -> (r: Vec<BigFilePartRow>)
    ensures
        r@ == parts@.filter(not_of_attachment(attachment_id)),
{
    let ghost pred = not_of_attachment(attachment_id);
    let mut out: Vec<BigFilePartRow> = Vec::new();
    let mut i: usize = 0;
    while i < parts.len()
        invariant
            i <= parts@.len(),
            pred == not_of_attachment(attachment_id),
            out@ == parts@.take(i as int).filter(pred),
        decreases parts@.len() - i,
    {
        if parts[i].work_attachment_id != attachment_id {
            out.push(parts[i].duplicate());
        }
        proof {
            assert(parts@.take(i as int + 1) == parts@.take(i as int).push(parts@[i as int]));
            parts@.take(i as int).lemma_filter_push(parts@[i as int], pred);
        }
        i = i + 1;
    }
    assert(parts@.take(i as int) == parts@);
    out
}

/// The parts with every part of `attachment_id` carrying the length `len`.
fn set_lengths(parts: &Vec<BigFilePartRow>, attachment_id: i32, len: i32) -> (r: Vec<BigFilePartRow>)
    ensures
        r@ == with_length(parts@, attachment_id, len as int),
{
    let ghost expected = with_length(parts@, attachment_id, len as int);
    let mut out: Vec<BigFilePartRow> = Vec::new();
    let mut i: usize = 0;
    while i < parts.len()
        invariant
            i <= parts@.len(),
            expected == with_length(parts@, attachment_id, len as int),
            out@ == expected.take(i as int),
        decreases parts@.len() - i,
    {
        let mut p = parts[i].duplicate();
        if p.work_attachment_id == attachment_id {
            p.whole_file_length = len;
        }
        out.push(p);
        i = i + 1;
        assert(out@ =~= expected.take(i as int));
    }
    assert(expected.take(i as int) == expected);
    out
}

/// The attachments with attachment `attachment_id` naming `head`.
fn set_head(attachments: &Vec<WorkAttachment>, attachment_id: i32, head: &UuidString) -> (r: Vec<
    WorkAttachment,
>)
    ensures
        r@ == with_head(attachments@, attachment_id, *head),
{
    let ghost expected = with_head(attachments@, attachment_id, *head);
    let mut out: Vec<WorkAttachment> = Vec::new();
    let mut i: usize = 0;
    while i < attachments.len()
        invariant
            i <= attachments@.len(),
            expected == with_head(attachments@, attachment_id, *head),
            out@ == expected.take(i as int),
        decreases attachments@.len() - i,
    {
        let mut a = attachments[i].duplicate();
        if a.id == attachment_id {
            a.big_file_uuid = Some(head.duplicate());
        }
        out.push(a);
        i = i + 1;
        assert(out@ =~= expected.take(i as int));
    }
    assert(expected.take(i as int) == expected);
    out
}

/// Part `p` points at the part `u`.
pub open spec fn points_at(p: BigFilePartRow, u: Seq<char>) -> bool {
    match p.next_uuid {
        Some(n) => n.0@ == u,
        None => false,
    }
}

/// `u` is the uuid of the previous part, when there is one.
pub open spec fn is_previous(previous_uuid: Option<UuidString>, u: Seq<char>) -> bool {
    match previous_uuid {
        Some(q) => q.0@ == u,
        None => false,
    }
}

/// Appends a part holding `bytes_base64` to the chain of attachment
/// `work_attachment_id`, under the uuid `new_uuid`. With a previous part, the
/// new part is linked after it; without one the new part starts a new chain
/// that replaces every part of the attachment, and the attachment points at
/// it. Every part of the attachment then carries the decoded length of the
/// whole file. Fails as `append_error` says, leaving the database unchanged.
pub fn create_file_part_with_uuid(
    db: &mut Database,
    previous_uuid: Option<UuidString>,
    work_attachment_id: i32,
    bytes_base64: String,
    user_id: i32,
    new_uuid: UuidString,
) -> (r: Result<UuidString, StoreError>)
    requires
        old(db).wf(),
    ensures
        final(db).wf(),
        match append_error(old(db), previous_uuid, work_attachment_id, bytes_base64@, new_uuid.0@, user_id) {
            Some(e) => r == Err::<UuidString, StoreError>(e) && *final(db) == *old(db),
            None => {
                &&& r == Ok::<UuidString, StoreError>(new_uuid)
                &&& final(db).big_file_parts@ == appended_parts(
                    old(db),
                    previous_uuid,
                    work_attachment_id,
                    BytesBase64(bytes_base64),
                    new_uuid,
                )
                &&& final(db).work_attachments@ == if previous_uuid is None {
                    with_head(old(db).work_attachments@, work_attachment_id, new_uuid)
                } else {
                    old(db).work_attachments@
                }
                &&& forall|j: int|
                    0 <= j < final(db).big_file_parts@.len() && #[trigger] points_at(
                        final(db).big_file_parts@[j],
                        new_uuid.0@,
                    ) ==> is_previous(previous_uuid, final(db).big_file_parts@[j].uuid.0@)
                &&& final(db).works == old(db).works
                &&& final(db).work_rights == old(db).work_rights
                &&& final(db).work_links == old(db).work_links
                &&& final(db).work_tags == old(db).work_tags
                &&& final(db).next_id == old(db).next_id
                &&& same_accounts(final(db), old(db))
                &&& same_portfolios(final(db), old(db))
            },
        },
{
    if !attachment_owned_by(db, work_attachment_id, user_id) {
        return Err(StoreError::NotFound);
    }
    if part_exists(&db.big_file_parts, &new_uuid) {
        return Err(StoreError::UniqueViolation);
    }
    let decoded = match decode_base64(bytes_base64.as_str().as_bytes()) {
        Some(d) => d,
        None => return Err(StoreError::InvalidBase64),
    };
    let len_this = decoded.len();
    if len_this > 0x7fff_ffff {
        return Err(StoreError::OutOfRange);
    }
    let prev_index: Option<usize> = match &previous_uuid {
        None => None,
        Some(p) => match find_part(&db.big_file_parts, p) {
            None => return Err(StoreError::NotFound),
            Some(i) => Some(i),
        },
    };
    let total: i32 = match prev_index {
        None => len_this as i32,
        Some(i) => {
            if db.big_file_parts[i].work_attachment_id != work_attachment_id {
                return Err(StoreError::NotFound);
            }
            let t = db.big_file_parts[i].whole_file_length as i64 + len_this as i64;
            if t > 0x7fff_ffff || t < 0 {
                return Err(StoreError::OutOfRange);
            }
            t as i32
        },
    };
    let ghost old_db = *db;
    let ghost text = BytesBase64(bytes_base64);
    let mut parts: Vec<BigFilePartRow> = Vec::new();
    std::mem::swap(&mut parts, &mut db.big_file_parts);
    match prev_index {
        Some(i) => {
            let ghost before = parts@;
            let mut prev = parts[i].duplicate();
            prev.next_uuid = Some(new_uuid.duplicate());
            parts[i] = prev;
            proof {
                let p = previous_uuid->0;
                assert(parts@ =~= linked(before, p.0@, new_uuid)) by {
                    assert forall|j: int| 0 <= j < before.len() && j != i implies before[j].uuid.0@
                        != p.0@ by {
                        assert(part_key()(before[j]) != part_key()(before[i as int]));
                    }
                }
                lemma_same_part_uuids(before, parts@);
            }
        },
        None => {
            let ghost before = parts@;
            parts = drop_attachment_parts(&parts, work_attachment_id);
            proof {
                lemma_filter_unique(before, not_of_attachment(work_attachment_id), part_key());
                if has_key(parts@, part_key(), new_uuid.0@) {
                    let j = choose|j: int| 0 <= j < parts@.len() && part_key()(parts@[j]) == new_uuid.0@;
                    assert(parts@.contains(parts@[j]));
                    let k = choose|k: int| 0 <= k < before.len() && before[k] == parts@[j];
                    assert(part_key()(before[k]) == new_uuid.0@);
                }
            }
            let attachments = set_head(&db.work_attachments, work_attachment_id, &new_uuid);
            proof {
                let a = old_db.work_attachments@;
                assert forall|j: int| 0 <= j < attachments@.len() implies #[trigger] attachments@[j].id
                    == a[j].id by {}
                assert forall|x: int, y: int|
                    0 <= x < attachments@.len() && 0 <= y < attachments@.len() && x != y implies attachment_key()(
                    attachments@[x]) != attachment_key()(attachments@[y]) by {
                    assert(attachment_key()(a[x]) != attachment_key()(a[y]));
                }
            }
            db.work_attachments = attachments;
        },
    }
    proof {
        let k = choose|k: int|
            0 <= k < old_db.work_attachments.len() && #[trigger] old_db.work_attachments@[k].id
                == work_attachment_id && owns_work(&old_db, user_id, old_db.work_attachments@[k].work_id);
        assert(old_db.work_attachments@[k].id < old_db.next_id);
        assert forall|j: int| 0 <= j < parts@.len() implies #[trigger] parts@[j].work_attachment_id
            < old_db.next_id by {
            if prev_index is Some {
                let i = prev_index->0;
                if j != i {
                    assert(parts@[j] == old_db.big_file_parts@[j]);
                } else {
                    assert(parts@[j].work_attachment_id == old_db.big_file_parts@[j].work_attachment_id);
                }
            } else {
                old_db.big_file_parts@.lemma_filter_contains_rev(
                    not_of_attachment(work_attachment_id),
                    parts@[j],
                );
            }
        }
    }
    let part = BigFilePartRow {
        uuid: new_uuid.duplicate(),
        next_uuid: None,
        work_attachment_id,
        whole_file_length: total,
        bytes_base64: BytesBase64(bytes_base64),
    };
    proof {
        lemma_push_unique(parts@, part, part_key());
    }
    let ghost kept = parts@;
    parts.push(part);
    proof {
        let ps = parts@;
        let ob = old_db.big_file_parts@;
        let n = kept.len() as int;
        assert(ps[n] == part);
        assert(payload_decodes(part));
        assert forall|m: int| 0 <= m < ob.len() implies !#[trigger] points_at(ob[m], new_uuid.0@) by {
            assert(link_stored(ob, m));
            if points_at(ob[m], new_uuid.0@) {
                let j = choose|j: int|
                    0 <= j < ob.len() && #[trigger] ob[j].uuid.0@ == new_uuid.0@
                        && ob[j].work_attachment_id == ob[m].work_attachment_id;
                assert(part_key()(ob[j]) == new_uuid.0@);
            }
        }
        match prev_index {
            Some(i) => {
                assert forall|m: int| 0 <= m < ps.len() implies #[trigger] link_stored(ps, m) by {
                    if m == i {
                        assert(ps[n].uuid.0@ == new_uuid.0@);
                    } else if m < n {
                        assert(ps[m] == ob[m]);
                        assert(link_stored(ob, m));
                        if let Some(t) = ob[m].next_uuid {
                            let j = choose|j: int|
                                0 <= j < ob.len() && #[trigger] ob[j].uuid.0@ == t.0@
                                    && ob[j].work_attachment_id == ob[m].work_attachment_id;
                            assert(ps[j].uuid == ob[j].uuid && ps[j].work_attachment_id
                                == ob[j].work_attachment_id);
                        }
                    }
                }
                assert forall|m: int| 0 <= m < ps.len() implies #[trigger] payload_decodes(ps[m]) by {
                    if m < n {
                        assert(payload_decodes(ob[m]));
                    }
                }
                assert forall|m: int|
                    0 <= m < ps.len() && #[trigger] points_at(ps[m], new_uuid.0@) implies is_previous(
                    previous_uuid,
                    ps[m].uuid.0@,
                ) by {
                    if m != i && m < n {
                        assert(ps[m] == ob[m]);
                    }
                }
            },
            None => {
                lemma_links_filter(ob, not_of_attachment(work_attachment_id));
                lemma_links_push(kept, part);
                assert forall|m: int| 0 <= m < ps.len() implies #[trigger] payload_decodes(ps[m]) by {
                    if m < n {
                        assert(payload_decodes(kept[m]));
                    }
                }
                assert forall|m: int|
                    0 <= m < ps.len() && #[trigger] points_at(ps[m], new_uuid.0@) implies is_previous(
                    previous_uuid,
                    ps[m].uuid.0@,
                ) by {
                    if m < n {
                        assert(kept.contains(kept[m]));
                        ob.lemma_filter_contains_rev(not_of_attachment(work_attachment_id), kept[m]);
                    }
                }
            },
        }
    }
    let stored = set_lengths(&parts, work_attachment_id, total);
    proof {
        lemma_same_part_uuids(parts@, stored@);
        lemma_links_map(parts@, stored@);
        assert forall|m: int|
            0 <= m < stored@.len() && #[trigger] points_at(stored@[m], new_uuid.0@) implies is_previous(
            previous_uuid,
            stored@[m].uuid.0@,
        ) by {
            assert(points_at(parts@[m], new_uuid.0@));
        }
    }
    db.big_file_parts = stored;
    Ok(new_uuid)
}

/// Appends a part as `create_file_part_with_uuid` does, under a fresh random
/// uuid. Whatever uuid is drawn, a failure is the one `append_error` gives
/// for it, or `RandomUnavailable` when no uuid can be drawn; so an append
/// that is valid for a fresh uuid fails only on a uuid collision.
pub fn create_file_part(
    db: &mut Database,
    previous_uuid: Option<UuidString>,
    work_attachment_id: i32,
    bytes_base64: String,
    user_id: i32,
) -> (r: Result<UuidString, StoreError>)
    requires
        old(db).wf(),
    ensures
        final(db).wf(),
        r is Err ==> *final(db) == *old(db),
        r matches Ok(u) ==> append_error(
            old(db),
            previous_uuid,
            work_attachment_id,
            bytes_base64@,
            u.0@,
            user_id,
        ) is None && final(db).big_file_parts@ == appended_parts(
            old(db),
            previous_uuid,
            work_attachment_id,
            BytesBase64(bytes_base64),
            u,
        ),
        r matches Ok(u) ==> forall|j: int|
            0 <= j < final(db).big_file_parts@.len() && #[trigger] points_at(
                final(db).big_file_parts@[j],
                u.0@,
            ) ==> is_previous(previous_uuid, final(db).big_file_parts@[j].uuid.0@),
        r matches Ok(u) ==> final(db).work_attachments@ == if previous_uuid is None {
            with_head(old(db).work_attachments@, work_attachment_id, u)
        } else {
            old(db).work_attachments@
        },
        r matches Err(e) ==> e == StoreError::RandomUnavailable || exists|u: Seq<char>|
            append_error(old(db), previous_uuid, work_attachment_id, bytes_base64@, u, user_id)
                == Some(e),
        !attachment_owned(old(db), work_attachment_id, user_id) ==> r == Err::<UuidString, StoreError>(
            StoreError::NotFound,
        ),
{
    if !attachment_owned_by(db, work_attachment_id, user_id) {
        return Err(StoreError::NotFound);
    }
    let new_uuid = match UuidString::generate() {
        Some(u) => u,
        None => return Err(StoreError::RandomUnavailable),
    };
    let ghost drawn = new_uuid.0@;
    let r = create_file_part_with_uuid(db, previous_uuid, work_attachment_id, bytes_base64, user_id, new_uuid);
    proof {
        if let Err(e) = r {
            assert(append_error(old(db), previous_uuid, work_attachment_id, bytes_base64@, drawn, user_id)
                == Some(e));
        }
    }
    r
}

/// The part `uuid` and its attachment, when `caller` may read the
/// attachment's work.
pub open spec fn readable_part(db: &Database, uuid: Seq<char>, caller: Option<i32>) -> Option<
    (BigFilePartRow, WorkAttachment),
> {
    match find_by_key(db.big_file_parts@, part_key(), uuid) {
        Some(p) => match find_by_key(db.work_attachments@, attachment_key(), p.work_attachment_id) {
            Some(a) => if work_readable(db, a.work_id, caller) {
                Some((p, a))
            } else {
                None
            },
            None => None,
        },
        None => None,
    }
}

/// Index of attachment `id`.
fn find_attachment(db: &Database, id: i32) -> (r: Option<usize>)
    requires
        db.wf(),
    ensures
        match r {
            Some(i) => i < db.work_attachments@.len() && find_by_key(
                db.work_attachments@,
                attachment_key(),
                id,
            ) == Some(db.work_attachments@[i as int]),
            None => find_by_key(db.work_attachments@, attachment_key(), id) is None,
        },
{
    let mut i: usize = 0;
    while i < db.work_attachments.len()
        invariant
            db.wf(),
            i <= db.work_attachments@.len(),
            forall|j: int| 0 <= j < i ==> db.work_attachments@[j].id != id,
        decreases db.work_attachments@.len() - i,
    {
        if db.work_attachments[i].id == id {
            proof {
                lemma_find_by_key(db.work_attachments@, attachment_key(), i as int);
            }
            return Some(i);
        }
        i = i + 1;
    }
    None
}

/// The part `file_uuid` with its decoded bytes and its attachment's file
/// name, when `caller` may read the work it belongs to (the same rule as for
/// reading the work). An unknown or unreadable part gives `Ok(None)`; stored
/// payloads always decode, so no call fails.
pub fn get_file_part(db: &Database, file_uuid: &UuidString, caller: Option<i32>) -> (r: Result<
    Option<BigFilePartDecoded>,
    StoreError,
>)
    requires
        db.wf(),
    ensures
        r is Ok,
        match readable_part(db, file_uuid.0@, caller) {
            None => r == Ok::<Option<BigFilePartDecoded>, StoreError>(None),
            Some((p, a)) => match base64_decoded(bytes_of(p.bytes_base64.0@)) {
                None => r == Err::<Option<BigFilePartDecoded>, StoreError>(StoreError::InvalidBase64),
                Some(d) => r matches Ok(Some(x)) && x.uuid == p.uuid && x.next_uuid == p.next_uuid
                    && x.whole_file_length == p.whole_file_length && x.filename == a.filename
                    && x.bytes@ == d,
            },
        },
{
    let i = match find_part(&db.big_file_parts, file_uuid) {
        Some(i) => i,
        None => return Ok(None),
    };
    let part = &db.big_file_parts[i];
    let k = match find_attachment(db, part.work_attachment_id) {
        Some(k) => k,
        None => return Ok(None),
    };
    let attachment = &db.work_attachments[k];
    if !can_read_work(db, attachment.work_id, caller) {
        return Ok(None);
    }
    proof {
        lemma_find_by_key(db.big_file_parts@, part_key(), i as int);
        assert(payload_decodes(db.big_file_parts@[i as int]));
    }
    let bytes = match decode_base64(part.bytes_base64.0.as_str().as_bytes()) {
        Some(b) => b,
        None => return Err(StoreError::InvalidBase64),
    };
    Ok(
        Some(
            BigFilePartDecoded {
                uuid: part.uuid.duplicate(),
                next_uuid: duplicate_uuid_opt(&part.next_uuid),
                whole_file_length: part.whole_file_length,
                filename: attachment.filename.clone(),
                bytes,
            },
        ),
    )
}

/// The part whose uuid is `u`.
pub open spec fn part_named(db: &Database, u: Seq<char>) -> Option<BigFilePartRow> {
    find_by_key(db.big_file_parts@, part_key(), u)
}

/// The uuid that attachment `attachment_id` names as its chain's head.
pub open spec fn attachment_head(db: &Database, attachment_id: i32) -> Option<Seq<char>> {
    match find_by_key(db.work_attachments@, attachment_key(), attachment_id) {
        Some(a) => match a.big_file_uuid {
            Some(h) => Some(h.0@),
            None => None,
        },
        None => None,
    }
}

/// Part `p` points at the part `next`, or at nothing.
pub open spec fn links_to(p: BigFilePartRow, next: Option<Seq<char>>) -> bool {
    match next {
        Some(n) => match p.next_uuid {
            Some(x) => x.0@ == n,
            None => false,
        },
        None => p.next_uuid is None,
    }
}

/// The parts of attachment `attachment_id` form one chain, the parts named by
/// `us` in order: the attachment names the first, each points at the next
/// and the last at nothing, no uuid comes twice, and no other part belongs
/// to the attachment.
pub open spec fn is_chain(db: &Database, attachment_id: i32, us: Seq<Seq<char>>) -> bool {
    &&& us.len() > 0
    &&& attachment_head(db, attachment_id) == Some(us[0])
    &&& us.no_duplicates()
    &&& forall|j: int|
        0 <= j < us.len() ==> match #[trigger] part_named(db, us[j]) {
            Some(p) => p.work_attachment_id == attachment_id && links_to(
                p,
                if j + 1 < us.len() {
                    Some(us[j + 1])
                } else {
                    None
                },
            ),
            None => false,
        }
    &&& forall|i: int|
        0 <= i < db.big_file_parts@.len() && #[trigger] db.big_file_parts@[i].work_attachment_id
            == attachment_id ==> us.contains(db.big_file_parts@[i].uuid.0@)
}

/// The decoded bytes of the part named `u`.
pub open spec fn part_bytes(db: &Database, u: Seq<char>) -> Option<Seq<u8>> {
    base64_decoded(bytes_of(part_named(db, u)->0.bytes_base64.0@))
}

/// The file held by the parts named by `us`: their decoded bytes, in order.
pub open spec fn chain_bytes(db: &Database, us: Seq<Seq<char>>) -> Seq<u8>
    decreases us.len(),
{
    if us.len() == 0 {
        Seq::empty()
    } else {
        chain_bytes(db, us.drop_last()) + part_bytes(db, us.last())->0
    }
}

/// `us` is the chain of attachment `attachment_id`, every part of it
/// decodes, and every part carries the length of the whole file.
pub open spec fn chain_complete(db: &Database, attachment_id: i32, us: Seq<Seq<char>>) -> bool {
    &&& is_chain(db, attachment_id, us)
    &&& forall|j: int| 0 <= j < us.len() ==> #[trigger] part_bytes(db, us[j]) is Some
    &&& forall|j: int|
        0 <= j < us.len() ==> (#[trigger] part_named(db, us[j]))->0.whole_file_length == chain_bytes(
            db,
            us,
        ).len()
}

/// Two databases whose named parts hold the same payloads hold the same file.
proof fn lemma_chain_bytes_same(a: &Database, b: &Database, us: Seq<Seq<char>>)
    requires
        forall|j: int|
            0 <= j < us.len() ==> (#[trigger] part_named(a, us[j]))->0.bytes_base64 == part_named(
                b,
                us[j],
            )->0.bytes_base64,
    ensures
        chain_bytes(a, us) == chain_bytes(b, us),
    decreases us.len(),
{
    if us.len() > 0 {
        let d = us.drop_last();
        assert forall|j: int| 0 <= j < d.len() implies (#[trigger] part_named(a, d[j]))->0.bytes_base64
            == part_named(b, d[j])->0.bytes_base64 by {
            assert(d[j] == us[j]);
        }
        lemma_chain_bytes_same(a, b, d);
        assert(part_named(a, us[us.len() - 1])->0.bytes_base64 == part_named(b, us[us.len() - 1])->0.bytes_base64);
    }
}

/// Where uuids are unique, a part keeps its position's identity: the part
/// found by the uuid at position `m` of `b` is `b[m]`.
proof fn lemma_part_at(db: &Database, m: int)
    requires
        db.wf(),
        0 <= m < db.big_file_parts@.len(),
    ensures
        part_named(db, db.big_file_parts@[m].uuid.0@) == Some(db.big_file_parts@[m]),
{
    lemma_find_by_key(db.big_file_parts@, part_key(), m);
}

/// The index of the part named `u`, where there is one.
proof fn lemma_index_of_part(db: &Database, u: Seq<char>) -> (m: int)
    requires
        db.wf(),
        part_named(db, u) is Some,
    ensures
        0 <= m < db.big_file_parts@.len(),
        db.big_file_parts@[m].uuid.0@ == u,
        part_named(db, u) == Some(db.big_file_parts@[m]),
{
    let m = choose|m: int| 0 <= m < db.big_file_parts@.len() && part_key()(db.big_file_parts@[m]) == u;
    lemma_part_at(db, m);
    m
}

/// Appending after the last part of a complete chain gives a complete chain
/// one part longer, whose file is the old file followed by the new part's
/// decoded bytes.
pub proof fn lemma_append_extends_chain(
    old: &Database,
    new: &Database,
    attachment_id: i32,
    us: Seq<Seq<char>>,
    previous_uuid: UuidString,
    text: String,
    new_uuid: UuidString,
    user_id: i32,
)
    requires
        old.wf(),
        new.wf(),
        chain_complete(old, attachment_id, us),
        previous_uuid.0@ == us.last(),
        append_error(old, Some(previous_uuid), attachment_id, text@, new_uuid.0@, user_id) is None,
        new.big_file_parts@ == appended_parts(
            old,
            Some(previous_uuid),
            attachment_id,
            BytesBase64(text),
            new_uuid,
        ),
        new.work_attachments == old.work_attachments,
    ensures
        chain_complete(new, attachment_id, us.push(new_uuid.0@)),
        chain_bytes(new, us.push(new_uuid.0@)) == chain_bytes(old, us) + base64_decoded(
            bytes_of(text@),
        )->0,
{
    let a = attachment_id;
    let parts = old.big_file_parts@;
    let d = base64_decoded(bytes_of(text@))->0;
    let total = chain_bytes(old, us).len() + d.len();
    let last = us.len() - 1;
    let q = part_named(old, us[last])->0;
    assert(q.whole_file_length == chain_bytes(old, us).len());
    assert(appended_length(old, Some(previous_uuid), d.len() as int) == total);
    let extended = us.push(new_uuid.0@);
    let n = parts.len();
    let np = new.big_file_parts@[n as int];
    lemma_part_at(new, n as int);
    assert(np.uuid == new_uuid && np.whole_file_length == total && np.bytes_base64 == BytesBase64(text));
    // each old part of the chain sits where it was, with its payload
    assert forall|j: int| 0 <= j < us.len() implies {
        let m = choose|m: int| 0 <= m < parts.len() && part_key()(parts[m]) == us[j];
        &&& 0 <= m < parts.len()
        &&& #[trigger] part_named(new, us[j]) == Some(new.big_file_parts@[m])
        &&& part_named(old, us[j]) == Some(parts[m])
    } by {
        let m = lemma_index_of_part(old, us[j]);
        lemma_part_at(new, m);
    }
    assert(!us.contains(new_uuid.0@)) by {
        if us.contains(new_uuid.0@) {
            let j = choose|j: int| 0 <= j < us.len() && us[j] == new_uuid.0@;
            let m = lemma_index_of_part(old, us[j]);
        }
    }
    assert(part_named(new, new_uuid.0@) == Some(np));
    assert forall|j: int| 0 <= j < extended.len() implies #[trigger] part_named(new, extended[j])->0.bytes_base64
        == (if j < us.len() {
        part_named(old, extended[j])->0.bytes_base64
    } else {
        BytesBase64(text)
    }) by {
        if j < us.len() {
            let m = lemma_index_of_part(old, us[j]);
            lemma_part_at(new, m);
        }
    }
    lemma_chain_bytes_same(new, old, us);
    assert(extended.drop_last() == us);
    assert(chain_bytes(new, extended) == chain_bytes(old, us) + d);
    // the links
    assert forall|j: int| 0 <= j < extended.len() implies match #[trigger] part_named(new, extended[j]) {
        Some(p) => p.work_attachment_id == a && links_to(
            p,
            if j + 1 < extended.len() {
                Some(extended[j + 1])
            } else {
                None
            },
        ),
        None => false,
    } by {
        if j < us.len() {
            let m = lemma_index_of_part(old, us[j]);
            lemma_part_at(new, m);
            if j < last {
                assert(us[j] != us[last]);
            }
        }
    }
    assert forall|i: int|
        0 <= i < new.big_file_parts@.len() && #[trigger] new.big_file_parts@[i].work_attachment_id
            == a implies extended.contains(new.big_file_parts@[i].uuid.0@) by {
        if i < n {
            assert(parts[i].work_attachment_id == a);
            assert(us.contains(parts[i].uuid.0@));
            let j = choose|j: int| 0 <= j < us.len() && us[j] == parts[i].uuid.0@;
            assert(extended[j] == us[j]);
        } else {
            assert(extended[us.len() as int] == new_uuid.0@);
        }
    }
    assert(extended.no_duplicates());
    assert(attachment_head(new, a) == Some(extended[0]));
    assert forall|j: int| 0 <= j < extended.len() implies #[trigger] part_bytes(new, extended[j]) is Some by {
        if j < us.len() {
            assert(part_bytes(old, us[j]) is Some);
        }
    }
    assert forall|j: int| 0 <= j < extended.len() implies (#[trigger] part_named(new, extended[j]))->0.whole_file_length
        == chain_bytes(new, extended).len() by {
        if j < us.len() {
            let m = lemma_index_of_part(old, us[j]);
            lemma_part_at(new, m);
        }
    }
}

/// Appending without a previous part replaces the file: afterwards the new
/// part alone is the attachment's complete chain, holding the new payload,
/// and no part that belonged to the attachment before remains.
pub proof fn lemma_head_append_replaces(
    old: &Database,
    new: &Database,
    attachment_id: i32,
    text: String,
    new_uuid: UuidString,
    user_id: i32,
)
    requires
        old.wf(),
        new.wf(),
        append_error(old, None, attachment_id, text@, new_uuid.0@, user_id) is None,
        new.big_file_parts@ == appended_parts(old, None, attachment_id, BytesBase64(text), new_uuid),
        new.work_attachments@ == with_head(old.work_attachments@, attachment_id, new_uuid),
    ensures
        chain_complete(new, attachment_id, seq![new_uuid.0@]),
        chain_bytes(new, seq![new_uuid.0@]) == base64_decoded(bytes_of(text@))->0,
        forall|i: int|
            0 <= i < old.big_file_parts@.len() && old.big_file_parts@[i].work_attachment_id
                == attachment_id ==> !has_key(
                new.big_file_parts@,
                part_key(),
                #[trigger] old.big_file_parts@[i].uuid.0@,
            ),
{
    let a = attachment_id;
    let parts = old.big_file_parts@;
    let kept = parts.filter(not_of_attachment(a));
    lemma_filter_unique(parts, not_of_attachment(a), part_key());
    let n = kept.len();
    let np = new.big_file_parts@[n as int];
    lemma_part_at(new, n as int);
    let us = seq![new_uuid.0@];
    assert(part_named(new, us[0]) == Some(np));
    // the attachment now names the new part
    let k = choose|k: int|
        0 <= k < old.work_attachments.len() && #[trigger] old.work_attachments@[k].id == a
            && owns_work(old, user_id, old.work_attachments@[k].work_id);
    lemma_find_by_key(new.work_attachments@, attachment_key(), k);
    assert(attachment_head(new, a) == Some(us[0]));
    // only the new part belongs to the attachment
    assert forall|i: int|
        0 <= i < new.big_file_parts@.len() && #[trigger] new.big_file_parts@[i].work_attachment_id
            == a implies us.contains(new.big_file_parts@[i].uuid.0@) by {
        if i < n {
            kept.lemma_filter_pred(not_of_attachment(a), i);
        } else {
            assert(us[0] == new_uuid.0@);
        }
    }
    assert(chain_bytes(new, us.drop_last()) == Seq::<u8>::empty());
    assert(chain_bytes(new, us) =~= base64_decoded(bytes_of(text@))->0);
    // the old parts of the attachment are gone
    assert forall|i: int|
        0 <= i < parts.len() && parts[i].work_attachment_id == a implies !has_key(
        new.big_file_parts@,
        part_key(),
        #[trigger] parts[i].uuid.0@,
    ) by {
        if has_key(new.big_file_parts@, part_key(), parts[i].uuid.0@) {
            let j = choose|j: int|
                0 <= j < new.big_file_parts@.len() && part_key()(new.big_file_parts@[j])
                    == parts[i].uuid.0@;
            if j < n {
                assert(kept.contains(kept[j]));
                let m = choose|m: int| 0 <= m < parts.len() && parts[m] == kept[j];
                kept.lemma_filter_pred(not_of_attachment(a), j);
                assert(part_key()(parts[m]) == part_key()(parts[i]));
            } else {
                assert(has_key(parts, part_key(), new_uuid.0@));
            }
        }
    }
}

} // verus!
