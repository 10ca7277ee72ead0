//! Work store: works, their ownership, and reads under the access rule.

use vstd::prelude::*;

use crate::access::{can_read_work, owns_work, user_owns_work, work_readable};
use crate::array_string_types::SlugString;
use crate::data::work::{Work, WorkRow};
use crate::database::{
    find_by_key, has_key, lemma_find_by_key, lemma_push_unique, same_accounts, same_portfolios,
    work_slug_key, Database, Right, StoreError,
};
use crate::services::subtables::{
    children_replaced, fetch_work_details, named_parts_exist, names_missing_part, of_work,
    update_work_details, work_as_stored,
};

verus! {

/// `r` holds the columns of `input` under identifier `id` and slug `slug`.
pub open spec fn work_row_from(r: WorkRow, id: i32, slug: Seq<char>, input: WorkRow) -> bool {
    &&& r.id == id
    &&& r.slug.0@ == slug
    &&& r.title == input.title
    &&& r.short_description == input.short_description
    &&& r.long_description == input.long_description
}

/// Identifiers that a write of `w` draws: one per child row, plus `extra`.
pub open spec fn ids_needed(w: Work, extra: int) -> int {
    extra + w.attachments@.len() + w.links@.len() + w.tags@.len()
}

/// Index of the work whose slug is `slug`.
pub(crate) fn find_work(db: &Database, slug: &String) -> (r: Option<usize>)
    requires
        db.wf(),
    ensures
        match r {
            Some(i) => i < db.works@.len() && db.works@[i as int].slug.0@ == slug@ && find_by_key(
                db.works@,
                work_slug_key(),
                slug@,
            ) == Some(db.works@[i as int]),
            None => !has_key(db.works@, work_slug_key(), slug@),
        },
{
    let mut i: usize = 0;
    while i < db.works.len()
        invariant
            db.wf(),
            i <= db.works@.len(),
            forall|j: int| 0 <= j < i ==> db.works@[j].slug.0@ != slug@,
        decreases db.works@.len() - i,
    {
        if db.works[i].slug.0 == *slug {
            proof {
                lemma_find_by_key(db.works@, work_slug_key(), i as int);
            }
            return Some(i);
        }
        i = i + 1;
    }
    None
}

/// Whether the identifiers left cover `needed` more rows.
fn ids_left(db: &Database, w: &Work, extra: usize) -> (r: bool)
    requires
        db.wf(),
        extra <= 1,
    ensures
        r == (db.next_id + ids_needed(*w, extra as int) <= i32::MAX),
{
    let a = w.attachments.len();
    let l = w.links.len();
    let t = w.tags.len();
    if a > 0x7fff_ffff || l > 0x7fff_ffff || t > 0x7fff_ffff {
        return false;
    }
    db.next_id as i64 + extra as i64 + a as i64 + l as i64 + t as i64 <= 0x7fff_ffff
}

/// `new` is `old` with work `w` created from `new_work` under slug `slug`
/// for `user_id`.
pub open spec fn work_created(
    old: &Database,
    new: &Database,
    w: Work,
    slug: Seq<char>,
    user_id: i32,
    new_work: Work,
) -> bool {
    let id = old.next_id;
    &&& work_row_from(w.row, id, slug, new_work.row)
    &&& new.works@ == old.works@.push(w.row)
    &&& new.work_rights@ == old.work_rights@.push(Right { object_id: id, user_id })
    &&& children_replaced(
        old,
        new,
        id,
        id + 1,
        new_work.attachments@,
        new_work.links@,
        new_work.tags@,
    )
    &&& work_as_stored(w, w.row, id + 1, new_work.attachments@, new_work.links@, new_work.tags@)
    &&& same_accounts(new, old)
    &&& same_portfolios(new, old)
}

/// Creates work `slug` owned by `user_id`, with the columns and child rows of
/// `new_work` (its own slug and identifiers are ignored). Fails with
/// `UniqueViolation` when the slug is taken, `OutOfRange` when identifiers
/// run out, `NotFound` when an attachment names a part that is not stored.
pub fn create_work(db: &mut Database, slug: &String, user_id: i32, new_work: &Work) -> (r: Result<
    Work,
    StoreError,
>)
    requires
        old(db).wf(),
    ensures
        final(db).wf(),
        r is Err ==> *final(db) == *old(db),
        r == Err::<Work, StoreError>(StoreError::UniqueViolation) <==> has_key(
            old(db).works@,
            work_slug_key(),
            slug@,
        ),
        r == Err::<Work, StoreError>(StoreError::OutOfRange) <==> !has_key(
            old(db).works@,
            work_slug_key(),
            slug@,
        ) && old(db).next_id + ids_needed(*new_work, 1) > i32::MAX,
        r == Err::<Work, StoreError>(StoreError::NotFound) <==> !has_key(
            old(db).works@,
            work_slug_key(),
            slug@,
        ) && old(db).next_id + ids_needed(*new_work, 1) <= i32::MAX && names_missing_part(
            new_work.attachments@,
            old(db).big_file_parts@,
        ),
        r is Ok <==> !has_key(old(db).works@, work_slug_key(), slug@) && old(db).next_id + ids_needed(
            *new_work,
            1,
        ) <= i32::MAX && !names_missing_part(new_work.attachments@, old(db).big_file_parts@),
        r matches Ok(w) ==> work_created(old(db), final(db), w, slug@, user_id, *new_work),
{
    if find_work(db, slug).is_some() {
        return Err(StoreError::UniqueViolation);
    }
    if !ids_left(db, new_work, 1) {
        return Err(StoreError::OutOfRange);
    }
    if !named_parts_exist(&db.big_file_parts, &new_work.attachments) {
        return Err(StoreError::NotFound);
    }
    let id = db.next_id;
    db.next_id = id + 1;
    let row = WorkRow {
        id,
        slug: SlugString(slug.clone()),
        title: new_work.row.title.clone(),
        short_description: new_work.row.short_description.clone(),
        long_description: new_work.row.long_description.clone(),
    };
    proof {
        lemma_push_unique(db.works@, row, work_slug_key());
    }
    db.works.push(row.duplicate());
    db.work_rights.push(Right { object_id: id, user_id });
    match update_work_details(db, row, &new_work.attachments, &new_work.links, &new_work.tags) {
        Ok(w) => Ok(w),
        Err(e) => Err(e),
    }
}

/// The work that `update_work` rewrites: the one with slug `slug`, when
/// `user_id` owns it.
pub open spec fn editable_work(db: &Database, slug: Seq<char>, user_id: i32) -> Option<WorkRow> {
    match find_by_key(db.works@, work_slug_key(), slug) {
        Some(w) => if owns_work(db, user_id, w.id) {
            Some(w)
        } else {
            None
        },
        None => None,
    }
}

/// Another work than the one with slug `original` has slug `slug`.
pub open spec fn slug_held_elsewhere(db: &Database, slug: Seq<char>, original: Seq<char>) -> bool {
    slug != original && has_key(db.works@, work_slug_key(), slug)
}

/// `new` is `old` with the work that `user_id` may edit under slug
/// `original_slug` rewritten from `new_version`, as `w`.
pub open spec fn work_updated(
    old: &Database,
    new: &Database,
    w: Work,
    original_slug: Seq<char>,
    user_id: i32,
    new_version: Work,
) -> bool {
    exists|i: int|
        {
            &&& 0 <= i < old.works@.len()
            &&& Some(old.works@[i]) == editable_work(old, original_slug, user_id)
            &&& work_row_from(w.row, old.works@[i].id, new_version.row.slug.0@, new_version.row)
            &&& #[trigger] new.works@ == old.works@.update(i, w.row)
            &&& new.work_rights == old.work_rights
            &&& children_replaced(
                old,
                new,
                w.row.id,
                old.next_id as int,
                new_version.attachments@,
                new_version.links@,
                new_version.tags@,
            )
            &&& work_as_stored(
                w,
                w.row,
                old.next_id as int,
                new_version.attachments@,
                new_version.links@,
                new_version.tags@,
            )
            &&& same_accounts(new, old)
            &&& same_portfolios(new, old)
        }
}

/// Rewrites the work with slug `original_slug`, which `user_id` must own,
/// with the columns (slug included) and child rows of `new_version`. Fails
/// with `NotFound` when there is no such work or the caller does not own it,
/// `UniqueViolation` when another work has the new slug, `OutOfRange` when
/// identifiers run out, `NotFound` when an attachment names a part that is
/// not stored.
pub fn update_work(db: &mut Database, original_slug: &String, user_id: i32, new_version: &Work) -> (r:
    Result<Work, StoreError>)
    requires
        old(db).wf(),
    ensures
        final(db).wf(),
        r is Err ==> *final(db) == *old(db),
        editable_work(old(db), original_slug@, user_id) is None ==> r == Err::<Work, StoreError>(
            StoreError::NotFound,
        ),
        editable_work(old(db), original_slug@, user_id) is Some ==> {
            &&& r == Err::<Work, StoreError>(StoreError::UniqueViolation) <==> slug_held_elsewhere(
                old(db),
                new_version.row.slug.0@,
                original_slug@,
            )
            &&& r == Err::<Work, StoreError>(StoreError::OutOfRange) <==> !slug_held_elsewhere(
                old(db),
                new_version.row.slug.0@,
                original_slug@,
            ) && old(db).next_id + ids_needed(*new_version, 0) > i32::MAX
            &&& r == Err::<Work, StoreError>(StoreError::NotFound) <==> !slug_held_elsewhere(
                old(db),
                new_version.row.slug.0@,
                original_slug@,
            ) && old(db).next_id + ids_needed(*new_version, 0) <= i32::MAX && names_missing_part(
                new_version.attachments@,
                old(db).big_file_parts@,
            )
        },
        r is Ok <==> editable_work(old(db), original_slug@, user_id) is Some && !slug_held_elsewhere(
            old(db),
            new_version.row.slug.0@,
            original_slug@,
        ) && old(db).next_id + ids_needed(*new_version, 0) <= i32::MAX && !names_missing_part(
            new_version.attachments@,
            old(db).big_file_parts@,
        ),
        r matches Ok(w) ==> work_updated(old(db), final(db), w, original_slug@, user_id, *new_version),
{
    let i = match find_work(db, original_slug) {
        Some(i) => i,
        None => return Err(StoreError::NotFound),
    };
    let id = db.works[i].id;
    if !user_owns_work(db, user_id, id) {
        return Err(StoreError::NotFound);
    }
    let new_slug = &new_version.row.slug.0;
    if *new_slug != *original_slug && find_work(db, new_slug).is_some() {
        return Err(StoreError::UniqueViolation);
    }
    if !ids_left(db, new_version, 0) {
        return Err(StoreError::OutOfRange);
    }
    if !named_parts_exist(&db.big_file_parts, &new_version.attachments) {
        return Err(StoreError::NotFound);
    }
    let row = WorkRow {
        id,
        slug: new_version.row.slug.duplicate(),
        title: new_version.row.title.clone(),
        short_description: new_version.row.short_description.clone(),
        long_description: new_version.row.long_description.clone(),
    };
    proof {
        let ws = db.works@;
        let nw = ws.update(i as int, row);
        assert forall|a: int, b: int|
            0 <= a < nw.len() && 0 <= b < nw.len() && a != b implies work_slug_key()(nw[a])
            != work_slug_key()(nw[b]) by {
            if a == i {
                if nw[b].slug.0@ == row.slug.0@ && row.slug.0@ != original_slug@ {
                    assert(has_key(ws, work_slug_key(), row.slug.0@));
                }
            } else if b == i {
                if nw[a].slug.0@ == row.slug.0@ && row.slug.0@ != original_slug@ {
                    assert(has_key(ws, work_slug_key(), row.slug.0@));
                }
            }
        }
    }
    db.works[i] = row.duplicate();
    match update_work_details(db, row, &new_version.attachments, &new_version.links, &new_version.tags) {
        Ok(w) => Ok(w),
        Err(e) => Err(e),
    }
}

/// Rows of the works that `user_id` owns, in their stored order.
pub fn get_works(db: &Database, user_id: i32) -> (r: Vec<WorkRow>)
    ensures
        r@ == db.works@.filter(|w: WorkRow| owns_work(db, user_id, w.id)),
{
    let ghost pred = |w: WorkRow| owns_work(db, user_id, w.id);
    let mut out: Vec<WorkRow> = Vec::new();
    let mut i: usize = 0;
    while i < db.works.len()
        invariant
            i <= db.works@.len(),
            pred == (|w: WorkRow| owns_work(db, user_id, w.id)),
            out@ == db.works@.take(i as int).filter(pred),
        decreases db.works@.len() - i,
    {
        if user_owns_work(db, user_id, db.works[i].id) {
            out.push(db.works[i].duplicate());
        }
        proof {
            assert(db.works@.take(i as int + 1) == db.works@.take(i as int).push(db.works@[i as int]));
            db.works@.take(i as int).lemma_filter_push(db.works@[i as int], pred);
        }
        i = i + 1;
    }
    assert(db.works@.take(i as int) == db.works@);
    out
}

/// The work with slug `work_slug`, when `caller` may read it: it owns the
/// work, or the work is listed in a portfolio that it owns or that is
/// published. Anonymous callers (`None`) see published works only.
pub fn get_work(db: &Database, work_slug: &String, caller: Option<i32>) -> (r: Option<Work>)
    requires
        db.wf(),
    ensures
        match find_by_key(db.works@, work_slug_key(), work_slug@) {
            Some(row) => if work_readable(db, row.id, caller) {
                r matches Some(w) && w.row == row && w.attachments@ == db.work_attachments@.filter(
                    of_work(row.id),
                ) && w.links@ == db.work_links@.filter(of_work(row.id)) && w.tags@
                    == db.work_tags@.filter(of_work(row.id))
            } else {
                r is None
            },
            None => r is None,
        },
{
    let i = match find_work(db, work_slug) {
        Some(i) => i,
        None => return None,
    };
    if can_read_work(db, db.works[i].id, caller) {
        Some(fetch_work_details(db, db.works[i].duplicate()))
    } else {
        None
    }
}

} // verus!
