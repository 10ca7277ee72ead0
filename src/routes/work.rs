//! Work handlers.

use vstd::prelude::*;

use crate::access::work_readable;
use crate::api_errors::ApiError;
use crate::data::work::Work;
use crate::database::{find_by_key, has_key, work_slug_key, Database, StoreError};
use crate::services::subtables::names_missing_part;
use crate::services::work::{
    create_work, editable_work, get_work, ids_needed, slug_held_elsewhere, update_work,
    work_created, work_updated,
};

verus! {

/// The work `slug` for `caller`; `NoSuchSlug` when there is none or the
/// caller may not read it.
pub fn by_slug(db: &Database, slug: &String, caller: Option<i32>) -> (r: Result<Work, ApiError>)
    requires
        db.wf(),
    ensures
        r is Err ==> r == Err::<Work, ApiError>(ApiError::NoSuchSlug),
        match find_by_key(db.works@, work_slug_key(), slug@) {
            Some(row) => (r is Ok <==> work_readable(db, row.id, caller)) && (r matches Ok(w)
                ==> w.row == row),
            None => r is Err,
        },
{
    match get_work(db, slug, caller) {
        Some(w) => Ok(w),
        None => Err(ApiError::NoSuchSlug),
    }
}

/// Creates work `slug` for `user_id`; a taken slug gives `SlugTaken`, any
/// other failure `DbError`.
pub fn create(db: &mut Database, user_id: i32, slug: &String, work: &Work) -> (r: Result<Work, ApiError>)
    requires
        old(db).wf(),
    ensures
        final(db).wf(),
        r is Err ==> *final(db) == *old(db),
        has_key(old(db).works@, work_slug_key(), slug@) ==> r == Err::<Work, ApiError>(
            ApiError::SlugTaken,
        ),
        !has_key(old(db).works@, work_slug_key(), slug@) ==> {
            &&& r is Ok <==> old(db).next_id + ids_needed(*work, 1) <= i32::MAX && !names_missing_part(
                work.attachments@,
                old(db).big_file_parts@,
            )
            &&& r is Err ==> r == Err::<Work, ApiError>(ApiError::DbError)
        },
        r matches Ok(w) ==> work_created(old(db), final(db), w, slug@, user_id, *work),
{
    match create_work(db, slug, user_id, work) {
        Ok(w) => Ok(w),
        Err(StoreError::UniqueViolation) => Err(ApiError::SlugTaken),
        Err(_) => Err(ApiError::DbError),
    }
}

/// Rewrites work `slug` of `user_id`; another work holding the new slug
/// gives `SlugTaken`, any other failure (an unknown or foreign slug among
/// them) `DbError`.
pub fn edit(db: &mut Database, user_id: i32, slug: &String, work: &Work) -> (r: Result<Work, ApiError>)
    requires
        old(db).wf(),
    ensures
        final(db).wf(),
        r is Err ==> *final(db) == *old(db),
        editable_work(old(db), slug@, user_id) is None ==> r == Err::<Work, ApiError>(
            ApiError::DbError,
        ),
        editable_work(old(db), slug@, user_id) is Some ==> {
            &&& r == Err::<Work, ApiError>(ApiError::SlugTaken) <==> slug_held_elsewhere(
                old(db),
                work.row.slug.0@,
                slug@,
            )
            &&& r is Ok <==> !slug_held_elsewhere(old(db), work.row.slug.0@, slug@) && old(db).next_id
                + ids_needed(*work, 0) <= i32::MAX && !names_missing_part(
                work.attachments@,
                old(db).big_file_parts@,
            )
        },
        r matches Ok(w) ==> work_updated(old(db), final(db), w, slug@, user_id, *work),
{
    match update_work(db, slug, user_id, work) {
        Ok(w) => Ok(w),
        Err(StoreError::UniqueViolation) => Err(ApiError::SlugTaken),
        Err(_) => Err(ApiError::DbError),
    }
}

} // verus!
