//! Portfolio handlers.

use vstd::prelude::*;

use crate::access::portfolio_readable;
use crate::api_errors::ApiError;
use crate::data::portfolio::Portfolio;
use crate::database::{find_by_key, has_key, portfolio_slug_key, Database, StoreError};
use crate::services::portfolio::{
    create_portfolio, editable_portfolio, get_portfolio, portfolio_created,
    portfolio_slug_held_elsewhere, portfolio_updated, slugs_resolve, update_portfolio,
};

verus! {

/// The portfolio `slug` for `caller`; `NoSuchSlug` when there is none or it
/// is private to someone else.
pub fn by_slug(db: &Database, slug: &String, caller: Option<i32>) -> (r: Result<Portfolio, ApiError>)
    requires
        db.wf(),
    ensures
        r is Err ==> r == Err::<Portfolio, ApiError>(ApiError::NoSuchSlug),
        match find_by_key(db.portfolios@, portfolio_slug_key(), slug@) {
            Some(row) => (r is Ok <==> portfolio_readable(db, row.id, caller)) && (r matches Ok(p)
                ==> p.row == row),
            None => r is Err,
        },
{
    match get_portfolio(db, slug, caller) {
        Some(p) => Ok(p),
        None => Err(ApiError::NoSuchSlug),
    }
}

/// Creates portfolio `slug` for `user_id`; a taken slug gives `SlugTaken`,
/// any other failure `DbError`.
pub fn create(
    db: &mut Database,
    user_id: i32,
    slug: &String,
    portfolio: &Portfolio,
    publish: bool,
    now: i64,
) -> (r: Result<Portfolio, ApiError>)
    requires
        old(db).wf(),
    ensures
        final(db).wf(),
        r is Err ==> *final(db) == *old(db),
        has_key(old(db).portfolios@, portfolio_slug_key(), slug@) ==> r == Err::<Portfolio, ApiError>(
            ApiError::SlugTaken,
        ),
        !has_key(old(db).portfolios@, portfolio_slug_key(), slug@) ==> {
            &&& r is Ok <==> old(db).next_id + 1 + portfolio.categories@.len() <= i32::MAX
                && slugs_resolve(old(db).works@, portfolio.categories@)
            &&& r is Err ==> r == Err::<Portfolio, ApiError>(ApiError::DbError)
        },
        r matches Ok(p) ==> portfolio_created(
            old(db),
            final(db),
            p,
            slug@,
            user_id,
            *portfolio,
            publish,
            now,
        ),
{
    match create_portfolio(db, slug, user_id, portfolio, publish, now) {
        Ok(p) => Ok(p),
        Err(StoreError::UniqueViolation) => Err(ApiError::SlugTaken),
        Err(_) => Err(ApiError::DbError),
    }
}

/// Rewrites portfolio `slug` of `user_id`; another portfolio holding the new
/// slug gives `SlugTaken`, any other failure (an unknown or foreign slug
/// among them) `DbError`.
pub fn edit(
    db: &mut Database,
    user_id: i32,
    slug: &String,
    portfolio: &Portfolio,
    publish: bool,
    now: i64,
) -> (r: Result<Portfolio, ApiError>)
    requires
        old(db).wf(),
    ensures
        final(db).wf(),
        r is Err ==> *final(db) == *old(db),
        editable_portfolio(old(db), slug@, user_id) is None ==> r == Err::<Portfolio, ApiError>(
            ApiError::DbError,
        ),
        editable_portfolio(old(db), slug@, user_id) is Some ==> {
            &&& r == Err::<Portfolio, ApiError>(ApiError::SlugTaken) <==> portfolio_slug_held_elsewhere(
                old(db),
                portfolio.row.slug.0@,
                slug@,
            )
            &&& r is Ok <==> !portfolio_slug_held_elsewhere(old(db), portfolio.row.slug.0@, slug@)
                && old(db).next_id + portfolio.categories@.len() <= i32::MAX && slugs_resolve(
                old(db).works@,
                portfolio.categories@,
            )
        },
        r matches Ok(p) ==> portfolio_updated(
            old(db),
            final(db),
            p,
            slug@,
            user_id,
            *portfolio,
            publish,
            now,
        ),
{
    match update_portfolio(db, slug, user_id, portfolio, publish, now) {
        Ok(p) => Ok(p),
        Err(StoreError::UniqueViolation) => Err(ApiError::SlugTaken),
        Err(_) => Err(ApiError::DbError),
    }
}

} // verus!
