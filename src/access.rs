//! The two-tier access rule: a principal reads what it owns, and what is
//! listed in a portfolio that it owns or that is published.

use vstd::prelude::*;

use crate::database::{Database, Right};

verus! {

/// `user_id` holds a right on work `work_id`.
pub open spec fn owns_work(db: &Database, user_id: i32, work_id: i32) -> bool {
    exists|i: int|
        0 <= i < db.work_rights.len() && #[trigger] db.work_rights@[i] == (Right {
            object_id: work_id,
            user_id,
        })
}

/// `user_id` holds a right on portfolio `portfolio_id`.
pub open spec fn owns_portfolio(db: &Database, user_id: i32, portfolio_id: i32) -> bool {
    exists|i: int|
        0 <= i < db.portfolio_rights.len() && #[trigger] db.portfolio_rights@[i] == (Right {
            object_id: portfolio_id,
            user_id,
        })
}

/// Portfolio `portfolio_id` exists and has been published.
pub open spec fn is_published(db: &Database, portfolio_id: i32) -> bool {
    exists|i: int|
        0 <= i < db.portfolios.len() && #[trigger] db.portfolios@[i].id == portfolio_id
            && db.portfolios@[i].published_at is Some
}

/// `caller` may read portfolio `portfolio_id` and what it lists: the
/// portfolio is published, or the caller owns it.
pub open spec fn portfolio_readable(db: &Database, portfolio_id: i32, caller: Option<i32>) -> bool {
    is_published(db, portfolio_id) || (caller matches Some(u) && owns_portfolio(db, u, portfolio_id))
}

/// Some category of portfolio `portfolio_id` lists work `work_id`.
pub open spec fn portfolio_contains(db: &Database, portfolio_id: i32, work_id: i32) -> bool {
    exists|m: int, c: int|
        0 <= m < db.works_in_categories.len() && 0 <= c < db.categories.len()
            && #[trigger] db.works_in_categories@[m].work_id == work_id
            && #[trigger] db.categories@[c].id == db.works_in_categories@[m].category_id
            && db.categories@[c].portfolio_id == portfolio_id
}

/// Category `category_id` belongs to a portfolio that `caller` may read.
pub open spec fn category_readable(db: &Database, category_id: i32, caller: Option<i32>) -> bool {
    exists|c: int|
        0 <= c < db.categories.len() && #[trigger] db.categories@[c].id == category_id
            && portfolio_readable(db, db.categories@[c].portfolio_id, caller)
}

/// `caller` may read work `work_id`: it owns the work, or the work is listed
/// in a portfolio that it owns or that is published.
pub open spec fn work_readable(db: &Database, work_id: i32, caller: Option<i32>) -> bool {
    ||| (caller matches Some(u) && owns_work(db, u, work_id))
    ||| exists|m: int|
        0 <= m < db.works_in_categories.len() && #[trigger] db.works_in_categories@[m].work_id
            == work_id && category_readable(db, db.works_in_categories@[m].category_id, caller)
}

/// The access rule written over portfolios: ownership of the work, or a
/// portfolio that lists it and is owned by the caller or published.
pub proof fn lemma_work_readable_via_portfolios(db: &Database, work_id: i32, caller: Option<i32>)
    ensures
        work_readable(db, work_id, caller) <==> (caller matches Some(u) && owns_work(db, u, work_id))
            || exists|p: i32|
            #[trigger] portfolio_contains(db, p, work_id) && portfolio_readable(db, p, caller),
{
    if exists|p: i32| #[trigger] portfolio_contains(db, p, work_id) && portfolio_readable(db, p, caller) {
        let p = choose|p: i32| #[trigger] portfolio_contains(db, p, work_id) && portfolio_readable(db, p, caller);
        let (m, c) = choose|m: int, c: int|
            0 <= m < db.works_in_categories.len() && 0 <= c < db.categories.len()
                && #[trigger] db.works_in_categories@[m].work_id == work_id
                && #[trigger] db.categories@[c].id == db.works_in_categories@[m].category_id
                && db.categories@[c].portfolio_id == p;
        assert(category_readable(db, db.works_in_categories@[m].category_id, caller));
    }
    if work_readable(db, work_id, caller) && !(caller matches Some(u) && owns_work(db, u, work_id)) {
        let m = choose|m: int|
            0 <= m < db.works_in_categories.len() && #[trigger] db.works_in_categories@[m].work_id
                == work_id && category_readable(db, db.works_in_categories@[m].category_id, caller);
        let c = choose|c: int|
            0 <= c < db.categories.len() && #[trigger] db.categories@[c].id
                == db.works_in_categories@[m].category_id && portfolio_readable(
                db,
                db.categories@[c].portfolio_id,
                caller,
            );
        assert(portfolio_contains(db, db.categories@[c].portfolio_id, work_id));
    }
}

/// Whether `user_id` holds a right on work `work_id`.
pub fn user_owns_work(db: &Database, user_id: i32, work_id: i32) -> (r: bool)
    ensures
        r == owns_work(db, user_id, work_id),
{
    let mut i: usize = 0;
    while i < db.work_rights.len()
        invariant
            i <= db.work_rights@.len(),
            forall|j: int| 0 <= j < i ==> db.work_rights@[j] != (Right { object_id: work_id, user_id }),
        decreases db.work_rights@.len() - i,
    {
        if db.work_rights[i].object_id == work_id && db.work_rights[i].user_id == user_id {
            return true;
        }
        i = i + 1;
    }
    false
}

/// Whether `user_id` holds a right on portfolio `portfolio_id`.
pub fn user_owns_portfolio(db: &Database, user_id: i32, portfolio_id: i32) -> (r: bool)
    ensures
        r == owns_portfolio(db, user_id, portfolio_id),
{
    let mut i: usize = 0;
    while i < db.portfolio_rights.len()
        invariant
            i <= db.portfolio_rights@.len(),
            forall|j: int|
                0 <= j < i ==> db.portfolio_rights@[j] != (Right { object_id: portfolio_id, user_id }),
        decreases db.portfolio_rights@.len() - i,
    {
        if db.portfolio_rights[i].object_id == portfolio_id && db.portfolio_rights[i].user_id == user_id {
            return true;
        }
        i = i + 1;
    }
    false
}

/// Whether `caller` may read portfolio `portfolio_id`.
pub fn can_read_portfolio(db: &Database, portfolio_id: i32, caller: Option<i32>) -> (r: bool)
    ensures
        r == portfolio_readable(db, portfolio_id, caller),
{
    let mut i: usize = 0;
    while i < db.portfolios.len()
        invariant
            i <= db.portfolios@.len(),
            forall|j: int|
                0 <= j < i ==> !(db.portfolios@[j].id == portfolio_id
                    && db.portfolios@[j].published_at is Some),
        decreases db.portfolios@.len() - i,
    {
        if db.portfolios[i].id == portfolio_id && db.portfolios[i].published_at.is_some() {
            assert(db.portfolios@[i as int].id == portfolio_id);
            return true;
        }
        i = i + 1;
    }
    match caller {
        Some(u) => user_owns_portfolio(db, u, portfolio_id),
        None => false,
    }
}

/// Whether `caller` may read what category `category_id` lists.
fn can_read_category(db: &Database, category_id: i32, caller: Option<i32>) -> (r: bool)
    ensures
        r == category_readable(db, category_id, caller),
{
    let mut c: usize = 0;
    while c < db.categories.len()
        invariant
            c <= db.categories@.len(),
            forall|j: int|
                0 <= j < c ==> !(db.categories@[j].id == category_id && portfolio_readable(
                    db,
                    db.categories@[j].portfolio_id,
                    caller,
                )),
        decreases db.categories@.len() - c,
    {
        if db.categories[c].id == category_id && can_read_portfolio(db, db.categories[c].portfolio_id, caller) {
            assert(db.categories@[c as int].id == category_id);
            return true;
        }
        c = c + 1;
    }
    false
}

/// Whether `caller` may read work `work_id`.
pub fn can_read_work(db: &Database, work_id: i32, caller: Option<i32>) -> (r: bool)
    ensures
        r == work_readable(db, work_id, caller),
{
    if let Some(u) = caller {
        if user_owns_work(db, u, work_id) {
            return true;
        }
    }
    let mut m: usize = 0;
    while m < db.works_in_categories.len()
        invariant
            m <= db.works_in_categories@.len(),
            !(caller matches Some(u) && owns_work(db, u, work_id)),
            forall|j: int|
                0 <= j < m ==> !(db.works_in_categories@[j].work_id == work_id && category_readable(
                    db,
                    db.works_in_categories@[j].category_id,
                    caller,
                )),
        decreases db.works_in_categories@.len() - m,
    {
        if db.works_in_categories[m].work_id == work_id && can_read_category(
            db,
            db.works_in_categories[m].category_id,
            caller,
        ) {
            assert(db.works_in_categories@[m as int].work_id == work_id);
            return true;
        }
        m = m + 1;
    }
    false
}

} // verus!
