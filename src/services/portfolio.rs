//! Portfolio store: portfolios, their categories and the works listed in
//! each category.

use vstd::prelude::*;

use crate::access::{can_read_portfolio, owns_portfolio, portfolio_readable, user_owns_portfolio};
use crate::array_string_types::SlugString;
use crate::data::portfolio::{Portfolio, PortfolioCategory, PortfolioCategoryRow, PortfolioRow};
use crate::data::work::WorkRow;
use crate::database::{
    category_id_key, find_by_key, has_key, keys_unique, lemma_filter_unique, lemma_find_by_key, lemma_push_unique, portfolio_slug_key,
    same_accounts, same_works, work_id_key, work_slug_key, Database, Membership, Right, StoreError,
};
use crate::services::work::find_work;

verus! {

/// The text of a slug.
pub open spec fn slug_text(s: SlugString) -> Seq<char> {
    s.0@
}

/// Identifier of the work whose slug is `slug`.
pub open spec fn work_id_of(works: Seq<WorkRow>, slug: Seq<char>) -> i32 {
    find_by_key(works, work_slug_key(), slug)->0.id
}

/// Every slug listed by `inputs` names a stored work.
pub open spec fn slugs_resolve(works: Seq<WorkRow>, inputs: Seq<PortfolioCategory>) -> bool {
    forall|k: int, j: int|
        0 <= k < inputs.len() && 0 <= j < inputs[k].work_slugs@.len() ==> has_key(
            works,
            work_slug_key(),
            #[trigger] inputs[k].work_slugs@[j].0@,
        )
}

/// The category row stored for input `input` of portfolio `portfolio_id`.
pub open spec fn stored_category(input: PortfolioCategory, portfolio_id: i32, id: int) -> PortfolioCategoryRow {
    PortfolioCategoryRow { id: id as i32, portfolio_id, title: input.row.title }
}

/// The category rows stored for `inputs`, identifiers from `first` on.
pub open spec fn stored_categories(inputs: Seq<PortfolioCategory>, portfolio_id: i32, first: int) -> Seq<
    PortfolioCategoryRow,
> {
    Seq::new(inputs.len(), |k: int| stored_category(inputs[k], portfolio_id, first + k))
}

/// Membership rows of category `category_id` for the works named by `slugs`.
pub open spec fn category_memberships(
    works: Seq<WorkRow>,
    slugs: Seq<SlugString>,
    category_id: int,
) -> Seq<Membership> {
    slugs.map_values(
        |s: SlugString| Membership { category_id: category_id as i32, work_id: work_id_of(works, s.0@) },
    )
}

/// Membership rows for the categories `inputs`, stored with identifiers from
/// `first` on, in input order.
pub open spec fn new_memberships(
    works: Seq<WorkRow>,
    inputs: Seq<PortfolioCategory>,
    first: int,
) -> Seq<Membership>
    decreases inputs.len(),
{
    if inputs.len() == 0 {
        Seq::empty()
    } else {
        new_memberships(works, inputs.drop_last(), first) + category_memberships(
            works,
            inputs.last().work_slugs@,
            first + inputs.len() - 1,
        )
    }
}

/// Category `category_id` is one of the categories of `portfolio_id`.
pub open spec fn is_category_of(categories: Seq<PortfolioCategoryRow>, category_id: i32, portfolio_id: i32) -> bool {
    exists|i: int|
        0 <= i < categories.len() && #[trigger] categories[i].id == category_id
            && categories[i].portfolio_id == portfolio_id
}

/// Categories of portfolios other than `portfolio_id`.
pub open spec fn not_in_portfolio(portfolio_id: i32) -> spec_fn(PortfolioCategoryRow) -> bool {
    |c: PortfolioCategoryRow| c.portfolio_id != portfolio_id
}

/// Memberships that outlive the deletion of the categories of `portfolio_id`.
pub open spec fn outside_portfolio(categories: Seq<PortfolioCategoryRow>, portfolio_id: i32) -> spec_fn(
    Membership,
) -> bool {
    |m: Membership| !is_category_of(categories, m.category_id, portfolio_id)
}

/// The category tables after replacing the categories of `portfolio_id` with
/// `inputs`, identifiers drawn from `first` on.
pub open spec fn categories_replaced(
    old: &Database,
    new: &Database,
    portfolio_id: i32,
    first: int,
    inputs: Seq<PortfolioCategory>,
) -> bool {
    &&& new.categories@ == old.categories@.filter(not_in_portfolio(portfolio_id)) + stored_categories(
        inputs,
        portfolio_id,
        first,
    )
    &&& new.works_in_categories@ == old.works_in_categories@.filter(
        outside_portfolio(old.categories@, portfolio_id),
    ) + new_memberships(old.works@, inputs, first)
    &&& new.next_id == first + inputs.len()
}

/// The portfolio as returned after its categories were replaced: its row,
/// and per input category the stored row and the slugs it lists.
pub open spec fn portfolio_as_stored(
    p: Portfolio,
    row: PortfolioRow,
    first: int,
    inputs: Seq<PortfolioCategory>,
) -> bool {
    &&& p.row == row
    &&& p.categories@.len() == inputs.len()
    &&& forall|k: int|
        0 <= k < inputs.len() ==> (#[trigger] p.categories@[k]).row == stored_category(
            inputs[k],
            row.id,
            first + k,
        ) && p.categories@[k].work_slugs@.map_values(|s: SlugString| s.0@)
            == inputs[k].work_slugs@.map_values(|s: SlugString| s.0@)
}

/// The memberships made for categories stored from `first` on name those
/// categories.
proof fn lemma_new_memberships_bound(works: Seq<WorkRow>, inputs: Seq<PortfolioCategory>, first: int)
    requires
        0 <= first,
        first + inputs.len() <= i32::MAX,
    ensures
        forall|i: int|
            0 <= i < new_memberships(works, inputs, first).len() ==> (#[trigger] new_memberships(
                works,
                inputs,
                first,
            )[i]).category_id < first + inputs.len(),
    decreases inputs.len(),
{
    if inputs.len() > 0 {
        let pre = new_memberships(works, inputs.drop_last(), first);
        let cm = category_memberships(works, inputs.last().work_slugs@, first + inputs.len() - 1);
        lemma_new_memberships_bound(works, inputs.drop_last(), first);
        assert forall|i: int| 0 <= i < cm.len() implies (#[trigger] cm[i]).category_id < first
            + inputs.len() by {}
        assert forall|i: int| 0 <= i < (pre + cm).len() implies (#[trigger] (pre + cm)[i]).category_id
            < first + inputs.len() by {
            if i < pre.len() {
                assert((pre + cm)[i] == pre[i]);
            } else {
                assert((pre + cm)[i] == cm[i - pre.len()]);
            }
        }
    }
}

/// Whether every slug listed by `inputs` names a stored work.
fn all_slugs_resolve(db: &Database, inputs: &Vec<PortfolioCategory>) -> (r: bool)
    requires
        db.wf(),
    ensures
        r == slugs_resolve(db.works@, inputs@),
{
    let mut k: usize = 0;
    while k < inputs.len()
        invariant
            db.wf(),
            k <= inputs@.len(),
            forall|a: int, b: int|
                0 <= a < k && 0 <= b < inputs@[a].work_slugs@.len() ==> has_key(
                    db.works@,
                    work_slug_key(),
                    #[trigger] inputs@[a].work_slugs@[b].0@,
                ),
        decreases inputs@.len() - k,
    {
        let slugs = &inputs[k].work_slugs;
        let mut j: usize = 0;
        while j < slugs.len()
            invariant
                db.wf(),
                k < inputs@.len(),
                slugs == inputs@[k as int].work_slugs,
                j <= slugs@.len(),
                forall|a: int, b: int|
                    0 <= a < k && 0 <= b < inputs@[a].work_slugs@.len() ==> has_key(
                        db.works@,
                        work_slug_key(),
                        #[trigger] inputs@[a].work_slugs@[b].0@,
                    ),
                forall|b: int| 0 <= b < j ==> has_key(db.works@, work_slug_key(), #[trigger] slugs@[b].0@),
            decreases slugs@.len() - j,
        {
            if find_work(db, &slugs[j].0).is_none() {
                return false;
            }
            j = j + 1;
        }
        k = k + 1;
    }
    true
}

/// Whether category `category_id` belongs to portfolio `portfolio_id`.
fn category_of(categories: &Vec<PortfolioCategoryRow>, category_id: i32, portfolio_id: i32) -> (r: bool)
    ensures
        r == is_category_of(categories@, category_id, portfolio_id),
{
    let mut i: usize = 0;
    while i < categories.len()
        invariant
            i <= categories@.len(),
            forall|j: int|
                0 <= j < i ==> !(categories@[j].id == category_id && categories@[j].portfolio_id
                    == portfolio_id),
        decreases categories@.len() - i,
    {
        if categories[i].id == category_id && categories[i].portfolio_id == portfolio_id {
            assert(categories@[i as int].id == category_id);
            return true;
        }
        i = i + 1;
    }
    false
}

/// Replaces the categories of portfolio `row` with `input_categories`: the
/// old categories go with their memberships; each input becomes a category
/// with a fresh identifier, listing the works its slugs name. The result is
/// rebuilt from the stored rows. Fails with `OutOfRange` when identifiers run
/// out and `NotFound` when a slug names no work.
pub fn update_portfolio_details(
    db: &mut Database,
    row: PortfolioRow,
    input_categories: &Vec<PortfolioCategory>,
) -> (r: Result<Portfolio, StoreError>)
    requires
        old(db).wf(),
        row.id < old(db).next_id,
    ensures
        final(db).wf(),
        r is Err ==> *final(db) == *old(db),
        r == Err::<Portfolio, StoreError>(StoreError::OutOfRange) <==> old(db).next_id
            + input_categories@.len() > i32::MAX,
        r == Err::<Portfolio, StoreError>(StoreError::NotFound) <==> old(db).next_id
            + input_categories@.len() <= i32::MAX && !slugs_resolve(old(db).works@, input_categories@),
        r is Ok <==> old(db).next_id + input_categories@.len() <= i32::MAX && slugs_resolve(
            old(db).works@,
            input_categories@,
        ),
        r matches Ok(p) ==> {
            &&& categories_replaced(old(db), final(db), row.id, old(db).next_id as int, input_categories@)
            &&& portfolio_as_stored(p, row, old(db).next_id as int, input_categories@)
            &&& final(db).portfolios == old(db).portfolios
            &&& final(db).portfolio_rights == old(db).portfolio_rights
            &&& same_accounts(final(db), old(db))
            &&& same_works(final(db), old(db))
        },
{
    let portfolio_id = row.id;
    let c_len = input_categories.len();
    if c_len > 0x7fff_ffff || db.next_id as i64 + c_len as i64 > 0x7fff_ffff {
        return Err(StoreError::OutOfRange);
    }
    if !all_slugs_resolve(db, input_categories) {
        return Err(StoreError::NotFound);
    }
    let first = db.next_id;
    let ghost old_db = *db;
    let ghost inputs = input_categories@;

    // memberships of the old categories go first, then the categories
    let ghost keep = outside_portfolio(old_db.categories@, portfolio_id);
    let mut memberships: Vec<Membership> = Vec::new();
    let mut i: usize = 0;
    while i < db.works_in_categories.len()
        invariant
            *db == old_db,
            i <= db.works_in_categories@.len(),
            keep == outside_portfolio(old_db.categories@, portfolio_id),
            memberships@ == db.works_in_categories@.take(i as int).filter(keep),
        decreases db.works_in_categories@.len() - i,
    {
        let m = db.works_in_categories[i];
        if !category_of(&db.categories, m.category_id, portfolio_id) {
            memberships.push(m);
        }
        proof {
            assert(db.works_in_categories@.take(i as int + 1) == db.works_in_categories@.take(
                i as int,
            ).push(m));
            db.works_in_categories@.take(i as int).lemma_filter_push(m, keep);
        }
        i = i + 1;
    }
    assert(db.works_in_categories@.take(i as int) == db.works_in_categories@);
    let ghost drop = not_in_portfolio(portfolio_id);
    let mut categories: Vec<PortfolioCategoryRow> = Vec::new();
    i = 0;
    while i < db.categories.len()
        invariant
            *db == old_db,
            i <= db.categories@.len(),
            drop == not_in_portfolio(portfolio_id),
            categories@ == db.categories@.take(i as int).filter(drop),
        decreases db.categories@.len() - i,
    {
        if db.categories[i].portfolio_id != portfolio_id {
            categories.push(db.categories[i].duplicate());
        }
        proof {
            assert(db.categories@.take(i as int + 1) == db.categories@.take(i as int).push(
                db.categories@[i as int],
            ));
            db.categories@.take(i as int).lemma_filter_push(db.categories@[i as int], drop);
        }
        i = i + 1;
    }
    assert(db.categories@.take(i as int) == db.categories@);
    let ghost base_categories = categories@;
    let ghost base_memberships = memberships@;

    // the new categories, their memberships, and the response
    let mut result: Vec<PortfolioCategory> = Vec::new();
    let mut k: usize = 0;
    while k < c_len
        invariant
            *db == old_db,
            db.wf(),
            k <= c_len == inputs.len() <= 0x7fff_ffff,
            input_categories@ == inputs,
            first == old_db.next_id,
            first + c_len <= 0x7fff_ffff,
            slugs_resolve(old_db.works@, inputs),
            categories@ == base_categories + stored_categories(inputs, portfolio_id, first as int).take(
                k as int,
            ),
            memberships@ == base_memberships + new_memberships(
                old_db.works@,
                inputs.take(k as int),
                first as int,
            ),
            result@.len() == k,
            forall|a: int|
                0 <= a < k ==> (#[trigger] result@[a]).row == stored_category(
                    inputs[a],
                    portfolio_id,
                    first + a,
                ) && result@[a].work_slugs@.map_values(|s: SlugString| s.0@)
                    == inputs[a].work_slugs@.map_values(|s: SlugString| s.0@),
        decreases c_len - k,
    {
        let input = &input_categories[k];
        let category_id = first + k as i32;
        let category = PortfolioCategoryRow {
            id: category_id,
            portfolio_id,
            title: input.row.title.clone(),
        };
        categories.push(category.duplicate());
        assert(categories@ =~= base_categories + stored_categories(
            inputs,
            portfolio_id,
            first as int,
        ).take(k as int + 1));
        let ghost before = memberships@;
        let mut slugs: Vec<SlugString> = Vec::new();
        let mut j: usize = 0;
        while j < input.work_slugs.len()
            invariant
                *db == old_db,
                db.wf(),
                k < inputs.len(),
                input == inputs[k as int],
                category_id == first + k,
                slugs_resolve(old_db.works@, inputs),
                j <= input.work_slugs@.len(),
                memberships@ == before + category_memberships(
                    old_db.works@,
                    input.work_slugs@.take(j as int),
                    category_id as int,
                ),
                slugs@.map_values(|s: SlugString| s.0@) == input.work_slugs@.take(j as int).map_values(
                    |s: SlugString| s.0@,
                ),
            decreases input.work_slugs@.len() - j,
        {
            assert(has_key(old_db.works@, work_slug_key(), inputs[k as int].work_slugs@[j as int].0@));
            let w = match find_work(db, &input.work_slugs[j].0) {
                Some(w) => w,
                None => {
                    assert(false);
                    return Err(StoreError::NotFound);
                },
            };
            memberships.push(Membership { category_id, work_id: db.works[w].id });
            let ghost slugs_before = slugs@;
            slugs.push(db.works[w].slug.duplicate());
            proof {
                let f = |s: SlugString| s.0@;
                let t = input.work_slugs@.take(j as int + 1);
                assert(t.map_values(f) =~= input.work_slugs@.take(j as int).map_values(f).push(
                    f(input.work_slugs@[j as int]),
                ));
                assert(slugs@.map_values(f) =~= slugs_before.map_values(f).push(f(slugs@.last())));
            }
            j = j + 1;
            assert(memberships@ =~= before + category_memberships(
                old_db.works@,
                input.work_slugs@.take(j as int),
                category_id as int,
            ));
            assert(slugs@.map_values(|s: SlugString| s.0@) =~= input.work_slugs@.take(j as int).map_values(
                |s: SlugString| s.0@,
            ));
        }
        assert(input.work_slugs@.take(j as int) == input.work_slugs@);
        assert(inputs.take(k as int + 1).drop_last() == inputs.take(k as int));
        assert(memberships@ =~= base_memberships + new_memberships(
            old_db.works@,
            inputs.take(k as int + 1),
            first as int,
        ));
        result.push(PortfolioCategory { row: category, work_slugs: slugs });
        k = k + 1;
    }
    assert(inputs.take(k as int) == inputs);
    assert(stored_categories(inputs, portfolio_id, first as int).take(k as int) == stored_categories(
        inputs,
        portfolio_id,
        first as int,
    ));
    proof {
        let last = first + c_len;
        let fc = old_db.categories@.filter(drop);
        let sc = stored_categories(inputs, portfolio_id, first as int);
        lemma_filter_unique(old_db.categories@, drop, category_id_key());
        assert forall|i: int| 0 <= i < categories@.len() implies #[trigger] categories@[i].id < last
            && categories@[i].portfolio_id < last && (i < fc.len() ==> categories@[i].id < first) by {
            if i < fc.len() {
                old_db.categories@.lemma_filter_contains_rev(drop, fc[i]);
            } else {
                assert(categories@[i] == sc[i - fc.len()]);
            }
        }
        assert forall|i: int, j: int|
            0 <= i < categories@.len() && 0 <= j < categories@.len() && i != j implies category_id_key()(
            categories@[i]) != category_id_key()(categories@[j]) by {
            if i >= fc.len() && j >= fc.len() {
                assert(categories@[i] == sc[i - fc.len()]);
                assert(categories@[j] == sc[j - fc.len()]);
            } else if i < fc.len() && j < fc.len() {
                assert(categories@[i] == fc[i] && categories@[j] == fc[j]);
            } else if i < fc.len() {
                assert(categories@[j] == sc[j - fc.len()]);
            } else {
                assert(categories@[i] == sc[i - fc.len()]);
            }
        }
        let fm = old_db.works_in_categories@.filter(keep);
        lemma_new_memberships_bound(old_db.works@, inputs, first as int);
        assert forall|i: int| 0 <= i < memberships@.len() implies #[trigger] memberships@[i].category_id
            < last by {
            if i < fm.len() {
                old_db.works_in_categories@.lemma_filter_contains_rev(keep, fm[i]);
            } else {
                assert(memberships@[i] == new_memberships(old_db.works@, inputs, first as int)[i
                    - fm.len()]);
            }
        }
    }
    db.categories = categories;
    db.works_in_categories = memberships;
    db.next_id = first + c_len as i32;
    Ok(Portfolio { row, categories: result })
}

/// The work whose identifier is `id`.
pub open spec fn work_by_id(works: Seq<WorkRow>, id: i32) -> Option<WorkRow> {
    find_by_key(works, work_id_key(), id)
}

/// Slugs of the works that the memberships `ms` list in category
/// `category_id`, in membership order.
pub open spec fn listed_slugs(works: Seq<WorkRow>, ms: Seq<Membership>, category_id: i32) -> Seq<
    Seq<char>,
>
    decreases ms.len(),
{
    if ms.len() == 0 {
        Seq::empty()
    } else {
        let rest = listed_slugs(works, ms.drop_last(), category_id);
        let m = ms.last();
        if m.category_id == category_id && work_by_id(works, m.work_id) is Some {
            rest.push(work_by_id(works, m.work_id)->0.slug.0@)
        } else {
            rest
        }
    }
}

/// Categories of portfolio `portfolio_id`.
pub open spec fn in_portfolio(portfolio_id: i32) -> spec_fn(PortfolioCategoryRow) -> bool {
    |c: PortfolioCategoryRow| c.portfolio_id == portfolio_id
}

/// Index of the work whose identifier is `id`.
fn find_work_by_id(db: &Database, id: i32) -> (r: Option<usize>)
    requires
        db.wf(),
    ensures
        match r {
            Some(i) => i < db.works@.len() && work_by_id(db.works@, id) == Some(db.works@[i as int]),
            None => work_by_id(db.works@, id) is None,
        },
{
    let mut i: usize = 0;
    while i < db.works.len()
        invariant
            db.wf(),
            i <= db.works@.len(),
            forall|j: int| 0 <= j < i ==> db.works@[j].id != id,
        decreases db.works@.len() - i,
    {
        if db.works[i].id == id {
            proof {
                lemma_find_by_key(db.works@, work_id_key(), i as int);
            }
            return Some(i);
        }
        i = i + 1;
    }
    None
}

/// Slugs of the works listed in category `category_id`.
fn category_slugs(db: &Database, category_id: i32) -> (r: Vec<SlugString>)
    requires
        db.wf(),
    ensures
        r@.map_values(|s: SlugString| s.0@) == listed_slugs(db.works@, db.works_in_categories@, category_id),
{
    let mut out: Vec<SlugString> = Vec::new();
    let mut i: usize = 0;
    while i < db.works_in_categories.len()
        invariant
            db.wf(),
            i <= db.works_in_categories@.len(),
            out@.map_values(|s: SlugString| s.0@) == listed_slugs(
                db.works@,
                db.works_in_categories@.take(i as int),
                category_id,
            ),
        decreases db.works_in_categories@.len() - i,
    {
        let m = db.works_in_categories[i];
        let ghost before = out@;
        assert(db.works_in_categories@.take(i as int + 1).drop_last() == db.works_in_categories@.take(
            i as int,
        ));
        if m.category_id == category_id {
            if let Some(w) = find_work_by_id(db, m.work_id) {
                out.push(db.works[w].slug.duplicate());
                assert(out@.map_values(|s: SlugString| s.0@) =~= before.map_values(
                    |s: SlugString| s.0@,
                ).push(db.works@[w as int].slug.0@));
            }
        }
        i = i + 1;
    }
    assert(db.works_in_categories@.take(i as int) == db.works_in_categories@);
    out
}

/// Portfolio `row` with its categories, each with the slugs of the works it
/// lists.
pub fn fetch_portfolio_details(db: &Database, row: PortfolioRow) -> (r: Portfolio)
    requires
        db.wf(),
    ensures
        r.row == row,
        r.categories@.map_values(|c: PortfolioCategory| c.row) == db.categories@.filter(
            in_portfolio(row.id),
        ),
        forall|k: int|
            0 <= k < r.categories@.len() ==> (#[trigger] r.categories@[k]).work_slugs@.map_values(
                |s: SlugString| s.0@,
            ) == listed_slugs(db.works@, db.works_in_categories@, r.categories@[k].row.id),
{
    let ghost pred = in_portfolio(row.id);
    let mut categories: Vec<PortfolioCategory> = Vec::new();
    let mut i: usize = 0;
    while i < db.categories.len()
        invariant
            db.wf(),
            i <= db.categories@.len(),
            pred == in_portfolio(row.id),
            categories@.map_values(|c: PortfolioCategory| c.row) == db.categories@.take(i as int).filter(
                pred,
            ),
            forall|k: int|
                0 <= k < categories@.len() ==> (#[trigger] categories@[k]).work_slugs@.map_values(
                    |s: SlugString| s.0@,
                ) == listed_slugs(db.works@, db.works_in_categories@, categories@[k].row.id),
        decreases db.categories@.len() - i,
    {
        let ghost before = categories@;
        if db.categories[i].portfolio_id == row.id {
            let c = db.categories[i].duplicate();
            let slugs = category_slugs(db, c.id);
            categories.push(PortfolioCategory { row: c, work_slugs: slugs });
            assert(categories@.map_values(|c: PortfolioCategory| c.row) =~= before.map_values(
                |c: PortfolioCategory| c.row,
            ).push(db.categories@[i as int]));
        }
        proof {
            assert(db.categories@.take(i as int + 1) == db.categories@.take(i as int).push(
                db.categories@[i as int],
            ));
            db.categories@.take(i as int).lemma_filter_push(db.categories@[i as int], pred);
        }
        i = i + 1;
    }
    assert(db.categories@.take(i as int) == db.categories@);
    Portfolio { row, categories }
}

/// Index of the portfolio whose slug is `slug`.
fn find_portfolio(db: &Database, slug: &String) -> (r: Option<usize>)
    requires
        db.wf(),
    ensures
        match r {
            Some(i) => i < db.portfolios@.len() && db.portfolios@[i as int].slug.0@ == slug@
                && find_by_key(db.portfolios@, portfolio_slug_key(), slug@) == Some(
                db.portfolios@[i as int],
            ),
            None => !has_key(db.portfolios@, portfolio_slug_key(), slug@),
        },
{
    let mut i: usize = 0;
    while i < db.portfolios.len()
        invariant
            db.wf(),
            i <= db.portfolios@.len(),
            forall|j: int| 0 <= j < i ==> db.portfolios@[j].slug.0@ != slug@,
        decreases db.portfolios@.len() - i,
    {
        if db.portfolios[i].slug.0 == *slug {
            proof {
                lemma_find_by_key(db.portfolios@, portfolio_slug_key(), i as int);
            }
            return Some(i);
        }
        i = i + 1;
    }
    None
}

/// The portfolio with slug `slug` and its categories, when it is published
/// or `caller` owns it.
pub fn get_portfolio(db: &Database, slug: &String, caller: Option<i32>) -> (r: Option<Portfolio>)
    requires
        db.wf(),
    ensures
        match find_by_key(db.portfolios@, portfolio_slug_key(), slug@) {
            Some(row) => if portfolio_readable(db, row.id, caller) {
                r matches Some(p) && p.row == row && p.categories@.map_values(
                    |c: PortfolioCategory| c.row,
                ) == db.categories@.filter(in_portfolio(row.id)) && forall|k: int|
                    0 <= k < p.categories@.len() ==> (#[trigger] p.categories@[k]).work_slugs@.map_values(
                        |s: SlugString| s.0@,
                    ) == listed_slugs(db.works@, db.works_in_categories@, p.categories@[k].row.id)
            } else {
                r is None
            },
            None => r is None,
        },
{
    let i = match find_portfolio(db, slug) {
        Some(i) => i,
        None => return None,
    };
    if can_read_portfolio(db, db.portfolios[i].id, caller) {
        Some(fetch_portfolio_details(db, db.portfolios[i].duplicate()))
    } else {
        None
    }
}

/// Rows of the portfolios that `user_id` owns, in their stored order.
pub fn get_portfolios(db: &Database, user_id: i32) -> (r: Vec<PortfolioRow>)
    ensures
        r@ == db.portfolios@.filter(|p: PortfolioRow| owns_portfolio(db, user_id, p.id)),
{
    let ghost pred = |p: PortfolioRow| owns_portfolio(db, user_id, p.id);
    let mut out: Vec<PortfolioRow> = Vec::new();
    let mut i: usize = 0;
    while i < db.portfolios.len()
        invariant
            i <= db.portfolios@.len(),
            pred == (|p: PortfolioRow| owns_portfolio(db, user_id, p.id)),
            out@ == db.portfolios@.take(i as int).filter(pred),
        decreases db.portfolios@.len() - i,
    {
        if user_owns_portfolio(db, user_id, db.portfolios[i].id) {
            out.push(db.portfolios[i].duplicate());
        }
        proof {
            assert(db.portfolios@.take(i as int + 1) == db.portfolios@.take(i as int).push(
                db.portfolios@[i as int],
            ));
            db.portfolios@.take(i as int).lemma_filter_push(db.portfolios@[i as int], pred);
        }
        i = i + 1;
    }
    assert(db.portfolios@.take(i as int) == db.portfolios@);
    out
}

/// `r` holds the columns of `input` under identifier `id`, slug `slug`,
/// creation time `created_at` and publication time `published_at`.
pub open spec fn portfolio_row_from(
    r: PortfolioRow,
    id: i32,
    slug: Seq<char>,
    created_at: i64,
    published_at: Option<i64>,
    input: PortfolioRow,
) -> bool {
    &&& r.id == id
    &&& r.slug.0@ == slug
    &&& r.created_at == created_at
    &&& r.published_at == published_at
    &&& r.title == input.title
    &&& r.subtitle == input.subtitle
    &&& r.author == input.author
}

/// The publication time written for a write at `now`.
pub open spec fn publication(publish: bool, now: i64) -> Option<i64> {
    if publish {
        Some(now)
    } else {
        None
    }
}

/// `new` is `old` with portfolio `p` created from `new_pf` under slug
/// `slug` for `user_id` at time `now`.
pub open spec fn portfolio_created(
    old: &Database,
    new: &Database,
    p: Portfolio,
    slug: Seq<char>,
    user_id: i32,
    new_pf: Portfolio,
    publish: bool,
    now: i64,
) -> bool {
    let id = old.next_id;
    &&& portfolio_row_from(p.row, id, slug, now, publication(publish, now), new_pf.row)
    &&& new.portfolios@ == old.portfolios@.push(p.row)
    &&& new.portfolio_rights@ == old.portfolio_rights@.push(Right { object_id: id, user_id })
    &&& categories_replaced(old, new, id, id + 1, new_pf.categories@)
    &&& portfolio_as_stored(p, p.row, id + 1, new_pf.categories@)
    &&& same_accounts(new, old)
    &&& same_works(new, old)
}

/// Creates portfolio `slug` owned by `user_id` at time `now`, published at
/// `now` when `publish` holds, with the columns and categories of `new_pf`
/// (its own slug and identifiers are ignored). Fails with `UniqueViolation`
/// when the slug is taken, `OutOfRange` when identifiers run out, `NotFound`
/// when a category lists a slug that names no work.
pub fn create_portfolio(
    db: &mut Database,
    slug: &String,
    user_id: i32,
    new_pf: &Portfolio,
    publish: bool,
    now: i64,
) -> (r: Result<Portfolio, StoreError>)
    requires
        old(db).wf(),
    ensures
        final(db).wf(),
        r is Err ==> *final(db) == *old(db),
        r == Err::<Portfolio, StoreError>(StoreError::UniqueViolation) <==> has_key(
            old(db).portfolios@,
            portfolio_slug_key(),
            slug@,
        ),
        r == Err::<Portfolio, StoreError>(StoreError::OutOfRange) <==> !has_key(
            old(db).portfolios@,
            portfolio_slug_key(),
            slug@,
        ) && old(db).next_id + 1 + new_pf.categories@.len() > i32::MAX,
        r == Err::<Portfolio, StoreError>(StoreError::NotFound) <==> !has_key(
            old(db).portfolios@,
            portfolio_slug_key(),
            slug@,
        ) && old(db).next_id + 1 + new_pf.categories@.len() <= i32::MAX && !slugs_resolve(
            old(db).works@,
            new_pf.categories@,
        ),
        r is Ok <==> !has_key(old(db).portfolios@, portfolio_slug_key(), slug@) && old(db).next_id + 1
            + new_pf.categories@.len() <= i32::MAX && slugs_resolve(old(db).works@, new_pf.categories@),
        r matches Ok(p) ==> portfolio_created(old(db), final(db), p, slug@, user_id, *new_pf, publish, now),
{
    if find_portfolio(db, slug).is_some() {
        return Err(StoreError::UniqueViolation);
    }
    let c_len = new_pf.categories.len();
    if c_len > 0x7fff_ffff || db.next_id as i64 + 1 + c_len as i64 > 0x7fff_ffff {
        return Err(StoreError::OutOfRange);
    }
    if !all_slugs_resolve(db, &new_pf.categories) {
        return Err(StoreError::NotFound);
    }
    let id = db.next_id;
    db.next_id = id + 1;
    let row = PortfolioRow {
        id,
        created_at: now,
        published_at: if publish {
            Some(now)
        } else {
            None
        },
        slug: SlugString(slug.clone()),
        title: new_pf.row.title.clone(),
        subtitle: new_pf.row.subtitle.clone(),
        author: new_pf.row.author.clone(),
    };
    proof {
        lemma_push_unique(db.portfolios@, row, portfolio_slug_key());
    }
    db.portfolios.push(row.duplicate());
    db.portfolio_rights.push(Right { object_id: id, user_id });
    update_portfolio_details(db, row, &new_pf.categories)
}

/// The portfolio that `update_portfolio` rewrites: the one with slug `slug`,
/// when `user_id` owns it.
pub open spec fn editable_portfolio(db: &Database, slug: Seq<char>, user_id: i32) -> Option<PortfolioRow> {
    match find_by_key(db.portfolios@, portfolio_slug_key(), slug) {
        Some(p) => if owns_portfolio(db, user_id, p.id) {
            Some(p)
        } else {
            None
        },
        None => None,
    }
}

/// Another portfolio than the one with slug `original` has slug `slug`.
pub open spec fn portfolio_slug_held_elsewhere(db: &Database, slug: Seq<char>, original: Seq<char>) -> bool {
    slug != original && has_key(db.portfolios@, portfolio_slug_key(), slug)
}

/// `new` is `old` with the portfolio that `user_id` may edit under slug
/// `original_slug` rewritten from `updated_pf` at time `now`, as `p`.
pub open spec fn portfolio_updated(
    old: &Database,
    new: &Database,
    p: Portfolio,
    original_slug: Seq<char>,
    user_id: i32,
    updated_pf: Portfolio,
    publish: bool,
    now: i64,
) -> bool {
    exists|i: int|
        {
            &&& 0 <= i < old.portfolios@.len()
            &&& Some(old.portfolios@[i]) == editable_portfolio(old, original_slug, user_id)
            &&& portfolio_row_from(
                p.row,
                old.portfolios@[i].id,
                updated_pf.row.slug.0@,
                old.portfolios@[i].created_at,
                publication(publish, now),
                updated_pf.row,
            )
            &&& #[trigger] new.portfolios@ == old.portfolios@.update(i, p.row)
            &&& new.portfolio_rights == old.portfolio_rights
            &&& categories_replaced(old, new, p.row.id, old.next_id as int, updated_pf.categories@)
            &&& portfolio_as_stored(p, p.row, old.next_id as int, updated_pf.categories@)
            &&& same_accounts(new, old)
            &&& same_works(new, old)
        }
}

/// Rewrites the portfolio with slug `original_slug`, which `user_id` must
/// own: its slug, title, subtitle and author come from `updated_pf`, it is
/// published at `now` when `publish` holds and unpublished otherwise, and its
/// categories are replaced. Fails with `NotFound` when there is no such
/// portfolio or the caller does not own it, `UniqueViolation` when another
/// portfolio has the new slug, `OutOfRange` when identifiers run out,
/// `NotFound` when a category lists a slug that names no work.
pub fn update_portfolio(
    db: &mut Database,
    original_slug: &String,
    user_id: i32,
    updated_pf: &Portfolio,
    publish: bool,
    now: i64,
) -> (r: Result<Portfolio, StoreError>)
    requires
        old(db).wf(),
    ensures
        final(db).wf(),
        r is Err ==> *final(db) == *old(db),
        editable_portfolio(old(db), original_slug@, user_id) is None ==> r == Err::<
            Portfolio,
            StoreError,
        >(StoreError::NotFound),
        editable_portfolio(old(db), original_slug@, user_id) is Some ==> {
            &&& r == Err::<Portfolio, StoreError>(StoreError::UniqueViolation)
                <==> portfolio_slug_held_elsewhere(old(db), updated_pf.row.slug.0@, original_slug@)
            &&& r == Err::<Portfolio, StoreError>(StoreError::OutOfRange)
                <==> !portfolio_slug_held_elsewhere(old(db), updated_pf.row.slug.0@, original_slug@)
                && old(db).next_id + updated_pf.categories@.len() > i32::MAX
            &&& r == Err::<Portfolio, StoreError>(StoreError::NotFound)
                <==> !portfolio_slug_held_elsewhere(old(db), updated_pf.row.slug.0@, original_slug@)
                && old(db).next_id + updated_pf.categories@.len() <= i32::MAX && !slugs_resolve(
                old(db).works@,
                updated_pf.categories@,
            )
        },
        r is Ok <==> editable_portfolio(old(db), original_slug@, user_id) is Some
            && !portfolio_slug_held_elsewhere(old(db), updated_pf.row.slug.0@, original_slug@)
            && old(db).next_id + updated_pf.categories@.len() <= i32::MAX && slugs_resolve(
            old(db).works@,
            updated_pf.categories@,
        ),
        r matches Ok(p) ==> portfolio_updated(
            old(db),
            final(db),
            p,
            original_slug@,
            user_id,
            *updated_pf,
            publish,
            now,
        ),
{
    let i = match find_portfolio(db, original_slug) {
        Some(i) => i,
        None => return Err(StoreError::NotFound),
    };
    let id = db.portfolios[i].id;
    if !user_owns_portfolio(db, user_id, id) {
        return Err(StoreError::NotFound);
    }
    let new_slug = &updated_pf.row.slug.0;
    if *new_slug != *original_slug && find_portfolio(db, new_slug).is_some() {
        return Err(StoreError::UniqueViolation);
    }
    let c_len = updated_pf.categories.len();
    if c_len > 0x7fff_ffff || db.next_id as i64 + c_len as i64 > 0x7fff_ffff {
        return Err(StoreError::OutOfRange);
    }
    if !all_slugs_resolve(db, &updated_pf.categories) {
        return Err(StoreError::NotFound);
    }
    let row = PortfolioRow {
        id,
        created_at: db.portfolios[i].created_at,
        published_at: if publish {
            Some(now)
        } else {
            None
        },
        slug: updated_pf.row.slug.duplicate(),
        title: updated_pf.row.title.clone(),
        subtitle: updated_pf.row.subtitle.clone(),
        author: updated_pf.row.author.clone(),
    };
    proof {
        let ps = db.portfolios@;
        let np = ps.update(i as int, row);
        assert forall|a: int, b: int|
            0 <= a < np.len() && 0 <= b < np.len() && a != b implies portfolio_slug_key()(np[a])
            != portfolio_slug_key()(np[b]) by {
            if a == i {
                if np[b].slug.0@ == row.slug.0@ && row.slug.0@ != original_slug@ {
                    assert(has_key(ps, portfolio_slug_key(), row.slug.0@));
                }
            } else if b == i {
                if np[a].slug.0@ == row.slug.0@ && row.slug.0@ != original_slug@ {
                    assert(has_key(ps, portfolio_slug_key(), row.slug.0@));
                }
            }
        }
    }
    db.portfolios[i] = row.duplicate();
    update_portfolio_details(db, row, &updated_pf.categories)
}

} // verus!
