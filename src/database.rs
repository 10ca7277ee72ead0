//! The relational state of the service: one table per entity, held in memory,
//! and the invariant that every store operation keeps.

use vstd::prelude::*;

use crate::array_string_types::bytes_of;
use crate::crypto::SALT_BYTES_LEN;
use crate::encoding::base64_decoded;
use crate::data::portfolio::{PortfolioCategoryRow, PortfolioRow};
use crate::data::user::{Session, User};
use crate::data::work::{BigFilePartRow, WorkAttachment, WorkLink, WorkRow, WorkTag};

verus! {

/// An ownership row: `user_id` owns the portfolio or work `object_id`.
#[derive(Debug, Clone, Copy, PartialEq, Eq, Structural)]
pub struct Right {
    pub object_id: i32,
    pub user_id: i32,
}

/// "This work is listed in this category."
#[derive(Debug, Clone, Copy, PartialEq, Eq, Structural)]
pub struct Membership {
    pub category_id: i32,
    pub work_id: i32,
}

/// Why a store operation did not happen. A failed operation leaves the
/// database as it was.
#[derive(Debug, Clone, Copy, PartialEq, Eq, Structural)]
pub enum StoreError {
    /// A unique column (user name, slug, identifier) already holds the value.
    UniqueViolation,
    /// No row matched, or the caller has no right on the row that matched.
    NotFound,
    /// A payload is not valid base64.
    InvalidBase64,
    /// A number does not fit its column, or the identifiers are used up.
    OutOfRange,
    /// The system random source failed.
    RandomUnavailable,
}

/// All tables. Identifiers are drawn from one increasing sequence.
#[derive(Debug)]
pub struct Database {
    pub users: Vec<User>,
    pub sessions: Vec<Session>,
    pub portfolios: Vec<PortfolioRow>,
    pub portfolio_rights: Vec<Right>,
    pub categories: Vec<PortfolioCategoryRow>,
    pub works_in_categories: Vec<Membership>,
    pub works: Vec<WorkRow>,
    pub work_rights: Vec<Right>,
    pub work_attachments: Vec<WorkAttachment>,
    pub work_links: Vec<WorkLink>,
    pub work_tags: Vec<WorkTag>,
    pub big_file_parts: Vec<BigFilePartRow>,
    pub next_id: i32,
}

/// No two elements of `s` share a key.
pub open spec fn keys_unique<A, K>(s: Seq<A>, key: spec_fn(A) -> K) -> bool {
    forall|i: int, j: int|
        0 <= i < s.len() && 0 <= j < s.len() && i != j ==> key(s[i]) != key(s[j])
}

/// Some element of `s` has key `k`.
pub open spec fn has_key<A, K>(s: Seq<A>, key: spec_fn(A) -> K, k: K) -> bool {
    exists|i: int| 0 <= i < s.len() && key(s[i]) == k
}

pub open spec fn username_key() -> spec_fn(User) -> Seq<char> {
    |u: User| u.username.0@
}

pub open spec fn session_key() -> spec_fn(Session) -> Seq<char> {
    |s: Session| s.uuid.0@
}

pub open spec fn work_slug_key() -> spec_fn(WorkRow) -> Seq<char> {
    |w: WorkRow| w.slug.0@
}

pub open spec fn portfolio_slug_key() -> spec_fn(PortfolioRow) -> Seq<char> {
    |p: PortfolioRow| p.slug.0@
}

pub open spec fn work_id_key() -> spec_fn(WorkRow) -> i32 {
    |w: WorkRow| w.id
}

pub open spec fn portfolio_id_key() -> spec_fn(PortfolioRow) -> i32 {
    |p: PortfolioRow| p.id
}

pub open spec fn category_id_key() -> spec_fn(PortfolioCategoryRow) -> i32 {
    |c: PortfolioCategoryRow| c.id
}

pub open spec fn attachment_key() -> spec_fn(WorkAttachment) -> i32 {
    |a: WorkAttachment| a.id
}

pub open spec fn part_key() -> spec_fn(BigFilePartRow) -> Seq<char> {
    |p: BigFilePartRow| p.uuid.0@
}

/// Part `i` points at nothing, or at a stored part of the same attachment.
pub open spec fn link_stored(parts: Seq<BigFilePartRow>, i: int) -> bool {
    match parts[i].next_uuid {
        Some(n) => exists|j: int|
            0 <= j < parts.len() && #[trigger] parts[j].uuid.0@ == n.0@ && parts[j].work_attachment_id
                == parts[i].work_attachment_id,
        None => true,
    }
}

/// Every part points at nothing or at a stored part of its own attachment.
pub open spec fn links_stored(parts: Seq<BigFilePartRow>) -> bool {
    forall|i: int| 0 <= i < parts.len() ==> #[trigger] link_stored(parts, i)
}

/// The payload of part `p` is valid base64.
pub open spec fn payload_decodes(p: BigFilePartRow) -> bool {
    base64_decoded(bytes_of(p.bytes_base64.0@)) is Some
}

impl Database {
    /// The invariant of the tables: the unique columns (the identifiers of
    /// works, attachments, portfolios and categories among them) hold no
    /// duplicates; the identifiers of works, attachments, portfolios and
    /// categories, and the portfolio, category, attachment or owned object
    /// that a category, membership, part or right names, were drawn before
    /// `next_id`; every part
    /// points at nothing or at a stored part of its own attachment, and holds
    /// a payload that decodes; and every stored salt has its 12 random bytes.
    pub open spec fn wf(&self) -> bool {
        &&& self.next_id >= 1
        &&& forall|i: int|
            0 <= i < self.work_attachments.len() ==> #[trigger] self.work_attachments@[i].id
                < self.next_id
        &&& forall|i: int|
            0 <= i < self.users.len() ==> #[trigger] self.users@[i].salt@.len() == SALT_BYTES_LEN
        &&& forall|i: int| 0 <= i < self.works.len() ==> #[trigger] self.works@[i].id < self.next_id
        &&& keys_unique(self.works@, work_id_key())
        &&& forall|i: int|
            0 <= i < self.portfolios.len() ==> #[trigger] self.portfolios@[i].id < self.next_id
        &&& keys_unique(self.portfolios@, portfolio_id_key())
        &&& forall|i: int|
            0 <= i < self.categories.len() ==> #[trigger] self.categories@[i].id < self.next_id
                && self.categories@[i].portfolio_id < self.next_id
        &&& keys_unique(self.categories@, category_id_key())
        &&& forall|i: int|
            0 <= i < self.works_in_categories.len() ==> #[trigger] self.works_in_categories@[i].category_id
                < self.next_id
        &&& forall|i: int|
            0 <= i < self.portfolio_rights.len() ==> #[trigger] self.portfolio_rights@[i].object_id
                < self.next_id
        &&& forall|i: int|
            0 <= i < self.work_rights.len() ==> #[trigger] self.work_rights@[i].object_id < self.next_id
        &&& forall|i: int|
            0 <= i < self.big_file_parts.len() ==> #[trigger] self.big_file_parts@[i].work_attachment_id
                < self.next_id
        &&& keys_unique(self.work_attachments@, attachment_key())
        &&& keys_unique(self.users@, username_key())
        &&& keys_unique(self.sessions@, session_key())
        &&& keys_unique(self.works@, work_slug_key())
        &&& keys_unique(self.portfolios@, portfolio_slug_key())
        &&& keys_unique(self.big_file_parts@, part_key())
        &&& links_stored(self.big_file_parts@)
        &&& forall|i: int|
            0 <= i < self.big_file_parts.len() ==> #[trigger] payload_decodes(self.big_file_parts@[i])
    }

    /// An empty database.
    pub fn new() -> (r: Database)
        ensures
            r.wf(),
            r.users@.len() == 0,
            r.sessions@.len() == 0,
            r.portfolios@.len() == 0,
            r.portfolio_rights@.len() == 0,
            r.categories@.len() == 0,
            r.works_in_categories@.len() == 0,
            r.works@.len() == 0,
            r.work_rights@.len() == 0,
            r.work_attachments@.len() == 0,
            r.work_links@.len() == 0,
            r.work_tags@.len() == 0,
            r.big_file_parts@.len() == 0,
    {
        Database {
            users: Vec::new(),
            sessions: Vec::new(),
            portfolios: Vec::new(),
            portfolio_rights: Vec::new(),
            categories: Vec::new(),
            works_in_categories: Vec::new(),
            works: Vec::new(),
            work_rights: Vec::new(),
            work_attachments: Vec::new(),
            work_links: Vec::new(),
            work_tags: Vec::new(),
            big_file_parts: Vec::new(),
            next_id: 1,
        }
    }

    /// Draws the next identifier.
    pub fn fresh_id(&mut self) -> (r: Result<i32, StoreError>)
        ensures
            match r {
                Ok(id) => id == old(self).next_id && final(self).next_id == id + 1,
                Err(e) => e == StoreError::OutOfRange && old(self).next_id == i32::MAX,
            },
            final(self).next_id >= old(self).next_id,
            final(self).users == old(self).users,
            final(self).sessions == old(self).sessions,
            final(self).portfolios == old(self).portfolios,
            final(self).portfolio_rights == old(self).portfolio_rights,
            final(self).categories == old(self).categories,
            final(self).works_in_categories == old(self).works_in_categories,
            final(self).works == old(self).works,
            final(self).work_rights == old(self).work_rights,
            final(self).work_attachments == old(self).work_attachments,
            final(self).work_links == old(self).work_links,
            final(self).work_tags == old(self).work_tags,
            final(self).big_file_parts == old(self).big_file_parts,
    {
        if self.next_id == i32::MAX {
            return Err(StoreError::OutOfRange);
        }
        let id = self.next_id;
        self.next_id = id + 1;
        Ok(id)
    }
}

/// The element of `s` whose key is `k`, if there is one.
pub open spec fn find_by_key<A, K>(s: Seq<A>, key: spec_fn(A) -> K, k: K) -> Option<A> {
    if has_key(s, key, k) {
        Some(s[choose|i: int| 0 <= i < s.len() && key(s[i]) == k])
    } else {
        None
    }
}

/// Where keys are unique, the element found by a key is the one that has it.
pub proof fn lemma_find_by_key<A, K>(s: Seq<A>, key: spec_fn(A) -> K, i: int)
    requires
        keys_unique(s, key),
        0 <= i < s.len(),
    ensures
        find_by_key(s, key, key(s[i])) == Some(s[i]),
{
    let k = key(s[i]);
    assert(has_key(s, key, k));
    let j = choose|j: int| 0 <= j < s.len() && key(s[j]) == k;
    assert(i == j);
}

/// Identical tables of users and sessions.
pub open spec fn same_accounts(a: &Database, b: &Database) -> bool {
    &&& a.users == b.users
    &&& a.sessions == b.sessions
}

/// Identical portfolio tables: portfolios, their rights, categories and
/// category memberships.
pub open spec fn same_portfolios(a: &Database, b: &Database) -> bool {
    &&& a.portfolios == b.portfolios
    &&& a.portfolio_rights == b.portfolio_rights
    &&& a.categories == b.categories
    &&& a.works_in_categories == b.works_in_categories
}

/// Identical work tables: works, their rights, attachments, links, tags and
/// big-file parts.
pub open spec fn same_works(a: &Database, b: &Database) -> bool {
    &&& a.works == b.works
    &&& a.work_rights == b.work_rights
    &&& a.work_attachments == b.work_attachments
    &&& a.work_links == b.work_links
    &&& a.work_tags == b.work_tags
    &&& a.big_file_parts == b.big_file_parts
}

/// Keeping some elements of a sequence keeps its keys unique, and keeps only
/// elements of the sequence.
pub proof fn lemma_filter_unique<A, K>(s: Seq<A>, p: spec_fn(A) -> bool, key: spec_fn(A) -> K)
    requires
        keys_unique(s, key),
    ensures
        keys_unique(s.filter(p), key),
        forall|x: A| #[trigger] s.filter(p).contains(x) ==> s.contains(x),
    decreases s.len(),
{
    reveal(Seq::filter);
    if s.len() > 0 {
        let d = s.drop_last();
        assert(keys_unique(d, key)) by {
            assert forall|i: int, j: int|
                0 <= i < d.len() && 0 <= j < d.len() && i != j implies key(d[i]) != key(d[j]) by {
                assert(d[i] == s[i] && d[j] == s[j]);
            }
        }
        lemma_filter_unique(d, p, key);
        let f = d.filter(p);
        assert forall|x: A| #[trigger] s.filter(p).contains(x) implies s.contains(x) by {
            if f.contains(x) {
                let k = choose|k: int| 0 <= k < d.len() && d[k] == x;
                assert(s[k] == x);
            } else {
                assert(s[s.len() - 1] == x);
            }
        }
        if p(s.last()) {
            let g = f.push(s.last());
            assert forall|i: int, j: int|
                0 <= i < g.len() && 0 <= j < g.len() && i != j implies key(g[i]) != key(g[j]) by {
                if i == g.len() - 1 || j == g.len() - 1 {
                    let o = if i == g.len() - 1 { j } else { i };
                    assert(f.contains(g[o]));
                    let k = choose|k: int| 0 <= k < d.len() && d[k] == g[o];
                    assert(s[k] == g[o]);
                } else {
                    assert(g[i] == f[i] && g[j] == f[j]);
                }
            }
        }
    }
}

/// Adding an element whose key is new keeps the keys unique.
pub proof fn lemma_push_unique<A, K>(s: Seq<A>, x: A, key: spec_fn(A) -> K)
    requires
        keys_unique(s, key),
        !has_key(s, key, key(x)),
    ensures
        keys_unique(s.push(x), key),
{
    let g = s.push(x);
    assert forall|i: int, j: int|
        0 <= i < g.len() && 0 <= j < g.len() && i != j implies key(g[i]) != key(g[j]) by {
        if i == s.len() {
            assert(key(s[j]) == key(g[j]));
        } else if j == s.len() {
            assert(key(s[i]) == key(g[i]));
        } else {
            assert(g[i] == s[i] && g[j] == s[j]);
        }
    }
}

/// A table whose parts keep their uuids, links and payloads in place, and
/// whose attachments are renamed consistently (parts that shared an
/// attachment still share one), keeps its links stored and its payloads
/// valid.
pub proof fn lemma_links_map(a: Seq<BigFilePartRow>, b: Seq<BigFilePartRow>)
    requires
        a.len() == b.len(),
        forall|i: int|
            0 <= i < a.len() ==> (#[trigger] b[i]).uuid == a[i].uuid && b[i].next_uuid == a[i].next_uuid
                && b[i].bytes_base64 == a[i].bytes_base64,
        forall|i: int, j: int|
            0 <= i < a.len() && 0 <= j < a.len() && a[i].work_attachment_id == a[j].work_attachment_id
                ==> #[trigger] b[i].work_attachment_id == #[trigger] b[j].work_attachment_id,
        links_stored(a),
        forall|i: int| 0 <= i < a.len() ==> #[trigger] payload_decodes(a[i]),
    ensures
        links_stored(b),
        forall|i: int| 0 <= i < b.len() ==> #[trigger] payload_decodes(b[i]),
{
    assert forall|i: int| 0 <= i < b.len() implies #[trigger] link_stored(b, i) by {
        assert(link_stored(a, i));
        if let Some(n) = a[i].next_uuid {
            let j = choose|j: int|
                0 <= j < a.len() && #[trigger] a[j].uuid.0@ == n.0@ && a[j].work_attachment_id
                    == a[i].work_attachment_id;
            assert(b[j].uuid.0@ == n.0@);
            assert(b[j].work_attachment_id == b[i].work_attachment_id);
        }
    }
    assert forall|i: int| 0 <= i < b.len() implies #[trigger] payload_decodes(b[i]) by {
        assert(payload_decodes(a[i]));
    }
}

/// Keeping parts by a test that looks at their attachment alone keeps the
/// links stored and the payloads valid.
pub proof fn lemma_links_filter(a: Seq<BigFilePartRow>, p: spec_fn(BigFilePartRow) -> bool)
    requires
        forall|x: BigFilePartRow, y: BigFilePartRow|
            x.work_attachment_id == y.work_attachment_id ==> #[trigger] p(x) == #[trigger] p(y),
        links_stored(a),
        forall|i: int| 0 <= i < a.len() ==> #[trigger] payload_decodes(a[i]),
    ensures
        links_stored(a.filter(p)),
        forall|i: int| 0 <= i < a.filter(p).len() ==> #[trigger] payload_decodes(a.filter(p)[i]),
{
    let f = a.filter(p);
    assert forall|i: int| 0 <= i < f.len() implies #[trigger] payload_decodes(f[i]) by {
        assert(f.contains(f[i]));
        a.lemma_filter_contains_rev(p, f[i]);
        let m = choose|m: int| 0 <= m < a.len() && a[m] == f[i];
        assert(payload_decodes(a[m]));
    }
    assert forall|i: int| 0 <= i < f.len() implies #[trigger] link_stored(f, i) by {
        assert(f.contains(f[i]));
        a.lemma_filter_contains_rev(p, f[i]);
        let m = choose|m: int| 0 <= m < a.len() && a[m] == f[i];
        a.lemma_filter_pred(p, i);
        assert(link_stored(a, m));
        assert(payload_decodes(a[m]));
        if let Some(n) = f[i].next_uuid {
            let j = choose|j: int|
                0 <= j < a.len() && #[trigger] a[j].uuid.0@ == n.0@ && a[j].work_attachment_id
                    == a[m].work_attachment_id;
            assert(p(a[j]) == p(a[m]));
            a.lemma_filter_contains(p, j);
            let k = choose|k: int| 0 <= k < f.len() && f[k] == a[j];
            assert(f[k].uuid.0@ == n.0@);
        }
    }
}

/// Adding a part that points at nothing keeps the links stored.
pub proof fn lemma_links_push(a: Seq<BigFilePartRow>, x: BigFilePartRow)
    requires
        links_stored(a),
        x.next_uuid is None,
    ensures
        links_stored(a.push(x)),
{
    let b = a.push(x);
    assert forall|i: int| 0 <= i < b.len() implies #[trigger] link_stored(b, i) by {
        if i < a.len() {
            assert(link_stored(a, i));
            if let Some(n) = a[i].next_uuid {
                let j = choose|j: int|
                    0 <= j < a.len() && #[trigger] a[j].uuid.0@ == n.0@ && a[j].work_attachment_id
                        == a[i].work_attachment_id;
                assert(b[j] == a[j]);
            }
        }
    }
}

} // verus!
