//! Child tables of a work: attachments, links and tags, replaced as a whole
//! on every write, with big-file chains carried over to the new attachments.

use vstd::prelude::*;

use crate::array_string_types::UuidString;
use crate::data::work::{duplicate_uuid_opt, BigFilePartRow, Work, WorkAttachment, WorkLink, WorkRow, WorkTag};
use crate::database::{
    attachment_key, find_by_key, has_key, keys_unique, lemma_links_filter, lemma_links_map, links_stored,
    payload_decodes, lemma_filter_unique, lemma_find_by_key, part_key,
    same_accounts, same_portfolios, Database, StoreError,
};

verus! {

/// A row of a child table of a work.
pub trait WorkChild: Sized {
    /// The work that the row belongs to.
    spec fn owner(&self) -> i32;

    fn owner_id(&self) -> (r: i32)
        ensures
            r == self.owner(),
    ;

    fn duplicate_row(&self) -> (r: Self)
        ensures
            r == *self,
    ;
}

impl WorkChild for WorkAttachment {
    open spec fn owner(&self) -> i32 {
        self.work_id
    }

    fn owner_id(&self) -> (r: i32) {
        self.work_id
    }

    fn duplicate_row(&self) -> (r: Self) {
        self.duplicate()
    }
}

impl WorkChild for WorkLink {
    open spec fn owner(&self) -> i32 {
        self.work_id
    }

    fn owner_id(&self) -> (r: i32) {
        self.work_id
    }

    fn duplicate_row(&self) -> (r: Self) {
        self.duplicate()
    }
}

impl WorkChild for WorkTag {
    open spec fn owner(&self) -> i32 {
        self.work_id
    }

    fn owner_id(&self) -> (r: i32) {
        self.work_id
    }

    fn duplicate_row(&self) -> (r: Self) {
        self.duplicate()
    }
}

/// Rows of work `work_id`.
pub open spec fn of_work<T: WorkChild>(work_id: i32) -> spec_fn(T) -> bool {
    |x: T| x.owner() == work_id
}

/// Rows of works other than `work_id`.
pub open spec fn not_of_work<T: WorkChild>(work_id: i32) -> spec_fn(T) -> bool {
    |x: T| x.owner() != work_id
}

/// The rows of `rows` that belong to `work_id` (when `keep` holds) or that
/// do not (otherwise), in their order.
fn select_rows<T: WorkChild>(rows: &Vec<T>, work_id: i32, keep: bool) -> (r: Vec<T>)
    ensures
        r@ == rows@.filter(if keep { of_work::<T>(work_id) } else { not_of_work::<T>(work_id) }),
{
    let ghost pred = if keep { of_work::<T>(work_id) } else { not_of_work::<T>(work_id) };
    let mut out: Vec<T> = Vec::new();
    let mut i: usize = 0;
    while i < rows.len()
        invariant
            i <= rows@.len(),
            pred == (if keep { of_work::<T>(work_id) } else { not_of_work::<T>(work_id) }),
            out@ == rows@.take(i as int).filter(pred),
        decreases rows@.len() - i,
    {
        if (rows[i].owner_id() == work_id) == keep {
            out.push(rows[i].duplicate_row());
        }
        proof {
            assert(rows@.take(i as int + 1) == rows@.take(i as int).push(rows@[i as int]));
            rows@.take(i as int).lemma_filter_push(rows@[i as int], pred);
        }
        i = i + 1;
    }
    assert(rows@.take(i as int) == rows@);
    out
}

/// The attachment row stored for input `input` of work `work_id`.
pub open spec fn stored_attachment(input: WorkAttachment, work_id: i32, id: int) -> WorkAttachment {
    WorkAttachment { id: id as i32, work_id, ..input }
}

/// The link row stored for input `input` of work `work_id`.
pub open spec fn stored_link(input: WorkLink, work_id: i32, id: int) -> WorkLink {
    WorkLink { id: id as i32, work_id, ..input }
}

/// The tag row stored for input `input` of work `work_id`.
pub open spec fn stored_tag(input: WorkTag, work_id: i32, id: int) -> WorkTag {
    WorkTag { id: id as i32, work_id, ..input }
}

/// The attachment rows stored for `inputs`, with identifiers from `first_id` on.
pub open spec fn stored_attachments(inputs: Seq<WorkAttachment>, work_id: i32, first_id: int) -> Seq<
    WorkAttachment,
> {
    Seq::new(inputs.len(), |k: int| stored_attachment(inputs[k], work_id, first_id + k))
}

/// The link rows stored for `inputs`, with identifiers from `first_id` on.
pub open spec fn stored_links(inputs: Seq<WorkLink>, work_id: i32, first_id: int) -> Seq<WorkLink> {
    Seq::new(inputs.len(), |k: int| stored_link(inputs[k], work_id, first_id + k))
}

/// The tag rows stored for `inputs`, in their order, with identifiers from
/// `first_id` on.
pub open spec fn stored_tags(inputs: Seq<WorkTag>, work_id: i32, first_id: int) -> Seq<WorkTag> {
    Seq::new(inputs.len(), |k: int| stored_tag(inputs[k], work_id, first_id + k))
}

/// `parts` with every part of attachment `from` moved to attachment `to`.
pub open spec fn reassign(parts: Seq<BigFilePartRow>, from: i32, to: i32) -> Seq<BigFilePartRow> {
    parts.map_values(
        |p: BigFilePartRow|
            if p.work_attachment_id == from {
                BigFilePartRow { work_attachment_id: to, ..p }
            } else {
                p
            },
    )
}

/// Moves the chain that holds the part `uuid` to attachment `to`: every part
/// of the attachment that this part belongs to follows it.
pub open spec fn migrate(parts: Seq<BigFilePartRow>, uuid: Seq<char>, to: i32) -> Seq<BigFilePartRow> {
    match find_by_key(parts, part_key(), uuid) {
        Some(p) => reassign(parts, p.work_attachment_id, to),
        None => parts,
    }
}

/// The chain moves made for the attachments `inserted`, in their order.
pub open spec fn migrate_all(parts: Seq<BigFilePartRow>, inserted: Seq<WorkAttachment>) -> Seq<
    BigFilePartRow,
>
    decreases inserted.len(),
{
    if inserted.len() == 0 {
        parts
    } else {
        let before = migrate_all(parts, inserted.drop_last());
        match inserted.last().big_file_uuid {
            Some(u) => migrate(before, u.0@, inserted.last().id),
            None => before,
        }
    }
}

/// Attachment `attachment_id` is one of the rows of work `work_id` in `attachments`.
pub open spec fn is_attachment_of(attachments: Seq<WorkAttachment>, attachment_id: i32, work_id: i32) -> bool {
    exists|i: int|
        0 <= i < attachments.len() && #[trigger] attachments[i].id == attachment_id
            && attachments[i].work_id == work_id
}

/// Parts that outlive the deletion of the old attachments of `work_id`.
pub open spec fn survives(attachments: Seq<WorkAttachment>, work_id: i32) -> spec_fn(BigFilePartRow) -> bool {
    |p: BigFilePartRow| !is_attachment_of(attachments, p.work_attachment_id, work_id)
}

/// Two part tables with the same uuids, position by position, agree on
/// which uuids they hold and on their uniqueness.
pub proof fn lemma_same_part_uuids(a: Seq<BigFilePartRow>, b: Seq<BigFilePartRow>)
    requires
        a.len() == b.len(),
        forall|i: int| 0 <= i < a.len() ==> #[trigger] a[i].uuid == b[i].uuid,
    ensures
        keys_unique(a, part_key()) ==> keys_unique(b, part_key()),
        forall|k: Seq<char>| has_key(a, part_key(), k) == has_key(b, part_key(), k),
{
    assert forall|k: Seq<char>| has_key(a, part_key(), k) == has_key(b, part_key(), k) by {
        if has_key(a, part_key(), k) {
            let i = choose|i: int| 0 <= i < a.len() && part_key()(a[i]) == k;
            assert(part_key()(b[i]) == k);
        }
        if has_key(b, part_key(), k) {
            let i = choose|i: int| 0 <= i < b.len() && part_key()(b[i]) == k;
            assert(part_key()(a[i]) == k);
        }
    }
    if keys_unique(a, part_key()) {
        assert forall|i: int, j: int|
            0 <= i < b.len() && 0 <= j < b.len() && i != j implies part_key()(b[i]) != part_key()(b[j]) by {
            assert(a[i].uuid == b[i].uuid && a[j].uuid == b[j].uuid);
        }
    }
}

/// Reassigning keeps every uuid in place.
proof fn lemma_reassign_keys(parts: Seq<BigFilePartRow>, from: i32, to: i32)
    requires
        keys_unique(parts, part_key()),
    ensures
        reassign(parts, from, to).len() == parts.len(),
        forall|i: int| 0 <= i < parts.len() ==> #[trigger] reassign(parts, from, to)[i].uuid == parts[i].uuid,
        keys_unique(reassign(parts, from, to), part_key()),
        forall|k: Seq<char>| has_key(reassign(parts, from, to), part_key(), k) == has_key(parts, part_key(), k),
{
    let r = reassign(parts, from, to);
    assert forall|i: int| 0 <= i < parts.len() implies #[trigger] r[i].uuid == parts[i].uuid by {}
    assert forall|k: Seq<char>| has_key(r, part_key(), k) == has_key(parts, part_key(), k) by {
        if has_key(parts, part_key(), k) {
            let i = choose|i: int| 0 <= i < parts.len() && part_key()(parts[i]) == k;
            assert(part_key()(r[i]) == k);
        }
        if has_key(r, part_key(), k) {
            let i = choose|i: int| 0 <= i < r.len() && part_key()(r[i]) == k;
            assert(part_key()(parts[i]) == k);
        }
    }
}

/// Moving a chain to an attachment below `bound` keeps every part's
/// attachment below `bound`, and every part where it was.
proof fn lemma_migrate_bounds(parts: Seq<BigFilePartRow>, uuid: Seq<char>, to: i32, bound: int)
    requires
        to < bound,
        forall|j: int| 0 <= j < parts.len() ==> #[trigger] parts[j].work_attachment_id < bound,
    ensures
        migrate(parts, uuid, to).len() == parts.len(),
        forall|j: int|
            0 <= j < parts.len() ==> #[trigger] migrate(parts, uuid, to)[j].work_attachment_id < bound,
{
}

/// Moving a chain keeps the links stored and the payloads valid.
proof fn lemma_migrate_links(parts: Seq<BigFilePartRow>, uuid: Seq<char>, to: i32)
    requires
        links_stored(parts),
        forall|j: int| 0 <= j < parts.len() ==> #[trigger] payload_decodes(parts[j]),
    ensures
        links_stored(migrate(parts, uuid, to)),
        forall|j: int|
            0 <= j < migrate(parts, uuid, to).len() ==> #[trigger] payload_decodes(migrate(parts, uuid, to)[j]),
{
    if let Some(p) = find_by_key(parts, part_key(), uuid) {
        lemma_links_map(parts, reassign(parts, p.work_attachment_id, to));
    }
}

/// The stored parts, after the chain that holds `uuid` moved to attachment `to`.
fn migrate_chain(parts: &Vec<BigFilePartRow>, uuid: &UuidString, to: i32) -> (r: Vec<BigFilePartRow>)
    requires
        keys_unique(parts@, part_key()),
    ensures
        r@ == migrate(parts@, uuid.0@, to),
        keys_unique(r@, part_key()),
        forall|k: Seq<char>| has_key(r@, part_key(), k) == has_key(parts@, part_key(), k),
{
    let mut i: usize = 0;
    let mut found: Option<i32> = None;
    while i < parts.len()
        invariant_except_break
            found is None,
        invariant
            i <= parts@.len(),
            keys_unique(parts@, part_key()),
            forall|j: int| 0 <= j < i ==> parts@[j].uuid.0@ != uuid.0@,
        ensures
            found matches Some(from) ==> find_by_key(parts@, part_key(), uuid.0@) matches Some(q)
                && q.work_attachment_id == from,
            found is None ==> !has_key(parts@, part_key(), uuid.0@),
        decreases parts@.len() - i,
    {
        if parts[i].uuid.0 == uuid.0 {
            proof {
                lemma_find_by_key(parts@, part_key(), i as int);
            }
            found = Some(parts[i].work_attachment_id);
            break;
        }
        i = i + 1;
    }
    let ghost expected = migrate(parts@, uuid.0@, to);
    proof {
        if let Some(from) = found {
            lemma_reassign_keys(parts@, from, to);
        }
    }
    let mut out: Vec<BigFilePartRow> = Vec::new();
    let mut j: usize = 0;
    while j < parts.len()
        invariant
            j <= parts@.len(),
            expected == migrate(parts@, uuid.0@, to),
            found matches Some(from) ==> expected == reassign(parts@, from, to),
            found is None ==> expected == parts@,
            out@ == expected.take(j as int),
        decreases parts@.len() - j,
    {
        let p = &parts[j];
        let moved = match found {
            Some(from) if p.work_attachment_id == from => BigFilePartRow {
                uuid: p.uuid.duplicate(),
                next_uuid: duplicate_uuid_opt(&p.next_uuid),
                work_attachment_id: to,
                whole_file_length: p.whole_file_length,
                bytes_base64: p.bytes_base64.duplicate(),
            },
            _ => p.duplicate(),
        };
        out.push(moved);
        j = j + 1;
        assert(out@ =~= expected.take(j as int));
    }
    assert(expected.take(j as int) == expected);
    out
}

/// Whether some stored part has the uuid `uuid`.
pub fn part_exists(parts: &Vec<BigFilePartRow>, uuid: &UuidString) -> (r: bool)
    ensures
        r == has_key(parts@, part_key(), uuid.0@),
{
    let mut i: usize = 0;
    while i < parts.len()
        invariant
            i <= parts@.len(),
            forall|j: int| 0 <= j < i ==> parts@[j].uuid.0@ != uuid.0@,
        decreases parts@.len() - i,
    {
        if parts[i].uuid.0 == uuid.0 {
            assert(part_key()(parts@[i as int]) == uuid.0@);
            return true;
        }
        i = i + 1;
    }
    false
}

/// Whether `attachment_id` is an attachment of work `work_id`.
fn is_attachment_of_work(attachments: &Vec<WorkAttachment>, attachment_id: i32, work_id: i32) -> (r: bool)
    ensures
        r == is_attachment_of(attachments@, attachment_id, work_id),
{
    let mut i: usize = 0;
    while i < attachments.len()
        invariant
            i <= attachments@.len(),
            forall|j: int|
                0 <= j < i ==> !(attachments@[j].id == attachment_id && attachments@[j].work_id == work_id),
        decreases attachments@.len() - i,
    {
        if attachments[i].id == attachment_id && attachments[i].work_id == work_id {
            assert(attachments@[i as int].id == attachment_id);
            return true;
        }
        i = i + 1;
    }
    false
}

/// The parts that do not belong to an attachment of `work_id` in `attachments`.
fn surviving_parts(parts: &Vec<BigFilePartRow>, attachments: &Vec<WorkAttachment>, work_id: i32) -> (r: Vec<
    BigFilePartRow,
>)
    ensures
        r@ == parts@.filter(survives(attachments@, work_id)),
{
    let ghost pred = survives(attachments@, work_id);
    let mut out: Vec<BigFilePartRow> = Vec::new();
    let mut i: usize = 0;
    while i < parts.len()
        invariant
            i <= parts@.len(),
            pred == survives(attachments@, work_id),
            out@ == parts@.take(i as int).filter(pred),
        decreases parts@.len() - i,
    {
        if !is_attachment_of_work(attachments, parts[i].work_attachment_id, work_id) {
            out.push(parts[i].duplicate());
        }
        proof {
            assert(parts@.take(i as int + 1) == parts@.take(i as int).push(parts@[i as int]));
            parts@.take(i as int).lemma_filter_push(parts@[i as int], pred);
        }
        i = i + 1;
    }
    assert(parts@.take(i as int) == parts@);
    out
}

/// Appends copies of `src` to `dst`.
fn append_rows<T: WorkChild>(dst: &mut Vec<T>, src: &Vec<T>)
    ensures
        final(dst)@ == old(dst)@ + src@,
{
    let ghost start = dst@;
    let mut i: usize = 0;
    while i < src.len()
        invariant
            i <= src@.len(),
            dst@ == start + src@.take(i as int),
        decreases src@.len() - i,
    {
        dst.push(src[i].duplicate_row());
        i = i + 1;
        assert(dst@ =~= start + src@.take(i as int));
    }
    assert(src@.take(i as int) == src@);
}

/// The attachment row stored for `input`.
fn store_attachment(input: &WorkAttachment, work_id: i32, id: i32) -> (r: WorkAttachment)
    ensures
        r == stored_attachment(*input, work_id, id as int),
{
    let mut r = input.duplicate();
    r.id = id;
    r.work_id = work_id;
    r
}

/// Attachment `a` names a big-file part that is not stored.
pub open spec fn names_absent_part(a: WorkAttachment, parts: Seq<BigFilePartRow>) -> bool {
    match a.big_file_uuid {
        Some(u) => !has_key(parts, part_key(), u.0@),
        None => false,
    }
}

/// Some input attachment names a big-file part that is not stored.
pub open spec fn names_missing_part(inputs: Seq<WorkAttachment>, parts: Seq<BigFilePartRow>) -> bool {
    exists|k: int| 0 <= k < inputs.len() && #[trigger] names_absent_part(inputs[k], parts)
}

/// The child rows that replacing the details of work `work_id` with `atts`,
/// `links` and `tags` leaves, new identifiers being drawn from `first` on.
pub open spec fn children_replaced(
    old: &Database,
    new: &Database,
    work_id: i32,
    first: int,
    atts: Seq<WorkAttachment>,
    links: Seq<WorkLink>,
    tags: Seq<WorkTag>,
) -> bool {
    let ins = stored_attachments(atts, work_id, first);
    &&& new.work_attachments@ == old.work_attachments@.filter(not_of_work(work_id)) + ins
    &&& new.big_file_parts@ == migrate_all(old.big_file_parts@, ins).filter(
        survives(old.work_attachments@, work_id),
    )
    &&& new.work_links@ == old.work_links@.filter(not_of_work(work_id)) + stored_links(
        links,
        work_id,
        first + atts.len(),
    )
    &&& new.work_tags@ == old.work_tags@.filter(not_of_work(work_id)) + stored_tags(
        tags,
        work_id,
        first + atts.len() + links.len(),
    )
    &&& new.next_id == first + atts.len() + links.len() + tags.len()
}

/// The work as returned after its details were replaced: its row and the new
/// child rows, identifiers drawn from `first` on.
pub open spec fn work_as_stored(
    w: Work,
    row: WorkRow,
    first: int,
    atts: Seq<WorkAttachment>,
    links: Seq<WorkLink>,
    tags: Seq<WorkTag>,
) -> bool {
    &&& w.row == row
    &&& w.attachments@ == stored_attachments(atts, row.id, first)
    &&& w.links@ == stored_links(links, row.id, first + atts.len())
    &&& w.tags@ == stored_tags(tags, row.id, first + atts.len() + links.len())
}

/// Replaces the attachments, links and tags of work `row` with the inputs.
/// New rows get fresh identifiers; tags keep their input order. A chain of
/// big-file parts named by a new attachment moves to it; the old
/// attachments are then deleted, with the parts still pointing at them.
/// Fails with `OutOfRange` when identifiers run out and with `NotFound` when
/// an input names a part that is not stored.
pub fn update_work_details(
    db: &mut Database,
    row: WorkRow,
    new_attachments: &Vec<WorkAttachment>,
    new_links: &Vec<WorkLink>,
    new_tags: &Vec<WorkTag>,
) -> (r: Result<Work, StoreError>)
    requires
        old(db).wf(),
    ensures
        final(db).wf(),
        r is Err ==> *final(db) == *old(db),
        r == Err::<Work, StoreError>(StoreError::OutOfRange) <==> old(db).next_id + new_attachments@.len()
            + new_links@.len() + new_tags@.len() > i32::MAX,
        r == Err::<Work, StoreError>(StoreError::NotFound) <==> old(db).next_id + new_attachments@.len()
            + new_links@.len() + new_tags@.len() <= i32::MAX && names_missing_part(
            new_attachments@,
            old(db).big_file_parts@,
        ),
        r is Ok <==> old(db).next_id + new_attachments@.len() + new_links@.len() + new_tags@.len()
            <= i32::MAX && !names_missing_part(new_attachments@, old(db).big_file_parts@),
        r matches Ok(w) ==> {
            let first = old(db).next_id as int;
            &&& children_replaced(
                old(db),
                final(db),
                row.id,
                first,
                new_attachments@,
                new_links@,
                new_tags@,
            )
            &&& work_as_stored(w, row, first, new_attachments@, new_links@, new_tags@)
            &&& final(db).works == old(db).works
            &&& final(db).work_rights == old(db).work_rights
            &&& same_accounts(final(db), old(db))
            &&& same_portfolios(final(db), old(db))
        },
{
    let work_id = row.id;
    let a_len = new_attachments.len();
    let l_len = new_links.len();
    let t_len = new_tags.len();
    if a_len > 0x7fff_ffff || l_len > 0x7fff_ffff || t_len > 0x7fff_ffff {
        return Err(StoreError::OutOfRange);
    }
    if db.next_id as i64 + a_len as i64 + l_len as i64 + t_len as i64 > 0x7fff_ffff {
        return Err(StoreError::OutOfRange);
    }
    let mut k: usize = 0;
    while k < a_len
        invariant
            k <= a_len == new_attachments@.len(),
            *db == *old(db),
            db.wf(),
            old(db).next_id + a_len + l_len + t_len <= i32::MAX,
            l_len == new_links@.len(),
            t_len == new_tags@.len(),
            forall|j: int|
                0 <= j < k ==> !#[trigger] names_absent_part(new_attachments@[j], db.big_file_parts@),
        decreases a_len - k,
    {
        if let Some(u) = &new_attachments[k].big_file_uuid {
            if !part_exists(&db.big_file_parts, u) {
                assert(names_absent_part(new_attachments@[k as int], db.big_file_parts@));
                return Err(StoreError::NotFound);
            }
        }
        k = k + 1;
    }
    let ghost old_db = *db;
    let first = db.next_id;
    let ghost ins = stored_attachments(new_attachments@, work_id, first as int);

    // the new attachment rows
    let mut inserted: Vec<WorkAttachment> = Vec::new();
    k = 0;
    while k < a_len
        invariant
            k <= a_len == new_attachments@.len() <= 0x7fff_ffff,
            first as int + a_len <= 0x7fff_ffff,
            ins == stored_attachments(new_attachments@, work_id, first as int),
            inserted@ == ins.take(k as int),
        decreases a_len - k,
    {
        inserted.push(store_attachment(&new_attachments[k], work_id, first + k as i32));
        k = k + 1;
        assert(inserted@ =~= ins.take(k as int));
    }
    assert(inserted@ =~= ins);

    // chains named by the new attachments move to them
    let mut parts: Vec<BigFilePartRow> = Vec::new();
    std::mem::swap(&mut parts, &mut db.big_file_parts);
    k = 0;
    while k < a_len
        invariant
            k <= a_len == inserted@.len(),
            inserted@ == ins,
            parts@ == migrate_all(old_db.big_file_parts@, ins.take(k as int)),
            keys_unique(parts@, part_key()),
            first as int + a_len <= 0x7fff_ffff,
            a_len == new_attachments@.len(),
            ins == stored_attachments(new_attachments@, work_id, first as int),
            forall|j: int|
                0 <= j < parts@.len() ==> #[trigger] parts@[j].work_attachment_id < first + a_len,
            links_stored(parts@),
            forall|j: int| 0 <= j < parts@.len() ==> #[trigger] payload_decodes(parts@[j]),
        decreases a_len - k,
    {
        if let Some(u) = &inserted[k].big_file_uuid {
            let ghost before = parts@;
            parts = migrate_chain(&parts, u, inserted[k].id);
            proof {
                assert(ins[k as int].id == first + k);
                lemma_migrate_links(before, u.0@, inserted@[k as int].id);
                lemma_migrate_bounds(before, u.0@, inserted@[k as int].id, first + a_len);
            }
        }
        assert(ins.take(k as int + 1).drop_last() == ins.take(k as int));
        k = k + 1;
    }
    assert(ins.take(k as int) == ins);

    // the old attachments go, and the parts that still point at them
    let kept_parts = surviving_parts(&parts, &db.work_attachments, work_id);
    proof {
        lemma_filter_unique(parts@, survives(old_db.work_attachments@, work_id), part_key());
        lemma_links_filter(parts@, survives(old_db.work_attachments@, work_id));
        assert forall|j: int| 0 <= j < kept_parts@.len() implies #[trigger] kept_parts@[j].work_attachment_id
            < first + a_len by {
            parts@.lemma_filter_contains_rev(survives(old_db.work_attachments@, work_id), kept_parts@[j]);
        }
    }
    db.big_file_parts = kept_parts;
    let mut attachments = select_rows(&db.work_attachments, work_id, false);
    append_rows(&mut attachments, &inserted);
    proof {
        let f = old_db.work_attachments@.filter(not_of_work(work_id));
        lemma_filter_unique(old_db.work_attachments@, not_of_work(work_id), attachment_key());
        assert forall|i: int| 0 <= i < attachments@.len() implies #[trigger] attachments@[i].id
            < first + a_len && (i < f.len() ==> attachments@[i].id < first) by {
            if i < f.len() {
                old_db.work_attachments@.lemma_filter_contains_rev(not_of_work(work_id), f[i]);
            }
        }
        assert forall|i: int, j: int|
            0 <= i < attachments@.len() && 0 <= j < attachments@.len() && i != j implies attachment_key()(
            attachments@[i]) != attachment_key()(attachments@[j]) by {
            if i >= f.len() && j >= f.len() {
                assert(attachments@[i] == ins[i - f.len()]);
                assert(attachments@[j] == ins[j - f.len()]);
            } else if i < f.len() && j < f.len() {
                assert(attachments@[i] == f[i] && attachments@[j] == f[j]);
            } else if i < f.len() {
                assert(attachments@[j] == ins[j - f.len()]);
                assert(attachments@[i].id < first);
            } else {
                assert(attachments@[i] == ins[i - f.len()]);
                assert(attachments@[j].id < first);
            }
        }
    }
    db.work_attachments = attachments;

    // links
    let l_first = first + a_len as i32;
    let ghost links_in = stored_links(new_links@, work_id, l_first as int);
    let mut links: Vec<WorkLink> = Vec::new();
    k = 0;
    while k < l_len
        invariant
            k <= l_len == new_links@.len(),
            l_len <= 0x7fff_ffff,
            l_first as int + l_len <= 0x7fff_ffff,
            links_in == stored_links(new_links@, work_id, l_first as int),
            links@ == links_in.take(k as int),
        decreases l_len - k,
    {
        let mut link = new_links[k].duplicate();
        link.id = l_first + k as i32;
        link.work_id = work_id;
        links.push(link);
        k = k + 1;
        assert(links@ =~= links_in.take(k as int));
    }
    assert(links@ =~= links_in);
    let mut all_links = select_rows(&db.work_links, work_id, false);
    append_rows(&mut all_links, &links);
    db.work_links = all_links;

    // tags, in their input order
    let t_first = l_first + l_len as i32;
    let ghost tags_in = stored_tags(new_tags@, work_id, t_first as int);
    let mut tags: Vec<WorkTag> = Vec::new();
    k = 0;
    while k < t_len
        invariant
            k <= t_len == new_tags@.len(),
            t_len <= 0x7fff_ffff,
            t_first as int + t_len <= 0x7fff_ffff,
            tags_in == stored_tags(new_tags@, work_id, t_first as int),
            tags@ == tags_in.take(k as int),
        decreases t_len - k,
    {
        let mut tag = new_tags[k].duplicate();
        tag.id = t_first + k as i32;
        tag.work_id = work_id;
        tags.push(tag);
        k = k + 1;
        assert(tags@ =~= tags_in.take(k as int));
    }
    assert(tags@ =~= tags_in);
    let mut all_tags = select_rows(&db.work_tags, work_id, false);
    append_rows(&mut all_tags, &tags);
    db.work_tags = all_tags;

    db.next_id = t_first + t_len as i32;
    Ok(Work { row, attachments: inserted, links, tags })
}

/// Work `row` with its attachments, links and tags; tags in their stored
/// order.
pub fn fetch_work_details(db: &Database, row: WorkRow) -> (r: Work)
    ensures
        r.row == row,
        r.attachments@ == db.work_attachments@.filter(of_work(row.id)),
        r.links@ == db.work_links@.filter(of_work(row.id)),
        r.tags@ == db.work_tags@.filter(of_work(row.id)),
{
    let attachments = select_rows(&db.work_attachments, row.id, true);
    let links = select_rows(&db.work_links, row.id, true);
    let tags = select_rows(&db.work_tags, row.id, true);
    Work { row, attachments, links, tags }
}

/// Whether every part named by `inputs` is stored.
pub fn named_parts_exist(parts: &Vec<BigFilePartRow>, inputs: &Vec<WorkAttachment>) -> (r: bool)
    ensures
        r == !names_missing_part(inputs@, parts@),
{
    let mut k: usize = 0;
    while k < inputs.len()
        invariant
            k <= inputs@.len(),
            forall|j: int| 0 <= j < k ==> !#[trigger] names_absent_part(inputs@[j], parts@),
        decreases inputs@.len() - k,
    {
        if let Some(u) = &inputs[k].big_file_uuid {
            if !part_exists(parts, u) {
                assert(names_absent_part(inputs@[k as int], parts@));
                return false;
            }
        }
        k = k + 1;
    }
    true
}

/// Keeping the elements that all satisfy `p` keeps the sequence.
proof fn lemma_filter_keeps_all<A>(s: Seq<A>, p: spec_fn(A) -> bool)
    requires
        forall|i: int| 0 <= i < s.len() ==> p(#[trigger] s[i]),
    ensures
        s.filter(p) == s,
    decreases s.len(),
{
    reveal(Seq::filter);
    if s.len() > 0 {
        lemma_filter_keeps_all(s.drop_last(), p);
        assert(s.drop_last().push(s.last()) =~= s);
    }
}

/// Rows of other works hold no row of `work_id`.
proof fn lemma_other_rows_hold_none<T: WorkChild>(s: Seq<T>, work_id: i32)
    ensures
        s.filter(not_of_work::<T>(work_id)).filter(of_work::<T>(work_id)).len() == 0,
{
    let f = s.filter(not_of_work::<T>(work_id));
    let g = f.filter(of_work::<T>(work_id));
    if g.len() > 0 {
        f.lemma_filter_pred(of_work::<T>(work_id), 0);
        assert(g.contains(g[0]));
        f.lemma_filter_contains_rev(of_work::<T>(work_id), g[0]);
        let j = choose|j: int| 0 <= j < f.len() && f[j] == g[0];
        s.lemma_filter_pred(not_of_work::<T>(work_id), j);
    }
}

/// After the details of a work are replaced, its tags read back (as
/// `fetch_work_details` reads them) are the input tags in their input order.
pub proof fn lemma_tags_round_trip(
    old: &Database,
    new: &Database,
    work_id: i32,
    first: int,
    atts: Seq<WorkAttachment>,
    links: Seq<WorkLink>,
    tags: Seq<WorkTag>,
)
    requires
        children_replaced(old, new, work_id, first, atts, links, tags),
    ensures
        new.work_tags@.filter(of_work(work_id)).map_values(|t: WorkTag| t.tag@) == tags.map_values(
            |t: WorkTag| t.tag@,
        ),
{
    let kept = old.work_tags@.filter(not_of_work::<WorkTag>(work_id));
    let added = stored_tags(tags, work_id, first + atts.len() + links.len());
    Seq::filter_distributes_over_add(kept, added, of_work::<WorkTag>(work_id));
    lemma_other_rows_hold_none(old.work_tags@, work_id);
    lemma_filter_keeps_all(added, of_work::<WorkTag>(work_id));
    assert(kept.filter(of_work::<WorkTag>(work_id)) + added =~= added);
    assert(added.map_values(|t: WorkTag| t.tag@) =~= tags.map_values(|t: WorkTag| t.tag@));
}

/// Attachment `x` names a part that belongs to attachment `from` in `parts`.
pub open spec fn refers_to_chain(x: WorkAttachment, parts: Seq<BigFilePartRow>, from: i32) -> bool {
    match x.big_file_uuid {
        Some(u) => match find_by_key(parts, part_key(), u.0@) {
            Some(p) => p.work_attachment_id == from,
            None => false,
        },
        None => false,
    }
}

/// Position of the last of `ins` that names a part of attachment `from`.
pub open spec fn last_reference(ins: Seq<WorkAttachment>, parts: Seq<BigFilePartRow>, from: i32) -> Option<
    int,
>
    decreases ins.len(),
{
    if ins.len() == 0 {
        None
    } else if refers_to_chain(ins.last(), parts, from) {
        Some(ins.len() - 1)
    } else {
        last_reference(ins.drop_last(), parts, from)
    }
}

/// Where the chain of attachment `from` stands after the moves for `ins`.
pub open spec fn chain_owner(ins: Seq<WorkAttachment>, parts: Seq<BigFilePartRow>, from: i32) -> int {
    match last_reference(ins, parts, from) {
        Some(k) => ins[k].id as int,
        None => from as int,
    }
}

/// The moves for attachments with identifiers `first`, `first + 1`, ... keep
/// every part in place with its uuid and payload; the parts of `from` all
/// follow the last attachment that names one of them, and no other part
/// joins them.
proof fn lemma_migrate_all_chain(parts: Seq<BigFilePartRow>, ins: Seq<WorkAttachment>, from: i32, first: int)
    requires
        keys_unique(parts, part_key()),
        from < first,
        first + ins.len() <= i32::MAX,
        forall|j: int| 0 <= j < parts.len() ==> #[trigger] parts[j].work_attachment_id < first,
        forall|k: int| 0 <= k < ins.len() ==> #[trigger] ins[k].id == first + k,
    ensures
        ({
            let m = migrate_all(parts, ins);
            &&& m.len() == parts.len()
            &&& forall|j: int|
                0 <= j < parts.len() ==> (#[trigger] m[j]).uuid == parts[j].uuid && m[j].next_uuid
                    == parts[j].next_uuid && m[j].bytes_base64 == parts[j].bytes_base64
            &&& forall|j: int|
                0 <= j < parts.len() && parts[j].work_attachment_id == from ==> (#[trigger] m[j]).work_attachment_id
                    == chain_owner(ins, parts, from)
            &&& forall|j: int|
                0 <= j < parts.len() && parts[j].work_attachment_id != from ==> (#[trigger] m[j]).work_attachment_id
                    != chain_owner(ins, parts, from) && m[j].work_attachment_id < first + ins.len()
        }),
    decreases ins.len(),
{
    if ins.len() > 0 {
        let pre = ins.drop_last();
        assert forall|k: int| 0 <= k < pre.len() implies #[trigger] pre[k].id == first + k by {
            assert(pre[k] == ins[k]);
        }
        lemma_migrate_all_chain(parts, pre, from, first);
        let m0 = migrate_all(parts, pre);
        let x = ins.last();
        let to = x.id;
        assert(to == first + ins.len() - 1);
        let cw = chain_owner(pre, parts, from);
        lemma_same_part_uuids(parts, m0);
        lemma_last_reference_bound(pre, parts, from);
        if !refers_to_chain(x, parts, from) {
            assert(last_reference(ins, parts, from) == last_reference(pre, parts, from));
            if let Some(r) = last_reference(pre, parts, from) {
                assert(ins[r] == pre[r]);
                assert(pre[r].id == first + r);
            }
            assert(chain_owner(ins, parts, from) == cw);
        }
        if let Some(u) = x.big_file_uuid {
            if has_key(m0, part_key(), u.0@) {
                let i = choose|i: int| 0 <= i < m0.len() && part_key()(m0[i]) == u.0@;
                lemma_find_by_key(m0, part_key(), i);
                lemma_find_by_key(parts, part_key(), i);
                let src = m0[i].work_attachment_id;
                let m1 = reassign(m0, src, to);
                assert(migrate_all(parts, ins) == m1);
                if parts[i].work_attachment_id == from {
                    assert(refers_to_chain(x, parts, from));
                    assert(chain_owner(ins, parts, from) == to);
                } else {
                    assert(!refers_to_chain(x, parts, from));
                    assert(last_reference(ins, parts, from) == last_reference(pre, parts, from));
                    assert(chain_owner(ins, parts, from) == cw);
                    if let Some(r) = last_reference(pre, parts, from) {
                        lemma_last_reference_bound(pre, parts, from);
                        assert(pre[r].id == first + r);
                    }
                }
            } else {
                assert(!has_key(parts, part_key(), u.0@));
                assert(!refers_to_chain(x, parts, from));
                assert(chain_owner(ins, parts, from) == cw);
            }
        } else {
            assert(chain_owner(ins, parts, from) == cw);
        }
    }
}

/// The last reference lies within the sequence.
proof fn lemma_last_reference_bound(ins: Seq<WorkAttachment>, parts: Seq<BigFilePartRow>, from: i32)
    ensures
        last_reference(ins, parts, from) matches Some(k) ==> 0 <= k < ins.len() && refers_to_chain(
            ins[k],
            parts,
            from,
        ),
    decreases ins.len(),
{
    if ins.len() > 0 && !refers_to_chain(ins.last(), parts, from) {
        lemma_last_reference_bound(ins.drop_last(), parts, from);
        if let Some(k) = last_reference(ins.drop_last(), parts, from) {
            assert(ins.drop_last()[k] == ins[k]);
        }
    }
}

/// Replacing the attachments of a work keeps each chain of an old
/// attachment that a new attachment names: its parts stay, unchanged but for
/// belonging to the last new attachment that names one of them. A chain
/// that no new attachment names is deleted with its old attachment.
pub proof fn lemma_reconcile_moves_or_drops_chain(
    old: &Database,
    new: &Database,
    work_id: i32,
    atts: Seq<WorkAttachment>,
    links: Seq<WorkLink>,
    tags: Seq<WorkTag>,
    k: int,
    i: int,
)
    requires
        old.wf(),
        children_replaced(old, new, work_id, old.next_id as int, atts, links, tags),
        0 <= k < old.work_attachments@.len(),
        old.work_attachments@[k].work_id == work_id,
        0 <= i < old.big_file_parts@.len(),
        old.big_file_parts@[i].work_attachment_id == old.work_attachments@[k].id,
    ensures
        ({
            let ins = stored_attachments(atts, work_id, old.next_id as int);
            let from = old.work_attachments@[k].id;
            let part = old.big_file_parts@[i];
            match last_reference(ins, old.big_file_parts@, from) {
                Some(r) => match find_by_key(new.big_file_parts@, part_key(), part.uuid.0@) {
                    Some(p) => p.work_attachment_id == ins[r].id && p.bytes_base64 == part.bytes_base64
                        && p.next_uuid == part.next_uuid,
                    None => false,
                },
                None => !has_key(new.big_file_parts@, part_key(), part.uuid.0@),
            }
        }),
{
    let first = old.next_id as int;
    let ins = stored_attachments(atts, work_id, first);
    let from = old.work_attachments@[k].id;
    let parts = old.big_file_parts@;
    let keep = survives(old.work_attachments@, work_id);
    assert forall|j: int| 0 <= j < ins.len() implies #[trigger] ins[j].id == first + j by {}
    lemma_migrate_all_chain(parts, ins, from, first);
    let m = migrate_all(parts, ins);
    lemma_same_part_uuids(parts, m);
    let f = m.filter(keep);
    lemma_filter_unique(m, keep, part_key());
    let u = parts[i].uuid.0@;
    // a part of the kept table with the uuid `u` is `m[i]`
    assert forall|j: int| 0 <= j < f.len() && part_key()(f[j]) == u implies f[j] == m[i] by {
        assert(f.contains(f[j]));
        let n = choose|n: int| 0 <= n < m.len() && m[n] == f[j];
        assert(part_key()(m[n]) == part_key()(m[i]));
    }
    lemma_last_reference_bound(ins, parts, from);
    match last_reference(ins, parts, from) {
        Some(r) => {
            assert(m[i].work_attachment_id == first + r);
            assert(keep(m[i])) by {
                if is_attachment_of(old.work_attachments@, m[i].work_attachment_id, work_id) {
                    let a = choose|a: int|
                        0 <= a < old.work_attachments@.len() && #[trigger] old.work_attachments@[a].id
                            == m[i].work_attachment_id && old.work_attachments@[a].work_id == work_id;
                    assert(old.work_attachments@[a].id < first);
                }
            }
            m.lemma_filter_contains(keep, i);
            let j = choose|j: int| 0 <= j < f.len() && f[j] == m[i];
            assert(part_key()(f[j]) == u);
            lemma_find_by_key(f, part_key(), j);
        },
        None => {
            assert(m[i].work_attachment_id == from);
            assert(is_attachment_of(old.work_attachments@, from, work_id));
            if has_key(f, part_key(), u) {
                let j = choose|j: int| 0 <= j < f.len() && part_key()(f[j]) == u;
                m.lemma_filter_pred(keep, j);
            }
        },
    }
}

} // verus!
