//! Tables of records held in memory: finding, adding, removing, ordering
//! and paging.

use vstd::prelude::*;
use crate::error::ApiError;
use crate::model::{Complaint, ComplaintImage, Country, Driver, DriverImage, Location};
use crate::pagination::{page_of, views, PaginatedRecord, Pagination};
use crate::store::{
    ascending, by_country_and_state, by_name, has_room, holds, insert_ordered, next_in, order_by,
    position, unused, Row,
};
use crate::text::comes_no_later;

verus! {

/// A record that a table can hold.
pub trait Record: View + Sized where Self::V: Row {
    /// The identifier of this record.
    fn record_id(&self) -> (id: i32)
        ensures
            id == self@.row_id(),
    ;
}

impl Record for Driver {
    fn record_id(&self) -> (id: i32) {
        self.id
    }
}

impl Record for DriverImage {
    fn record_id(&self) -> (id: i32) {
        self.id
    }
}

impl Record for Complaint {
    fn record_id(&self) -> (id: i32) {
        self.id
    }
}

impl Record for ComplaintImage {
    fn record_id(&self) -> (id: i32) {
        self.id
    }
}

impl Record for Location {
    fn record_id(&self) -> (id: i32) {
        self.id
    }
}

/// A record that listings put in an order of its own.
pub trait Listed: View + Sized {
    /// Whether a record with the value `a` may stand before one with the
    /// value `b`.
    spec fn order() -> spec_fn(Self::V, Self::V) -> bool;

    /// Whether this record may stand before `other`.
    fn may_precede(&self, other: &Self) -> (r: bool)
        ensures
            r == Self::order()(self@, other@),
    ;
}

impl Listed for Driver {
    open spec fn order() -> spec_fn(Self::V, Self::V) -> bool {
        by_name()
    }

    fn may_precede(&self, other: &Self) -> (r: bool) {
        comes_no_later(self.name.as_str(), other.name.as_str())
    }
}

/// The place of `c` in listings.
pub fn rank(c: Country) -> (r: u8)
    ensures
        r == crate::store::country_rank(c),
{
    match c {
        Country::Peru => 0,
        Country::Mexico => 1,
    }
}

impl Listed for Location {
    open spec fn order() -> spec_fn(Self::V, Self::V) -> bool {
        by_country_and_state()
    }

    fn may_precede(&self, other: &Self) -> (r: bool) {
        let mine: u8 = rank(self.country);
        let theirs: u8 = rank(other.country);
        mine < theirs || (mine == theirs && comes_no_later(
            self.state.as_str(),
            other.state.as_str(),
        ))
    }
}

/// In an ascending table a row is found at one position only.
pub proof fn lemma_position_is_unique<R: Row>(table: Seq<R>, i: int)
    requires
        ascending(table),
        0 <= i < table.len(),
    ensures
        holds(table, table[i].row_id()),
        position(table, table[i].row_id()) == i,
{
    let id = table[i].row_id();
    let p = position(table, id);
    if p < i {
        assert(table[p].row_id() < table[i].row_id());
    } else if i < p {
        assert(table[i].row_id() < table[p].row_id());
    }
}

/// A row with an unused identifier keeps a table ascending at its end.
pub proof fn lemma_push_keeps_ascending<R: Row>(table: Seq<R>, row: R)
    requires
        ascending(table),
        unused(table, row.row_id()),
    ensures
        ascending(table.push(row)),
{
    let after = table.push(row);
    assert forall|i: int, j: int| 0 <= i < j < after.len() implies (#[trigger] after[i]).row_id() < (
    #[trigger] after[j]).row_id() by {
        if j < table.len() {
            assert(after[i] == table[i] && after[j] == table[j]);
        } else {
            assert(after[i] == table[i]);
        }
    }
    assert forall|i: int| 0 <= i < after.len() implies 0 < (#[trigger] after[i]).row_id() by {
        if i < table.len() {
            assert(after[i] == table[i]);
        }
    }
}

/// A row that takes the place of one with the same identifier keeps a
/// table ascending.
pub proof fn lemma_update_keeps_ascending<R: Row>(table: Seq<R>, i: int, row: R)
    requires
        ascending(table),
        0 <= i < table.len(),
        row.row_id() == table[i].row_id(),
    ensures
        ascending(table.update(i, row)),
{
    let after = table.update(i, row);
    assert forall|a: int, b: int| 0 <= a < b < after.len() implies (#[trigger] after[a]).row_id() < (
    #[trigger] after[b]).row_id() by {
        assert(after[a].row_id() == table[a].row_id());
        assert(after[b].row_id() == table[b].row_id());
    }
    assert forall|a: int| 0 <= a < after.len() implies 0 < (#[trigger] after[a]).row_id() by {
        assert(after[a].row_id() == table[a].row_id());
    }
}

/// A table stays ascending without one of its rows.
pub proof fn lemma_remove_keeps_ascending<R: Row>(table: Seq<R>, i: int)
    requires
        ascending(table),
        0 <= i < table.len(),
    ensures
        ascending(table.remove(i)),
{
    let after = table.remove(i);
    assert forall|a: int, b: int| 0 <= a < b < after.len() implies (#[trigger] after[a]).row_id() < (
    #[trigger] after[b]).row_id() by {
        let x = if a < i { a } else { a + 1 };
        let y = if b < i { b } else { b + 1 };
        assert(after[a] == table[x] && after[b] == table[y]);
    }
    assert forall|a: int| 0 <= a < after.len() implies 0 < (#[trigger] after[a]).row_id() by {
        let x = if a < i { a } else { a + 1 };
        assert(after[a] == table[x]);
    }
}

/// Where the rows of `sorted` from `at` on may not stand before `x`, and
/// the row before `at` may, `x` is put at `at`.
pub proof fn lemma_insert_ordered_at<V>(sorted: Seq<V>, x: V, le: spec_fn(V, V) -> bool, at: int)
    requires
        0 <= at <= sorted.len(),
        forall|k: int| at <= k < sorted.len() ==> !le(#[trigger] sorted[k], x),
        at > 0 ==> le(sorted[at - 1], x),
    ensures
        insert_ordered(sorted, x, le) == sorted.insert(at, x),
    decreases sorted.len(),
{
    if sorted.len() == 0 {
        assert(sorted.insert(0, x) =~= seq![x]);
    } else if at == sorted.len() {
        assert(sorted.insert(at, x) =~= sorted.push(x));
    } else {
        assert(!le(sorted[sorted.len() - 1], x));
        let shorter = sorted.drop_last();
        assert forall|k: int| at <= k < shorter.len() implies !le(#[trigger] shorter[k], x) by {
            assert(shorter[k] == sorted[k]);
        }
        lemma_insert_ordered_at(shorter, x, le, at);
        assert(shorter.insert(at, x).push(sorted.last()) =~= sorted.insert(at, x));
    }
}

/// Filtering one row more either adds the row or changes nothing.
pub proof fn lemma_filter_next<V>(rows: Seq<V>, i: int, keep: spec_fn(V) -> bool)
    requires
        0 <= i < rows.len(),
    ensures
        rows.take(i + 1).filter(keep) == if keep(rows[i]) {
            rows.take(i).filter(keep).push(rows[i])
        } else {
            rows.take(i).filter(keep)
        },
{
    assert(rows.take(i + 1) =~= rows.take(i).push(rows[i]));
    rows.take(i).lemma_filter_push(rows[i], keep);
}

/// Ordering one row more puts the row among the ordered rows.
pub proof fn lemma_order_next<V>(rows: Seq<V>, row: V, le: spec_fn(V, V) -> bool)
    ensures
        order_by(rows.push(row), le) == insert_ordered(order_by(rows, le), row, le),
{
    assert(rows.push(row).drop_last() =~= rows);
}

/// The position of the record with identifier `id`, if `table` holds one.
pub fn find<T: Record>(table: &Vec<T>, id: i32) -> (r: Option<usize>) where T::V: Row
    requires
        ascending(views(table@)),
    ensures
        match r {
            Some(i) => i < table@.len() && table@[i as int]@.row_id() == id && holds(
                views(table@),
                id,
            ) && position(views(table@), id) == i,
            None => !holds(views(table@), id),
        },
{
    let ghost rows = views(table@);
    let mut i: usize = 0;
    while i < table.len()
        invariant
            rows == views(table@),
            ascending(rows),
            0 <= i <= table@.len(),
            forall|k: int| 0 <= k < i ==> (#[trigger] rows[k]).row_id() != id,
        decreases table.len() - i,
    {
        if table[i].record_id() == id {
            proof {
                assert(rows[i as int] == table@[i as int]@);
                lemma_position_is_unique(rows, i as int);
            }
            return Some(i);
        }
        assert(rows[i as int] == table@[i as int]@);
        i += 1;
    }
    None
}

/// The identifier for the next record of `table`; none where the last
/// identifier is the largest there is.
pub fn next_id<T: Record>(table: &Vec<T>) -> (r: Option<i32>) where T::V: Row
    requires
        ascending(views(table@)),
    ensures
        r is Some <==> has_room(views(table@)),
        r matches Some(id) ==> id == next_in(views(table@)) && unused(views(table@), id),
{
    let ghost rows = views(table@);
    if table.len() == 0 {
        Some(1)
    } else {
        let last: i32 = table[table.len() - 1].record_id();
        assert(rows.last() == table@[table@.len() - 1]@);
        if last == i32::MAX {
            None
        } else {
            assert forall|i: int| 0 <= i < rows.len() implies (#[trigger] rows[i]).row_id() < last
                + 1 by {
                if i < rows.len() - 1 {
                    assert(rows[i].row_id() < rows[rows.len() - 1].row_id());
                }
            }
            assert(0 < rows[rows.len() - 1].row_id());
            Some(last + 1)
        }
    }
}

/// `table` with `row` at its end.
pub fn appended<T: View>(table: Vec<T>, row: T) -> (r: Vec<T>)
    ensures
        views(r@) == views(table@).push(row@),
{
    let mut r = table;
    r.push(row);
    assert(views(r@) =~= views(table@).push(row@));
    r
}

/// `table` with `row` in the place of the record at position `at`.
pub fn replaced<T: View>(table: Vec<T>, at: usize, row: T) -> (r: Vec<T>)
    requires
        at < table@.len(),
    ensures
        views(r@) == views(table@).update(at as int, row@),
{
    let mut r = table;
    r[at] = row;
    assert(views(r@) =~= views(table@).update(at as int, row@));
    r
}

/// `table` without the record at position `at`.
pub fn shortened<T: View>(table: Vec<T>, at: usize) -> (r: Vec<T>)
    requires
        at < table@.len(),
    ensures
        views(r@) == views(table@).remove(at as int),
{
    let mut r = table;
    let _ = r.remove(at);
    assert(views(r@) =~= views(table@).remove(at as int));
    r
}

/// Puts `row` into `sorted` behind the last record that may stand before
/// it.
pub fn insert_in_order<T: Listed>(sorted: &mut Vec<T>, row: T)
    ensures
        views(final(sorted)@) == insert_ordered(views(old(sorted)@), row@, T::order()),
{
    let ghost before = views(sorted@);
    let mut at: usize = sorted.len();
    let mut placed: bool = false;
    while at > 0 && !placed
        invariant
            before == views(sorted@),
            0 <= at <= sorted@.len(),
            forall|k: int| at <= k < before.len() ==> !T::order()(#[trigger] before[k], row@),
            placed ==> at > 0 && T::order()(before[at - 1], row@),
        decreases at + (if placed { 0int } else { 1int }),
    {
        if sorted[at - 1].may_precede(&row) {
            placed = true;
        } else {
            at -= 1;
        }
    }
    proof {
        lemma_insert_ordered_at(before, row@, T::order(), at as int);
    }
    sorted.insert(at, row);
    assert(views(sorted@) =~= before.insert(at as int, row@));
}

/// The text of the failure that a listing of page 0 meets.
pub open spec fn negative_offset_text() -> Seq<char> {
    "OFFSET must not be negative"@
}

/// The page `pagination` of the listing `all`. Page 0 is refused: its
/// offset is negative.
pub fn page_from<T: View>(all: Vec<T>, pagination: &Pagination) -> (r: Result<
    PaginatedRecord<T>,
    ApiError,
>)
    ensures
        match r {
            Ok(p) => pagination.page >= 1 && p@ == page_of(views(all@), *pagination),
            Err(e) => pagination.page == 0 && e@ == crate::error::ApiErrorView::DataStoreError(
                negative_offset_text(),
            ),
        },
{
    if pagination.page == 0 {
        return Err(ApiError::DataStoreError("OFFSET must not be negative".to_owned()));
    }
    let total: u64 = all.len() as u64;
    let offset: i128 = pagination.offset();
    let limit: i128 = pagination.per_page as i128;
    assert(offset >= 0 && offset <= 0x1_0000_0000_0000_0000) by (nonlinear_arith)
        requires
            offset == (pagination.page as int - 1) * pagination.per_page as int,
            1 <= pagination.page <= 0xffff_ffff,
            0 <= pagination.per_page <= 0xffff_ffff,
    ;
    let ghost rows = views(all@);
    assert(all@.len() == all.len());
    let mut items: Vec<T> = Vec::new();
    let mut at: usize = 0;
    for row in it: all.into_iter()
        invariant
            it.seq() == all@,
            rows == views(all@),
            at == it.index(),
            all@.len() <= usize::MAX,
            0 <= offset <= 0x1_0000_0000_0000_0000,
            0 <= limit <= 0xffff_ffff,
            views(items@) == rows.subrange(
                if offset < at { offset as int } else { at as int },
                if offset + limit < at { offset + limit } else { at as int },
            ),
    {
        assert(it.index() < it.seq().len());
        let here: i128 = at as i128;
        let ghost earlier = views(items@);
        if offset <= here && here < offset + limit {
            items.push(row);
            assert(views(items@) =~= earlier.push(rows[at as int]));
        }
        at += 1;
        assert(views(items@) =~= rows.subrange(
            if offset < at { offset as int } else { at as int },
            if offset + limit < at { offset + limit } else { at as int },
        ));
    }
    let r = PaginatedRecord::new(items, total, pagination.page, pagination.per_page);
    assert(r@.items =~= page_of(rows, *pagination).items);
    Ok(r)
}

} // verus!
