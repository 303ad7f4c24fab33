//! What holds of the registry whatever it is asked.

use vstd::prelude::*;
use crate::model::{ComplaintView, DriverView, LocationView, NewComplaintView};
use crate::pagination::{offset_of, page_of, Pagination};
use crate::service::{interrupted, submitted};
use crate::store::{by_country_and_state, by_name, holds, insert_ordered, order_by, StoreModel};
use crate::text::{lemma_text_le_total, lemma_text_le_transitive};

verus! {

/// A submission for a driver that the store does not hold creates that
/// driver, once, and one complaint, which names the new driver. Nothing
/// else changes among the drivers and the complaints.
pub proof fn submission_for_unknown_driver_creates_the_driver(
    before: StoreModel,
    after: StoreModel,
    given: NewComplaintView,
    created_at: i64,
    made: ComplaintView,
)
    requires
        submitted(before, after, given, created_at, made),
        !before.has_driver_named(given.taxi_driver_name, given.taxi_license_plate),
    ensures
        after.drivers.len() == before.drivers.len() + 1,
        after.drivers.drop_last() == before.drivers,
        after.drivers.last() == (DriverView {
            id: made.driver_id,
            name: given.taxi_driver_name,
            license_plate: given.taxi_license_plate,
        }),
        !holds(before.drivers, made.driver_id),
        after.complaints.len() == before.complaints.len() + 1,
        after.complaints.drop_last() == before.complaints,
        after.complaints.last() == made,
        !holds(before.complaints, made.id),
{
    assert(after.drivers.drop_last() =~= before.drivers);
    assert(after.complaints.drop_last() =~= before.complaints);
}

/// A submission for a driver that the store holds creates no driver: the
/// one complaint that it creates names a driver that was there, with the
/// name and the plate submitted.
pub proof fn submission_for_known_driver_reuses_the_driver(
    before: StoreModel,
    after: StoreModel,
    given: NewComplaintView,
    created_at: i64,
    made: ComplaintView,
)
    requires
        submitted(before, after, given, created_at, made),
        before.has_driver_named(given.taxi_driver_name, given.taxi_license_plate),
    ensures
        after.drivers == before.drivers,
        before.drivers.contains(
            DriverView {
                id: made.driver_id,
                name: given.taxi_driver_name,
                license_plate: given.taxi_license_plate,
            },
        ),
        holds(before.drivers, made.driver_id),
        after.complaints.len() == before.complaints.len() + 1,
        after.complaints.drop_last() == before.complaints,
        after.complaints.last() == made,
{
    let driver = DriverView {
        id: made.driver_id,
        name: given.taxi_driver_name,
        license_plate: given.taxi_license_plate,
    };
    let i = choose|i: int| 0 <= i < before.drivers.len() && before.drivers[i] == driver;
    assert(before.drivers[i].id == made.driver_id);
    assert(after.complaints.drop_last() =~= before.complaints);
}

/// A submission attaches to the new complaint one picture for each
/// address submitted, in the order submitted, and attaches no other
/// picture.
pub proof fn submission_attaches_its_pictures_in_order(
    before: StoreModel,
    after: StoreModel,
    given: NewComplaintView,
    created_at: i64,
    made: ComplaintView,
    k: int,
)
    requires
        submitted(before, after, given, created_at, made),
        0 <= k < given.complaint_image_urls().len(),
    ensures
        after.complaint_images.len() == before.complaint_images.len()
            + given.complaint_image_urls().len(),
        after.complaint_images[before.complaint_images.len() + k].complaint_id == made.id,
        after.complaint_images[before.complaint_images.len() + k].image_url
            == given.complaint_image_urls()[k],
{
    let urls = given.complaint_image_urls();
    assert(urls.take(urls.len() as int) =~= urls);
}

/// A submission that fails takes nothing from the store: in each table
/// the rows that were there stand where they stood.
pub proof fn failed_submission_loses_nothing(
    before: StoreModel,
    after: StoreModel,
    given: NewComplaintView,
    created_at: i64,
)
    requires
        interrupted(before, after, given, created_at),
    ensures
        before.drivers.is_prefix_of(after.drivers),
        before.driver_images.is_prefix_of(after.driver_images),
        before.complaints.is_prefix_of(after.complaints),
        before.complaint_images.is_prefix_of(after.complaint_images),
        before.locations == after.locations,
        after.drivers.len() <= before.drivers.len() + 1,
        after.driver_images.len() <= before.driver_images.len() + 1,
        after.complaints.len() <= before.complaints.len() + 1,
        after.complaint_images.len() < before.complaint_images.len() + 1
            + given.complaint_image_urls().len(),
{
    assert(after.drivers.len() >= before.drivers.len() && after.drivers.take(
        before.drivers.len() as int,
    ) =~= before.drivers);
    assert(after.complaints.len() >= before.complaints.len() && after.complaints.take(
        before.complaints.len() as int,
    ) =~= before.complaints);
    assert(after.driver_images.take(before.driver_images.len() as int) =~= before.driver_images);
    assert(after.complaint_images.take(before.complaint_images.len() as int)
        =~= before.complaint_images);
    assert(after.locations =~= before.locations);
}

/// A driver that was created is found under its identifier, equal to
/// what was given in all but the identifier, which is not 0 and was not
/// in use.
pub proof fn created_driver_is_found_as_given(
    before: StoreModel,
    after: StoreModel,
    given: DriverView,
    made: DriverView,
    found: DriverView,
)
    requires
        before.well_formed(),
        before.driver_created(after, given, made),
        after.drivers.contains(found),
        found.id == made.id,
    ensures
        holds(after.drivers, made.id),
        found == made,
        found.name == given.name,
        found.license_plate == given.license_plate,
        found.id != 0,
        !holds(before.drivers, found.id),
{
    let i = choose|i: int| 0 <= i < after.drivers.len() && after.drivers[i] == found;
    if i < before.drivers.len() {
        assert(after.drivers[i] == before.drivers[i]);
        assert(before.drivers[i].id < made.id);
    }
    assert(after.drivers[before.drivers.len() as int] == made);
}

/// A page holds the rows of the listing from its offset on, in their
/// order and no more than asked for, and counts the whole listing.
pub proof fn page_holds_the_rows_from_its_offset<V>(all: Seq<V>, pagination: Pagination, i: int)
    requires
        pagination.page >= 1,
        0 <= i < page_of(all, pagination).items.len(),
    ensures
        page_of(all, pagination).items.len() <= pagination.per_page,
        page_of(all, pagination).total_items == all.len(),
        offset_of(pagination.page as int, pagination.per_page as int) + i < all.len(),
        page_of(all, pagination).items[i] == all[offset_of(
            pagination.page as int,
            pagination.per_page as int,
        ) + i],
{
    assert(offset_of(pagination.page as int, pagination.per_page as int) >= 0) by (nonlinear_arith)
        requires
            pagination.page >= 1,
            pagination.per_page >= 0,
    ;
}

/// Pages that follow one another share no row and leave none out: the
/// rows of a page with all that it holds end where the next page begins.
pub proof fn full_page_ends_where_the_next_begins(page: int, per_page: int)
    ensures
        offset_of(page, per_page) + per_page == offset_of(page + 1, per_page),
{
    assert((page - 1) * per_page + per_page == page * per_page) by (nonlinear_arith);
}

/// Whether `le` puts any two rows in an order, one way or the other,
/// and orders three rows consistently.
pub open spec fn orders<V>(le: spec_fn(V, V) -> bool) -> bool {
    &&& forall|a: V, b: V| #[trigger] le(a, b) || le(b, a)
    &&& forall|a: V, b: V, c: V| #[trigger] le(a, b) && #[trigger] le(b, c) ==> le(a, c)
}

/// Whether every row of `rows` may stand before every later one.
pub open spec fn in_order<V>(rows: Seq<V>, le: spec_fn(V, V) -> bool) -> bool {
    forall|i: int, j: int| 0 <= i < j < rows.len() ==> le(#[trigger] rows[i], #[trigger] rows[j])
}

/// The place at which a row is put into ordered rows: behind the last
/// row that may stand before it.
proof fn lemma_insert_place<V>(sorted: Seq<V>, x: V, le: spec_fn(V, V) -> bool) -> (at: int)
    ensures
        0 <= at <= sorted.len(),
        insert_ordered(sorted, x, le) == sorted.insert(at, x),
        at > 0 ==> le(sorted[at - 1], x),
        forall|k: int| at <= k < sorted.len() ==> !le(#[trigger] sorted[k], x),
    decreases sorted.len(),
{
    if sorted.len() == 0 {
        assert(sorted.insert(0, x) =~= seq![x]);
        0
    } else if le(sorted.last(), x) {
        assert(sorted.insert(sorted.len() as int, x) =~= sorted.push(x));
        sorted.len() as int
    } else {
        let shorter = sorted.drop_last();
        let at = lemma_insert_place(shorter, x, le);
        assert(shorter.insert(at, x).push(sorted.last()) =~= sorted.insert(at, x));
        assert forall|k: int| at <= k < sorted.len() implies !le(#[trigger] sorted[k], x) by {
            if k < shorter.len() {
                assert(shorter[k] == sorted[k]);
            }
        }
        at
    }
}

/// A row put into ordered rows leaves them ordered, and adds itself and
/// nothing else.
pub proof fn inserted_row_keeps_the_order<V>(sorted: Seq<V>, x: V, le: spec_fn(V, V) -> bool)
    requires
        orders(le),
        in_order(sorted, le),
    ensures
        in_order(insert_ordered(sorted, x, le), le),
        insert_ordered(sorted, x, le).len() == sorted.len() + 1,
        forall|v: V| #[trigger]
            insert_ordered(sorted, x, le).contains(v) <==> sorted.contains(v) || v == x,
        sorted.no_duplicates() && !sorted.contains(x) ==> insert_ordered(
            sorted,
            x,
            le,
        ).no_duplicates(),
{
    let made = insert_ordered(sorted, x, le);
    let at = lemma_insert_place(sorted, x, le);
    sorted.insert_ensures(at, x);
    let from = |i: int| if i < at { i } else { i - 1 };
    assert forall|i: int| 0 <= i < made.len() && i != at implies #[trigger] made[i] == sorted[from(
        i,
    )] by {
        if i > at {
            assert(made[(i - 1) + 1] == sorted[i - 1]);
        }
    }
    assert forall|i: int, j: int| 0 <= i < j < made.len() implies le(
        #[trigger] made[i],
        #[trigger] made[j],
    ) by {
        if j == at {
            assert(made[i] == sorted[from(i)]);
            if i < at - 1 {
                assert(le(sorted[i], sorted[at - 1]));
            }
        } else if i == at {
            assert(made[j] == sorted[from(j)]);
            assert(!le(sorted[j - 1], x));
        } else {
            assert(made[i] == sorted[from(i)]);
            assert(made[j] == sorted[from(j)]);
            assert(le(sorted[from(i)], sorted[from(j)]));
        }
    }
    assert forall|v: V| #[trigger] made.contains(v) <==> sorted.contains(v) || v == x by {
        if made.contains(v) {
            let i = choose|i: int| 0 <= i < made.len() && made[i] == v;
            if i != at {
                assert(made[i] == sorted[from(i)]);
            }
        }
        if sorted.contains(v) {
            let k = choose|k: int| 0 <= k < sorted.len() && sorted[k] == v;
            let i = if k < at { k } else { k + 1 };
            assert(made[i] == sorted[from(i)]);
        }
        if v == x {
            assert(made[at] == v);
        }
    }
    if sorted.no_duplicates() && !sorted.contains(x) {
        assert forall|i: int, j: int| 0 <= i < made.len() && 0 <= j < made.len() && i != j implies made[i]
            != made[j] by {
            if i != at {
                assert(made[i] == sorted[from(i)]);
                assert(sorted.contains(sorted[from(i)]));
            }
            if j != at {
                assert(made[j] == sorted[from(j)]);
                assert(sorted.contains(sorted[from(j)]));
            }
        }
    }
}

/// Rows put in order are in order, and are the rows that were there:
/// none is added, none is lost, and rows of which no two are the same
/// stay so.
pub proof fn ordered_rows_are_the_rows_in_order<V>(rows: Seq<V>, le: spec_fn(V, V) -> bool)
    requires
        orders(le),
    ensures
        in_order(order_by(rows, le), le),
        order_by(rows, le).len() == rows.len(),
        forall|v: V| #[trigger] order_by(rows, le).contains(v) <==> rows.contains(v),
        rows.no_duplicates() ==> order_by(rows, le).no_duplicates(),
    decreases rows.len(),
{
    if rows.len() > 0 {
        let init = rows.drop_last();
        let last = rows.last();
        ordered_rows_are_the_rows_in_order(init, le);
        inserted_row_keeps_the_order(order_by(init, le), last, le);
        assert forall|v: V| #[trigger] order_by(rows, le).contains(v) <==> rows.contains(v) by {
            if rows.contains(v) {
                let k = choose|k: int| 0 <= k < rows.len() && rows[k] == v;
                if k < init.len() {
                    assert(init[k] == v);
                }
            }
            if init.contains(v) {
                let k = choose|k: int| 0 <= k < init.len() && init[k] == v;
                assert(rows[k] == v);
            }
            if v == last {
                assert(rows[rows.len() - 1] == v);
            }
        }
        if rows.no_duplicates() {
            assert(init.no_duplicates());
            if init.contains(last) {
                let k = choose|k: int| 0 <= k < init.len() && init[k] == last;
                assert(rows[k] == rows[rows.len() - 1]);
            }
        }
    }
}

/// Whether `a` stands before `b` in `rows`.
pub open spec fn stands_before<V>(rows: Seq<V>, a: V, b: V) -> bool {
    exists|p: int, q: int| 0 <= p < q < rows.len() && rows[p] == a && rows[q] == b
}

/// Putting rows in order keeps a row before a later one wherever the
/// order allows it: rows that the order does not tell apart stay as they
/// stood.
pub proof fn ordered_rows_stay_in_turn<V>(rows: Seq<V>, le: spec_fn(V, V) -> bool, i: int, j: int)
    requires
        orders(le),
        0 <= i < j < rows.len(),
        le(rows[i], rows[j]),
    ensures
        stands_before(order_by(rows, le), rows[i], rows[j]),
    decreases rows.len(),
{
    let init = rows.drop_last();
    let last = rows.last();
    let inner = order_by(init, le);
    let made = order_by(rows, le);
    ordered_rows_are_the_rows_in_order(init, le);
    let at = lemma_insert_place(inner, last, le);
    inner.insert_ensures(at, last);
    if j < rows.len() - 1 {
        ordered_rows_stay_in_turn(init, le, i, j);
        let (p, q) = choose|p: int, q: int|
            0 <= p < q < inner.len() && inner[p] == init[i] && inner[q] == init[j];
        let p1 = if p < at { p } else { p + 1 };
        let q1 = if q < at { q } else { q + 1 };
        assert(made[p1] == rows[i] && made[q1] == rows[j]);
    } else {
        assert(init[i] == rows[i]);
        assert(init.contains(rows[i]));
        assert(inner.contains(rows[i]));
        let p = choose|p: int| 0 <= p < inner.len() && inner[p] == rows[i];
        if p >= at {
            assert(!le(inner[p], last));
        }
        assert(made[p] == rows[i] && made[at] == rows[j]);
    }
}

/// The order of drivers by name and the order of locations by country
/// and state are orders.
pub proof fn listings_have_an_order()
    ensures
        orders(by_name()),
        orders(by_country_and_state()),
{
    assert forall|a: DriverView, b: DriverView| #[trigger] by_name()(a, b) || by_name()(b, a) by {
        lemma_text_le_total(a.name, b.name);
    }
    assert forall|a: DriverView, b: DriverView, c: DriverView| #[trigger]
        by_name()(a, b) && #[trigger] by_name()(b, c) implies by_name()(a, c) by {
        lemma_text_le_transitive(a.name, b.name, c.name);
    }
    assert forall|a: LocationView, b: LocationView| #[trigger]
        by_country_and_state()(a, b) || by_country_and_state()(b, a) by {
        lemma_text_le_total(a.state, b.state);
    }
    assert forall|a: LocationView, b: LocationView, c: LocationView| #[trigger]
        by_country_and_state()(a, b) && #[trigger] by_country_and_state()(b, c) implies by_country_and_state()(
        a,
        c,
    ) by {
        if a.country == b.country && b.country == c.country {
            lemma_text_le_transitive(a.state, b.state, c.state);
        }
    }
}

/// A search lists its drivers in order of name, each driver that it
/// finds once and no other driver.
pub proof fn search_lists_what_it_finds_in_order_of_name(
    store: StoreModel,
    query: Seq<char>,
    d: DriverView,
)
    requires
        store.well_formed(),
    ensures
        in_order(store.search_hits(query), by_name()),
        store.search_hits(query).contains(d) <==> store.drivers.contains(d) && store.search_finds(
            d,
            query,
        ),
        store.search_hits(query).no_duplicates(),
{
    let found = store.drivers.filter(store.found_by(query));
    listings_have_an_order();
    assert(store.drivers.no_duplicates()) by {
        assert forall|i: int, j: int|
            0 <= i < store.drivers.len() && 0 <= j < store.drivers.len() && i != j implies store.drivers[i]
            != store.drivers[j] by {
            if i < j {
                assert(store.drivers[i].id < store.drivers[j].id);
            } else {
                assert(store.drivers[j].id < store.drivers[i].id);
            }
        }
    }
    lemma_filter_keeps_rows_apart(store.drivers, store.found_by(query));
    ordered_rows_are_the_rows_in_order(found, by_name());
    store.drivers.filter_lemma(store.found_by(query));
    if store.drivers.contains(d) && store.search_finds(d, query) {
        let i = choose|i: int| 0 <= i < store.drivers.len() && store.drivers[i] == d;
        assert(store.found_by(query)(store.drivers[i]));
        assert(found.contains(store.drivers[i]));
    }
}

/// Rows of which no two are the same stay so when some are left out, and
/// the rows that stay are rows that were there and pass the test.
proof fn lemma_filter_keeps_rows_apart<V>(rows: Seq<V>, keep: spec_fn(V) -> bool)
    requires
        rows.no_duplicates(),
    ensures
        rows.filter(keep).no_duplicates(),
        forall|x: V| #[trigger] rows.filter(keep).contains(x) ==> rows.contains(x) && keep(x),
    decreases rows.len(),
{
    if rows.len() == 0 {
        assert(rows =~= Seq::empty());
        assert(rows.filter(keep) =~= Seq::empty()) by {
            rows.filter_lemma(keep);
        }
    } else {
        let init = rows.drop_last();
        let last = rows.last();
        assert(rows =~= init.push(last));
        init.lemma_filter_push(last, keep);
        lemma_filter_keeps_rows_apart(init, keep);
        let inner = init.filter(keep);
        let made = rows.filter(keep);
        assert(!init.contains(last)) by {
            if init.contains(last) {
                let k = choose|k: int| 0 <= k < init.len() && init[k] == last;
                assert(rows[k] == rows[rows.len() - 1]);
            }
        }
        assert forall|x: V| #[trigger] made.contains(x) implies rows.contains(x) && keep(x) by {
            let j = choose|j: int| 0 <= j < made.len() && made[j] == x;
            if j < inner.len() {
                assert(inner[j] == x);
                assert(inner.contains(x));
                let k = choose|k: int| 0 <= k < init.len() && init[k] == x;
                assert(rows[k] == x);
            } else {
                assert(rows[rows.len() - 1] == x);
            }
        }
        assert forall|i: int, j: int| 0 <= i < made.len() && 0 <= j < made.len() && i != j implies made[i]
            != made[j] by {
            if i < inner.len() && j < inner.len() {
                assert(inner[i] != inner[j]);
            } else if i < inner.len() {
                assert(inner.contains(inner[i]));
            } else if j < inner.len() {
                assert(inner.contains(inner[j]));
            }
        }
    }
}

} // verus!
