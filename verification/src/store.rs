//! The mathematical model of what a persistence port holds, and of what
//! its operations answer.

use vstd::prelude::*;
use crate::model::{
    ComplaintImageView, ComplaintView, Country, DriverImageView, DriverView, LocationView,
};
use crate::error::ApiError;
use crate::text::{occurs_ignoring_case, text_le};

verus! {

/// A row of a table: it has an identifier.
pub trait Row {
    spec fn row_id(&self) -> i32;
}

impl Row for DriverView {
    open spec fn row_id(&self) -> i32 {
        self.id
    }
}

impl Row for DriverImageView {
    open spec fn row_id(&self) -> i32 {
        self.id
    }
}

impl Row for ComplaintView {
    open spec fn row_id(&self) -> i32 {
        self.id
    }
}

impl Row for ComplaintImageView {
    open spec fn row_id(&self) -> i32 {
        self.id
    }
}

impl Row for LocationView {
    open spec fn row_id(&self) -> i32 {
        self.id
    }
}

/// Whether the identifiers of `table` are positive and grow from each row
/// to the next, so that no two rows share one and the rows stand in
/// ascending order of identifier.
pub open spec fn ascending<R: Row>(table: Seq<R>) -> bool {
    &&& forall|i: int| 0 <= i < table.len() ==> 0 < (#[trigger] table[i]).row_id()
    &&& forall|i: int, j: int|
        0 <= i < j < table.len() ==> (#[trigger] table[i]).row_id() < (#[trigger] table[j]).row_id()
}

/// Whether `table` holds a row with identifier `id`.
pub open spec fn holds<R: Row>(table: Seq<R>, id: i32) -> bool {
    exists|i: int| 0 <= i < table.len() && (#[trigger] table[i]).row_id() == id
}

/// The position in `table` of a row with identifier `id`.
pub open spec fn position<R: Row>(table: Seq<R>, id: i32) -> int {
    choose|i: int| 0 <= i < table.len() && (#[trigger] table[i]).row_id() == id
}

/// Whether `id` can be given to a new row of `table`: it is positive and
/// above every identifier in use.
pub open spec fn unused<R: Row>(table: Seq<R>, id: i32) -> bool {
    &&& 0 < id
    &&& forall|i: int| 0 <= i < table.len() ==> (#[trigger] table[i]).row_id() < id
}

/// `table` without the row that has identifier `id`, if there is one.
pub open spec fn without<R: Row>(table: Seq<R>, id: i32) -> Seq<R> {
    if holds(table, id) {
        table.remove(position(table, id))
    } else {
        table
    }
}

/// The identifier that follows those of `table`: one above the last, or
/// 1 for an empty table.
pub open spec fn next_in<R: Row>(table: Seq<R>) -> int {
    if table.len() == 0 {
        1
    } else {
        table.last().row_id() + 1
    }
}

/// Whether identifiers are left for `n` more rows of `table`, given out
/// one after the other.
pub open spec fn room_for<R: Row>(table: Seq<R>, n: nat) -> bool {
    n == 0 || next_in(table) + n - 1 <= i32::MAX
}

/// Whether an identifier is left for one more row of `table`.
pub open spec fn has_room<R: Row>(table: Seq<R>) -> bool {
    room_for(table, 1)
}

/// `sorted` with `x` put behind the last row that `le` allows before it.
pub open spec fn insert_ordered<V>(sorted: Seq<V>, x: V, le: spec_fn(V, V) -> bool) -> Seq<V>
    decreases sorted.len(),
{
    if sorted.len() == 0 {
        seq![x]
    } else if le(sorted.last(), x) {
        sorted.push(x)
    } else {
        insert_ordered(sorted.drop_last(), x, le).push(sorted.last())
    }
}

/// The rows of `rows` in the order of `le`; rows that `le` does not tell
/// apart keep the order they had.
pub open spec fn order_by<V>(rows: Seq<V>, le: spec_fn(V, V) -> bool) -> Seq<V>
    decreases rows.len(),
{
    if rows.len() == 0 {
        Seq::empty()
    } else {
        insert_ordered(order_by(rows.drop_last(), le), rows.last(), le)
    }
}

/// The place of a country in listings.
pub open spec fn country_rank(c: Country) -> int {
    match c {
        Country::Peru => 0,
        Country::Mexico => 1,
    }
}

/// Drivers in order of name.
pub open spec fn by_name() -> spec_fn(DriverView, DriverView) -> bool {
    |a: DriverView, b: DriverView| text_le(a.name, b.name)
}

/// Locations in order of country, and of state within a country.
pub open spec fn by_country_and_state() -> spec_fn(LocationView, LocationView) -> bool {
    |a: LocationView, b: LocationView|
        country_rank(a.country) < country_rank(b.country) || (a.country == b.country && text_le(
            a.state,
            b.state,
        ))
}

/// Whether one of `drivers` has this name and this plate.
pub open spec fn named_among(
    drivers: Seq<DriverView>,
    name: Seq<char>,
    license_plate: Seq<char>,
) -> bool {
    exists|i: int|
        0 <= i < drivers.len() && (#[trigger] drivers[i]).name == name && drivers[i].license_plate
            == license_plate
}

/// What a persistence port holds: five tables, each in ascending order of
/// identifier.
pub struct StoreModel {
    pub drivers: Seq<DriverView>,
    pub driver_images: Seq<DriverImageView>,
    pub complaints: Seq<ComplaintView>,
    pub complaint_images: Seq<ComplaintImageView>,
    pub locations: Seq<LocationView>,
}

impl StoreModel {
    /// The invariant of a store.
    pub open spec fn well_formed(self) -> bool {
        &&& ascending(self.drivers)
        &&& ascending(self.driver_images)
        &&& ascending(self.complaints)
        &&& ascending(self.complaint_images)
        &&& ascending(self.locations)
    }

    /// Whether the store holds a driver with this name and this plate.
    pub open spec fn has_driver_named(self, name: Seq<char>, license_plate: Seq<char>) -> bool {
        named_among(self.drivers, name, license_plate)
    }

    /// Whether the store holds a driver with this plate.
    pub open spec fn has_driver_with_plate(self, license_plate: Seq<char>) -> bool {
        exists|i: int|
            0 <= i < self.drivers.len() && (#[trigger] self.drivers[i]).license_plate
                == license_plate
    }

    /// Whether some published complaint is against driver `driver_id`.
    pub open spec fn has_published_complaint(self, driver_id: i32) -> bool {
        exists|k: int|
            0 <= k < self.complaints.len() && (#[trigger] self.complaints[k]).driver_id
                == driver_id && self.complaints[k].published
    }

    /// Whether a picture shows driver `driver_id`.
    pub open spec fn showing(driver_id: i32) -> spec_fn(DriverImageView) -> bool {
        |i: DriverImageView| i.driver_id == driver_id
    }

    /// Whether a complaint is published and against driver `driver_id`.
    pub open spec fn published_against(driver_id: i32) -> spec_fn(ComplaintView) -> bool {
        |c: ComplaintView| c.driver_id == driver_id && c.published
    }

    /// Whether a picture belongs to complaint `complaint_id`.
    pub open spec fn attached_to(complaint_id: i32) -> spec_fn(ComplaintImageView) -> bool {
        |i: ComplaintImageView| i.complaint_id == complaint_id
    }

    /// Whether a location lies in `country`.
    pub open spec fn lying_in(country: Country) -> spec_fn(LocationView) -> bool {
        |l: LocationView| l.country == country
    }

    /// The pictures of driver `driver_id`, in ascending order of
    /// identifier.
    pub open spec fn images_of_driver(self, driver_id: i32) -> Seq<DriverImageView> {
        self.driver_images.filter(Self::showing(driver_id))
    }

    /// The published complaints against driver `driver_id`, in ascending
    /// order of identifier.
    pub open spec fn published_complaints_of(self, driver_id: i32) -> Seq<ComplaintView> {
        self.complaints.filter(Self::published_against(driver_id))
    }

    /// The pictures of complaint `complaint_id`, in ascending order of
    /// identifier.
    pub open spec fn images_of_complaint(self, complaint_id: i32) -> Seq<ComplaintImageView> {
        self.complaint_images.filter(Self::attached_to(complaint_id))
    }

    /// Whether a search for `query` finds driver `d`: the query occurs in
    /// the name or in the plate, letters compared without regard to case,
    /// and some published complaint is against the driver.
    pub open spec fn search_finds(self, d: DriverView, query: Seq<char>) -> bool {
        &&& occurs_ignoring_case(query, d.name) || occurs_ignoring_case(query, d.license_plate)
        &&& self.has_published_complaint(d.id)
    }

    /// Whether a search for `query` finds a driver.
    pub open spec fn found_by(self, query: Seq<char>) -> spec_fn(DriverView) -> bool {
        |d: DriverView| self.search_finds(d, query)
    }

    /// The drivers that a search for `query` finds, in order of name;
    /// drivers of one name stand in ascending order of identifier.
    pub open spec fn search_hits(self, query: Seq<char>) -> Seq<DriverView> {
        order_by(self.drivers.filter(self.found_by(query)), by_name())
    }

    /// The locations of `country`, in order of state; locations of one
    /// state stand in ascending order of identifier.
    pub open spec fn locations_in(self, country: Country) -> Seq<LocationView> {
        order_by(self.locations.filter(Self::lying_in(country)), by_country_and_state())
    }

    /// Every location, in order of country and state.
    pub open spec fn locations_listed(self) -> Seq<LocationView> {
        order_by(self.locations, by_country_and_state())
    }
}

/// Whether `e` may come from a lookup by identifier: an entity can be
/// reported absent only when it is absent, and any lookup may fail in the
/// store.
pub open spec fn lookup_failure(e: ApiError, absent: bool) -> bool {
    match e {
        ApiError::NotFound(_) => absent,
        ApiError::DataStoreError(_) => true,
        ApiError::StorageError(_) => false,
    }
}

impl StoreModel {
    /// Whether `after` is this store with the driver `made` added, where
    /// `made` is `given` under a new identifier.
    pub open spec fn driver_created(
        self,
        after: StoreModel,
        given: DriverView,
        made: DriverView,
    ) -> bool {
        &&& made == (DriverView { id: made.id, ..given })
        &&& unused(self.drivers, made.id)
        &&& after == (StoreModel { drivers: self.drivers.push(made), ..self })
    }

    /// Whether `after` is this store with the driver of `given.id`
    /// replaced by `given`.
    pub open spec fn driver_updated(self, after: StoreModel, given: DriverView) -> bool {
        &&& holds(self.drivers, given.id)
        &&& after == (StoreModel {
            drivers: self.drivers.update(position(self.drivers, given.id), given),
            ..self
        })
    }

    /// Whether `after` is this store without the driver `id`.
    pub open spec fn driver_deleted(self, after: StoreModel, id: i32) -> bool {
        after == (StoreModel { drivers: without(self.drivers, id), ..self })
    }

    /// Whether `after` is this store with the picture `made` added, where
    /// `made` is `given` under a new identifier and shows a driver that
    /// the store holds.
    pub open spec fn driver_image_added(
        self,
        after: StoreModel,
        given: DriverImageView,
        made: DriverImageView,
    ) -> bool {
        &&& made == (DriverImageView { id: made.id, ..given })
        &&& unused(self.driver_images, made.id)
        &&& holds(self.drivers, given.driver_id)
        &&& after == (StoreModel { driver_images: self.driver_images.push(made), ..self })
    }

    /// Whether `after` is this store without the driver picture `id`.
    pub open spec fn driver_image_deleted(self, after: StoreModel, id: i32) -> bool {
        after == (StoreModel { driver_images: without(self.driver_images, id), ..self })
    }

    /// Whether `after` is this store with the complaint `made` added,
    /// where `made` is `given` under a new identifier and unpublished, and
    /// names a driver and a location that the store holds.
    pub open spec fn complaint_created(
        self,
        after: StoreModel,
        given: ComplaintView,
        made: ComplaintView,
    ) -> bool {
        &&& made == (ComplaintView { id: made.id, published: false, ..given })
        &&& unused(self.complaints, made.id)
        &&& holds(self.drivers, given.driver_id)
        &&& holds(self.locations, given.location_id)
        &&& after == (StoreModel { complaints: self.complaints.push(made), ..self })
    }

    /// The complaint that an update by `given` leaves in the place of
    /// `stored`: driver, location, application and description come from
    /// `given`, the rest stays.
    pub open spec fn revised(stored: ComplaintView, given: ComplaintView) -> ComplaintView {
        ComplaintView {
            driver_id: given.driver_id,
            location_id: given.location_id,
            taxi_application: given.taxi_application,
            description: given.description,
            ..stored
        }
    }

    /// Whether `after` is this store with the complaint of `given.id`
    /// revised by `given` into `made`, which names a driver and a location
    /// that the store holds.
    pub open spec fn complaint_updated(
        self,
        after: StoreModel,
        given: ComplaintView,
        made: ComplaintView,
    ) -> bool {
        &&& holds(self.complaints, given.id)
        &&& holds(self.drivers, given.driver_id)
        &&& holds(self.locations, given.location_id)
        &&& made == Self::revised(self.complaints[position(self.complaints, given.id)], given)
        &&& after == (StoreModel {
            complaints: self.complaints.update(position(self.complaints, given.id), made),
            ..self
        })
    }

    /// Whether `after` is this store without the complaint `id`.
    pub open spec fn complaint_deleted(self, after: StoreModel, id: i32) -> bool {
        after == (StoreModel { complaints: without(self.complaints, id), ..self })
    }

    /// Whether `after` is this store with the picture `made` added, where
    /// `made` is `given` under a new identifier and belongs to a complaint
    /// that the store holds.
    pub open spec fn complaint_image_added(
        self,
        after: StoreModel,
        given: ComplaintImageView,
        made: ComplaintImageView,
    ) -> bool {
        &&& made == (ComplaintImageView { id: made.id, ..given })
        &&& unused(self.complaint_images, made.id)
        &&& holds(self.complaints, given.complaint_id)
        &&& after == (StoreModel { complaint_images: self.complaint_images.push(made), ..self })
    }

    /// Whether `after` is this store without the complaint picture `id`.
    pub open spec fn complaint_image_deleted(self, after: StoreModel, id: i32) -> bool {
        after == (StoreModel { complaint_images: without(self.complaint_images, id), ..self })
    }
}

} // verus!
