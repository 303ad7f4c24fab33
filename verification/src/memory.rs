//! Both ports held in memory: a store and a storage that answer every
//! request they can, for programs that run without a database and for
//! trying the registry out.

use vstd::prelude::*;
use vstd::string::StringExecFns;
use crate::error::{ApiError, ApiErrorView};
use crate::ident::{public_object_url, public_url_text, UPLOAD_VALIDITY_SECS};
use crate::model::{
    Complaint, ComplaintImage, ComplaintView, Country, Driver, DriverImage, DriverView, Location,
    LocationView,
};
use crate::pagination::{views, PaginatedRecord, Pagination};
use crate::port::{BucketPort, DBRepository};
use crate::store::{
    by_country_and_state, by_name, has_room, holds, next_in, order_by, position, StoreModel,
};
use crate::table::{
    appended, find, insert_in_order, lemma_filter_next, lemma_order_next,
    lemma_push_keeps_ascending, lemma_remove_keeps_ascending, lemma_update_keeps_ascending,
    negative_offset_text, next_id, page_from, replaced, shortened,
};
use crate::text::{contains_ignoring_case, decimal, decimal_text, joined, same_text};

verus! {

/// The text of the failure to find the entity of kind `kind` with
/// identifier `id`.
pub open spec fn absent_text(kind: Seq<char>, id: i32) -> Seq<char> {
    kind + " with id "@ + decimal_text(id as int) + " not found"@
}

/// The text of the failure to find a driver by name and plate.
pub open spec fn unknown_driver_text(name: Seq<char>, license_plate: Seq<char>) -> Seq<char> {
    "Driver "@ + name + " with license plate "@ + license_plate + " not found"@
}

/// The text of the failure to find a driver by plate.
pub open spec fn unknown_plate_text(license_plate: Seq<char>) -> Seq<char> {
    "Driver with license plate "@ + license_plate + " not found"@
}

/// The text of the failure to give a new row an identifier.
pub open spec fn exhausted_text() -> Seq<char> {
    "no identifier is left"@
}

/// The text of the failure to update a row that is not there.
pub open spec fn no_row_text() -> Seq<char> {
    "no row was updated"@
}

/// The text of the failure to store a row that refers to a missing one.
pub open spec fn dangling_text() -> Seq<char> {
    "the row refers to a row that is not there"@
}

/// The text of the failure to understand the name of a country.
pub open spec fn invalid_country_text() -> Seq<char> {
    "invalid input value for country"@
}

/// The failure to find the entity of kind `kind` with identifier `id`.
fn absent(kind: &str, id: i32) -> (e: ApiError)
    ensures
        e@ == ApiErrorView::NotFound(absent_text(kind@, id)),
{
    let mut text = joined(kind, " with id ", decimal(id).as_str());
    text.append(" not found");
    ApiError::NotFound(text)
}

/// A failure of the store with the text `text`.
fn refused(text: &str) -> (e: ApiError)
    ensures
        e@ == ApiErrorView::DataStoreError(text@),
{
    ApiError::DataStoreError(text.to_owned())
}

/// Whether `d` is the first of `drivers` with this name and this plate.
pub open spec fn first_named(
    drivers: Seq<DriverView>,
    d: DriverView,
    name: Seq<char>,
    license_plate: Seq<char>,
) -> bool {
    exists|i: int|
        0 <= i < drivers.len() && #[trigger] drivers[i] == d && d.name == name && d.license_plate
            == license_plate && forall|j: int|
            0 <= j < i ==> !((#[trigger] drivers[j]).name == name && drivers[j].license_plate
                == license_plate)
}

/// Whether `d` is the first of `drivers` with this plate.
pub open spec fn first_with_plate(
    drivers: Seq<DriverView>,
    d: DriverView,
    license_plate: Seq<char>,
) -> bool {
    exists|i: int|
        0 <= i < drivers.len() && #[trigger] drivers[i] == d && d.license_plate == license_plate
            && forall|j: int| 0 <= j < i ==> (#[trigger] drivers[j]).license_plate != license_plate
}

/// A persistence port that keeps its five tables in memory. It fails
/// only where a request cannot be met: no identifier is left, a row
/// refers to a missing row, the row to update is not there, the page is
/// page 0, or the country has no name like that.
///
/// A new row gets the identifier after that of the last row of its
/// table, so the identifier of a last row that was deleted is given
/// again. Deleting a row leaves the rows that refer to it where they
/// are.
pub struct MemoryRepository {
    drivers: Vec<Driver>,
    driver_images: Vec<DriverImage>,
    complaints: Vec<Complaint>,
    complaint_images: Vec<ComplaintImage>,
    locations: Vec<Location>,
}

impl MemoryRepository {
    #[verifier::type_invariant]
    spec fn well_kept(&self) -> bool {
        self.contents().well_formed()
    }

    /// What the tables hold.
    pub closed spec fn contents(&self) -> StoreModel {
        StoreModel {
            drivers: views(self.drivers@),
            driver_images: views(self.driver_images@),
            complaints: views(self.complaints@),
            complaint_images: views(self.complaint_images@),
            locations: views(self.locations@),
        }
    }

    /// A store with nothing in it.
    pub fn new() -> (r: Self)
        ensures
            r@ == (StoreModel {
                drivers: Seq::empty(),
                driver_images: Seq::empty(),
                complaints: Seq::empty(),
                complaint_images: Seq::empty(),
                locations: Seq::empty(),
            }),
    {
        let r = MemoryRepository {
            drivers: Vec::new(),
            driver_images: Vec::new(),
            complaints: Vec::new(),
            complaint_images: Vec::new(),
            locations: Vec::new(),
        };
        assert(r.contents().drivers =~= Seq::empty());
        assert(r.contents().driver_images =~= Seq::empty());
        assert(r.contents().complaints =~= Seq::empty());
        assert(r.contents().complaint_images =~= Seq::empty());
        assert(r.contents().locations =~= Seq::empty());
        r
    }

    /// Adds the location `state` of `country` to the reference data and
    /// returns it with its identifier.
    pub fn add_location(&mut self, country: Country, state: &str) -> (r: Result<Location, ApiError>)
        ensures
            old(self)@.well_formed(),
            final(self)@.well_formed(),
            match r {
                Ok(made) => {
                    &&& has_room(old(self)@.locations)
                    &&& made@ == (LocationView {
                        id: next_in(old(self)@.locations) as i32,
                        country,
                        state: state@,
                    })
                    &&& final(self)@ == (StoreModel {
                        locations: old(self)@.locations.push(made@),
                        ..old(self)@
                    })
                },
                Err(e) => {
                    &&& !has_room(old(self)@.locations)
                    &&& e@ == ApiErrorView::DataStoreError(exhausted_text())
                    &&& final(self)@ == old(self)@
                },
            },
    {
        proof {
            use_type_invariant(&*self);
        }
        match next_id(&self.locations) {
            Some(id) => {
                let made = Location { id, country, state: state.to_owned() };
                let copy = made.clone();
                proof {
                    lemma_push_keeps_ascending(self.contents().locations, made@);
                }
                let mut table: Vec<Location> = Vec::new();
                core::mem::swap(&mut self.locations, &mut table);
                self.locations = appended(table, made);
                Ok(copy)
            },
            None => Err(refused("no identifier is left")),
        }
    }

    /// Publishes the complaint `complaint_id`, or withdraws it from the
    /// public, and returns it as it then is.
    pub fn set_published(&mut self, complaint_id: i32, published: bool) -> (r: Result<
        Complaint,
        ApiError,
    >)
        ensures
            old(self)@.well_formed(),
            final(self)@.well_formed(),
            match r {
                Ok(made) => {
                    let at = position(old(self)@.complaints, complaint_id);
                    &&& holds(old(self)@.complaints, complaint_id)
                    &&& made@ == (ComplaintView { published, ..old(self)@.complaints[at] })
                    &&& final(self)@ == (StoreModel {
                        complaints: old(self)@.complaints.update(at, made@),
                        ..old(self)@
                    })
                },
                Err(e) => {
                    &&& !holds(old(self)@.complaints, complaint_id)
                    &&& e@ == ApiErrorView::NotFound(absent_text("Complaint"@, complaint_id))
                    &&& final(self)@ == old(self)@
                },
            },
    {
        proof {
            use_type_invariant(&*self);
        }
        match find(&self.complaints, complaint_id) {
            Some(at) => {
                let mut made = self.complaints[at].clone();
                made.published = published;
                let copy = made.clone();
                proof {
                    lemma_update_keeps_ascending(self.contents().complaints, at as int, made@);
                }
                let mut table: Vec<Complaint> = Vec::new();
                core::mem::swap(&mut self.complaints, &mut table);
                self.complaints = replaced(table, at, made);
                Ok(copy)
            },
            None => Err(absent("Complaint", complaint_id)),
        }
    }

    /// Whether some published complaint is against driver `driver_id`.
    fn has_published_complaint(&self, driver_id: i32) -> (r: bool)
        ensures
            r == self@.has_published_complaint(driver_id),
    {
        let mut k: usize = 0;
        while k < self.complaints.len()
            invariant
                0 <= k <= self.complaints@.len(),
                forall|j: int|
                    0 <= j < k ==> !((#[trigger] self.contents().complaints[j]).driver_id
                        == driver_id && self.contents().complaints[j].published),
            decreases self.complaints.len() - k,
        {
            if self.complaints[k].driver_id == driver_id && self.complaints[k].published {
                assert(self.contents().complaints[k as int].driver_id == driver_id);
                return true;
            }
            k += 1;
        }
        false
    }
}

impl DBRepository for MemoryRepository {
    closed spec fn view(&self) -> StoreModel {
        self.contents()
    }

    open spec fn answers(&self) -> bool {
        true
    }

    fn create_driver(&mut self, driver: &Driver) -> (r: Result<Driver, ApiError>)
        ensures
            r matches Err(e) ==> e@ == ApiErrorView::DataStoreError(exhausted_text()),
    {
        proof {
            use_type_invariant(&*self);
        }
        match next_id(&self.drivers) {
            Some(id) => {
                let made = Driver {
                    id,
                    name: driver.name.clone(),
                    license_plate: driver.license_plate.clone(),
                };
                let copy = made.clone();
                proof {
                    lemma_push_keeps_ascending(self.contents().drivers, made@);
                }
                let mut table: Vec<Driver> = Vec::new();
                core::mem::swap(&mut self.drivers, &mut table);
                self.drivers = appended(table, made);
                Ok(copy)
            },
            None => Err(refused("no identifier is left")),
        }
    }

    fn get_driver_by_id(&self, id: i32) -> (r: Result<Driver, ApiError>)
        ensures
            r matches Err(e) ==> e@ == ApiErrorView::NotFound(absent_text("Driver"@, id)),
    {
        proof {
            use_type_invariant(self);
        }
        match find(&self.drivers, id) {
            Some(at) => {
                assert(self.contents().drivers[at as int] == self.drivers@[at as int]@);
                Ok(self.drivers[at].clone())
            },
            None => Err(absent("Driver", id)),
        }
    }

    fn get_driver_by_name_and_license_plate(&self, name: &str, license_plate: &str) -> (r: Result<
        Driver,
        ApiError,
    >)
        ensures
            r matches Ok(d) ==> first_named(self@.drivers, d@, name@, license_plate@),
            r matches Err(e) ==> e@ == ApiErrorView::NotFound(
                unknown_driver_text(name@, license_plate@),
            ),
    {
        proof {
            use_type_invariant(self);
        }
        let mut i: usize = 0;
        while i < self.drivers.len()
            invariant
                self.contents().well_formed(),
                0 <= i <= self.drivers@.len(),
                forall|j: int|
                    0 <= j < i ==> !((#[trigger] self.contents().drivers[j]).name == name@
                        && self.contents().drivers[j].license_plate == license_plate@),
            decreases self.drivers.len() - i,
        {
            if same_text(self.drivers[i].name.as_str(), name) && same_text(
                self.drivers[i].license_plate.as_str(),
                license_plate,
            ) {
                let d = self.drivers[i].clone();
                assert(self.contents().drivers[i as int] == d@);
                return Ok(d);
            }
            i += 1;
        }
        let mut text = joined("Driver ", name, " with license plate ");
        text.append(license_plate);
        text.append(" not found");
        Err(ApiError::NotFound(text))
    }

    fn get_driver_by_license_plate(&self, license_plate: &str) -> (r: Result<Driver, ApiError>)
        ensures
            r matches Ok(d) ==> first_with_plate(self@.drivers, d@, license_plate@),
            r matches Err(e) ==> e@ == ApiErrorView::NotFound(unknown_plate_text(license_plate@)),
    {
        proof {
            use_type_invariant(self);
        }
        let mut i: usize = 0;
        while i < self.drivers.len()
            invariant
                self.contents().well_formed(),
                0 <= i <= self.drivers@.len(),
                forall|j: int|
                    0 <= j < i ==> (#[trigger] self.contents().drivers[j]).license_plate
                        != license_plate@,
            decreases self.drivers.len() - i,
        {
            if same_text(self.drivers[i].license_plate.as_str(), license_plate) {
                let d = self.drivers[i].clone();
                assert(self.contents().drivers[i as int] == d@);
                return Ok(d);
            }
            i += 1;
        }
        Err(ApiError::NotFound(joined("Driver with license plate ", license_plate, " not found")))
    }

    fn update_driver(&mut self, driver: &Driver) -> (r: Result<Driver, ApiError>)
        ensures
            r matches Err(e) ==> e@ == ApiErrorView::DataStoreError(no_row_text()),
    {
        proof {
            use_type_invariant(&*self);
        }
        match find(&self.drivers, driver.id) {
            Some(at) => {
                proof {
                    lemma_update_keeps_ascending(self.contents().drivers, at as int, driver@);
                }
                let mut table: Vec<Driver> = Vec::new();
                core::mem::swap(&mut self.drivers, &mut table);
                self.drivers = replaced(table, at, driver.clone());
                Ok(driver.clone())
            },
            None => Err(refused("no row was updated")),
        }
    }

    fn delete_driver(&mut self, id: i32) -> (r: Result<(), ApiError>)
    {
        proof {
            use_type_invariant(&*self);
        }
        match find(&self.drivers, id) {
            Some(at) => {
                proof {
                    lemma_remove_keeps_ascending(self.contents().drivers, at as int);
                }
                let mut table: Vec<Driver> = Vec::new();
                core::mem::swap(&mut self.drivers, &mut table);
                self.drivers = shortened(table, at);
            },
            None => {},
        }
        Ok(())
    }

    fn search_drivers(&self, query: &str, pagination: &Pagination) -> (r: Result<
        PaginatedRecord<Driver>,
        ApiError,
    >)
        ensures
            r matches Err(e) ==> e@ == ApiErrorView::DataStoreError(negative_offset_text()),
    {
        proof {
            use_type_invariant(self);
        }
        let ghost rows = self.contents().drivers;
        let ghost keep = self.contents().found_by(query@);
        let mut hits: Vec<Driver> = Vec::new();
        assert(rows.take(0).filter(keep) =~= Seq::empty());
        let mut i: usize = 0;
        while i < self.drivers.len()
            invariant
                rows == self.contents().drivers,
                keep == self.contents().found_by(query@),
                0 <= i <= self.drivers@.len(),
                views(hits@) == order_by(rows.take(i as int).filter(keep), by_name()),
            decreases self.drivers.len() - i,
        {
            let d = &self.drivers[i];
            let found = (contains_ignoring_case(d.name.as_str(), query) || contains_ignoring_case(
                d.license_plate.as_str(),
                query,
            )) && self.has_published_complaint(d.id);
            proof {
                assert(rows[i as int] == d@);
                lemma_filter_next(rows, i as int, keep);
                lemma_order_next(rows.take(i as int).filter(keep), d@, by_name());
            }
            if found {
                insert_in_order(&mut hits, d.clone());
            }
            i += 1;
        }
        assert(rows.take(i as int) =~= rows);
        page_from(hits, pagination)
    }

    fn add_driver_image(&mut self, driver_image: &DriverImage) -> (r: Result<DriverImage, ApiError>)
        ensures
            r matches Err(e) ==> e@ == ApiErrorView::DataStoreError(
                if holds(old(self)@.drivers, driver_image.driver_id) {
                    exhausted_text()
                } else {
                    dangling_text()
                },
            ),
    {
        proof {
            use_type_invariant(&*self);
        }
        if find(&self.drivers, driver_image.driver_id).is_none() {
            return Err(refused("the row refers to a row that is not there"));
        }
        match next_id(&self.driver_images) {
            Some(id) => {
                let made = DriverImage {
                    id,
                    driver_id: driver_image.driver_id,
                    image_url: driver_image.image_url.clone(),
                };
                let copy = made.clone();
                proof {
                    lemma_push_keeps_ascending(self.contents().driver_images, made@);
                }
                let mut table: Vec<DriverImage> = Vec::new();
                core::mem::swap(&mut self.driver_images, &mut table);
                self.driver_images = appended(table, made);
                Ok(copy)
            },
            None => Err(refused("no identifier is left")),
        }
    }

    fn get_driver_images(&self, driver_id: i32, pagination: &Pagination) -> (r: Result<
        PaginatedRecord<DriverImage>,
        ApiError,
    >)
        ensures
            r matches Err(e) ==> e@ == ApiErrorView::DataStoreError(negative_offset_text()),
    {
        proof {
            use_type_invariant(self);
        }
        let ghost rows = self.contents().driver_images;
        let ghost keep = StoreModel::showing(driver_id);
        let mut found: Vec<DriverImage> = Vec::new();
        assert(rows.take(0).filter(keep) =~= Seq::empty());
        let mut i: usize = 0;
        while i < self.driver_images.len()
            invariant
                rows == self.contents().driver_images,
                keep == StoreModel::showing(driver_id),
                0 <= i <= self.driver_images@.len(),
                views(found@) == rows.take(i as int).filter(keep),
            decreases self.driver_images.len() - i,
        {
            proof {
                assert(rows[i as int] == self.driver_images@[i as int]@);
                lemma_filter_next(rows, i as int, keep);
            }
            if self.driver_images[i].driver_id == driver_id {
                found = appended(found, self.driver_images[i].clone());
            }
            i += 1;
        }
        assert(rows.take(i as int) =~= rows);
        page_from(found, pagination)
    }

    fn delete_driver_image(&mut self, id: i32) -> (r: Result<(), ApiError>)
    {
        proof {
            use_type_invariant(&*self);
        }
        match find(&self.driver_images, id) {
            Some(at) => {
                proof {
                    lemma_remove_keeps_ascending(self.contents().driver_images, at as int);
                }
                let mut table: Vec<DriverImage> = Vec::new();
                core::mem::swap(&mut self.driver_images, &mut table);
                self.driver_images = shortened(table, at);
            },
            None => {},
        }
        Ok(())
    }

    fn create_complaint(&mut self, complaint: &Complaint) -> (r: Result<Complaint, ApiError>)
        ensures
            r matches Err(e) ==> e@ == ApiErrorView::DataStoreError(
                if holds(old(self)@.drivers, complaint.driver_id) && holds(
                    old(self)@.locations,
                    complaint.location_id,
                ) {
                    exhausted_text()
                } else {
                    dangling_text()
                },
            ),
    {
        proof {
            use_type_invariant(&*self);
        }
        if find(&self.drivers, complaint.driver_id).is_none() || find(
            &self.locations,
            complaint.location_id,
        ).is_none() {
            return Err(refused("the row refers to a row that is not there"));
        }
        match next_id(&self.complaints) {
            Some(id) => {
                let made = Complaint {
                    id,
                    driver_id: complaint.driver_id,
                    location_id: complaint.location_id,
                    taxi_application: complaint.taxi_application.clone(),
                    description: complaint.description.clone(),
                    created_at: complaint.created_at,
                    published: false,
                };
                let copy = made.clone();
                proof {
                    lemma_push_keeps_ascending(self.contents().complaints, made@);
                }
                let mut table: Vec<Complaint> = Vec::new();
                core::mem::swap(&mut self.complaints, &mut table);
                self.complaints = appended(table, made);
                Ok(copy)
            },
            None => Err(refused("no identifier is left")),
        }
    }

    fn get_complaint_by_id(&self, id: i32) -> (r: Result<Complaint, ApiError>)
        ensures
            r matches Err(e) ==> e@ == ApiErrorView::NotFound(absent_text("Complaint"@, id)),
    {
        proof {
            use_type_invariant(self);
        }
        match find(&self.complaints, id) {
            Some(at) => {
                assert(self.contents().complaints[at as int] == self.complaints@[at as int]@);
                Ok(self.complaints[at].clone())
            },
            None => Err(absent("Complaint", id)),
        }
    }

    fn update_complaint(&mut self, complaint: &Complaint) -> (r: Result<Complaint, ApiError>)
        ensures
            r matches Err(e) ==> e@ == ApiErrorView::DataStoreError(
                if holds(old(self)@.complaints, complaint.id) {
                    dangling_text()
                } else {
                    no_row_text()
                },
            ),
    {
        proof {
            use_type_invariant(&*self);
        }
        match find(&self.complaints, complaint.id) {
            Some(at) => {
                if find(&self.drivers, complaint.driver_id).is_none() || find(
                    &self.locations,
                    complaint.location_id,
                ).is_none() {
                    return Err(refused("the row refers to a row that is not there"));
                }
                let made = Complaint {
                    id: self.complaints[at].id,
                    driver_id: complaint.driver_id,
                    location_id: complaint.location_id,
                    taxi_application: complaint.taxi_application.clone(),
                    description: complaint.description.clone(),
                    created_at: self.complaints[at].created_at,
                    published: self.complaints[at].published,
                };
                let copy = made.clone();
                proof {
                    lemma_update_keeps_ascending(self.contents().complaints, at as int, made@);
                }
                let mut table: Vec<Complaint> = Vec::new();
                core::mem::swap(&mut self.complaints, &mut table);
                self.complaints = replaced(table, at, made);
                Ok(copy)
            },
            None => Err(refused("no row was updated")),
        }
    }

    fn delete_complaint(&mut self, id: i32) -> (r: Result<(), ApiError>)
    {
        proof {
            use_type_invariant(&*self);
        }
        match find(&self.complaints, id) {
            Some(at) => {
                proof {
                    lemma_remove_keeps_ascending(self.contents().complaints, at as int);
                }
                let mut table: Vec<Complaint> = Vec::new();
                core::mem::swap(&mut self.complaints, &mut table);
                self.complaints = shortened(table, at);
            },
            None => {},
        }
        Ok(())
    }

    fn get_complaints_for_driver(&self, driver_id: i32, pagination: &Pagination) -> (r: Result<
        PaginatedRecord<Complaint>,
        ApiError,
    >)
        ensures
            r matches Err(e) ==> e@ == ApiErrorView::DataStoreError(negative_offset_text()),
    {
        proof {
            use_type_invariant(self);
        }
        let ghost rows = self.contents().complaints;
        let ghost keep = StoreModel::published_against(driver_id);
        let mut found: Vec<Complaint> = Vec::new();
        assert(rows.take(0).filter(keep) =~= Seq::empty());
        let mut i: usize = 0;
        while i < self.complaints.len()
            invariant
                rows == self.contents().complaints,
                keep == StoreModel::published_against(driver_id),
                0 <= i <= self.complaints@.len(),
                views(found@) == rows.take(i as int).filter(keep),
            decreases self.complaints.len() - i,
        {
            proof {
                assert(rows[i as int] == self.complaints@[i as int]@);
                lemma_filter_next(rows, i as int, keep);
            }
            if self.complaints[i].driver_id == driver_id && self.complaints[i].published {
                found = appended(found, self.complaints[i].clone());
            }
            i += 1;
        }
        assert(rows.take(i as int) =~= rows);
        page_from(found, pagination)
    }

    fn add_complaint_image(&mut self, complaint_image: &ComplaintImage) -> (r: Result<
        ComplaintImage,
        ApiError,
    >)
        ensures
            r matches Err(e) ==> e@ == ApiErrorView::DataStoreError(
                if holds(old(self)@.complaints, complaint_image.complaint_id) {
                    exhausted_text()
                } else {
                    dangling_text()
                },
            ),
    {
        proof {
            use_type_invariant(&*self);
        }
        if find(&self.complaints, complaint_image.complaint_id).is_none() {
            return Err(refused("the row refers to a row that is not there"));
        }
        match next_id(&self.complaint_images) {
            Some(id) => {
                let made = ComplaintImage {
                    id,
                    complaint_id: complaint_image.complaint_id,
                    image_url: complaint_image.image_url.clone(),
                };
                let copy = made.clone();
                proof {
                    lemma_push_keeps_ascending(self.contents().complaint_images, made@);
                }
                let mut table: Vec<ComplaintImage> = Vec::new();
                core::mem::swap(&mut self.complaint_images, &mut table);
                self.complaint_images = appended(table, made);
                Ok(copy)
            },
            None => Err(refused("no identifier is left")),
        }
    }

    fn get_complaint_images(&self, complaint_id: i32, pagination: &Pagination) -> (r: Result<
        PaginatedRecord<ComplaintImage>,
        ApiError,
    >)
        ensures
            r matches Err(e) ==> e@ == ApiErrorView::DataStoreError(negative_offset_text()),
    {
        proof {
            use_type_invariant(self);
        }
        let ghost rows = self.contents().complaint_images;
        let ghost keep = StoreModel::attached_to(complaint_id);
        let mut found: Vec<ComplaintImage> = Vec::new();
        assert(rows.take(0).filter(keep) =~= Seq::empty());
        let mut i: usize = 0;
        while i < self.complaint_images.len()
            invariant
                rows == self.contents().complaint_images,
                keep == StoreModel::attached_to(complaint_id),
                0 <= i <= self.complaint_images@.len(),
                views(found@) == rows.take(i as int).filter(keep),
            decreases self.complaint_images.len() - i,
        {
            proof {
                assert(rows[i as int] == self.complaint_images@[i as int]@);
                lemma_filter_next(rows, i as int, keep);
            }
            if self.complaint_images[i].complaint_id == complaint_id {
                found = appended(found, self.complaint_images[i].clone());
            }
            i += 1;
        }
        assert(rows.take(i as int) =~= rows);
        page_from(found, pagination)
    }

    fn delete_complaint_image(&mut self, id: i32) -> (r: Result<(), ApiError>)
    {
        proof {
            use_type_invariant(&*self);
        }
        match find(&self.complaint_images, id) {
            Some(at) => {
                proof {
                    lemma_remove_keeps_ascending(self.contents().complaint_images, at as int);
                }
                let mut table: Vec<ComplaintImage> = Vec::new();
                core::mem::swap(&mut self.complaint_images, &mut table);
                self.complaint_images = shortened(table, at);
            },
            None => {},
        }
        Ok(())
    }

    fn get_location_by_id(&self, id: i32) -> (r: Result<Location, ApiError>)
        ensures
            r matches Err(e) ==> e@ == ApiErrorView::NotFound(absent_text("Location"@, id)),
    {
        proof {
            use_type_invariant(self);
        }
        match find(&self.locations, id) {
            Some(at) => {
                assert(self.contents().locations[at as int] == self.locations@[at as int]@);
                Ok(self.locations[at].clone())
            },
            None => Err(absent("Location", id)),
        }
    }

    fn get_locations_by_country(&self, country: &str, pagination: &Pagination) -> (r: Result<
        PaginatedRecord<Location>,
        ApiError,
    >)
        ensures
            r matches Err(e) ==> e@ == ApiErrorView::DataStoreError(
                if Country::named(country@) is Some {
                    negative_offset_text()
                } else {
                    invalid_country_text()
                },
            ),
    {
        proof {
            use_type_invariant(self);
        }
        let wanted = match Country::from_name(country) {
            Some(c) => c,
            None => {
                return Err(refused("invalid input value for country"));
            },
        };
        let ghost rows = self.contents().locations;
        let ghost keep = StoreModel::lying_in(wanted);
        let mut found: Vec<Location> = Vec::new();
        assert(rows.take(0).filter(keep) =~= Seq::empty());
        let mut i: usize = 0;
        while i < self.locations.len()
            invariant
                rows == self.contents().locations,
                keep == StoreModel::lying_in(wanted),
                0 <= i <= self.locations@.len(),
                views(found@) == order_by(
                    rows.take(i as int).filter(keep),
                    by_country_and_state(),
                ),
            decreases self.locations.len() - i,
        {
            let l = &self.locations[i];
            proof {
                assert(rows[i as int] == l@);
                lemma_filter_next(rows, i as int, keep);
                lemma_order_next(rows.take(i as int).filter(keep), l@, by_country_and_state());
            }
            if l.country == wanted {
                insert_in_order(&mut found, l.clone());
            }
            i += 1;
        }
        assert(rows.take(i as int) =~= rows);
        page_from(found, pagination)
    }

    fn get_all_locations(&self, pagination: &Pagination) -> (r: Result<
        PaginatedRecord<Location>,
        ApiError,
    >)
        ensures
            r matches Err(e) ==> e@ == ApiErrorView::DataStoreError(negative_offset_text()),
    {
        proof {
            use_type_invariant(self);
        }
        let ghost rows = self.contents().locations;
        let mut found: Vec<Location> = Vec::new();
        let mut i: usize = 0;
        while i < self.locations.len()
            invariant
                rows == self.contents().locations,
                0 <= i <= self.locations@.len(),
                views(found@) == order_by(rows.take(i as int), by_country_and_state()),
            decreases self.locations.len() - i,
        {
            let l = &self.locations[i];
            proof {
                assert(rows[i as int] == l@);
                assert(rows.take(i + 1) =~= rows.take(i as int).push(l@));
                lemma_order_next(rows.take(i as int), l@, by_country_and_state());
            }
            insert_in_order(&mut found, l.clone());
            i += 1;
        }
        assert(rows.take(i as int) =~= rows);
        page_from(found, pagination)
    }
}

/// The text that a credential of the storage in memory adds to the
/// address of the file.
pub open spec fn credential_text() -> Seq<char> {
    "?X-Amz-Expires="@ + decimal_text(UPLOAD_VALIDITY_SECS as int)
}

/// Whether one of `keys` is the key `k`.
pub open spec fn among(keys: Seq<String>, k: Seq<char>) -> bool {
    exists|j: int| 0 <= j < keys.len() && (#[trigger] keys[j])@ == k
}

/// A key is among the keys with one more if it was among them or is the
/// one more.
proof fn lemma_among_push(keys: Seq<String>, more: String, k: Seq<char>)
    ensures
        among(keys.push(more), k) <==> among(keys, k) || more@ == k,
{
    let longer = keys.push(more);
    if among(keys, k) {
        let j = choose|j: int| 0 <= j < keys.len() && (#[trigger] keys[j])@ == k;
        assert(longer[j]@ == k);
    }
    if more@ == k {
        assert(longer[keys.len() as int]@ == k);
    }
    if among(longer, k) {
        let j = choose|j: int| 0 <= j < longer.len() && (#[trigger] longer[j])@ == k;
        if j < keys.len() {
            assert(keys[j]@ == k);
        }
    }
}

/// A storage port that keeps the keys of its files in memory. It never
/// fails.
pub struct MemoryBucket {
    bucket: String,
    keys: Vec<String>,
}

impl MemoryBucket {
    /// The name of the bucket.
    pub closed spec fn bucket_name(&self) -> Seq<char> {
        self.bucket@
    }

    /// An empty storage for the bucket named `bucket`.
    pub fn new(bucket: &str) -> (r: Self)
        ensures
            r@ == Set::<Seq<char>>::empty(),
            r.bucket_name() == bucket@,
    {
        let r = MemoryBucket { bucket: bucket.to_owned(), keys: Vec::new() };
        assert(r@ =~= Set::<Seq<char>>::empty());
        r
    }

    /// Whether the storage holds a file under `key`.
    pub fn holds_file(&self, key: &str) -> (r: bool)
        ensures
            r == self@.contains(key@),
    {
        let mut i: usize = 0;
        while i < self.keys.len()
            invariant
                0 <= i <= self.keys@.len(),
                forall|j: int| 0 <= j < i ==> (#[trigger] self.keys@[j])@ != key@,
            decreases self.keys.len() - i,
        {
            if same_text(self.keys[i].as_str(), key) {
                return true;
            }
            i += 1;
        }
        false
    }

    /// Stores a file under `key`, as an upload does.
    pub fn put_file(&mut self, key: &str)
        ensures
            final(self)@ == old(self)@.insert(key@),
            final(self).bucket_name() == old(self).bucket_name(),
    {
        let added = key.to_owned();
        self.keys.push(added);
        assert forall|k: Seq<char>| self@.contains(k) <==> old(self)@.insert(key@).contains(k) by {
            lemma_among_push(old(self).keys@, added, k);
        }
        assert(self@ =~= old(self)@.insert(key@));
    }
}

impl BucketPort for MemoryBucket {
    closed spec fn view(&self) -> Set<Seq<char>> {
        Set::new(|k: Seq<char>| among(self.keys@, k))
    }

    open spec fn answers(&self) -> bool {
        true
    }

    fn generate_upload_url(&self, file_name: &str) -> (r: Result<(String, String), ApiError>)
        ensures
            r matches Ok(urls) && urls.1@ == public_url_text(self.bucket_name(), file_name@)
                && urls.0@ == urls.1@ + credential_text(),
    {
        let public = public_object_url(self.bucket.as_str(), file_name);
        let mut upload = public.clone();
        upload.append("?X-Amz-Expires=");
        upload.append(decimal(UPLOAD_VALIDITY_SECS as i32).as_str());
        assert(upload@ =~= public@ + credential_text());
        Ok((upload, public))
    }

    fn delete_image(&mut self, file_name: &str) -> (r: Result<(), ApiError>)
        ensures
            final(self).bucket_name() == old(self).bucket_name(),
    {
        let mut kept: Vec<String> = Vec::new();
        let mut i: usize = 0;
        assert(self.keys@.take(0) =~= Seq::empty());
        while i < self.keys.len()
            invariant
                0 <= i <= self.keys@.len(),
                forall|k: Seq<char>| #[trigger]
                    among(kept@, k) <==> k != file_name@ && among(self.keys@.take(i as int), k),
            decreases self.keys.len() - i,
        {
            let ghost before = kept@;
            let ghost seen = self.keys@.take(i as int);
            assert(self.keys@.take(i + 1) =~= seen.push(self.keys@[i as int]));
            if !same_text(self.keys[i].as_str(), file_name) {
                let copy = self.keys[i].clone();
                kept.push(copy);
                assert forall|k: Seq<char>| #[trigger]
                    among(kept@, k) <==> k != file_name@ && among(self.keys@.take(i + 1), k) by {
                    lemma_among_push(before, copy, k);
                    lemma_among_push(seen, self.keys@[i as int], k);
                }
            } else {
                assert forall|k: Seq<char>| #[trigger]
                    among(kept@, k) <==> k != file_name@ && among(self.keys@.take(i + 1), k) by {
                    lemma_among_push(seen, self.keys@[i as int], k);
                }
            }
            i += 1;
        }
        assert(self.keys@.take(i as int) =~= self.keys@);
        self.keys = kept;
        assert(final(self)@ =~= old(self)@.remove(file_name@));
        Ok(())
    }
}

} // verus!
