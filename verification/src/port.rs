//! The two capabilities that the registry needs from its surroundings: a
//! store of records and a store of picture files.

use vstd::prelude::*;
use crate::error::ApiError;
use crate::model::{Complaint, ComplaintImage, Country, Driver, DriverImage, Location};
use crate::pagination::{page_of, PaginatedRecord, Pagination};
use crate::store::{has_room, holds, lookup_failure, next_in, StoreModel};
use crate::text::occurs_in;

verus! {

/// The persistence port: drivers, complaints, their pictures, and
/// locations.
///
/// The store is well formed before and after every operation. An
/// operation that fails leaves the store as it was. Only a lookup of one
/// entity reports `NotFound`; every other failure of the port is a
/// `DataStoreError`. A listing of page 0 has a negative offset, which the
/// store refuses.
///
/// A store may fail at any time, as one across a network does. Of a store
/// that [answers](DBRepository::answers) more is known: it fails only
/// where the request cannot be met, and it gives out identifiers one
/// after the other.
pub trait DBRepository: Sized {
    /// What the store holds. A store says so itself; of one that does not,
    /// this is some model that meets the contracts below.
    open spec fn view(&self) -> StoreModel {
        arbitrary()
    }

    /// Whether the store answers every request that can be met. Nothing
    /// of the kind is known of a store that does not say so itself.
    open spec fn answers(&self) -> bool {
        false
    }

    /// Stores `driver` under a new identifier and returns the stored
    /// record.
    fn create_driver(&mut self, driver: &Driver) -> (r: Result<Driver, ApiError>)
        ensures
            old(self)@.well_formed(),
            final(self)@.well_formed(),
            final(self).answers() == old(self).answers(),
            old(self).answers() ==> (r is Ok <==> has_room(old(self)@.drivers)),
            match r {
                Ok(made) => {
                    &&& old(self)@.driver_created(final(self)@, driver@, made@)
                    &&& old(self).answers() ==> made.id == next_in(old(self)@.drivers)
                },
                Err(e) => final(self)@ == old(self)@ && e is DataStoreError,
            },
    ;

    /// The driver with identifier `id`.
    fn get_driver_by_id(&self, id: i32) -> (r: Result<Driver, ApiError>)
        ensures
            self@.well_formed(),
            self.answers() ==> (r is Ok <==> holds(self@.drivers, id)),
            match r {
                Ok(d) => self@.drivers.contains(d@) && d.id == id,
                Err(e) => {
                    &&& lookup_failure(e, !holds(self@.drivers, id))
                    &&& self.answers() ==> e is NotFound
                },
            },
    ;

    /// A driver with this name and this plate.
    fn get_driver_by_name_and_license_plate(&self, name: &str, license_plate: &str) -> (r: Result<
        Driver,
        ApiError,
    >)
        ensures
            self@.well_formed(),
            self.answers() ==> (r is Ok <==> self@.has_driver_named(name@, license_plate@)),
            match r {
                Ok(d) => self@.drivers.contains(d@) && d.name@ == name@ && d.license_plate@
                    == license_plate@,
                Err(e) => {
                    &&& lookup_failure(e, !self@.has_driver_named(name@, license_plate@))
                    &&& self.answers() ==> e is NotFound
                },
            },
    ;

    /// A driver with this plate.
    fn get_driver_by_license_plate(&self, license_plate: &str) -> (r: Result<Driver, ApiError>)
        ensures
            self@.well_formed(),
            self.answers() ==> (r is Ok <==> self@.has_driver_with_plate(license_plate@)),
            match r {
                Ok(d) => self@.drivers.contains(d@) && d.license_plate@ == license_plate@,
                Err(e) => {
                    &&& lookup_failure(e, !self@.has_driver_with_plate(license_plate@))
                    &&& self.answers() ==> e is NotFound
                },
            },
    ;

    /// Replaces the stored driver that has the identifier of `driver`.
    fn update_driver(&mut self, driver: &Driver) -> (r: Result<Driver, ApiError>)
        ensures
            old(self)@.well_formed(),
            final(self)@.well_formed(),
            final(self).answers() == old(self).answers(),
            old(self).answers() ==> (r is Ok <==> holds(old(self)@.drivers, driver.id)),
            match r {
                Ok(made) => made@ == driver@ && old(self)@.driver_updated(final(self)@, driver@),
                Err(e) => final(self)@ == old(self)@ && e is DataStoreError,
            },
    ;

    /// Removes the driver `id` if the store holds it.
    fn delete_driver(&mut self, id: i32) -> (r: Result<(), ApiError>)
        ensures
            old(self)@.well_formed(),
            final(self)@.well_formed(),
            final(self).answers() == old(self).answers(),
            old(self).answers() ==> r is Ok,
            match r {
                Ok(_) => old(self)@.driver_deleted(final(self)@, id),
                Err(e) => final(self)@ == old(self)@ && e is DataStoreError,
            },
    ;

    /// One page of the drivers that a search for `query` finds, with the
    /// number of all that it finds.
    fn search_drivers(&self, query: &str, pagination: &Pagination) -> (r: Result<
        PaginatedRecord<Driver>,
        ApiError,
    >)
        ensures
            self@.well_formed(),
            self.answers() ==> (r is Ok <==> pagination.page >= 1),
            match r {
                Ok(p) => pagination.page >= 1 && p@ == page_of(
                    self@.search_hits(query@),
                    *pagination,
                ),
                Err(e) => e is DataStoreError,
            },
    ;

    /// Stores `driver_image` under a new identifier and returns the
    /// stored record.
    fn add_driver_image(&mut self, driver_image: &DriverImage) -> (r: Result<DriverImage, ApiError>)
        ensures
            old(self)@.well_formed(),
            final(self)@.well_formed(),
            final(self).answers() == old(self).answers(),
            old(self).answers() ==> (r is Ok <==> {
                &&& holds(old(self)@.drivers, driver_image.driver_id)
                &&& has_room(old(self)@.driver_images)
            }),
            match r {
                Ok(made) => {
                    &&& old(self)@.driver_image_added(final(self)@, driver_image@, made@)
                    &&& old(self).answers() ==> made.id == next_in(old(self)@.driver_images)
                },
                Err(e) => final(self)@ == old(self)@ && e is DataStoreError,
            },
    ;

    /// One page of the pictures of driver `driver_id`, with the number of
    /// all of them.
    fn get_driver_images(&self, driver_id: i32, pagination: &Pagination) -> (r: Result<
        PaginatedRecord<DriverImage>,
        ApiError,
    >)
        ensures
            self@.well_formed(),
            self.answers() ==> (r is Ok <==> pagination.page >= 1),
            match r {
                Ok(p) => pagination.page >= 1 && p@ == page_of(
                    self@.images_of_driver(driver_id),
                    *pagination,
                ),
                Err(e) => e is DataStoreError,
            },
    ;

    /// Removes the driver picture `id` if the store holds it.
    fn delete_driver_image(&mut self, id: i32) -> (r: Result<(), ApiError>)
        ensures
            old(self)@.well_formed(),
            final(self)@.well_formed(),
            final(self).answers() == old(self).answers(),
            old(self).answers() ==> r is Ok,
            match r {
                Ok(_) => old(self)@.driver_image_deleted(final(self)@, id),
                Err(e) => final(self)@ == old(self)@ && e is DataStoreError,
            },
    ;

    /// Stores `complaint`, unpublished, under a new identifier and returns
    /// the stored record.
    fn create_complaint(&mut self, complaint: &Complaint) -> (r: Result<Complaint, ApiError>)
        ensures
            old(self)@.well_formed(),
            final(self)@.well_formed(),
            final(self).answers() == old(self).answers(),
            old(self).answers() ==> (r is Ok <==> {
                &&& holds(old(self)@.drivers, complaint.driver_id)
                &&& holds(old(self)@.locations, complaint.location_id)
                &&& has_room(old(self)@.complaints)
            }),
            match r {
                Ok(made) => {
                    &&& old(self)@.complaint_created(final(self)@, complaint@, made@)
                    &&& old(self).answers() ==> made.id == next_in(old(self)@.complaints)
                },
                Err(e) => final(self)@ == old(self)@ && e is DataStoreError,
            },
    ;

    /// The complaint with identifier `id`.
    fn get_complaint_by_id(&self, id: i32) -> (r: Result<Complaint, ApiError>)
        ensures
            self@.well_formed(),
            self.answers() ==> (r is Ok <==> holds(self@.complaints, id)),
            match r {
                Ok(c) => self@.complaints.contains(c@) && c.id == id,
                Err(e) => {
                    &&& lookup_failure(e, !holds(self@.complaints, id))
                    &&& self.answers() ==> e is NotFound
                },
            },
    ;

    /// Gives the stored complaint that has the identifier of `complaint`
    /// its driver, location, application and description.
    fn update_complaint(&mut self, complaint: &Complaint) -> (r: Result<Complaint, ApiError>)
        ensures
            old(self)@.well_formed(),
            final(self)@.well_formed(),
            final(self).answers() == old(self).answers(),
            old(self).answers() ==> (r is Ok <==> {
                &&& holds(old(self)@.complaints, complaint.id)
                &&& holds(old(self)@.drivers, complaint.driver_id)
                &&& holds(old(self)@.locations, complaint.location_id)
            }),
            match r {
                Ok(made) => old(self)@.complaint_updated(final(self)@, complaint@, made@),
                Err(e) => final(self)@ == old(self)@ && e is DataStoreError,
            },
    ;

    /// Removes the complaint `id` if the store holds it.
    fn delete_complaint(&mut self, id: i32) -> (r: Result<(), ApiError>)
        ensures
            old(self)@.well_formed(),
            final(self)@.well_formed(),
            final(self).answers() == old(self).answers(),
            old(self).answers() ==> r is Ok,
            match r {
                Ok(_) => old(self)@.complaint_deleted(final(self)@, id),
                Err(e) => final(self)@ == old(self)@ && e is DataStoreError,
            },
    ;

    /// One page of the published complaints against driver `driver_id`,
    /// with the number of all of them.
    fn get_complaints_for_driver(&self, driver_id: i32, pagination: &Pagination) -> (r: Result<
        PaginatedRecord<Complaint>,
        ApiError,
    >)
        ensures
            self@.well_formed(),
            self.answers() ==> (r is Ok <==> pagination.page >= 1),
            match r {
                Ok(p) => pagination.page >= 1 && p@ == page_of(
                    self@.published_complaints_of(driver_id),
                    *pagination,
                ),
                Err(e) => e is DataStoreError,
            },
    ;

    /// Stores `complaint_image` under a new identifier and returns the
    /// stored record.
    fn add_complaint_image(&mut self, complaint_image: &ComplaintImage) -> (r: Result<
        ComplaintImage,
        ApiError,
    >)
        ensures
            old(self)@.well_formed(),
            final(self)@.well_formed(),
            final(self).answers() == old(self).answers(),
            old(self).answers() ==> (r is Ok <==> {
                &&& holds(old(self)@.complaints, complaint_image.complaint_id)
                &&& has_room(old(self)@.complaint_images)
            }),
            match r {
                Ok(made) => {
                    &&& old(self)@.complaint_image_added(final(self)@, complaint_image@, made@)
                    &&& old(self).answers() ==> made.id == next_in(old(self)@.complaint_images)
                },
                Err(e) => final(self)@ == old(self)@ && e is DataStoreError,
            },
    ;

    /// One page of the pictures of complaint `complaint_id`, with the
    /// number of all of them.
    fn get_complaint_images(&self, complaint_id: i32, pagination: &Pagination) -> (r: Result<
        PaginatedRecord<ComplaintImage>,
        ApiError,
    >)
        ensures
            self@.well_formed(),
            self.answers() ==> (r is Ok <==> pagination.page >= 1),
            match r {
                Ok(p) => pagination.page >= 1 && p@ == page_of(
                    self@.images_of_complaint(complaint_id),
                    *pagination,
                ),
                Err(e) => e is DataStoreError,
            },
    ;

    /// Removes the complaint picture `id` if the store holds it.
    fn delete_complaint_image(&mut self, id: i32) -> (r: Result<(), ApiError>)
        ensures
            old(self)@.well_formed(),
            final(self)@.well_formed(),
            final(self).answers() == old(self).answers(),
            old(self).answers() ==> r is Ok,
            match r {
                Ok(_) => old(self)@.complaint_image_deleted(final(self)@, id),
                Err(e) => final(self)@ == old(self)@ && e is DataStoreError,
            },
    ;

    /// The location with identifier `id`.
    fn get_location_by_id(&self, id: i32) -> (r: Result<Location, ApiError>)
        ensures
            self@.well_formed(),
            self.answers() ==> (r is Ok <==> holds(self@.locations, id)),
            match r {
                Ok(l) => self@.locations.contains(l@) && l.id == id,
                Err(e) => {
                    &&& lookup_failure(e, !holds(self@.locations, id))
                    &&& self.answers() ==> e is NotFound
                },
            },
    ;

    /// One page of the locations of the country named `country`, with the
    /// number of all of them.
    fn get_locations_by_country(&self, country: &str, pagination: &Pagination) -> (r: Result<
        PaginatedRecord<Location>,
        ApiError,
    >)
        ensures
            self@.well_formed(),
            self.answers() ==> (r is Ok <==> pagination.page >= 1 && Country::named(
                country@,
            ) is Some),
            match r {
                Ok(p) => {
                    &&& pagination.page >= 1
                    &&& Country::named(country@) matches Some(c)
                    &&& p@ == page_of(self@.locations_in(c), *pagination)
                },
                Err(e) => e is DataStoreError,
            },
    ;

    /// One page of all locations, with the number of all of them.
    fn get_all_locations(&self, pagination: &Pagination) -> (r: Result<
        PaginatedRecord<Location>,
        ApiError,
    >)
        ensures
            self@.well_formed(),
            self.answers() ==> (r is Ok <==> pagination.page >= 1),
            match r {
                Ok(p) => pagination.page >= 1 && p@ == page_of(
                    self@.locations_listed(),
                    *pagination,
                ),
                Err(e) => e is DataStoreError,
            },
    ;
}

/// The storage port: it issues upload credentials for picture files and
/// deletes them. A storage may fail at any time; one that
/// [answers](BucketPort::answers) never fails.
pub trait BucketPort: Sized {
    /// The keys of the files that the storage holds. A storage says so
    /// itself; of one that does not, this is some set that meets the
    /// contracts below.
    open spec fn view(&self) -> Set<Seq<char>> {
        arbitrary()
    }

    /// Whether the storage answers every request. Nothing of the kind is
    /// known of a storage that does not say so itself.
    open spec fn answers(&self) -> bool {
        false
    }

    /// A credential with which the holder may upload a file under the key
    /// `file_name` for a limited time, and the address at which the file
    /// can be read once it is there. The address holds the key. No file
    /// needs to exist under the key.
    fn generate_upload_url(&self, file_name: &str) -> (r: Result<(String, String), ApiError>)
        ensures
            self.answers() ==> r is Ok,
            match r {
                Ok(urls) => occurs_in(file_name@, urls.1@),
                Err(e) => e is StorageError,
            },
    ;

    /// Deletes the file under the key `file_name`, if there is one.
    fn delete_image(&mut self, file_name: &str) -> (r: Result<(), ApiError>)
        ensures
            final(self).answers() == old(self).answers(),
            old(self).answers() ==> r is Ok,
            match r {
                Ok(_) => final(self)@ == old(self)@.remove(file_name@),
                Err(e) => final(self)@ == old(self)@ && e is StorageError,
            },
    ;
}

} // verus!
