//! The operations of the registry, carried out over the two ports.

use vstd::prelude::*;
use crate::clock::now_micros;
use crate::compose::{attach_details, attach_images, join_all};
use crate::error::ApiError;
use crate::ident::{
    driver_image_key, driver_image_key_text, is_identifier, new_identifier, upload_key,
    upload_key_text,
};
use crate::model::{
    Complaint, ComplaintImage, ComplaintImageView, ComplaintView, ComplaintWithImages,
    ComplaintWithImagesView, Driver, DriverImage, DriverImageView, DriverView, DriverWithDetails,
    DriverWithDetailsView, DriverWithImages, DriverWithImagesView, NewComplaint, NewComplaintView,
};
use crate::pagination::{page_of, views, PageView, PaginatedRecord, Pagination};
use crate::port::{BucketPort, DBRepository};
use crate::store::{
    has_room, holds, lookup_failure, named_among, next_in, room_for, unused, StoreModel,
};
use crate::text::occurs_in;

verus! {

/// What the search for the driver of a submission came to.
pub enum Intake {
    /// The store holds the driver.
    Existing(Driver),
    /// The store holds no such driver: one is to be created.
    Missing,
    /// The search failed.
    Failed(ApiError),
}

/// Reads the answer of the store to the search for the driver of a
/// submission. Only here is `NotFound` no failure: it asks for a new
/// driver.
pub fn interpret_lookup(lookup: Result<Driver, ApiError>) -> (r: Intake)
    ensures
        r == match lookup {
            Ok(d) => Intake::Existing(d),
            Err(ApiError::NotFound(_)) => Intake::Missing,
            Err(e) => Intake::Failed(e),
        },
{
    match lookup {
        Ok(d) => Intake::Existing(d),
        Err(ApiError::NotFound(_)) => Intake::Missing,
        Err(e) => Intake::Failed(e),
    }
}

/// Whether the drivers `after` are the drivers `before` once the driver
/// with this name and plate is resolved to `driver_id`: a driver that
/// `before` holds is kept, for want of one a driver is added.
pub open spec fn driver_resolved(
    before: Seq<DriverView>,
    after: Seq<DriverView>,
    name: Seq<char>,
    license_plate: Seq<char>,
    driver_id: i32,
) -> bool {
    let driver = DriverView { id: driver_id, name, license_plate };
    if named_among(before, name, license_plate) {
        after == before && before.contains(driver)
    } else {
        after == before.push(driver) && unused(before, driver_id)
    }
}

/// Whether `after` is `before` followed by one picture of driver `owner`
/// for each address of `urls`, in that order.
pub open spec fn driver_images_appended(
    before: Seq<DriverImageView>,
    after: Seq<DriverImageView>,
    owner: i32,
    urls: Seq<Seq<char>>,
) -> bool {
    &&& after.len() == before.len() + urls.len()
    &&& after.take(before.len() as int) == before
    &&& forall|j: int|
        before.len() <= j < after.len() ==> (#[trigger] after[j]).driver_id == owner
            && after[j].image_url == urls[j - before.len()]
}

/// Whether `after` is `before` followed by one picture of complaint
/// `owner` for each address of `urls`, in that order.
pub open spec fn complaint_images_appended(
    before: Seq<ComplaintImageView>,
    after: Seq<ComplaintImageView>,
    owner: i32,
    urls: Seq<Seq<char>>,
) -> bool {
    &&& after.len() == before.len() + urls.len()
    &&& after.take(before.len() as int) == before
    &&& forall|j: int|
        before.len() <= j < after.len() ==> (#[trigger] after[j]).complaint_id == owner
            && after[j].image_url == urls[j - before.len()]
}

/// The complaint that the submission `given`, received at `created_at`,
/// becomes in the store.
pub open spec fn complaint_filed(
    given: NewComplaintView,
    created_at: i64,
    driver_id: i32,
    id: i32,
) -> ComplaintView {
    ComplaintView {
        id,
        driver_id,
        location_id: given.location_id,
        taxi_application: given.taxi_application,
        description: given.description,
        created_at,
        published: false,
    }
}

/// Whether `after` is `before` once the driver of `given` is resolved to
/// `driver_id` and the pictures `pictures` of the driver are attached,
/// with no complaint filed yet.
pub open spec fn intake_done(
    before: StoreModel,
    after: StoreModel,
    given: NewComplaintView,
    driver_id: i32,
    pictures: Seq<Seq<char>>,
) -> bool {
    &&& driver_resolved(
        before.drivers,
        after.drivers,
        given.taxi_driver_name,
        given.taxi_license_plate,
        driver_id,
    )
    &&& driver_images_appended(before.driver_images, after.driver_images, driver_id, pictures)
    &&& after.complaints == before.complaints
    &&& after.complaint_images == before.complaint_images
    &&& after.locations == before.locations
}

/// Whether `after` is `before` once the submission `given`, received at
/// `created_at`, is filed as the complaint `made` and the first `attached`
/// of its pictures are attached. The store holds the location of the
/// complaint.
pub open spec fn filed(
    before: StoreModel,
    after: StoreModel,
    given: NewComplaintView,
    created_at: i64,
    made: ComplaintView,
    attached: int,
) -> bool {
    &&& 0 <= attached <= given.complaint_image_urls().len()
    &&& made == complaint_filed(given, created_at, made.driver_id, made.id)
    &&& driver_resolved(
        before.drivers,
        after.drivers,
        given.taxi_driver_name,
        given.taxi_license_plate,
        made.driver_id,
    )
    &&& driver_images_appended(
        before.driver_images,
        after.driver_images,
        made.driver_id,
        given.driver_image_urls(),
    )
    &&& holds(before.locations, given.location_id)
    &&& unused(before.complaints, made.id)
    &&& after.complaints == before.complaints.push(made)
    &&& complaint_images_appended(
        before.complaint_images,
        after.complaint_images,
        made.id,
        given.complaint_image_urls().take(attached),
    )
    &&& after.locations == before.locations
}

/// Whether `after` is `before` once the submission `given` is carried out
/// in full and `made` is the complaint that it filed.
pub open spec fn submitted(
    before: StoreModel,
    after: StoreModel,
    given: NewComplaintView,
    created_at: i64,
    made: ComplaintView,
) -> bool {
    filed(before, after, given, created_at, made, given.complaint_image_urls().len() as int)
}

/// Whether `store` can take the submission `given`: it holds the location,
/// and identifiers are left for the complaint, for each of its pictures,
/// for the picture of the driver if one is submitted, and for the driver
/// if the store does not hold them.
pub open spec fn can_submit(store: StoreModel, given: NewComplaintView) -> bool {
    &&& store.has_driver_named(given.taxi_driver_name, given.taxi_license_plate) || has_room(
        store.drivers,
    )
    &&& given.driver_image is Some ==> has_room(store.driver_images)
    &&& holds(store.locations, given.location_id)
    &&& has_room(store.complaints)
    &&& room_for(store.complaint_images, given.complaint_image_urls().len())
}

/// Whether the complaint `made` of the submission `given`, and its driver
/// if `store` did not hold them, have the identifiers that follow those
/// in `store`.
pub open spec fn numbered_in_turn(
    store: StoreModel,
    given: NewComplaintView,
    made: ComplaintView,
) -> bool {
    &&& made.id == next_in(store.complaints)
    &&& !store.has_driver_named(given.taxi_driver_name, given.taxi_license_plate)
        ==> made.driver_id == next_in(store.drivers)
}

/// Whether `after` is `before` once the submission `given` has failed at
/// some step. What the earlier steps stored stays: nothing was stored, or
/// the driver was resolved, or the picture of the driver was attached as
/// well, or the complaint was filed too and only some of its pictures are
/// missing.
pub open spec fn interrupted(
    before: StoreModel,
    after: StoreModel,
    given: NewComplaintView,
    created_at: i64,
) -> bool {
    ||| after == before
    ||| exists|driver_id: i32| #[trigger]
        intake_done(before, after, given, driver_id, Seq::empty())
    ||| exists|driver_id: i32| #[trigger]
        intake_done(before, after, given, driver_id, given.driver_image_urls())
    ||| exists|made: ComplaintView, attached: int|
        attached < given.complaint_image_urls().len() && #[trigger] filed(
            before,
            after,
            given,
            created_at,
            made,
            attached,
        )
}

/// The most pictures that come with the details of a driver or of a
/// complaint.
pub const DETAIL_IMAGE_LIMIT: u32 = 100;

/// The most pictures that come with each driver of a search.
pub const PREVIEW_IMAGE_LIMIT: u32 = 5;

/// The request for the first `limit` rows of a listing.
pub open spec fn first_rows(limit: u32) -> Pagination {
    Pagination { page: 1, per_page: limit }
}

/// The driver `d` with the first pictures that `store` holds of them.
pub open spec fn driver_with_images(store: StoreModel, d: DriverView) -> DriverWithImagesView {
    DriverWithImagesView {
        driver: d,
        images: page_of(store.images_of_driver(d.id), first_rows(PREVIEW_IMAGE_LIMIT)).items,
    }
}

/// The driver `d` with one page of the published complaints against them
/// and with the first pictures that `store` holds of them.
pub open spec fn driver_with_details(
    store: StoreModel,
    d: DriverView,
    complaints: Pagination,
) -> DriverWithDetailsView {
    DriverWithDetailsView {
        driver: d,
        complaints: page_of(store.published_complaints_of(d.id), complaints),
        images: page_of(store.images_of_driver(d.id), first_rows(DETAIL_IMAGE_LIMIT)).items,
    }
}

/// The complaint `c` with the first pictures that `store` holds of it.
pub open spec fn complaint_with_images(
    store: StoreModel,
    c: ComplaintView,
) -> ComplaintWithImagesView {
    ComplaintWithImagesView {
        complaint: c,
        images: page_of(store.images_of_complaint(c.id), first_rows(DETAIL_IMAGE_LIMIT)).items,
    }
}

/// One page of the drivers that a search for `query` finds in `store`,
/// each with their first pictures. The counts are those of the search.
pub open spec fn found_with_images(
    store: StoreModel,
    query: Seq<char>,
    pagination: Pagination,
) -> PageView<DriverWithImagesView> {
    let found = page_of(store.search_hits(query), pagination);
    PageView {
        items: found.items.map_values(|d: DriverView| driver_with_images(store, d)),
        total_items: found.total_items,
        page: found.page,
        per_page: found.per_page,
    }
}

/// One page of the drivers that a search for `query` finds in `store`,
/// each with a page of their complaints and their first pictures. The
/// counts are those of the search.
pub open spec fn found_with_details(
    store: StoreModel,
    query: Seq<char>,
    pagination: Pagination,
    complaints: Pagination,
) -> PageView<DriverWithDetailsView> {
    let found = page_of(store.search_hits(query), pagination);
    PageView {
        items: found.items.map_values(|d: DriverView| driver_with_details(store, d, complaints)),
        total_items: found.total_items,
        page: found.page,
        per_page: found.per_page,
    }
}

/// The registry: it holds the two ports and nothing else.
pub struct Service<D: DBRepository, B: BucketPort> {
    pub db_repo: D,
    pub bucket_repo: B,
}

impl<D: DBRepository, B: BucketPort> Service<D, B> {
    /// A registry over the two ports given.
    pub fn new(db_repo: D, bucket_repo: B) -> (r: Self)
        ensures
            r.db_repo == db_repo,
            r.bucket_repo == bucket_repo,
    {
        Self { db_repo, bucket_repo }
    }

    /// Files the complaint `new_complaint` with the present time as its
    /// time of filing.
    pub fn create_complaint(&mut self, new_complaint: NewComplaint) -> (r: Result<
        Complaint,
        ApiError,
    >)
        ensures
            final(self).bucket_repo == old(self).bucket_repo,
            final(self).db_repo.answers() == old(self).db_repo.answers(),
            old(self).db_repo@.well_formed(),
            final(self).db_repo@.well_formed(),
            !holds(old(self).db_repo@.locations, new_complaint.location_id) ==> r is Err,
            old(self).db_repo.answers() ==> (r is Ok <==> can_submit(
                old(self).db_repo@,
                new_complaint@,
            )),
            old(self).db_repo.answers() && r is Ok ==> numbered_in_turn(
                old(self).db_repo@,
                new_complaint@,
                r->Ok_0@,
            ),
            match r {
                Ok(made) => submitted(
                    old(self).db_repo@,
                    final(self).db_repo@,
                    new_complaint@,
                    made.created_at,
                    made@,
                ),
                Err(e) => e is DataStoreError && exists|created_at: i64| #[trigger]
                    interrupted(
                        old(self).db_repo@,
                        final(self).db_repo@,
                        new_complaint@,
                        created_at,
                    ),
            },
    {
        let created_at: i64 = now_micros();
        self.create_complaint_at(new_complaint, created_at)
    }

    /// Files the complaint `new_complaint` as received at `created_at`:
    /// resolves its driver, attaches the picture of the driver if there is
    /// one, stores the complaint, and attaches its pictures one by one.
    /// The first step that fails ends the operation with its failure, and
    /// what the steps before it stored stays.
    pub fn create_complaint_at(&mut self, new_complaint: NewComplaint, created_at: i64) -> (r:
        Result<Complaint, ApiError>)
        ensures
            final(self).bucket_repo == old(self).bucket_repo,
            final(self).db_repo.answers() == old(self).db_repo.answers(),
            old(self).db_repo@.well_formed(),
            final(self).db_repo@.well_formed(),
            !holds(old(self).db_repo@.locations, new_complaint.location_id) ==> r is Err,
            old(self).db_repo.answers() ==> (r is Ok <==> can_submit(
                old(self).db_repo@,
                new_complaint@,
            )),
            old(self).db_repo.answers() && r is Ok ==> numbered_in_turn(
                old(self).db_repo@,
                new_complaint@,
                r->Ok_0@,
            ),
            match r {
                Ok(made) => submitted(
                    old(self).db_repo@,
                    final(self).db_repo@,
                    new_complaint@,
                    created_at,
                    made@,
                ),
                Err(e) => e is DataStoreError && interrupted(
                    old(self).db_repo@,
                    final(self).db_repo@,
                    new_complaint@,
                    created_at,
                ),
            },
    {
        let ghost before = self.db_repo@;
        let ghost given = new_complaint@;
        let ghost sure = self.db_repo.answers();
        let driver = match self.get_or_create_driver(&new_complaint) {
            Ok(d) => d,
            Err(e) => {
                return Err(e);
            },
        };
        assert(intake_done(before, self.db_repo@, given, driver.id, Seq::empty())) by {
            assert(self.db_repo@.driver_images.take(before.driver_images.len() as int)
                == before.driver_images);
        }
        if let Some(url) = &new_complaint.driver_image {
            let picture = DriverImage::new(driver.id, url.as_str());
            match self.db_repo.add_driver_image(&picture) {
                Ok(_) => {},
                Err(e) => {
                    return Err(e);
                },
            }
            assert(self.db_repo@.driver_images.take(before.driver_images.len() as int)
                == before.driver_images);
        }
        assert(intake_done(before, self.db_repo@, given, driver.id, given.driver_image_urls()));
        let complaint = Complaint::new(
            driver.id,
            new_complaint.location_id,
            new_complaint.taxi_application.as_str(),
            new_complaint.description.as_str(),
            created_at,
        );
        let made = match self.db_repo.create_complaint(&complaint) {
            Ok(c) => c,
            Err(e) => {
                return Err(e);
            },
        };
        assert(filed(before, self.db_repo@, given, created_at, made@, 0)) by {
            assert(self.db_repo@.complaint_images.take(before.complaint_images.len() as int)
                == before.complaint_images);
        }
        if let Some(urls) = &new_complaint.complaint_images {
            let mut k: usize = 0;
            while k < urls.len()
                invariant
                    0 <= k <= urls.len(),
                    given.complaint_image_urls() == crate::model::texts(urls@),
                    before == old(self).db_repo@,
                    given == new_complaint@,
                    filed(before, self.db_repo@, given, created_at, made@, k as int),
                    self.bucket_repo == old(self).bucket_repo,
                    sure == old(self).db_repo.answers(),
                    sure == self.db_repo.answers(),
                    before.well_formed(),
                    self.db_repo@.well_formed(),
                    sure ==> can_submit(
                        before,
                        (NewComplaintView { complaint_images: None, ..given }),
                    ),
                    sure ==> numbered_in_turn(before, given, made@),
                    sure ==> room_for(before.complaint_images, k as nat),
                    sure ==> next_in(self.db_repo@.complaint_images) == next_in(
                        before.complaint_images,
                    ) + k,
                decreases urls.len() - k,
            {
                let ghost earlier = self.db_repo@;
                let picture = ComplaintImage::new(made.id, urls[k].as_str());
                assert(holds(earlier.complaints, made.id)) by {
                    assert(earlier.complaints[before.complaints.len() as int].id == made.id);
                }
                match self.db_repo.add_complaint_image(&picture) {
                    Ok(_) => {},
                    Err(e) => {
                        assert(sure ==> !room_for(
                            before.complaint_images,
                            given.complaint_image_urls().len(),
                        ));
                        return Err(e);
                    },
                }
                proof {
                    let now = self.db_repo@.complaint_images;
                    let start = before.complaint_images.len() as int;
                    assert(now.take(start) == before.complaint_images) by {
                        assert(now.take(start) =~= earlier.complaint_images.take(start));
                    }
                    assert(given.complaint_image_urls().take(k + 1)[k as int] == urls[k as int]@);
                }
                k += 1;
            }
            assert(given.complaint_image_urls().take(k as int) == given.complaint_image_urls());
        }
        Ok(made)
    }

    /// The driver of the submission: the one that the store holds under
    /// the name and plate given, or for want of one a new driver.
    fn get_or_create_driver(&mut self, new_complaint: &NewComplaint) -> (r: Result<
        Driver,
        ApiError,
    >)
        ensures
            final(self).bucket_repo == old(self).bucket_repo,
            final(self).db_repo.answers() == old(self).db_repo.answers(),
            old(self).db_repo@.well_formed(),
            final(self).db_repo@.well_formed(),
            old(self).db_repo.answers() ==> (r is Ok <==> old(self).db_repo@.has_driver_named(
                new_complaint.taxi_driver_name@,
                new_complaint.taxi_license_plate@,
            ) || has_room(old(self).db_repo@.drivers)),
            match r {
                Ok(d) => {
                    &&& holds(final(self).db_repo@.drivers, d.id)
                    &&& old(self).db_repo.answers() && !old(self).db_repo@.has_driver_named(
                        new_complaint.taxi_driver_name@,
                        new_complaint.taxi_license_plate@,
                    ) ==> d.id == next_in(old(self).db_repo@.drivers)
                    &&& d@ == (DriverView {
                        id: d.id,
                        name: new_complaint.taxi_driver_name@,
                        license_plate: new_complaint.taxi_license_plate@,
                    })
                    &&& driver_resolved(
                        old(self).db_repo@.drivers,
                        final(self).db_repo@.drivers,
                        new_complaint.taxi_driver_name@,
                        new_complaint.taxi_license_plate@,
                        d.id,
                    )
                    &&& final(self).db_repo@ == (StoreModel {
                        drivers: final(self).db_repo@.drivers,
                        ..old(self).db_repo@
                    })
                },
                Err(e) => e is DataStoreError && final(self).db_repo@ == old(self).db_repo@,
            },
    {
        let lookup = self.db_repo.get_driver_by_name_and_license_plate(
            new_complaint.taxi_driver_name.as_str(),
            new_complaint.taxi_license_plate.as_str(),
        );
        match interpret_lookup(lookup) {
            Intake::Existing(driver) => {
                proof {
                    let drivers = self.db_repo@.drivers;
                    let i = choose|i: int| 0 <= i < drivers.len() && drivers[i] == driver@;
                    assert(drivers[i].id == driver.id);
                }
                Ok(driver)
            },
            Intake::Missing => {
                let new_driver = Driver::new(
                    new_complaint.taxi_driver_name.as_str(),
                    new_complaint.taxi_license_plate.as_str(),
                );
                let created = self.db_repo.create_driver(&new_driver);
                proof {
                    if created is Ok {
                        let drivers = self.db_repo@.drivers;
                        assert(drivers[drivers.len() - 1].id == created->Ok_0.id);
                    }
                }
                created
            },
            Intake::Failed(e) => Err(e),
        }
    }

    /// The driver with identifier `driver_id`.
    pub fn get_driver(&self, driver_id: i32) -> (r: Result<Driver, ApiError>)
        ensures
            self.db_repo.answers() ==> (r is Ok <==> holds(self.db_repo@.drivers, driver_id)),
            match r {
                Ok(d) => self.db_repo@.drivers.contains(d@) && d.id == driver_id,
                Err(e) => {
                    &&& lookup_failure(e, !holds(self.db_repo@.drivers, driver_id))
                    &&& self.db_repo.answers() ==> e is NotFound
                },
            },
    {
        self.db_repo.get_driver_by_id(driver_id)
    }

    /// One page of the published complaints against driver `driver_id`.
    /// The driver is looked up first: where the store does not hold them,
    /// the operation fails and no complaint is asked for.
    pub fn get_driver_complaints(&self, driver_id: i32, pagination: &Pagination) -> (r: Result<
        PaginatedRecord<Complaint>,
        ApiError,
    >)
        ensures
            !holds(self.db_repo@.drivers, driver_id) ==> r is Err,
            self.db_repo.answers() ==> (r is Ok <==> holds(self.db_repo@.drivers, driver_id)
                && pagination.page >= 1),
            self.db_repo.answers() && !holds(self.db_repo@.drivers, driver_id) ==> r is Err
                && r->Err_0 is NotFound,
            match r {
                Ok(p) => pagination.page >= 1 && p@ == page_of(
                    self.db_repo@.published_complaints_of(driver_id),
                    *pagination,
                ),
                Err(e) => lookup_failure(e, !holds(self.db_repo@.drivers, driver_id)),
            },
    {
        match self.db_repo.get_driver_by_id(driver_id) {
            Ok(_) => {},
            Err(e) => {
                return Err(e);
            },
        }
        self.db_repo.get_complaints_for_driver(driver_id, pagination)
    }

    /// The driver `driver_id` with one page of the published complaints
    /// against them and their first pictures, at most
    /// [`DETAIL_IMAGE_LIMIT`]. A failure of any of the three lookups is
    /// the failure of the operation.
    pub fn get_driver_with_details(&self, driver_id: i32, pagination: &Pagination) -> (r: Result<
        DriverWithDetails,
        ApiError,
    >)
        ensures
            !holds(self.db_repo@.drivers, driver_id) ==> r is Err,
            self.db_repo.answers() ==> (r is Ok <==> holds(self.db_repo@.drivers, driver_id)
                && pagination.page >= 1),
            self.db_repo.answers() && !holds(self.db_repo@.drivers, driver_id) ==> r is Err
                && r->Err_0 is NotFound,
            match r {
                Ok(details) => {
                    &&& pagination.page >= 1
                    &&& self.db_repo@.drivers.contains(details.driver@)
                    &&& details.driver.id == driver_id
                    &&& details@ == driver_with_details(
                        self.db_repo@,
                        details.driver@,
                        *pagination,
                    )
                },
                Err(e) => lookup_failure(e, !holds(self.db_repo@.drivers, driver_id)),
            },
    {
        let driver = match self.db_repo.get_driver_by_id(driver_id) {
            Ok(d) => d,
            Err(e) => {
                return Err(e);
            },
        };
        let complaints = self.db_repo.get_complaints_for_driver(driver_id, pagination);
        let images = match complaints {
            Ok(_) => self.db_repo.get_driver_images(
                driver_id,
                &Pagination { page: 1, per_page: DETAIL_IMAGE_LIMIT },
            ),
            Err(e) => {
                return Err(e);
            },
        };
        attach_details(driver, complaints, images)
    }

    /// One page of the drivers that a search for `query` finds.
    pub fn search_drivers(&self, query: &str, pagination: &Pagination) -> (r: Result<
        PaginatedRecord<Driver>,
        ApiError,
    >)
        ensures
            self.db_repo.answers() ==> (r is Ok <==> pagination.page >= 1),
            match r {
                Ok(p) => pagination.page >= 1 && p@ == page_of(
                    self.db_repo@.search_hits(query@),
                    *pagination,
                ),
                Err(e) => e is DataStoreError,
            },
    {
        self.db_repo.search_drivers(query, pagination)
    }

    /// One page of the drivers that a search for `query` finds, each with
    /// their first pictures, at most [`PREVIEW_IMAGE_LIMIT`]. The pictures
    /// of every driver of the page are looked up, and one lookup that
    /// fails makes the whole operation fail: no part of the page is
    /// returned.
    pub fn search_drivers_with_images(&self, query: &str, pagination: &Pagination) -> (r: Result<
        PaginatedRecord<DriverWithImages>,
        ApiError,
    >)
        ensures
            self.db_repo.answers() ==> (r is Ok <==> pagination.page >= 1),
            match r {
                Ok(p) => pagination.page >= 1 && p@ == found_with_images(
                    self.db_repo@,
                    query@,
                    *pagination,
                ),
                Err(e) => e is DataStoreError,
            },
    {
        let drivers = match self.db_repo.search_drivers(query, pagination) {
            Ok(p) => p,
            Err(e) => {
                return Err(e);
            },
        };
        let ghost found = drivers@;
        let PaginatedRecord { items, total_items, page, per_page } = drivers;
        let preview = Pagination { page: 1, per_page: PREVIEW_IMAGE_LIMIT };
        let mut outcomes: Vec<Result<DriverWithImages, ApiError>> = Vec::new();
        for driver in it: items.into_iter()
            invariant
                it.seq() == items@,
                preview == first_rows(PREVIEW_IMAGE_LIMIT),
                outcomes@.len() == it.index(),
                forall|i: int|
                    0 <= i < it.index() ==> match #[trigger] outcomes@[i] {
                        Ok(w) => w@ == driver_with_images(self.db_repo@, items@[i]@),
                        Err(e) => e is DataStoreError && !self.db_repo.answers(),
                    },
        {
            let lookup = self.db_repo.get_driver_images(driver.id, &preview);
            outcomes.push(attach_images(driver, lookup));
        }
        match join_all(outcomes) {
            Ok(joined) => {
                let r = PaginatedRecord::new(joined, total_items, page, per_page);
                proof {
                    let wanted = found_with_images(self.db_repo@, query@, *pagination).items;
                    assert(found.items == views(items@));
                    assert(r@.items.len() == wanted.len());
                    assert forall|i: int| 0 <= i < wanted.len() implies r@.items[i] == wanted[i] by {
                        assert(outcomes@[i] == Ok::<DriverWithImages, ApiError>(joined@[i]));
                        assert(found.items[i] == items@[i]@);
                    }
                    assert(r@.items =~= wanted);
                }
                Ok(r)
            },
            Err(e) => Err(e),
        }
    }

    /// One page of the drivers that a search for `query` finds, each with
    /// the page `complaints_pagination` of the published complaints
    /// against them and their first pictures, at most
    /// [`DETAIL_IMAGE_LIMIT`]. One lookup that fails makes the whole
    /// operation fail: no part of the page is returned.
    pub fn search_drivers_with_details(
        &self,
        query: &str,
        pagination: &Pagination,
        complaints_pagination: &Pagination,
    ) -> (r: Result<PaginatedRecord<DriverWithDetails>, ApiError>)
        ensures
            self.db_repo.answers() ==> (r is Ok <==> pagination.page >= 1 && (page_of(
                self.db_repo@.search_hits(query@),
                *pagination,
            ).items.len() > 0 ==> complaints_pagination.page >= 1)),
            match r {
                Ok(p) => {
                    &&& pagination.page >= 1
                    &&& p.items@.len() > 0 ==> complaints_pagination.page >= 1
                    &&& p@ == found_with_details(
                        self.db_repo@,
                        query@,
                        *pagination,
                        *complaints_pagination,
                    )
                },
                Err(e) => e is DataStoreError,
            },
    {
        let drivers = match self.db_repo.search_drivers(query, pagination) {
            Ok(p) => p,
            Err(e) => {
                return Err(e);
            },
        };
        let ghost found = drivers@;
        let PaginatedRecord { items, total_items, page, per_page } = drivers;
        let first = Pagination { page: 1, per_page: DETAIL_IMAGE_LIMIT };
        let mut outcomes: Vec<Result<DriverWithDetails, ApiError>> = Vec::new();
        for driver in it: items.into_iter()
            invariant
                it.seq() == items@,
                first == first_rows(DETAIL_IMAGE_LIMIT),
                outcomes@.len() == it.index(),
                forall|i: int|
                    0 <= i < it.index() ==> match #[trigger] outcomes@[i] {
                        Ok(w) => complaints_pagination.page >= 1 && w@ == driver_with_details(
                            self.db_repo@,
                            items@[i]@,
                            *complaints_pagination,
                        ),
                        Err(e) => e is DataStoreError && (self.db_repo.answers()
                            ==> complaints_pagination.page == 0),
                    },
        {
            let complaints = self.db_repo.get_complaints_for_driver(
                driver.id,
                complaints_pagination,
            );
            let images = self.db_repo.get_driver_images(driver.id, &first);
            outcomes.push(attach_details(driver, complaints, images));
        }
        match join_all(outcomes) {
            Ok(joined) => {
                let r = PaginatedRecord::new(joined, total_items, page, per_page);
                proof {
                    let wanted = found_with_details(
                        self.db_repo@,
                        query@,
                        *pagination,
                        *complaints_pagination,
                    ).items;
                    assert(found.items == views(items@));
                    assert(r@.items.len() == wanted.len());
                    assert forall|i: int| 0 <= i < wanted.len() implies r@.items[i] == wanted[i] by {
                        assert(outcomes@[i] == Ok::<DriverWithDetails, ApiError>(joined@[i]));
                        assert(found.items[i] == items@[i]@);
                    }
                    assert(r@.items =~= wanted);
                    if r.items@.len() > 0 {
                        assert(outcomes@[0] is Ok);
                    }
                }
                Ok(r)
            },
            Err(e) => Err(e),
        }
    }

    /// The complaint `complaint_id` with its first pictures, at most
    /// [`DETAIL_IMAGE_LIMIT`].
    pub fn get_complaint_with_images(&self, complaint_id: i32) -> (r: Result<
        ComplaintWithImages,
        ApiError,
    >)
        ensures
            !holds(self.db_repo@.complaints, complaint_id) ==> r is Err,
            self.db_repo.answers() ==> (r is Ok <==> holds(self.db_repo@.complaints, complaint_id)),
            self.db_repo.answers() && r is Err ==> r->Err_0 is NotFound,
            match r {
                Ok(found) => {
                    &&& self.db_repo@.complaints.contains(found.complaint@)
                    &&& found.complaint.id == complaint_id
                    &&& found@ == complaint_with_images(self.db_repo@, found.complaint@)
                },
                Err(e) => lookup_failure(e, !holds(self.db_repo@.complaints, complaint_id)),
            },
    {
        let complaint = match self.db_repo.get_complaint_by_id(complaint_id) {
            Ok(c) => c,
            Err(e) => {
                return Err(e);
            },
        };
        let images = match self.db_repo.get_complaint_images(
            complaint_id,
            &Pagination { page: 1, per_page: DETAIL_IMAGE_LIMIT },
        ) {
            Ok(p) => p,
            Err(e) => {
                return Err(e);
            },
        };
        Ok(ComplaintWithImages { complaint, images: images.items })
    }

    /// A credential for uploading a new picture of driver `driver_id`, and
    /// the address at which the picture can then be read. The driver is
    /// looked up first; the key of the picture is
    /// `driver_images/driver_id/` followed by a new identifier.
    pub fn generate_driver_image_upload_url(&self, driver_id: i32) -> (r: Result<
        (String, String),
        ApiError,
    >)
        ensures
            !holds(self.db_repo@.drivers, driver_id) ==> r is Err,
            self.db_repo.answers() && self.bucket_repo.answers() ==> (r is Ok <==> holds(
                self.db_repo@.drivers,
                driver_id,
            )),
            match r {
                Ok(urls) => exists|id: Seq<char>|
                    is_identifier(id) && occurs_in(
                        #[trigger] driver_image_key_text(driver_id, id),
                        urls.1@,
                    ),
                Err(e) => e is StorageError || lookup_failure(
                    e,
                    !holds(self.db_repo@.drivers, driver_id),
                ),
            },
    {
        match self.db_repo.get_driver_by_id(driver_id) {
            Ok(_) => {},
            Err(e) => {
                return Err(e);
            },
        }
        let id = new_identifier();
        let file_name = driver_image_key(driver_id, id.as_str());
        self.bucket_repo.generate_upload_url(file_name.as_str())
    }

    /// A credential for uploading a new file below `prefix`, and the
    /// address at which the file can then be read. The key of the file is
    /// `prefix/` followed by a new identifier; whether a file is already
    /// there is not looked at.
    pub fn generate_image_upload_url(&self, prefix: &str) -> (r: Result<(String, String), ApiError>)
        ensures
            self.bucket_repo.answers() ==> r is Ok,
            match r {
                Ok(urls) => exists|id: Seq<char>|
                    is_identifier(id) && occurs_in(
                        #[trigger] upload_key_text(prefix@, id),
                        urls.1@,
                    ),
                Err(e) => e is StorageError,
            },
    {
        let id = new_identifier();
        let file_name = upload_key(prefix, id.as_str());
        self.bucket_repo.generate_upload_url(file_name.as_str())
    }
}

} // verus!
