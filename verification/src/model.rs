//! The records of the registry and their mathematical values.

use vstd::prelude::*;
use crate::pagination::{views, PageView, PaginatedRecord};
use crate::text::same_text;

verus! {

/// The text of each string of `v`, in order.
pub open spec fn texts(v: Seq<String>) -> Seq<Seq<char>> {
    v.map_values(|s: String| s@)
}

/// A country that the registry covers.
#[derive(Clone, Copy, Debug, PartialEq, Eq, Structural)]
pub enum Country {
    Peru,
    Mexico,
}

impl Country {
    /// The country that `name` names, if any.
    pub open spec fn named(name: Seq<char>) -> Option<Country> {
        if name == "peru"@ {
            Some(Country::Peru)
        } else if name == "mexico"@ {
            Some(Country::Mexico)
        } else {
            None
        }
    }

    /// The name of a country.
    pub open spec fn name_text(self) -> Seq<char> {
        match self {
            Country::Peru => "peru"@,
            Country::Mexico => "mexico"@,
        }
    }

    /// The country that `name` names, if any: names are written in small
    /// letters.
    pub fn from_name(name: &str) -> (r: Option<Country>)
        ensures
            r == Self::named(name@),
    {
        if same_text(name, "peru") {
            Some(Country::Peru)
        } else if same_text(name, "mexico") {
            Some(Country::Mexico)
        } else {
            None
        }
    }

    /// The name of this country, in small letters.
    pub fn name(&self) -> (r: &'static str)
        ensures
            r@ == self.name_text(),
            Self::named(r@) == Some(*self),
    {
        proof {
            reveal_strlit("peru");
            reveal_strlit("mexico");
            assert("peru"@.len() == 4 && "mexico"@.len() == 6);
        }
        match self {
            Country::Peru => "peru",
            Country::Mexico => "mexico",
        }
    }
}

/// A place where a complaint can be located. Locations are reference data:
/// the registry reads them and never writes them.
#[derive(Debug, PartialEq, Eq)]
pub struct Location {
    pub id: i32,
    pub country: Country,
    pub state: String,
}

/// The mathematical value of a [`Location`].
pub struct LocationView {
    pub id: i32,
    pub country: Country,
    pub state: Seq<char>,
}

impl View for Location {
    type V = LocationView;

    open spec fn view(&self) -> LocationView {
        LocationView { id: self.id, country: self.country, state: self.state@ }
    }
}

impl Clone for Location {
    fn clone(&self) -> (r: Self)
        ensures
            r == *self,
    {
        Location { id: self.id, country: self.country, state: self.state.clone() }
    }
}

/// A taxi driver. An `id` of 0 marks a record that no store holds yet.
#[derive(Debug, PartialEq, Eq)]
pub struct Driver {
    pub id: i32,
    pub name: String,
    pub license_plate: String,
}

/// The mathematical value of a [`Driver`].
pub struct DriverView {
    pub id: i32,
    pub name: Seq<char>,
    pub license_plate: Seq<char>,
}

impl View for Driver {
    type V = DriverView;

    open spec fn view(&self) -> DriverView {
        DriverView { id: self.id, name: self.name@, license_plate: self.license_plate@ }
    }
}

impl Clone for Driver {
    fn clone(&self) -> (r: Self)
        ensures
            r == *self,
    {
        Driver {
            id: self.id,
            name: self.name.clone(),
            license_plate: self.license_plate.clone(),
        }
    }
}

impl Driver {
    /// A driver that no store holds yet.
    pub fn new(name: &str, license_plate: &str) -> (r: Self)
        ensures
            r@ == (DriverView { id: 0, name: name@, license_plate: license_plate@ }),
    {
        Self { id: 0, name: name.to_owned(), license_plate: license_plate.to_owned() }
    }
}

/// A picture of a driver.
#[derive(Debug, PartialEq, Eq)]
pub struct DriverImage {
    pub id: i32,
    pub driver_id: i32,
    pub image_url: String,
}

/// The mathematical value of a [`DriverImage`].
pub struct DriverImageView {
    pub id: i32,
    pub driver_id: i32,
    pub image_url: Seq<char>,
}

impl View for DriverImage {
    type V = DriverImageView;

    open spec fn view(&self) -> DriverImageView {
        DriverImageView { id: self.id, driver_id: self.driver_id, image_url: self.image_url@ }
    }
}

impl Clone for DriverImage {
    fn clone(&self) -> (r: Self)
        ensures
            r == *self,
    {
        DriverImage { id: self.id, driver_id: self.driver_id, image_url: self.image_url.clone() }
    }
}

impl DriverImage {
    /// A picture of driver `driver_id` that no store holds yet.
    pub fn new(driver_id: i32, image_url: &str) -> (r: Self)
        ensures
            r@ == (DriverImageView { id: 0, driver_id, image_url: image_url@ }),
    {
        Self { id: 0, driver_id, image_url: image_url.to_owned() }
    }
}

/// A complaint against a driver. Listings and searches show it only once
/// it is published.
#[derive(Debug, PartialEq, Eq)]
pub struct Complaint {
    pub id: i32,
    pub driver_id: i32,
    pub location_id: i32,
    pub taxi_application: String,
    pub description: String,
    /// Microseconds since the Unix epoch at which the complaint was filed.
    pub created_at: i64,
    pub published: bool,
}

/// The mathematical value of a [`Complaint`].
pub struct ComplaintView {
    pub id: i32,
    pub driver_id: i32,
    pub location_id: i32,
    pub taxi_application: Seq<char>,
    pub description: Seq<char>,
    pub created_at: i64,
    pub published: bool,
}

impl View for Complaint {
    type V = ComplaintView;

    open spec fn view(&self) -> ComplaintView {
        ComplaintView {
            id: self.id,
            driver_id: self.driver_id,
            location_id: self.location_id,
            taxi_application: self.taxi_application@,
            description: self.description@,
            created_at: self.created_at,
            published: self.published,
        }
    }
}

impl Clone for Complaint {
    fn clone(&self) -> (r: Self)
        ensures
            r == *self,
    {
        Complaint {
            id: self.id,
            driver_id: self.driver_id,
            location_id: self.location_id,
            taxi_application: self.taxi_application.clone(),
            description: self.description.clone(),
            created_at: self.created_at,
            published: self.published,
        }
    }
}

impl Complaint {
    /// An unpublished complaint, filed at `created_at`, that no store holds
    /// yet.
    pub fn new(
        driver_id: i32,
        location_id: i32,
        taxi_application: &str,
        description: &str,
        created_at: i64,
    ) -> (r: Self)
        ensures
            r@ == (ComplaintView {
                id: 0,
                driver_id,
                location_id,
                taxi_application: taxi_application@,
                description: description@,
                created_at,
                published: false,
            }),
    {
        Self {
            id: 0,
            driver_id,
            location_id,
            taxi_application: taxi_application.to_owned(),
            description: description.to_owned(),
            created_at,
            published: false,
        }
    }
}

/// A picture attached to a complaint.
#[derive(Debug, PartialEq, Eq)]
pub struct ComplaintImage {
    pub id: i32,
    pub complaint_id: i32,
    pub image_url: String,
}

/// The mathematical value of a [`ComplaintImage`].
pub struct ComplaintImageView {
    pub id: i32,
    pub complaint_id: i32,
    pub image_url: Seq<char>,
}

impl View for ComplaintImage {
    type V = ComplaintImageView;

    open spec fn view(&self) -> ComplaintImageView {
        ComplaintImageView {
            id: self.id,
            complaint_id: self.complaint_id,
            image_url: self.image_url@,
        }
    }
}

impl Clone for ComplaintImage {
    fn clone(&self) -> (r: Self)
        ensures
            r == *self,
    {
        ComplaintImage {
            id: self.id,
            complaint_id: self.complaint_id,
            image_url: self.image_url.clone(),
        }
    }
}

impl ComplaintImage {
    /// A picture for complaint `complaint_id` that no store holds yet.
    pub fn new(complaint_id: i32, image_url: &str) -> (r: Self)
        ensures
            r@ == (ComplaintImageView { id: 0, complaint_id, image_url: image_url@ }),
    {
        Self { id: 0, complaint_id, image_url: image_url.to_owned() }
    }
}

/// A complaint as a submitter sends it.
#[derive(Clone, Debug, PartialEq, Eq)]
pub struct NewComplaint {
    pub description: String,
    pub taxi_driver_name: String,
    pub taxi_license_plate: String,
    pub location_id: i32,
    pub taxi_application: String,
    pub driver_image: Option<String>,
    pub complaint_images: Option<Vec<String>>,
}

/// The mathematical value of a [`NewComplaint`].
pub struct NewComplaintView {
    pub description: Seq<char>,
    pub taxi_driver_name: Seq<char>,
    pub taxi_license_plate: Seq<char>,
    pub location_id: i32,
    pub taxi_application: Seq<char>,
    pub driver_image: Option<Seq<char>>,
    pub complaint_images: Option<Seq<Seq<char>>>,
}

impl View for NewComplaint {
    type V = NewComplaintView;

    open spec fn view(&self) -> NewComplaintView {
        NewComplaintView {
            description: self.description@,
            taxi_driver_name: self.taxi_driver_name@,
            taxi_license_plate: self.taxi_license_plate@,
            location_id: self.location_id,
            taxi_application: self.taxi_application@,
            driver_image: match self.driver_image {
                Some(url) => Some(url@),
                None => None,
            },
            complaint_images: match self.complaint_images {
                Some(urls) => Some(texts(urls@)),
                None => None,
            },
        }
    }
}

impl NewComplaintView {
    /// The picture of the driver that comes with the submission: one or
    /// none.
    pub open spec fn driver_image_urls(self) -> Seq<Seq<char>> {
        match self.driver_image {
            Some(url) => seq![url],
            None => Seq::empty(),
        }
    }

    /// The pictures of the complaint that come with the submission, in
    /// the order given.
    pub open spec fn complaint_image_urls(self) -> Seq<Seq<char>> {
        match self.complaint_images {
            Some(urls) => urls,
            None => Seq::empty(),
        }
    }
}

/// A driver with one page of the published complaints against them and
/// their pictures.
#[derive(Clone, Debug, PartialEq, Eq)]
pub struct DriverWithDetails {
    pub driver: Driver,
    pub complaints: PaginatedRecord<Complaint>,
    pub images: Vec<DriverImage>,
}

/// The mathematical value of a [`DriverWithDetails`].
pub struct DriverWithDetailsView {
    pub driver: DriverView,
    pub complaints: PageView<ComplaintView>,
    pub images: Seq<DriverImageView>,
}

impl View for DriverWithDetails {
    type V = DriverWithDetailsView;

    open spec fn view(&self) -> DriverWithDetailsView {
        DriverWithDetailsView {
            driver: self.driver@,
            complaints: self.complaints@,
            images: views(self.images@),
        }
    }
}

/// A driver with some of their pictures.
#[derive(Clone, Debug, PartialEq, Eq)]
pub struct DriverWithImages {
    pub driver: Driver,
    pub images: Vec<DriverImage>,
}

/// The mathematical value of a [`DriverWithImages`].
pub struct DriverWithImagesView {
    pub driver: DriverView,
    pub images: Seq<DriverImageView>,
}

impl View for DriverWithImages {
    type V = DriverWithImagesView;

    open spec fn view(&self) -> DriverWithImagesView {
        DriverWithImagesView {
            driver: self.driver@,
            images: views(self.images@),
        }
    }
}

/// A complaint with its pictures.
#[derive(Clone, Debug, PartialEq, Eq)]
pub struct ComplaintWithImages {
    pub complaint: Complaint,
    pub images: Vec<ComplaintImage>,
}

/// The mathematical value of a [`ComplaintWithImages`].
pub struct ComplaintWithImagesView {
    pub complaint: ComplaintView,
    pub images: Seq<ComplaintImageView>,
}

impl View for ComplaintWithImages {
    type V = ComplaintWithImagesView;

    open spec fn view(&self) -> ComplaintWithImagesView {
        ComplaintWithImagesView {
            complaint: self.complaint@,
            images: views(self.images@),
        }
    }
}

} // verus!
