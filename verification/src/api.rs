//! The requests that reach the registry from outside, and what they mean
//! to it.

use vstd::prelude::*;
use crate::model::{texts, NewComplaint, NewComplaintView};
use crate::pagination::Pagination;

verus! {

/// The request to file a complaint.
#[derive(Clone, Debug, PartialEq, Eq)]
pub struct CreateComplaintRequest {
    pub description: String,
    pub taxi_driver_name: String,
    pub taxi_license_plate: String,
    pub location_id: i32,
    pub taxi_application: String,
    pub driver_image: Option<String>,
    pub complaint_images: Option<Vec<String>>,
}

impl CreateComplaintRequest {
    /// The submission that this request asks for: every field as it is.
    pub open spec fn submission(&self) -> NewComplaintView {
        NewComplaintView {
            description: self.description@,
            taxi_driver_name: self.taxi_driver_name@,
            taxi_license_plate: self.taxi_license_plate@,
            location_id: self.location_id,
            taxi_application: self.taxi_application@,
            driver_image: match self.driver_image {
                Some(url) => Some(url@),
                None => None,
            },
            complaint_images: match self.complaint_images {
                Some(urls) => Some(texts(urls@)),
                None => None,
            },
        }
    }

    /// The submission that this request asks for.
    pub fn into_new_complaint(self) -> (r: NewComplaint)
        ensures
            r@ == self.submission(),
    {
        NewComplaint {
            description: self.description,
            taxi_driver_name: self.taxi_driver_name,
            taxi_license_plate: self.taxi_license_plate,
            location_id: self.location_id,
            taxi_application: self.taxi_application,
            driver_image: self.driver_image,
            complaint_images: self.complaint_images,
        }
    }
}

/// The request to search for drivers.
#[derive(Clone, Debug, PartialEq, Eq)]
pub struct SearchDriversQuery {
    pub query: String,
    pub page: u32,
    pub per_page: u32,
}

impl SearchDriversQuery {
    /// The page of drivers that this request asks for.
    pub fn pagination(&self) -> (r: Pagination)
        ensures
            r == (Pagination { page: self.page, per_page: self.per_page }),
    {
        Pagination { page: self.page, per_page: self.per_page }
    }
}

/// The request for a credential to upload a file below a prefix.
#[derive(Clone, Debug, PartialEq, Eq)]
pub struct GenerateImageUploadUrlRequest {
    pub prefix: String,
}

/// The request to search for drivers with their complaints.
#[derive(Clone, Debug, PartialEq, Eq)]
pub struct SearchDriversWithDetailsQuery {
    pub query: String,
    pub page: u32,
    pub per_page: u32,
    pub complaints_page: u32,
    pub complaints_per_page: u32,
}

impl SearchDriversWithDetailsQuery {
    /// The page of drivers that this request asks for.
    pub fn pagination(&self) -> (r: Pagination)
        ensures
            r == (Pagination { page: self.page, per_page: self.per_page }),
    {
        Pagination { page: self.page, per_page: self.per_page }
    }

    /// The page of complaints that this request asks for with each
    /// driver.
    pub fn complaints_pagination(&self) -> (r: Pagination)
        ensures
            r == (Pagination { page: self.complaints_page, per_page: self.complaints_per_page }),
    {
        Pagination { page: self.complaints_page, per_page: self.complaints_per_page }
    }
}

/// The answer to a request for an upload credential.
#[derive(Clone, Debug, PartialEq, Eq)]
pub struct ImageUploadUrl {
    pub upload_url: String,
    pub public_url: String,
}

impl ImageUploadUrl {
    /// The answer made of the credential and the address that the
    /// registry returned, in that order.
    pub fn from_urls(urls: (String, String)) -> (r: Self)
        ensures
            r.upload_url == urls.0,
            r.public_url == urls.1,
    {
        ImageUploadUrl { upload_url: urls.0, public_url: urls.1 }
    }
}

} // verus!
