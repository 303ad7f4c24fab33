//! The failures that the registry reports.

use vstd::prelude::*;

verus! {

/// Why an operation of the registry failed.
#[derive(Debug, PartialEq, Eq)]
pub enum ApiError {
    /// The entity asked for is absent; the text says which one.
    NotFound(String),
    /// The persistence port failed for any other reason.
    DataStoreError(String),
    /// The storage port failed.
    StorageError(String),
}

/// The mathematical value of an [`ApiError`].
pub enum ApiErrorView {
    NotFound(Seq<char>),
    DataStoreError(Seq<char>),
    StorageError(Seq<char>),
}

impl View for ApiError {
    type V = ApiErrorView;

    open spec fn view(&self) -> ApiErrorView {
        match *self {
            ApiError::NotFound(m) => ApiErrorView::NotFound(m@),
            ApiError::DataStoreError(m) => ApiErrorView::DataStoreError(m@),
            ApiError::StorageError(m) => ApiErrorView::StorageError(m@),
        }
    }
}

impl Clone for ApiError {
    fn clone(&self) -> (r: Self)
        ensures
            r == *self,
    {
        match self {
            ApiError::NotFound(m) => ApiError::NotFound(m.clone()),
            ApiError::DataStoreError(m) => ApiError::DataStoreError(m.clone()),
            ApiError::StorageError(m) => ApiError::StorageError(m.clone()),
        }
    }
}

impl ApiError {
    /// Whether this failure says that an entity is absent.
    pub fn is_not_found(&self) -> (r: bool)
        ensures
            r == (*self is NotFound),
    {
        match self {
            ApiError::NotFound(_) => true,
            _ => false,
        }
    }

    /// The HTTP status with which the failure is reported to a client:
    /// 404 for an absent entity, 500 for every failure inside.
    pub fn http_status(&self) -> (r: u16)
        ensures
            r == if *self is NotFound {
                404u16
            } else {
                500u16
            },
    {
        match self {
            ApiError::NotFound(_) => 404,
            _ => 500,
        }
    }

    /// The text that the failure carries.
    pub fn message(&self) -> (r: &str)
        ensures
            r@ == match *self {
                ApiError::NotFound(m) => m@,
                ApiError::DataStoreError(m) => m@,
                ApiError::StorageError(m) => m@,
            },
    {
        match self {
            ApiError::NotFound(m) => m.as_str(),
            ApiError::DataStoreError(m) => m.as_str(),
            ApiError::StorageError(m) => m.as_str(),
        }
    }
}

} // verus!
