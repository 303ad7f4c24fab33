//! Putting the answers of several lookups together.

use vstd::prelude::*;
use crate::error::ApiError;
use crate::model::{Complaint, Driver, DriverImage, DriverWithDetails, DriverWithImages};
use crate::pagination::PaginatedRecord;

verus! {

/// Whether `outcomes[at]` is the first failure among `outcomes`.
pub open spec fn first_failure<T>(outcomes: Seq<Result<T, ApiError>>, at: int) -> bool {
    &&& 0 <= at < outcomes.len()
    &&& outcomes[at] is Err
    &&& forall|j: int| 0 <= j < at ==> (#[trigger] outcomes[j]) is Ok
}

/// The barrier at which the lookups of one operation meet: when each of
/// `outcomes` is a success the values come back in their order, and when
/// one is a failure nothing comes back but the first failure.
pub fn join_all<T>(outcomes: Vec<Result<T, ApiError>>) -> (r: Result<Vec<T>, ApiError>)
    ensures
        (exists|i: int| 0 <= i < outcomes@.len() && (#[trigger] outcomes@[i]) is Err) ==> r is Err,
        match r {
            Ok(values) => {
                &&& values@.len() == outcomes@.len()
                &&& forall|i: int|
                    0 <= i < outcomes@.len() ==> (#[trigger] outcomes@[i]) == Ok::<T, ApiError>(
                        values@[i],
                    )
            },
            Err(e) => exists|at: int| #[trigger]
                first_failure(outcomes@, at) && outcomes@[at] == Err::<T, ApiError>(e),
        },
{
    let mut values: Vec<T> = Vec::new();
    for outcome in it: outcomes.into_iter()
        invariant
            it.seq() == outcomes@,
            values@.len() == it.index(),
            forall|i: int|
                0 <= i < it.index() ==> (#[trigger] outcomes@[i]) == Ok::<T, ApiError>(values@[i]),
    {
        match outcome {
            Ok(v) => {
                values.push(v);
            },
            Err(e) => {
                assert(first_failure(outcomes@, it.index() as int));
                return Err(e);
            },
        }
    }
    Ok(values)
}

/// The driver with the pictures that the lookup found, or the failure of
/// the lookup.
pub fn attach_images(driver: Driver, lookup: Result<PaginatedRecord<DriverImage>, ApiError>) -> (r:
    Result<DriverWithImages, ApiError>)
    ensures
        r == match lookup {
            Ok(page) => Ok::<DriverWithImages, ApiError>(
                DriverWithImages { driver, images: page.items },
            ),
            Err(e) => Err(e),
        },
{
    match lookup {
        Ok(page) => Ok(DriverWithImages { driver, images: page.items }),
        Err(e) => Err(e),
    }
}

/// The driver with the complaints and the pictures that the two lookups
/// found, or the failure of the first lookup that failed.
pub fn attach_details(
    driver: Driver,
    complaints: Result<PaginatedRecord<Complaint>, ApiError>,
    images: Result<PaginatedRecord<DriverImage>, ApiError>,
) -> (r: Result<DriverWithDetails, ApiError>)
    ensures
        r == match complaints {
            Ok(found) => match images {
                Ok(page) => Ok::<DriverWithDetails, ApiError>(
                    DriverWithDetails { driver, complaints: found, images: page.items },
                ),
                Err(e) => Err(e),
            },
            Err(e) => Err(e),
        },
{
    match complaints {
        Ok(found) => match images {
            Ok(page) => Ok(DriverWithDetails { driver, complaints: found, images: page.items }),
            Err(e) => Err(e),
        },
        Err(e) => Err(e),
    }
}

} // verus!
