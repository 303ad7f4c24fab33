use taxi_complaints::api::{
    CreateComplaintRequest, ImageUploadUrl, SearchDriversQuery, SearchDriversWithDetailsQuery,
};
use taxi_complaints::compose::{attach_details, attach_images, join_all};
use taxi_complaints::error::ApiError;
use taxi_complaints::ident::{driver_image_key, public_object_url, upload_key, UPLOAD_VALIDITY_SECS};
use taxi_complaints::model::{Complaint, Driver, DriverImage, NewComplaint};
use taxi_complaints::pagination::{PaginatedRecord, Pagination};
use taxi_complaints::service::{interpret_lookup, Intake, DETAIL_IMAGE_LIMIT, PREVIEW_IMAGE_LIMIT};
use taxi_complaints::text::{
    chars_of, comes_no_later, contains_ignoring_case, decimal, folded, joined, like_pattern,
    same_text,
};

fn lost() -> ApiError {
    ApiError::DataStoreError("lost".to_string())
}

#[test]
fn join_all_returns_every_value_in_order() {
    let outcomes: Vec<Result<i32, ApiError>> = vec![Ok(3), Ok(1), Ok(2)];
    assert_eq!(join_all(outcomes), Ok(vec![3, 1, 2]));
    let none: Vec<Result<i32, ApiError>> = vec![];
    assert_eq!(join_all(none), Ok(vec![]));
}

#[test]
fn join_all_returns_the_first_failure_only() {
    let outcomes: Vec<Result<i32, ApiError>> =
        vec![Ok(3), Err(lost()), Ok(2), Err(ApiError::NotFound("x".to_string()))];
    assert_eq!(join_all(outcomes), Err(lost()));
    let last: Vec<Result<i32, ApiError>> = vec![Ok(3), Ok(2), Err(lost())];
    assert_eq!(join_all(last), Err(lost()));
}

#[test]
fn attach_images_keeps_the_items_of_the_page() {
    let driver = Driver { id: 4, name: "Ana".to_string(), license_plate: "A".to_string() };
    let image = DriverImage { id: 1, driver_id: 4, image_url: "u".to_string() };
    let page = PaginatedRecord::new(vec![image.clone()], 9, 1, 5);
    let joined = attach_images(driver.clone(), Ok(page)).unwrap();
    assert_eq!(joined.driver, driver);
    assert_eq!(joined.images, vec![image]);
    assert_eq!(attach_images(driver, Err(lost())), Err(lost()));
}

#[test]
fn attach_details_fails_with_the_first_failure() {
    let driver = Driver { id: 4, name: "Ana".to_string(), license_plate: "A".to_string() };
    let complaints = PaginatedRecord::new(vec![Complaint::new(4, 1, "uber", "rude", 0)], 1, 1, 5);
    let images: PaginatedRecord<DriverImage> = PaginatedRecord::new(vec![], 0, 1, 100);
    let details = attach_details(driver.clone(), Ok(complaints.clone()), Ok(images)).unwrap();
    assert_eq!(details.driver, driver);
    assert_eq!(details.complaints, complaints);
    assert_eq!(details.images, vec![]);
    let missing = ApiError::NotFound("x".to_string());
    assert_eq!(attach_details(driver.clone(), Err(missing.clone()), Err(lost())), Err(missing));
    assert_eq!(attach_details(driver, Ok(complaints), Err(lost())), Err(lost()));
}

#[test]
fn only_not_found_asks_for_a_new_driver() {
    let driver = Driver { id: 4, name: "Ana".to_string(), license_plate: "A".to_string() };
    assert!(matches!(interpret_lookup(Ok(driver.clone())), Intake::Existing(d) if d == driver));
    assert!(matches!(interpret_lookup(Err(ApiError::NotFound("x".to_string()))), Intake::Missing));
    assert!(matches!(interpret_lookup(Err(lost())), Intake::Failed(e) if e == lost()));
    let storage = ApiError::StorageError("s".to_string());
    assert!(matches!(interpret_lookup(Err(storage.clone())), Intake::Failed(e) if e == storage));
}

#[test]
fn image_limits_are_a_hundred_and_five() {
    assert_eq!(DETAIL_IMAGE_LIMIT, 100);
    assert_eq!(PREVIEW_IMAGE_LIMIT, 5);
    assert_eq!(UPLOAD_VALIDITY_SECS, 3600);
}

#[test]
fn decimal_writes_numbers_as_they_are_read() {
    assert_eq!(decimal(0), "0");
    assert_eq!(decimal(7), "7");
    assert_eq!(decimal(10), "10");
    assert_eq!(decimal(-1), "-1");
    assert_eq!(decimal(1234567890), "1234567890");
    assert_eq!(decimal(i32::MAX), "2147483647");
    assert_eq!(decimal(i32::MIN), "-2147483648");
}

#[test]
fn keys_are_made_of_prefix_and_identifier() {
    assert_eq!(upload_key("complaints", "abc"), "complaints/abc");
    assert_eq!(upload_key("", ""), "/");
    assert_eq!(driver_image_key(17, "abc"), "driver_images/17/abc");
    assert_eq!(driver_image_key(-4, "abc"), "driver_images/-4/abc");
    assert_eq!(public_object_url("b", "k/1"), "https://b.s3.amazonaws.com/k/1");
    assert_eq!(joined("a", "", "c"), "ac");
}

#[test]
fn text_order_is_that_of_the_dictionary() {
    assert!(comes_no_later("", ""));
    assert!(comes_no_later("", "a"));
    assert!(!comes_no_later("a", ""));
    assert!(comes_no_later("abc", "abd"));
    assert!(!comes_no_later("abd", "abc"));
    assert!(comes_no_later("ab", "abc"));
    assert!(!comes_no_later("abc", "ab"));
    assert!(comes_no_later("abc", "abc"));
    assert!(comes_no_later("Zoe", "ana"));
    assert!(comes_no_later("z", "ñ"));
}

#[test]
fn search_in_text_ignores_the_case_of_letters() {
    assert!(contains_ignoring_case("Mariana", "ANA"));
    assert!(contains_ignoring_case("Mariana", "mar"));
    assert!(contains_ignoring_case("Mariana", ""));
    assert!(contains_ignoring_case("", ""));
    assert!(!contains_ignoring_case("", "a"));
    assert!(!contains_ignoring_case("Mariana", "anna"));
    assert!(!contains_ignoring_case("ana", "Mariana"));
    assert!(contains_ignoring_case("ABC-123", "c-1"));
    assert!(!contains_ignoring_case("Ñandú", "ñ"));
    assert!(contains_ignoring_case("Ñandú", "Ñand"));
    assert_eq!(folded('A'), 'a');
    assert_eq!(folded('Z'), 'z');
    assert_eq!(folded('a'), 'a');
    assert_eq!(folded('['), '[');
    assert_eq!(folded('@'), '@');
    assert_eq!(folded('É'), 'É');
}

#[test]
fn texts_are_compared_character_by_character() {
    assert!(same_text("", ""));
    assert!(same_text("añb", "añb"));
    assert!(!same_text("ab", "abc"));
    assert!(!same_text("abc", "abd"));
    assert_eq!(chars_of("añb"), vec!['a', 'ñ', 'b']);
}

#[test]
fn requests_turn_into_what_the_registry_takes() {
    let request = CreateComplaintRequest {
        description: "d".to_string(),
        taxi_driver_name: "n".to_string(),
        taxi_license_plate: "p".to_string(),
        location_id: 3,
        taxi_application: "a".to_string(),
        driver_image: Some("i".to_string()),
        complaint_images: Some(vec!["x".to_string(), "y".to_string()]),
    };
    assert_eq!(
        request.into_new_complaint(),
        NewComplaint {
            description: "d".to_string(),
            taxi_driver_name: "n".to_string(),
            taxi_license_plate: "p".to_string(),
            location_id: 3,
            taxi_application: "a".to_string(),
            driver_image: Some("i".to_string()),
            complaint_images: Some(vec!["x".to_string(), "y".to_string()]),
        }
    );
    let query = SearchDriversQuery { query: "q".to_string(), page: 2, per_page: 7 };
    assert_eq!(query.pagination(), Pagination { page: 2, per_page: 7 });
    let query = SearchDriversWithDetailsQuery {
        query: "q".to_string(),
        page: 2,
        per_page: 7,
        complaints_page: 3,
        complaints_per_page: 9,
    };
    assert_eq!(query.pagination(), Pagination { page: 2, per_page: 7 });
    assert_eq!(query.complaints_pagination(), Pagination { page: 3, per_page: 9 });
    let answer = ImageUploadUrl::from_urls(("u".to_string(), "p".to_string()));
    assert_eq!(answer, ImageUploadUrl { upload_url: "u".to_string(), public_url: "p".to_string() });
}

#[test]
fn failures_carry_their_text() {
    assert!(ApiError::NotFound("n".to_string()).is_not_found());
    assert!(!lost().is_not_found());
    assert!(!ApiError::StorageError("s".to_string()).is_not_found());
    assert_eq!(ApiError::NotFound("n".to_string()).message(), "n");
    assert_eq!(lost().message(), "lost");
    assert_eq!(ApiError::StorageError("s".to_string()).message(), "s");
    assert_eq!(lost().clone(), lost());
}

#[test]
fn failures_are_reported_as_not_found_or_internal() {
    assert_eq!(ApiError::NotFound("n".to_string()).http_status(), 404);
    assert_eq!(lost().http_status(), 500);
    assert_eq!(ApiError::StorageError("s".to_string()).http_status(), 500);
}

#[test]
fn pattern_stands_for_the_query_itself() {
    assert_eq!(like_pattern("ana"), "%ana%");
    assert_eq!(like_pattern(""), "%%");
    assert_eq!(like_pattern("100%"), "%100\\%%");
    assert_eq!(like_pattern("a_b"), "%a\\_b%");
    assert_eq!(like_pattern("a\\b"), "%a\\\\b%");
    assert_eq!(like_pattern("ñ_"), "%ñ\\_%");
}
