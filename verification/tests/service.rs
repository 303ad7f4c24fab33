use taxi_complaints::error::ApiError;
use taxi_complaints::memory::{MemoryBucket, MemoryRepository};
use taxi_complaints::model::{Complaint, Country, Driver, DriverImage, NewComplaint};
use taxi_complaints::pagination::Pagination;
use taxi_complaints::port::DBRepository;
use taxi_complaints::service::Service;

fn registry() -> Service<MemoryRepository, MemoryBucket> {
    let mut repo = MemoryRepository::new();
    repo.add_location(Country::Peru, "Lima").unwrap();
    repo.add_location(Country::Mexico, "Jalisco").unwrap();
    Service::new(repo, MemoryBucket::new("taxi-pictures"))
}

fn submission(name: &str, plate: &str) -> NewComplaint {
    NewComplaint {
        description: "took the long way".to_string(),
        taxi_driver_name: name.to_string(),
        taxi_license_plate: plate.to_string(),
        location_id: 1,
        taxi_application: "cabify".to_string(),
        driver_image: None,
        complaint_images: None,
    }
}

fn all(per_page: u32) -> Pagination {
    Pagination { page: 1, per_page }
}

#[test]
fn submission_for_unknown_driver_creates_one_driver_and_one_complaint() {
    let mut service = registry();
    let made = service.create_complaint_at(submission("Ana", "ABC-123"), 1_700_000_000_000_000).unwrap();
    assert_eq!(made.id, 1);
    assert_eq!(made.driver_id, 1);
    assert_eq!(made.location_id, 1);
    assert_eq!(made.taxi_application, "cabify");
    assert_eq!(made.description, "took the long way");
    assert_eq!(made.created_at, 1_700_000_000_000_000);
    assert!(!made.published);
    let driver = service.get_driver(1).unwrap();
    assert_eq!(driver, Driver { id: 1, name: "Ana".to_string(), license_plate: "ABC-123".to_string() });
    assert!(matches!(service.get_driver(2), Err(ApiError::NotFound(_))));
    assert_eq!(service.db_repo.get_complaint_by_id(1).unwrap(), made);
    assert!(matches!(service.db_repo.get_complaint_by_id(2), Err(ApiError::NotFound(_))));
}

#[test]
fn submission_for_known_driver_reuses_the_driver() {
    let mut service = registry();
    let first = service.create_complaint_at(submission("Ana", "ABC-123"), 10).unwrap();
    let other = service.create_complaint_at(submission("Luis", "XYZ-999"), 20).unwrap();
    let second = service.create_complaint_at(submission("Ana", "ABC-123"), 30).unwrap();
    assert_eq!(first.driver_id, 1);
    assert_eq!(other.driver_id, 2);
    assert_eq!(second.driver_id, 1);
    assert_eq!(second.id, 3);
    assert!(matches!(service.get_driver(3), Err(ApiError::NotFound(_))));
}

#[test]
fn drivers_differ_when_only_the_plate_differs() {
    let mut service = registry();
    let first = service.create_complaint_at(submission("Ana", "ABC-123"), 10).unwrap();
    let second = service.create_complaint_at(submission("Ana", "ABC-124"), 20).unwrap();
    assert_eq!(first.driver_id, 1);
    assert_eq!(second.driver_id, 2);
}

#[test]
fn three_complaint_images_are_attached_in_the_given_order() {
    let mut service = registry();
    let mut given = submission("Ana", "ABC-123");
    given.complaint_images = Some(vec!["a".to_string(), "b".to_string(), "c".to_string()]);
    let made = service.create_complaint_at(given, 10).unwrap();
    let found = service.get_complaint_with_images(made.id).unwrap();
    assert_eq!(found.complaint, made);
    assert_eq!(found.images.len(), 3);
    let urls: Vec<&str> = found.images.iter().map(|i| i.image_url.as_str()).collect();
    assert_eq!(urls, vec!["a", "b", "c"]);
    let ids: Vec<i32> = found.images.iter().map(|i| i.id).collect();
    assert_eq!(ids, vec![1, 2, 3]);
    assert!(found.images.iter().all(|i| i.complaint_id == made.id));
}

#[test]
fn driver_image_is_attached_to_the_resolved_driver() {
    let mut service = registry();
    service.create_complaint_at(submission("Luis", "XYZ-999"), 5).unwrap();
    let mut given = submission("Ana", "ABC-123");
    given.driver_image = Some("https://pictures/ana.jpg".to_string());
    let made = service.create_complaint_at(given, 10).unwrap();
    assert_eq!(made.driver_id, 2);
    let images = service.db_repo.get_driver_images(2, &all(10)).unwrap();
    assert_eq!(
        images.items,
        vec![DriverImage { id: 1, driver_id: 2, image_url: "https://pictures/ana.jpg".to_string() }]
    );
    assert_eq!(images.total_items, 1);
    assert_eq!(service.db_repo.get_driver_images(1, &all(10)).unwrap().items, vec![]);
}

#[test]
fn submission_without_images_attaches_none() {
    let mut service = registry();
    let made = service.create_complaint_at(submission("Ana", "ABC-123"), 10).unwrap();
    assert_eq!(service.get_complaint_with_images(made.id).unwrap().images, vec![]);
    assert_eq!(service.db_repo.get_driver_images(made.driver_id, &all(10)).unwrap().total_items, 0);
}

#[test]
fn failed_submission_keeps_what_earlier_steps_stored() {
    let mut service = registry();
    let mut given = submission("Ana", "ABC-123");
    given.location_id = 77;
    given.driver_image = Some("ana.jpg".to_string());
    given.complaint_images = Some(vec!["a".to_string()]);
    let failed = service.create_complaint_at(given, 10);
    assert!(matches!(failed, Err(ApiError::DataStoreError(_))));
    assert_eq!(service.get_driver(1).unwrap().name, "Ana");
    assert_eq!(service.db_repo.get_driver_images(1, &all(10)).unwrap().total_items, 1);
    assert!(matches!(service.db_repo.get_complaint_by_id(1), Err(ApiError::NotFound(_))));
    assert_eq!(service.db_repo.get_complaint_images(1, &all(10)).unwrap().total_items, 0);
}

#[test]
fn create_complaint_stamps_the_present_time() {
    let mut service = registry();
    let made = service.create_complaint(submission("Ana", "ABC-123")).unwrap();
    assert!(made.created_at > 1_600_000_000_000_000);
    assert_eq!(made.driver_id, 1);
    assert!(!made.published);
}

fn with_complaints(published: usize, unpublished: usize) -> Service<MemoryRepository, MemoryBucket> {
    let mut service = registry();
    for k in 0..published + unpublished {
        let made = service.create_complaint_at(submission("Ana", "ABC-123"), k as i64).unwrap();
        if k % 4 != 1 || k / 4 >= unpublished {
            service.db_repo.set_published(made.id, true).unwrap();
        }
    }
    service
}

#[test]
fn driver_complaints_show_published_complaints_only() {
    let service = with_complaints(7, 2);
    let page = service.get_driver_complaints(1, &Pagination { page: 1, per_page: 5 }).unwrap();
    assert_eq!(page.items.len(), 5);
    assert_eq!(page.total_items, 7);
    assert_eq!(page.page, 1);
    assert_eq!(page.per_page, 5);
    assert!(page.items.iter().all(|c| c.published && c.driver_id == 1));
    let ids: Vec<i32> = page.items.iter().map(|c| c.id).collect();
    assert_eq!(ids, vec![1, 3, 4, 5, 7]);
}

#[test]
fn second_page_of_driver_complaints_holds_the_rest() {
    let service = with_complaints(7, 2);
    let page = service.get_driver_complaints(1, &Pagination { page: 2, per_page: 5 }).unwrap();
    let ids: Vec<i32> = page.items.iter().map(|c| c.id).collect();
    assert_eq!(ids, vec![8, 9]);
    assert_eq!(page.total_items, 7);
    let beyond = service.get_driver_complaints(1, &Pagination { page: 3, per_page: 5 }).unwrap();
    assert_eq!(beyond.items, vec![]);
    assert_eq!(beyond.total_items, 7);
}

#[test]
fn page_of_no_rows_still_counts_them_all() {
    let service = with_complaints(7, 2);
    let page = service.get_driver_complaints(1, &Pagination { page: 1, per_page: 0 }).unwrap();
    assert_eq!(page.items, vec![]);
    assert_eq!(page.total_items, 7);
}

#[test]
fn page_zero_is_refused_by_the_store() {
    let service = with_complaints(1, 0);
    let failed = service.get_driver_complaints(1, &Pagination { page: 0, per_page: 5 });
    assert_eq!(failed, Err(ApiError::DataStoreError("OFFSET must not be negative".to_string())));
}

#[test]
fn driver_complaints_of_unknown_driver_are_not_found() {
    let service = with_complaints(2, 0);
    let failed = service.get_driver_complaints(42, &all(5));
    assert_eq!(failed, Err(ApiError::NotFound("Driver with id 42 not found".to_string())));
    let failed = service.get_driver_complaints(-3, &Pagination { page: 0, per_page: 5 });
    assert_eq!(failed, Err(ApiError::NotFound("Driver with id -3 not found".to_string())));
}

#[test]
fn driver_with_details_joins_three_lookups() {
    let mut service = with_complaints(3, 1);
    for k in 0..3 {
        service.db_repo.add_driver_image(&DriverImage::new(1, &format!("pic{}", k))).unwrap();
    }
    let details = service.get_driver_with_details(1, &Pagination { page: 1, per_page: 2 }).unwrap();
    assert_eq!(details.driver.name, "Ana");
    assert_eq!(details.complaints.items.len(), 2);
    assert_eq!(details.complaints.total_items, 3);
    assert_eq!(details.images.len(), 3);
    assert_eq!(details.images[2].image_url, "pic2");
}

#[test]
fn driver_with_details_shows_at_most_a_hundred_images() {
    let mut service = with_complaints(1, 0);
    for k in 0..103 {
        service.db_repo.add_driver_image(&DriverImage::new(1, &format!("pic{}", k))).unwrap();
    }
    let details = service.get_driver_with_details(1, &all(10)).unwrap();
    assert_eq!(details.images.len(), 100);
    assert_eq!(details.images[99].id, 100);
}

#[test]
fn driver_with_details_fails_when_any_lookup_fails() {
    let service = with_complaints(1, 0);
    assert!(matches!(service.get_driver_with_details(9, &all(10)), Err(ApiError::NotFound(_))));
    assert!(matches!(
        service.get_driver_with_details(1, &Pagination { page: 0, per_page: 1 }),
        Err(ApiError::DataStoreError(_))
    ));
}

#[test]
fn complaint_with_images_of_unknown_complaint_is_not_found() {
    let service = registry();
    assert_eq!(
        service.get_complaint_with_images(5),
        Err(ApiError::NotFound("Complaint with id 5 not found".to_string()))
    );
}

fn searchable() -> Service<MemoryRepository, MemoryBucket> {
    let mut service = registry();
    let names = [("Zoe", "AAA-111"), ("ana", "BBB-222"), ("Bruno", "ana-333"), ("Carl", "CCC-444"), ("Mariana", "DDD-555")];
    for (k, (name, plate)) in names.iter().enumerate() {
        let mut given = submission(name, plate);
        given.driver_image = Some(format!("{}-1.jpg", name));
        let made = service.create_complaint_at(given, k as i64).unwrap();
        if *name != "Mariana" {
            service.db_repo.set_published(made.id, true).unwrap();
        }
    }
    service
}

#[test]
fn search_finds_name_or_plate_without_regard_to_case() {
    let service = searchable();
    let page = service.search_drivers("ANA", &all(10)).unwrap();
    let names: Vec<&str> = page.items.iter().map(|d| d.name.as_str()).collect();
    assert_eq!(names, vec!["Bruno", "ana"]);
    assert_eq!(page.total_items, 2);
}

#[test]
fn search_lists_each_driver_once_in_order_of_name() {
    let mut service = searchable();
    let again = service.create_complaint_at(submission("Zoe", "AAA-111"), 99).unwrap();
    service.db_repo.set_published(again.id, true).unwrap();
    let page = service.search_drivers("", &all(10)).unwrap();
    let names: Vec<&str> = page.items.iter().map(|d| d.name.as_str()).collect();
    assert_eq!(names, vec!["Bruno", "Carl", "Zoe", "ana"]);
    assert_eq!(page.total_items, 4);
}

#[test]
fn search_counts_beyond_the_page() {
    let service = searchable();
    let page = service.search_drivers("", &Pagination { page: 2, per_page: 3 }).unwrap();
    let names: Vec<&str> = page.items.iter().map(|d| d.name.as_str()).collect();
    assert_eq!(names, vec!["ana"]);
    assert_eq!(page.total_items, 4);
    assert_eq!(page.page, 2);
    assert_eq!(page.per_page, 3);
}

#[test]
fn search_with_images_keeps_the_counts_of_the_search() {
    let mut service = searchable();
    for k in 2..9 {
        service.db_repo.add_driver_image(&DriverImage::new(1, &format!("Zoe-{}.jpg", k))).unwrap();
    }
    let page = service.search_drivers_with_images("", &Pagination { page: 1, per_page: 3 }).unwrap();
    assert_eq!(page.total_items, 4);
    assert_eq!(page.page, 1);
    assert_eq!(page.per_page, 3);
    let names: Vec<&str> = page.items.iter().map(|d| d.driver.name.as_str()).collect();
    assert_eq!(names, vec!["Bruno", "Carl", "Zoe"]);
    assert_eq!(page.items[0].images.len(), 1);
    assert_eq!(page.items[0].images[0].image_url, "Bruno-1.jpg");
    assert_eq!(page.items[2].images.len(), 5);
    assert_eq!(page.items[2].images[4].image_url, "Zoe-5.jpg");
}

#[test]
fn search_with_details_joins_complaints_and_images() {
    let service = searchable();
    let page = service
        .search_drivers_with_details("c", &all(10), &Pagination { page: 1, per_page: 1 })
        .unwrap();
    assert_eq!(page.total_items, 1);
    assert_eq!(page.items.len(), 1);
    assert_eq!(page.items[0].driver.name, "Carl");
    assert_eq!(page.items[0].complaints.total_items, 1);
    assert_eq!(page.items[0].complaints.items[0].driver_id, page.items[0].driver.id);
    assert_eq!(page.items[0].images.len(), 1);
}

#[test]
fn search_with_details_fails_on_page_zero_of_complaints() {
    let service = searchable();
    let failed = service.search_drivers_with_details("c", &all(10), &Pagination { page: 0, per_page: 1 });
    assert!(matches!(failed, Err(ApiError::DataStoreError(_))));
    let empty = service
        .search_drivers_with_details("nobody", &all(10), &Pagination { page: 0, per_page: 1 })
        .unwrap();
    assert_eq!(empty.items.len(), 0);
    assert_eq!(empty.total_items, 0);
}

fn is_identifier(s: &str) -> bool {
    s.len() == 36
        && s.char_indices().all(|(i, c)| match i {
            8 | 13 | 18 | 23 => c == '-',
            _ => c.is_ascii_digit() || ('a'..='f').contains(&c),
        })
        && s.as_bytes()[14] == b'4'
        && matches!(s.as_bytes()[19], b'8' | b'9' | b'a' | b'b')
}

#[test]
fn upload_url_holds_the_prefix_and_an_identifier() {
    let service = registry();
    let (upload_url, public_url) = service.generate_image_upload_url("complaints").unwrap();
    let head = "https://taxi-pictures.s3.amazonaws.com/complaints/";
    assert!(public_url.starts_with(head));
    assert!(is_identifier(&public_url[head.len()..]));
    assert_eq!(upload_url, format!("{}?X-Amz-Expires=3600", public_url));
}

#[test]
fn two_upload_urls_for_one_prefix_differ() {
    let service = registry();
    let first = service.generate_image_upload_url("complaints").unwrap();
    let second = service.generate_image_upload_url("complaints").unwrap();
    assert_ne!(first.1, second.1);
}

#[test]
fn driver_image_upload_url_names_the_driver() {
    let mut service = registry();
    service.create_complaint_at(submission("Ana", "ABC-123"), 1).unwrap();
    let (_, public_url) = service.generate_driver_image_upload_url(1).unwrap();
    let head = "https://taxi-pictures.s3.amazonaws.com/driver_images/1/";
    assert!(public_url.starts_with(head));
    assert!(is_identifier(&public_url[head.len()..]));
    assert_eq!(
        service.generate_driver_image_upload_url(2),
        Err(ApiError::NotFound("Driver with id 2 not found".to_string()))
    );
}

#[test]
fn new_records_are_not_persisted() {
    assert_eq!(Driver::new("Ana", "ABC-123").id, 0);
    let c = Complaint::new(4, 5, "uber", "rude", 77);
    assert_eq!(
        c,
        Complaint {
            id: 0,
            driver_id: 4,
            location_id: 5,
            taxi_application: "uber".to_string(),
            description: "rude".to_string(),
            created_at: 77,
            published: false,
        }
    );
}
