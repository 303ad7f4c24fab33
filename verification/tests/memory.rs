use taxi_complaints::error::ApiError;
use taxi_complaints::memory::{MemoryBucket, MemoryRepository};
use taxi_complaints::model::{Complaint, ComplaintImage, Country, Driver, DriverImage, Location};
use taxi_complaints::pagination::Pagination;
use taxi_complaints::port::{BucketPort, DBRepository};

fn first(per_page: u32) -> Pagination {
    Pagination { page: 1, per_page }
}

fn seeded() -> MemoryRepository {
    let mut repo = MemoryRepository::new();
    repo.add_location(Country::Mexico, "Sonora").unwrap();
    repo.add_location(Country::Peru, "Lima").unwrap();
    repo.add_location(Country::Mexico, "Jalisco").unwrap();
    repo.add_location(Country::Peru, "Cusco").unwrap();
    repo
}

#[test]
fn created_driver_is_fetched_as_given_under_a_new_id() {
    let mut repo = MemoryRepository::new();
    let given = Driver::new("Ana", "ABC-123");
    let made = repo.create_driver(&given).unwrap();
    assert_ne!(made.id, 0);
    assert_eq!(made.name, given.name);
    assert_eq!(made.license_plate, given.license_plate);
    assert_eq!(repo.get_driver_by_id(made.id).unwrap(), made);
    let next = repo.create_driver(&given).unwrap();
    assert_eq!(next.id, made.id + 1);
}

#[test]
fn given_id_is_ignored_on_creation() {
    let mut repo = MemoryRepository::new();
    let made = repo.create_driver(&Driver { id: 50, name: "Ana".to_string(), license_plate: "A".to_string() }).unwrap();
    assert_eq!(made.id, 1);
}

#[test]
fn driver_is_found_by_name_and_plate() {
    let mut repo = MemoryRepository::new();
    repo.create_driver(&Driver::new("Ana", "ABC-123")).unwrap();
    repo.create_driver(&Driver::new("Ana", "ABC-124")).unwrap();
    repo.create_driver(&Driver::new("Ana", "ABC-124")).unwrap();
    assert_eq!(repo.get_driver_by_name_and_license_plate("Ana", "ABC-124").unwrap().id, 2);
    assert_eq!(
        repo.get_driver_by_name_and_license_plate("ana", "ABC-124"),
        Err(ApiError::NotFound("Driver ana with license plate ABC-124 not found".to_string()))
    );
    assert_eq!(repo.get_driver_by_license_plate("ABC-123").unwrap().id, 1);
    assert_eq!(
        repo.get_driver_by_license_plate("ABC"),
        Err(ApiError::NotFound("Driver with license plate ABC not found".to_string()))
    );
}

#[test]
fn driver_is_updated_and_deleted() {
    let mut repo = MemoryRepository::new();
    repo.create_driver(&Driver::new("Ana", "ABC-123")).unwrap();
    repo.create_driver(&Driver::new("Luis", "XYZ-999")).unwrap();
    let changed = Driver { id: 1, name: "Ana Maria".to_string(), license_plate: "ABC-123".to_string() };
    assert_eq!(repo.update_driver(&changed).unwrap(), changed);
    assert_eq!(repo.get_driver_by_id(1).unwrap(), changed);
    assert_eq!(repo.get_driver_by_id(2).unwrap().name, "Luis");
    let missing = Driver { id: 9, name: "x".to_string(), license_plate: "y".to_string() };
    assert_eq!(repo.update_driver(&missing), Err(ApiError::DataStoreError("no row was updated".to_string())));
    assert_eq!(repo.delete_driver(1), Ok(()));
    assert!(matches!(repo.get_driver_by_id(1), Err(ApiError::NotFound(_))));
    assert_eq!(repo.delete_driver(1), Ok(()));
    assert_eq!(repo.get_driver_by_id(2).unwrap().name, "Luis");
}

#[test]
fn rows_must_refer_to_rows_that_are_there() {
    let mut repo = seeded();
    let dangling = Err(ApiError::DataStoreError("the row refers to a row that is not there".to_string()));
    assert_eq!(repo.add_driver_image(&DriverImage::new(1, "a")), dangling.clone().map(|_: ()| DriverImage::new(0, "")));
    assert_eq!(repo.create_complaint(&Complaint::new(1, 1, "uber", "rude", 0)), dangling.clone().map(|_: ()| Complaint::new(0, 0, "", "", 0)));
    repo.create_driver(&Driver::new("Ana", "ABC-123")).unwrap();
    assert_eq!(repo.create_complaint(&Complaint::new(1, 9, "uber", "rude", 0)), dangling.clone().map(|_: ()| Complaint::new(0, 0, "", "", 0)));
    assert_eq!(repo.add_complaint_image(&ComplaintImage::new(1, "a")), dangling.map(|_: ()| ComplaintImage::new(0, "")));
    assert!(repo.create_complaint(&Complaint::new(1, 1, "uber", "rude", 0)).is_ok());
    assert!(repo.add_complaint_image(&ComplaintImage::new(1, "a")).is_ok());
    assert!(repo.add_driver_image(&DriverImage::new(1, "a")).is_ok());
}

#[test]
fn complaint_is_stored_unpublished_and_keeps_its_time() {
    let mut repo = seeded();
    repo.create_driver(&Driver::new("Ana", "ABC-123")).unwrap();
    let mut given = Complaint::new(1, 2, "uber", "rude", 1234);
    given.published = true;
    given.id = 8;
    let made = repo.create_complaint(&given).unwrap();
    assert_eq!(made.id, 1);
    assert!(!made.published);
    assert_eq!(made.created_at, 1234);
    assert_eq!(repo.get_complaint_by_id(1).unwrap(), made);
    assert_eq!(repo.get_complaints_for_driver(1, &first(10)).unwrap().total_items, 0);
    let shown = repo.set_published(1, true).unwrap();
    assert!(shown.published);
    assert_eq!(repo.get_complaints_for_driver(1, &first(10)).unwrap().items, vec![shown]);
    repo.set_published(1, false).unwrap();
    assert_eq!(repo.get_complaints_for_driver(1, &first(10)).unwrap().items, vec![]);
    assert_eq!(
        repo.set_published(2, true),
        Err(ApiError::NotFound("Complaint with id 2 not found".to_string()))
    );
}

#[test]
fn update_of_a_complaint_keeps_time_and_publication() {
    let mut repo = seeded();
    repo.create_driver(&Driver::new("Ana", "ABC-123")).unwrap();
    repo.create_driver(&Driver::new("Luis", "XYZ-999")).unwrap();
    repo.create_complaint(&Complaint::new(1, 2, "uber", "rude", 1234)).unwrap();
    repo.set_published(1, true).unwrap();
    let mut change = Complaint::new(2, 3, "didi", "very rude", 9999);
    change.id = 1;
    let made = repo.update_complaint(&change).unwrap();
    assert_eq!(
        made,
        Complaint {
            id: 1,
            driver_id: 2,
            location_id: 3,
            taxi_application: "didi".to_string(),
            description: "very rude".to_string(),
            created_at: 1234,
            published: true,
        }
    );
    assert_eq!(repo.get_complaint_by_id(1).unwrap(), made);
    change.id = 5;
    assert_eq!(repo.update_complaint(&change), Err(ApiError::DataStoreError("no row was updated".to_string())));
    change.id = 1;
    change.location_id = 50;
    assert_eq!(
        repo.update_complaint(&change),
        Err(ApiError::DataStoreError("the row refers to a row that is not there".to_string()))
    );
    assert_eq!(repo.delete_complaint(1), Ok(()));
    assert!(matches!(repo.get_complaint_by_id(1), Err(ApiError::NotFound(_))));
}

#[test]
fn images_are_listed_by_owner_in_order_of_id() {
    let mut repo = seeded();
    repo.create_driver(&Driver::new("Ana", "ABC-123")).unwrap();
    repo.create_driver(&Driver::new("Luis", "XYZ-999")).unwrap();
    for k in 0..5 {
        repo.add_driver_image(&DriverImage::new(1 + k % 2, &format!("p{}", k))).unwrap();
    }
    let page = repo.get_driver_images(1, &Pagination { page: 2, per_page: 2 }).unwrap();
    assert_eq!(page.items, vec![DriverImage { id: 5, driver_id: 1, image_url: "p4".to_string() }]);
    assert_eq!(page.total_items, 3);
    assert_eq!(repo.delete_driver_image(3), Ok(()));
    let page = repo.get_driver_images(1, &first(10)).unwrap();
    let ids: Vec<i32> = page.items.iter().map(|i| i.id).collect();
    assert_eq!(ids, vec![1, 5]);
    repo.create_complaint(&Complaint::new(1, 1, "uber", "rude", 0)).unwrap();
    repo.add_complaint_image(&ComplaintImage::new(1, "x")).unwrap();
    repo.add_complaint_image(&ComplaintImage::new(1, "y")).unwrap();
    assert_eq!(repo.delete_complaint_image(1), Ok(()));
    assert_eq!(
        repo.get_complaint_images(1, &first(10)).unwrap().items,
        vec![ComplaintImage { id: 2, complaint_id: 1, image_url: "y".to_string() }]
    );
}

#[test]
fn locations_are_listed_by_country_and_state() {
    let repo = seeded();
    let all = repo.get_all_locations(&first(10)).unwrap();
    let states: Vec<&str> = all.items.iter().map(|l| l.state.as_str()).collect();
    assert_eq!(states, vec!["Cusco", "Lima", "Jalisco", "Sonora"]);
    assert_eq!(all.total_items, 4);
    let mexico = repo.get_locations_by_country("mexico", &first(1)).unwrap();
    assert_eq!(mexico.items, vec![Location { id: 3, country: Country::Mexico, state: "Jalisco".to_string() }]);
    assert_eq!(mexico.total_items, 2);
    assert_eq!(
        repo.get_locations_by_country("Mexico", &first(1)),
        Err(ApiError::DataStoreError("invalid input value for country".to_string()))
    );
    assert_eq!(repo.get_location_by_id(2).unwrap().state, "Lima");
    assert_eq!(
        repo.get_location_by_id(7),
        Err(ApiError::NotFound("Location with id 7 not found".to_string()))
    );
    assert!(matches!(
        repo.get_all_locations(&Pagination { page: 0, per_page: 1 }),
        Err(ApiError::DataStoreError(_))
    ));
}

#[test]
fn country_names_are_written_small() {
    assert_eq!(Country::from_name("peru"), Some(Country::Peru));
    assert_eq!(Country::from_name("mexico"), Some(Country::Mexico));
    assert_eq!(Country::from_name("Peru"), None);
    assert_eq!(Country::from_name(""), None);
    assert_eq!(Country::Peru.name(), "peru");
    assert_eq!(Country::Mexico.name(), "mexico");
}

#[test]
fn deleting_a_file_twice_succeeds_twice() {
    let mut bucket = MemoryBucket::new("b");
    bucket.put_file("k/1");
    bucket.put_file("k/2");
    bucket.put_file("k/1");
    assert!(bucket.holds_file("k/1"));
    assert_eq!(bucket.delete_image("k/1"), Ok(()));
    assert!(!bucket.holds_file("k/1"));
    assert!(bucket.holds_file("k/2"));
    assert_eq!(bucket.delete_image("k/1"), Ok(()));
    assert!(bucket.holds_file("k/2"));
}

#[test]
fn credential_is_issued_whether_or_not_the_file_exists() {
    let bucket = MemoryBucket::new("pictures");
    let (upload, public) = bucket.generate_upload_url("a/b.jpg").unwrap();
    assert_eq!(public, "https://pictures.s3.amazonaws.com/a/b.jpg");
    assert_eq!(upload, "https://pictures.s3.amazonaws.com/a/b.jpg?X-Amz-Expires=3600");
    assert!(!bucket.holds_file("a/b.jpg"));
}

#[test]
fn drivers_of_one_name_are_found_in_order_of_id() {
    let mut repo = seeded();
    for plate in ["C", "A", "B"] {
        let d = repo.create_driver(&Driver::new("Ana", plate)).unwrap();
        let c = repo.create_complaint(&Complaint::new(d.id, 1, "uber", "rude", 0)).unwrap();
        repo.set_published(c.id, true).unwrap();
    }
    let first_name = repo.create_driver(&Driver::new("Abel", "Z")).unwrap();
    let c = repo.create_complaint(&Complaint::new(first_name.id, 1, "uber", "rude", 0)).unwrap();
    repo.set_published(c.id, true).unwrap();
    let found = repo.search_drivers("a", &first(10)).unwrap();
    let plates: Vec<&str> = found.items.iter().map(|d| d.license_plate.as_str()).collect();
    assert_eq!(plates, vec!["Z", "C", "A", "B"]);
}

#[test]
fn locations_of_one_state_are_listed_in_order_of_id() {
    let mut repo = seeded();
    repo.add_location(Country::Peru, "Lima").unwrap();
    repo.add_location(Country::Peru, "Arequipa").unwrap();
    let peru = repo.get_locations_by_country("peru", &first(10)).unwrap();
    let ids: Vec<i32> = peru.items.iter().map(|l| l.id).collect();
    assert_eq!(ids, vec![6, 4, 2, 5]);
}
