use taxi_complaints::pagination::{PaginatedRecord, Pagination};

#[test]
fn offset_of_first_page_is_zero() {
    let p = Pagination { page: 1, per_page: 20 };
    assert_eq!(p.offset(), 0);
}

#[test]
fn offset_of_third_page_skips_two_pages() {
    let p = Pagination { page: 3, per_page: 20 };
    assert_eq!(p.offset(), 40);
}

#[test]
fn offset_of_page_zero_is_negative() {
    let p = Pagination { page: 0, per_page: 20 };
    assert_eq!(p.offset(), -20);
}

#[test]
fn offset_of_largest_page_does_not_overflow() {
    let p = Pagination { page: u32::MAX, per_page: u32::MAX };
    assert_eq!(p.offset(), 18446744060824649730i128);
}

#[test]
fn paginated_record_stores_what_it_is_given() {
    let r = PaginatedRecord::new(vec![7, 8, 9], 42, 2, 3);
    assert_eq!(r.items, vec![7, 8, 9]);
    assert_eq!(r.total_items, 42);
    assert_eq!(r.page, 2);
    assert_eq!(r.per_page, 3);
}
