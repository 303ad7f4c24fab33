//! Page requests and pages of results.

use vstd::prelude::*;

verus! {

/// The mathematical value of each element of `s`, in order.
pub open spec fn views<T: View>(s: Seq<T>) -> Seq<T::V> {
    s.map_values(|t: T| t@)
}

/// A request for one page of a listing: pages are numbered from 1.
#[derive(Clone, Copy, Debug, PartialEq, Eq)]
pub struct Pagination {
    pub page: u32,
    pub per_page: u32,
}

/// The number of rows that precede page `page` when every page holds
/// `per_page` rows. It is negative for page 0.
pub open spec fn offset_of(page: int, per_page: int) -> int {
    (page - 1) * per_page
}

/// The rows of `all` from position `offset` on, `limit` of them at most.
pub open spec fn window<V>(all: Seq<V>, offset: int, limit: int) -> Seq<V> {
    let len = all.len() as int;
    let lo = if offset < 0 { 0 } else if offset > len { len } else { offset };
    let hi = if limit < 0 { lo } else if lo + limit > len { len } else { lo + limit };
    all.subrange(lo, hi)
}

impl Pagination {
    /// The number of rows to pass over before the first row of this page.
    pub fn offset(&self) -> (r: i128)
        ensures
            r == offset_of(self.page as int, self.per_page as int),
    {
        let page: i128 = self.page as i128;
        let per_page: i128 = self.per_page as i128;
        assert(-0x1_0000_0000 <= (page - 1) * per_page <= 0x1_0000_0000_0000_0000) by (nonlinear_arith)
            requires
                0 <= page <= 0xffff_ffff,
                0 <= per_page <= 0xffff_ffff,
        ;
        (page - 1) * per_page
    }
}

/// One page of a listing, with the number of rows in the whole listing.
#[derive(Clone, Debug, PartialEq, Eq)]
pub struct PaginatedRecord<T> {
    pub items: Vec<T>,
    pub total_items: u64,
    pub page: u32,
    pub per_page: u32,
}

/// The mathematical value of a [`PaginatedRecord`].
pub struct PageView<V> {
    pub items: Seq<V>,
    pub total_items: nat,
    pub page: u32,
    pub per_page: u32,
}

impl<T: View> View for PaginatedRecord<T> {
    type V = PageView<T::V>;

    open spec fn view(&self) -> PageView<T::V> {
        PageView {
            items: views(self.items@),
            total_items: self.total_items as nat,
            page: self.page,
            per_page: self.per_page,
        }
    }
}

/// Page `pagination.page` of the listing `all`.
pub open spec fn page_of<V>(all: Seq<V>, pagination: Pagination) -> PageView<V> {
    PageView {
        items: window(
            all,
            offset_of(pagination.page as int, pagination.per_page as int),
            pagination.per_page as int,
        ),
        total_items: all.len(),
        page: pagination.page,
        per_page: pagination.per_page,
    }
}

impl<T> PaginatedRecord<T> {
    /// A page made of the four values given, stored as they are.
    pub fn new(items: Vec<T>, total_items: u64, page: u32, per_page: u32) -> (r: Self)
        ensures
            r.items == items,
            r.total_items == total_items,
            r.page == page,
            r.per_page == per_page,
    {
        Self { items, total_items, page, per_page }
    }
}

} // verus!
