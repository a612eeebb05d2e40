//! Paging of list endpoints: the page and page size a request asks for, and
//! the page envelope sent back.
use vstd::prelude::*;

use crate::fmt::{decimal, decimal_string};

verus! {

/// The page requested when none is named.
pub fn default_page() -> (r: u32)
    ensures
        r == 1,
{
    1
}

/// The page size requested when none is named.
pub fn default_per_page() -> (r: u32)
    ensures
        r == 20,
{
    20
}

/// The largest page size served.
pub const MAX_PER_PAGE: u32 = 100;

/// Validated paging input.  `per_page` is clamped to 100 even if the caller
/// asks for more, and the first page is page 1.
#[derive(Debug)]
pub struct PaginationParams {
    pub page: u32,
    pub per_page: u32,
}

impl PaginationParams {
    /// The paging a request asks for, from its `page` and `per_page` query
    /// values (absent ones take the defaults, 1 and 20).
    pub fn from_query(page: Option<u32>, per_page: Option<u32>) -> (r: PaginationParams)
        ensures
            r.page == (match page {
                Some(p) => if p < 1 { 1 } else { p },
                None => 1,
            }),
            r.per_page == (match per_page {
                Some(n) => if n > MAX_PER_PAGE { MAX_PER_PAGE } else { n },
                None => 20,
            }),
    {
        let raw_page = match page {
            Some(p) => p,
            None => default_page(),
        };
        let raw_per_page = match per_page {
            Some(n) => n,
            None => default_per_page(),
        };
        PaginationParams {
            page: if raw_page < 1 { 1 } else { raw_page },
            per_page: if raw_per_page > MAX_PER_PAGE { MAX_PER_PAGE } else { raw_per_page },
        }
    }
}

impl PaginationParams {
    /// The rows of this page: how many to skip and how many to take.
    pub fn window(&self) -> (r: (i64, i64))
        requires
            self.page >= 1,
            (self.page - 1) * self.per_page <= u32::MAX,
        ensures
            r.0 == (self.page - 1) * self.per_page,
            r.1 == self.per_page,
    {
        let skipped: u64 = (self.page as u64 - 1) * self.per_page as u64;
        (skipped as i64, self.per_page as i64)
    }

    /// The page after this one, while `total` rows leave one.
    pub fn next_cursor(&self, total: i64) -> (r: Option<String>)
        ensures
            ({
                let pages: u32 = if total <= 0 { 0 } else { total_pages_spec(total as u64, self.per_page) };
                if self.page < pages {
                    r matches Some(c) && c@ == decimal((self.page + 1) as nat)
                } else {
                    r is None
                }
            }),
    {
        let pages: u32 = if total <= 0 {
            0
        } else {
            total_pages(total as u64, self.per_page)
        };
        if self.page < pages {
            Some(decimal_string(self.page as u64 + 1))
        } else {
            None
        }
    }
}

/// The number of pages `total` items fill at `per_page` a page (0 for a page
/// size of 0), as a `u32`, saturating at its largest value.
pub open spec fn total_pages_spec(total: u64, per_page: u32) -> u32 {
    if per_page == 0 {
        0
    } else {
        let pages = (total + per_page - 1) / (per_page as int);
        if pages > u32::MAX {
            u32::MAX
        } else {
            pages as u32
        }
    }
}

/// One page of results.
#[derive(Debug)]
pub struct Page<T> {
    pub items: Vec<T>,
    pub total: u64,
    pub page: u32,
    pub per_page: u32,
    pub total_pages: u32,
}

/// The number of pages `total` items fill at `per_page` a page.
pub fn total_pages(total: u64, per_page: u32) -> (r: u32)
    ensures
        r == total_pages_spec(total, per_page),
{
    if per_page == 0 {
        0
    } else {
        let per = per_page as u64;
        let q = total / per;
        let rem = total % per;
        let pages: u64 = if rem == 0 {
            q
        } else {
            assert(q < u64::MAX) by (nonlinear_arith)
                requires
                    per > 0,
                    q == total / per,
                    rem == total % per,
                    rem != 0,
                    total <= u64::MAX,
            ;
            q + 1
        };
        proof {
            assert(pages == (total + per_page - 1) / (per_page as int)) by (nonlinear_arith)
                requires
                    per == per_page,
                    per > 0,
                    pages == total / per + if total % per == 0 { 0int } else { 1int },
                    total >= 0,
            ;
        }
        if pages > u32::MAX as u64 {
            u32::MAX
        } else {
            pages as u32
        }
    }
}

impl<T> Page<T> {
    /// A page of `items` out of `total`, with the number of pages rounded up.
    pub fn new(items: Vec<T>, total: u64, page: u32, per_page: u32) -> (r: Page<T>)
        ensures
            r.items@ == items@,
            r.total == total,
            r.page == page,
            r.per_page == per_page,
            r.total_pages == total_pages_spec(total, per_page),
    {
        let total_pages = total_pages(total, per_page);
        Page { items, total, page, per_page, total_pages }
    }
}

} // verus!
