//! Pages of results.

use vstd::prelude::*;

verus! {

/// The part of a result that a caller asks for.
#[derive(Clone, Copy, Debug, PartialEq, Eq, Structural)]
pub struct Paginated {
    /// The number of entries to pass over.
    pub offset: u64,
    /// The most entries to return. Zero means: no limit.
    pub limit: u64,
}

impl Default for Paginated {
    fn default() -> (paginated: Self)
        ensures
            paginated == (Paginated { offset: 0, limit: 0 }),
    {
        Paginated { offset: 0, limit: 0 }
    }
}

/// One page of a result, with the number of entries of the whole result.
#[derive(Debug)]
pub struct PaginatedResults<R> {
    pub items: Vec<R>,
    pub total: u64,
}

impl Paginated {
    /// The place of the first entry of the page in a result of `total` entries.
    pub open spec fn first(self, total: int) -> int {
        if self.offset < total {
            self.offset as int
        } else {
            total
        }
    }

    /// The place behind the last entry of the page in a result of `total` entries.
    pub open spec fn end(self, total: int) -> int {
        if self.limit == 0 || self.first(total) + self.limit > total {
            total
        } else {
            self.first(total) + self.limit
        }
    }

    /// The places of a page in a result of `total` entries: that of its first
    /// entry, and the one behind its last.
    pub fn bounds(&self, total: usize) -> (bounds: (usize, usize))
        ensures
            bounds.0 == self.first(total as int),
            bounds.1 == self.end(total as int),
            bounds.0 <= bounds.1 <= total,
    {
        let first: usize = if self.offset < total as u64 {
            self.offset as usize
        } else {
            total
        };
        let end: usize = if self.limit == 0 || self.limit > (total - first) as u64 {
            total
        } else {
            first + self.limit as usize
        };
        (first, end)
    }

    /// Cuts the page out of a result.
    pub fn page<R>(&self, all: Vec<R>) -> (results: PaginatedResults<R>)
        ensures
            results.total == all@.len(),
            results.items@ == all@.subrange(
                self.first(all@.len() as int),
                self.end(all@.len() as int),
            ),
    {
        let total = all.len();
        let (first, end) = self.bounds(total);
        let mut head = all;
        let mut items = head.split_off(first);
        items.truncate(end - first);
        assert(items@ == all@.subrange(first as int, end as int));
        PaginatedResults { items, total: total as u64 }
    }
}

} // verus!
