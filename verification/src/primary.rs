//! A model of the authoritative store: the resource rows in ascending
//! identifier order, and the bounded, offset-paginated read against
//! them. Any execution fault is propagated to the caller untransformed;
//! the accessor performs no retries and never writes.

use vstd::prelude::*;

use crate::item::{Item, ItemModel};

verus! {

/// A fault of the authoritative store (connectivity, malformed query),
/// carrying the store's own message.
#[derive(Debug)]
pub struct StoreFault {
    pub message: String,
}

impl Clone for StoreFault {
    fn clone(&self) -> (r: Self)
        ensures
            r.message@ == self.message@,
    {
        StoreFault { message: self.message.clone() }
    }
}

/// The rows a page covers: at most `limit` of them, starting `offset`
/// rows in; empty when the offset lies beyond the last row.
pub open spec fn page_slice(rows: Seq<ItemModel>, limit: u64, offset: u64) -> Seq<ItemModel> {
    let len = rows.len() as int;
    let start = if offset <= len {
        offset as int
    } else {
        len
    };
    let end = if offset + limit <= len {
        offset + limit
    } else {
        len
    };
    rows.subrange(start, end)
}

/// Strictly ascending identifiers: the order every page is served in.
pub open spec fn ids_ascending(rows: Seq<ItemModel>) -> bool {
    forall|i: int, j: int|
        0 <= i < j < rows.len() ==> (#[trigger] rows[i]).id < (#[trigger] rows[j]).id
}

/// Every page cut from ascending rows is itself ascending: served items
/// always come ordered by identifier.
pub proof fn lemma_page_slice_ascending(rows: Seq<ItemModel>, limit: u64, offset: u64)
    requires
        ids_ascending(rows),
    ensures
        ids_ascending(page_slice(rows, limit, offset)),
{
    let cut = page_slice(rows, limit, offset);
    let len = rows.len() as int;
    let start = if offset <= len {
        offset as int
    } else {
        len
    };
    assert forall|i: int, j: int| 0 <= i < j < cut.len() implies (#[trigger] cut[i]).id
        < (#[trigger] cut[j]).id by {
        assert(cut[i] == rows[start + i]);
        assert(cut[j] == rows[start + j]);
    }
}

/// The authoritative store: its rows, and whether it currently fails.
pub struct PrimaryStore {
    pub rows: Vec<Item>,
    pub fault: Option<StoreFault>,
}

impl PrimaryStore {
    /// Rows are kept in strictly ascending identifier order, so every
    /// page read is ordered and repeatable.
    pub open spec fn rows_sorted(&self) -> bool {
        forall|i: int, j: int|
            0 <= i < j < self.rows@.len() ==> (#[trigger] self.rows@[i]).id
                < (#[trigger] self.rows@[j]).id
    }

    pub open spec fn rows_model(&self) -> Seq<ItemModel> {
        self.rows.deep_view()
    }

    pub open spec fn fault_model(&self) -> Option<Seq<char>> {
        match self.fault {
            Some(f) => Some(f.message@),
            Option::None => Option::None,
        }
    }

    /// The store invariant carries over to the mathematical rows.
    pub proof fn lemma_rows_model_ascending(&self)
        requires
            self.rows_sorted(),
        ensures
            ids_ascending(self.rows_model()),
    {
        assert forall|i: int, j: int| 0 <= i < j < self.rows_model().len() implies (
        #[trigger] self.rows_model()[i]).id < (#[trigger] self.rows_model()[j]).id by {
            assert(self.rows_model()[i] == self.rows@[i]@);
            assert(self.rows_model()[j] == self.rows@[j]@);
        }
    }

    /// A healthy store over the given rows.
    pub fn new(rows: Vec<Item>) -> (store: PrimaryStore)
        requires
            forall|i: int, j: int|
                0 <= i < j < rows@.len() ==> (#[trigger] rows@[i]).id < (#[trigger] rows@[j]).id,
        ensures
            store.rows_sorted(),
            store.rows_model() == rows.deep_view(),
            store.fault_model() is None,
    {
        PrimaryStore { rows, fault: None }
    }

    /// Makes every subsequent read fail with the given message, as a
    /// store whose connection is broken would.
    pub fn set_fault(&mut self, message: String)
        ensures
            final(self).rows_model() == old(self).rows_model(),
            final(self).rows@ == old(self).rows@,
            final(self).fault_model() == Some(message@),
    {
        self.fault = Some(StoreFault { message });
    }

    /// Heals the store: reads succeed again.
    pub fn clear_fault(&mut self)
        ensures
            final(self).rows_model() == old(self).rows_model(),
            final(self).rows@ == old(self).rows@,
            final(self).fault_model() is None,
    {
        self.fault = None;
    }

    /// The bounded, offset-paginated read: up to `limit` rows from
    /// `offset` on, in stored (ascending identifier) order. A fault is
    /// handed back untransformed; a page past the last row is an empty
    /// success, not an error.
    pub fn fetch_page(&self, limit: u64, offset: u64) -> (r: Result<Vec<Item>, StoreFault>)
        ensures
            match r {
                Ok(items) => self.fault_model() is None && items.deep_view() == page_slice(
                    self.rows_model(),
                    limit,
                    offset,
                ),
                Err(f) => self.fault_model() == Some(f.message@),
            },
    {
        match &self.fault {
            Some(f) => Err(f.clone()),
            None => {
                let n = self.rows.len();
                let start: usize = if offset <= n as u64 {
                    offset as usize
                } else {
                    n
                };
                let remaining = n - start;
                let end: usize = if limit < remaining as u64 {
                    start + (limit as usize)
                } else {
                    n
                };
                let mut items: Vec<Item> = Vec::new();
                let mut i: usize = start;
                proof {
                    assert(items.deep_view() =~= self.rows_model().subrange(
                        start as int,
                        start as int,
                    ));
                }
                while i < end
                    invariant
                        start <= i <= end <= self.rows@.len(),
                        items.deep_view() == self.rows_model().subrange(start as int, i as int),
                    decreases end - i,
                {
                    let ghost pre = items.deep_view();
                    items.push(self.rows[i].clone());
                    proof {
                        assert(items.deep_view() =~= pre.push(self.rows@[i as int]@));
                        assert(self.rows_model().subrange(start as int, i as int).push(
                            self.rows_model()[i as int],
                        ) =~= self.rows_model().subrange(start as int, i as int + 1));
                    }
                    i = i + 1;
                }
                proof {
                    assert(items.deep_view() == page_slice(self.rows_model(), limit, offset));
                }
                Ok(items)
            },
        }
    }
}

} // verus!
