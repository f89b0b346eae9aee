//! The store: a fixed number of tables, each behind its own reader-writer
//! lock. Every operation locks exactly one table at a time, so operations on
//! different tables never wait on each other, and two writers of one table
//! never interleave.
//!
//! Other callers may change a table between two calls, so the contracts here
//! state what holds whatever the table held when its lock was taken. Under
//! the lock each operation runs the matching `Table` operation, whose
//! contract says exactly what it returns and how the table changes.
use vstd::prelude::*;
use vstd::rwlock::{RwLock, RwLockPredicate};

use crate::item::{all_wf, MenuItem};
use crate::table::{capped, Table};

verus! {

/// The number of tables a store is usually made with.
pub const DEFAULT_TABLE_COUNT: usize = 50;

/// What holds of every table behind a lock: each item's cooking time is in
/// range.
pub struct ItemsInRange;

impl RwLockPredicate<Table> for ItemsInRange {
    open spec fn inv(self, t: Table) -> bool {
        all_wf(t@)
    }
}

/// A table number outside the store.
#[derive(Clone, Copy, Debug, PartialEq, Eq, Structural)]
pub struct NotFound;

/// One non-empty table as read by `list_all_non_empty`.
#[derive(Debug)]
pub struct TableListing {
    pub table_number: usize,
    pub items: Vec<MenuItem>,
}

/// `after` is the listing `before` after the table `table_number`, which
/// held `items`, was considered: a non-empty table is appended with all its
/// items while fewer than `want` tables are listed; otherwise nothing
/// changes.
pub open spec fn admitted(
    before: Seq<TableListing>,
    after: Seq<TableListing>,
    table_number: usize,
    items: Seq<MenuItem>,
    want: nat,
) -> bool {
    if before.len() < want && items.len() > 0 {
        &&& after.len() == before.len() + 1
        &&& after.take(before.len() as int) == before
        &&& after.last().table_number == table_number
        &&& after.last().items@ == items
    } else {
        after == before
    }
}

/// Considers one table for a listing of at most `want` non-empty tables:
/// appends it, with a copy of all its items, when it is non-empty and the
/// listing is not full yet.
pub fn admit_table(listing: &mut Vec<TableListing>, table_number: usize, table: &Table, want: usize)
    ensures
        admitted(old(listing)@, final(listing)@, table_number, table@, want as nat),
{
    if listing.len() < want && !table.is_empty() {
        let items = table.list_items(None);
        proof {
            assert(items@ =~= table@);
        }
        let ghost before = listing@;
        listing.push(TableListing { table_number, items });
        proof {
            assert(listing@.take(before.len() as int) =~= before);
        }
    }
}

/// A fixed number of independently locked tables.
pub struct TableStore {
    tables: Vec<RwLock<Table, ItemsInRange>>,
}

impl TableStore {
    /// The number of tables; it never changes.
    pub closed spec fn size(&self) -> nat {
        self.tables@.len()
    }

    /// A store of `table_count` empty tables.
    pub fn new(table_count: usize) -> (r: TableStore)
        ensures
            r.size() == table_count,
    {
        let mut tables: Vec<RwLock<Table, ItemsInRange>> = Vec::with_capacity(table_count);
        let mut i: usize = 0;
        while i < table_count
            invariant
                i <= table_count,
                tables@.len() == i,
            decreases table_count - i,
        {
            let table = Table::new();
            proof {
                assert(all_wf(table@));
            }
            tables.push(RwLock::new(table, Ghost(ItemsInRange)));
            i += 1;
        }
        TableStore { tables }
    }

    /// The number of tables.
    pub fn table_count(&self) -> (r: usize)
        ensures
            r == self.size(),
    {
        self.tables.len()
    }

    /// The first `limit` items of the table (all of them without a limit), in
    /// order, copied out under the table's read lock; `NotFound` when there
    /// is no such table.
    pub fn list_items(&self, table_number: usize, limit: Option<u64>) -> (r: Result<
        Vec<MenuItem>,
        NotFound,
    >)
        ensures
            r is Err <==> table_number >= self.size(),
            table_number >= self.size() ==> r == Err::<Vec<MenuItem>, NotFound>(NotFound),
            r matches Ok(v) ==> all_wf(v@) && (limit matches Some(l) ==> v@.len() <= l),
    {
        if table_number >= self.tables.len() {
            return Err(NotFound);
        }
        let handle = self.tables[table_number].acquire_read();
        let table = handle.borrow();
        let v = table.list_items(limit);
        proof {
            assert(all_wf(table@));
        }
        handle.release_read();
        Ok(v)
    }

    /// The item at `position` of the table, read under its lock; `None` when
    /// there is no such table or no such position.
    pub fn get_item(&self, table_number: usize, position: usize) -> (r: Option<MenuItem>)
        ensures
            table_number >= self.size() ==> r is None,
            r matches Some(it) ==> it.wf(),
    {
        if table_number >= self.tables.len() {
            return None;
        }
        let handle = self.tables[table_number].acquire_read();
        let table = handle.borrow();
        let r = table.get_item(position);
        proof {
            assert(all_wf(table@));
        }
        handle.release_read();
        r
    }

    /// Appends one new item per number, in order and each with a fresh
    /// cooking time, to the table under its write lock, and returns true;
    /// returns false and changes nothing when there is no such table.
    pub fn add_items(&self, table_number: usize, numbers: &Vec<u64>) -> (r: bool)
        ensures
            r == (table_number < self.size()),
    {
        if table_number >= self.tables.len() {
            return false;
        }
        let (mut table, handle) = self.tables[table_number].acquire_write();
        let ghost before = table@;
        table.add_items(numbers);
        proof {
            assert forall|k: int| 0 <= k < table@.len() implies (#[trigger] table@[k]).wf() by {
                if k < before.len() {
                    assert(table@[k] == table@.take(before.len() as int)[k]);
                }
            }
        }
        handle.release_write(table);
        true
    }

    /// Removes the item at `position` of the table under its write lock,
    /// shifting every later item down by one, and returns true; returns false
    /// and changes nothing when there is no such table or no such position.
    pub fn delete_item(&self, table_number: usize, position: usize) -> (r: bool)
        ensures
            table_number >= self.size() ==> !r,
    {
        if table_number >= self.tables.len() {
            return false;
        }
        let (mut table, handle) = self.tables[table_number].acquire_write();
        let ghost before = table@;
        let r = table.delete_item(position);
        proof {
            assert forall|k: int| 0 <= k < table@.len() implies (#[trigger] table@[k]).wf() by {
                if r {
                    if k < position {
                        assert(table@[k] == before[k]);
                    } else {
                        assert(table@[k] == before[k + 1]);
                    }
                }
            }
        }
        handle.release_write(table);
        r
    }

    /// The non-empty tables, in ascending table order, each read under its
    /// own lock one after the other and considered by `admit_table`; stops
    /// once `limit` tables were found (no limit: reads every table).
    pub fn list_all_non_empty(&self, limit: Option<u64>) -> (r: Vec<TableListing>)
        ensures
            r@.len() <= capped(limit, self.size()),
            forall|k: int|
                0 <= k < r@.len() ==> {
                    &&& (#[trigger] r@[k]).table_number < self.size()
                    &&& r@[k].items@.len() > 0
                    &&& all_wf(r@[k].items@)
                },
            forall|j: int, k: int|
                0 <= j < k < r@.len() ==> #[trigger] r@[j].table_number
                    < #[trigger] r@[k].table_number,
    {
        let n: usize = self.tables.len();
        let want: usize = match limit {
            None => n,
            Some(l) => if (l as u128) < (n as u128) {
                l as usize
            } else {
                n
            },
        };
        let mut r: Vec<TableListing> = Vec::new();
        let mut i: usize = 0;
        while i < n && r.len() < want
            invariant
                n == self.size(),
                want == capped(limit, self.size()),
                i <= n,
                r@.len() <= want,
                forall|k: int|
                    0 <= k < r@.len() ==> {
                        &&& (#[trigger] r@[k]).table_number < i
                        &&& r@[k].items@.len() > 0
                        &&& all_wf(r@[k].items@)
                    },
                forall|j: int, k: int|
                    0 <= j < k < r@.len() ==> #[trigger] r@[j].table_number
                        < #[trigger] r@[k].table_number,
            decreases n - i,
        {
            let handle = self.tables[i].acquire_read();
            let table = handle.borrow();
            let ghost before = r@;
            admit_table(&mut r, i, table, want);
            proof {
                assert(all_wf(table@));
                if r@.len() > before.len() {
                    assert forall|k: int| 0 <= k < r@.len() implies {
                        &&& (#[trigger] r@[k]).table_number < i + 1
                        &&& r@[k].items@.len() > 0
                        &&& all_wf(r@[k].items@)
                    } by {
                        if k < before.len() {
                            assert(r@[k] == r@.take(before.len() as int)[k]);
                        }
                    }
                    assert forall|j: int, k: int|
                        0 <= j < k < r@.len() implies #[trigger] r@[j].table_number
                            < #[trigger] r@[k].table_number by {
                        assert(r@[j] == r@.take(before.len() as int)[j]);
                        if k < before.len() {
                            assert(r@[k] == r@.take(before.len() as int)[k]);
                        }
                    }
                }
            }
            handle.release_read();
            i += 1;
        }
        r
    }
}

} // verus!
