//! One table: an ordered list of the items ordered there. Positions are
//! offsets into the current list; removing an item shifts every later item
//! down by one.
use vstd::prelude::*;

use crate::item::{item_numbers, MenuItem};

verus! {

/// How many of `n` available results a read returns under `limit`: all of
/// them when there is no limit, else at most `limit`.
pub open spec fn capped(limit: Option<u64>, n: nat) -> nat {
    match limit {
        None => n,
        Some(l) => if (l as nat) < n { l as nat } else { n },
    }
}

/// `after` is `before` with one new item per number appended, in the order
/// of the numbers, each new item with a cooking time in range.
pub open spec fn appended(before: Seq<MenuItem>, after: Seq<MenuItem>, numbers: Seq<u64>) -> bool {
    &&& after.len() == before.len() + numbers.len()
    &&& after.take(before.len() as int) == before
    &&& item_numbers(after) == item_numbers(before) + numbers
    &&& forall|k: int| before.len() <= k < after.len() ==> (#[trigger] after[k]).wf()
}

/// The items ordered at one table, oldest first.
pub struct Table {
    items: Vec<MenuItem>,
}

impl View for Table {
    type V = Seq<MenuItem>;

    closed spec fn view(&self) -> Seq<MenuItem> {
        self.items@
    }
}

impl Table {
    /// A table with no items.
    pub fn new() -> (r: Table)
        ensures
            r@ == Seq::<MenuItem>::empty(),
    {
        Table { items: Vec::new() }
    }

    /// The number of items at the table.
    pub fn len(&self) -> (r: usize)
        ensures
            r == self@.len(),
    {
        self.items.len()
    }

    /// Whether the table has no items.
    pub fn is_empty(&self) -> (r: bool)
        ensures
            r == (self@.len() == 0),
    {
        self.items.len() == 0
    }

    /// A copy of the first `limit` items (all of them without a limit), in
    /// order.
    pub fn list_items(&self, limit: Option<u64>) -> (r: Vec<MenuItem>)
        ensures
            r@ == self@.take(capped(limit, self@.len()) as int),
    {
        let n: usize = match limit {
            None => self.items.len(),
            Some(l) => if (l as u128) < (self.items.len() as u128) {
                l as usize
            } else {
                self.items.len()
            },
        };
        let mut r: Vec<MenuItem> = Vec::with_capacity(n);
        let mut i: usize = 0;
        while i < n
            invariant
                n == capped(limit, self@.len()),
                n <= self@.len(),
                i <= n,
                r@ == self@.take(i as int),
            decreases n - i,
        {
            r.push(self.items[i]);
            i += 1;
            assert(r@ =~= self@.take(i as int));
        }
        r
    }

    /// The item at `position`, if there is one.
    pub fn get_item(&self, position: usize) -> (r: Option<MenuItem>)
        ensures
            r == (if position < self@.len() {
                Some(self@[position as int])
            } else {
                None
            }),
    {
        if position < self.items.len() {
            Some(self.items[position])
        } else {
            None
        }
    }

    /// Appends one new item per number, in the order given, each with a fresh
    /// cooking time.
    pub fn add_items(&mut self, numbers: &Vec<u64>)
        ensures
            appended(old(self)@, final(self)@, numbers@),
    {
        let ghost start = self@;
        let mut i: usize = 0;
        while i < numbers.len()
            invariant
                i <= numbers@.len(),
                self@.len() == start.len() + i,
                self@.take(start.len() as int) == start,
                item_numbers(self@) == item_numbers(start) + numbers@.take(i as int),
                forall|k: int| start.len() <= k < self@.len() ==> (#[trigger] self@[k]).wf(),
            decreases numbers@.len() - i,
        {
            let item = MenuItem::new(numbers[i]);
            let ghost before = self@;
            self.items.push(item);
            i += 1;
            proof {
                assert(self@ == before.push(item));
                assert(self@.take(start.len() as int) =~= before.take(start.len() as int));
                assert(item_numbers(self@) =~= item_numbers(before).push(item.item_number));
                assert(numbers@.take(i as int) =~= numbers@.take(i - 1).push(numbers@[i - 1]));
                assert(item_numbers(self@) =~= item_numbers(start) + numbers@.take(i as int));
            }
        }
        proof {
            assert(numbers@.take(i as int) =~= numbers@);
        }
    }

    /// Removes the item at `position`, shifting every later item down by
    /// one, and returns true; leaves the table as it is and returns false
    /// when there is no item at `position`.
    pub fn delete_item(&mut self, position: usize) -> (r: bool)
        ensures
            r == (position < old(self)@.len()),
            r ==> final(self)@ == old(self)@.remove(position as int),
            !r ==> final(self)@ == old(self)@,
    {
        if position < self.items.len() {
            self.items.remove(position);
            true
        } else {
            false
        }
    }
}

/// After items are added, a listing without a limit shows the numbers the
/// table held followed by the added numbers in the order given; on an empty
/// table it shows exactly the added numbers.
pub proof fn law_added_items_listed(before: Seq<MenuItem>, after: Seq<MenuItem>, numbers: Seq<u64>)
    requires
        appended(before, after, numbers),
    ensures
        item_numbers(after.take(capped(None, after.len()) as int)) == item_numbers(before)
            + numbers,
        before.len() == 0 ==> item_numbers(after.take(capped(None, after.len()) as int))
            == numbers,
{
    assert(after.take(capped(None, after.len()) as int) =~= after);
    if before.len() == 0 {
        assert(item_numbers(before) =~= Seq::<u64>::empty());
        assert(item_numbers(before) + numbers =~= numbers);
    }
}

/// Deleting position `i` leaves, in a listing without a limit, the items
/// before `i` followed by those after it; the item that was at `i + 1` is
/// now at `i`, so deleting `i` again removes what was originally at `i + 1`.
pub proof fn law_delete_shifts(before: Seq<MenuItem>, i: int)
    requires
        0 <= i < before.len(),
    ensures
        before.remove(i).take(capped(None, before.remove(i).len()) as int) == before.take(i)
            + before.skip(i + 1),
        i + 1 < before.len() ==> before.remove(i)[i] == before[i + 1],
        i + 1 < before.len() ==> before.remove(i).remove(i) == before.take(i) + before.skip(
            i + 2,
        ),
{
    let after = before.remove(i);
    assert(after.take(capped(None, after.len()) as int) =~= before.take(i) + before.skip(i + 1));
    if i + 1 < before.len() {
        assert(after.remove(i) =~= before.take(i) + before.skip(i + 2));
    }
}

} // verus!
