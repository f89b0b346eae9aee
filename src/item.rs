//! Menu items: a caller-given item number and a cooking time drawn when the
//! item is created.
use vstd::prelude::*;

verus! {

/// Shortest cooking time, in minutes, that a new item can get.
pub const MIN_DURATION: u64 = 5;

/// Cooking times of new items lie below this bound, in minutes.
pub const MAX_DURATION_EXCLUSIVE: u64 = 16;

/// An item ordered at a table.
#[derive(Clone, Copy, Debug, PartialEq, Eq, Structural)]
pub struct MenuItem {
    /// Which dish this is (1 for fries, 2 for karaage, ...); not unique.
    pub item_number: u64,
    /// How long the dish takes to cook, in whole minutes.
    pub duration_in_minutes: u64,
}

impl MenuItem {
    /// The cooking time lies in the range that new items are drawn from.
    pub open spec fn wf(self) -> bool {
        MIN_DURATION <= self.duration_in_minutes < MAX_DURATION_EXCLUSIVE
    }

    /// A new item with the given number and a random cooking time.
    pub fn new(item_number: u64) -> (r: MenuItem)
        ensures
            r.item_number == item_number,
            r.wf(),
    {
        let duration_in_minutes = random_in_range(MIN_DURATION, MAX_DURATION_EXCLUSIVE);
        MenuItem { item_number, duration_in_minutes }
    }
}

/// Relies on rand::thread_rng and rand::Rng::gen_range: the thread-local
/// generator draws a value from the half-open range `low..high`; gen_range
/// panics only when that range is empty.
#[verifier::external_body]
fn random_in_range(low: u64, high: u64) -> (r: u64)
    requires
        low < high,
    ensures
        low <= r < high,
{
    rand::Rng::gen_range(&mut rand::thread_rng(), low..high)
}

/// The item numbers of a sequence of items, in order.
pub open spec fn item_numbers(items: Seq<MenuItem>) -> Seq<u64> {
    items.map_values(|i: MenuItem| i.item_number)
}

/// Every item of the sequence has a cooking time in range.
pub open spec fn all_wf(items: Seq<MenuItem>) -> bool {
    forall|k: int| 0 <= k < items.len() ==> (#[trigger] items[k]).wf()
}

} // verus!
