//! Price runs. Deriving buy, sell and fix prices from a scraped price, and
//! comparing it with our own pricing, is not defined yet; the handler only
//! holds its record count.

use vstd::prelude::*;

verus! {

/// Counts the records of one source of a price run.
pub struct PriceHandler {
    record_count: usize,
}

impl PriceHandler {
    pub closed spec fn count(&self) -> nat {
        self.record_count as nat
    }

    pub fn new() -> (res: Self)
        ensures
            res.count() == 0,
    {
        PriceHandler { record_count: 0 }
    }
}

impl Default for PriceHandler {
    fn default() -> (res: Self)
        ensures
            res.count() == 0,
    {
        PriceHandler::new()
    }
}

} // verus!
