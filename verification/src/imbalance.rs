use vstd::prelude::*;

verus! {

/// Tracks the signed difference between aggregate bid and ask quantity.
/// Each `update` overwrites the stored value; there is no accumulation.
pub struct ImbalanceHandler {
    pub imbalance: i64,
}

impl ImbalanceHandler {
    /// A fresh tracker reports no imbalance.
    pub fn new() -> (h: Self)
        ensures
            h.imbalance == 0,
    {
        Self { imbalance: 0 }
    }

    /// Stores `bid_qty - ask_qty` as the current imbalance, overwriting the
    /// previous value.
    pub fn update(&mut self, bid_qty: i64, ask_qty: i64)
        requires
            i64::MIN <= bid_qty - ask_qty <= i64::MAX,
        ensures
            final(self).imbalance == bid_qty - ask_qty,
    {
        self.imbalance = bid_qty - ask_qty;
    }

    /// Returns the current imbalance.
    pub fn get(&self) -> (r: i64)
        ensures
            r == self.imbalance,
    {
        self.imbalance
    }
}

} // verus!
