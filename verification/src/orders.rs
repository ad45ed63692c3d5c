use vstd::prelude::*;

verus! {

/// Classification carried on each order as metadata; the matching algorithm
/// does not branch on it.
#[derive(Clone, Copy, Debug, PartialEq, Eq)]
pub enum OrderType {
    MOC,
    LOC,
    IO,
}

/// Which side of the book an order rests on.
#[derive(Clone, Copy, Debug, PartialEq, Eq)]
pub enum OrderSide {
    Bid,
    Ask,
}

/// An immutable order record. `price` is a fixed-point tick count (always a
/// finite value by construction); `timestamp` is a monotonically comparable
/// admission time used as the sole tie-break within a price level.
#[derive(Clone, Copy, Debug)]
pub struct Order {
    pub id: u64,
    pub price: i64,
    pub quantity: u64,
    pub timestamp: u64,
    pub order_type: OrderType,
    pub side: OrderSide,
}

/// Error returned when order admission rejects an order: zero quantity, or a
/// submitted price with no finite tick representation.
#[derive(Clone, Copy, Debug, PartialEq, Eq)]
pub struct InvalidOrder;

} // verus!
