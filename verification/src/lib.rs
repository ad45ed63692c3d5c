//! Core of a periodic call-auction matching engine: an order book with
//! price-time priority, a clearing-price algorithm that maximizes executable
//! volume (tie-broken by minimal imbalance, then lowest price), and a tracker
//! for the signed bid/ask quantity imbalance.
//!
//! Prices are carried as signed fixed-point tick counts, so that the book's
//! price index has the total order it requires; callers convert from any
//! display representation at the boundary and reject values that have no
//! finite tick representation.

pub mod auction;
pub mod imbalance;
pub mod order_book;
pub mod orders;
