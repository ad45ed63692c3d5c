use vstd::prelude::*;
use crate::order_book::OrderBook;

verus! {

/// The smaller of two quantities.
pub open spec fn min_int(a: int, b: int) -> int {
    if a < b {
        a
    } else {
        b
    }
}

/// Absolute difference of two quantities.
pub open spec fn abs_diff(a: int, b: int) -> int {
    if a > b {
        a - b
    } else {
        b - a
    }
}

/// Executable volume at candidate price `p`: the smaller of the aggregate
/// bid quantity at or above `p` and the aggregate ask quantity at or below
/// `p`.
pub open spec fn spec_executable(book: OrderBook, p: int) -> int {
    min_int(book.spec_bid_at_or_above(p), book.spec_ask_at_or_below(p))
}

/// Order imbalance at candidate price `p`: how far the two matched
/// aggregates are apart.
pub open spec fn spec_imbalance_at(book: OrderBook, p: int) -> int {
    abs_diff(book.spec_bid_at_or_above(p), book.spec_ask_at_or_below(p))
}

/// Candidate `p` ranks strictly ahead of candidate `q` in the clearing-price
/// search: larger executable volume; on equal volume, smaller imbalance; on
/// equal volume and imbalance, the lower price.
pub open spec fn prefer(book: OrderBook, p: int, q: int) -> bool {
    ||| spec_executable(book, p) > spec_executable(book, q)
    ||| (spec_executable(book, p) == spec_executable(book, q) && spec_imbalance_at(book, p)
        < spec_imbalance_at(book, q))
    ||| (spec_executable(book, p) == spec_executable(book, q) && spec_imbalance_at(book, p)
        == spec_imbalance_at(book, q) && p < q)
}

/// The ranking is transitive, so the scan's running best candidate beats
/// every candidate already seen.
pub proof fn lemma_prefer_trans(book: OrderBook, p: int, q: int, r: int)
    requires
        prefer(book, p, q),
        prefer(book, q, r),
    ensures
        prefer(book, p, r),
{
}

/// Tie-break determinism: of two candidates with identical executable
/// volume and identical imbalance, a price satisfying the winner
/// characterization of the clearing-price search is never the higher of the
/// two.
pub proof fn lemma_tie_break_determinism(book: OrderBook, p1: int, p2: int, winner: int)
    requires
        book.spec_is_candidate(p1),
        book.spec_is_candidate(p2),
        p1 < p2,
        spec_executable(book, p1) == spec_executable(book, p2),
        spec_imbalance_at(book, p1) == spec_imbalance_at(book, p2),
        book.spec_is_candidate(winner),
        forall|q: int| book.spec_is_candidate(q) && q != winner ==> prefer(book, winner, q),
    ensures
        winner != p2,
{
    if winner == p2 {
        assert(book.spec_is_candidate(p1) && p1 != winner);
        assert(prefer(book, p2, p1));
    }
}

/// One-sided degenerate outcome: with only bids resting, every price
/// matches zero ask quantity, so the executable volume is zero everywhere;
/// the search still ranks the candidates and returns one rather than
/// failing.
pub proof fn lemma_one_sided_book(book: OrderBook, q: int)
    requires
        book.asks@.len() == 0,
    ensures
        book.spec_ask_at_or_below(q) == 0,
        spec_executable(book, q) == 0,
{
    crate::order_book::lemma_sum_bounds(book.bids@, q);
}

/// For a one-sided book whose bids all rest at a single price, that price
/// is the selected clearing price.
pub proof fn lemma_one_sided_single_level(book: OrderBook, winner: int)
    requires
        book.asks@.len() == 0,
        book.bids@.len() >= 1,
        forall|i: int|
            0 <= i < book.bids@.len() ==> (#[trigger] book.bids@[i]).price == book.bids@[0].price,
        book.spec_is_candidate(winner),
        forall|q: int| book.spec_is_candidate(q) && q != winner ==> prefer(book, winner, q),
    ensures
        winner == book.bids@[0].price as int,
{
    assert(crate::order_book::has_price(book.bids@, winner));
    let i = choose|i: int| 0 <= i < book.bids@.len() && book.bids@[i].price == winner;
    assert(book.bids@[i].price == book.bids@[0].price);
}

/// Computes clearing prices from a snapshot of the order book and remembers
/// the price of the most recent successful auction.
pub struct AuctionSystem {
    pub last_clearing_price: Option<i64>,
}

impl AuctionSystem {
    /// A fresh engine has recorded no clearing price.
    pub fn new() -> (a: Self)
        ensures
            a.last_clearing_price is None,
    {
        Self { last_clearing_price: None }
    }

    /// Scans the candidate prices of a consistent snapshot of the book, in
    /// ascending order, and returns the one that maximizes executable
    /// volume, tie-broken by minimal imbalance and then by the lowest price.
    /// Returns `None` exactly when the book is empty (no candidates); a
    /// one-sided book still yields the best-ranked candidate, with
    /// executable volume zero.
    pub fn calculate_auction_price(&self, order_book: &OrderBook) -> (r: Option<i64>)
        requires
            order_book.wf(),
        ensures
            r is None <==> order_book.spec_is_empty(),
            r matches Some(p) ==> order_book.spec_is_candidate(p as int) && forall|q: int|
                order_book.spec_is_candidate(q) && q != p ==> prefer(*order_book, p as int, q),
    {
        let candidates = order_book.candidate_prices();
        let n = candidates.len();
        let mut best_price: Option<i64> = None;
        let mut best_volume: u64 = 0;
        let mut best_imbalance: u64 = 0;
        let mut idx: usize = 0;
        while idx < n
            invariant
                order_book.wf(),
                n == candidates@.len(),
                idx <= n,
                forall|a: int, b: int| 0 <= a < b < n ==> candidates@[a] < candidates@[b],
                forall|jj: int|
                    0 <= jj < n ==> order_book.spec_is_candidate(candidates@[jj] as int),
                best_price is None ==> idx == 0,
                best_price matches Some(bp) ==> {
                    &&& exists|jj: int| 0 <= jj < idx && candidates@[jj] == bp
                    &&& best_volume == spec_executable(*order_book, bp as int)
                    &&& best_imbalance == spec_imbalance_at(*order_book, bp as int)
                    &&& forall|jj: int|
                        0 <= jj < idx && candidates@[jj] != bp ==> prefer(
                            *order_book,
                            bp as int,
                            candidates@[jj] as int,
                        )
                },
            decreases n - idx,
        {
            let price = candidates[idx];
            let bid_qty = order_book.total_bid_quantity_at_or_above(price);
            let ask_qty = order_book.total_ask_quantity_at_or_below(price);
            let executable = if bid_qty < ask_qty {
                bid_qty
            } else {
                ask_qty
            };
            let imbalance = if bid_qty > ask_qty {
                bid_qty - ask_qty
            } else {
                ask_qty - bid_qty
            };
            let better = match best_price {
                None => true,
                Some(_) => executable > best_volume || (executable == best_volume && imbalance
                    < best_imbalance),
            };
            if better {
                proof {
                    if best_price is Some {
                        let bp = best_price->0;
                        assert(prefer(*order_book, price as int, bp as int));
                        assert forall|jj: int|
                            0 <= jj < idx + 1 && candidates@[jj] != price implies prefer(
                            *order_book,
                            price as int,
                            candidates@[jj] as int,
                        ) by {
                            if jj < idx {
                                if candidates@[jj] == bp {
                                } else {
                                    lemma_prefer_trans(
                                        *order_book,
                                        price as int,
                                        bp as int,
                                        candidates@[jj] as int,
                                    );
                                }
                            }
                        }
                    }
                }
                best_price = Some(price);
                best_volume = executable;
                best_imbalance = imbalance;
            } else {
                proof {
                    let bp = best_price->0;
                    let kk = choose|kk: int| 0 <= kk < idx && candidates@[kk] == bp;
                    assert(candidates@[kk] < candidates@[idx as int]);
                    assert(prefer(*order_book, bp as int, price as int));
                }
            }
            idx = idx + 1;
        }
        proof {
            if n == 0 {
                if order_book.bids@.len() > 0 {
                    assert(candidates@.contains(order_book.bids@[0].price));
                }
                if order_book.asks@.len() > 0 {
                    assert(candidates@.contains(order_book.asks@[0].price));
                }
                assert(order_book.spec_is_empty());
            } else {
                assert(best_price is Some);
                let bp = best_price->0;
                assert forall|q: int|
                    order_book.spec_is_candidate(q) && q != bp implies prefer(
                    *order_book,
                    bp as int,
                    q,
                ) by {
                    if crate::order_book::has_price(order_book.bids@, q) {
                        let ii = choose|ii: int|
                            0 <= ii < order_book.bids@.len() && order_book.bids@[ii].price == q;
                        assert(candidates@.contains(order_book.bids@[ii].price));
                        let jj = choose|jj: int|
                            0 <= jj < candidates@.len() && candidates@[jj] == order_book.bids@[
                                ii
                            ].price;
                        assert(candidates@[jj] as int == q);
                    } else {
                        let ii = choose|ii: int|
                            0 <= ii < order_book.asks@.len() && order_book.asks@[ii].price == q;
                        assert(candidates@.contains(order_book.asks@[ii].price));
                        let jj = choose|jj: int|
                            0 <= jj < candidates@.len() && candidates@[jj] == order_book.asks@[
                                ii
                            ].price;
                        assert(candidates@[jj] as int == q);
                    }
                }
                assert(!order_book.spec_is_empty()) by {
                    let jj = choose|jj: int| 0 <= jj < idx && candidates@[jj] == bp;
                    assert(order_book.spec_is_candidate(candidates@[jj] as int));
                }
            }
        }
        best_price
    }

    /// Runs one auction over a consistent snapshot of the book. On success
    /// records the clearing price and returns it with the executed quantity
    /// (the executable volume at that price); on failure returns `None` and
    /// leaves the last recorded price unchanged, so a previous cycle's
    /// result stays observable.
    pub fn execute_auction(&mut self, order_book: &OrderBook) -> (outcome: Option<(i64, u64)>)
        requires
            order_book.wf(),
        ensures
            outcome is None <==> order_book.spec_is_empty(),
            outcome is None ==> final(self).last_clearing_price == old(self).last_clearing_price,
            outcome matches Some((p, q)) ==> {
                &&& final(self).last_clearing_price == Some(p)
                &&& order_book.spec_is_candidate(p as int)
                &&& forall|c: int|
                    order_book.spec_is_candidate(c) && c != p ==> prefer(*order_book, p as int, c)
                &&& q == spec_executable(*order_book, p as int)
            },
    {
        let clearing_price_option = self.calculate_auction_price(order_book);
        match clearing_price_option {
            Some(price) => {
                self.last_clearing_price = Some(price);
                let bid_qty = order_book.total_bid_quantity_at_or_above(price);
                let ask_qty = order_book.total_ask_quantity_at_or_below(price);
                let executed_qty = if bid_qty < ask_qty {
                    bid_qty
                } else {
                    ask_qty
                };
                Some((price, executed_qty))
            }
            None => None,
        }
    }
}

} // verus!
