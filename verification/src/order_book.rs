use vstd::prelude::*;
use crate::orders::{InvalidOrder, Order, OrderSide, OrderType};

verus! {

// ---------------------------------------------------------------------------
// Specification: ordering of orders on a side, quantity sums, price levels.
// ---------------------------------------------------------------------------

/// `a` may stand before `b` on a side: ascending price, and FIFO by
/// timestamp within one price level.
pub open spec fn ord_le(a: Order, b: Order) -> bool {
    a.price < b.price || (a.price == b.price && a.timestamp <= b.timestamp)
}

/// The side is sorted by price, and by timestamp within each price level.
pub open spec fn sorted_side(s: Seq<Order>) -> bool {
    forall|i: int, j: int| 0 <= i < j < s.len() ==> ord_le(s[i], s[j])
}

/// Sum of the quantities of all orders in `s`.
pub open spec fn sum_qty(s: Seq<Order>) -> int
    decreases s.len(),
{
    if s.len() == 0 {
        0
    } else {
        s.first().quantity + sum_qty(s.drop_first())
    }
}

/// Sum of the quantities of the orders in `s` whose price is at least `p`.
pub open spec fn sum_qty_at_or_above(s: Seq<Order>, p: int) -> int
    decreases s.len(),
{
    if s.len() == 0 {
        0
    } else {
        (if s.first().price >= p {
            s.first().quantity as int
        } else {
            0
        }) + sum_qty_at_or_above(s.drop_first(), p)
    }
}

/// Sum of the quantities of the orders in `s` whose price is at most `p`.
pub open spec fn sum_qty_at_or_below(s: Seq<Order>, p: int) -> int
    decreases s.len(),
{
    if s.len() == 0 {
        0
    } else {
        (if s.first().price <= p {
            s.first().quantity as int
        } else {
            0
        }) + sum_qty_at_or_below(s.drop_first(), p)
    }
}

/// Some order in `s` rests at price `p`.
pub open spec fn has_price(s: Seq<Order>, p: int) -> bool {
    exists|i: int| 0 <= i < s.len() && s[i].price == p
}

/// The orders of `s` resting at price `p`, in stored order: one price level.
pub open spec fn level_at(s: Seq<Order>, p: int) -> Seq<Order>
    decreases s.len(),
{
    if s.len() == 0 {
        Seq::empty()
    } else if s.first().price == p {
        seq![s.first()] + level_at(s.drop_first(), p)
    } else {
        level_at(s.drop_first(), p)
    }
}

/// Every order in `s` belongs to `side`, has positive quantity, and the side
/// keeps price-time priority order.
pub open spec fn wf_side(s: Seq<Order>, side: OrderSide) -> bool {
    &&& forall|i: int| 0 <= i < s.len() ==> (#[trigger] s[i]).side == side && s[i].quantity >= 1
    &&& sorted_side(s)
}

/// Where an arriving order comes to rest on a side: after every resting order
/// that may stand before it (so admission order is kept among equal
/// timestamps at one price).
pub open spec fn insert_ord(s: Seq<Order>, o: Order) -> Seq<Order>
    decreases s.len(),
{
    if s.len() == 0 {
        seq![o]
    } else if ord_le(s.first(), o) {
        seq![s.first()] + insert_ord(s.drop_first(), o)
    } else {
        seq![o] + s
    }
}

// ---------------------------------------------------------------------------
// Lemmas about the sums and about insertion.
// ---------------------------------------------------------------------------

/// Quantity sums are non-negative, and a price-restricted sum never exceeds
/// the unrestricted sum of the same side.
pub proof fn lemma_sum_bounds(s: Seq<Order>, p: int)
    ensures
        0 <= sum_qty_at_or_above(s, p) <= sum_qty(s),
        0 <= sum_qty_at_or_below(s, p) <= sum_qty(s),
    decreases s.len(),
{
    if s.len() > 0 {
        lemma_sum_bounds(s.drop_first(), p);
    }
}

/// Volume monotonicity on one side: raising the threshold price never raises
/// the at-or-above sum, and never lowers the at-or-below sum.
pub proof fn lemma_sum_monotonic(s: Seq<Order>, p1: int, p2: int)
    requires
        p1 <= p2,
    ensures
        sum_qty_at_or_above(s, p2) <= sum_qty_at_or_above(s, p1),
        sum_qty_at_or_below(s, p1) <= sum_qty_at_or_below(s, p2),
    decreases s.len(),
{
    if s.len() > 0 {
        lemma_sum_monotonic(s.drop_first(), p1, p2);
    }
}

/// With the lowest possible threshold, the at-or-above sum is the side's
/// whole resting quantity.
pub proof fn lemma_sum_at_or_above_all(s: Seq<Order>)
    ensures
        sum_qty_at_or_above(s, i64::MIN as int) == sum_qty(s),
    decreases s.len(),
{
    if s.len() > 0 {
        lemma_sum_at_or_above_all(s.drop_first());
    }
}

/// Every order of the price level at `p` carries price `p` and is one of
/// the side's resting orders.
proof fn lemma_level_at_members(s: Seq<Order>, p: int)
    ensures
        forall|m: int|
            0 <= m < level_at(s, p).len() ==> (#[trigger] level_at(s, p)[m]).price == p
                && s.contains(level_at(s, p)[m]),
    decreases s.len(),
{
    if s.len() > 0 {
        let rest = s.drop_first();
        lemma_level_at_members(rest, p);
        assert forall|m: int| 0 <= m < level_at(s, p).len() implies (#[trigger] level_at(s, p)[
            m
        ]).price == p && s.contains(level_at(s, p)[m]) by {
            if s.first().price == p {
                let lv = seq![s.first()] + level_at(rest, p);
                if m == 0 {
                    assert(s[0] == lv[0]);
                    assert(s.contains(lv[0]));
                } else {
                    assert(lv[m] == level_at(rest, p)[m - 1]);
                    let i = choose|i: int| 0 <= i < rest.len() && rest[i] == lv[m];
                    assert(s[i + 1] == rest[i]);
                }
            } else {
                let x = level_at(rest, p)[m];
                let i = choose|i: int| 0 <= i < rest.len() && rest[i] == x;
                assert(s[i + 1] == rest[i]);
            }
        }
    }
}

/// Time priority: within any price level of a side that keeps priority
/// order, the stored sequence is ascending by timestamp — however the
/// orders were interleaved on admission.
pub proof fn lemma_time_priority(s: Seq<Order>, p: int)
    requires
        sorted_side(s),
    ensures
        forall|a: int, b: int|
            0 <= a < b < level_at(s, p).len() ==> (#[trigger] level_at(s, p)[a]).timestamp <= (
            #[trigger] level_at(s, p)[b]).timestamp,
    decreases s.len(),
{
    if s.len() > 0 {
        let rest = s.drop_first();
        assert(sorted_side(rest)) by {
            assert(forall|i: int, j: int|
                0 <= i < j < rest.len() ==> rest[i] == s[i + 1] && rest[j] == s[j + 1]);
        }
        lemma_time_priority(rest, p);
        lemma_level_at_members(rest, p);
        assert forall|a: int, b: int|
            0 <= a < b < level_at(s, p).len() implies (#[trigger] level_at(s, p)[a]).timestamp
            <= (#[trigger] level_at(s, p)[b]).timestamp by {
            if s.first().price == p {
                let lv = seq![s.first()] + level_at(rest, p);
                if a == 0 {
                    let x = level_at(rest, p)[b - 1];
                    assert(lv[b] == x);
                    let i = choose|i: int| 0 <= i < rest.len() && rest[i] == x;
                    assert(s[i + 1] == rest[i]);
                    assert(ord_le(s[0], s[i + 1]));
                    assert(x.price == p);
                } else {
                    assert(lv[a] == level_at(rest, p)[a - 1]);
                    assert(lv[b] == level_at(rest, p)[b - 1]);
                }
            } else {
                assert(level_at(s, p) == level_at(rest, p));
            }
        }
    }
}

/// Monotonicity of the volume queries over a whole book: as the threshold
/// price rises, the bid-side at-or-above total never increases and the
/// ask-side at-or-below total never decreases.
pub proof fn lemma_volume_monotonicity(book: OrderBook, p1: int, p2: int)
    requires
        p1 <= p2,
    ensures
        book.spec_bid_at_or_above(p2) <= book.spec_bid_at_or_above(p1),
        book.spec_ask_at_or_below(p1) <= book.spec_ask_at_or_below(p2),
{
    lemma_sum_monotonic(book.bids@, p1, p2);
    lemma_sum_monotonic(book.asks@, p1, p2);
}

/// Inserting an order in priority position adds its quantity to the side's
/// total and grows the side by one.
pub proof fn lemma_insert_ord_sum(s: Seq<Order>, o: Order)
    ensures
        insert_ord(s, o).len() == s.len() + 1,
        sum_qty(insert_ord(s, o)) == sum_qty(s) + o.quantity,
    decreases s.len(),
{
    if s.len() == 0 {
        let r = seq![o];
        assert(r.drop_first() =~= Seq::<Order>::empty());
        assert(sum_qty(r.drop_first()) == 0);
    } else if ord_le(s.first(), o) {
        lemma_insert_ord_sum(s.drop_first(), o);
        let r = seq![s.first()] + insert_ord(s.drop_first(), o);
        assert(r.first() == s.first());
        assert(r.drop_first() =~= insert_ord(s.drop_first(), o));
    } else {
        let r = seq![o] + s;
        assert(r.first() == o);
        assert(r.drop_first() =~= s);
    }
}

/// With `k` the first position whose resident does not precede `o`,
/// priority insertion is insertion at index `k`.
pub proof fn lemma_insert_ord_at(s: Seq<Order>, o: Order, k: int)
    requires
        0 <= k <= s.len(),
        forall|j: int| 0 <= j < k ==> ord_le(#[trigger] s[j], o),
        k < s.len() ==> !ord_le(s[k], o),
    ensures
        insert_ord(s, o) == s.insert(k, o),
    decreases s.len(),
{
    if s.len() == 0 {
        assert(s.insert(0, o) =~= seq![o]);
    } else if k == 0 {
        assert(s.insert(0, o) =~= seq![o] + s);
    } else {
        assert(ord_le(s[0], o));
        let rest = s.drop_first();
        assert(forall|j: int| 0 <= j < k - 1 ==> ord_le(#[trigger] rest[j], o)) by {
            assert(forall|j: int| 0 <= j < k - 1 ==> rest[j] == s[j + 1]);
        }
        lemma_insert_ord_at(rest, o, k - 1);
        assert(s.insert(k, o) =~= seq![s.first()] + rest.insert(k - 1, o));
    }
}

/// Priority insertion of an order that belongs to the side preserves the
/// side's well-formedness.
pub proof fn lemma_insert_preserves_wf(s: Seq<Order>, o: Order, k: int, side: OrderSide)
    requires
        wf_side(s, side),
        o.side == side,
        o.quantity >= 1,
        0 <= k <= s.len(),
        forall|j: int| 0 <= j < k ==> ord_le(#[trigger] s[j], o),
        k < s.len() ==> !ord_le(s[k], o),
    ensures
        wf_side(s.insert(k, o), side),
{
    let r = s.insert(k, o);
    s.insert_ensures(k, o);
    assert forall|i: int| 0 <= i < r.len() implies (#[trigger] r[i]).side == side
        && r[i].quantity >= 1 by {
        if i < k {
            assert(r[i] == s[i]);
        } else if i == k {
            assert(r[i] == o);
        } else {
            assert(r[i] == s[i - 1]);
        }
    }
    assert forall|i: int, j: int| 0 <= i < j < r.len() implies ord_le(r[i], r[j]) by {
        if j < k {
            assert(r[i] == s[i] && r[j] == s[j]);
        } else if j == k {
            assert(r[i] == s[i] && r[j] == o);
        } else if i < k {
            assert(r[i] == s[i] && r[j] == s[j - 1]);
            if j - 1 > i {
                assert(ord_le(s[i], s[j - 1]));
            } else {
                // j - 1 == i, so i == k - 1 < k: s[i] precedes o <= s[k] chain
                assert(ord_le(s[i], o));
                if k < s.len() {
                    assert(!ord_le(s[k], o));
                }
            }
        } else if i == k {
            // r[i] == o, r[j] == s[j - 1] with j - 1 >= k
            assert(r[j] == s[j - 1]);
            assert(!ord_le(s[k], o));
            assert(ord_le(o, s[k]));
            if j - 1 > k {
                assert(ord_le(s[k], s[j - 1]));
            }
        } else {
            assert(r[i] == s[i - 1] && r[j] == s[j - 1]);
        }
    }
}

// ---------------------------------------------------------------------------
// The order book.
// ---------------------------------------------------------------------------

/// Two price-indexed sides. Each side is a single sequence sorted by price
/// and, within one price level, ascending by timestamp — the flat rendering
/// of a map from price to a time-ordered level.
pub struct OrderBook {
    pub bids: Vec<Order>,
    pub asks: Vec<Order>,
}

impl OrderBook {
    /// Well-formedness: both sides keep price-time priority, hold only
    /// positive-quantity orders of their own side, and the book's total
    /// resting quantity fits the machine word that the volume queries return.
    pub open spec fn wf(self) -> bool {
        &&& wf_side(self.bids@, OrderSide::Bid)
        &&& wf_side(self.asks@, OrderSide::Ask)
        &&& sum_qty(self.bids@) + sum_qty(self.asks@) <= u64::MAX
    }

    /// Total quantity resting in the book, both sides together.
    pub open spec fn spec_total_qty(self) -> int {
        sum_qty(self.bids@) + sum_qty(self.asks@)
    }

    /// Aggregate bid quantity at price `p` or above.
    pub open spec fn spec_bid_at_or_above(self, p: int) -> int {
        sum_qty_at_or_above(self.bids@, p)
    }

    /// Aggregate ask quantity at price `p` or below.
    pub open spec fn spec_ask_at_or_below(self, p: int) -> int {
        sum_qty_at_or_below(self.asks@, p)
    }

    /// `p` is a candidate clearing price: some resting order has that price.
    pub open spec fn spec_is_candidate(self, p: int) -> bool {
        has_price(self.bids@, p) || has_price(self.asks@, p)
    }

    /// Both sides empty.
    pub open spec fn spec_is_empty(self) -> bool {
        self.bids@.len() == 0 && self.asks@.len() == 0
    }

    /// A new book is empty and well-formed.
    pub fn new() -> (b: Self)
        ensures
            b.wf(),
            b.spec_is_empty(),
    {
        Self { bids: Vec::new(), asks: Vec::new() }
    }

    /// Empties both sides. Idempotent: the result does not depend on the
    /// prior contents, so a repeated call leaves the same empty book.
    pub fn clear(&mut self)
        ensures
            final(self).wf(),
            final(self).spec_is_empty(),
    {
        self.bids.clear();
        self.asks.clear();
    }

    /// First position on `s` whose resident order does not precede `o`:
    /// where `o` comes to rest.
    fn find_insert_pos(s: &Vec<Order>, o: &Order) -> (k: usize)
        ensures
            k <= s@.len(),
            forall|j: int| 0 <= j < k ==> ord_le(#[trigger] s@[j], *o),
            k < s@.len() ==> !ord_le(s@[k as int], *o),
    {
        let n = s.len();
        let mut k: usize = 0;
        while k < n
            invariant
                n == s@.len(),
                k <= n,
                forall|j: int| 0 <= j < k ==> ord_le(#[trigger] s@[j], *o),
            decreases n - k,
        {
            let c = s[k];
            if !(c.price < o.price || (c.price == o.price && c.timestamp <= o.timestamp)) {
                return k;
            }
            k = k + 1;
        }
        k
    }

    /// Admits `order` into the side-appropriate mapping at its price level,
    /// keeping time priority within the level. Rejects a zero quantity with
    /// `InvalidOrder` and then leaves the book untouched: admission is
    /// atomic accept-or-reject.
    pub fn add_order(&mut self, order: Order) -> (r: Result<(), InvalidOrder>)
        requires
            old(self).wf(),
            order.quantity >= 1 ==> old(self).spec_total_qty() + order.quantity <= u64::MAX,
        ensures
            final(self).wf(),
            r is Err <==> order.quantity == 0,
            r is Err ==> *final(self) == *old(self),
            r is Ok ==> final(self).spec_total_qty() == old(self).spec_total_qty()
                + order.quantity,
            r is Ok ==> match order.side {
                OrderSide::Bid => final(self).bids@ == insert_ord(old(self).bids@, order)
                    && final(self).asks == old(self).asks,
                OrderSide::Ask => final(self).asks@ == insert_ord(old(self).asks@, order)
                    && final(self).bids == old(self).bids,
            },
    {
        if order.quantity == 0 {
            return Err(InvalidOrder);
        }
        match order.side {
            OrderSide::Bid => {
                let ghost s = self.bids@;
                let k = Self::find_insert_pos(&self.bids, &order);
                proof {
                    lemma_insert_ord_at(s, order, k as int);
                    lemma_insert_ord_sum(s, order);
                    lemma_insert_preserves_wf(s, order, k as int, OrderSide::Bid);
                }
                self.bids.insert(k, order);
            }
            OrderSide::Ask => {
                let ghost s = self.asks@;
                let k = Self::find_insert_pos(&self.asks, &order);
                proof {
                    lemma_insert_ord_at(s, order, k as int);
                    lemma_insert_ord_sum(s, order);
                    lemma_insert_preserves_wf(s, order, k as int, OrderSide::Ask);
                }
                self.asks.insert(k, order);
            }
        }
        Ok(())
    }

    /// Boundary admission call. `price` carries the order's price in ticks,
    /// or `None` where the submitted price had no finite tick representation
    /// (a NaN or infinite value at the caller's boundary). Rejects those and
    /// zero quantities with `InvalidOrder`, leaving the book unchanged;
    /// otherwise admits the order at its price level in time priority.
    pub fn submit_order(
        &mut self,
        id: u64,
        price: Option<i64>,
        quantity: u64,
        timestamp: u64,
        order_type: OrderType,
        side: OrderSide,
    ) -> (r: Result<(), InvalidOrder>)
        requires
            old(self).wf(),
            price is Some && quantity >= 1 ==> old(self).spec_total_qty() + quantity
                <= u64::MAX,
        ensures
            final(self).wf(),
            r is Err <==> (quantity == 0 || price is None),
            r is Err ==> *final(self) == *old(self),
            r is Ok ==> (price matches Some(p) && final(self).spec_total_qty() == old(
                self,
            ).spec_total_qty() + quantity && match side {
                OrderSide::Bid => final(self).bids@ == insert_ord(
                    old(self).bids@,
                    (Order { id, price: p, quantity, timestamp, order_type, side }),
                ) && final(self).asks == old(self).asks,
                OrderSide::Ask => final(self).asks@ == insert_ord(
                    old(self).asks@,
                    (Order { id, price: p, quantity, timestamp, order_type, side }),
                ) && final(self).bids == old(self).bids,
            }),
    {
        match price {
            None => Err(InvalidOrder),
            Some(p) => self.add_order(
                Order { id, price: p, quantity, timestamp, order_type, side },
            ),
        }
    }

    /// Loop core of the at-or-above volume query.
    fn side_qty_at_or_above(s: &Vec<Order>, p: i64) -> (total: u64)
        requires
            sum_qty(s@) <= u64::MAX,
        ensures
            total == sum_qty_at_or_above(s@, p as int),
    {
        let n = s.len();
        let mut total: u64 = 0;
        let mut i: usize = 0;
        proof {
            assert(s@.skip(0) =~= s@);
            lemma_sum_bounds(s@, p as int);
        }
        while i < n
            invariant
                n == s@.len(),
                i <= n,
                sum_qty(s@) <= u64::MAX,
                total + sum_qty_at_or_above(s@.skip(i as int), p as int) == sum_qty_at_or_above(
                    s@,
                    p as int,
                ),
                sum_qty_at_or_above(s@, p as int) <= sum_qty(s@),
            decreases n - i,
        {
            proof {
                assert(s@.skip(i as int).first() == s@[i as int]);
                assert(s@.skip(i as int).drop_first() =~= s@.skip(i as int + 1));
                lemma_sum_bounds(s@.skip(i as int + 1), p as int);
            }
            let c = s[i];
            if c.price >= p {
                total = total + c.quantity;
            }
            i = i + 1;
        }
        proof {
            assert(s@.skip(n as int) =~= Seq::<Order>::empty());
        }
        total
    }

    /// Loop core of the at-or-below volume query.
    fn side_qty_at_or_below(s: &Vec<Order>, p: i64) -> (total: u64)
        requires
            sum_qty(s@) <= u64::MAX,
        ensures
            total == sum_qty_at_or_below(s@, p as int),
    {
        let n = s.len();
        let mut total: u64 = 0;
        let mut i: usize = 0;
        proof {
            assert(s@.skip(0) =~= s@);
            lemma_sum_bounds(s@, p as int);
        }
        while i < n
            invariant
                n == s@.len(),
                i <= n,
                sum_qty(s@) <= u64::MAX,
                total + sum_qty_at_or_below(s@.skip(i as int), p as int) == sum_qty_at_or_below(
                    s@,
                    p as int,
                ),
                sum_qty_at_or_below(s@, p as int) <= sum_qty(s@),
            decreases n - i,
        {
            proof {
                assert(s@.skip(i as int).first() == s@[i as int]);
                assert(s@.skip(i as int).drop_first() =~= s@.skip(i as int + 1));
                lemma_sum_bounds(s@.skip(i as int + 1), p as int);
            }
            let c = s[i];
            if c.price <= p {
                total = total + c.quantity;
            }
            i = i + 1;
        }
        proof {
            assert(s@.skip(n as int) =~= Seq::<Order>::empty());
        }
        total
    }

    /// Sum of quantities over all bid price levels with price at least
    /// `price`. Non-increasing as `price` increases.
    pub fn total_bid_quantity_at_or_above(&self, price: i64) -> (total: u64)
        requires
            self.wf(),
        ensures
            total == self.spec_bid_at_or_above(price as int),
    {
        proof {
            lemma_sum_bounds(self.asks@, 0);
        }
        Self::side_qty_at_or_above(&self.bids, price)
    }

    /// Sum of quantities over all ask price levels with price at most
    /// `price`. Non-decreasing as `price` increases.
    pub fn total_ask_quantity_at_or_below(&self, price: i64) -> (total: u64)
        requires
            self.wf(),
        ensures
            total == self.spec_ask_at_or_below(price as int),
    {
        proof {
            lemma_sum_bounds(self.bids@, 0);
        }
        Self::side_qty_at_or_below(&self.asks, price)
    }

    /// Aggregate resting bid quantity over the whole book.
    pub fn total_bid_quantity(&self) -> (total: u64)
        requires
            self.wf(),
        ensures
            total == sum_qty(self.bids@),
    {
        proof {
            lemma_sum_bounds(self.asks@, 0);
            lemma_sum_at_or_above_all(self.bids@);
        }
        Self::side_qty_at_or_above(&self.bids, i64::MIN)
    }

    /// Aggregate resting ask quantity over the whole book.
    pub fn total_ask_quantity(&self) -> (total: u64)
        requires
            self.wf(),
        ensures
            total == sum_qty(self.asks@),
    {
        proof {
            lemma_sum_bounds(self.bids@, 0);
            lemma_sum_at_or_above_all(self.asks@);
        }
        Self::side_qty_at_or_above(&self.asks, i64::MIN)
    }

    /// The distinct prices present on either side, ascending and free of
    /// duplicates: the exhaustive candidate set for the clearing-price
    /// search.
    pub fn candidate_prices(&self) -> (c: Vec<i64>)
        requires
            self.wf(),
        ensures
            forall|a: int, b: int| 0 <= a < b < c@.len() ==> c@[a] < c@[b],
            forall|j: int| 0 <= j < c@.len() ==> self.spec_is_candidate(c@[j] as int),
            forall|i: int|
                0 <= i < self.bids@.len() ==> c@.contains(#[trigger] self.bids@[i].price),
            forall|i: int|
                0 <= i < self.asks@.len() ==> c@.contains(#[trigger] self.asks@[i].price),
    {
        let nb = self.bids.len();
        let na = self.asks.len();
        let mut out: Vec<i64> = Vec::new();
        let mut i: usize = 0;
        let mut j: usize = 0;
        while i < nb || j < na
            invariant
                nb == self.bids@.len(),
                na == self.asks@.len(),
                i <= nb,
                j <= na,
                wf_side(self.bids@, OrderSide::Bid),
                wf_side(self.asks@, OrderSide::Ask),
                forall|a: int, b: int| 0 <= a < b < out@.len() ==> out@[a] < out@[b],
                forall|jj: int| 0 <= jj < out@.len() ==> self.spec_is_candidate(out@[jj] as int),
                forall|ii: int| 0 <= ii < i ==> out@.contains(#[trigger] self.bids@[ii].price),
                forall|jj: int| 0 <= jj < j ==> out@.contains(#[trigger] self.asks@[jj].price),
                out@.len() > 0 && i < nb ==> out@.last() <= self.bids@[i as int].price,
                out@.len() > 0 && j < na ==> out@.last() <= self.asks@[j as int].price,
            decreases (nb - i) + (na - j),
        {
            let take_bid = i < nb && (j >= na || self.bids[i].price <= self.asks[j].price);
            let p = if take_bid {
                self.bids[i].price
            } else {
                self.asks[j].price
            };
            proof {
                if take_bid {
                    assert(self.bids@[i as int].price == p);
                    assert(self.spec_is_candidate(p as int));
                } else {
                    assert(self.asks@[j as int].price == p);
                    assert(self.spec_is_candidate(p as int));
                }
            }
            let m = out.len();
            let ghost old_out = out@;
            if m == 0 || out[m - 1] < p {
                out.push(p);
                proof {
                    assert(out@.last() == p);
                    assert forall|x: i64| old_out.contains(x) implies out@.contains(x) by {
                        let k = choose|k: int| 0 <= k < old_out.len() && old_out[k] == x;
                        assert(out@[k] == x);
                    }
                }
            } else {
                proof {
                    assert(out@.last() == out@[m - 1 as int]);
                    assert(out@.last() <= p);
                    assert(out@.last() == p);
                }
            }
            proof {
                assert(out@.contains(p)) by {
                    assert(out@[out@.len() - 1] == p);
                }
            }
            if take_bid {
                proof {
                    if i as int + 1 < nb {
                        assert(ord_le(self.bids@[i as int], self.bids@[i as int + 1]));
                    }
                }
                i = i + 1;
            } else {
                proof {
                    if j as int + 1 < na {
                        assert(ord_le(self.asks@[j as int], self.asks@[j as int + 1]));
                    }
                }
                j = j + 1;
            }
        }
        out
    }
}

} // verus!
