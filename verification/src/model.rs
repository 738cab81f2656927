//! The mathematical model of the order book.
//!
//! A book is two maps from price to the orders resting at that price, in
//! order of arrival, an index from order identifier to the place where the
//! order rests, and the next identifier to hand out. The executable book is
//! specified entirely through this model.

use vstd::prelude::*;
use crate::inputs::Side;
use crate::decimal::decimal_digits;
use crate::orderbook::{OrderError, UserOrder};
use crate::output::DepthView;

verus! {

/// The aggregate quantity of a price level.
pub open spec fn total_qty(level: Seq<UserOrder>) -> nat
    decreases level.len(),
{
    if level.len() == 0 {
        0
    } else {
        total_qty(level.drop_last()) + level.last().qty as nat
    }
}

/// Whether an order with this identifier rests in the level.
pub open spec fn holds_order(level: Seq<UserOrder>, order_id: u32) -> bool {
    exists|i: int| 0 <= i < level.len() && (#[trigger] level[i]).order_id == order_id
}

/// The position in the level of the order with this identifier.
pub open spec fn position_of(level: Seq<UserOrder>, order_id: u32) -> int {
    choose|i: int| 0 <= i < level.len() && (#[trigger] level[i]).order_id == order_id
}

/// Orders within a level rest in order of arrival: identifiers increase
/// strictly from the head of the level to its tail.
pub open spec fn in_arrival_order(level: Seq<UserOrder>) -> bool {
    forall|i: int, j: int|
        0 <= i < j < level.len() ==> (#[trigger] level[i]).order_id < (#[trigger] level[j]).order_id
}

/// The mathematical value of a book.
pub struct BookModel {
    /// The buy orders resting at each price, earliest first.
    pub bids: Map<u32, Seq<UserOrder>>,
    /// The sell orders resting at each price, earliest first.
    pub asks: Map<u32, Seq<UserOrder>>,
    /// The price and side at which each resting order is found.
    pub index: Map<u32, (u32, Side)>,
    /// The identifier that the next accepted order gets.
    pub next_order_id: u32,
}

impl BookModel {
    /// The book without any order, about to hand out identifier zero.
    pub open spec fn empty() -> BookModel {
        BookModel {
            bids: Map::empty(),
            asks: Map::empty(),
            index: Map::empty(),
            next_order_id: 0,
        }
    }

    /// The price levels of one side.
    pub open spec fn levels(self, side: Side) -> Map<u32, Seq<UserOrder>> {
        match side {
            Side::Buy => self.bids,
            Side::Sell => self.asks,
        }
    }

    /// The same book with the price levels of one side replaced.
    pub open spec fn with_levels(self, side: Side, levels: Map<u32, Seq<UserOrder>>) -> BookModel {
        match side {
            Side::Buy => BookModel { bids: levels, ..self },
            Side::Sell => BookModel { asks: levels, ..self },
        }
    }

    /// The orders resting at a price, none if the price has no level.
    pub open spec fn level(self, side: Side, price: u32) -> Seq<UserOrder> {
        if self.levels(side).contains_key(price) {
            self.levels(side)[price]
        } else {
            Seq::empty()
        }
    }

    /// The aggregate quantity resting at a price, zero if the price has no level.
    pub open spec fn quantity_at(self, side: Side, price: u32) -> nat {
        total_qty(self.level(side, price))
    }

    /// An order at `price` on `side` is well placed: it has a quantity and the
    /// index points from its identifier back to this level.
    pub open spec fn order_valid(self, side: Side, price: u32, order: UserOrder) -> bool {
        &&& order.qty > 0
        &&& self.index.contains_key(order.order_id)
        &&& self.index[order.order_id] == (price, side)
    }

    /// A level that is present is never empty, has a positive price and an
    /// aggregate quantity that fits in 32 bits, and holds well-placed orders
    /// in order of arrival.
    pub open spec fn level_valid(self, side: Side, price: u32) -> bool {
        let level = self.levels(side)[price];
        &&& price > 0
        &&& level.len() > 0
        &&& total_qty(level) <= u32::MAX
        &&& in_arrival_order(level)
        &&& forall|i: int| 0 <= i < level.len() ==> self.order_valid(side, price, #[trigger] level[i])
    }

    /// A side has finitely many levels, and each of them is valid.
    pub open spec fn side_valid(self, side: Side) -> bool {
        &&& self.levels(side).dom().finite()
        &&& forall|price: u32| #[trigger]
            self.levels(side).contains_key(price) ==> self.level_valid(side, price)
    }

    /// Every indexed identifier has been handed out and rests in the level
    /// that the index names.
    pub open spec fn index_valid(self) -> bool {
        forall|order_id: u32| #[trigger]
            self.index.contains_key(order_id) ==> {
                let (price, side) = self.index[order_id];
                &&& order_id < self.next_order_id
                &&& self.levels(side).contains_key(price)
                &&& holds_order(self.levels(side)[price], order_id)
            }
    }

    /// The invariant of the book: levels and index are in exact agreement.
    pub open spec fn valid(self) -> bool {
        &&& self.side_valid(Side::Buy)
        &&& self.side_valid(Side::Sell)
        &&& self.index_valid()
    }

    /// Whether an order with this identifier rests in the book.
    pub open spec fn contains(self, order_id: u32) -> bool {
        self.index.contains_key(order_id)
    }

    /// The resting order with this identifier.
    pub open spec fn order(self, order_id: u32) -> UserOrder
        recommends
            self.contains(order_id),
    {
        let (price, side) = self.index[order_id];
        let level = self.levels(side)[price];
        level[position_of(level, order_id)]
    }

    /// Why the book refuses an order, or nothing if it accepts it. The checks
    /// are made in the order of the variants of [`OrderError`].
    pub open spec fn rejection(self, price: u32, qty: u32, side: Side) -> Option<OrderError> {
        if price == 0 {
            Some(OrderError::ZeroPrice)
        } else if qty == 0 {
            Some(OrderError::ZeroQuantity)
        } else if self.next_order_id == u32::MAX {
            Some(OrderError::IdsExhausted)
        } else if self.quantity_at(side, price) + qty > u32::MAX {
            Some(OrderError::LevelFull)
        } else {
            None
        }
    }

    /// The book after an accepted order: the order rests at the tail of its
    /// level, is indexed under the identifier that was next, and the next
    /// identifier is one higher.
    pub open spec fn create(self, price: u32, qty: u32, user_id: u32, side: Side) -> BookModel {
        let order = UserOrder { user_id, qty, order_id: self.next_order_id };
        let levels = self.levels(side).insert(price, self.level(side, price).push(order));
        BookModel {
            index: self.index.insert(self.next_order_id, (price, side)),
            next_order_id: (self.next_order_id + 1) as u32,
            ..self.with_levels(side, levels)
        }
    }

    /// The book after the order with this identifier has left: it is gone from
    /// its level and from the index, and a level that it leaves empty is gone
    /// as well.
    pub open spec fn cancel(self, order_id: u32) -> BookModel
        recommends
            self.contains(order_id),
    {
        let (price, side) = self.index[order_id];
        let level = self.levels(side)[price];
        let rest = level.remove(position_of(level, order_id));
        let levels = if rest.len() == 0 {
            self.levels(side).remove(price)
        } else {
            self.levels(side).insert(price, rest)
        };
        BookModel { index: self.index.remove(order_id), ..self.with_levels(side, levels) }
    }
}

/// Whether a row at price `a` stands before a row at price `b`: bids are
/// listed from the highest price down, asks from the lowest price up.
pub open spec fn comes_before(descending: bool, a: u32, b: u32) -> bool {
    if descending {
        a > b
    } else {
        a < b
    }
}

/// Rows are sorted strictly by price, so no price occurs twice.
pub open spec fn sorted_rows(rows: Seq<(u32, u32)>, descending: bool) -> bool {
    forall|i: int, j: int|
        0 <= i < j < rows.len() ==> comes_before(
            descending,
            (#[trigger] rows[i]).0,
            (#[trigger] rows[j]).0,
        )
}

/// Whether some row is at this price.
pub open spec fn has_row(rows: Seq<(u32, u32)>, price: u32) -> bool {
    exists|i: int| 0 <= i < rows.len() && (#[trigger] rows[i]).0 == price
}

/// The quantity that rows show at a price: that of the row at the price, zero
/// if no row is at the price.
pub open spec fn shown_quantity(rows: Seq<(u32, u32)>, price: u32) -> nat {
    if has_row(rows, price) {
        rows[choose|i: int| 0 <= i < rows.len() && (#[trigger] rows[i]).0 == price].1 as nat
    } else {
        0
    }
}

/// `rows` is the depth of one side: one row per price level, holding the
/// level's price and aggregate quantity, sorted strictly by price.
pub open spec fn is_side_depth(
    rows: Seq<(u32, u32)>,
    levels: Map<u32, Seq<UserOrder>>,
    descending: bool,
) -> bool {
    &&& forall|i: int|
        0 <= i < rows.len() ==> levels.contains_key((#[trigger] rows[i]).0) && rows[i].1
            == total_qty(levels[rows[i].0])
    &&& forall|price: u32| #[trigger] levels.contains_key(price) ==> has_row(rows, price)
    &&& sorted_rows(rows, descending)
}

/// `depth` is the snapshot of `book`: bids from the highest price down, asks
/// from the lowest price up, and the identifier counter as decimal text.
pub open spec fn is_snapshot(depth: DepthView, book: BookModel) -> bool {
    &&& is_side_depth(depth.rows(Side::Buy), book.levels(Side::Buy), true)
    &&& is_side_depth(depth.rows(Side::Sell), book.levels(Side::Sell), false)
    &&& depth.last_update_id == decimal_digits(book.next_order_id as nat)
}

/// Removing an order from a level lowers the aggregate by its quantity.
pub proof fn lemma_total_remove(level: Seq<UserOrder>, i: int)
    requires
        0 <= i < level.len(),
    ensures
        total_qty(level.remove(i)) + level[i].qty == total_qty(level),
    decreases level.len(),
{
    if i < level.len() - 1 {
        lemma_total_remove(level.drop_last(), i);
        assert(level.remove(i).drop_last() =~= level.drop_last().remove(i));
    }
}

/// The aggregate of the first orders of a level is at most that of the level.
pub proof fn lemma_total_prefix(level: Seq<UserOrder>, k: int)
    requires
        0 <= k <= level.len(),
    ensures
        total_qty(level.take(k)) <= total_qty(level),
    decreases level.len(),
{
    if k == level.len() {
        assert(level.take(k) =~= level);
    } else {
        lemma_total_prefix(level.drop_last(), k);
        assert(level.drop_last().take(k) =~= level.take(k));
    }
}

/// In a level held in order of arrival, an identifier is found at one place only.
pub proof fn lemma_position_unique(level: Seq<UserOrder>, i: int)
    requires
        in_arrival_order(level),
        0 <= i < level.len(),
    ensures
        position_of(level, level[i].order_id) == i,
{
    let found = position_of(level, level[i].order_id);
    assert(level[found].order_id == level[i].order_id);
}

/// An accepted order leaves the book valid.
pub proof fn lemma_create_preserves_valid(
    book: BookModel,
    price: u32,
    qty: u32,
    user_id: u32,
    side: Side,
)
    requires
        book.valid(),
        book.rejection(price, qty, side) is None,
    ensures
        book.create(price, qty, user_id, side).valid(),
{
    let after = book.create(price, qty, user_id, side);
    let order = UserOrder { user_id, qty, order_id: book.next_order_id };
    let level = book.level(side, price).push(order);
    assert(level.drop_last() =~= book.level(side, price));
    assert forall|s: Side, p: u32| #[trigger] after.levels(s).contains_key(p) implies after.level_valid(
        s,
        p,
    ) by {
        // Every order that rested before is still indexed as it was: the new
        // identifier is above all of them.
        let resting = book.level(s, p);
        assert forall|i: int| 0 <= i < resting.len() implies after.order_valid(
            s,
            p,
            #[trigger] resting[i],
        ) by {
            assert(book.level_valid(s, p));
        }
    }
    assert forall|order_id: u32| #[trigger] after.index.contains_key(order_id) implies {
        let (p, s) = after.index[order_id];
        &&& order_id < after.next_order_id
        &&& after.levels(s).contains_key(p)
        &&& holds_order(after.levels(s)[p], order_id)
    } by {
        if order_id == book.next_order_id {
            assert(level[level.len() - 1].order_id == order_id);
        } else {
            let (p, s) = book.index[order_id];
            let i = position_of(book.levels(s)[p], order_id);
            assert(after.levels(s)[p][i] == book.levels(s)[p][i]);
        }
    }
}

/// Cancelling a resting order leaves the book valid, and the order is gone.
pub proof fn lemma_cancel_preserves_valid(book: BookModel, order_id: u32)
    requires
        book.valid(),
        book.contains(order_id),
    ensures
        book.cancel(order_id).valid(),
        !book.cancel(order_id).contains(order_id),
{
    let after = book.cancel(order_id);
    let (price, side) = book.index[order_id];
    let level = book.levels(side)[price];
    let at = position_of(level, order_id);
    let rest = level.remove(at);
    lemma_total_remove(level, at);
    // What is left of the level is what was there, in the same order.
    assert forall|i: int| 0 <= i < rest.len() implies (#[trigger] rest[i]).order_id != order_id
        && book.order_valid(side, price, rest[i]) by {
        let from = if i < at { i } else { i + 1 };
        assert(rest[i] == level[from]);
    }
    assert forall|s: Side, p: u32| #[trigger] after.levels(s).contains_key(p) implies after.level_valid(
        s,
        p,
    ) by {
        let resting = after.levels(s)[p];
        assert forall|i: int| 0 <= i < resting.len() implies after.order_valid(
            s,
            p,
            #[trigger] resting[i],
        ) by {
            assert(book.level_valid(s, p));
        }
    }
    assert forall|other: u32| #[trigger] after.index.contains_key(other) implies {
        let (p, s) = after.index[other];
        &&& other < after.next_order_id
        &&& after.levels(s).contains_key(p)
        &&& holds_order(after.levels(s)[p], other)
    } by {
        let (p, s) = book.index[other];
        let i = position_of(book.levels(s)[p], other);
        if s == side && p == price {
            let to = if i < at { i } else { i - 1 };
            assert(rest[to] == level[i]);
        } else {
            assert(after.levels(s)[p][i] == book.levels(s)[p][i]);
        }
    }
}

} // verus!
