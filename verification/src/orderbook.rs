//! The order book engine: price levels, the cancellation index, and depth.

use vstd::prelude::*;
use vstd::std_specs::hash::spec_hash_map_iter;
use vstd::std_specs::iter::IteratorSpec;
use std::collections::hash_map::Entry;
use std::collections::HashMap;
use crate::decimal::render;
use crate::inputs::Side;
use crate::model::{
    comes_before, has_row, holds_order, in_arrival_order, is_side_depth, is_snapshot,
    lemma_cancel_preserves_valid, lemma_create_preserves_valid, lemma_position_unique,
    lemma_total_prefix, position_of, sorted_rows, total_qty, BookModel,
};
use crate::output::{rows_view, Depth};

verus! {

broadcast use vstd::std_specs::hash::group_hash_axioms;

/// A resting order as it is stored inside a price level.
#[derive(Clone, Copy, Debug, PartialEq, Eq, Structural)]
pub struct UserOrder {
    pub user_id: u32,
    pub qty: u32,
    pub order_id: u32,
}

/// Why the book refuses an order.
#[derive(Clone, Copy, Debug, PartialEq, Eq, Structural)]
pub enum OrderError {
    /// The price is zero.
    ZeroPrice,
    /// The quantity is zero.
    ZeroQuantity,
    /// Every 32-bit identifier has been handed out.
    IdsExhausted,
    /// The aggregate quantity at the price would no longer fit in 32 bits.
    LevelFull,
}

/// A limit-order book for one instrument. Orders rest until they are
/// cancelled; bids and asks are never matched against each other.
pub struct Orderbook {
    bids: HashMap<u32, Vec<UserOrder>>,
    asks: HashMap<u32, Vec<UserOrder>>,
    order_id_index: u32,
    /// Where each resting order is found: order identifier to (price, side).
    order_lookup: HashMap<u32, (u32, Side)>,
}

/// The price levels of one side as sequences of orders.
spec fn level_views(levels: Map<u32, Vec<UserOrder>>) -> Map<u32, Seq<UserOrder>> {
    Map::new(|price: u32| levels.contains_key(price), |price: u32| levels[price]@)
}

/// The model of a book with these parts.
spec fn model_of(
    bids: Map<u32, Vec<UserOrder>>,
    asks: Map<u32, Vec<UserOrder>>,
    index: Map<u32, (u32, Side)>,
    next_order_id: u32,
) -> BookModel {
    BookModel { bids: level_views(bids), asks: level_views(asks), index, next_order_id }
}

impl View for Orderbook {
    type V = BookModel;

    closed spec fn view(&self) -> BookModel {
        model_of(self.bids@, self.asks@, self.order_lookup@, self.order_id_index)
    }
}

/// The aggregate quantity of a level.
fn sum_qty(level: &Vec<UserOrder>) -> (total: u32)
    requires
        total_qty(level@) <= u32::MAX,
    ensures
        total == total_qty(level@),
{
    let mut total: u32 = 0;
    let mut i: usize = 0;
    while i < level.len()
        invariant
            i <= level.len(),
            total == total_qty(level@.take(i as int)),
            total_qty(level@) <= u32::MAX,
        decreases level.len() - i,
    {
        proof {
            assert(level@.take(i + 1).drop_last() =~= level@.take(i as int));
            lemma_total_prefix(level@, i + 1);
        }
        total = total + level[i].qty;
        i = i + 1;
    }
    assert(level@.take(i as int) =~= level@);
    total
}

/// The aggregate quantity resting at a price on one side, zero without a level.
fn level_quantity(levels: &HashMap<u32, Vec<UserOrder>>, price: u32) -> (total: u32)
    requires
        levels@.contains_key(price) ==> total_qty(levels@[price]@) <= u32::MAX,
    ensures
        total == (if levels@.contains_key(price) {
            total_qty(levels@[price]@)
        } else {
            0
        }),
{
    match levels.get(&price) {
        Some(level) => sum_qty(level),
        None => 0,
    }
}

/// The position of the order with this identifier in a level that holds it.
fn find_order(level: &Vec<UserOrder>, order_id: u32) -> (at: usize)
    requires
        holds_order(level@, order_id),
    ensures
        at < level.len(),
        level@[at as int].order_id == order_id,
{
    let mut at: usize = 0;
    while at < level.len() && level[at].order_id != order_id
        invariant
            at <= level.len(),
            forall|i: int| 0 <= i < at ==> (#[trigger] level@[i]).order_id != order_id,
        decreases level.len() - at,
    {
        at = at + 1;
    }
    at
}

/// Takes the order with this identifier out of its level, and the level out
/// of the side once it is empty.
fn take_from_level(levels: &mut HashMap<u32, Vec<UserOrder>>, price: u32, order_id: u32) -> (order:
    UserOrder)
    requires
        old(levels)@.contains_key(price),
        holds_order(old(levels)@[price]@, order_id),
        in_arrival_order(old(levels)@[price]@),
    ensures
        ({
            let level = old(levels)@[price]@;
            let at = position_of(level, order_id);
            let rest = level.remove(at);
            &&& order == level[at]
            &&& level_views(final(levels)@) == (if rest.len() == 0 {
                level_views(old(levels)@).remove(price)
            } else {
                level_views(old(levels)@).insert(price, rest)
            })
        }),
{
    let ghost before = levels@[price]@;
    match levels.entry(price) {
        Entry::Occupied(mut occupied) => {
            let level = occupied.get_mut();
            let at = find_order(level, order_id);
            proof {
                lemma_position_unique(before, at as int);
            }
            let order = level.remove(at);
            if level.len() == 0 {
                occupied.remove();
                assert(level_views(final(levels)@) =~= level_views(old(levels)@).remove(price));
            } else {
                assert(level_views(final(levels)@) =~= level_views(old(levels)@).insert(
                    price,
                    before.remove(at as int),
                ));
            }
            order
        },
        Entry::Vacant(_) => {
            // Never reached: the level is there.
            assert(false);
            UserOrder { user_id: 0, qty: 0, order_id }
        },
    }
}

/// Whether a row at price `a` is listed before a row at price `b`.
fn stands_before(descending: bool, a: u32, b: u32) -> (before: bool)
    ensures
        before == comes_before(descending, a, b),
{
    if descending {
        a > b
    } else {
        a < b
    }
}

/// Puts a row at its place among rows sorted by price.
fn insert_row(rows: &mut Vec<[u32; 2]>, price: u32, qty: u32, descending: bool) -> (at: usize)
    requires
        sorted_rows(rows_view(old(rows)@), descending),
        !has_row(rows_view(old(rows)@), price),
    ensures
        at <= old(rows)@.len(),
        rows_view(final(rows)@) == rows_view(old(rows)@).insert(at as int, (price, qty)),
        sorted_rows(rows_view(final(rows)@), descending),
{
    let ghost before = rows_view(rows@);
    let mut at: usize = 0;
    while at < rows.len() && stands_before(descending, rows[at][0], price)
        invariant
            at <= rows.len(),
            rows_view(rows@) == before,
            forall|i: int| 0 <= i < at ==> comes_before(descending, (#[trigger] before[i]).0, price),
        decreases rows.len() - at,
    {
        at = at + 1;
    }
    rows.insert(at, [price, qty]);
    proof {
        let after = rows_view(rows@);
        assert(after =~= before.insert(at as int, (price, qty)));
        assert forall|i: int, j: int| 0 <= i < j < after.len() implies comes_before(
            descending,
            (#[trigger] after[i]).0,
            (#[trigger] after[j]).0,
        ) by {
            if i == at {
                // The row that stood here is neither before the new row nor
                // at its price, so it and all rows behind it come after.
                assert(before[at as int].0 != price);
            }
        }
    }
    at
}

/// The depth of one side: a row per price level with the level's aggregate
/// quantity, sorted by price.
fn side_depth(levels: &HashMap<u32, Vec<UserOrder>>, descending: bool) -> (rows: Vec<[u32; 2]>)
    requires
        forall|price: u32| #[trigger]
            levels@.contains_key(price) ==> total_qty(levels@[price]@) <= u32::MAX,
    ensures
        is_side_depth(rows_view(rows@), level_views(levels@), descending),
{
    let mut rows: Vec<[u32; 2]> = Vec::new();
    let ghost all = spec_hash_map_iter(levels).remaining();
    for entry in it: levels.iter()
        invariant
            it.seq() == all,
            all == spec_hash_map_iter(levels).remaining(),
            all.no_duplicates(),
            forall|price: u32| #[trigger]
                levels@.contains_key(price) ==> total_qty(levels@[price]@) <= u32::MAX,
            sorted_rows(rows_view(rows@), descending),
            // Each row shows a level that has been visited, with its aggregate.
            forall|i: int|
                0 <= i < rows@.len() ==> levels@.contains_key((#[trigger] rows_view(rows@)[i]).0)
                    && rows_view(rows@)[i].1 == total_qty(levels@[rows_view(rows@)[i].0]@)
                    && exists|k: int|
                    0 <= k < it.index() && *(#[trigger] all[k]).0 == rows_view(rows@)[i].0,
            // Each level that has been visited has its row.
            forall|k: int| 0 <= k < it.index() ==> has_row(rows_view(rows@), *(#[trigger] all[k]).0),
    {
        let (price, level) = entry;
        let ghost n = it.index();
        let ghost before = rows_view(rows@);
        proof {
            assert(levels@.contains_key(*all[n].0) && levels@[*all[n].0] == *all[n].1);
            // No row is at this price yet: the entries have distinct prices.
            if has_row(before, *price) {
                let i = choose|i: int| 0 <= i < before.len() && (#[trigger] before[i]).0 == *price;
                let k = choose|k: int| 0 <= k < n && *(#[trigger] all[k]).0 == before[i].0;
                assert(levels@[*all[k].0] == *all[k].1);
                assert(all[k] == all[n]);
            }
        }
        let qty = sum_qty(level);
        let at = insert_row(&mut rows, *price, qty, descending);
        proof {
            let after = rows_view(rows@);
            assert(after.len() == before.len() + 1);
            assert forall|i: int| 0 <= i < after.len() implies levels@.contains_key(
                (#[trigger] after[i]).0,
            ) && after[i].1 == total_qty(levels@[after[i].0]@) && exists|k: int|
                0 <= k < n + 1 && *(#[trigger] all[k]).0 == after[i].0 by {
                if i == at {
                    assert(*all[n].0 == after[i].0);
                } else {
                    let from = if i < at { i } else { i - 1 };
                    assert(after[i] == before[from]);
                    let k = choose|k: int| 0 <= k < n && *(#[trigger] all[k]).0 == before[from].0;
                    assert(*all[k].0 == after[i].0);
                }
            }
            assert forall|k: int| 0 <= k < n + 1 implies has_row(after, *(#[trigger] all[k]).0) by {
                if k < n {
                    let i = choose|i: int|
                        0 <= i < before.len() && (#[trigger] before[i]).0 == *all[k].0;
                    let to = if i < at { i } else { i + 1 };
                    assert(after[to] == before[i]);
                } else {
                    assert(after[at as int].0 == *price);
                }
            }
        }
    }
    proof {
        let done = rows_view(rows@);
        assert forall|price: u32| #[trigger] level_views(levels@).contains_key(price) implies has_row(
            done,
            price,
        ) by {
            assert(all.contains((&price, &levels@[price])));
            let k = choose|k: int| 0 <= k < all.len() && all[k] == (&price, &levels@[price]);
            assert(*all[k].0 == price);
        }
    }
    rows
}

impl Orderbook {
    /// Every book is valid at all times: its fields are private, and each
    /// function that changes it proves that it leaves it valid.
    #[verifier::type_invariant]
    pub open spec fn inv(self) -> bool {
        self@.valid()
    }

    /// An empty book whose first order will get identifier zero.
    pub fn new() -> (book: Self)
        ensures
            book@ == BookModel::empty(),
            book@.valid(),
    {
        let bids: HashMap<u32, Vec<UserOrder>> = HashMap::new();
        let asks: HashMap<u32, Vec<UserOrder>> = HashMap::new();
        let order_lookup: HashMap<u32, (u32, Side)> = HashMap::new();
        proof {
            assert(level_views(bids@) =~= Map::empty());
            assert(level_views(asks@) =~= Map::empty());
            assert(model_of(bids@, asks@, order_lookup@, 0) == BookModel::empty());
        }
        Orderbook { bids, asks, order_id_index: 0, order_lookup }
    }

    /// An empty book whose first order will get the given identifier, for a
    /// book that goes on numbering where an earlier one stopped.
    pub fn with_next_order_id(next_order_id: u32) -> (book: Self)
        ensures
            book@ == (BookModel { next_order_id, ..BookModel::empty() }),
            book@.valid(),
    {
        let bids: HashMap<u32, Vec<UserOrder>> = HashMap::new();
        let asks: HashMap<u32, Vec<UserOrder>> = HashMap::new();
        let order_lookup: HashMap<u32, (u32, Side)> = HashMap::new();
        proof {
            assert(level_views(bids@) =~= Map::empty());
            assert(level_views(asks@) =~= Map::empty());
            assert(model_of(bids@, asks@, order_lookup@, next_order_id) == BookModel {
                next_order_id,
                ..BookModel::empty()
            });
        }
        Orderbook { bids, asks, order_id_index: next_order_id, order_lookup }
    }

    /// Places a resting order at the tail of its price level and returns its
    /// identifier, or refuses the order and leaves the book as it was.
    pub fn create_order(&mut self, price: u32, quantity: u32, user_id: u32, side: Side) -> (result:
        Result<u32, OrderError>)
        ensures
            old(self)@.valid(),
            final(self)@.valid(),
            match old(self)@.rejection(price, quantity, side) {
                Some(reason) => {
                    &&& result == Err::<u32, OrderError>(reason)
                    &&& final(self)@ == old(self)@
                },
                None => {
                    &&& result == Ok::<u32, OrderError>(old(self)@.next_order_id)
                    &&& final(self)@ == old(self)@.create(price, quantity, user_id, side)
                },
            },
    {
        proof {
            use_type_invariant(&*self);
        }
        if price == 0 {
            return Err(OrderError::ZeroPrice);
        }
        if quantity == 0 {
            return Err(OrderError::ZeroQuantity);
        }
        if self.order_id_index == u32::MAX {
            return Err(OrderError::IdsExhausted);
        }
        proof {
            if self@.levels(side).contains_key(price) {
                assert(self@.level_valid(side, price));
            }
        }
        let resting = match side {
            Side::Buy => level_quantity(&self.bids, price),
            Side::Sell => level_quantity(&self.asks, price),
        };
        if quantity > u32::MAX - resting {
            return Err(OrderError::LevelFull);
        }
        // The book is taken apart, changed and put together again, so that
        // its invariant is owed once, for the whole change.
        let mut taken = Orderbook::new();
        std::mem::swap(self, &mut taken);
        let ghost before = taken@;
        let Orderbook { mut bids, mut asks, order_id_index, mut order_lookup } = taken;
        let order_id = order_id_index;
        let order = UserOrder { user_id, qty: quantity, order_id };
        order_lookup.insert(order_id, (price, side));
        match side {
            Side::Buy => {
                bids.entry(price).or_insert(Vec::new()).push(order);
            },
            Side::Sell => {
                asks.entry(price).or_insert(Vec::new()).push(order);
            },
        }
        proof {
            let after = before.create(price, quantity, user_id, side);
            lemma_create_preserves_valid(before, price, quantity, user_id, side);
            assert(level_views(bids@) =~= after.bids);
            assert(level_views(asks@) =~= after.asks);
            assert(model_of(bids@, asks@, order_lookup@, (order_id + 1) as u32) == after);
        }
        *self = Orderbook { bids, asks, order_id_index: order_id + 1, order_lookup };
        Ok(order_id)
    }

    /// Cancels the resting order with this identifier and returns it, or
    /// returns nothing and leaves the book as it was if no such order rests.
    pub fn delete_order(&mut self, order_id: u32) -> (result: Option<UserOrder>)
        ensures
            old(self)@.valid(),
            final(self)@.valid(),
            old(self)@.contains(order_id) ==> {
                &&& result == Some(old(self)@.order(order_id))
                &&& final(self)@ == old(self)@.cancel(order_id)
            },
            !old(self)@.contains(order_id) ==> {
                &&& result is None
                &&& final(self)@ == old(self)@
            },
    {
        proof {
            use_type_invariant(&*self);
        }
        let (price, side) = match self.order_lookup.get(&order_id) {
            Some(place) => *place,
            None => {
                return None;
            },
        };
        let mut taken = Orderbook::new();
        std::mem::swap(self, &mut taken);
        let ghost before = taken@;
        let Orderbook { mut bids, mut asks, order_id_index, mut order_lookup } = taken;
        proof {
            assert(before.levels(side).contains_key(price));
            assert(before.level_valid(side, price));
        }
        order_lookup.remove(&order_id);
        let order = match side {
            Side::Buy => take_from_level(&mut bids, price, order_id),
            Side::Sell => take_from_level(&mut asks, price, order_id),
        };
        proof {
            let after = before.cancel(order_id);
            lemma_cancel_preserves_valid(before, order_id);
            assert(model_of(bids@, asks@, order_lookup@, order_id_index) == after);
        }
        *self = Orderbook { bids, asks, order_id_index, order_lookup };
        Some(order)
    }

    /// The aggregated snapshot of the book. Nothing changes.
    pub fn get_depth(&self) -> (depth: Depth)
        ensures
            self@.valid(),
            is_snapshot(depth@, self@),
    {
        proof {
            use_type_invariant(self);
            assert forall|price: u32| #[trigger] self.bids@.contains_key(price) implies total_qty(
                self.bids@[price]@,
            ) <= u32::MAX by {
                assert(self@.levels(Side::Buy).contains_key(price));
                assert(self@.level_valid(Side::Buy, price));
            }
            assert forall|price: u32| #[trigger] self.asks@.contains_key(price) implies total_qty(
                self.asks@[price]@,
            ) <= u32::MAX by {
                assert(self@.levels(Side::Sell).contains_key(price));
                assert(self@.level_valid(Side::Sell, price));
            }
        }
        let bids = side_depth(&self.bids, true);
        let asks = side_depth(&self.asks, false);
        Depth { bids, asks, last_update_id: render(self.order_id_index) }
    }
}

} // verus!
