//! What holds of every book, proved over the model.
//!
//! The executable book is specified by the transitions of [`BookModel`]; the
//! proof functions here state what follows for snapshots, for cancellation
//! and for whole sequences of orders and cancellations.

use vstd::prelude::*;
use crate::inputs::Side;
use crate::model::{
    comes_before, has_row, is_side_depth, is_snapshot, lemma_cancel_preserves_valid,
    lemma_create_preserves_valid, lemma_position_unique, lemma_total_remove, position_of,
    shown_quantity, sorted_rows, total_qty, BookModel,
};
use crate::orderbook::UserOrder;
use crate::output::DepthView;

verus! {

/// Two lists of rows, both sorted strictly by price in the same direction and
/// showing the same prices, show them at the same positions.
proof fn lemma_sorted_rows_same_prices(a: Seq<(u32, u32)>, b: Seq<(u32, u32)>, descending: bool)
    requires
        sorted_rows(a, descending),
        sorted_rows(b, descending),
        forall|price: u32| has_row(a, price) <==> has_row(b, price),
    ensures
        a.len() == b.len(),
        forall|i: int| 0 <= i < a.len() ==> (#[trigger] a[i]).0 == b[i].0,
    decreases a.len(),
{
    if a.len() == 0 {
        if b.len() > 0 {
            assert(has_row(b, b[0].0));
        }
    } else {
        let last_a = a.last();
        assert(has_row(a, last_a.0));
        assert(has_row(b, last_a.0));
        let last_b = b.last();
        assert(has_row(b, last_b.0));
        assert(has_row(a, last_b.0));
        let j = choose|j: int| 0 <= j < b.len() && (#[trigger] b[j]).0 == last_a.0;
        let i = choose|i: int| 0 <= i < a.len() && (#[trigger] a[i]).0 == last_b.0;
        if last_a.0 != last_b.0 {
            assert(comes_before(descending, b[j].0, b[b.len() - 1].0));
            assert(comes_before(descending, a[i].0, a[a.len() - 1].0));
        }
        let head_a = a.drop_last();
        let head_b = b.drop_last();
        assert forall|price: u32| has_row(head_a, price) <==> has_row(head_b, price) by {
            if has_row(head_a, price) {
                let k = choose|k: int| 0 <= k < head_a.len() && (#[trigger] head_a[k]).0 == price;
                assert(a[k].0 == price);
                assert(comes_before(descending, a[k].0, a[a.len() - 1].0));
                assert(has_row(a, price));
                let m = choose|m: int| 0 <= m < b.len() && (#[trigger] b[m]).0 == price;
                assert(head_b[m].0 == price);
            }
            if has_row(head_b, price) {
                let k = choose|k: int| 0 <= k < head_b.len() && (#[trigger] head_b[k]).0 == price;
                assert(b[k].0 == price);
                assert(comes_before(descending, b[k].0, b[b.len() - 1].0));
                assert(has_row(b, price));
                let m = choose|m: int| 0 <= m < a.len() && (#[trigger] a[m]).0 == price;
                assert(head_a[m].0 == price);
            }
        }
        assert(sorted_rows(head_a, descending)) by {
            assert forall|x: int, y: int| 0 <= x < y < head_a.len() implies comes_before(
                descending,
                (#[trigger] head_a[x]).0,
                (#[trigger] head_a[y]).0,
            ) by {
                assert(comes_before(descending, a[x].0, a[y].0));
            }
        }
        assert(sorted_rows(head_b, descending)) by {
            assert forall|x: int, y: int| 0 <= x < y < head_b.len() implies comes_before(
                descending,
                (#[trigger] head_b[x]).0,
                (#[trigger] head_b[y]).0,
            ) by {
                assert(comes_before(descending, b[x].0, b[y].0));
            }
        }
        lemma_sorted_rows_same_prices(head_a, head_b, descending);
        assert forall|k: int| 0 <= k < a.len() implies (#[trigger] a[k]).0 == b[k].0 by {
            if k < head_a.len() {
                assert(head_a[k].0 == head_b[k].0);
            }
        }
    }
}

/// The depth of one side is determined by its price levels: two lists of rows
/// that both are the depth of the same levels are equal.
pub proof fn lemma_side_depth_unique(
    levels: Map<u32, Seq<UserOrder>>,
    descending: bool,
    a: Seq<(u32, u32)>,
    b: Seq<(u32, u32)>,
)
    requires
        is_side_depth(a, levels, descending),
        is_side_depth(b, levels, descending),
    ensures
        a == b,
{
    assert forall|price: u32| has_row(a, price) <==> has_row(b, price) by {
        if has_row(a, price) {
            let i = choose|i: int| 0 <= i < a.len() && (#[trigger] a[i]).0 == price;
            assert(levels.contains_key(a[i].0));
        }
        if has_row(b, price) {
            let i = choose|i: int| 0 <= i < b.len() && (#[trigger] b[i]).0 == price;
            assert(levels.contains_key(b[i].0));
        }
    }
    lemma_sorted_rows_same_prices(a, b, descending);
    assert forall|i: int| 0 <= i < a.len() implies a[i] == b[i] by {
        assert(a[i].0 == b[i].0);
        assert(a[i].1 == total_qty(levels[a[i].0]));
        assert(b[i].1 == total_qty(levels[b[i].0]));
    }
    assert(a =~= b);
}

/// Reading the depth twice without a change in between gives the same
/// snapshot: a book has exactly one snapshot.
pub proof fn lemma_snapshot_unique(book: BookModel, first: DepthView, second: DepthView)
    requires
        is_snapshot(first, book),
        is_snapshot(second, book),
    ensures
        first == second,
{
    lemma_side_depth_unique(book.bids, true, first.bids, second.bids);
    lemma_side_depth_unique(book.asks, false, first.asks, second.asks);
}

/// In every snapshot bid prices fall strictly and ask prices rise strictly
/// from row to row, so no price occurs twice on a side, and no row shows a
/// quantity of zero.
pub proof fn lemma_snapshot_ordered(book: BookModel, depth: DepthView)
    requires
        book.valid(),
        is_snapshot(depth, book),
    ensures
        forall|i: int, j: int|
            0 <= i < j < depth.bids.len() ==> (#[trigger] depth.bids[i]).0 > (
            #[trigger] depth.bids[j]).0,
        forall|i: int, j: int|
            0 <= i < j < depth.asks.len() ==> (#[trigger] depth.asks[i]).0 < (
            #[trigger] depth.asks[j]).0,
        forall|i: int| 0 <= i < depth.bids.len() ==> (#[trigger] depth.bids[i]).1 > 0,
        forall|i: int| 0 <= i < depth.asks.len() ==> (#[trigger] depth.asks[i]).1 > 0,
{
    assert forall|i: int, j: int| 0 <= i < j < depth.bids.len() implies (#[trigger] depth.bids[i]).0
        > (#[trigger] depth.bids[j]).0 by {
        assert(comes_before(true, depth.bids[i].0, depth.bids[j].0));
    }
    assert forall|i: int, j: int| 0 <= i < j < depth.asks.len() implies (#[trigger] depth.asks[i]).0
        < (#[trigger] depth.asks[j]).0 by {
        assert(comes_before(false, depth.asks[i].0, depth.asks[j].0));
    }
    assert forall|i: int| 0 <= i < depth.bids.len() implies (#[trigger] depth.bids[i]).1 > 0 by {
        lemma_level_has_quantity(book, Side::Buy, depth.bids[i].0);
    }
    assert forall|i: int| 0 <= i < depth.asks.len() implies (#[trigger] depth.asks[i]).1 > 0 by {
        lemma_level_has_quantity(book, Side::Sell, depth.asks[i].0);
    }
}

/// A price has a level exactly if quantity rests at it.
pub proof fn lemma_level_has_quantity(book: BookModel, side: Side, price: u32)
    requires
        book.valid(),
    ensures
        book.levels(side).contains_key(price) <==> book.quantity_at(side, price) > 0,
{
    if book.levels(side).contains_key(price) {
        assert(book.side_valid(side));
        assert(book.level_valid(side, price));
        let level = book.levels(side)[price];
        assert(book.order_valid(side, price, level[level.len() - 1]));
    }
}

/// A snapshot shows at every price exactly the quantity that rests there,
/// and has a row at a price exactly if quantity rests there.
pub proof fn lemma_snapshot_shows_quantity(
    book: BookModel,
    depth: DepthView,
    side: Side,
    price: u32,
)
    requires
        book.valid(),
        is_snapshot(depth, book),
    ensures
        shown_quantity(depth.rows(side), price) == book.quantity_at(side, price),
        has_row(depth.rows(side), price) <==> book.quantity_at(side, price) > 0,
{
    let rows = depth.rows(side);
    lemma_level_has_quantity(book, side, price);
    assert(is_side_depth(rows, book.levels(side), side == Side::Buy));
    if has_row(rows, price) {
        let i = choose|i: int| 0 <= i < rows.len() && (#[trigger] rows[i]).0 == price;
        assert(book.levels(side).contains_key(rows[i].0));
    }
}

/// An accepted order adds its quantity at its price on its side, and changes
/// the quantity nowhere else.
pub proof fn lemma_create_adds_quantity(
    book: BookModel,
    price: u32,
    qty: u32,
    user_id: u32,
    side: Side,
    at_side: Side,
    at_price: u32,
)
    requires
        book.rejection(price, qty, side) is None,
    ensures
        book.create(price, qty, user_id, side).quantity_at(at_side, at_price) == book.quantity_at(
            at_side,
            at_price,
        ) + (if at_side == side && at_price == price {
            qty as nat
        } else {
            0
        }),
{
    let after = book.create(price, qty, user_id, side);
    if at_side == side && at_price == price {
        let order = UserOrder { user_id, qty, order_id: book.next_order_id };
        assert(after.level(side, price) == book.level(side, price).push(order));
        assert(after.level(side, price).drop_last() =~= book.level(side, price));
    } else {
        assert(after.level(at_side, at_price) == book.level(at_side, at_price));
    }
}

/// Cancelling a resting order takes its quantity away at its price on its
/// side, and changes the quantity nowhere else.
pub proof fn lemma_cancel_removes_quantity(
    book: BookModel,
    order_id: u32,
    at_side: Side,
    at_price: u32,
)
    requires
        book.valid(),
        book.contains(order_id),
    ensures
        book.cancel(order_id).quantity_at(at_side, at_price) + (if (at_price, at_side)
            == book.index[order_id] {
            book.order(order_id).qty as nat
        } else {
            0
        }) == book.quantity_at(at_side, at_price),
{
    let after = book.cancel(order_id);
    let (price, side) = book.index[order_id];
    let level = book.levels(side)[price];
    let at = position_of(level, order_id);
    assert(book.level_valid(side, price));
    assert(0 <= at < level.len() && level[at].order_id == order_id);
    lemma_total_remove(level, at);
    if at_side == side && at_price == price {
        assert(after.level(side, price) =~= level.remove(at));
    } else {
        assert(after.level(at_side, at_price) == book.level(at_side, at_price));
    }
}

/// Cancelling a resting order shows in the depth: the quantity at the
/// order's price falls by exactly the order's quantity, the row of the price
/// is gone exactly if nothing is left there, and every other row is as before.
pub proof fn lemma_cancel_lowers_depth(
    book: BookModel,
    order_id: u32,
    before: DepthView,
    after: DepthView,
)
    requires
        book.valid(),
        book.contains(order_id),
        is_snapshot(before, book),
        is_snapshot(after, book.cancel(order_id)),
    ensures
        ({
            let (price, side) = book.index[order_id];
            let rows_before = before.rows(side);
            let rows_after = after.rows(side);
            &&& shown_quantity(rows_after, price) + book.order(order_id).qty == shown_quantity(
                rows_before,
                price,
            )
            &&& has_row(rows_after, price) <==> shown_quantity(rows_after, price) > 0
            &&& forall|s: Side, p: u32|
                s != side || p != price ==> #[trigger] shown_quantity(after.rows(s), p)
                    == shown_quantity(before.rows(s), p)
        }),
{
    let (price, side) = book.index[order_id];
    let cancelled = book.cancel(order_id);
    lemma_cancel_preserves_valid(book, order_id);
    lemma_cancel_removes_quantity(book, order_id, side, price);
    lemma_snapshot_shows_quantity(book, before, side, price);
    lemma_snapshot_shows_quantity(cancelled, after, side, price);
    assert forall|s: Side, p: u32| s != side || p != price implies #[trigger] shown_quantity(
        after.rows(s),
        p,
    ) == shown_quantity(before.rows(s), p) by {
        lemma_cancel_removes_quantity(book, order_id, s, p);
        lemma_snapshot_shows_quantity(book, before, s, p);
        lemma_snapshot_shows_quantity(cancelled, after, s, p);
    }
}

/// One change asked of the book.
pub enum Command {
    Create { price: u32, qty: u32, user_id: u32, side: Side },
    Cancel { order_id: u32 },
}

/// The book after one command: an accepted order rests, a known order
/// leaves, and a refused order or an unknown identifier changes nothing.
pub open spec fn step(book: BookModel, command: Command) -> BookModel {
    match command {
        Command::Create { price, qty, user_id, side } => if book.rejection(price, qty, side)
            is None {
            book.create(price, qty, user_id, side)
        } else {
            book
        },
        Command::Cancel { order_id } => if book.contains(order_id) {
            book.cancel(order_id)
        } else {
            book
        },
    }
}

/// The identifier that a command is answered with, if it is an accepted order.
pub open spec fn issued(book: BookModel, command: Command) -> Option<u32> {
    match command {
        Command::Create { price, qty, user_id, side } => if book.rejection(price, qty, side)
            is None {
            Some(book.next_order_id)
        } else {
            None
        },
        Command::Cancel { order_id } => None,
    }
}

/// The book after a sequence of commands, one after the other.
pub open spec fn run(book: BookModel, commands: Seq<Command>) -> BookModel
    decreases commands.len(),
{
    if commands.len() == 0 {
        book
    } else {
        step(run(book, commands.drop_last()), commands.last())
    }
}

/// The identifiers handed out during a sequence of commands, in order.
pub open spec fn issued_ids(book: BookModel, commands: Seq<Command>) -> Seq<u32>
    decreases commands.len(),
{
    if commands.len() == 0 {
        Seq::empty()
    } else {
        let earlier = issued_ids(book, commands.drop_last());
        match issued(run(book, commands.drop_last()), commands.last()) {
            Some(order_id) => earlier.push(order_id),
            None => earlier,
        }
    }
}

/// An accepted order rests in the book under the identifier that was next,
/// at its price and on its side, with its quantity and its user.
pub proof fn lemma_created_order_rests(
    book: BookModel,
    price: u32,
    qty: u32,
    user_id: u32,
    side: Side,
)
    requires
        book.valid(),
        book.rejection(price, qty, side) is None,
    ensures
        ({
            let after = book.create(price, qty, user_id, side);
            let order_id = book.next_order_id;
            &&& !book.contains(order_id)
            &&& after.contains(order_id)
            &&& after.index[order_id] == (price, side)
            &&& after.order(order_id) == UserOrder { user_id, qty, order_id }
        }),
{
    let after = book.create(price, qty, user_id, side);
    lemma_create_preserves_valid(book, price, qty, user_id, side);
    assert(after.levels(side).contains_key(price));
    let level = after.levels(side)[price];
    lemma_position_unique(level, level.len() - 1);
}

/// An order that rests in the book is not touched by another order that is
/// accepted nor by the cancellation of another order.
proof fn lemma_step_keeps_order(book: BookModel, order_id: u32, command: Command)
    requires
        book.valid(),
        book.contains(order_id),
        command != (Command::Cancel { order_id }),
    ensures
        step(book, command).valid(),
        step(book, command).contains(order_id),
        step(book, command).index[order_id] == book.index[order_id],
        step(book, command).order(order_id) == book.order(order_id),
{
    let after = step(book, command);
    let (price, side) = book.index[order_id];
    let level = book.levels(side)[price];
    let at = position_of(level, order_id);
    assert(book.level_valid(side, price));
    match command {
        Command::Create { price: p, qty, user_id, side: s } => {
            if book.rejection(p, qty, s) is None {
                lemma_create_preserves_valid(book, p, qty, user_id, s);
                assert(after.levels(side).contains_key(price));
                assert(after.levels(side)[price][at] == level[at]);
                lemma_position_unique(after.levels(side)[price], at);
            }
        },
        Command::Cancel { order_id: other } => {
            if book.contains(other) {
                lemma_cancel_preserves_valid(book, other);
                let (p, s) = book.index[other];
                if s == side && p == price {
                    let gone = position_of(level, other);
                    assert(level[gone].order_id == other);
                    let to = if at < gone { at } else { at - 1 };
                    assert(level.remove(gone)[to] == level[at]);
                    assert(after.levels(side).contains_key(price));
                    lemma_position_unique(after.levels(side)[price], to);
                } else {
                    assert(after.levels(side)[price] == level);
                }
            }
        },
    }
}

/// An order rests, unchanged and in its place, until it is cancelled: no
/// sequence of other orders and cancellations touches it.
pub proof fn lemma_order_rests_until_cancelled(
    book: BookModel,
    order_id: u32,
    commands: Seq<Command>,
)
    requires
        book.valid(),
        book.contains(order_id),
        forall|i: int| 0 <= i < commands.len() ==> commands[i] != (Command::Cancel { order_id }),
    ensures
        run(book, commands).valid(),
        run(book, commands).contains(order_id),
        run(book, commands).index[order_id] == book.index[order_id],
        run(book, commands).order(order_id) == book.order(order_id),
    decreases commands.len(),
{
    if commands.len() > 0 {
        lemma_order_rests_until_cancelled(book, order_id, commands.drop_last());
        lemma_step_keeps_order(run(book, commands.drop_last()), order_id, commands.last());
    }
}

/// Over any sequence of orders and cancellations the book stays valid, and
/// the identifiers handed out increase strictly: none is handed out twice,
/// none was handed out before the sequence began, and each lies below the
/// counter that the sequence leaves.
pub proof fn lemma_issued_ids_increase(book: BookModel, commands: Seq<Command>)
    requires
        book.valid(),
    ensures
        run(book, commands).valid(),
        book.next_order_id <= run(book, commands).next_order_id,
        forall|i: int|
            0 <= i < issued_ids(book, commands).len() ==> book.next_order_id <= (
            #[trigger] issued_ids(book, commands)[i]) < run(book, commands).next_order_id,
        forall|i: int, j: int|
            0 <= i < j < issued_ids(book, commands).len() ==> (#[trigger] issued_ids(
                book,
                commands,
            )[i]) < (#[trigger] issued_ids(book, commands)[j]),
    decreases commands.len(),
{
    if commands.len() > 0 {
        let earlier = commands.drop_last();
        lemma_issued_ids_increase(book, earlier);
        let reached = run(book, earlier);
        let ids = issued_ids(book, commands);
        let before = issued_ids(book, earlier);
        match commands.last() {
            Command::Create { price, qty, user_id, side } => {
                if reached.rejection(price, qty, side) is None {
                    lemma_create_preserves_valid(reached, price, qty, user_id, side);
                    assert(ids == before.push(reached.next_order_id));
                    assert forall|i: int| 0 <= i < ids.len() implies book.next_order_id <= (
                    #[trigger] ids[i]) < run(book, commands).next_order_id by {
                        if i < before.len() {
                            assert(ids[i] == before[i]);
                        }
                    }
                    assert forall|i: int, j: int| 0 <= i < j < ids.len() implies (#[trigger] ids[i])
                        < (#[trigger] ids[j]) by {
                        assert(ids[i] == before[i]);
                        if j < before.len() {
                            assert(ids[j] == before[j]);
                        }
                    }
                } else {
                    assert(ids == before);
                }
            },
            Command::Cancel { order_id } => {
                assert(ids == before);
                if reached.contains(order_id) {
                    lemma_cancel_preserves_valid(reached, order_id);
                }
            },
        }
    }
}

/// An identifier that has been handed out and does not rest in the book any
/// more never rests in it again, whatever orders and cancellations follow:
/// identifiers are not reused, and cancelling one twice finds nothing.
pub proof fn lemma_cancelled_stays_unknown(book: BookModel, order_id: u32, commands: Seq<Command>)
    requires
        book.valid(),
        order_id < book.next_order_id,
        !book.contains(order_id),
    ensures
        !run(book, commands).contains(order_id),
        step(run(book, commands), Command::Cancel { order_id }) == run(book, commands),
    decreases commands.len(),
{
    if commands.len() > 0 {
        let earlier = commands.drop_last();
        lemma_cancelled_stays_unknown(book, order_id, earlier);
        lemma_issued_ids_increase(book, earlier);
    }
}

/// Whether every command of the sequence is an order that the book accepts
/// at its turn.
pub open spec fn all_accepted(book: BookModel, commands: Seq<Command>) -> bool
    decreases commands.len(),
{
    if commands.len() == 0 {
        true
    } else {
        &&& all_accepted(book, commands.drop_last())
        &&& issued(run(book, commands.drop_last()), commands.last()) is Some
    }
}

/// The quantity that the orders of a sequence ask to rest at a price on a side.
pub open spec fn requested_quantity(commands: Seq<Command>, side: Side, price: u32) -> nat
    decreases commands.len(),
{
    if commands.len() == 0 {
        0
    } else {
        requested_quantity(commands.drop_last(), side, price) + match commands.last() {
            Command::Create { price: p, qty, user_id, side: s } => if s == side && p == price {
                qty as nat
            } else {
                0
            },
            Command::Cancel { order_id } => 0,
        }
    }
}

/// When orders are accepted one after the other, in whatever order they
/// arrive, nothing is lost: each gets an identifier of its own, and at every
/// price the book holds what it held before plus the sum of what the orders
/// brought there.
pub proof fn lemma_accepted_orders_accounted(
    book: BookModel,
    commands: Seq<Command>,
    side: Side,
    price: u32,
)
    requires
        book.valid(),
        all_accepted(book, commands),
    ensures
        issued_ids(book, commands).len() == commands.len(),
        issued_ids(book, commands).no_duplicates(),
        run(book, commands).next_order_id == book.next_order_id + commands.len(),
        run(book, commands).quantity_at(side, price) == book.quantity_at(side, price)
            + requested_quantity(commands, side, price),
    decreases commands.len(),
{
    lemma_issued_ids_increase(book, commands);
    if commands.len() > 0 {
        let earlier = commands.drop_last();
        lemma_accepted_orders_accounted(book, earlier, side, price);
        lemma_issued_ids_increase(book, earlier);
        let reached = run(book, earlier);
        match commands.last() {
            Command::Create { price: p, qty, user_id, side: s } => {
                lemma_create_adds_quantity(reached, p, qty, user_id, s, side, price);
            },
            Command::Cancel { order_id } => {},
        }
    }
}

} // verus!
