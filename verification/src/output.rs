//! Response payloads produced at the boundary of the book.

use vstd::prelude::*;
use crate::inputs::Side;

verus! {

/// The answer to an accepted order: its identifier as decimal text.
#[derive(Clone, Debug)]
pub struct CreateOrderResponse {
    pub order_id: String,
}

/// The answer to a cancellation. Nothing is ever filled, so both fields are zero.
#[derive(Clone, Copy, Debug, PartialEq, Eq, Structural)]
pub struct DeleteOrderResponse {
    pub filled_qty: u32,
    pub average_price: u32,
}

/// An aggregated snapshot of the book: one `[price, quantity]` row per price
/// level, best price first on each side, and the identifier counter at the
/// time of the snapshot as decimal text.
#[derive(Clone, Debug)]
pub struct Depth {
    pub bids: Vec<[u32; 2]>,
    pub asks: Vec<[u32; 2]>,
    pub last_update_id: String,
}

/// A single execution against a resting order.
#[derive(Clone, Copy, Debug, PartialEq, Eq, Structural)]
pub struct Fill {
    pub price: u32,
    pub qty: u32,
    pub maker_order_id: u32,
}

/// The outcome of an order that executed against the book.
#[derive(Clone, Debug)]
pub struct FillResponse {
    /// `None` if the order was filled completely.
    pub order_id: Option<u32>,
    pub fills: Vec<Fill>,
    pub filled_qty: u32,
    pub remaining_qty: u32,
}

/// The rows of one side of a snapshot as `(price, quantity)` pairs.
pub open spec fn rows_view(rows: Seq<[u32; 2]>) -> Seq<(u32, u32)> {
    Seq::new(rows.len(), |i: int| (rows[i][0], rows[i][1]))
}

/// The mathematical value of a snapshot.
pub struct DepthView {
    pub bids: Seq<(u32, u32)>,
    pub asks: Seq<(u32, u32)>,
    pub last_update_id: Seq<char>,
}

impl DepthView {
    /// The rows of one side: bids for buy orders, asks for sell orders.
    pub open spec fn rows(self, side: Side) -> Seq<(u32, u32)> {
        match side {
            Side::Buy => self.bids,
            Side::Sell => self.asks,
        }
    }
}

impl View for Depth {
    type V = DepthView;

    open spec fn view(&self) -> DepthView {
        DepthView {
            bids: rows_view(self.bids@),
            asks: rows_view(self.asks@),
            last_update_id: self.last_update_id@,
        }
    }
}

} // verus!
