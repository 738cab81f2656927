//! Request payloads accepted at the boundary of the book.

use vstd::prelude::*;

verus! {

/// The side of the book an order rests on.
#[derive(Clone, Copy, Debug, PartialEq, Eq, Structural)]
pub enum Side {
    Buy,
    Sell,
}

/// A request to place a new resting order.
#[derive(Clone, Copy, Debug)]
pub struct CreateOrderInput {
    pub price: u32,
    pub qty: u32,
    pub user_id: u32,
    pub side: Side,
}

/// A request to cancel an order. The identifier travels as a decimal string.
#[derive(Debug)]
pub struct DeleteOrder {
    pub order_id: String,
}

} // verus!
