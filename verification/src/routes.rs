//! The request/response surface of the book, on plain values.
//!
//! Each handler validates its request, changes the book if the request is
//! valid, and returns the response together with the snapshot that is to be
//! published for the change. Reading and writing the wire is left to the
//! caller, and so is publishing: the snapshot is taken while the caller holds
//! the book, and sent after the book has been released.

use vstd::prelude::*;
use crate::decimal::{decimal_digits, lemma_parse_undoes_render, parse, parsed, render};
use crate::inputs::{CreateOrderInput, DeleteOrder};
use crate::laws::lemma_created_order_rests;
use crate::model::{is_snapshot, BookModel};
use crate::orderbook::Orderbook;
use crate::output::{CreateOrderResponse, DeleteOrderResponse, Depth};

verus! {

/// Status of a successful read or cancellation.
pub const STATUS_OK: u16 = 200;

/// Status of an accepted order.
pub const STATUS_CREATED: u16 = 201;

/// The answer to an accepted request: the status and body of the response,
/// and the snapshot of the book after the change, to be published.
#[derive(Debug)]
pub struct Success<T> {
    pub status: u16,
    pub body: T,
    pub depth: Depth,
}

/// Why a request is refused.
#[derive(Clone, Copy, Debug, PartialEq, Eq, Structural)]
pub enum ApiError {
    /// A field of the request is zero, or the identifier is not a decimal
    /// number of 32 bits.
    Validation,
    /// No order with the identifier rests in the book.
    NotFound,
    /// The request is valid, but the book cannot take the order: identifiers
    /// are exhausted or the price level is full.
    Unavailable,
}

impl ApiError {
    /// The status that reports this error.
    pub open spec fn status_code(self) -> u16 {
        match self {
            ApiError::Validation => 400,
            ApiError::NotFound => 404,
            ApiError::Unavailable => 503,
        }
    }

    /// The status that reports this error.
    pub fn status(&self) -> (code: u16)
        ensures
            code == self.status_code(),
    {
        match self {
            ApiError::Validation => 400,
            ApiError::NotFound => 404,
            ApiError::Unavailable => 503,
        }
    }
}

/// Why a request for a new order is refused, or nothing if it is accepted:
/// price, quantity and user must be positive, and the book must accept the
/// order.
pub open spec fn create_refusal(book: BookModel, body: CreateOrderInput) -> Option<ApiError> {
    if body.price == 0 || body.qty == 0 || body.user_id == 0 {
        Some(ApiError::Validation)
    } else if book.rejection(body.price, body.qty, body.side) is Some {
        Some(ApiError::Unavailable)
    } else {
        None
    }
}

/// Why a request for a cancellation is refused, or nothing if it is accepted:
/// the identifier must be decimal text of a 32-bit number, and an order with
/// that identifier must rest in the book.
pub open spec fn delete_refusal(book: BookModel, order_id: Seq<char>) -> Option<ApiError> {
    match parsed(order_id) {
        None => Some(ApiError::Validation),
        Some(id) => if book.contains(id) {
            None
        } else {
            Some(ApiError::NotFound)
        },
    }
}

/// The identifier that the response to an accepted order carries is
/// accepted by a cancellation that follows, and names that order.
pub proof fn lemma_created_id_cancels(book: BookModel, body: CreateOrderInput)
    requires
        book.valid(),
        create_refusal(book, body) is None,
    ensures
        ({
            let after = book.create(body.price, body.qty, body.user_id, body.side);
            let text = decimal_digits(book.next_order_id as nat);
            &&& parsed(text) == Some(book.next_order_id)
            &&& delete_refusal(after, text) is None
            &&& after.order(book.next_order_id).qty == body.qty
            &&& after.order(book.next_order_id).user_id == body.user_id
        }),
{
    lemma_parse_undoes_render(book.next_order_id);
    lemma_created_order_rests(book, body.price, body.qty, body.user_id, body.side);
}

/// Places an order. On success the order rests in the book, the response
/// has status 201 and carries the order's identifier as decimal text, and the
/// snapshot is that of the book with the order in it. A refused request
/// leaves the book unchanged.
pub fn create_order(book: &mut Orderbook, body: &CreateOrderInput) -> (result: Result<
    Success<CreateOrderResponse>,
    ApiError,
>)
    ensures
        old(book)@.valid(),
        final(book)@.valid(),
        match create_refusal(old(book)@, *body) {
            Some(error) => {
                &&& result is Err
                &&& result->Err_0 == error
                &&& final(book)@ == old(book)@
            },
            None => {
                &&& result is Ok
                &&& result->Ok_0.status == STATUS_CREATED
                &&& result->Ok_0.body.order_id@ == decimal_digits(old(book)@.next_order_id as nat)
                &&& final(book)@ == old(book)@.create(
                    body.price,
                    body.qty,
                    body.user_id,
                    body.side,
                )
                &&& is_snapshot(result->Ok_0.depth@, final(book)@)
            },
        },
{
    proof {
        use_type_invariant(&*book);
    }
    if body.price == 0 || body.qty == 0 || body.user_id == 0 {
        return Err(ApiError::Validation);
    }
    match book.create_order(body.price, body.qty, body.user_id, body.side) {
        Ok(order_id) => {
            let depth = book.get_depth();
            let body = CreateOrderResponse { order_id: render(order_id) };
            Ok(Success { status: STATUS_CREATED, body, depth })
        },
        Err(_) => Err(ApiError::Unavailable),
    }
}

/// Cancels an order. On success the order has left the book, the response
/// has status 200 and reports that nothing was filled, and the snapshot is
/// that of the book without the order. A refused request leaves the book
/// unchanged.
pub fn delete_order(book: &mut Orderbook, body: &DeleteOrder) -> (result: Result<
    Success<DeleteOrderResponse>,
    ApiError,
>)
    ensures
        old(book)@.valid(),
        final(book)@.valid(),
        match delete_refusal(old(book)@, body.order_id@) {
            Some(error) => {
                &&& result is Err
                &&& result->Err_0 == error
                &&& final(book)@ == old(book)@
            },
            None => {
                &&& result is Ok
                &&& result->Ok_0.status == STATUS_OK
                &&& result->Ok_0.body == DeleteOrderResponse { filled_qty: 0, average_price: 0 }
                &&& final(book)@ == old(book)@.cancel(parsed(body.order_id@)->0)
                &&& is_snapshot(result->Ok_0.depth@, final(book)@)
            },
        },
{
    proof {
        use_type_invariant(&*book);
    }
    let order_id = match parse(body.order_id.as_str()) {
        Some(order_id) => order_id,
        None => {
            return Err(ApiError::Validation);
        },
    };
    match book.delete_order(order_id) {
        Some(_) => {
            let depth = book.get_depth();
            let body = DeleteOrderResponse { filled_qty: 0, average_price: 0 };
            Ok(Success { status: STATUS_OK, body, depth })
        },
        None => Err(ApiError::NotFound),
    }
}

} // verus!
