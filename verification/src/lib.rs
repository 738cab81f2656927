//! A resting limit-order book for a single instrument.
//!
//! The book stores buy and sell orders by price, hands out strictly increasing
//! order identifiers, cancels orders through an identifier index and produces
//! aggregated depth snapshots. Orders are never matched against each other.
//!
//! - [`model`] is the mathematical book that every contract speaks of.
//! - [`orderbook`] is the engine, verified against the model.
//! - [`laws`] proves what holds of every book and of every sequence of changes.
//! - [`decimal`] renders and reads identifiers as decimal text.
//! - [`routes`] validates requests and produces responses, on plain values.
//! - [`websocket`] decides what a connection of the real-time feed does, and
//!   holds the channel that fans snapshots out.
//! - [`inputs`] and [`output`] are the payloads.

pub mod decimal;
pub mod inputs;
pub mod laws;
pub mod model;
pub mod orderbook;
pub mod output;
pub mod routes;
pub mod websocket;
