//! The real-time feed: what a connection answers, and the channel that fans
//! snapshots out to the connections.
//!
//! The transport is not here. A connection hands each frame it receives to
//! [`handle_incoming`] and each event of its subscription to [`handle_feed`],
//! and performs the action that comes back.

use vstd::prelude::*;
use vstd::string::StringExecFns;
use tokio::sync::broadcast::{Receiver, Sender};
use crate::output::Depth;

verus! {

/// The sending half of tokio's broadcast channel. Its state is shared with
/// the receivers and changes behind shared references, so nothing is stated
/// of it.
#[verifier::external_type_specification]
#[verifier::external_body]
#[verifier::reject_recursive_types(T)]
pub struct ExSender<T>(Sender<T>);

/// A receiving half of tokio's broadcast channel, with its own cursor into
/// the channel's ring of values.
#[verifier::external_type_specification]
#[verifier::external_body]
#[verifier::reject_recursive_types(T)]
pub struct ExReceiver<T>(Receiver<T>);

/// The message that carries a snapshot to a connection.
#[derive(Clone, Debug)]
pub struct DepthUpdate(pub Depth);

/// A frame that arrived on a connection, as far as the session reads it.
/// `R` is the transport's reason for a close, which is handed back as it came.
#[derive(Debug)]
pub enum Incoming<R> {
    Ping(Vec<u8>),
    Text(String),
    Close(R),
    /// The peer broke the protocol.
    ProtocolError,
    /// Any other frame.
    Other,
}

/// What the session does about a frame.
#[derive(Debug)]
pub enum Reply<R> {
    Pong(Vec<u8>),
    Text(String),
    /// Answer the close with this reason and end the session.
    Close(R),
    /// End the session without an answer.
    Drop,
    Nothing,
}

/// What a subscription delivers.
#[derive(Debug)]
pub enum FeedEvent {
    Update(Depth),
    /// The subscriber fell behind and this many snapshots were overwritten.
    Lagged(u64),
    /// The broadcaster is gone.
    Closed,
}

/// What the session does about an event of its subscription.
#[derive(Debug)]
pub enum FeedAction {
    Push(DepthUpdate),
    /// Go on with the next event.
    Skip,
    /// Stop listening.
    Stop,
}

/// The text that a text frame is answered with.
pub open spec fn echo_of(text: Seq<char>) -> Seq<char> {
    "Echo: "@ + text
}

/// Decides the answer to a frame: a ping is answered with a pong of the same
/// payload, a text with its echo, a close with a close for the same reason; a
/// protocol error ends the session, and any other frame is ignored.
pub fn handle_incoming<R>(incoming: Incoming<R>) -> (reply: Reply<R>)
    ensures
        match incoming {
            Incoming::Ping(payload) => reply == Reply::<R>::Pong(payload),
            Incoming::Text(text) => reply matches Reply::Text(echo) && echo@ == echo_of(text@),
            Incoming::Close(reason) => reply == Reply::Close(reason),
            Incoming::ProtocolError => reply is Drop,
            Incoming::Other => reply is Nothing,
        },
{
    match incoming {
        Incoming::Ping(payload) => Reply::Pong(payload),
        Incoming::Text(text) => Reply::Text(String::from_str("Echo: ").concat(text.as_str())),
        Incoming::Close(reason) => Reply::Close(reason),
        Incoming::ProtocolError => Reply::Drop,
        Incoming::Other => Reply::Nothing,
    }
}

/// Decides what to do about an event of the subscription: a snapshot is
/// pushed to the client, snapshots that were lost to lag are passed over,
/// since the next snapshot supersedes them, and the end of the channel ends
/// the listening.
pub fn handle_feed(event: FeedEvent) -> (action: FeedAction)
    ensures
        match event {
            FeedEvent::Update(depth) => action == FeedAction::Push(DepthUpdate(depth)),
            FeedEvent::Lagged(_) => action is Skip,
            FeedEvent::Closed => action is Stop,
        },
{
    match event {
        FeedEvent::Update(depth) => FeedAction::Push(DepthUpdate(depth)),
        FeedEvent::Lagged(_) => FeedAction::Skip,
        FeedEvent::Closed => FeedAction::Stop,
    }
}

/// How many snapshots the channel keeps for a subscriber that falls behind.
pub const FEED_CAPACITY: usize = 100;

/// The capacity that the channel behind a sending half was made with: the
/// argument of the call of tokio's `broadcast::channel` that made it. tokio
/// rounds it up to a power of two, and keeps that many values for a
/// subscriber that falls behind.
pub uninterp spec fn sender_capacity(tx: Sender<Depth>) -> usize;

/// The capacity that the channel behind a receiving half was made with.
pub uninterp spec fn receiver_capacity(rx: Receiver<Depth>) -> usize;

/// Calls tokio's `broadcast::channel` and keeps the sending half. The call
/// panics for a capacity of zero or above half of `usize::MAX`, which the
/// precondition excludes. The contract records the capacity that the channel
/// was made with; nothing is claimed of what the channel holds.
#[verifier::external_body]
fn open_channel(capacity: usize) -> (tx: Sender<Depth>)
    requires
        0 < capacity <= usize::MAX / 2,
    ensures
        sender_capacity(tx) == capacity,
{
    tokio::sync::broadcast::channel(capacity).0
}

/// Calls tokio's `Sender::send`, which queues the value for the receivers
/// that are subscribed at the time of the call and hands it back as an error
/// when there is none. The outcome is dropped, and nothing is claimed.
#[verifier::external_body]
fn send_depth(tx: &Sender<Depth>, depth: Depth) {
    let _ = tx.send(depth);
}

/// Calls tokio's `Sender::subscribe`, which hands out a receiving half of
/// the sender's own channel: the contract says that the receiver is on a
/// channel of the sender's capacity. Nothing is claimed of what it will
/// receive; by tokio's documentation it sees the values sent after this call.
/// The call panics once a quarter of `usize::MAX` receivers are subscribed,
/// which no precondition over the arguments can exclude and no memory can
/// reach.
#[verifier::external_body]
fn new_receiver(tx: &Sender<Depth>) -> (rx: Receiver<Depth>)
    ensures
        receiver_capacity(rx) == sender_capacity(*tx),
{
    tx.subscribe()
}

/// tokio's `Clone` for `Sender`: another handle on the same channel. Nothing
/// is claimed of it.
pub assume_specification<T>[ <Sender<T> as Clone>::clone ](tx: &Sender<T>) -> (other: Sender<T>);

/// Fans snapshots out to any number of subscribers. Publishing never waits
/// for a subscriber: a subscriber that falls behind by more than the capacity
/// of the channel loses the oldest snapshots.
pub struct DepthBroadcaster {
    tx: Sender<Depth>,
}

impl Clone for DepthBroadcaster {
    /// Another handle on the same channel.
    fn clone(&self) -> Self {
        DepthBroadcaster { tx: self.tx.clone() }
    }
}

impl DepthBroadcaster {
    /// The number of snapshots that the channel was made to keep for each
    /// subscriber.
    pub closed spec fn capacity(&self) -> usize {
        sender_capacity(self.tx)
    }

    /// A broadcaster without subscribers, whose channel is made to keep
    /// [`FEED_CAPACITY`] snapshots for each subscriber.
    pub fn new() -> (broadcaster: Self)
        ensures
            broadcaster.capacity() == FEED_CAPACITY,
    {
        DepthBroadcaster { tx: open_channel(FEED_CAPACITY) }
    }

    /// Publishes a snapshot to the current subscribers. Without subscribers
    /// the snapshot is dropped.
    pub fn broadcast(&self, depth: Depth) {
        send_depth(&self.tx, depth)
    }

    /// A new subscription to this broadcaster's channel, bounded by the
    /// broadcaster's capacity, which sees the snapshots published from now on.
    pub fn subscribe(&self) -> (rx: Receiver<Depth>)
        ensures
            receiver_capacity(rx) == self.capacity(),
    {
        new_receiver(&self.tx)
    }
}

} // verus!
