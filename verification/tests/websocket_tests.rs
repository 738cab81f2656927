use orderbook::inputs::{CreateOrderInput, DeleteOrder, Side};
use orderbook::orderbook::Orderbook;
use orderbook::output::Depth;
use orderbook::routes::{create_order, delete_order};
use orderbook::websocket::{
    handle_feed, handle_incoming, DepthBroadcaster, FeedAction, FeedEvent, Incoming, Reply,
    FEED_CAPACITY,
};
use tokio::sync::broadcast::error::TryRecvError;

fn snapshot(id: u32) -> Depth {
    Depth { bids: vec![[id, 1]], asks: vec![], last_update_id: id.to_string() }
}

#[test]
fn ping_is_answered_with_the_same_payload() {
    match handle_incoming::<()>(Incoming::Ping(vec![1, 2, 3])) {
        Reply::Pong(payload) => assert_eq!(payload, vec![1, 2, 3]),
        other => panic!("unexpected reply {:?}", other),
    }
}

#[test]
fn text_is_echoed() {
    match handle_incoming::<()>(Incoming::Text("subscribe:depth".to_string())) {
        Reply::Text(text) => assert_eq!(text, "Echo: subscribe:depth"),
        other => panic!("unexpected reply {:?}", other),
    }
    match handle_incoming::<()>(Incoming::Text(String::new())) {
        Reply::Text(text) => assert_eq!(text, "Echo: "),
        other => panic!("unexpected reply {:?}", other),
    }
}

#[test]
fn close_error_and_other_frames() {
    assert!(matches!(handle_incoming(Incoming::Close(Some(1000u16))), Reply::Close(Some(1000))));
    assert!(matches!(handle_incoming(Incoming::Close(None::<u16>)), Reply::Close(None)));
    assert!(matches!(handle_incoming::<()>(Incoming::ProtocolError), Reply::Drop));
    assert!(matches!(handle_incoming::<()>(Incoming::Other), Reply::Nothing));
}

#[test]
fn feed_events() {
    match handle_feed(FeedEvent::Update(snapshot(4))) {
        FeedAction::Push(update) => {
            assert_eq!(update.0.bids, vec![[4, 1]]);
            assert_eq!(update.0.last_update_id, "4");
        },
        other => panic!("unexpected action {:?}", other),
    }
    assert!(matches!(handle_feed(FeedEvent::Lagged(3)), FeedAction::Skip));
    assert!(matches!(handle_feed(FeedEvent::Closed), FeedAction::Stop));
}

#[test]
fn broadcast_without_subscribers_is_dropped() {
    let broadcaster = DepthBroadcaster::new();
    broadcaster.broadcast(snapshot(1));
    let mut rx = broadcaster.subscribe();
    assert_eq!(rx.try_recv().unwrap_err(), TryRecvError::Empty);
}

#[test]
fn every_subscriber_receives_every_snapshot_in_order() {
    let broadcaster = DepthBroadcaster::new();
    let mut first = broadcaster.subscribe();
    let mut second = broadcaster.clone().subscribe();
    for id in 1..=5 {
        broadcaster.broadcast(snapshot(id));
    }
    for rx in [&mut first, &mut second] {
        for id in 1..=5u32 {
            let depth = rx.try_recv().unwrap();
            assert_eq!(depth.last_update_id, id.to_string());
            assert_eq!(depth.bids, vec![[id, 1]]);
        }
        assert_eq!(rx.try_recv().unwrap_err(), TryRecvError::Empty);
    }
}

#[test]
fn late_subscriber_sees_only_later_snapshots() {
    let broadcaster = DepthBroadcaster::new();
    let mut early = broadcaster.subscribe();
    broadcaster.broadcast(snapshot(1));
    let mut late = broadcaster.subscribe();
    broadcaster.broadcast(snapshot(2));
    assert_eq!(early.try_recv().unwrap().last_update_id, "1");
    assert_eq!(early.try_recv().unwrap().last_update_id, "2");
    assert_eq!(late.try_recv().unwrap().last_update_id, "2");
    assert_eq!(late.try_recv().unwrap_err(), TryRecvError::Empty);
}

#[test]
fn subscriber_keeps_as_many_snapshots_as_the_feed_capacity() {
    let broadcaster = DepthBroadcaster::new();
    let mut rx = broadcaster.subscribe();
    let kept = FEED_CAPACITY as u32;
    for id in 1..=kept {
        broadcaster.broadcast(snapshot(id));
    }
    assert_eq!(rx.len(), FEED_CAPACITY);
    for id in 1..=kept {
        assert_eq!(rx.try_recv().unwrap().last_update_id, id.to_string());
    }
    assert_eq!(rx.try_recv().unwrap_err(), TryRecvError::Empty);
}

#[test]
fn slow_subscriber_loses_the_oldest_snapshots() {
    assert_eq!(FEED_CAPACITY, 100);
    let broadcaster = DepthBroadcaster::new();
    let mut rx = broadcaster.subscribe();
    // The channel keeps the capacity rounded up to a power of two.
    let kept = 128u32;
    for id in 1..=kept + 10 {
        broadcaster.broadcast(snapshot(id));
    }
    assert_eq!(rx.try_recv().unwrap_err(), TryRecvError::Lagged(10));
    for id in 11..=kept + 10 {
        assert_eq!(rx.try_recv().unwrap().last_update_id, id.to_string());
    }
    assert_eq!(rx.try_recv().unwrap_err(), TryRecvError::Empty);
}

#[test]
fn dropped_broadcaster_closes_the_subscription() {
    let broadcaster = DepthBroadcaster::new();
    let mut rx = broadcaster.subscribe();
    broadcaster.broadcast(snapshot(1));
    drop(broadcaster);
    assert_eq!(rx.try_recv().unwrap().last_update_id, "1");
    assert_eq!(rx.try_recv().unwrap_err(), TryRecvError::Closed);
}

#[test]
fn subscriber_receives_one_push_per_successful_change() {
    let mut book = Orderbook::new();
    let broadcaster = DepthBroadcaster::new();
    let mut rx = broadcaster.subscribe();
    let requests = [
        CreateOrderInput { price: 100, qty: 5, user_id: 1, side: Side::Buy },
        CreateOrderInput { price: 0, qty: 5, user_id: 1, side: Side::Buy },
        CreateOrderInput { price: 100, qty: 3, user_id: 2, side: Side::Buy },
        CreateOrderInput { price: 50, qty: 10, user_id: 3, side: Side::Sell },
    ];
    let mut expected = Vec::new();
    for request in requests.iter() {
        if let Ok(accepted) = create_order(&mut book, request) {
            expected.push((accepted.depth.bids.clone(), accepted.depth.asks.clone()));
            broadcaster.broadcast(accepted.depth);
        }
    }
    for id in ["0", "nope", "7", "2"] {
        if let Ok(accepted) = delete_order(&mut book, &DeleteOrder { order_id: id.to_string() }) {
            expected.push((accepted.depth.bids.clone(), accepted.depth.asks.clone()));
            broadcaster.broadcast(accepted.depth);
        }
    }
    assert_eq!(
        expected,
        vec![
            (vec![[100, 5]], vec![]),
            (vec![[100, 8]], vec![]),
            (vec![[100, 8]], vec![[50, 10]]),
            (vec![[100, 3]], vec![[50, 10]]),
            (vec![[100, 3]], vec![]),
        ]
    );
    for (bids, asks) in expected {
        let pushed = rx.try_recv().unwrap();
        assert_eq!((pushed.bids, pushed.asks), (bids, asks));
    }
    assert_eq!(rx.try_recv().unwrap_err(), TryRecvError::Empty);
}
