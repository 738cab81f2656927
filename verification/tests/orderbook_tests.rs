use orderbook::inputs::Side;
use orderbook::orderbook::{OrderError, Orderbook, UserOrder};

#[test]
fn new_book_has_empty_depth() {
    let book = Orderbook::new();
    let depth = book.get_depth();
    assert!(depth.bids.is_empty());
    assert!(depth.asks.is_empty());
    assert_eq!(depth.last_update_id, "0");
}

#[test]
fn create_then_cancel_first_of_two_bids() {
    let mut book = Orderbook::new();
    let first = book.create_order(100, 5, 1, Side::Buy).unwrap();
    assert_eq!(book.get_depth().bids, vec![[100, 5]]);
    let second = book.create_order(100, 3, 2, Side::Buy).unwrap();
    assert_eq!(book.get_depth().bids, vec![[100, 8]]);
    assert_ne!(first, second);
    let cancelled = book.delete_order(first);
    assert_eq!(cancelled, Some(UserOrder { user_id: 1, qty: 5, order_id: first }));
    let depth = book.get_depth();
    assert_eq!(depth.bids, vec![[100, 3]]);
    assert!(depth.asks.is_empty());
}

#[test]
fn cancelled_ask_prunes_its_level() {
    let mut book = Orderbook::new();
    let id = book.create_order(50, 10, 1, Side::Sell).unwrap();
    assert_eq!(book.get_depth().asks, vec![[50, 10]]);
    assert!(book.delete_order(id).is_some());
    let depth = book.get_depth();
    assert_eq!(depth.asks, Vec::<[u32; 2]>::new());
    assert_eq!(depth.bids, Vec::<[u32; 2]>::new());
}

#[test]
fn order_ids_start_at_zero_and_increase_by_one() {
    let mut book = Orderbook::new();
    let mut issued = Vec::new();
    for i in 0..50u32 {
        let side = if i % 2 == 0 { Side::Buy } else { Side::Sell };
        issued.push(book.create_order(10 + i % 7, 1 + i, i + 1, side).unwrap());
    }
    assert_eq!(issued, (0..50u32).collect::<Vec<u32>>());
    for pair in issued.windows(2) {
        assert!(pair[0] < pair[1]);
    }
}

#[test]
fn order_ids_are_not_reused_after_cancellation() {
    let mut book = Orderbook::new();
    let a = book.create_order(10, 1, 1, Side::Buy).unwrap();
    let b = book.create_order(10, 1, 1, Side::Buy).unwrap();
    assert!(book.delete_order(b).is_some());
    assert!(book.delete_order(a).is_some());
    let c = book.create_order(10, 1, 1, Side::Buy).unwrap();
    assert_eq!((a, b, c), (0, 1, 2));
    assert_eq!(book.get_depth().last_update_id, "3");
}

#[test]
fn refused_orders_do_not_consume_an_id() {
    let mut book = Orderbook::new();
    assert_eq!(book.create_order(0, 1, 1, Side::Buy), Err(OrderError::ZeroPrice));
    assert_eq!(book.create_order(1, 0, 1, Side::Buy), Err(OrderError::ZeroQuantity));
    assert_eq!(book.create_order(1, 1, 1, Side::Buy), Ok(0));
}

#[test]
fn zero_price_is_reported_before_zero_quantity() {
    let mut book = Orderbook::new();
    assert_eq!(book.create_order(0, 0, 1, Side::Sell), Err(OrderError::ZeroPrice));
    let depth = book.get_depth();
    assert!(depth.bids.is_empty() && depth.asks.is_empty());
    assert_eq!(depth.last_update_id, "0");
}

#[test]
fn zero_user_id_is_accepted_by_the_engine() {
    let mut book = Orderbook::new();
    assert_eq!(book.create_order(5, 5, 0, Side::Sell), Ok(0));
}

#[test]
fn level_that_would_overflow_is_refused() {
    let mut book = Orderbook::new();
    assert_eq!(book.create_order(7, u32::MAX - 1, 1, Side::Buy), Ok(0));
    assert_eq!(book.create_order(7, 2, 1, Side::Buy), Err(OrderError::LevelFull));
    assert_eq!(book.get_depth().bids, vec![[7, u32::MAX - 1]]);
    assert_eq!(book.create_order(7, 1, 1, Side::Buy), Ok(1));
    assert_eq!(book.get_depth().bids, vec![[7, u32::MAX]]);
    assert_eq!(book.create_order(7, 1, 1, Side::Buy), Err(OrderError::LevelFull));
    // The other side and other prices are not affected.
    assert_eq!(book.create_order(7, u32::MAX, 1, Side::Sell), Ok(2));
    assert_eq!(book.create_order(8, u32::MAX, 1, Side::Buy), Ok(3));
}

#[test]
fn exhausted_ids_are_reported() {
    let mut book = Orderbook::with_next_order_id(u32::MAX - 1);
    assert_eq!(book.get_depth().last_update_id, "4294967294");
    assert_eq!(book.create_order(1, 1, 1, Side::Buy), Ok(u32::MAX - 1));
    assert_eq!(book.get_depth().last_update_id, "4294967295");
    assert_eq!(book.create_order(1, 1, 1, Side::Buy), Err(OrderError::IdsExhausted));
    assert_eq!(book.get_depth().bids, vec![[1, 1]]);
    assert_eq!(
        book.delete_order(u32::MAX - 1),
        Some(UserOrder { user_id: 1, qty: 1, order_id: u32::MAX - 1 })
    );
    assert_eq!(book.create_order(1, 1, 1, Side::Buy), Err(OrderError::IdsExhausted));
}

#[test]
fn cancel_unknown_id_reports_not_found_and_changes_nothing() {
    let mut book = Orderbook::new();
    book.create_order(100, 5, 1, Side::Buy).unwrap();
    book.create_order(101, 6, 1, Side::Sell).unwrap();
    let before = book.get_depth();
    assert_eq!(book.delete_order(9999), None);
    assert_eq!(book.delete_order(2), None);
    let after = book.get_depth();
    assert_eq!(before.bids, after.bids);
    assert_eq!(before.asks, after.asks);
    assert_eq!(before.last_update_id, after.last_update_id);
}

#[test]
fn cancel_twice_reports_not_found_the_second_time() {
    let mut book = Orderbook::new();
    let keep = book.create_order(100, 5, 1, Side::Buy).unwrap();
    let id = book.create_order(100, 4, 2, Side::Buy).unwrap();
    assert_eq!(book.delete_order(id), Some(UserOrder { user_id: 2, qty: 4, order_id: id }));
    let once = book.get_depth();
    assert_eq!(book.delete_order(id), None);
    let twice = book.get_depth();
    assert_eq!(once.bids, vec![[100, 5]]);
    assert_eq!(twice.bids, vec![[100, 5]]);
    assert_eq!(book.delete_order(keep), Some(UserOrder { user_id: 1, qty: 5, order_id: keep }));
}

#[test]
fn cancel_lowers_the_level_by_the_cancelled_quantity() {
    let mut book = Orderbook::new();
    let a = book.create_order(20, 7, 1, Side::Sell).unwrap();
    let b = book.create_order(20, 11, 2, Side::Sell).unwrap();
    let c = book.create_order(20, 13, 3, Side::Sell).unwrap();
    book.create_order(21, 1, 3, Side::Sell).unwrap();
    assert_eq!(book.get_depth().asks, vec![[20, 31], [21, 1]]);
    assert_eq!(book.delete_order(b).map(|o| o.qty), Some(11));
    assert_eq!(book.get_depth().asks, vec![[20, 20], [21, 1]]);
    assert_eq!(book.delete_order(a).map(|o| o.qty), Some(7));
    assert_eq!(book.get_depth().asks, vec![[20, 13], [21, 1]]);
    assert_eq!(book.delete_order(c).map(|o| o.qty), Some(13));
    assert_eq!(book.get_depth().asks, vec![[21, 1]]);
}

#[test]
fn cancel_keeps_the_other_side_at_the_same_price() {
    let mut book = Orderbook::new();
    let bid = book.create_order(30, 2, 1, Side::Buy).unwrap();
    let ask = book.create_order(30, 9, 1, Side::Sell).unwrap();
    assert_eq!(book.delete_order(bid), Some(UserOrder { user_id: 1, qty: 2, order_id: bid }));
    let depth = book.get_depth();
    assert!(depth.bids.is_empty());
    assert_eq!(depth.asks, vec![[30, 9]]);
    assert_eq!(book.delete_order(ask), Some(UserOrder { user_id: 1, qty: 9, order_id: ask }));
}

#[test]
fn depth_is_the_same_when_read_twice() {
    let mut book = Orderbook::new();
    for i in 1..=40u32 {
        let side = if i % 3 == 0 { Side::Sell } else { Side::Buy };
        book.create_order((i * 37) % 23 + 1, i, i, side).unwrap();
    }
    book.delete_order(5).unwrap();
    let first = book.get_depth();
    let second = book.get_depth();
    assert_eq!(first.bids, second.bids);
    assert_eq!(first.asks, second.asks);
    assert_eq!(first.last_update_id, second.last_update_id);
}

#[test]
fn bids_descend_and_asks_ascend_strictly() {
    let mut book = Orderbook::new();
    let prices = [5u32, 900, 17, 17, 3, 250, 900, 1, 42, 5, 77, 4_000_000_000];
    for (i, price) in prices.iter().enumerate() {
        book.create_order(*price, 1 + i as u32, 1, Side::Buy).unwrap();
        book.create_order(*price, 2 + i as u32, 1, Side::Sell).unwrap();
    }
    let depth = book.get_depth();
    assert_eq!(depth.bids.len(), 9);
    assert_eq!(depth.asks.len(), 9);
    for pair in depth.bids.windows(2) {
        assert!(pair[0][0] > pair[1][0]);
    }
    for pair in depth.asks.windows(2) {
        assert!(pair[0][0] < pair[1][0]);
    }
    assert_eq!(
        depth.bids,
        vec![
            [4_000_000_000, 12],
            [900, 9],
            [250, 6],
            [77, 11],
            [42, 9],
            [17, 7],
            [5, 11],
            [3, 5],
            [1, 8]
        ]
    );
    assert_eq!(
        depth.asks,
        vec![
            [1, 9],
            [3, 6],
            [5, 13],
            [17, 9],
            [42, 10],
            [77, 12],
            [250, 7],
            [900, 11],
            [4_000_000_000, 13]
        ]
    );
    for row in depth.bids.iter().chain(depth.asks.iter()) {
        assert!(row[1] > 0);
    }
}

#[test]
fn last_update_id_is_the_order_counter() {
    let mut book = Orderbook::new();
    for expected in 1..=12u32 {
        book.create_order(1, 1, 1, Side::Buy).unwrap();
        assert_eq!(book.get_depth().last_update_id, expected.to_string());
    }
    book.delete_order(3).unwrap();
    assert_eq!(book.get_depth().last_update_id, "12");
}

#[test]
fn orders_at_one_price_leave_in_any_order() {
    let mut book = Orderbook::new();
    let ids: Vec<u32> =
        (1..=6u32).map(|q| book.create_order(9, q, q * 10, Side::Buy).unwrap()).collect();
    assert_eq!(book.get_depth().bids, vec![[9, 21]]);
    assert_eq!(book.delete_order(ids[3]), Some(UserOrder { user_id: 40, qty: 4, order_id: 3 }));
    assert_eq!(book.delete_order(ids[0]), Some(UserOrder { user_id: 10, qty: 1, order_id: 0 }));
    assert_eq!(book.delete_order(ids[5]), Some(UserOrder { user_id: 60, qty: 6, order_id: 5 }));
    assert_eq!(book.get_depth().bids, vec![[9, 10]]);
    assert_eq!(book.delete_order(ids[1]), Some(UserOrder { user_id: 20, qty: 2, order_id: 1 }));
    assert_eq!(book.delete_order(ids[2]), Some(UserOrder { user_id: 30, qty: 3, order_id: 2 }));
    assert_eq!(book.delete_order(ids[4]), Some(UserOrder { user_id: 50, qty: 5, order_id: 4 }));
    assert!(book.get_depth().bids.is_empty());
}

#[test]
fn many_callers_one_after_the_other_lose_nothing() {
    let mut book = Orderbook::new();
    let callers = 8u32;
    let per_caller = 25u32;
    let mut issued = Vec::new();
    for round in 0..per_caller {
        for caller in 0..callers {
            let price = 100 + caller % 4;
            issued.push(book.create_order(price, caller + 1, caller + 1, Side::Buy).unwrap());
            let _ = round;
        }
    }
    let mut distinct = issued.clone();
    distinct.sort();
    distinct.dedup();
    assert_eq!(distinct.len(), (callers * per_caller) as usize);
    // Callers c and c + 4 share a price: (c + 1) + (c + 5) per round.
    let depth = book.get_depth();
    assert_eq!(
        depth.bids,
        vec![[103, 12 * per_caller], [102, 10 * per_caller], [101, 8 * per_caller], [100, 6 * per_caller]]
    );
    assert_eq!(depth.last_update_id, "200");
}
