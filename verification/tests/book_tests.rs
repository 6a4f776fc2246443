use engine::book::Book;
use engine::book::SubmitError;
use engine::clock::current_timestamp_ns;
use engine::event_log::EventKind;
use engine::order::Side;

#[test]
fn scenario_partial_fill_across_fifo() {
    let mut b = Book::new();
    let id1 = b.submit_limit(Side::Sell, 10, 100).unwrap();
    let id2 = b.submit_limit(Side::Sell, 10, 50).unwrap();
    let id3 = b.submit_limit(Side::Buy, 10, 120).unwrap();
    assert_eq!((id1, id2, id3), (1, 2, 3));
    let ev = &b.log.events;
    assert_eq!(ev.len(), 4);
    assert_eq!(ev[0].kind, EventKind::New);
    assert_eq!(ev[0].id, 1);
    assert_eq!(ev[0].rest, 100);
    assert_eq!(ev[1].kind, EventKind::New);
    assert_eq!(ev[1].id, 2);
    assert_eq!(ev[1].rest, 50);
    assert_eq!(ev[2].kind, EventKind::Fill);
    assert_eq!(ev[2].id, 3);
    assert_eq!(ev[2].fill_qty, 100);
    assert_eq!(ev[2].fill_px, 10);
    assert_eq!(ev[2].rest, 20);
    assert_eq!(ev[3].kind, EventKind::Fill);
    assert_eq!(ev[3].id, 3);
    assert_eq!(ev[3].fill_qty, 20);
    assert_eq!(ev[3].fill_px, 10);
    assert_eq!(ev[3].rest, 0);
    assert!(b.buys.levels.is_empty());
    assert_eq!(b.sells.levels.len(), 1);
    assert_eq!(b.sells.levels[0].px, 10);
    assert_eq!(b.sells.levels[0].orders.len(), 1);
    assert_eq!(b.sells.levels[0].orders[0].id, 2);
    assert_eq!(b.sells.levels[0].orders[0].rest, 30);
}

#[test]
fn scenario_lone_buy_rests() {
    let mut b = Book::new();
    let id = b.submit_limit(Side::Buy, 5, 10).unwrap();
    assert_eq!(id, 1);
    assert_eq!(b.log.events.len(), 1);
    assert_eq!(b.log.events[0].kind, EventKind::New);
    assert_eq!(b.buys.best_price(), Some(5));
    assert_eq!(b.buys.levels[0].orders[0].rest, 10);
    assert!(b.sells.levels.is_empty());
}

#[test]
fn scenario_no_cross_when_prices_do_not_meet() {
    let mut b = Book::new();
    b.submit_limit(Side::Sell, 8, 10).unwrap();
    b.submit_limit(Side::Buy, 6, 10).unwrap();
    assert_eq!(b.sells.best_price(), Some(8));
    assert_eq!(b.buys.best_price(), Some(6));
    assert_eq!(b.log.events.len(), 2);
    assert!(b.log.events.iter().all(|e| e.kind == EventKind::New));
}

#[test]
fn scenario_trade_at_resting_price() {
    let mut b = Book::new();
    let id1 = b.submit_limit(Side::Buy, 10, 5).unwrap();
    let id2 = b.submit_limit(Side::Sell, 9, 3).unwrap();
    let fill = b
        .log
        .events
        .iter()
        .find(|e| e.kind == EventKind::Fill)
        .copied()
        .unwrap();
    assert_eq!(fill.id, id2);
    assert_eq!(fill.fill_px, 10);
    assert_eq!(fill.fill_qty, 3);
    assert_eq!(fill.rest, 0);
    assert_eq!(b.buys.levels[0].orders[0].id, id1);
    assert_eq!(b.buys.levels[0].orders[0].rest, 2);
    assert!(b.sells.levels.is_empty());
}

#[test]
fn scenario_zero_qty_rejected() {
    let mut b = Book::new();
    let r = b.submit_limit(Side::Buy, 10, 0);
    assert_eq!(r, Err(SubmitError::InvalidQuantity));
    assert!(b.log.events.is_empty());
    assert!(b.buys.levels.is_empty() && b.sells.levels.is_empty());
    let id = b.submit_limit(Side::Buy, 10, 1).unwrap();
    assert_eq!(id, 1);
}

#[test]
fn zero_price_rejected() {
    let mut b = Book::new();
    let r = b.submit_limit(Side::Sell, 0, 5);
    assert_eq!(r, Err(SubmitError::InvalidPrice));
    assert!(b.log.events.is_empty());
    assert!(b.sells.levels.is_empty());
    let id = b.submit_limit(Side::Sell, 1, 5).unwrap();
    assert_eq!(id, 1);
}

#[test]
fn conservation_across_partial_fills() {
    let mut b = Book::new();
    b.submit_limit(Side::Sell, 10, 7).unwrap();
    b.submit_limit(Side::Sell, 11, 5).unwrap();
    let id3 = b.submit_limit(Side::Buy, 11, 9).unwrap();
    let filled: u64 = b
        .log
        .events
        .iter()
        .filter(|e| e.kind == EventKind::Fill && e.id == id3)
        .map(|e| e.fill_qty)
        .sum();
    assert_eq!(filled, 9);
    assert_eq!(b.sells.levels.len(), 1);
    assert_eq!(b.sells.levels[0].px, 11);
    assert_eq!(b.sells.levels[0].orders[0].rest, 3);
}

#[test]
fn price_priority_better_level_first() {
    let mut b = Book::new();
    b.submit_limit(Side::Buy, 9, 4).unwrap();
    b.submit_limit(Side::Buy, 10, 4).unwrap();
    b.submit_limit(Side::Sell, 9, 6).unwrap();
    let fills: Vec<_> = b
        .log
        .events
        .iter()
        .filter(|e| e.kind == EventKind::Fill)
        .collect();
    assert_eq!(fills.len(), 2);
    assert_eq!(fills[0].fill_px, 10);
    assert_eq!(fills[0].fill_qty, 4);
    assert_eq!(fills[1].fill_px, 9);
    assert_eq!(fills[1].fill_qty, 2);
    assert_eq!(b.buys.best_price(), Some(9));
    assert_eq!(b.buys.levels[0].orders[0].rest, 2);
}

#[test]
fn time_priority_fifo_within_level() {
    let mut b = Book::new();
    b.submit_limit(Side::Buy, 10, 5).unwrap();
    b.submit_limit(Side::Buy, 10, 5).unwrap();
    b.submit_limit(Side::Sell, 10, 6).unwrap();
    assert_eq!(b.buys.levels.len(), 1);
    assert_eq!(b.buys.levels[0].orders.len(), 1);
    assert_eq!(b.buys.levels[0].orders[0].id, 2);
    assert_eq!(b.buys.levels[0].orders[0].rest, 4);
}

#[test]
fn no_cross_after_each_submission() {
    let mut b = Book::new();
    let subs = [
        (Side::Buy, 10u64, 5u64),
        (Side::Sell, 12, 5),
        (Side::Buy, 12, 3),
        (Side::Sell, 9, 4),
        (Side::Buy, 11, 2),
    ];
    for (side, px, qty) in subs {
        b.submit_limit(side, px, qty).unwrap();
        if let (Some(bid), Some(ask)) = (b.buys.best_price(), b.sells.best_price()) {
            assert!(bid < ask);
        }
    }
}

#[test]
fn ids_strictly_increasing() {
    let mut b = Book::new();
    let mut last = 0u64;
    for i in 0..5u64 {
        let side = if i % 2 == 0 { Side::Buy } else { Side::Sell };
        let id = b.submit_limit(side, 5 + i, 1).unwrap();
        assert!(id > last);
        last = id;
    }
}

#[test]
fn log_replays_remaining_trajectory() {
    let mut b = Book::new();
    b.submit_limit(Side::Sell, 10, 3).unwrap();
    b.submit_limit(Side::Sell, 10, 4).unwrap();
    b.submit_limit(Side::Sell, 11, 5).unwrap();
    let id = b.submit_limit(Side::Buy, 11, 10).unwrap();
    let mut remaining = 10u64;
    for e in b.log.events.iter().filter(|e| e.id == id) {
        assert_eq!(e.kind, EventKind::Fill);
        remaining -= e.fill_qty;
        assert_eq!(e.rest, remaining);
    }
    assert_eq!(remaining, 0);
    assert_eq!(b.sells.levels.len(), 1);
    assert_eq!(b.sells.levels[0].px, 11);
    assert_eq!(b.sells.levels[0].orders[0].rest, 2);
}

#[test]
fn timestamps_non_decreasing() {
    let mut b = Book::new();
    b.submit_limit(Side::Buy, 5, 1).unwrap();
    b.submit_limit(Side::Sell, 5, 1).unwrap();
    b.submit_limit(Side::Buy, 6, 2).unwrap();
    for w in b.log.events.windows(2) {
        assert!(w[0].ts <= w[1].ts);
    }
}

#[test]
fn new_event_has_zero_fill_fields() {
    let mut b = Book::new();
    b.submit_limit(Side::Sell, 7, 4).unwrap();
    let e = b.log.events[0];
    assert_eq!(e.kind, EventKind::New);
    assert_eq!(e.px, 7);
    assert_eq!(e.qty, 4);
    assert_eq!(e.rest, 4);
    assert_eq!(e.fill_px, 0);
    assert_eq!(e.fill_qty, 0);
    assert_eq!(e.side, Side::Sell);
}

#[test]
fn best_price_empty_side_is_none() {
    let b = Book::new();
    assert_eq!(b.buys.best_price(), None);
    assert_eq!(b.sells.best_price(), None);
}

#[test]
fn levels_sorted_best_first() {
    let mut b = Book::new();
    b.submit_limit(Side::Buy, 5, 1).unwrap();
    b.submit_limit(Side::Buy, 9, 1).unwrap();
    b.submit_limit(Side::Buy, 7, 1).unwrap();
    let bid_pxs: Vec<u64> = b
        .buys
        .levels_in_priority_order()
        .iter()
        .map(|l| l.px)
        .collect();
    assert_eq!(bid_pxs, vec![9, 7, 5]);
    b.submit_limit(Side::Sell, 20, 1).unwrap();
    b.submit_limit(Side::Sell, 15, 1).unwrap();
    b.submit_limit(Side::Sell, 18, 1).unwrap();
    let ask_pxs: Vec<u64> = b
        .sells
        .levels_in_priority_order()
        .iter()
        .map(|l| l.px)
        .collect();
    assert_eq!(ask_pxs, vec![15, 18, 20]);
}

#[test]
fn one_fill_event_per_resting_order() {
    let mut b = Book::new();
    b.submit_limit(Side::Sell, 10, 5).unwrap();
    b.submit_limit(Side::Sell, 10, 5).unwrap();
    b.submit_limit(Side::Buy, 10, 10).unwrap();
    let n = b
        .log
        .events
        .iter()
        .filter(|e| e.kind == EventKind::Fill)
        .count();
    assert_eq!(n, 2);
    assert!(b.sells.levels.is_empty());
    assert!(b.buys.levels.is_empty());
}

#[test]
fn exact_cross_empties_both_sides() {
    let mut b = Book::new();
    b.submit_limit(Side::Sell, 10, 10).unwrap();
    b.submit_limit(Side::Buy, 10, 10).unwrap();
    assert!(b.sells.levels.is_empty());
    assert!(b.buys.levels.is_empty());
    assert_eq!(b.log.events.len(), 2);
    assert_eq!(b.log.events[1].kind, EventKind::Fill);
    assert_eq!(b.log.events[1].fill_qty, 10);
}

#[test]
fn side_helpers() {
    assert_eq!(Side::Buy.opposite(), Side::Sell);
    assert_eq!(Side::Sell.opposite(), Side::Buy);
    assert!(engine::order::marketable(Side::Buy, 10, 9));
    assert!(!engine::order::marketable(Side::Buy, 8, 9));
    assert!(engine::order::marketable(Side::Sell, 9, 10));
    assert!(!engine::order::marketable(Side::Sell, 11, 10));
}

#[test]
fn clock_reads_after_epoch() {
    let t = current_timestamp_ns();
    assert!(t > 0);
}
