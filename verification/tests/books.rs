use lob_core::books::array_orderbook::ArrayOrderbook;
use lob_core::books::btree_orderbook::BTreeOrderBook;
use lob_core::decimals::fixed_decimal::FixedDecimal;
use lob_core::event::Event;
use lob_core::event_kind::EventKind;
use lob_core::level::Level;
use lob_core::side::Side;

fn dec(s: &str) -> FixedDecimal {
    FixedDecimal::from_str(s).unwrap()
}

fn ev(kind: EventKind, side: Side, price: &str, size: &str, ts: i64) -> Event {
    Event::new(kind, side, dec(price), dec(size), ts)
}

#[test]
fn bbo_establish_and_cross_prevention() {
    let mut lob = ArrayOrderbook::<3>::new();
    lob.process(ev(EventKind::BBO, Side::Sell, "100.1", "1", 10001));
    lob.process(ev(EventKind::BBO, Side::Buy, "100.0", "1", 10001));

    assert_eq!(lob.best_bid(), Some(Level::new(dec("100.0"), dec("1"))));
    assert_eq!(lob.best_ask(), Some(Level::new(dec("100.1"), dec("1"))));
    assert_eq!(lob.calculate_metrics(3).spread.to_string(), "0.1");
}

#[test]
fn trade_partial_then_full() {
    let mut lob = ArrayOrderbook::<3>::new();
    lob.process(ev(EventKind::BBO, Side::Sell, "100.1", "1", 10001));
    lob.process(ev(EventKind::BBO, Side::Buy, "100.0", "1", 10001));

    lob.process(ev(EventKind::Trade, Side::Buy, "100.0", "0.4", 10002));
    assert_eq!(lob.best_bid(), Some(Level::new(dec("100.0"), dec("0.6"))));

    lob.process(ev(EventKind::Trade, Side::Buy, "100.0", "1.0", 10002));
    assert_eq!(lob.best_bid(), None);
}

#[test]
fn l2_depth_with_zero_size_removal() {
    let mut lob = ArrayOrderbook::<5>::new();
    lob.process(ev(EventKind::L2, Side::Buy, "100", "2", 1));
    lob.process(ev(EventKind::L2, Side::Buy, "99", "1", 1));
    lob.process(ev(EventKind::L2, Side::Sell, "101", "1", 1));
    lob.process(ev(EventKind::L2, Side::Buy, "100", "0", 2));

    assert_eq!(lob.bids.len, 1);
    assert_eq!(lob.bids.get(0), Level::new(dec("99"), dec("1")));
    assert_eq!(lob.best_bid(), Some(Level::new(dec("99"), dec("1"))));
    assert_eq!(lob.best_ask(), Some(Level::new(dec("101"), dec("1"))));
}

#[test]
fn sequence_reordering() {
    let mut lob = ArrayOrderbook::<5>::new();
    lob.process(ev(EventKind::L2, Side::Buy, "100", "1", 0).with_sequence_id(1));
    assert_eq!(lob.sequence_id, 1);
    lob.process(ev(EventKind::L2, Side::Buy, "100", "2", 1).with_sequence_id(2));
    assert_eq!(lob.best_bid(), Some(Level::new(dec("100"), dec("2"))));
    // Behind the watermark: dropped regardless of its timestamp.
    lob.process(ev(EventKind::L2, Side::Buy, "100", "0.5", 2).with_sequence_id(1));
    assert_eq!(lob.best_bid(), Some(Level::new(dec("100"), dec("2"))));
    assert_eq!(lob.sequence_id, 2);
}

#[test]
fn bbo_sweep() {
    let mut lob = ArrayOrderbook::<5>::new();
    lob.process(ev(EventKind::L2, Side::Buy, "100", "1", 1));
    lob.process(ev(EventKind::L2, Side::Buy, "101", "1", 1));
    lob.process(ev(EventKind::L2, Side::Buy, "102", "1", 1));
    lob.process(ev(EventKind::BBO, Side::Buy, "100.5", "3", 2));

    assert_eq!(lob.bids.len, 2);
    assert_eq!(lob.bids.get(0), Level::new(dec("100.5"), dec("3")));
    assert_eq!(lob.bids.get(1), Level::new(dec("100"), dec("1")));
}

#[test]
fn test_orderbook_metrics() {
    let mut lob = ArrayOrderbook::<5>::new();
    let events = vec![
        ev(EventKind::L2, Side::Buy, "100.0", "1.0", 1),
        ev(EventKind::L2, Side::Buy, "99.0", "2.0", 1),
        ev(EventKind::L2, Side::Sell, "101.0", "1.5", 1),
        ev(EventKind::L2, Side::Sell, "102.0", "1.0", 1),
        ev(EventKind::L2, Side::Buy, "95.0", "1.0", 1),
        ev(EventKind::L2, Side::Buy, "98.0", "2.0", 1),
        ev(EventKind::L2, Side::Sell, "102.21", "1.5", 1),
        ev(EventKind::L2, Side::Sell, "104.1", "1.0", 1),
    ];
    for event in events {
        lob.process(event);
    }
    let metrics = lob.calculate_metrics(5);
    assert_eq!(metrics.mid_price.to_string(), "100.5");
    assert_eq!(metrics.spread.to_string(), "1");
    assert_eq!(metrics.spread_percentage.to_string(), "0.99502487562");
    assert_eq!(metrics.quote_imbalance.to_string(), "0.0709918493701");
    assert_eq!(metrics.price_impact_buy.to_string(), "3.58208955223");
    assert_eq!(metrics.price_impact_sell.to_string(), "5.47263681592");
}

#[test]
fn test_quote_imbalance() {
    let mut lob = ArrayOrderbook::<5>::new();
    lob.process(ev(EventKind::L2, Side::Buy, "100", "1", 1));
    lob.process(ev(EventKind::L2, Side::Sell, "101", "1", 2));
    let metrics = lob.calculate_metrics(5);
    // Slightly negative: equal sizes, the ask side carries more notional.
    assert!(metrics.quote_imbalance.is_negative());

    lob.process(ev(EventKind::L2, Side::Buy, "99", "2", 3));
    let metrics = lob.calculate_metrics(5);
    assert!(!metrics.quote_imbalance.is_negative());
    assert!(!metrics.quote_imbalance.is_zero());
}

#[test]
fn test_level_removal() {
    let mut lob = ArrayOrderbook::<5>::new();
    lob.process(ev(EventKind::L2, Side::Buy, "100", "1", 1));
    lob.process(ev(EventKind::L2, Side::Buy, "99", "2", 2));
    lob.process(ev(EventKind::L2, Side::Buy, "100", "0", 2));
    assert_eq!(lob.bids.len, 1);
    assert_eq!(lob.bids.get(0).price, dec("99"));
}

#[test]
fn test_sequence_order() {
    let mut ob = ArrayOrderbook::<5>::new();
    let event1 = ev(EventKind::L2, Side::Buy, "100.0", "1.0", 0).with_sequence_id(1);
    ob.process(event1);
    assert_eq!(ob.sequence_id, 1);
    let event2 = ev(EventKind::L2, Side::Buy, "100.0", "2.0", 1).with_sequence_id(2);
    ob.process(event2);
    assert_eq!(ob.sequence_id, 2);
    assert_eq!(ob.best_bid().unwrap().size, dec("2.0"));
    let old_event = ev(EventKind::L2, Side::Buy, "100.0", "0.5", 2).with_sequence_id(1);
    ob.process(old_event);
    assert_eq!(ob.sequence_id, 2);
    assert_eq!(ob.best_bid().unwrap().size, dec("2.0"));
}

#[test]
fn test_zero_sequence() {
    let mut ob = ArrayOrderbook::<5>::new();
    let event1 = ev(EventKind::L2, Side::Buy, "100.0", "1.0", 0).with_sequence_id(5);
    ob.process(event1);
    assert_eq!(ob.sequence_id, 5);
    let event2 = ev(EventKind::L2, Side::Buy, "100.0", "2.0", 1).with_sequence_id(0);
    ob.process(event2);
    assert_eq!(ob.sequence_id, 5); // the watermark does not move
    assert_eq!(ob.best_bid().unwrap().size, dec("2.0")); // but the state does
}

#[test]
fn test_sequence_reset() {
    let mut ob = ArrayOrderbook::<5>::new();
    let event1 = ev(EventKind::L2, Side::Buy, "100.0", "1.0", 0).with_sequence_id(1);
    ob.process(event1);
    let event2 = ev(EventKind::L2, Side::Buy, "100.0", "2.0", 1).with_sequence_id(1000);
    ob.process(event2);
    assert_eq!(ob.sequence_id, 1000);
    assert_eq!(ob.best_bid().unwrap().size, dec("2.0"));
    let event3 = ev(EventKind::L2, Side::Buy, "100.0", "3.0", 2).with_sequence_id(1001);
    ob.process(event3);
    assert_eq!(ob.sequence_id, 1001);
    assert_eq!(ob.best_bid().unwrap().size, dec("3.0"));
}

#[test]
fn test_mixed_event_types() {
    let mut ob = ArrayOrderbook::<5>::new();
    let l2_event = ev(EventKind::L2, Side::Buy, "100.0", "2.0", 0).with_sequence_id(1);
    ob.process(l2_event);
    let trade = ev(EventKind::Trade, Side::Buy, "100.0", "1.0", 1).with_sequence_id(2);
    ob.process(trade);
    assert_eq!(ob.best_bid().unwrap().size, dec("1.0"));
    let bbo = ev(EventKind::BBO, Side::Buy, "101.0", "1.5", 2).with_sequence_id(3);
    ob.process(bbo);
    assert_eq!(ob.best_bid().unwrap().price, dec("101.0"));
    assert_eq!(ob.best_bid().unwrap().size, dec("1.5"));
    let old_l2 = ev(EventKind::L2, Side::Buy, "99.0", "1.0", 0).with_sequence_id(2);
    let old_trade = ev(EventKind::Trade, Side::Buy, "101.0", "0.5", 0).with_sequence_id(2);
    let old_bbo = ev(EventKind::BBO, Side::Buy, "102.0", "2.0", 0).with_sequence_id(1);
    ob.process(old_l2);
    ob.process(old_trade);
    ob.process(old_bbo);
    assert_eq!(ob.sequence_id, 3);
    assert_eq!(ob.best_bid().unwrap().price, dec("101.0"));
    assert_eq!(ob.best_bid().unwrap().size, dec("1.5"));
}

#[test]
fn timestamp_gate() {
    let mut ob = ArrayOrderbook::<5>::new();
    ob.process(ev(EventKind::L2, Side::Buy, "100", "1", 10));
    // Older than the watermark: dropped.
    ob.process(ev(EventKind::L2, Side::Buy, "100", "2", 9));
    assert_eq!(ob.best_bid().unwrap().size, dec("1"));
    assert_eq!(ob.ts, 10);
}

#[test]
fn trade_at_empty_price_is_noop() {
    let mut ob = ArrayOrderbook::<5>::new();
    ob.process(ev(EventKind::L2, Side::Buy, "100", "1", 1));
    ob.process(ev(EventKind::Trade, Side::Buy, "99", "1", 2));
    assert_eq!(ob.bids.len, 1);
    assert_eq!(ob.best_bid(), Some(Level::new(dec("100"), dec("1"))));
}

#[test]
fn l2_insert_remove_round_trip() {
    let mut ob = ArrayOrderbook::<5>::new();
    ob.process(ev(EventKind::L2, Side::Buy, "100", "1", 1));
    ob.process(ev(EventKind::L2, Side::Buy, "99", "2", 1));
    ob.process(ev(EventKind::L2, Side::Buy, "99.5", "3", 2));
    ob.process(ev(EventKind::L2, Side::Buy, "99.5", "0", 3));
    assert_eq!(ob.bids.len, 2);
    assert_eq!(ob.bids.get(0), Level::new(dec("100"), dec("1")));
    assert_eq!(ob.bids.get(1), Level::new(dec("99"), dec("2")));
}

#[test]
fn has_moved_flag() {
    let mut ob = ArrayOrderbook::<5>::new();
    ob.process(ev(EventKind::L2, Side::Buy, "100", "1", 1));
    assert!(!ob.has_moved);
    // Removing the cached best raises the flag.
    ob.process(ev(EventKind::L2, Side::Buy, "100", "0", 2));
    assert!(ob.has_moved);
    let _ = ob.best_bid();
    assert!(!ob.has_moved);
}

#[test]
fn full_buffer_keeps_best_levels() {
    let mut ob = ArrayOrderbook::<2>::new();
    ob.process(ev(EventKind::L2, Side::Buy, "100", "1", 1));
    ob.process(ev(EventKind::L2, Side::Buy, "99", "1", 1));
    // Better than both resting levels: the worst falls off.
    ob.process(ev(EventKind::L2, Side::Buy, "101", "1", 2));
    assert_eq!(ob.bids.len, 2);
    assert_eq!(ob.bids.get(0).price, dec("101"));
    assert_eq!(ob.bids.get(1).price, dec("100"));
    // Worse than both: ignored.
    ob.process(ev(EventKind::L2, Side::Buy, "98", "1", 3));
    assert_eq!(ob.bids.len, 2);
    assert_eq!(ob.bids.get(1).price, dec("100"));
}

#[test]
fn books_agree_on_identical_stream() {
    let mut a = ArrayOrderbook::<5>::new();
    let mut m = BTreeOrderBook::new();
    let stream = vec![
        ev(EventKind::L2, Side::Buy, "100", "2", 1),
        ev(EventKind::L2, Side::Buy, "99", "1", 1),
        ev(EventKind::L2, Side::Sell, "101", "1", 1),
        ev(EventKind::Trade, Side::Buy, "100", "0.5", 2),
        ev(EventKind::BBO, Side::Buy, "99.5", "4", 3).with_sequence_id(7),
        ev(EventKind::L2, Side::Sell, "101", "0", 4).with_sequence_id(6),
        ev(EventKind::BBO, Side::Sell, "100.5", "2", 4).with_sequence_id(8),
    ];
    for e in stream {
        a.process(e);
        m.process(e);
    }
    assert_eq!(a.best_bid(), m.best_bid());
    assert_eq!(a.best_ask(), m.best_ask());
    assert_eq!(a.ts, m.ts);
    assert_eq!(a.sequence_id, m.sequence_id);
    assert_eq!(a.bids.len, m.bids.len());
    for i in 0..m.bids.len() {
        assert_eq!(a.bids.get(i), m.bids[i]);
    }
    assert_eq!(a.asks.len, m.asks.len());
    for i in 0..m.asks.len() {
        assert_eq!(a.asks.get(i), m.asks[i]);
    }
}

#[test]
fn map_book_matches_scenarios() {
    let mut lob = BTreeOrderBook::new();
    lob.process(ev(EventKind::BBO, Side::Sell, "100.1", "1", 10001));
    lob.process(ev(EventKind::BBO, Side::Buy, "100.0", "1", 10001));
    assert_eq!(lob.best_bid(), Some(Level::new(dec("100.0"), dec("1"))));
    assert_eq!(lob.best_ask(), Some(Level::new(dec("100.1"), dec("1"))));

    lob.process(ev(EventKind::Trade, Side::Buy, "100.0", "0.4", 10002));
    assert_eq!(lob.best_bid(), Some(Level::new(dec("100.0"), dec("0.6"))));
    lob.process(ev(EventKind::Trade, Side::Buy, "100.0", "1.0", 10002));
    assert_eq!(lob.best_bid(), None);

    let metrics = lob.calculate_metrics(5);
    assert!(metrics.mid_price.is_zero());
    assert!(metrics.spread.is_zero());
}

#[test]
fn event_accessors() {
    let e = ev(EventKind::L2, Side::Buy, "100", "2", 7);
    assert_eq!(e.sequence_id, 0);
    let e2 = e.with_sequence_id(9);
    assert_eq!(e2.sequence_id, 9);
    assert_eq!(e2.price, dec("100"));
    let level = e.to_level();
    assert_eq!(level, Level::new(dec("100"), dec("2")));
    assert!(level.is_valid());
    assert!(!Level::new(dec("-1"), dec("2")).is_valid());
    assert_eq!(Side::Buy.opposite(), Side::Sell);
    assert_eq!(Side::Sell.opposite(), Side::Buy);
    assert!(Side::Buy.is_buy());
    assert!(!Side::Sell.is_buy());
}
