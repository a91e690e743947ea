use orderbook::book::OrderBook;
use orderbook::message::{MessageData, SnapshotData, UpdateData};
use orderbook::price::{rank, Rank};
use orderbook::quantity::Quantity;
use orderbook::side::{BookSide, PriceLevel};

fn qty(v: f32) -> Quantity {
    Quantity::from_bits(v.to_bits())
}

fn level(price: &str, v: f32) -> PriceLevel {
    PriceLevel::new(price.to_string(), qty(v))
}

fn diff(records: &[(&str, f32)]) -> UpdateData {
    UpdateData::new(records.iter().map(|(p, v)| level(p, *v)).collect())
}

fn prices(side: &BookSide) -> Vec<String> {
    side.levels().into_iter().map(|l| l.price).collect()
}

fn volumes(side: &BookSide) -> Vec<f32> {
    side.levels().into_iter().map(|l| f32::from_bits(l.quantity.to_bits())).collect()
}

fn ten(prefix: &str) -> Vec<PriceLevel> {
    (0..10).map(|i| level(&format!("{}{}", prefix, i), 1.0 + i as f32)).collect()
}

fn full_book() -> OrderBook {
    let mut book = OrderBook::new(10);
    book.initalize(&SnapshotData::new(ten("200."), ten("100.")));
    book
}

#[test]
fn new_book_is_empty() {
    let book = OrderBook::new(10);
    assert_eq!(book.max_depth(), 10);
    assert_eq!(book.bids.len(), 0);
    assert_eq!(book.asks.len(), 0);
    assert!(book.bids.is_empty());
}

#[test]
fn snapshot_of_ten_levels_fills_both_sides() {
    let book = full_book();
    assert_eq!(book.bids.len(), 10);
    assert_eq!(book.asks.len(), 10);
    assert_eq!(prices(&book.bids)[0], "100.0");
    assert_eq!(prices(&book.asks)[9], "200.9");
    assert_eq!(volumes(&book.asks)[3], 4.0);
}

#[test]
fn zero_quantity_removes_a_present_ask() {
    let mut book = OrderBook::new(10);
    book.initalize(&SnapshotData::new(
        vec![level("100.5", 2.0), level("100.6", 3.0)],
        vec![level("99.5", 1.0)],
    ));
    book.update_asks(&diff(&[("100.5", 0.0)]));
    assert_eq!(book.asks.len(), 1);
    assert_eq!(prices(&book.asks), vec!["100.6".to_string()]);
    assert_eq!(book.bids.len(), 1);
    assert!(book.asks.quantity_at("100.5").is_none());
}

#[test]
fn negative_zero_removes_too() {
    let mut book = OrderBook::new(10);
    book.update_bids(&diff(&[("5", 1.0), ("6", 2.0)]));
    book.update_bids(&diff(&[("5", -0.0)]));
    assert_eq!(prices(&book.bids), vec!["6".to_string()]);
}

#[test]
fn eleventh_bid_evicts_the_smallest_key() {
    let mut book = full_book();
    book.update_bids(&diff(&[("100.95", 7.0)]));
    assert_eq!(book.bids.len(), 10);
    let left = prices(&book.bids);
    assert!(!left.contains(&"100.0".to_string()));
    assert_eq!(left[0], "100.1");
    assert_eq!(left[9], "100.95");
    assert_eq!(book.asks.len(), 10);
}

#[test]
fn eleventh_ask_evicts_the_largest_key() {
    let mut book = full_book();
    book.update_asks(&diff(&[("200.05", 7.0)]));
    assert_eq!(book.asks.len(), 10);
    let left = prices(&book.asks);
    assert!(!left.contains(&"200.9".to_string()));
    assert_eq!(left[0], "200.0");
    assert_eq!(left[1], "200.05");
    assert_eq!(left[9], "200.8");
}

#[test]
fn new_highest_ask_on_a_full_side_is_itself_evicted() {
    let mut book = full_book();
    let before = prices(&book.asks);
    book.update_asks(&diff(&[("300", 7.0)]));
    assert_eq!(prices(&book.asks), before);
}

#[test]
fn removing_an_absent_price_changes_nothing() {
    let mut book = full_book();
    let (bids, asks) = (prices(&book.bids), prices(&book.asks));
    let (bid_volumes, ask_volumes) = (volumes(&book.bids), volumes(&book.asks));
    book.update_asks(&diff(&[("150", 0.0)]));
    book.update_bids(&diff(&[("150", 0.0)]));
    assert_eq!(prices(&book.bids), bids);
    assert_eq!(prices(&book.asks), asks);
    assert_eq!(volumes(&book.bids), bid_volumes);
    assert_eq!(volumes(&book.asks), ask_volumes);
}

#[test]
fn overwrite_changes_one_quantity_only() {
    let mut book = full_book();
    let before = volumes(&book.bids);
    book.update_bids(&diff(&[("100.4", 42.5)]));
    let after = volumes(&book.bids);
    assert_eq!(book.bids.len(), 10);
    for i in 0..10 {
        if i == 4 {
            assert_eq!(after[i], 42.5);
        } else {
            assert_eq!(after[i], before[i]);
        }
    }
    assert_eq!(book.bids.quantity_at("100.4"), Some(qty(42.5)));
}

#[test]
fn sides_stay_within_depth_after_every_diff() {
    let mut book = OrderBook::new(3);
    for i in 0..20 {
        book.update_asks(&diff(&[(&format!("{}", 50 - i), 1.0), (&format!("{}", 60 + i), 2.0)]));
        book.update_bids(&diff(&[(&format!("{}", 10 + i), 1.0)]));
        assert!(book.asks.len() <= 3);
        assert!(book.bids.len() <= 3);
    }
    assert_eq!(book.asks.len(), 3);
    assert_eq!(prices(&book.bids), vec!["27", "28", "29"]);
}

#[test]
fn snapshot_twice_is_snapshot_once() {
    let mut once = OrderBook::new(10);
    let snapshot = SnapshotData::new(
        vec![level("3", 1.0), level("1", 2.0), level("3", 4.0)],
        vec![level("0.5", 9.0), level("0.25", 8.0)],
    );
    once.initalize(&snapshot);
    let mut twice = OrderBook::new(10);
    twice.initalize(&snapshot);
    twice.initalize(&snapshot);
    assert_eq!(prices(&once.asks), prices(&twice.asks));
    assert_eq!(volumes(&once.asks), volumes(&twice.asks));
    assert_eq!(prices(&once.bids), prices(&twice.bids));
    assert_eq!(volumes(&once.bids), volumes(&twice.bids));
    assert_eq!(prices(&once.asks), vec!["1", "3"]);
    assert_eq!(volumes(&once.asks), vec![2.0, 4.0]);
}

#[test]
fn snapshot_is_not_held_to_the_depth_and_the_next_insert_trims() {
    let mut book = OrderBook::new(2);
    book.initalize(&SnapshotData::new(
        vec![level("1", 1.0), level("2", 1.0), level("3", 1.0), level("4", 1.0)],
        vec![level("1", 1.0), level("2", 1.0), level("3", 1.0), level("4", 1.0)],
    ));
    assert_eq!(book.asks.len(), 4);
    assert_eq!(book.bids.len(), 4);
    book.update_asks(&diff(&[("9", 0.0)]));
    assert_eq!(book.asks.len(), 4);
    book.update_asks(&diff(&[("0", 1.0)]));
    assert_eq!(prices(&book.asks), vec!["0", "1"]);
    book.update_bids(&diff(&[("5", 1.0)]));
    assert_eq!(prices(&book.bids), vec!["4", "5"]);
}

#[test]
fn snapshot_keeps_a_zero_quantity() {
    let mut book = OrderBook::new(10);
    book.initalize(&SnapshotData::new(vec![level("7", 0.0)], vec![]));
    assert_eq!(book.asks.len(), 1);
    assert_eq!(book.asks.quantity_at("7"), Some(qty(0.0)));
}

#[test]
fn depth_zero_keeps_nothing() {
    let mut book = OrderBook::new(0);
    book.update_asks(&diff(&[("1", 1.0)]));
    book.update_bids(&diff(&[("1", 1.0)]));
    assert_eq!(book.asks.len(), 0);
    assert_eq!(book.bids.len(), 0);
}

#[test]
fn prices_are_ordered_as_text() {
    assert_eq!(rank("10.2", "9.5"), Rank::Before);
    assert_eq!(rank("9.5", "10.2"), Rank::After);
    assert_eq!(rank("9.5", "9.5"), Rank::Same);
    assert_eq!(rank("9", "9.5"), Rank::Before);
    assert_eq!(rank("", "0"), Rank::Before);
    assert_eq!(rank("b", "a"), Rank::After);
    let mut book = OrderBook::new(10);
    book.update_asks(&diff(&[("9.5", 1.0), ("10.2", 2.0), ("100", 3.0)]));
    assert_eq!(prices(&book.asks), vec!["10.2", "100", "9.5"]);
}

#[test]
fn text_order_agrees_with_the_order_of_strings() {
    let samples = ["", "1", "10", "10.2", "9.5", "é", "z", "日本", "a\u{10000}", "a\u{ffff}"];
    for a in samples.iter() {
        for b in samples.iter() {
            let expected = match a.cmp(b) {
                std::cmp::Ordering::Less => Rank::Before,
                std::cmp::Ordering::Equal => Rank::Same,
                std::cmp::Ordering::Greater => Rank::After,
            };
            assert_eq!(rank(a, b), expected);
        }
    }
}

#[test]
fn side_set_remove_and_trim() {
    let mut side = BookSide::new();
    side.set("b".to_string(), qty(1.0));
    side.set("a".to_string(), qty(2.0));
    side.set("c".to_string(), qty(3.0));
    side.set("b".to_string(), qty(4.0));
    assert_eq!(prices(&side), vec!["a", "b", "c"]);
    assert_eq!(volumes(&side), vec![2.0, 4.0, 3.0]);
    assert_eq!(side.position("bb"), 2);
    assert_eq!(side.position("a"), 0);
    assert_eq!(side.level(1).price, "b");
    assert!(side.remove("a"));
    assert!(!side.remove("a"));
    side.set("d".to_string(), qty(5.0));
    let mut low = BookSide::new();
    let mut high = BookSide::new();
    for l in side.levels() {
        low.set(l.price.clone(), l.quantity);
        high.set(l.price, l.quantity);
    }
    low.keep_lowest(2);
    high.keep_highest(2);
    assert_eq!(prices(&low), vec!["b", "c"]);
    assert_eq!(prices(&high), vec!["c", "d"]);
    low.keep_lowest(5);
    assert_eq!(low.len(), 2);
}

#[test]
fn quantity_zero_test_reads_both_zeros() {
    assert!(qty(0.0).is_zero());
    assert!(qty(-0.0).is_zero());
    assert!(!qty(1.0e-30).is_zero());
    assert!(!qty(f32::NAN).is_zero());
    assert!(Quantity::zero().is_zero());
    assert_eq!(Quantity::from_bits(7).to_bits(), 7);
}

#[test]
fn apply_dispatches_by_message() {
    let mut book = OrderBook::new(10);
    book.apply(&MessageData::Snap(SnapshotData::new(vec![level("2", 1.0)], vec![level("1", 1.0)])));
    book.apply(&MessageData::Ask { a: diff(&[("3", 1.0)]) });
    book.apply(&MessageData::Bid { b: diff(&[("1", 0.0)]) });
    assert_eq!(prices(&book.asks), vec!["2", "3"]);
    assert_eq!(book.bids.len(), 0);
}

#[test]
fn clone_copies_both_sides() {
    let book = full_book();
    let mut copy = book.clone();
    assert_eq!(prices(&copy.bids), prices(&book.bids));
    assert_eq!(volumes(&copy.asks), volumes(&book.asks));
    assert_eq!(copy.max_depth(), 10);
    copy.update_asks(&diff(&[("200.0", 0.0)]));
    assert_eq!(copy.asks.len(), 9);
    assert_eq!(book.asks.len(), 10);
}

#[test]
fn snapshot_adds_at_most_one_level_for_each_record() {
    let mut book = OrderBook::new(10);
    book.initalize(&SnapshotData::new(
        vec![level("1", 1.0), level("1", 2.0), level("2", 3.0)],
        vec![level("1", 1.0)],
    ));
    assert_eq!(book.asks.len(), 2);
    assert_eq!(book.bids.len(), 1);
    assert_eq!(volumes(&book.asks), vec![2.0, 3.0]);
}

#[test]
fn snapshot_on_an_empty_book_leaves_one_level_for_each_distinct_price() {
    let mut book = OrderBook::new(10);
    let asks: Vec<PriceLevel> = (0..12).map(|i| level(&format!("a{:02}", i), 1.0)).collect();
    let mut bids: Vec<PriceLevel> = (0..7).map(|i| level(&format!("b{}", i), 1.0)).collect();
    bids.push(level("b3", 9.0));
    bids.push(level("b0", 8.0));
    book.initalize(&SnapshotData::new(asks, bids));
    assert_eq!(book.asks.len(), 12);
    assert_eq!(book.bids.len(), 7);
    assert_eq!(book.bids.quantity_at("b3"), Some(qty(9.0)));
    assert_eq!(book.bids.quantity_at("b0"), Some(qty(8.0)));
}
