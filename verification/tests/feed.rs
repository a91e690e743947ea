use orderbook::book::OrderBook;
use orderbook::decode::{
    decode_frame, decode_message, decode_text, price_levels, FeedError, RawMessage, RawRecord,
};
use orderbook::json::Json;
use orderbook::message::{MessageData, SnapshotData, UpdateData};
use orderbook::publish::ingest;
use orderbook::quantity::Quantity;
use orderbook::side::PriceLevel;

fn raw(price: &str, volume: &str) -> RawRecord {
    RawRecord { price: price.to_string(), volume: volume.to_string() }
}

fn text(s: &str) -> Json {
    Json::Text(s.to_string())
}

fn row(fields: &[&str]) -> Json {
    Json::List(fields.iter().map(|f| text(f)).collect())
}

fn read(records: &Vec<RawRecord>) -> Vec<PriceLevel> {
    let volumes: Vec<Option<Quantity>> = records
        .iter()
        .map(|r| r.volume.parse::<f32>().ok().map(|v| Quantity::from_bits(v.to_bits())))
        .collect();
    price_levels(records, &volumes).expect("every volume is a number")
}

fn message(raw: &RawMessage) -> MessageData {
    match raw {
        RawMessage::Ask(records) => MessageData::Ask { a: UpdateData::new(read(records)) },
        RawMessage::Bid(records) => MessageData::Bid { b: UpdateData::new(read(records)) },
        RawMessage::Snap { asks, bids } => MessageData::Snap(SnapshotData::new(read(asks), read(bids))),
    }
}

fn feed(book: &mut OrderBook, frame: &str) -> Result<(), FeedError> {
    let messages: Vec<MessageData> = decode_text(frame)?.iter().map(message).collect();
    ingest(book, &messages, false);
    Ok(())
}

fn prices(book: &OrderBook) -> (Vec<String>, Vec<String>) {
    (
        book.bids.levels().into_iter().map(|l| l.price).collect(),
        book.asks.levels().into_iter().map(|l| l.price).collect(),
    )
}

#[test]
fn snapshot_frame_decodes_to_one_snapshot() {
    let got = decode_text(
        r#"[336, {"as": [["5.1", "1.5", "1.0"], ["5.2", "2", "1.1"]], "bs": [["5.0", "3", "1.2"]]}, "book-10", "XBT/USD"]"#,
    );
    assert_eq!(
        got,
        Ok(vec![RawMessage::Snap {
            asks: vec![raw("5.1", "1.5"), raw("5.2", "2")],
            bids: vec![raw("5.0", "3")],
        }])
    );
}

#[test]
fn diff_frames_decode_by_their_key() {
    assert_eq!(
        decode_text(r#"[1, {"a": [["100.5", "0", "t"]]}, "book-10", "XBT/USD"]"#),
        Ok(vec![RawMessage::Ask(vec![raw("100.5", "0")])])
    );
    assert_eq!(
        decode_text(r#"[1, {"b": [["99", "1.25", "t", "r"], ["98", "2"]]}, "book-10", "XBT/USD"]"#),
        Ok(vec![RawMessage::Bid(vec![raw("99", "1.25"), raw("98", "2")])])
    );
}

#[test]
fn frame_with_two_objects_carries_two_messages_in_order() {
    assert_eq!(
        decode_text(r#"[1, {"b": [["99", "1", "t"]]}, {"a": [["101", "2", "t"]]}, "book-10", "XBT/USD"]"#),
        Ok(vec![RawMessage::Bid(vec![raw("99", "1")]), RawMessage::Ask(vec![raw("101", "2")])])
    );
}

#[test]
fn object_with_both_diff_keys_is_an_ask_diff() {
    assert_eq!(
        decode_text(r#"[1, {"b": [["99", "1", "t"]], "a": [["101", "2", "t"]]}]"#),
        Ok(vec![RawMessage::Ask(vec![raw("101", "2")])])
    );
}

#[test]
fn first_item_of_a_frame_is_never_a_message() {
    assert_eq!(decode_text(r#"[{"a": [["101", "2", "t"]]}]"#), Ok(vec![]));
    assert_eq!(decode_text(r#"[1, 2, "x", null, true, [1]]"#), Ok(vec![]));
}

#[test]
fn frames_that_end_the_session() {
    assert_eq!(decode_text("not json"), Err(FeedError::NotJson));
    assert_eq!(decode_text(r#"[1, {"a": []}] trailing"#), Err(FeedError::NotJson));
    assert_eq!(decode_text("[]"), Err(FeedError::EmptyFrame));
    assert_eq!(decode_text(r#"[1, {"x": 1}]"#), Err(FeedError::UnknownShape));
    assert_eq!(decode_text(r#"[1, {}]"#), Err(FeedError::UnknownShape));
    assert_eq!(decode_text(r#"[1, {"as": [["1", "2", "3"]]}]"#), Err(FeedError::UnknownShape));
    assert_eq!(
        decode_text(r#"[1, {"as": [["1", "2"]], "bs": [["1", "2", "3"]]}]"#),
        Err(FeedError::UnknownShape)
    );
    assert_eq!(decode_text(r#"[1, {"a": [["1", 2, "3"]]}]"#), Err(FeedError::UnknownShape));
    assert_eq!(decode_text(r#"[1, {"a": [["1"]]}]"#), Err(FeedError::ShortRecord));
    assert_eq!(
        decode_text(r#"[1, {"a": [["1", "2"]]}, {"c": 1}, {"b": [["1", "2"]]}]"#),
        Err(FeedError::UnknownShape)
    );
}

#[test]
fn malformed_ask_list_falls_through_to_the_bid_list() {
    assert_eq!(
        decode_text(r#"[1, {"a": 5, "b": [["1", "2"]]}]"#),
        Ok(vec![RawMessage::Bid(vec![raw("1", "2")])])
    );
}

#[test]
fn notices_carry_nothing() {
    assert_eq!(decode_text(r#"{"event": "heartbeat"}"#), Ok(vec![]));
    assert_eq!(decode_text("12"), Ok(vec![]));
    assert_eq!(decode_text("null"), Ok(vec![]));
    assert_eq!(decode_text(r#""text""#), Ok(vec![]));
}

#[test]
fn error_message_is_reported_and_the_book_stays() {
    let mut book = OrderBook::new(10);
    feed(&mut book, r#"[1, {"as": [["2", "1", "t"]], "bs": [["1", "1", "t"]]}, "book-10", "XBT/USD"]"#)
        .expect("a snapshot");
    let before = prices(&book);
    let got = feed(
        &mut book,
        r#"{"errorMessage": "Currency pair not supported", "event": "subscriptionStatus", "status": "error"}"#,
    );
    assert_eq!(got, Err(FeedError::Reported(Some("Currency pair not supported".to_string()))));
    assert_eq!(prices(&book), before);
    assert_eq!(decode_text(r#"{"errorMessage": 5}"#), Err(FeedError::Reported(None)));
}

#[test]
fn ask_diff_with_zero_volume_removes_the_level_end_to_end() {
    let mut book = OrderBook::new(10);
    feed(
        &mut book,
        r#"[1, {"as": [["100.5", "1", "t"], ["100.7", "2", "t"]], "bs": [["99", "1", "t"]]}, "book-10", "XBT/USD"]"#,
    )
    .expect("a snapshot");
    assert_eq!(book.asks.len(), 2);
    feed(&mut book, r#"[1, {"a": [["100.5", "0", "t"]]}, "book-10", "XBT/USD"]"#).expect("a diff");
    assert_eq!(book.asks.len(), 1);
    assert_eq!(prices(&book).1, vec!["100.7"]);
    feed(&mut book, r#"[1, {"a": [["100.7", "0.00000000", "t"]]}, "book-10", "XBT/USD"]"#)
        .expect("a diff");
    assert_eq!(book.asks.len(), 0);
}

#[test]
fn decode_frame_reads_a_tree() {
    let tree = Json::List(vec![
        Json::Number,
        Json::Object(vec![("a".to_string(), Json::List(vec![row(&["1", "2", "t"])]))]),
        Json::Bool(true),
        Json::Object(vec![
            ("as".to_string(), Json::List(vec![row(&["3", "4", "t"])])),
            ("bs".to_string(), Json::List(vec![])),
        ]),
    ]);
    assert_eq!(
        decode_frame(&tree),
        Ok(vec![
            RawMessage::Ask(vec![raw("1", "2")]),
            RawMessage::Snap { asks: vec![raw("3", "4")], bids: vec![] },
        ])
    );
    assert_eq!(decode_frame(&Json::List(vec![])), Err(FeedError::EmptyFrame));
    assert_eq!(decode_frame(&Json::Null), Ok(vec![]));
    assert_eq!(
        decode_frame(&Json::Object(vec![("errorMessage".to_string(), text("no"))])),
        Err(FeedError::Reported(Some("no".to_string())))
    );
}

#[test]
fn decode_message_reads_members() {
    assert_eq!(
        decode_message(&vec![("b".to_string(), Json::List(vec![row(&["1", "2"]), row(&["3", "4", "5", "6"])]))]),
        Ok(RawMessage::Bid(vec![raw("1", "2"), raw("3", "4")]))
    );
    assert_eq!(
        decode_message(&vec![("b".to_string(), Json::List(vec![row(&["1", "2"]), row(&[])]))]),
        Err(FeedError::ShortRecord)
    );
    assert_eq!(decode_message(&vec![("b".to_string(), Json::Null)]), Err(FeedError::UnknownShape));
    assert_eq!(
        decode_message(&vec![
            ("as".to_string(), Json::List(vec![row(&["1", "2", "3", "4"])])),
            ("bs".to_string(), Json::List(vec![])),
        ]),
        Err(FeedError::UnknownShape)
    );
}

#[test]
fn price_levels_joins_or_fails() {
    let records = vec![raw("1", "1.5"), raw("2", "x")];
    let good = vec![Some(Quantity::from_bits(1)), Some(Quantity::from_bits(2))];
    let levels = price_levels(&records, &good).expect("both are numbers");
    assert_eq!(levels.len(), 2);
    assert_eq!(levels[0].price, "1");
    assert_eq!(levels[1].quantity.to_bits(), 2);
    let bad = vec![Some(Quantity::from_bits(1)), None];
    assert_eq!(price_levels(&records, &bad).err(), Some(FeedError::BadVolume));
    assert_eq!(price_levels(&Vec::new(), &Vec::new()).map(|l| l.len()), Ok(0));
}

#[test]
fn object_of_a_list_frame_with_a_diff_and_an_error_message_is_a_failure() {
    let mut book = OrderBook::new(10);
    feed(&mut book, r#"[1, {"as": [["2", "1", "t"]], "bs": [["1", "1", "t"]]}, "book-10", "XBT/USD"]"#)
        .expect("a snapshot");
    let before = prices(&book);
    let got = feed(
        &mut book,
        r#"[1, {"a": [["3", "1", "t"]], "errorMessage": "halted"}, "book-10", "XBT/USD"]"#,
    );
    assert_eq!(got, Err(FeedError::Reported(Some("halted".to_string()))));
    assert_eq!(prices(&book), before);
    assert_eq!(
        decode_text(r#"[1, {"b": [["3", "1", "t"]], "errorMessage": 7}]"#),
        Err(FeedError::Reported(None))
    );
    assert_eq!(
        decode_text(r#"[1, {"as": [["2", "1", "t"]], "bs": [], "errorMessage": "no"}]"#),
        Err(FeedError::Reported(Some("no".to_string())))
    );
    assert_eq!(
        decode_text(r#"[1, {"errorMessage": "alone"}]"#),
        Err(FeedError::Reported(Some("alone".to_string())))
    );
}

#[test]
fn failure_after_a_diff_in_one_frame_applies_nothing_of_the_frame() {
    let mut book = OrderBook::new(10);
    let got = feed(
        &mut book,
        r#"[1, {"a": [["3", "1", "t"]]}, {"b": [["2", "1", "t"]], "errorMessage": "late"}]"#,
    );
    assert_eq!(got, Err(FeedError::Reported(Some("late".to_string()))));
    assert_eq!(book.asks.len(), 0);
    assert_eq!(book.bids.len(), 0);
}

#[test]
fn decode_message_puts_the_failure_before_the_lists() {
    let members = vec![
        ("a".to_string(), Json::List(vec![row(&["1", "2", "t"])])),
        ("errorMessage".to_string(), text("stop")),
    ];
    assert_eq!(decode_message(&members), Err(FeedError::Reported(Some("stop".to_string()))));
    let quiet = vec![("a".to_string(), Json::List(vec![row(&["1", "2", "t"])]))];
    assert_eq!(decode_message(&quiet), Ok(RawMessage::Ask(vec![raw("1", "2")])));
    let frame = Json::List(vec![Json::Number, Json::Object(members)]);
    assert_eq!(decode_frame(&frame), Err(FeedError::Reported(Some("stop".to_string()))));
}
