//! The decoder of the feed: from a JSON tree to the messages it carries.
//!
//! A frame of the feed is a list whose first item names the channel; each
//! object after it is one message. An object that stands alone is a notice.
//! An object with an `errorMessage` member reports a failure, wherever it
//! stands and whatever else it carries.

use vstd::prelude::*;
use crate::json::{Json, json_of, parse};
use crate::price::{rank, Rank};
use crate::quantity::Quantity;
use crate::side::{PriceLevel, ladder_of};

verus! {

/// A record as the feed spells it: the price and the volume, both as text.
#[derive(Debug, PartialEq, Eq)]
pub struct RawRecord {
    pub price: String,
    pub volume: String,
}

impl View for RawRecord {
    type V = (Seq<char>, Seq<char>);

    open spec fn view(&self) -> (Seq<char>, Seq<char>) {
        (self.price@, self.volume@)
    }
}

/// One message of the feed, its volumes still text.
#[derive(Debug, PartialEq, Eq)]
pub enum RawMessage {
    /// A diff of the ask side.
    Ask(Vec<RawRecord>),
    /// A diff of the bid side.
    Bid(Vec<RawRecord>),
    /// The full snapshot.
    Snap { asks: Vec<RawRecord>, bids: Vec<RawRecord> },
}

/// A run of `(price, volume)` pairs of text.
pub type Pairs = Seq<(Seq<char>, Seq<char>)>;

/// A message as a value.
pub enum MessageView {
    Ask(Pairs),
    Bid(Pairs),
    Snap(Pairs, Pairs),
}

/// The records of a vector as pairs.
pub open spec fn pairs_view(v: Seq<RawRecord>) -> Pairs {
    Seq::new(v.len(), |i: int| v[i]@)
}

impl View for RawMessage {
    type V = MessageView;

    open spec fn view(&self) -> MessageView {
        match self {
            RawMessage::Ask(records) => MessageView::Ask(pairs_view(records@)),
            RawMessage::Bid(records) => MessageView::Bid(pairs_view(records@)),
            RawMessage::Snap { asks, bids } => MessageView::Snap(
                pairs_view(asks@),
                pairs_view(bids@),
            ),
        }
    }
}

/// The messages of a vector as values.
pub open spec fn messages_view(v: Seq<RawMessage>) -> Seq<MessageView> {
    Seq::new(v.len(), |i: int| v[i]@)
}

/// Why a frame of the feed ends the session.
#[derive(Debug, PartialEq, Eq)]
pub enum FeedError {
    /// The text is not JSON.
    NotJson,
    /// The frame is a list without items, so it names no channel.
    EmptyFrame,
    /// An object of the frame is neither a diff nor a complete snapshot.
    UnknownShape,
    /// A record of a diff has fewer than two fields.
    ShortRecord,
    /// A volume is not a number.
    BadVolume,
    /// The feed reported a failure; its message, where it is a text.
    Reported(Option<String>),
}

/// The texts of a vector.
pub open spec fn texts_view(v: Seq<String>) -> Seq<Seq<char>> {
    Seq::new(v.len(), |i: int| v[i]@)
}

/// The rows of a vector.
pub open spec fn rows_view(v: Seq<Vec<String>>) -> Seq<Seq<Seq<char>>> {
    Seq::new(v.len(), |i: int| texts_view(v[i]@))
}

/// The member of an object under `key`.
pub open spec fn field_of(members: Seq<(String, Json)>, key: Seq<char>) -> Option<Json>
    decreases members.len(),
{
    if members.len() == 0 {
        None
    } else if members[0].0@ == key {
        Some(members[0].1)
    } else {
        field_of(members.drop_first(), key)
    }
}

/// The texts of a list that holds nothing but texts.
pub open spec fn texts_of(json: Json) -> Option<Seq<Seq<char>>> {
    match json {
        Json::List(items) => if forall|i: int|
            0 <= i < items@.len() ==> (#[trigger] items@[i]) is Text {
            Some(Seq::new(items@.len(), |i: int| items@[i]->Text_0@))
        } else {
            None
        },
        _ => None,
    }
}

/// The rows of a list that holds nothing but lists of texts.
pub open spec fn rows_of(json: Json) -> Option<Seq<Seq<Seq<char>>>> {
    match json {
        Json::List(items) => if forall|i: int|
            0 <= i < items@.len() ==> texts_of(#[trigger] items@[i]).is_some() {
            Some(Seq::new(items@.len(), |i: int| texts_of(items@[i]).unwrap()))
        } else {
            None
        },
        _ => None,
    }
}

/// The rows that an object carries under `key`, if it has that member and the
/// member is a list of lists of texts.
pub open spec fn rows_under(members: Seq<(String, Json)>, key: Seq<char>) -> Option<
    Seq<Seq<Seq<char>>>,
> {
    match field_of(members, key) {
        Some(json) => rows_of(json),
        None => None,
    }
}

/// The first two fields of each row: the price and the volume. `None` where
/// a row has fewer.
pub open spec fn pairs_of(rows: Seq<Seq<Seq<char>>>) -> Option<Pairs> {
    if forall|i: int| 0 <= i < rows.len() ==> (#[trigger] rows[i]).len() >= 2 {
        Some(Seq::new(rows.len(), |i: int| (rows[i][0], rows[i][1])))
    } else {
        None
    }
}

/// Every row has the three fields of a snapshot record.
pub open spec fn all_triples(rows: Seq<Seq<Seq<char>>>) -> bool {
    forall|i: int| 0 <= i < rows.len() ==> (#[trigger] rows[i]).len() == 3
}

/// The records of one side of a snapshot under `key`.
pub open spec fn snapshot_under(members: Seq<(String, Json)>, key: Seq<char>) -> Option<Pairs> {
    match rows_under(members, key) {
        Some(rows) => if all_triples(rows) {
            pairs_of(rows)
        } else {
            None
        },
        None => None,
    }
}

/// The text of a value that is one.
pub open spec fn text_of(json: Json) -> Option<String> {
    match json {
        Json::Text(s) => Some(s),
        _ => None,
    }
}

/// The failure that an object reports: it reports one exactly if it has an
/// `errorMessage` member, whatever else it carries.
pub open spec fn failure_of(members: Seq<(String, Json)>) -> Option<FeedError> {
    match field_of(members, "errorMessage"@) {
        Some(m) => Some(FeedError::Reported(text_of(m))),
        None => None,
    }
}

/// The message that an object is. An object that reports a failure is no
/// message, whatever lists it carries. Any other is an ask diff where it
/// carries rows under `a`; else a bid diff where it carries rows under `b`;
/// else a snapshot where it carries rows of three under both `as` and `bs`.
pub open spec fn message_of(members: Seq<(String, Json)>) -> Result<MessageView, FeedError> {
    if failure_of(members).is_some() {
        Err(failure_of(members).unwrap())
    } else if rows_under(members, "a"@).is_some() {
        match pairs_of(rows_under(members, "a"@).unwrap()) {
            Some(pairs) => Ok(MessageView::Ask(pairs)),
            None => Err(FeedError::ShortRecord),
        }
    } else if rows_under(members, "b"@).is_some() {
        match pairs_of(rows_under(members, "b"@).unwrap()) {
            Some(pairs) => Ok(MessageView::Bid(pairs)),
            None => Err(FeedError::ShortRecord),
        }
    } else if snapshot_under(members, "as"@).is_some() && snapshot_under(members, "bs"@).is_some() {
        Ok(MessageView::Snap(
            snapshot_under(members, "as"@).unwrap(),
            snapshot_under(members, "bs"@).unwrap(),
        ))
    } else {
        Err(FeedError::UnknownShape)
    }
}

/// The messages of the items of a frame, in order: each object is one
/// message, every other item is passed over, and the first object that is no
/// message fails the frame.
pub open spec fn messages_of(items: Seq<Json>) -> Result<Seq<MessageView>, FeedError>
    decreases items.len(),
{
    if items.len() == 0 {
        Ok(Seq::empty())
    } else {
        match messages_of(items.drop_last()) {
            Err(e) => Err(e),
            Ok(front) => match items.last() {
                Json::Object(members) => match message_of(members@) {
                    Ok(m) => Ok(front.push(m)),
                    Err(e) => Err(e),
                },
                _ => Ok(front),
            },
        }
    }
}

/// What a frame says: a list carries the messages of its items after the
/// first, and needs that first item; an object reports a failure where it
/// has an `errorMessage` member; anything else carries nothing.
pub open spec fn frame_of(json: Json) -> Result<Seq<MessageView>, FeedError> {
    match json {
        Json::List(items) => if items@.len() == 0 {
            Err(FeedError::EmptyFrame)
        } else {
            messages_of(items@.skip(1))
        },
        Json::Object(members) => match failure_of(members@) {
            Some(e) => Err(e),
            None => Ok(Seq::empty()),
        },
        _ => Ok(Seq::empty()),
    }
}

/// What a text of the feed says.
pub open spec fn frame_of_text(text: Seq<char>) -> Result<Seq<MessageView>, FeedError> {
    match json_of(text) {
        Some(json) => frame_of(json),
        None => Err(FeedError::NotJson),
    }
}

/// The decoder's outcome is the one that the model names.
pub open spec fn agrees(
    got: Result<Vec<RawMessage>, FeedError>,
    model: Result<Seq<MessageView>, FeedError>,
) -> bool {
    match got {
        Ok(messages) => model == Ok::<Seq<MessageView>, FeedError>(messages_view(messages@)),
        Err(e) => model == Err::<Seq<MessageView>, FeedError>(e),
    }
}

fn field<'a>(members: &'a Vec<(String, Json)>, key: &str) -> (r: Option<&'a Json>)
    ensures
        match field_of(members@, key@) {
            Some(json) => r == Some(&json),
            None => r.is_none(),
        },
{
    let mut i: usize = 0;
    assert(members@.skip(0) =~= members@);
    while i < members.len()
        invariant
            i <= members.len(),
            field_of(members@, key@) == field_of(members@.skip(i as int), key@),
        decreases members.len() - i,
    {
        let ghost rest = members@.skip(i as int);
        assert(rest[0] == members@[i as int]);
        assert(rest.drop_first() =~= members@.skip(i + 1));
        match rank(members[i].0.as_str(), key) {
            Rank::Same => {
                return Some(&members[i].1);
            },
            _ => {},
        }
        i = i + 1;
    }
    None
}

fn read_texts(json: &Json) -> (r: Option<Vec<String>>)
    ensures
        match texts_of(*json) {
            Some(texts) => r.is_some() && texts_view(r.unwrap()@) == texts,
            None => r.is_none(),
        },
{
    match json {
        Json::List(items) => {
            let mut out: Vec<String> = Vec::new();
            let mut i: usize = 0;
            while i < items.len()
                invariant
                    *json == Json::List(*items),
                    i <= items.len(),
                    out.len() == i,
                    forall|j: int|
                        0 <= j < i ==> (#[trigger] items@[j]) is Text && out@[j]@
                            == items@[j]->Text_0@,
                decreases items.len() - i,
            {
                match &items[i] {
                    Json::Text(s) => {
                        out.push(s.clone());
                    },
                    _ => {
                        assert(!(items@[i as int] is Text));
                        return None;
                    },
                }
                i = i + 1;
            }
            assert(texts_view(out@) =~= texts_of(*json).unwrap());
            Some(out)
        },
        _ => None,
    }
}

fn read_rows(json: &Json) -> (r: Option<Vec<Vec<String>>>)
    ensures
        match rows_of(*json) {
            Some(rows) => r.is_some() && rows_view(r.unwrap()@) == rows,
            None => r.is_none(),
        },
{
    match json {
        Json::List(items) => {
            let mut out: Vec<Vec<String>> = Vec::new();
            let mut i: usize = 0;
            while i < items.len()
                invariant
                    *json == Json::List(*items),
                    i <= items.len(),
                    out.len() == i,
                    forall|j: int|
                        0 <= j < i ==> texts_of(#[trigger] items@[j]).is_some() && texts_view(
                            out@[j]@,
                        ) == texts_of(items@[j]).unwrap(),
                decreases items.len() - i,
            {
                match read_texts(&items[i]) {
                    Some(texts) => {
                        out.push(texts);
                    },
                    None => {
                        assert(texts_of(items@[i as int]).is_none());
                        return None;
                    },
                }
                i = i + 1;
            }
            assert(rows_view(out@) =~= rows_of(*json).unwrap());
            Some(out)
        },
        _ => None,
    }
}

fn read_rows_under(members: &Vec<(String, Json)>, key: &str) -> (r: Option<Vec<Vec<String>>>)
    ensures
        match rows_under(members@, key@) {
            Some(rows) => r.is_some() && rows_view(r.unwrap()@) == rows,
            None => r.is_none(),
        },
{
    match field(members, key) {
        Some(json) => read_rows(json),
        None => None,
    }
}

fn read_pairs(rows: &Vec<Vec<String>>) -> (r: Option<Vec<RawRecord>>)
    ensures
        match pairs_of(rows_view(rows@)) {
            Some(pairs) => r.is_some() && pairs_view(r.unwrap()@) == pairs,
            None => r.is_none(),
        },
{
    let ghost model = rows_view(rows@);
    let mut out: Vec<RawRecord> = Vec::new();
    let mut i: usize = 0;
    while i < rows.len()
        invariant
            i <= rows.len(),
            out.len() == i,
            model == rows_view(rows@),
            forall|j: int|
                0 <= j < i ==> (#[trigger] model[j]).len() >= 2 && out@[j]@ == (
                    model[j][0],
                    model[j][1],
                ),
        decreases rows.len() - i,
    {
        let row = &rows[i];
        assert(model[i as int] == texts_view(row@));
        if row.len() < 2 {
            return None;
        }
        out.push(RawRecord { price: row[0].clone(), volume: row[1].clone() });
        i = i + 1;
    }
    assert(pairs_view(out@) =~= pairs_of(model).unwrap());
    Some(out)
}

fn has_only_triples(rows: &Vec<Vec<String>>) -> (r: bool)
    ensures
        r == all_triples(rows_view(rows@)),
{
    let ghost model = rows_view(rows@);
    let mut i: usize = 0;
    while i < rows.len()
        invariant
            i <= rows.len(),
            model == rows_view(rows@),
            forall|j: int| 0 <= j < i ==> (#[trigger] model[j]).len() == 3,
        decreases rows.len() - i,
    {
        assert(model[i as int] == texts_view(rows@[i as int]@));
        if rows[i].len() != 3 {
            return false;
        }
        i = i + 1;
    }
    true
}

fn read_snapshot_under(members: &Vec<(String, Json)>, key: &str) -> (r: Option<Vec<RawRecord>>)
    ensures
        match snapshot_under(members@, key@) {
            Some(pairs) => r.is_some() && pairs_view(r.unwrap()@) == pairs,
            None => r.is_none(),
        },
{
    match read_rows_under(members, key) {
        Some(rows) => {
            if has_only_triples(&rows) {
                read_pairs(&rows)
            } else {
                None
            }
        },
        None => None,
    }
}

fn read_failure(members: &Vec<(String, Json)>) -> (r: Option<FeedError>)
    ensures
        r == failure_of(members@),
{
    match field(members, "errorMessage") {
        Some(m) => match m {
            Json::Text(s) => Some(FeedError::Reported(Some(s.clone()))),
            _ => Some(FeedError::Reported(None)),
        },
        None => None,
    }
}

/// Reads an object of a frame as the one message it is, or rejects it. The
/// failure that the object reports comes before any list it carries.
pub fn decode_message(members: &Vec<(String, Json)>) -> (r: Result<RawMessage, FeedError>)
    ensures
        match r {
            Ok(message) => message_of(members@) == Ok::<MessageView, FeedError>(message@),
            Err(e) => message_of(members@) == Err::<MessageView, FeedError>(e),
        },
{
    if let Some(e) = read_failure(members) {
        return Err(e);
    }
    if let Some(rows) = read_rows_under(members, "a") {
        return match read_pairs(&rows) {
            Some(records) => Ok(RawMessage::Ask(records)),
            None => Err(FeedError::ShortRecord),
        };
    }
    if let Some(rows) = read_rows_under(members, "b") {
        return match read_pairs(&rows) {
            Some(records) => Ok(RawMessage::Bid(records)),
            None => Err(FeedError::ShortRecord),
        };
    }
    if let Some(asks) = read_snapshot_under(members, "as") {
        if let Some(bids) = read_snapshot_under(members, "bs") {
            return Ok(RawMessage::Snap { asks, bids });
        }
    }
    Err(FeedError::UnknownShape)
}

/// Reads a frame: the messages it carries, in order, or why it ends the
/// session.
pub fn decode_frame(json: &Json) -> (r: Result<Vec<RawMessage>, FeedError>)
    ensures
        agrees(r, frame_of(*json)),
{
    match json {
        Json::List(items) => {
            if items.len() == 0 {
                return Err(FeedError::EmptyFrame);
            }
            let ghost rest = items@.skip(1);
            let mut out: Vec<RawMessage> = Vec::new();
            let mut i: usize = 1;
            assert(rest.take(0) =~= Seq::<Json>::empty());
            assert(messages_view(out@) =~= Seq::<MessageView>::empty());
            while i < items.len()
                invariant
                    *json == Json::List(*items),
                    1 <= i <= items.len(),
                    rest == items@.skip(1),
                    messages_of(rest.take(i - 1)) == Ok::<Seq<MessageView>, FeedError>(
                        messages_view(out@),
                    ),
                decreases items.len() - i,
            {
                let ghost before = messages_view(out@);
                proof {
                    let t = rest.take(i as int);
                    assert(t.drop_last() =~= rest.take(i - 1));
                    assert(t.last() == items@[i as int]);
                }
                match &items[i] {
                    Json::Object(members) => {
                        match decode_message(members) {
                            Ok(message) => {
                                out.push(message);
                                assert(messages_view(out@) =~= before.push(message@));
                            },
                            Err(e) => {
                                proof {
                                    lemma_failure_stays(rest, i as int, e);
                                }
                                return Err(e);
                            },
                        }
                    },
                    _ => {},
                }
                i = i + 1;
            }
            assert(rest.take(items@.len() - 1) =~= rest);
            Ok(out)
        },
        Json::Object(members) => {
            match read_failure(members) {
                Some(e) => Err(e),
                None => Ok(no_messages()),
            }
        },
        _ => Ok(no_messages()),
    }
}

fn no_messages() -> (r: Vec<RawMessage>)
    ensures
        messages_view(r@) == Seq::<MessageView>::empty(),
{
    let r: Vec<RawMessage> = Vec::new();
    assert(messages_view(r@) =~= Seq::<MessageView>::empty());
    r
}

/// Once a front part of the items fails, the whole fails in the same way.
proof fn lemma_failure_stays(items: Seq<Json>, n: int, e: FeedError)
    requires
        0 <= n <= items.len(),
        messages_of(items.take(n)) == Err::<Seq<MessageView>, FeedError>(e),
    ensures
        messages_of(items) == Err::<Seq<MessageView>, FeedError>(e),
    decreases items.len() - n,
{
    if n == items.len() {
        assert(items.take(n) =~= items);
    } else {
        let t = items.take(n + 1);
        assert(t.drop_last() =~= items.take(n));
        lemma_failure_stays(items, n + 1, e);
    }
}

/// The levels that records make with their volumes read as quantities.
pub open spec fn levels_of(records: Seq<RawRecord>, volumes: Seq<Option<Quantity>>) -> Seq<
    (Seq<char>, Quantity),
> {
    Seq::new(records.len(), |i: int| (records[i].price@, volumes[i].unwrap()))
}

/// Joins records with their volumes, each read as a quantity or found to be
/// no number. One volume that is no number fails them all.
pub fn price_levels(records: &Vec<RawRecord>, volumes: &Vec<Option<Quantity>>) -> (r: Result<
    Vec<PriceLevel>,
    FeedError,
>)
    requires
        records@.len() == volumes@.len(),
    ensures
        r.is_ok() == (forall|i: int| 0 <= i < volumes@.len() ==> (#[trigger] volumes@[i]).is_some()),
        r matches Ok(levels) ==> ladder_of(levels@) == levels_of(records@, volumes@),
        r matches Err(e) ==> e == FeedError::BadVolume,
{
    let mut out: Vec<PriceLevel> = Vec::new();
    let mut i: usize = 0;
    while i < records.len()
        invariant
            records@.len() == volumes@.len(),
            i <= records.len(),
            out.len() == i,
            forall|j: int|
                0 <= j < i ==> (#[trigger] volumes@[j]).is_some() && out@[j]@ == (
                    records@[j].price@,
                    volumes@[j].unwrap(),
                ),
        decreases records.len() - i,
    {
        match volumes[i] {
            Some(quantity) => {
                out.push(PriceLevel::new(records[i].price.clone(), quantity));
            },
            None => {
                return Err(FeedError::BadVolume);
            },
        }
        i = i + 1;
    }
    assert(ladder_of(out@) =~= levels_of(records@, volumes@));
    Ok(out)
}

/// Items of which one is an object that reports a failure carry no messages:
/// they fail, with that failure or with an earlier one.
pub proof fn lemma_reported_failure_fails_items(items: Seq<Json>, k: int)
    requires
        0 <= k < items.len(),
        items[k] is Object,
        failure_of(items[k]->Object_0@).is_some(),
    ensures
        messages_of(items).is_err(),
    decreases items.len(),
{
    if k < items.len() - 1 {
        assert(items.drop_last()[k] == items[k]);
        lemma_reported_failure_fails_items(items.drop_last(), k);
    }
}

/// A frame fails wherever one of its objects reports a failure: the object
/// that stands alone, and every object of a list after the list's first
/// item, whatever lists that object carries beside the report.
pub proof fn law_reported_failure_fails_the_frame(json: Json, k: int)
    requires
        json is List,
        1 <= k < json->List_0@.len(),
        json->List_0@[k] is Object,
        failure_of(json->List_0@[k]->Object_0@).is_some(),
    ensures
        frame_of(json).is_err(),
{
    let rest = json->List_0@.skip(1);
    assert(rest[k - 1] == json->List_0@[k]);
    lemma_reported_failure_fails_items(rest, k - 1);
}

/// Reads a text of the feed: parses it and decodes the frame.
pub fn decode_text(text: &str) -> (r: Result<Vec<RawMessage>, FeedError>)
    ensures
        agrees(r, frame_of_text(text@)),
{
    match parse(text) {
        Some(json) => decode_frame(&json),
        None => Err(FeedError::NotJson),
    }
}

} // verus!
