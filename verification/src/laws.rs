//! What holds of the book's rules, whatever the feed sends.

use vstd::prelude::*;
use crate::book::{
    apply_ask, apply_bid, apply_asks, apply_bids, load, after_message, after_messages,
};
use crate::ladder::{
    Ladder, sorted, has_price, quantity_at, upsert, lemma_has_price_at_slot,
    lemma_present_at_slot, lemma_upsert_sorted, lemma_upsert_quantity_at,
    lemma_sorted_extensional, lemma_slot_exists, lemma_without_sorted, lemma_keep_sorted,
};
use crate::message::{Records, MessageData};
use crate::price::lex_lt;
use crate::quantity::Quantity;

verus! {

/// The quantity that the last record for `price` names, if any record names
/// that price.
pub open spec fn latest(records: Records, price: Seq<char>) -> Option<Quantity>
    decreases records.len(),
{
    if records.len() == 0 {
        None
    } else if records.last().0 == price {
        Some(records.last().1)
    } else {
        latest(records.drop_last(), price)
    }
}

/// A diff keeps a side in price order.
pub proof fn law_diff_keeps_order(l: Ladder, records: Records, depth: nat)
    requires
        sorted(l),
    ensures
        sorted(apply_asks(l, records, depth)),
        sorted(apply_bids(l, records, depth)),
    decreases records.len(),
{
    if records.len() > 0 {
        law_diff_keeps_order(l, records.drop_last(), depth);
        let a = apply_asks(l, records.drop_last(), depth);
        let b = apply_bids(l, records.drop_last(), depth);
        let (p, q) = records.last();
        lemma_without_sorted(a, p);
        lemma_without_sorted(b, p);
        lemma_upsert_sorted(a, p, q);
        lemma_upsert_sorted(b, p, q);
        lemma_keep_sorted(upsert(a, p, q), depth);
        lemma_keep_sorted(upsert(b, p, q), depth);
    }
}

/// A side that holds no more levels than the depth still holds no more after
/// any diff.
pub proof fn law_diff_keeps_depth(l: Ladder, records: Records, depth: nat)
    requires
        l.len() <= depth,
    ensures
        apply_asks(l, records, depth).len() <= depth,
        apply_bids(l, records, depth).len() <= depth,
{
    crate::book::lemma_apply_bounded(l, records, depth);
}

/// A book whose sides hold no more levels than the depth still is such a
/// book after a diff of either side.
pub proof fn law_diff_keeps_book_within_depth(
    sides: (Ladder, Ladder),
    message: MessageData,
    depth: nat,
)
    requires
        sides.0.len() <= depth,
        sides.1.len() <= depth,
        !(message is Snap),
    ensures
        after_message(sides, message, depth).0.len() <= depth,
        after_message(sides, message, depth).1.len() <= depth,
{
    match message {
        MessageData::Ask { a } => {
            crate::book::lemma_apply_bounded(sides.1, a@, depth);
        },
        MessageData::Bid { b } => {
            crate::book::lemma_apply_bounded(sides.0, b@, depth);
        },
        MessageData::Snap(_) => {},
    }
}

/// Messages taken in two runs leave the book as the same messages taken in
/// one: what stands between the runs is the book after exactly the first of
/// them.
pub proof fn law_runs_of_messages_compose(
    sides: (Ladder, Ladder),
    first: Seq<MessageData>,
    second: Seq<MessageData>,
    depth: nat,
)
    ensures
        after_messages(sides, first + second, depth) == after_messages(
            after_messages(sides, first, depth),
            second,
            depth,
        ),
    decreases second.len(),
{
    if second.len() == 0 {
        assert(first + second =~= first);
    } else {
        law_runs_of_messages_compose(sides, first, second.drop_last(), depth);
        assert((first + second).drop_last() =~= first + second.drop_last());
        assert((first + second).last() == second.last());
    }
}

/// A record with a zero quantity for a price that the side does not hold
/// leaves the side as it is.
pub proof fn law_removing_absent_price_changes_nothing(
    l: Ladder,
    price: Seq<char>,
    quantity: Quantity,
    depth: nat,
)
    requires
        sorted(l),
        !has_price(l, price),
        quantity.denotes_zero(),
    ensures
        apply_ask(l, (price, quantity), depth) == l,
        apply_bid(l, (price, quantity), depth) == l,
{
    lemma_has_price_at_slot(l, price);
}

/// A record with a nonzero quantity for a price that a side within its depth
/// holds replaces the quantity at that price: every other level, and the
/// number of levels, stay.
pub proof fn law_overwrite_touches_one_level(l: Ladder, i: int, quantity: Quantity, depth: nat)
    requires
        sorted(l),
        0 <= i < l.len(),
        l.len() <= depth,
        !quantity.denotes_zero(),
    ensures
        apply_ask(l, (l[i].0, quantity), depth) == l.update(i, (l[i].0, quantity)),
        apply_bid(l, (l[i].0, quantity), depth) == l.update(i, (l[i].0, quantity)),
{
    lemma_present_at_slot(l, l[i].0, i);
}

/// A new price on a full ask side: the side, grown by the new level, loses
/// exactly its highest price, so it is full again and every level left is
/// below the one that went.
pub proof fn law_full_ask_side_evicts_highest(
    l: Ladder,
    price: Seq<char>,
    quantity: Quantity,
    depth: nat,
)
    requires
        sorted(l),
        !has_price(l, price),
        l.len() == depth,
        !quantity.denotes_zero(),
    ensures
        upsert(l, price, quantity).len() == depth + 1,
        apply_ask(l, (price, quantity), depth) == upsert(l, price, quantity).drop_last(),
        apply_ask(l, (price, quantity), depth).len() == depth,
        forall|j: int|
            0 <= j < depth ==> lex_lt(
                #[trigger] apply_ask(l, (price, quantity), depth)[j].0,
                upsert(l, price, quantity).last().0,
            ),
{
    lemma_has_price_at_slot(l, price);
    lemma_upsert_sorted(l, price, quantity);
    let grown = upsert(l, price, quantity);
    let after = apply_ask(l, (price, quantity), depth);
    assert(after =~= grown.drop_last());
    assert forall|j: int| 0 <= j < depth implies lex_lt(
        #[trigger] after[j].0,
        grown.last().0,
    ) by {
        assert(after[j] == grown[j]);
        assert(lex_lt(grown[j].0, grown[grown.len() - 1].0));
    }
}

/// A new price on a full bid side: the side, grown by the new level, loses
/// exactly its lowest price, so it is full again and every level left is
/// above the one that went.
pub proof fn law_full_bid_side_evicts_lowest(
    l: Ladder,
    price: Seq<char>,
    quantity: Quantity,
    depth: nat,
)
    requires
        sorted(l),
        !has_price(l, price),
        l.len() == depth,
        !quantity.denotes_zero(),
    ensures
        upsert(l, price, quantity).len() == depth + 1,
        apply_bid(l, (price, quantity), depth) == upsert(l, price, quantity).drop_first(),
        apply_bid(l, (price, quantity), depth).len() == depth,
        forall|j: int|
            0 <= j < depth ==> lex_lt(
                upsert(l, price, quantity).first().0,
                #[trigger] apply_bid(l, (price, quantity), depth)[j].0,
            ),
{
    lemma_has_price_at_slot(l, price);
    lemma_upsert_sorted(l, price, quantity);
    let grown = upsert(l, price, quantity);
    let after = apply_bid(l, (price, quantity), depth);
    assert(after =~= grown.drop_first());
    assert forall|j: int| 0 <= j < depth implies lex_lt(
        grown.first().0,
        #[trigger] after[j].0,
    ) by {
        assert(after[j] == grown[j + 1]);
        assert(lex_lt(grown[0].0, grown[j + 1].0));
    }
}

/// Taking a snapshot in keeps a side in price order.
pub proof fn law_snapshot_keeps_order(l: Ladder, records: Records)
    requires
        sorted(l),
    ensures
        sorted(load(l, records)),
    decreases records.len(),
{
    if records.len() > 0 {
        law_snapshot_keeps_order(l, records.drop_last());
        lemma_upsert_sorted(load(l, records.drop_last()), records.last().0, records.last().1);
    }
}

/// After a snapshot a side holds, at each price, what the last record for
/// that price says, and what it held before where no record names the price.
pub proof fn law_snapshot_quantity_at(l: Ladder, records: Records, price: Seq<char>)
    requires
        sorted(l),
    ensures
        quantity_at(load(l, records), price) == (match latest(records, price) {
            Some(q) => Some(q),
            None => quantity_at(l, price),
        }),
    decreases records.len(),
{
    if records.len() > 0 {
        let before = load(l, records.drop_last());
        law_snapshot_keeps_order(l, records.drop_last());
        law_snapshot_quantity_at(l, records.drop_last(), price);
        lemma_upsert_quantity_at(before, records.last().0, records.last().1, price);
    }
}

/// A snapshot adds at most one level for each of its records.
pub proof fn law_snapshot_grows_by_its_records(l: Ladder, records: Records)
    requires
        sorted(l),
    ensures
        load(l, records).len() <= l.len() + records.len(),
    decreases records.len(),
{
    if records.len() > 0 {
        law_snapshot_grows_by_its_records(l, records.drop_last());
        law_snapshot_keeps_order(l, records.drop_last());
        lemma_slot_exists(load(l, records.drop_last()), records.last().0);
    }
}

/// How many records of a snapshot bring a price that neither the side nor an
/// earlier record has.
pub open spec fn new_prices(l: Ladder, records: Records) -> nat
    decreases records.len(),
{
    if records.len() == 0 {
        0
    } else {
        let front = records.drop_last();
        let price = records.last().0;
        new_prices(l, front) + (if has_price(l, price) || has_price(front, price) {
            0nat
        } else {
            1nat
        })
    }
}

/// How many different prices the records of a snapshot name.
pub open spec fn distinct_prices(records: Records) -> nat {
    new_prices(Seq::empty(), records)
}

/// Some record names `price` exactly if a last record for it exists.
pub proof fn lemma_latest_is_some(records: Records, price: Seq<char>)
    ensures
        latest(records, price).is_some() <==> has_price(records, price),
    decreases records.len(),
{
    if records.len() > 0 {
        let front = records.drop_last();
        lemma_latest_is_some(front, price);
        if has_price(front, price) {
            let i = choose|i: int| 0 <= i < front.len() && #[trigger] front[i].0 == price;
            assert(records[i].0 == price);
        }
        if has_price(records, price) && records.last().0 != price {
            let i = choose|i: int| 0 <= i < records.len() && #[trigger] records[i].0 == price;
            assert(front[i].0 == price);
        }
        if records.last().0 == price {
            assert(records[records.len() - 1].0 == price);
        }
    }
}

/// After a snapshot a side has a price exactly if it had it before or a
/// record names it.
pub proof fn law_snapshot_prices(l: Ladder, records: Records, price: Seq<char>)
    requires
        sorted(l),
    ensures
        has_price(load(l, records), price) <==> has_price(l, price) || has_price(records, price),
{
    law_snapshot_quantity_at(l, records, price);
    lemma_latest_is_some(records, price);
}

/// A snapshot leaves a side with the levels it had and one more for each
/// price that is new to it, however many that makes: nothing is cut.
pub proof fn law_snapshot_counts_new_prices(l: Ladder, records: Records)
    requires
        sorted(l),
    ensures
        load(l, records).len() == l.len() + new_prices(l, records),
    decreases records.len(),
{
    if records.len() > 0 {
        let front = records.drop_last();
        let price = records.last().0;
        let before = load(l, front);
        law_snapshot_counts_new_prices(l, front);
        law_snapshot_keeps_order(l, front);
        law_snapshot_prices(l, front, price);
        lemma_has_price_at_slot(before, price);
    }
}

/// A snapshot on an empty side leaves as many levels as it names different
/// prices.
pub proof fn law_snapshot_on_empty_side_counts_distinct_prices(records: Records)
    ensures
        load(Seq::empty(), records).len() == distinct_prices(records),
{
    law_snapshot_counts_new_prices(Seq::empty(), records);
}

/// Taking the same snapshot in a second time changes nothing.
pub proof fn law_snapshot_is_idempotent(l: Ladder, records: Records)
    requires
        sorted(l),
    ensures
        load(load(l, records), records) == load(l, records),
{
    let once = load(l, records);
    let twice = load(once, records);
    law_snapshot_keeps_order(l, records);
    law_snapshot_keeps_order(once, records);
    assert forall|k: Seq<char>| #[trigger] quantity_at(twice, k) == quantity_at(once, k) by {
        law_snapshot_quantity_at(l, records, k);
        law_snapshot_quantity_at(once, records, k);
    }
    lemma_sorted_extensional(twice, once);
}

} // verus!
