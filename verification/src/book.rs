//! The order book: two sides under one depth, and the rules by which a
//! snapshot and the diffs change them.

use vstd::prelude::*;
use crate::ladder::{Ladder, upsert, without, keep_lowest, keep_highest};
use crate::message::{Records, SnapshotData, UpdateData, MessageData};
use crate::quantity::Quantity;
use crate::side::BookSide;

verus! {

/// The ask side after one record: a zero quantity removes the price;
/// another sets it, and the highest prices leave until the depth holds.
pub open spec fn apply_ask(l: Ladder, record: (Seq<char>, Quantity), depth: nat) -> Ladder {
    if record.1.denotes_zero() {
        without(l, record.0)
    } else {
        keep_lowest(upsert(l, record.0, record.1), depth)
    }
}

/// The bid side after one record: a zero quantity removes the price;
/// another sets it, and the lowest prices leave until the depth holds.
pub open spec fn apply_bid(l: Ladder, record: (Seq<char>, Quantity), depth: nat) -> Ladder {
    if record.1.denotes_zero() {
        without(l, record.0)
    } else {
        keep_highest(upsert(l, record.0, record.1), depth)
    }
}

/// The ask side after the records of a diff, applied in order.
pub open spec fn apply_asks(l: Ladder, records: Records, depth: nat) -> Ladder
    decreases records.len(),
{
    if records.len() == 0 {
        l
    } else {
        apply_ask(apply_asks(l, records.drop_last(), depth), records.last(), depth)
    }
}

/// The bid side after the records of a diff, applied in order.
pub open spec fn apply_bids(l: Ladder, records: Records, depth: nat) -> Ladder
    decreases records.len(),
{
    if records.len() == 0 {
        l
    } else {
        apply_bid(apply_bids(l, records.drop_last(), depth), records.last(), depth)
    }
}

/// A side after the records of a snapshot: each sets its price, whatever
/// its quantity, and nothing is cut.
pub open spec fn load(l: Ladder, records: Records) -> Ladder
    decreases records.len(),
{
    if records.len() == 0 {
        l
    } else {
        let before = load(l, records.drop_last());
        upsert(before, records.last().0, records.last().1)
    }
}

/// A diff never lets a side grow beyond the larger of its depth and the
/// size it had.
pub proof fn lemma_apply_bounded(l: Ladder, records: Records, depth: nat)
    ensures
        apply_asks(l, records, depth).len() <= (if l.len() <= depth { depth } else { l.len() }),
        apply_bids(l, records, depth).len() <= (if l.len() <= depth { depth } else { l.len() }),
    decreases records.len(),
{
    if records.len() > 0 {
        lemma_apply_bounded(l, records.drop_last(), depth);
        let a = apply_asks(l, records.drop_last(), depth);
        let b = apply_bids(l, records.drop_last(), depth);
        let p = records.last().0;
        crate::ladder::lemma_without_shorter(a, p);
        crate::ladder::lemma_without_shorter(b, p);
    }
}

/// The book: a bid side and an ask side, and the depth that diffs hold both
/// to.
#[derive(Debug)]
pub struct OrderBook {
    pub bids: BookSide,
    pub asks: BookSide,
    pub max_depth: u16,
}

impl Clone for OrderBook {
    fn clone(&self) -> (r: OrderBook)
        ensures
            r.bids@ == self.bids@,
            r.asks@ == self.asks@,
            r.depth() == self.depth(),
    {
        OrderBook { bids: self.bids.clone(), asks: self.asks.clone(), max_depth: self.max_depth }
    }
}

impl OrderBook {
    /// Both sides stand in price order.
    pub open spec fn wf(&self) -> bool {
        self.bids.wf() && self.asks.wf()
    }

    /// The depth the book was made with.
    pub open spec fn depth(&self) -> nat {
        self.max_depth as nat
    }

    /// Both sides hold no more levels than the depth.
    pub open spec fn within_depth(&self) -> bool {
        self.bids@.len() <= self.depth() && self.asks@.len() <= self.depth()
    }

    /// An empty book of the given depth.
    pub fn new(depth: u16) -> (book: OrderBook)
        ensures
            book.wf(),
            book.depth() == depth,
            book.bids@ == Seq::<(Seq<char>, Quantity)>::empty(),
            book.asks@ == Seq::<(Seq<char>, Quantity)>::empty(),
    {
        OrderBook { bids: BookSide::new(), asks: BookSide::new(), max_depth: depth }
    }

    /// The depth the book was made with.
    pub fn max_depth(&self) -> (d: u16)
        ensures
            d == self.depth(),
    {
        self.max_depth
    }

    /// Takes a snapshot in: every record sets its price on its side. The
    /// depth is not enforced here.
    pub fn initalize(&mut self, snapshot: &SnapshotData)
        requires
            old(self).wf(),
        ensures
            final(self).wf(),
            final(self).depth() == old(self).depth(),
            final(self).bids@ == load(old(self).bids@, snapshot.bids()),
            final(self).asks@ == load(old(self).asks@, snapshot.asks()),
    {
        let ghost bids0 = self.bids@;
        let ghost asks0 = self.asks@;
        let ghost depth0 = self.depth();
        let n: usize = snapshot.bid_count();
        let mut i: usize = 0;
        while i < n
            invariant
                n == snapshot.bids().len(),
                i <= n,
                self.wf(),
                self.depth() == depth0,
                self.asks@ == asks0,
                self.bids@ == load(bids0, snapshot.bids().take(i as int)),
            decreases n - i,
        {
            let record = snapshot.bid(i);
            self.bids.set(record.price, record.quantity);
            proof {
                let t = snapshot.bids().take(i + 1);
                assert(t.drop_last() =~= snapshot.bids().take(i as int));
            }
            i = i + 1;
        }
        assert(snapshot.bids().take(n as int) =~= snapshot.bids());
        let m: usize = snapshot.ask_count();
        let mut k: usize = 0;
        while k < m
            invariant
                m == snapshot.asks().len(),
                k <= m,
                self.wf(),
                self.depth() == depth0,
                self.bids@ == load(bids0, snapshot.bids()),
                self.asks@ == load(asks0, snapshot.asks().take(k as int)),
            decreases m - k,
        {
            let record = snapshot.ask(k);
            self.asks.set(record.price, record.quantity);
            proof {
                let t = snapshot.asks().take(k + 1);
                assert(t.drop_last() =~= snapshot.asks().take(k as int));
            }
            k = k + 1;
        }
        assert(snapshot.asks().take(m as int) =~= snapshot.asks());
    }

    /// Applies a diff to the ask side, record by record.
    pub fn update_asks(&mut self, updates: &UpdateData)
        requires
            old(self).wf(),
        ensures
            final(self).wf(),
            final(self).depth() == old(self).depth(),
            final(self).bids@ == old(self).bids@,
            final(self).asks@ == apply_asks(old(self).asks@, updates@, old(self).depth()),
            old(self).within_depth() ==> final(self).within_depth(),
    {
        let ghost bids0 = self.bids@;
        let ghost asks0 = self.asks@;
        let ghost depth0 = self.depth();
        let n: usize = updates.len();
        let mut i: usize = 0;
        while i < n
            invariant
                n == updates@.len(),
                i <= n,
                self.wf(),
                self.depth() == depth0,
                self.bids@ == bids0,
                self.asks@ == apply_asks(asks0, updates@.take(i as int), depth0),
            decreases n - i,
        {
            let record = updates.record(i);
            if record.quantity.is_zero() {
                self.asks.remove(record.price.as_str());
            } else {
                self.asks.set(record.price, record.quantity);
                self.asks.keep_lowest(self.max_depth as usize);
            }
            proof {
                let t = updates@.take(i + 1);
                assert(t.drop_last() =~= updates@.take(i as int));
            }
            i = i + 1;
        }
        proof {
            assert(updates@.take(n as int) =~= updates@);
            lemma_apply_bounded(asks0, updates@, depth0);
        }
    }

    /// Applies a diff to the bid side, record by record.
    pub fn update_bids(&mut self, updates: &UpdateData)
        requires
            old(self).wf(),
        ensures
            final(self).wf(),
            final(self).depth() == old(self).depth(),
            final(self).asks@ == old(self).asks@,
            final(self).bids@ == apply_bids(old(self).bids@, updates@, old(self).depth()),
            old(self).within_depth() ==> final(self).within_depth(),
    {
        let ghost bids0 = self.bids@;
        let ghost asks0 = self.asks@;
        let ghost depth0 = self.depth();
        let n: usize = updates.len();
        let mut i: usize = 0;
        while i < n
            invariant
                n == updates@.len(),
                i <= n,
                self.wf(),
                self.depth() == depth0,
                self.asks@ == asks0,
                self.bids@ == apply_bids(bids0, updates@.take(i as int), depth0),
            decreases n - i,
        {
            let record = updates.record(i);
            if record.quantity.is_zero() {
                self.bids.remove(record.price.as_str());
            } else {
                self.bids.set(record.price, record.quantity);
                self.bids.keep_highest(self.max_depth as usize);
            }
            proof {
                let t = updates@.take(i + 1);
                assert(t.drop_last() =~= updates@.take(i as int));
            }
            i = i + 1;
        }
        proof {
            assert(updates@.take(n as int) =~= updates@);
            lemma_apply_bounded(bids0, updates@, depth0);
        }
    }

    /// Applies one message: a diff to its side, a snapshot to both.
    pub fn apply(&mut self, message: &MessageData)
        requires
            old(self).wf(),
        ensures
            final(self).wf(),
            final(self).depth() == old(self).depth(),
            (final(self).bids@, final(self).asks@) == after_message(
                (old(self).bids@, old(self).asks@),
                *message,
                old(self).depth(),
            ),
    {
        match message {
            MessageData::Ask { a } => self.update_asks(a),
            MessageData::Bid { b } => self.update_bids(b),
            MessageData::Snap(snapshot) => self.initalize(snapshot),
        }
    }
}

/// The bid and the ask ladder of a book after one message: a diff changes
/// its side, a snapshot is taken in on both.
pub open spec fn after_message(sides: (Ladder, Ladder), message: MessageData, depth: nat) -> (
    Ladder,
    Ladder,
) {
    match message {
        MessageData::Ask { a } => (sides.0, apply_asks(sides.1, a@, depth)),
        MessageData::Bid { b } => (apply_bids(sides.0, b@, depth), sides.1),
        MessageData::Snap(s) => (load(sides.0, s.bids()), load(sides.1, s.asks())),
    }
}

/// The bid and the ask ladder of a book after a run of messages, applied in
/// order.
pub open spec fn after_messages(sides: (Ladder, Ladder), messages: Seq<MessageData>, depth: nat) -> (
    Ladder,
    Ladder,
)
    decreases messages.len(),
{
    if messages.len() == 0 {
        sides
    } else {
        after_message(after_messages(sides, messages.drop_last(), depth), messages.last(), depth)
    }
}

} // verus!
