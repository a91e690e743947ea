//! What the display sees: the top of both sides, copied out of the book.

use vstd::prelude::*;
use crate::book::{OrderBook, after_messages};
use crate::ladder::Ladder;
use crate::message::MessageData;
use crate::quantity::Quantity;
use crate::side::{PriceLevel, BookSide, ladder_of};

verus! {

/// How many levels of each side one publication carries: as many as the
/// shorter side has, and no more than the depth.
pub open spec fn shared_count(bids: Ladder, asks: Ladder, depth: nat) -> nat {
    let shorter = if bids.len() <= asks.len() { bids.len() } else { asks.len() };
    if shorter <= depth { shorter } else { depth }
}

/// `slots` with its first `n` places, as far as both reach, taken from
/// `levels`.
pub open spec fn overlay(slots: Ladder, levels: Ladder, n: nat) -> Ladder {
    Seq::new(slots.len(), |i: int| if i < n && i < levels.len() { levels[i] } else { slots[i] })
}

/// The level of a slot that was never written: no price, positive zero.
pub open spec fn empty_level() -> (Seq<char>, Quantity) {
    (Seq::<char>::empty(), (Quantity { bits: 0 }))
}

/// The top of the book at one moment: the `i`-th bid beside the `i`-th ask,
/// each side counted from its lowest price.
#[derive(Debug)]
pub struct Projection {
    pub bids: Vec<PriceLevel>,
    pub asks: Vec<PriceLevel>,
}

impl Projection {
    /// This projection holds the first levels of both ladders, as many of
    /// each as one publication carries.
    pub open spec fn is_top_of(&self, bids: Ladder, asks: Ladder, depth: nat) -> bool {
        &&& ladder_of(self.bids@) == bids.take(shared_count(bids, asks, depth) as int)
        &&& ladder_of(self.asks@) == asks.take(shared_count(bids, asks, depth) as int)
    }
}

fn top_of(side: &BookSide, n: usize) -> (out: Vec<PriceLevel>)
    requires
        n <= side@.len(),
    ensures
        ladder_of(out@) == side@.take(n as int),
{
    let mut out: Vec<PriceLevel> = Vec::new();
    let mut i: usize = 0;
    while i < n
        invariant
            i <= n,
            n <= side@.len(),
            out.len() == i,
            forall|j: int| 0 <= j < i ==> out@[j]@ == side@[j],
        decreases n - i,
    {
        out.push(side.level(i));
        i = i + 1;
    }
    assert(ladder_of(out@) =~= side@.take(n as int));
    out
}

/// Copies the top of the book out.
pub fn project(book: &OrderBook) -> (p: Projection)
    ensures
        p.is_top_of(book.bids@, book.asks@, book.depth()),
{
    let mut n: usize = book.bids.len();
    if book.asks.len() < n {
        n = book.asks.len();
    }
    if book.max_depth as usize <= n {
        n = book.max_depth as usize;
    }
    Projection { bids: top_of(&book.bids, n), asks: top_of(&book.asks, n) }
}

/// Applies the messages of one frame in full and then, where a publication
/// is due, copies the top of the book out. So a publication shows the book
/// as it stands after every record of every message so far, never in
/// between.
pub fn ingest(book: &mut OrderBook, messages: &Vec<MessageData>, due: bool) -> (p: Option<
    Projection,
>)
    requires
        old(book).wf(),
    ensures
        final(book).wf(),
        final(book).depth() == old(book).depth(),
        (final(book).bids@, final(book).asks@) == after_messages(
            (old(book).bids@, old(book).asks@),
            messages@,
            old(book).depth(),
        ),
        p.is_some() == due,
        due ==> p.unwrap().is_top_of(final(book).bids@, final(book).asks@, old(book).depth()),
{
    let ghost start = (book.bids@, book.asks@);
    let ghost depth = book.depth();
    let mut i: usize = 0;
    assert(messages@.take(0) =~= Seq::<MessageData>::empty());
    while i < messages.len()
        invariant
            i <= messages.len(),
            book.wf(),
            book.depth() == depth,
            (book.bids@, book.asks@) == after_messages(start, messages@.take(i as int), depth),
        decreases messages.len() - i,
    {
        book.apply(&messages[i]);
        proof {
            let t = messages@.take(i + 1);
            assert(t.drop_last() =~= messages@.take(i as int));
        }
        i = i + 1;
    }
    assert(messages@.take(messages@.len() as int) =~= messages@);
    if due {
        Some(project(book))
    } else {
        None
    }
}

/// The buffer between the feed and the display: one row of slots for each
/// side, of equal and fixed length. A publication overwrites the slots it
/// reaches and leaves the others as they were.
#[derive(Debug)]
pub struct SnapshotBuffer {
    bids: Vec<PriceLevel>,
    asks: Vec<PriceLevel>,
}

impl SnapshotBuffer {
    /// The bid slots.
    pub closed spec fn bid_slots(&self) -> Ladder {
        ladder_of(self.bids@)
    }

    /// The ask slots.
    pub closed spec fn ask_slots(&self) -> Ladder {
        ladder_of(self.asks@)
    }

    /// Both rows have the same length.
    pub open spec fn wf(&self) -> bool {
        self.bid_slots().len() == self.ask_slots().len()
    }

    /// The number of slots of each row.
    pub open spec fn capacity(&self) -> nat {
        self.bid_slots().len()
    }

    /// A buffer of `depth` slots for each side, all of them empty.
    pub fn new(depth: u16) -> (b: SnapshotBuffer)
        ensures
            b.wf(),
            b.capacity() == depth,
            forall|i: int| 0 <= i < depth ==> #[trigger] b.bid_slots()[i] == empty_level(),
            forall|i: int| 0 <= i < depth ==> #[trigger] b.ask_slots()[i] == empty_level(),
    {
        let mut bids: Vec<PriceLevel> = Vec::new();
        let mut asks: Vec<PriceLevel> = Vec::new();
        let mut i: u16 = 0;
        while i < depth
            invariant
                i <= depth,
                bids.len() == i,
                asks.len() == i,
                forall|j: int| 0 <= j < i ==> #[trigger] bids@[j]@ == empty_level(),
                forall|j: int| 0 <= j < i ==> #[trigger] asks@[j]@ == empty_level(),
            decreases depth - i,
        {
            bids.push(PriceLevel::empty());
            asks.push(PriceLevel::empty());
            i = i + 1;
        }
        SnapshotBuffer { bids, asks }
    }

    /// Copies a projection in: slot `i` of each row takes the projection's
    /// `i`-th level of that side, as far as the projection and the row reach.
    pub fn store(&mut self, p: &Projection)
        requires
            old(self).wf(),
        ensures
            final(self).wf(),
            final(self).capacity() == old(self).capacity(),
            final(self).bid_slots() == overlay(
                old(self).bid_slots(),
                ladder_of(p.bids@),
                p.bids@.len(),
            ),
            final(self).ask_slots() == overlay(
                old(self).ask_slots(),
                ladder_of(p.asks@),
                p.asks@.len(),
            ),
    {
        let ghost bids0 = self.bid_slots();
        let ghost asks0 = self.ask_slots();
        let mut i: usize = 0;
        while i < p.bids.len() && i < self.bids.len()
            invariant
                self.bids@.len() == bids0.len(),
                self.ask_slots() == asks0,
                forall|j: int|
                    0 <= j < bids0.len() ==> #[trigger] self.bids@[j]@ == (if j < i && j
                        < p.bids@.len() {
                        p.bids@[j]@
                    } else {
                        bids0[j]
                    }),
            decreases p.bids.len() - i,
        {
            self.bids.set(i, p.bids[i].clone());
            i = i + 1;
        }
        assert(self.bid_slots() =~= overlay(bids0, ladder_of(p.bids@), p.bids@.len()));
        let mut k: usize = 0;
        while k < p.asks.len() && k < self.asks.len()
            invariant
                self.asks@.len() == asks0.len(),
                self.bid_slots() == overlay(bids0, ladder_of(p.bids@), p.bids@.len()),
                forall|j: int|
                    0 <= j < asks0.len() ==> #[trigger] self.asks@[j]@ == (if j < k && j
                        < p.asks@.len() {
                        p.asks@[j]@
                    } else {
                        asks0[j]
                    }),
            decreases p.asks.len() - k,
        {
            self.asks.set(k, p.asks[k].clone());
            k = k + 1;
        }
        assert(self.ask_slots() =~= overlay(asks0, ladder_of(p.asks@), p.asks@.len()));
    }

    /// Copies the buffer out: the bid row and the ask row.
    pub fn read(&self) -> (rows: (Vec<PriceLevel>, Vec<PriceLevel>))
        ensures
            ladder_of(rows.0@) == self.bid_slots(),
            ladder_of(rows.1@) == self.ask_slots(),
    {
        (copy_of(&self.bids), copy_of(&self.asks))
    }
}

fn copy_of(v: &Vec<PriceLevel>) -> (out: Vec<PriceLevel>)
    ensures
        ladder_of(out@) == ladder_of(v@),
{
    let mut out: Vec<PriceLevel> = Vec::new();
    let mut i: usize = 0;
    while i < v.len()
        invariant
            i <= v.len(),
            out.len() == i,
            forall|j: int| 0 <= j < i ==> out@[j]@ == v@[j]@,
        decreases v.len() - i,
    {
        out.push(v[i].clone());
        i = i + 1;
    }
    assert(ladder_of(out@) =~= ladder_of(v@));
    out
}

} // verus!
