//! The messages of the feed, decoded.

use vstd::prelude::*;
use crate::quantity::Quantity;
use crate::side::{PriceLevel, ladder_of};

verus! {

/// A run of `(price, quantity)` records in the order the feed gave them.
pub type Records = Seq<(Seq<char>, Quantity)>;

/// The full state of both sides, sent once when the subscription starts.
#[derive(Debug)]
pub struct SnapshotData {
    as_: Vec<PriceLevel>,
    bs: Vec<PriceLevel>,
}

impl SnapshotData {
    /// A snapshot of the given ask and bid records.
    pub fn new(asks: Vec<PriceLevel>, bids: Vec<PriceLevel>) -> (s: SnapshotData)
        ensures
            s.asks() == ladder_of(asks@),
            s.bids() == ladder_of(bids@),
    {
        SnapshotData { as_: asks, bs: bids }
    }

    /// The ask records.
    pub closed spec fn asks(&self) -> Records {
        ladder_of(self.as_@)
    }

    /// The bid records.
    pub closed spec fn bids(&self) -> Records {
        ladder_of(self.bs@)
    }

    /// The number of ask records.
    pub fn ask_count(&self) -> (n: usize)
        ensures
            n == self.asks().len(),
    {
        self.as_.len()
    }

    /// The number of bid records.
    pub fn bid_count(&self) -> (n: usize)
        ensures
            n == self.bids().len(),
    {
        self.bs.len()
    }

    /// A copy of the `i`-th ask record.
    pub fn ask(&self, i: usize) -> (r: PriceLevel)
        requires
            i < self.asks().len(),
        ensures
            r@ == self.asks()[i as int],
    {
        self.as_[i].clone()
    }

    /// A copy of the `i`-th bid record.
    pub fn bid(&self, i: usize) -> (r: PriceLevel)
        requires
            i < self.bids().len(),
        ensures
            r@ == self.bids()[i as int],
    {
        self.bs[i].clone()
    }
}

/// The records of one diff: each sets a level, or with a zero quantity
/// removes it.
#[derive(Debug)]
pub struct UpdateData(Vec<PriceLevel>);

impl View for UpdateData {
    type V = Records;

    closed spec fn view(&self) -> Records {
        ladder_of(self.0@)
    }
}

impl UpdateData {
    /// A diff of the given records.
    pub fn new(records: Vec<PriceLevel>) -> (u: UpdateData)
        ensures
            u@ == ladder_of(records@),
    {
        UpdateData(records)
    }

    /// The number of records.
    pub fn len(&self) -> (n: usize)
        ensures
            n == self@.len(),
    {
        self.0.len()
    }

    /// A copy of the `i`-th record.
    pub fn record(&self, i: usize) -> (r: PriceLevel)
        requires
            i < self@.len(),
        ensures
            r@ == self@[i as int],
    {
        self.0[i].clone()
    }
}

/// What one payload of the feed says.
#[derive(Debug)]
pub enum MessageData {
    /// A diff of the ask side.
    Ask { a: UpdateData },
    /// A diff of the bid side.
    Bid { b: UpdateData },
    /// The full snapshot.
    Snap(SnapshotData),
}

} // verus!
