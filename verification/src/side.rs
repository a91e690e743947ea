//! One side of the book: its levels, held in price order.

use vstd::prelude::*;
use crate::ladder::{
    Ladder, sorted, is_slot, slot, has_price, quantity_at, upsert, without, keep_lowest,
    keep_highest, lemma_slot_unique, lemma_upsert_sorted, lemma_without_sorted,
    lemma_keep_sorted, lemma_has_price_at_slot,
};
use crate::price::{lex_lt, lemma_lex_lt_transitive, rank, Rank};
use crate::quantity::Quantity;

verus! {

/// A price, kept as the text it arrived in, and the quantity resting there.
#[derive(Debug)]
pub struct PriceLevel {
    pub price: String,
    pub quantity: Quantity,
}

impl View for PriceLevel {
    type V = (Seq<char>, Quantity);

    open spec fn view(&self) -> (Seq<char>, Quantity) {
        (self.price@, self.quantity)
    }
}

impl Clone for PriceLevel {
    fn clone(&self) -> (r: PriceLevel)
        ensures
            r@ == self@,
    {
        PriceLevel { price: self.price.clone(), quantity: self.quantity }
    }
}

impl PriceLevel {
    /// A level at `price` holding `quantity`.
    pub fn new(price: String, quantity: Quantity) -> (r: PriceLevel)
        ensures
            r@ == (price@, quantity),
    {
        PriceLevel { price, quantity }
    }

    /// The level of an unused slot: no price, positive zero.
    pub fn empty() -> (r: PriceLevel)
        ensures
            r@ == (Seq::<char>::empty(), (Quantity { bits: 0 })),
    {
        PriceLevel { price: String::new(), quantity: Quantity::zero() }
    }
}

/// The levels of a vector as a ladder.
pub open spec fn ladder_of(v: Seq<PriceLevel>) -> Ladder {
    v.map_values(|e: PriceLevel| e@)
}

/// One side of the book. Its view is the ladder of its levels, lowest price
/// first.
#[derive(Debug)]
pub struct BookSide {
    levels: Vec<PriceLevel>,
}

impl View for BookSide {
    type V = Ladder;

    closed spec fn view(&self) -> Ladder {
        ladder_of(self.levels@)
    }
}

impl Clone for BookSide {
    fn clone(&self) -> (r: BookSide)
        ensures
            r@ == self@,
    {
        BookSide { levels: self.levels() }
    }
}

impl BookSide {
    /// The levels stand in strictly increasing price order.
    pub open spec fn wf(&self) -> bool {
        sorted(self@)
    }

    /// A side without levels.
    pub fn new() -> (s: BookSide)
        ensures
            s@ == Seq::<(Seq<char>, Quantity)>::empty(),
            s.wf(),
    {
        let s = BookSide { levels: Vec::new() };
        assert(s@ =~= Seq::<(Seq<char>, Quantity)>::empty());
        s
    }

    /// The number of levels.
    pub fn len(&self) -> (n: usize)
        ensures
            n == self@.len(),
    {
        self.levels.len()
    }

    /// Whether the side has no level.
    pub fn is_empty(&self) -> (e: bool)
        ensures
            e == (self@.len() == 0),
    {
        self.levels.len() == 0
    }

    /// A copy of the `i`-th level, counted from the lowest price.
    pub fn level(&self, i: usize) -> (r: PriceLevel)
        requires
            i < self@.len(),
        ensures
            r@ == self@[i as int],
    {
        self.levels[i].clone()
    }

    /// A copy of all levels, lowest price first.
    pub fn levels(&self) -> (r: Vec<PriceLevel>)
        ensures
            ladder_of(r@) == self@,
    {
        let mut out: Vec<PriceLevel> = Vec::new();
        let mut i: usize = 0;
        while i < self.levels.len()
            invariant
                i <= self.levels.len(),
                out.len() == i,
                forall|j: int| 0 <= j < i ==> out@[j]@ == self.levels@[j]@,
            decreases self.levels.len() - i,
        {
            out.push(self.levels[i].clone());
            i = i + 1;
        }
        assert(ladder_of(out@) =~= self@);
        out
    }

    /// The position at which `price` stands, or would stand.
    pub fn position(&self, price: &str) -> (i: usize)
        requires
            self.wf(),
        ensures
            is_slot(self@, price@, i as int),
            i == slot(self@, price@),
    {
        let mut i: usize = 0;
        let mut found: bool = false;
        while i < self.levels.len() && !found
            invariant
                self.wf(),
                i <= self.levels.len(),
                forall|j: int| 0 <= j < i ==> lex_lt(#[trigger] self@[j].0, price@),
                found ==> i < self.levels.len() && !lex_lt(self@[i as int].0, price@),
            decreases self.levels.len() - i + (if found { 0int } else { 1int }),
        {
            match rank(self.levels[i].price.as_str(), price) {
                Rank::Before => {
                    i = i + 1;
                },
                _ => {
                    found = true;
                },
            }
        }
        proof {
            let l = self@;
            assert forall|j: int| i <= j < l.len() implies !lex_lt(#[trigger] l[j].0, price@) by {
                if i < j && lex_lt(l[j].0, price@) {
                    lemma_lex_lt_transitive(l[i as int].0, l[j].0, price@);
                }
            }
            lemma_slot_unique(l, price@, i as int);
        }
        i
    }

    /// The quantity resting at `price`, if the side has that price.
    pub fn quantity_at(&self, price: &str) -> (r: Option<Quantity>)
        requires
            self.wf(),
        ensures
            r == quantity_at(self@, price@),
            r.is_some() == has_price(self@, price@),
    {
        let i: usize = self.position(price);
        proof {
            lemma_has_price_at_slot(self@, price@);
        }
        if i < self.levels.len() {
            match rank(self.levels[i].price.as_str(), price) {
                Rank::Same => Some(self.levels[i].quantity),
                _ => None,
            }
        } else {
            None
        }
    }

    /// Sets the level at `price` to `quantity`, inserting it in order where
    /// the price is new.
    pub fn set(&mut self, price: String, quantity: Quantity)
        requires
            old(self).wf(),
        ensures
            final(self).wf(),
            final(self)@ == upsert(old(self)@, price@, quantity),
    {
        let i: usize = self.position(price.as_str());
        let ghost before = self@;
        let ghost key = price@;
        proof {
            lemma_upsert_sorted(before, key, quantity);
        }
        let mut present: bool = false;
        if i < self.levels.len() {
            match rank(self.levels[i].price.as_str(), price.as_str()) {
                Rank::Same => {
                    present = true;
                },
                _ => {},
            }
        }
        if present {
            self.levels.set(i, PriceLevel { price, quantity });
            assert(self@ =~= before.update(i as int, (key, quantity)));
        } else {
            self.levels.insert(i, PriceLevel { price, quantity });
            assert(self@ =~= before.insert(i as int, (key, quantity)));
        }
    }

    /// Removes the level at `price`, if there is one, and says whether there
    /// was.
    pub fn remove(&mut self, price: &str) -> (removed: bool)
        requires
            old(self).wf(),
        ensures
            final(self).wf(),
            final(self)@ == without(old(self)@, price@),
            removed == has_price(old(self)@, price@),
    {
        let i: usize = self.position(price);
        let ghost before = self@;
        proof {
            lemma_without_sorted(before, price@);
            lemma_has_price_at_slot(before, price@);
        }
        let mut present: bool = false;
        if i < self.levels.len() {
            match rank(self.levels[i].price.as_str(), price) {
                Rank::Same => {
                    present = true;
                },
                _ => {},
            }
        }
        if present {
            self.levels.remove(i);
            assert(self@ =~= before.remove(i as int));
        }
        present
    }

    /// Drops the highest prices until at most `depth` levels are left.
    pub fn keep_lowest(&mut self, depth: usize)
        requires
            old(self).wf(),
        ensures
            final(self).wf(),
            final(self)@ == keep_lowest(old(self)@, depth as nat),
    {
        let ghost before = self@;
        proof {
            lemma_keep_sorted(before, depth as nat);
        }
        while self.levels.len() > depth
            invariant
                self.levels.len() <= before.len(),
                before.len() > depth ==> self.levels.len() >= depth,
                before.len() <= depth ==> self.levels.len() == before.len(),
                self@ =~= before.take(self.levels.len() as int),
            decreases self.levels.len(),
        {
            self.levels.pop();
        }
        assert(before.take(before.len() as int) =~= before);
    }

    /// Drops the lowest prices until at most `depth` levels are left.
    pub fn keep_highest(&mut self, depth: usize)
        requires
            old(self).wf(),
        ensures
            final(self).wf(),
            final(self)@ == keep_highest(old(self)@, depth as nat),
    {
        let ghost before = self@;
        proof {
            lemma_keep_sorted(before, depth as nat);
        }
        while self.levels.len() > depth
            invariant
                self.levels.len() <= before.len(),
                before.len() > depth ==> self.levels.len() >= depth,
                before.len() <= depth ==> self.levels.len() == before.len(),
                self@ =~= before.skip(before.len() - self.levels.len()),
            decreases self.levels.len(),
        {
            let ghost prev = self@;
            self.levels.remove(0);
            assert(self@ =~= prev.remove(0));
        }
        assert(before.skip(0) =~= before);
    }
}

} // verus!
