//! Ladders: the mathematical model of one side of the book.
//!
//! A ladder is a sequence of `(price, quantity)` pairs. A well-formed ladder
//! is strictly increasing in price, so no price occurs twice and the position
//! of a price is determined.

use vstd::prelude::*;
use crate::price::{lex_lt, lemma_lex_lt_irreflexive, lemma_lex_lt_transitive, lemma_lex_lt_asymmetric};
use crate::quantity::Quantity;

verus! {

/// One side of the book as a value: its levels from the lowest price up.
pub type Ladder = Seq<(Seq<char>, Quantity)>;

/// Strictly increasing in price.
pub open spec fn sorted(l: Ladder) -> bool {
    forall|i: int, j: int| 0 <= i < j < l.len() ==> lex_lt(#[trigger] l[i].0, #[trigger] l[j].0)
}

/// `i` is where `price` belongs in `l`: every level in front of `i` has a
/// lower price, and no level from `i` on has.
pub open spec fn is_slot(l: Ladder, price: Seq<char>, i: int) -> bool {
    &&& 0 <= i <= l.len()
    &&& forall|j: int| 0 <= j < i ==> lex_lt(#[trigger] l[j].0, price)
    &&& forall|j: int| i <= j < l.len() ==> !lex_lt(#[trigger] l[j].0, price)
}

/// The position at which `price` stands in `l`, or would stand if it were
/// inserted.
pub open spec fn slot(l: Ladder, price: Seq<char>) -> int {
    choose|i: int| is_slot(l, price, i)
}

/// Whether `l` has a level at `price`.
pub open spec fn has_price(l: Ladder, price: Seq<char>) -> bool {
    exists|i: int| 0 <= i < l.len() && #[trigger] l[i].0 == price
}

/// The quantity that `l` holds at `price`, if any.
pub open spec fn quantity_at(l: Ladder, price: Seq<char>) -> Option<Quantity> {
    if has_price(l, price) {
        Some(l[slot(l, price)].1)
    } else {
        None
    }
}

/// `l` with the level at `price` set to `quantity`: overwritten where the
/// price is present, inserted in order where it is not.
pub open spec fn upsert(l: Ladder, price: Seq<char>, quantity: Quantity) -> Ladder {
    let i = slot(l, price);
    if 0 <= i < l.len() && l[i].0 == price {
        l.update(i, (price, quantity))
    } else {
        l.insert(i, (price, quantity))
    }
}

/// `l` without the level at `price`; `l` itself where the price is absent.
pub open spec fn without(l: Ladder, price: Seq<char>) -> Ladder {
    let i = slot(l, price);
    if 0 <= i < l.len() && l[i].0 == price {
        l.remove(i)
    } else {
        l
    }
}

/// `l` cut down to `depth` levels by dropping the highest prices.
pub open spec fn keep_lowest(l: Ladder, depth: nat) -> Ladder {
    if l.len() > depth {
        l.take(depth as int)
    } else {
        l
    }
}

/// `l` cut down to `depth` levels by dropping the lowest prices.
pub open spec fn keep_highest(l: Ladder, depth: nat) -> Ladder {
    if l.len() > depth {
        l.skip(l.len() - depth)
    } else {
        l
    }
}

/// A position that meets `is_slot` is the slot.
pub proof fn lemma_slot_unique(l: Ladder, price: Seq<char>, i: int)
    requires
        is_slot(l, price, i),
    ensures
        slot(l, price) == i,
{
    let k = slot(l, price);
    assert(is_slot(l, price, k));
    if k < i {
        assert(lex_lt(l[k].0, price));
    } else if i < k {
        assert(lex_lt(l[i].0, price));
    }
}

/// Every well-formed ladder has a slot for every price.
pub proof fn lemma_slot_exists(l: Ladder, price: Seq<char>)
    requires
        sorted(l),
    ensures
        is_slot(l, price, slot(l, price)),
    decreases l.len(),
{
    if l.len() == 0 {
        assert(is_slot(l, price, 0));
    } else if lex_lt(l.last().0, price) {
        assert forall|j: int| 0 <= j < l.len() implies lex_lt(#[trigger] l[j].0, price) by {
            if j < l.len() - 1 {
                lemma_lex_lt_transitive(l[j].0, l.last().0, price);
            }
        }
        assert(is_slot(l, price, l.len() as int));
    } else {
        let front = l.drop_last();
        assert(sorted(front));
        lemma_slot_exists(front, price);
        let k = slot(front, price);
        assert forall|j: int| 0 <= j < k implies lex_lt(#[trigger] l[j].0, price) by {
            assert(l[j] == front[j]);
        }
        assert forall|j: int| k <= j < l.len() implies !lex_lt(#[trigger] l[j].0, price) by {
            if j < front.len() {
                assert(l[j] == front[j]);
            }
        }
        assert(is_slot(l, price, k));
    }
}

/// In a well-formed ladder a price that is present stands at its slot.
pub proof fn lemma_present_at_slot(l: Ladder, price: Seq<char>, i: int)
    requires
        sorted(l),
        0 <= i < l.len(),
        l[i].0 == price,
    ensures
        slot(l, price) == i,
        has_price(l, price),
        quantity_at(l, price) == Some(l[i].1),
{
    lemma_lex_lt_irreflexive(price);
    assert forall|j: int| i <= j < l.len() implies !lex_lt(#[trigger] l[j].0, price) by {
        if i < j {
            lemma_lex_lt_asymmetric(l[i].0, l[j].0);
        }
    }
    assert(is_slot(l, price, i));
    lemma_slot_unique(l, price, i);
}

/// In a well-formed ladder a price is present exactly if it stands at its
/// slot.
pub proof fn lemma_has_price_at_slot(l: Ladder, price: Seq<char>)
    requires
        sorted(l),
    ensures
        has_price(l, price) <==> (slot(l, price) < l.len() && l[slot(l, price)].0 == price),
        0 <= slot(l, price) <= l.len(),
{
    lemma_slot_exists(l, price);
    if has_price(l, price) {
        let i = choose|i: int| 0 <= i < l.len() && #[trigger] l[i].0 == price;
        lemma_present_at_slot(l, price, i);
    }
}

/// Setting a level keeps the ladder well-formed.
pub proof fn lemma_upsert_sorted(l: Ladder, price: Seq<char>, quantity: Quantity)
    requires
        sorted(l),
    ensures
        sorted(upsert(l, price, quantity)),
{
    lemma_slot_exists(l, price);
    let i = slot(l, price);
    let r = upsert(l, price, quantity);
    if i < l.len() && l[i].0 == price {
        assert forall|a: int, b: int| 0 <= a < b < r.len() implies lex_lt(
            #[trigger] r[a].0,
            #[trigger] r[b].0,
        ) by {
            assert(r[a].0 == l[a].0);
            assert(r[b].0 == l[b].0);
        }
    } else {
        lemma_neighbours_above(l, price);
        assert forall|a: int, b: int| 0 <= a < b < r.len() implies lex_lt(
            #[trigger] r[a].0,
            #[trigger] r[b].0,
        ) by {
            if b < i {
                assert(r[a] == l[a] && r[b] == l[b]);
            } else if b == i {
                assert(r[a] == l[a]);
            } else if a < i {
                assert(r[a] == l[a] && r[b] == l[b - 1]);
            } else if a == i {
                assert(r[b] == l[b - 1]);
            } else {
                assert(r[a] == l[a - 1] && r[b] == l[b - 1]);
            }
        }
    }
}

/// Where `price` is absent from a well-formed ladder, every level from its
/// slot on has a higher price.
pub proof fn lemma_neighbours_above(l: Ladder, price: Seq<char>)
    requires
        sorted(l),
        !has_price(l, price),
    ensures
        forall|j: int| slot(l, price) <= j < l.len() ==> lex_lt(price, #[trigger] l[j].0),
{
    lemma_slot_exists(l, price);
    assert forall|j: int| slot(l, price) <= j < l.len() implies lex_lt(price, #[trigger] l[j].0) by {
        crate::price::lemma_lex_total(l[j].0, price);
    }
}

/// Removing a level keeps the ladder well-formed.
pub proof fn lemma_without_sorted(l: Ladder, price: Seq<char>)
    requires
        sorted(l),
    ensures
        sorted(without(l, price)),
{
    lemma_slot_exists(l, price);
    let i = slot(l, price);
    let r = without(l, price);
    if i < l.len() && l[i].0 == price {
        assert forall|a: int, b: int| 0 <= a < b < r.len() implies lex_lt(
            #[trigger] r[a].0,
            #[trigger] r[b].0,
        ) by {
            let a0 = if a < i { a } else { a + 1 };
            let b0 = if b < i { b } else { b + 1 };
            assert(r[a] == l[a0] && r[b] == l[b0]);
        }
    }
}

/// What a ladder holds at each price after a level was set: the new
/// quantity at that price, and what it held before at every other.
pub proof fn lemma_upsert_quantity_at(l: Ladder, price: Seq<char>, quantity: Quantity, k: Seq<char>)
    requires
        sorted(l),
    ensures
        quantity_at(upsert(l, price, quantity), k) == (if k == price {
            Some(quantity)
        } else {
            quantity_at(l, k)
        }),
{
    lemma_slot_exists(l, price);
    lemma_upsert_sorted(l, price, quantity);
    let i = slot(l, price);
    let r = upsert(l, price, quantity);
    let replaced = i < l.len() && l[i].0 == price;
    assert(r[i] == (price, quantity));
    if k == price {
        lemma_present_at_slot(r, price, i);
    } else if has_price(l, k) {
        let j = choose|j: int| 0 <= j < l.len() && #[trigger] l[j].0 == k;
        lemma_present_at_slot(l, k, j);
        let j2 = if replaced || j < i { j } else { j + 1 };
        assert(r[j2] == l[j]);
        lemma_present_at_slot(r, k, j2);
    } else if has_price(r, k) {
        let j = choose|j: int| 0 <= j < r.len() && #[trigger] r[j].0 == k;
        let j0 = if replaced || j < i { j } else { j - 1 };
        assert(l[j0] == r[j]);
        assert(l[j0].0 == k);
    }
}

/// What a ladder holds at each price once its highest level is dropped.
pub proof fn lemma_drop_last_quantity_at(l: Ladder, k: Seq<char>)
    requires
        sorted(l),
        l.len() > 0,
    ensures
        sorted(l.drop_last()),
        quantity_at(l.drop_last(), k) == (if k == l.last().0 {
            None
        } else {
            quantity_at(l, k)
        }),
{
    let front = l.drop_last();
    assert(sorted(front)) by {
        assert forall|a: int, b: int| 0 <= a < b < front.len() implies lex_lt(
            #[trigger] front[a].0,
            #[trigger] front[b].0,
        ) by {
            assert(front[a] == l[a] && front[b] == l[b]);
        }
    }
    if has_price(front, k) {
        let i = choose|i: int| 0 <= i < front.len() && #[trigger] front[i].0 == k;
        assert(front[i] == l[i]);
        lemma_present_at_slot(front, k, i);
        lemma_present_at_slot(l, k, i);
        if k == l.last().0 {
            assert(lex_lt(l[i].0, l[l.len() - 1].0));
            lemma_lex_lt_irreflexive(k);
        }
    } else if k != l.last().0 && has_price(l, k) {
        let i = choose|i: int| 0 <= i < l.len() && #[trigger] l[i].0 == k;
        assert(front[i] == l[i]);
        assert(front[i].0 == k);
    }
}

/// Two well-formed ladders that hold the same quantity at every price are
/// the same ladder.
pub proof fn lemma_sorted_extensional(a: Ladder, b: Ladder)
    requires
        sorted(a),
        sorted(b),
        forall|k: Seq<char>| #[trigger] quantity_at(a, k) == quantity_at(b, k),
    ensures
        a == b,
    decreases a.len(),
{
    if a.len() == 0 {
        if b.len() > 0 {
            lemma_present_at_slot(b, b[0].0, 0);
            assert(quantity_at(a, b[0].0) == quantity_at(b, b[0].0));
        }
        assert(a =~= b);
    } else {
        let ka = a.last().0;
        lemma_present_at_slot(a, ka, a.len() - 1);
        assert(quantity_at(a, ka) == quantity_at(b, ka));
        assert(has_price(b, ka));
        let j = choose|j: int| 0 <= j < b.len() && #[trigger] b[j].0 == ka;
        lemma_present_at_slot(b, ka, j);
        let kb = b.last().0;
        lemma_present_at_slot(b, kb, b.len() - 1);
        assert(quantity_at(a, kb) == quantity_at(b, kb));
        assert(has_price(a, kb));
        let i = choose|i: int| 0 <= i < a.len() && #[trigger] a[i].0 == kb;
        if j < b.len() - 1 {
            assert(lex_lt(b[j].0, b[b.len() - 1].0));
            if i < a.len() - 1 {
                assert(lex_lt(a[i].0, a[a.len() - 1].0));
                lemma_lex_lt_asymmetric(ka, kb);
            } else {
                lemma_lex_lt_irreflexive(ka);
            }
        }
        assert(a.last() == b.last());
        let a0 = a.drop_last();
        let b0 = b.drop_last();
        assert forall|k: Seq<char>| #[trigger] quantity_at(a0, k) == quantity_at(b0, k) by {
            lemma_drop_last_quantity_at(a, k);
            lemma_drop_last_quantity_at(b, k);
            assert(quantity_at(a, k) == quantity_at(b, k));
        }
        lemma_drop_last_quantity_at(a, ka);
        lemma_drop_last_quantity_at(b, ka);
        lemma_sorted_extensional(a0, b0);
        assert(a =~= a0.push(a.last()));
        assert(b =~= b0.push(b.last()));
    }
}

/// Removing a price never makes a ladder longer.
pub proof fn lemma_without_shorter(l: Ladder, price: Seq<char>)
    ensures
        without(l, price).len() <= l.len(),
{
}

/// Cutting a ladder down keeps it well-formed.
pub proof fn lemma_keep_sorted(l: Ladder, depth: nat)
    requires
        sorted(l),
    ensures
        sorted(keep_lowest(l, depth)),
        sorted(keep_highest(l, depth)),
{
    let lo = keep_lowest(l, depth);
    assert forall|a: int, b: int| 0 <= a < b < lo.len() implies lex_lt(
        #[trigger] lo[a].0,
        #[trigger] lo[b].0,
    ) by {
        assert(lo[a] == l[a] && lo[b] == l[b]);
    }
    let hi = keep_highest(l, depth);
    let d = l.len() - hi.len();
    assert forall|a: int, b: int| 0 <= a < b < hi.len() implies lex_lt(
        #[trigger] hi[a].0,
        #[trigger] hi[b].0,
    ) by {
        assert(hi[a] == l[a + d] && hi[b] == l[b + d]);
    }
}

} // verus!
