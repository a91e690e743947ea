//! The order of prices: text compared code point by code point.

use vstd::prelude::*;

verus! {

/// `a` comes before `b` because of what stands at position `i`: both agree on
/// everything in front of `i`, and there `a` has ended while `b` goes on, or
/// `a` holds the smaller code point.
pub open spec fn precedes_at(a: Seq<char>, b: Seq<char>, i: int) -> bool {
    &&& 0 <= i <= a.len()
    &&& i < b.len()
    &&& forall|j: int| 0 <= j < i ==> a[j] == b[j]
    &&& (i == a.len() || (a[i] as int) < (b[i] as int))
}

/// Strict lexicographic order on prices as text.
pub open spec fn lex_lt(a: Seq<char>, b: Seq<char>) -> bool {
    exists|i: int| precedes_at(a, b, i)
}

/// How one price stands to another.
#[derive(Clone, Copy, PartialEq, Eq, Structural, Debug)]
pub enum Rank {
    Before,
    Same,
    After,
}

/// No price comes before itself.
pub proof fn lemma_lex_lt_irreflexive(a: Seq<char>)
    ensures
        !lex_lt(a, a),
{
}

/// The order is transitive.
pub proof fn lemma_lex_lt_transitive(a: Seq<char>, b: Seq<char>, c: Seq<char>)
    requires
        lex_lt(a, b),
        lex_lt(b, c),
    ensures
        lex_lt(a, c),
{
    let i = choose|i: int| precedes_at(a, b, i);
    let j = choose|j: int| precedes_at(b, c, j);
    let k = if i <= j { i } else { j };
    assert(precedes_at(a, c, k));
}

/// Two prices are never each before the other.
pub proof fn lemma_lex_lt_asymmetric(a: Seq<char>, b: Seq<char>)
    requires
        lex_lt(a, b),
    ensures
        !lex_lt(b, a),
{
    if lex_lt(b, a) {
        lemma_lex_lt_transitive(a, b, a);
        lemma_lex_lt_irreflexive(a);
    }
}

/// Of two different prices one comes before the other.
pub proof fn lemma_lex_total(a: Seq<char>, b: Seq<char>)
    ensures
        a == b || lex_lt(a, b) || lex_lt(b, a),
{
    lemma_first_difference(a, b, 0);
}

proof fn lemma_first_difference(a: Seq<char>, b: Seq<char>, i: int)
    requires
        0 <= i <= a.len(),
        i <= b.len(),
        forall|j: int| 0 <= j < i ==> a[j] == b[j],
    ensures
        a == b || lex_lt(a, b) || lex_lt(b, a),
    decreases a.len() - i,
{
    if i == a.len() && i == b.len() {
        assert(a =~= b);
    } else if i == a.len() {
        assert(precedes_at(a, b, i));
    } else if i == b.len() {
        assert(precedes_at(b, a, i));
    } else if a[i] == b[i] {
        lemma_first_difference(a, b, i + 1);
    } else if (a[i] as int) < (b[i] as int) {
        assert(precedes_at(a, b, i));
    } else {
        assert(precedes_at(b, a, i));
    }
}

/// Compares two prices as text.
pub fn rank(a: &str, b: &str) -> (r: Rank)
    ensures
        (r == Rank::Before) == lex_lt(a@, b@),
        (r == Rank::Same) == (a@ == b@),
        (r == Rank::After) == lex_lt(b@, a@),
{
    let n: usize = a.unicode_len();
    let m: usize = b.unicode_len();
    let mut i: usize = 0;
    while i < n && i < m
        invariant
            n == a@.len(),
            m == b@.len(),
            i <= n,
            i <= m,
            forall|j: int| 0 <= j < i ==> a@[j] == b@[j],
        decreases n - i,
    {
        let x: char = a.get_char(i);
        let y: char = b.get_char(i);
        if (x as u32) < (y as u32) {
            proof {
                assert(precedes_at(a@, b@, i as int));
                lemma_lex_lt_asymmetric(a@, b@);
                lemma_lex_lt_irreflexive(a@);
            }
            return Rank::Before;
        }
        if (y as u32) < (x as u32) {
            proof {
                assert(precedes_at(b@, a@, i as int));
                lemma_lex_lt_asymmetric(b@, a@);
                lemma_lex_lt_irreflexive(a@);
            }
            return Rank::After;
        }
        i = i + 1;
    }
    if i < m {
        proof {
            assert(precedes_at(a@, b@, i as int));
            lemma_lex_lt_asymmetric(a@, b@);
            lemma_lex_lt_irreflexive(a@);
        }
        Rank::Before
    } else if i < n {
        proof {
            assert(precedes_at(b@, a@, i as int));
            lemma_lex_lt_asymmetric(b@, a@);
            lemma_lex_lt_irreflexive(a@);
        }
        Rank::After
    } else {
        proof {
            assert(a@ =~= b@);
            lemma_lex_lt_irreflexive(a@);
        }
        Rank::Same
    }
}

} // verus!
