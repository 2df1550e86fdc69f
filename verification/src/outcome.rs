//! The outcome of a pairwise query, as a mathematical function.
//!
//! `winner_spec` says, for a locator strategy, a sequence and two queried
//! items, what a reliable query returns: the laws of the ranker — the winner
//! does not depend on the order of the queried items, an item against itself
//! is a draw, an absent item is an error, and two items at distinct
//! positions always produce a winner — are stated and proved of it here.

use vstd::prelude::*;

verus! {

use crate::cycle::{beats, lemma_beats_exhaustive};
use crate::locator::{found_at, has_match, lemma_first_match_exists, lemma_found_at_unique, ItemLocator};
use crate::Error;

/// What a query for the pair `(a, b)` returns, where the strategy `loc` is
/// reliable: the queried item whose position beats the other's, `None` when
/// both resolve to the same position, and `Error::ItemNotFound` when either
/// is absent.
pub open spec fn winner_spec<T, L: ItemLocator<T>>(loc: L, s: Seq<T>, a: T, b: T) -> Result<
    Option<T>,
    Error,
> {
    if has_match(loc, s, a) && has_match(loc, s, b) {
        let x = choose|i: int| found_at(loc, s, a, i);
        let y = choose|i: int| found_at(loc, s, b, i);
        if x == y {
            Ok(None)
        } else if beats(s.len() as int, y, x) {
            Ok(Some(b))
        } else {
            Ok(Some(a))
        }
    } else {
        Err(Error::ItemNotFound)
    }
}

/// A query's returned references, read as the values they point at.
pub open spec fn outcome_value<T>(r: Result<Option<&T>, Error>) -> Result<Option<T>, Error> {
    match r {
        Ok(Some(w)) => Ok(Some(*w)),
        Ok(None) => Ok(None),
        Err(e) => Err(e),
    }
}

/// Law: the outcome does not depend on the order of the two queried items —
/// both orders report the same winner, draw or error.
pub proof fn lemma_winner_commutative<T, L: ItemLocator<T>>(loc: L, s: Seq<T>, a: T, b: T)
    requires
        s.len() % 2 == 1,
    ensures
        winner_spec(loc, s, a, b) == winner_spec(loc, s, b, a),
{
    if has_match(loc, s, a) && has_match(loc, s, b) {
        let ja = choose|j: int| 0 <= j < s.len() && loc.same_item(s[j], a);
        let jb = choose|j: int| 0 <= j < s.len() && loc.same_item(s[j], b);
        lemma_first_match_exists(loc, s, a, ja);
        lemma_first_match_exists(loc, s, b, jb);
        let x = choose|i: int| found_at(loc, s, a, i);
        let y = choose|i: int| found_at(loc, s, b, i);
        if x != y {
            lemma_beats_exhaustive(s.len() as int, x, y);
        }
    }
}

/// Law: an item queried against itself is a draw whenever it is present.
pub proof fn lemma_winner_reflexive_draw<T, L: ItemLocator<T>>(loc: L, s: Seq<T>, a: T)
    requires
        has_match(loc, s, a),
    ensures
        winner_spec(loc, s, a, a) == Ok::<Option<T>, Error>(None),
{
}

/// Law: a query with an item that no position matches fails with
/// `Error::ItemNotFound`.
pub proof fn lemma_winner_not_found<T, L: ItemLocator<T>>(loc: L, s: Seq<T>, a: T, b: T)
    requires
        !has_match(loc, s, a) || !has_match(loc, s, b),
    ensures
        winner_spec(loc, s, a, b) == Err::<Option<T>, Error>(Error::ItemNotFound),
{
}

/// Law: two items first found at distinct positions never draw — exactly one
/// of the two is reported the winner, by the cyclic rule on their positions.
pub proof fn lemma_winner_decides<T, L: ItemLocator<T>>(
    loc: L,
    s: Seq<T>,
    a: T,
    b: T,
    x: int,
    y: int,
)
    requires
        s.len() % 2 == 1,
        found_at(loc, s, a, x),
        found_at(loc, s, b, y),
        x != y,
    ensures
        beats(s.len() as int, y, x) <==> !beats(s.len() as int, x, y),
        winner_spec(loc, s, a, b) == (if beats(s.len() as int, y, x) {
            Ok::<Option<T>, Error>(Some(b))
        } else {
            Ok::<Option<T>, Error>(Some(a))
        }),
{
    lemma_beats_exhaustive(s.len() as int, x, y);
    assert(has_match(loc, s, a));
    assert(has_match(loc, s, b));
    let xc = choose|i: int| found_at(loc, s, a, i);
    let yc = choose|i: int| found_at(loc, s, b, i);
    lemma_found_at_unique(loc, s, a, xc, x);
    lemma_found_at_unique(loc, s, b, yc, y);
}

} // verus!
