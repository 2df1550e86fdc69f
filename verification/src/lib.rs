//! A generic rock-paper-scissors ranker over an odd-length cyclic sequence.
//!
//! A [`Rps`] borrows an odd-length sequence of distinct items arranged in a
//! ring and decides, for any two of its items, which one wins: each item
//! beats the half of the ring that follows it clockwise and loses to the
//! half that precedes it. Items are located in the sequence by a pluggable
//! [`ItemLocator`] strategy, chosen statically per item type: by value
//! equality where the type compares for equality, or by storage location
//! otherwise.

use vstd::prelude::*;

pub mod cycle;
pub mod locator;
pub mod outcome;

pub use crate::locator::{Identity, ItemLocator, ValueEq};

verus! {

use crate::cycle::{beats, lemma_beats_exhaustive, lemma_beats_irreflexive, lemma_cycle_step, pivot};
use crate::locator::{found_at, has_match, lemma_found_at_unique};
use crate::outcome::{outcome_value, winner_spec};
use vstd::arithmetic::div_mod::lemma_small_mod;

/// The ways a ranker operation can fail. Both are terminal,
/// caller-correctable conditions, never panics.
#[derive(Clone, Copy, Debug, PartialEq, Eq)]
pub enum Error {
    /// The sequence handed to the constructor has an even length (zero
    /// included), so the ring has no well-defined majority split.
    InvalidSequenceLength,
    /// A queried item could not be located in the sequence under the active
    /// comparison strategy.
    ItemNotFound,
}

/// A ranker over a borrowed, odd-length cyclic sequence of items.
///
/// It holds a read-only view of the sequence, its length `n`, the pivot
/// `p = (n - 1) / 2` — how many following positions any position beats —
/// and the locator strategy that resolves queried items to positions. It is
/// immutable and stateless after construction.
pub struct Rps<'a, T, L> {
    sp: &'a [T],
    n: usize,
    p: usize,
    locator: L,
}

impl<'a, T, L> Rps<'a, T, L> {
    /// The ranked sequence.
    pub closed spec fn sequence(self) -> Seq<T> {
        self.sp@
    }

    /// The locator strategy the ranker was built with.
    pub closed spec fn strategy(self) -> L {
        self.locator
    }

    #[verifier::type_invariant]
    spec fn well_formed(self) -> bool {
        &&& self.n == self.sp@.len()
        &&& self.n % 2 == 1
        &&& self.p == (self.n - 1) / 2
    }
}

impl<'a, T, L: ItemLocator<T>> Rps<'a, T, L> {
    /// Builds a ranker over `sp` with the given locator strategy.
    ///
    /// Succeeds exactly when the length of `sp` is odd; an even length
    /// (zero included) is rejected with `Error::InvalidSequenceLength`,
    /// since such a ring has no well-defined "beats" relation.
    pub fn new(sp: &'a [T], locator: L) -> (r: Result<Self, Error>)
        ensures
            match r {
                Ok(rps) => sp@.len() % 2 == 1 && rps.sequence() == sp@ && rps.strategy()
                    == locator,
                Err(e) => sp@.len() % 2 == 0 && e == Error::InvalidSequenceLength,
            },
    {
        let n = sp.len();
        if n % 2 != 0 {
            Ok(Rps { sp, n, p: (n - 1) / 2, locator })
        } else {
            Err(Error::InvalidSequenceLength)
        }
    }

    /// Decides the winner between the queried items `p1` and `p2`.
    ///
    /// Both items are resolved to positions by the ranker's strategy; if
    /// either is not found, the query fails with `Error::ItemNotFound`.
    /// Otherwise the queried item whose position beats the other's is
    /// returned, and two equal positions are a draw (`None`). Where the
    /// strategy is reliable the outcome equals `winner_spec`; whatever the
    /// strategy, a reported winner is one of the two queried items, backed
    /// by matching positions under the cyclic rule.
    #[verifier::loop_isolation(false)]
    pub fn winner(&self, p1: &'a T, p2: &'a T) -> (r: Result<Option<&'a T>, Error>)
        ensures
            self.strategy().reliable() ==> outcome_value(r) == winner_spec(
                self.strategy(),
                self.sequence(),
                *p1,
                *p2,
            ),
            r matches Ok(Some(w)) ==> (exists|x: int, y: int|
                {
                    &&& 0 <= x < self.sequence().len()
                    &&& 0 <= y < self.sequence().len()
                    &&& x != y
                    &&& #[trigger] self.strategy().same_item(self.sequence()[x], *p1)
                    &&& #[trigger] self.strategy().same_item(self.sequence()[y], *p2)
                    &&& ((*w == *p2 && beats(self.sequence().len() as int, y, x)) || (*w == *p1
                        && beats(self.sequence().len() as int, x, y)))
                }),
            r matches Ok(None) ==> (exists|x: int|
                {
                    &&& 0 <= x < self.sequence().len()
                    &&& #[trigger] self.strategy().same_item(self.sequence()[x], *p1)
                    &&& self.strategy().same_item(self.sequence()[x], *p2)
                }),
            r matches Err(e) ==> e == Error::ItemNotFound,
    {
        proof {
            use_type_invariant(&*self);
        }
        let ghost s = self.sp@;
        let ghost loc = self.locator;
        let n = self.n;
        let p = self.p;
        let ox = self.locator.item_index(self.sp, p1);
        let oy = self.locator.item_index(self.sp, p2);
        match (ox, oy) {
            (Some(x), Some(y)) => {
                let mut i: usize = 1;
                let mut cx: usize = if x + 1 == n {
                    0
                } else {
                    x + 1
                };
                let mut cy: usize = if y + 1 == n {
                    0
                } else {
                    y + 1
                };
                proof {
                    lemma_small_mod(x as nat, n as nat);
                    lemma_small_mod(y as nat, n as nat);
                    lemma_cycle_step(n as int, x as int, 0, x as int);
                    lemma_cycle_step(n as int, y as int, 0, y as int);
                }
                while i <= p
                    invariant
                        1 <= i <= p + 1,
                        cx < n,
                        cy < n,
                        cx as int == (x as int + i as int) % (n as int),
                        cy as int == (y as int + i as int) % (n as int),
                        forall|j: int|
                            1 <= j < i ==> #[trigger] ((x as int + j) % (n as int)) != y as int,
                        forall|j: int|
                            1 <= j < i ==> #[trigger] ((y as int + j) % (n as int)) != x as int,
                    decreases p + 1 - i,
                {
                    if cx == y {
                        proof {
                            winner_found(loc, s, *p1, *p2, x as int, y as int, i as int);
                        }
                        return Ok(Some(p2));
                    }
                    if cy == x {
                        proof {
                            winner_found(loc, s, *p2, *p1, y as int, x as int, i as int);
                        }
                        return Ok(Some(p1));
                    }
                    proof {
                        lemma_cycle_step(n as int, x as int, i as int, cx as int);
                        lemma_cycle_step(n as int, y as int, i as int, cy as int);
                    }
                    i = i + 1;
                    cx = if cx + 1 == n {
                        0
                    } else {
                        cx + 1
                    };
                    cy = if cy + 1 == n {
                        0
                    } else {
                        cy + 1
                    };
                }
                proof {
                    let ni = n as int;
                    let xi = x as int;
                    let yi = y as int;
                    assert(!beats(ni, yi, xi)) by {
                        if beats(ni, yi, xi) {
                            let j = choose|j: int|
                                1 <= j <= pivot(ni) && #[trigger] ((xi + j) % ni) == yi;
                            assert(1 <= j < i);
                            assert(false);
                        }
                    }
                    assert(!beats(ni, xi, yi)) by {
                        if beats(ni, xi, yi) {
                            let j = choose|j: int|
                                1 <= j <= pivot(ni) && #[trigger] ((yi + j) % ni) == xi;
                            assert(1 <= j < i);
                            assert(false);
                        }
                    }
                    if xi != yi {
                        lemma_beats_exhaustive(ni, xi, yi);
                        assert(false);
                    }
                    if loc.reliable() {
                        assert(found_at(loc, s, *p1, xi));
                        assert(found_at(loc, s, *p2, yi));
                        let xc = choose|i0: int| found_at(loc, s, *p1, i0);
                        let yc = choose|i0: int| found_at(loc, s, *p2, i0);
                        lemma_found_at_unique(loc, s, *p1, xc, xi);
                        lemma_found_at_unique(loc, s, *p2, yc, yi);
                        assert(has_match(loc, s, *p1));
                        assert(has_match(loc, s, *p2));
                    }
                }
                Ok(None)
            },
            _ => {
                proof {
                    if loc.reliable() {
                        if ox is None {
                            assert(!has_match(loc, s, *p1));
                        } else {
                            assert(!has_match(loc, s, *p2));
                        }
                    }
                }
                Err(Error::ItemNotFound)
            },
        }
    }
}

/// The facts that back a returned winner: the queried item `lose` sits at
/// position `x`, the queried item `win` at position `y`, and `y` lies `i`
/// steps clockwise after `x`, within pivot range — so `win` is the winner in
/// either query order.
proof fn winner_found<T, L: ItemLocator<T>>(
    loc: L,
    s: Seq<T>,
    lose: T,
    win: T,
    x: int,
    y: int,
    i: int,
)
    requires
        s.len() % 2 == 1,
        0 <= x < s.len(),
        0 <= y < s.len(),
        1 <= i <= pivot(s.len() as int),
        (x + i) % (s.len() as int) == y,
        loc.same_item(s[x], lose),
        loc.same_item(s[y], win),
        loc.reliable() ==> found_at(loc, s, lose, x) && found_at(loc, s, win, y),
    ensures
        x != y,
        beats(s.len() as int, y, x),
        !beats(s.len() as int, x, y),
        loc.reliable() ==> winner_spec(loc, s, lose, win) == Ok::<Option<T>, Error>(Some(win))
            && winner_spec(loc, s, win, lose) == Ok::<Option<T>, Error>(Some(win)),
{
    let ni = s.len() as int;
    assert(beats(ni, y, x));
    lemma_beats_irreflexive(ni, x);
    assert(x != y);
    lemma_beats_exhaustive(ni, x, y);
    if loc.reliable() {
        assert(has_match(loc, s, lose));
        assert(has_match(loc, s, win));
        let xc = choose|i0: int| found_at(loc, s, lose, i0);
        let yc = choose|i0: int| found_at(loc, s, win, i0);
        lemma_found_at_unique(loc, s, lose, xc, x);
        lemma_found_at_unique(loc, s, win, yc, y);
    }
}

} // verus!
