//! The cyclic "beats" relation on positions of an odd-length ring.
//!
//! The `n` positions `0 .. n-1` are arranged in a ring. Each position beats
//! the `pivot(n) = (n-1)/2` positions that follow it clockwise and loses to
//! the `pivot(n)` positions that precede it, so for an odd `n` the positions
//! other than one's own split evenly into beaten and beating halves.

use vstd::prelude::*;

verus! {

use vstd::arithmetic::div_mod::{
    lemma_add_mod_noop_right,
    lemma_fundamental_div_mod_converse,
    lemma_mod_pos_bound,
    lemma_mod_self_0,
    lemma_small_mod,
};

/// How many of the following positions a position beats: half the ring,
/// leaving the position itself out.
pub open spec fn pivot(n: int) -> int {
    (n - 1) / 2
}

/// The position `w` beats the position `l`: `w` lies at most `pivot(n)` steps
/// clockwise after `l` on the ring of `n` positions.
pub open spec fn beats(n: int, w: int, l: int) -> bool {
    exists|i: int| 1 <= i <= pivot(n) && #[trigger] ((l + i) % n) == w
}

/// The clockwise distance from `l` to `w` on a ring of `n` positions.
pub open spec fn step_delta(n: int, w: int, l: int) -> int {
    if w >= l {
        w - l
    } else {
        w - l + n
    }
}

/// `w` beats `l` exactly when the clockwise distance from `l` to `w` is
/// between `1` and `pivot(n)`.
pub proof fn lemma_beats_iff_delta(n: int, w: int, l: int)
    requires
        1 <= n,
        0 <= w < n,
        0 <= l < n,
    ensures
        beats(n, w, l) <==> 1 <= step_delta(n, w, l) <= pivot(n),
{
    let p = pivot(n);
    let d = step_delta(n, w, l);
    if beats(n, w, l) {
        let i = choose|i: int| 1 <= i <= pivot(n) && #[trigger] ((l + i) % n) == w;
        assert(p < n);
        if l + i < n {
            lemma_small_mod((l + i) as nat, n as nat);
            assert(w == l + i);
            assert(d == i);
        } else {
            lemma_fundamental_div_mod_converse(l + i, n, 1, l + i - n);
            assert(w == l + i - n);
            assert(d == i);
        }
    }
    if 1 <= d <= p {
        if w >= l {
            lemma_small_mod(w as nat, n as nat);
            assert((l + d) % n == w);
            assert(beats(n, w, l));
        } else {
            lemma_fundamental_div_mod_converse(w + n, n, 1, w);
            assert((l + d) % n == w);
            assert(beats(n, w, l));
        }
    }
}

/// No position beats itself: a draw can only come from meeting one's own
/// position.
pub proof fn lemma_beats_irreflexive(n: int, x: int)
    requires
        1 <= n,
        0 <= x < n,
    ensures
        !beats(n, x, x),
{
    lemma_beats_iff_delta(n, x, x);
}

/// Law: on an odd ring, of two distinct positions exactly one beats the
/// other — never both, never neither.
pub proof fn lemma_beats_exhaustive(n: int, x: int, y: int)
    requires
        n % 2 == 1,
        0 <= x < n,
        0 <= y < n,
        x != y,
    ensures
        beats(n, x, y) <==> !beats(n, y, x),
{
    let p = pivot(n);
    assert((n - 1) % 2 == 0);
    assert(n == 2 * p + 1);
    lemma_beats_iff_delta(n, x, y);
    lemma_beats_iff_delta(n, y, x);
    assert(step_delta(n, x, y) + step_delta(n, y, x) == n);
}

/// Stepping a cursor that tracks `(base + i) % n` one place around the ring.
pub(crate) proof fn lemma_cycle_step(n: int, base: int, i: int, c: int)
    requires
        1 <= n,
        0 <= base,
        0 <= i,
        c == (base + i) % n,
    ensures
        (if c + 1 == n {
            0int
        } else {
            c + 1
        }) == (base + i + 1) % n,
{
    lemma_mod_pos_bound(base + i, n);
    lemma_add_mod_noop_right(1, base + i, n);
    assert((1 + c) % n == (base + i + 1) % n);
    if c + 1 == n {
        lemma_mod_self_0(n);
    } else {
        lemma_small_mod((c + 1) as nat, n as nat);
    }
}

} // verus!
