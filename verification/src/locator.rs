//! Locating an item inside a borrowed sequence.
//!
//! An [`ItemLocator`] resolves a reference to an item into the item's
//! position in the sequence. Exactly one of two strategies is selected per
//! concrete item type, at the point where the ranker is built:
//!
//! * [`ValueEq`] scans for the first element equal by value to the queried
//!   item; it is available whenever the item type compares for equality.
//! * [`Identity`] scans for the element stored at the same location as the
//!   queried reference; an equal-but-distinct copy is deliberately not
//!   found. It fits any item type and is the default choice where value
//!   equality is unavailable.

use vstd::prelude::*;

verus! {

use vstd::slice::slice_index_get;
use vstd::std_specs::cmp::PartialEqSpec;

/// `i` is the first position of `s` whose element the strategy `loc` takes
/// for the queried item.
pub open spec fn found_at<T, L: ItemLocator<T>>(loc: L, s: Seq<T>, item: T, i: int) -> bool {
    &&& 0 <= i < s.len()
    &&& loc.same_item(s[i], item)
    &&& forall|j: int| 0 <= j < i ==> !loc.same_item(s[j], item)
}

/// Some position of `s` holds an element the strategy `loc` takes for the
/// queried item.
pub open spec fn has_match<T, L: ItemLocator<T>>(loc: L, s: Seq<T>, item: T) -> bool {
    exists|j: int| 0 <= j < s.len() && loc.same_item(s[j], item)
}

/// A comparison strategy that resolves an item to its position in a
/// sequence.
///
/// `same_item` is the strategy's notion of "this element is the queried
/// item". A strategy whose answers are pinned down by that notion reports
/// `reliable()`: its `None` then proves absence and its `Some` carries the
/// first match. A strategy may instead be sound only — whatever position it
/// returns holds a matching element, but nothing is promised of when it
/// finds one — and then `reliable()` is false.
pub trait ItemLocator<T>: Sized {
    /// Whether the strategy takes the element `elem` for the queried item.
    spec fn same_item(&self, elem: T, item: T) -> bool;

    /// Whether `item_index` is fully described by `same_item`.
    spec fn reliable(&self) -> bool;

    /// The position of the queried item in the sequence, or `None` when the
    /// strategy does not find it.
    fn item_index(&self, sp: &[T], item: &T) -> (r: Option<usize>)
        ensures
            (r matches Some(i) ==> i < sp@.len() && self.same_item(sp@[i as int], *item)),
            self.reliable() ==> match r {
                Some(i) => i < sp@.len() && self.same_item(sp@[i as int], *item) && forall|j: int|
                    0 <= j < i ==> !self.same_item(sp@[j], *item),
                None => forall|j: int| 0 <= j < sp@.len() ==> !self.same_item(sp@[j], *item),
            },
    ;
}

/// Relies on core::ptr::eq: it returns true only when both references
/// denote the same storage location, and two references to the same
/// location carry equal values.
#[verifier::external_body]
fn same_address<T>(a: &T, b: &T) -> (r: bool)
    ensures
        r ==> *a == *b,
{
    core::ptr::eq(a, b)
}

/// The identity strategy: an element counts as the queried item only when
/// the queried reference points at that very element of the sequence, never
/// at an equal-but-distinct copy.
///
/// Storage locations lie outside what contracts can speak of, so the
/// strategy is sound but not reliable: a returned position holds a value
/// equal to the queried item, while `None` promises nothing.
pub struct Identity;

impl<T> ItemLocator<T> for Identity {
    open spec fn same_item(&self, elem: T, item: T) -> bool {
        elem == item
    }

    open spec fn reliable(&self) -> bool {
        false
    }

    fn item_index(&self, sp: &[T], item: &T) -> (r: Option<usize>) {
        let n = sp.len();
        let mut j: usize = 0;
        while j < n
            invariant
                n == sp@.len(),
                j <= n,
            decreases n - j,
        {
            if same_address(slice_index_get(sp, j), item) {
                return Some(j);
            }
            j = j + 1;
        }
        None
    }
}

/// The value-equality strategy: an element counts as the queried item when
/// the two compare equal, wherever each is stored.
///
/// It is reliable exactly where the item type's equality obeys its
/// specification (`obeys_eq_spec`); the strategy's notion of a match is then
/// the type's own `eq_spec`.
pub struct ValueEq;

impl<T: PartialEq> ItemLocator<T> for ValueEq {
    open spec fn same_item(&self, elem: T, item: T) -> bool {
        T::obeys_eq_spec() ==> elem.eq_spec(&item)
    }

    open spec fn reliable(&self) -> bool {
        T::obeys_eq_spec()
    }

    fn item_index(&self, sp: &[T], item: &T) -> (r: Option<usize>) {
        let n = sp.len();
        let mut j: usize = 0;
        while j < n
            invariant
                n == sp@.len(),
                j <= n,
                T::obeys_eq_spec() ==> forall|k: int| 0 <= k < j ==> !sp@[k].eq_spec(item),
            decreases n - j,
        {
            if slice_index_get(sp, j).eq(item) {
                return Some(j);
            }
            j = j + 1;
        }
        None
    }
}

/// At most one position is the first match.
pub proof fn lemma_found_at_unique<T, L: ItemLocator<T>>(loc: L, s: Seq<T>, item: T, i: int, j: int)
    requires
        found_at(loc, s, item, i),
        found_at(loc, s, item, j),
    ensures
        i == j,
{
    if i < j {
        assert(loc.same_item(s[i], item));
        assert(false);
    }
    if j < i {
        assert(loc.same_item(s[j], item));
        assert(false);
    }
}

/// Law: under the value-equality strategy, two equal queried items resolve
/// to the same first position — wherever the item type's equality obeys its
/// specification and is an equivalence, an equal-but-distinct copy locates
/// the item just as the original does.
pub proof fn lemma_value_eq_same_position<T: PartialEq>(s: Seq<T>, a: T, b: T, i: int, j: int)
    requires
        vstd::laws_eq::obeys_eq::<T>(),
        a.eq_spec(&b),
        found_at(ValueEq, s, a, i),
        found_at(ValueEq, s, b, j),
    ensures
        i == j,
{
    reveal(vstd::laws_eq::obeys_eq_spec_properties);
    let loc = ValueEq;
    assert forall|k: int| 0 <= k < s.len() implies (loc.same_item(s[k], a) <==> loc.same_item(
        s[k],
        b,
    )) by {
        assert(b.eq_spec(&a));
        if s[k].eq_spec(&a) {
            assert(s[k].eq_spec(&b));
        }
        if s[k].eq_spec(&b) {
            assert(s[k].eq_spec(&a));
        }
    }
    if i < j {
        assert(loc.same_item(s[i], a));
        assert(false);
    }
    if j < i {
        assert(loc.same_item(s[j], b));
        assert(false);
    }
}

/// Wherever some position matches, a first matching position exists.
pub proof fn lemma_first_match_exists<T, L: ItemLocator<T>>(loc: L, s: Seq<T>, item: T, j: int)
    requires
        0 <= j < s.len(),
        loc.same_item(s[j], item),
    ensures
        exists|i: int| found_at(loc, s, item, i),
    decreases j,
{
    if forall|k: int| 0 <= k < j ==> !loc.same_item(s[k], item) {
        assert(found_at(loc, s, item, j));
    } else {
        let k = choose|k: int| 0 <= k < j && loc.same_item(s[k], item);
        lemma_first_match_exists(loc, s, item, k);
    }
}

} // verus!
