//! Sorting items by the side of a split coordinate on which their bounds lie.

use crate::primitives::{Axis, Bounded2D, Placement, Side};
use vstd::prelude::*;

verus! {

/// Holds of the items whose bounds lie on `side` of the coordinate `twice_split / 2` along
/// `axis`.
pub open spec fn on_side<T: Bounded2D>(axis: Axis, twice_split: int, side: Side) -> spec_fn(
    T,
) -> bool {
    |item: T| item.bounds_spec().along(axis).side_of(twice_split) == side
}

/// Sorts `items` into those entirely below the split coordinate, those that straddle it and
/// those entirely at or above it, each in the order in which they came.
pub fn split_along<T: Bounded2D>(items: Vec<T>, axis: Axis, twice_split: i128) -> (parts: (
    Vec<T>,
    Vec<T>,
    Vec<T>,
))
    ensures
        parts.0@ == items@.filter(on_side(axis, twice_split as int, Side::Negative)),
        parts.1@ == items@.filter(on_side(axis, twice_split as int, Side::Straddling)),
        parts.2@ == items@.filter(on_side(axis, twice_split as int, Side::Positive)),
{
    let mut items_negative: Vec<T> = Vec::new();
    let mut items_here: Vec<T> = Vec::new();
    let mut items_positive: Vec<T> = Vec::new();
    let ghost all = items@;
    for item in it: items
        invariant
            it.seq() == all,
            items_negative@ == all.take(it.index() as int).filter(
                on_side(axis, twice_split as int, Side::Negative),
            ),
            items_here@ == all.take(it.index() as int).filter(
                on_side(axis, twice_split as int, Side::Straddling),
            ),
            items_positive@ == all.take(it.index() as int).filter(
                on_side(axis, twice_split as int, Side::Positive),
            ),
    {
        proof {
            reveal(Seq::filter);
            assert(all.take(it.index() + 1).drop_last() == all.take(it.index() as int));
        }
        match item.bounds().range(axis).side(twice_split) {
            Side::Negative => items_negative.push(item),
            Side::Positive => items_positive.push(item),
            Side::Straddling => items_here.push(item),
        }
    }
    proof {
        assert(all.take(all.len() as int) == all);
    }
    (items_negative, items_here, items_positive)
}

/// A filter that rejects one of the items yields fewer items than it was given.
pub proof fn lemma_filter_drops<A>(s: Seq<A>, pred: spec_fn(A) -> bool, i: int)
    requires
        0 <= i < s.len(),
        !pred(s[i]),
    ensures
        s.filter(pred).len() < s.len(),
    decreases s.len(),
{
    reveal(Seq::filter);
    let front = s.drop_last();
    front.lemma_filter_len(pred);
    if i < s.len() - 1 {
        lemma_filter_drops(front, pred, i);
    }
}

/// The three sides part the items: each item is on one side, and on one only.
pub proof fn lemma_sides_partition<T: Bounded2D>(items: Seq<T>, axis: Axis, twice_split: int)
    ensures
        items.to_multiset() == items.filter(on_side(axis, twice_split, Side::Straddling)).to_multiset().add(
            items.filter(on_side(axis, twice_split, Side::Negative)).to_multiset(),
        ).add(items.filter(on_side(axis, twice_split, Side::Positive)).to_multiset()),
    decreases items.len(),
{
    broadcast use vstd::seq_lib::group_to_multiset_ensures;

    reveal(Seq::filter);
    if items.len() == 0 {
        assert(items.to_multiset() =~= items.filter(
            on_side(axis, twice_split, Side::Straddling),
        ).to_multiset().add(
            items.filter(on_side(axis, twice_split, Side::Negative)).to_multiset(),
        ).add(items.filter(on_side(axis, twice_split, Side::Positive)).to_multiset()));
    } else {
        let front = items.drop_last();
        lemma_sides_partition(front, axis, twice_split);
        assert(items == front.push(items.last()));
        assert(items.to_multiset() =~= items.filter(
            on_side(axis, twice_split, Side::Straddling),
        ).to_multiset().add(
            items.filter(on_side(axis, twice_split, Side::Negative)).to_multiset(),
        ).add(items.filter(on_side(axis, twice_split, Side::Positive)).to_multiset()));
    }
}

/// Holds of the items whose bounds have the placement `place` relative to the point
/// `(twice_x / 2, twice_y / 2)`.
pub open spec fn in_place<T: Bounded2D>(twice_x: int, twice_y: int, place: Placement) -> spec_fn(
    T,
) -> bool {
    |item: T| item.bounds_spec().placement(twice_x, twice_y) == place
}

/// Sorts `items` by their placement relative to the point `(twice_x / 2, twice_y / 2)`:
/// those that cross one of its coordinates first, then those of the four quadrants, top left,
/// bottom left, top right and bottom right; each in the order in which they came.
pub fn split_in_four<T: Bounded2D>(items: Vec<T>, twice_x: i128, twice_y: i128) -> (parts: (
    Vec<T>,
    Vec<T>,
    Vec<T>,
    Vec<T>,
    Vec<T>,
))
    ensures
        parts.0@ == items@.filter(in_place(twice_x as int, twice_y as int, Placement::Crossing)),
        parts.1@ == items@.filter(in_place(twice_x as int, twice_y as int, Placement::TopLeft)),
        parts.2@ == items@.filter(
            in_place(twice_x as int, twice_y as int, Placement::BottomLeft),
        ),
        parts.3@ == items@.filter(in_place(twice_x as int, twice_y as int, Placement::TopRight)),
        parts.4@ == items@.filter(
            in_place(twice_x as int, twice_y as int, Placement::BottomRight),
        ),
{
    let mut items_crossing_mid: Vec<T> = Vec::new();
    let mut items_tl: Vec<T> = Vec::new();
    let mut items_bl: Vec<T> = Vec::new();
    let mut items_tr: Vec<T> = Vec::new();
    let mut items_br: Vec<T> = Vec::new();
    let ghost all = items@;
    let ghost tx = twice_x as int;
    let ghost ty = twice_y as int;
    for item in it: items
        invariant
            it.seq() == all,
            tx == twice_x,
            ty == twice_y,
            items_crossing_mid@ == all.take(it.index() as int).filter(
                in_place(tx, ty, Placement::Crossing),
            ),
            items_tl@ == all.take(it.index() as int).filter(in_place(tx, ty, Placement::TopLeft)),
            items_bl@ == all.take(it.index() as int).filter(
                in_place(tx, ty, Placement::BottomLeft),
            ),
            items_tr@ == all.take(it.index() as int).filter(
                in_place(tx, ty, Placement::TopRight),
            ),
            items_br@ == all.take(it.index() as int).filter(
                in_place(tx, ty, Placement::BottomRight),
            ),
    {
        proof {
            reveal(Seq::filter);
            assert(all.take(it.index() + 1).drop_last() == all.take(it.index() as int));
        }
        match item.bounds().place(twice_x, twice_y) {
            Placement::TopLeft => items_tl.push(item),
            Placement::BottomLeft => items_bl.push(item),
            Placement::TopRight => items_tr.push(item),
            Placement::BottomRight => items_br.push(item),
            Placement::Crossing => items_crossing_mid.push(item),
        }
    }
    proof {
        assert(all.take(all.len() as int) == all);
    }
    (items_crossing_mid, items_tl, items_bl, items_tr, items_br)
}

/// The five placements part the items: each item has one placement, and one only.
pub proof fn lemma_places_partition<T: Bounded2D>(items: Seq<T>, twice_x: int, twice_y: int)
    ensures
        items.to_multiset() == items.filter(
            in_place(twice_x, twice_y, Placement::Crossing),
        ).to_multiset().add(
            items.filter(in_place(twice_x, twice_y, Placement::TopLeft)).to_multiset(),
        ).add(items.filter(in_place(twice_x, twice_y, Placement::BottomLeft)).to_multiset()).add(
            items.filter(in_place(twice_x, twice_y, Placement::TopRight)).to_multiset(),
        ).add(items.filter(in_place(twice_x, twice_y, Placement::BottomRight)).to_multiset()),
    decreases items.len(),
{
    broadcast use vstd::seq_lib::group_to_multiset_ensures;

    reveal(Seq::filter);
    let parts = |s: Seq<T>|
        s.filter(in_place(twice_x, twice_y, Placement::Crossing)).to_multiset().add(
            s.filter(in_place(twice_x, twice_y, Placement::TopLeft)).to_multiset(),
        ).add(s.filter(in_place(twice_x, twice_y, Placement::BottomLeft)).to_multiset()).add(
            s.filter(in_place(twice_x, twice_y, Placement::TopRight)).to_multiset(),
        ).add(s.filter(in_place(twice_x, twice_y, Placement::BottomRight)).to_multiset());
    if items.len() == 0 {
        assert(items.to_multiset() =~= parts(items));
    } else {
        let front = items.drop_last();
        lemma_places_partition(front, twice_x, twice_y);
        assert(items == front.push(items.last()));
        assert(items.to_multiset() =~= parts(items));
    }
}

} // verus!
