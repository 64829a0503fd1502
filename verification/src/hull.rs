//! What holds of the bounds of a sequence of items, however they were folded.

use crate::primitives::{Bounded2D, BoundingBox, Bounds};
use vstd::prelude::*;
use vstd::seq_lib::to_multiset_contains;

verus! {

/// `b` is the smallest box around `items`: it encloses the bounds of each item, and each of
/// its four ends is the matching end of some item's bounds.
pub open spec fn is_least_box<T: Bounded2D>(b: Bounds, items: Seq<T>) -> bool {
    &&& forall|i: int| 0 <= i < items.len() ==> b.encloses((#[trigger] items[i]).bounds_spec())
    &&& exists|i: int| 0 <= i < items.len() && (#[trigger] items[i]).bounds_spec().x.min == b.x.min
    &&& exists|i: int| 0 <= i < items.len() && (#[trigger] items[i]).bounds_spec().x.max == b.x.max
    &&& exists|i: int| 0 <= i < items.len() && (#[trigger] items[i]).bounds_spec().y.min == b.y.min
    &&& exists|i: int| 0 <= i < items.len() && (#[trigger] items[i]).bounds_spec().y.max == b.y.max
}

/// Union is commutative, associative and idempotent, and the absent box is its identity.
pub proof fn lemma_union_laws(a: BoundingBox, b: BoundingBox, c: BoundingBox)
    ensures
        a.union(b) == b.union(a),
        a.union(b).union(c) == a.union(b.union(c)),
        a.union(a) == a,
        a.union(BoundingBox::Empty) == a,
        BoundingBox::Empty.union(a) == a,
{
}

/// The union of two boxes is the smallest box that encloses both: it encloses them, and
/// whatever encloses them encloses it. The union of valid boxes is valid.
pub proof fn lemma_union_is_least(a: Bounds, b: Bounds, outer: Bounds)
    ensures
        a.union(b).encloses(a),
        a.union(b).encloses(b),
        outer.encloses(a) && outer.encloses(b) ==> outer.encloses(a.union(b)),
        a.valid() && b.valid() ==> a.union(b).valid(),
{
}

/// The bounds of no items are absent; the bounds of some items are the smallest box around them.
pub proof fn lemma_union_of_least<T: Bounded2D>(items: Seq<T>)
    ensures
        items.len() == 0 <==> BoundingBox::union_of(items) == BoundingBox::Empty,
        items.len() > 0 ==> BoundingBox::union_of(items) is Valid && is_least_box(
            BoundingBox::union_of(items)->0,
            items,
        ),
    decreases items.len(),
{
    if items.len() > 0 {
        let front = items.drop_last();
        let last = items.len() - 1;
        let lb = items[last].bounds_spec();
        lemma_union_of_least(front);
        let b = BoundingBox::union_of(items)->0;
        if front.len() == 0 {
            assert(b == lb);
            assert(is_least_box(b, items));
        } else {
            let fb = BoundingBox::union_of(front)->0;
            assert(b == fb.union(lb));
            assert forall|i: int| 0 <= i < items.len() implies b.encloses(
                (#[trigger] items[i]).bounds_spec(),
            ) by {
                if i < last {
                    assert(fb.encloses(front[i].bounds_spec()));
                }
            }
            let i0 = choose|i: int|
                0 <= i < front.len() && (#[trigger] front[i]).bounds_spec().x.min == fb.x.min;
            let i1 = choose|i: int|
                0 <= i < front.len() && (#[trigger] front[i]).bounds_spec().x.max == fb.x.max;
            let i2 = choose|i: int|
                0 <= i < front.len() && (#[trigger] front[i]).bounds_spec().y.min == fb.y.min;
            let i3 = choose|i: int|
                0 <= i < front.len() && (#[trigger] front[i]).bounds_spec().y.max == fb.y.max;
            let j0 = if fb.x.min <= lb.x.min { i0 } else { last };
            let j1 = if fb.x.max >= lb.x.max { i1 } else { last };
            let j2 = if fb.y.min <= lb.y.min { i2 } else { last };
            let j3 = if fb.y.max >= lb.y.max { i3 } else { last };
            assert(items[j0].bounds_spec().x.min == b.x.min) by {
                assert(front[i0] == items[i0]);
            }
            assert(items[j1].bounds_spec().x.max == b.x.max) by {
                assert(front[i1] == items[i1]);
            }
            assert(items[j2].bounds_spec().y.min == b.y.min) by {
                assert(front[i2] == items[i2]);
            }
            assert(items[j3].bounds_spec().y.max == b.y.max) by {
                assert(front[i3] == items[i3]);
            }
            assert(is_least_box(b, items));
        }
    }
}

/// There is one smallest box around given items at most.
pub proof fn lemma_least_box_unique<T: Bounded2D>(a: Bounds, b: Bounds, items: Seq<T>)
    requires
        is_least_box(a, items),
        is_least_box(b, items),
    ensures
        a == b,
{
}

/// The bounds of two sequences, one after the other, are the union of their bounds.
pub proof fn lemma_union_of_concat<T: Bounded2D>(a: Seq<T>, b: Seq<T>)
    ensures
        BoundingBox::union_of(a + b) == BoundingBox::union_of(a).union(BoundingBox::union_of(b)),
    decreases b.len(),
{
    if b.len() == 0 {
        assert(a + b == a);
    } else {
        lemma_union_of_concat(a, b.drop_last());
        assert((a + b).drop_last() == a + b.drop_last());
        assert((a + b).last() == b.last());
    }
}

/// The bounds of a sequence do not depend on the order of its items: two sequences that hold
/// the same items as often have the same bounds.
pub proof fn lemma_union_of_permutation<T: Bounded2D>(a: Seq<T>, b: Seq<T>)
    requires
        a.to_multiset() == b.to_multiset(),
    ensures
        BoundingBox::union_of(a) == BoundingBox::union_of(b),
{
    a.to_multiset_ensures();
    b.to_multiset_ensures();
    lemma_union_of_least(a);
    lemma_union_of_least(b);
    if a.len() > 0 {
        let ba = BoundingBox::union_of(a)->0;
        let bb = BoundingBox::union_of(b)->0;
        assert forall|i: int| 0 <= i < a.len() implies (exists|j: int|
            0 <= j < b.len() && b[j] == #[trigger] a[i]) by {
            assert(a.contains(a[i]));
            to_multiset_contains(a, a[i]);
            to_multiset_contains(b, a[i]);
        }
        assert forall|j: int| 0 <= j < b.len() implies (exists|i: int|
            0 <= i < a.len() && a[i] == #[trigger] b[j]) by {
            assert(b.contains(b[j]));
            to_multiset_contains(a, b[j]);
            to_multiset_contains(b, b[j]);
        }
        assert(is_least_box(ba, b)) by {
            lemma_least_box_carries(ba, a, b);
        }
        lemma_least_box_unique(ba, bb, b);
    }
}

/// A smallest box around `a` is one around `b`, where each item of either occurs in the other.
proof fn lemma_least_box_carries<T: Bounded2D>(box_a: Bounds, a: Seq<T>, b: Seq<T>)
    requires
        is_least_box(box_a, a),
        forall|i: int| 0 <= i < a.len() ==> (exists|j: int| 0 <= j < b.len() && b[j] == #[trigger] a[i]),
        forall|j: int| 0 <= j < b.len() ==> (exists|i: int| 0 <= i < a.len() && a[i] == #[trigger] b[j]),
    ensures
        is_least_box(box_a, b),
{
    assert forall|j: int| 0 <= j < b.len() implies box_a.encloses(
        (#[trigger] b[j]).bounds_spec(),
    ) by {
        let i = choose|i: int| 0 <= i < a.len() && a[i] == b[j];
        assert(box_a.encloses(a[i].bounds_spec()));
    }
    let i0 = choose|i: int| 0 <= i < a.len() && (#[trigger] a[i]).bounds_spec().x.min == box_a.x.min;
    let i1 = choose|i: int| 0 <= i < a.len() && (#[trigger] a[i]).bounds_spec().x.max == box_a.x.max;
    let i2 = choose|i: int| 0 <= i < a.len() && (#[trigger] a[i]).bounds_spec().y.min == box_a.y.min;
    let i3 = choose|i: int| 0 <= i < a.len() && (#[trigger] a[i]).bounds_spec().y.max == box_a.y.max;
    let j0 = choose|j: int| 0 <= j < b.len() && b[j] == a[i0];
    let j1 = choose|j: int| 0 <= j < b.len() && b[j] == a[i1];
    let j2 = choose|j: int| 0 <= j < b.len() && b[j] == a[i2];
    let j3 = choose|j: int| 0 <= j < b.len() && b[j] == a[i3];
    assert(b[j0].bounds_spec().x.min == box_a.x.min);
    assert(b[j1].bounds_spec().x.max == box_a.x.max);
    assert(b[j2].bounds_spec().y.min == box_a.y.min);
    assert(b[j3].bounds_spec().y.max == box_a.y.max);
}

/// The bounds of items whose own bounds are valid are valid.
pub proof fn lemma_union_of_valid<T: Bounded2D>(items: Seq<T>)
    requires
        forall|i: int| 0 <= i < items.len() ==> (#[trigger] items[i]).bounds_spec().valid(),
    ensures
        BoundingBox::union_of(items) matches BoundingBox::Valid(b) ==> b.valid(),
    decreases items.len(),
{
    if items.len() > 0 {
        let front = items.drop_last();
        assert forall|i: int| 0 <= i < front.len() implies (#[trigger] front[i]).bounds_spec().valid() by {
            assert(front[i] == items[i]);
        }
        lemma_union_of_valid(front);
        assert(items.last() == items[items.len() - 1]);
    }
}

} // verus!
