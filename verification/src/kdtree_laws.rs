//! What holds of every binary tree that was built from a sequence of items.

use crate::hull::{lemma_union_of_concat, lemma_union_of_least, lemma_union_of_permutation};
use crate::kdtree::{kd_split, lemma_split_shrinks, KDTreeNode};
use crate::partition::{lemma_sides_partition, on_side};
use crate::primitives::{Axis, Bounded2D, BoundingBox, Side};
use vstd::prelude::*;
use vstd::seq_lib::{lemma_multiset_commutative, to_multiset_contains};

verus! {

/// Each item that the tree was built from is held by one node of it, and by one only: the
/// items of all nodes together are the given items, each as often as it was given.
pub proof fn lemma_kd_holds_each_item_once<T: Bounded2D>(
    node: KDTreeNode<T>,
    items: Seq<T>,
    threshold: usize,
)
    requires
        node.is_tree_of(items, threshold),
    ensures
        node.flatten().to_multiset() == items.to_multiset(),
    decreases node,
{
    match kd_split(items, threshold) {
        None => {},
        Some((axis, twice_split)) => {
            let sub = node.subdivision->0;
            let below = items.filter(on_side(axis, twice_split, Side::Negative));
            let above = items.filter(on_side(axis, twice_split, Side::Positive));
            lemma_kd_holds_each_item_once(sub.negative, below, threshold);
            lemma_kd_holds_each_item_once(sub.positive, above, threshold);
            lemma_sides_partition(items, axis, twice_split);
            lemma_multiset_commutative(node.children@, sub.negative.flatten());
            lemma_multiset_commutative(
                node.children@ + sub.negative.flatten(),
                sub.positive.flatten(),
            );
        },
    }
}

/// The bounds of a tree are the bounds of its items, whatever its shape.
pub proof fn lemma_kd_recursive_bounds_of_flatten<T: Bounded2D>(node: KDTreeNode<T>)
    ensures
        node.recursive_bounds() == BoundingBox::union_of(node.flatten()),
    decreases node,
{
    match node.subdivision {
        None => {},
        Some(sub) => {
            lemma_kd_recursive_bounds_of_flatten(sub.negative);
            lemma_kd_recursive_bounds_of_flatten(sub.positive);
            lemma_union_of_concat(node.children@, sub.negative.flatten());
            lemma_union_of_concat(
                node.children@ + sub.negative.flatten(),
                sub.positive.flatten(),
            );
        },
    }
}

/// The bounds of the tree, taken over its nodes, are the bounds of the items that it was
/// built from, taken directly.
pub proof fn lemma_kd_recursive_bounds_sound<T: Bounded2D>(
    node: KDTreeNode<T>,
    items: Seq<T>,
    threshold: usize,
)
    requires
        node.is_tree_of(items, threshold),
    ensures
        node.recursive_bounds() == BoundingBox::union_of(items),
{
    lemma_kd_recursive_bounds_of_flatten(node);
    lemma_kd_holds_each_item_once(node, items, threshold);
    lemma_union_of_permutation(node.flatten(), items);
}

/// Fewer items than the threshold make a leaf that holds them all; from the threshold on the
/// node is subdivided, unless the bounds of all the items are one and the same point.
pub proof fn lemma_kd_leaf_threshold<T: Bounded2D>(
    node: KDTreeNode<T>,
    items: Seq<T>,
    threshold: usize,
)
    requires
        node.is_tree_of(items, threshold),
    ensures
        items.len() < threshold ==> node.subdivision is None && node.children@ == items,
        node.subdivision is Some <==> items.len() >= threshold && BoundingBox::union_of(items)
            is Valid && BoundingBox::union_of(items)->0.has_extent(),
{
}

/// The node is split along the axis on which the bounds of its items are wider, and along
/// the first axis where they are as wide as they are high; it is split at the midpoint.
pub proof fn lemma_kd_split_axis<T: Bounded2D>(
    node: KDTreeNode<T>,
    items: Seq<T>,
    threshold: usize,
)
    requires
        node.is_tree_of(items, threshold),
        node.subdivision is Some,
    ensures
        BoundingBox::union_of(items) matches BoundingBox::Valid(bounds) && {
            &&& node.subdivision->0.axis == Axis::X <==> bounds.x.extent() >= bounds.y.extent()
            &&& node.subdivision->0.axis == Axis::Y <==> bounds.y.extent() > bounds.x.extent()
            &&& node.subdivision->0.position == bounds.along(node.subdivision->0.axis).min
                + bounds.along(node.subdivision->0.axis).max
        },
{
}

/// An item whose bounds reach over the split coordinate stays at the node, wherever it
/// stood among the items; an item of either subtree lies entirely on that subtree's side.
pub proof fn lemma_kd_straddling_stays<T: Bounded2D>(
    node: KDTreeNode<T>,
    items: Seq<T>,
    threshold: usize,
)
    requires
        node.is_tree_of(items, threshold),
        node.subdivision is Some,
    ensures
        forall|i: int|
            0 <= i < items.len() && (#[trigger] items[i]).bounds_spec().along(
                node.subdivision->0.axis,
            ).side_of(node.subdivision->0.position as int) == Side::Straddling
                ==> node.children@.contains(items[i]),
        forall|j: int|
            0 <= j < node.subdivision->0.negative.flatten().len() ==> (
            #[trigger] node.subdivision->0.negative.flatten()[j]).bounds_spec().along(
                node.subdivision->0.axis,
            ).side_of(node.subdivision->0.position as int) == Side::Negative,
        forall|j: int|
            0 <= j < node.subdivision->0.positive.flatten().len() ==> (
            #[trigger] node.subdivision->0.positive.flatten()[j]).bounds_spec().along(
                node.subdivision->0.axis,
            ).side_of(node.subdivision->0.position as int) == Side::Positive,
{
    let sub = node.subdivision->0;
    let axis = sub.axis;
    let twice_split = sub.position as int;
    let here = on_side::<T>(axis, twice_split, Side::Straddling);
    let below = on_side::<T>(axis, twice_split, Side::Negative);
    let above = on_side::<T>(axis, twice_split, Side::Positive);
    assert forall|i: int| 0 <= i < items.len() && here(#[trigger] items[i]) implies node.children@.contains(
        items[i],
    ) by {
        items.lemma_filter_contains(here, i);
    }
    lemma_kd_holds_each_item_once(sub.negative, items.filter(below), threshold);
    lemma_kd_holds_each_item_once(sub.positive, items.filter(above), threshold);
    assert forall|j: int| 0 <= j < sub.negative.flatten().len() implies below(
        #[trigger] sub.negative.flatten()[j],
    ) by {
        let item = sub.negative.flatten()[j];
        assert(sub.negative.flatten().contains(item));
        to_multiset_contains(sub.negative.flatten(), item);
        to_multiset_contains(items.filter(below), item);
        let k = choose|k: int| 0 <= k < items.filter(below).len() && items.filter(below)[k] == item;
        items.lemma_filter_pred(below, k);
    }
    assert forall|j: int| 0 <= j < sub.positive.flatten().len() implies above(
        #[trigger] sub.positive.flatten()[j],
    ) by {
        let item = sub.positive.flatten()[j];
        assert(sub.positive.flatten().contains(item));
        to_multiset_contains(sub.positive.flatten(), item);
        to_multiset_contains(items.filter(above), item);
        let k = choose|k: int| 0 <= k < items.filter(above).len() && items.filter(above)[k] == item;
        items.lemma_filter_pred(above, k);
    }
}

/// Each subdivision leaves either subtree with fewer items, so the tree is no higher than
/// the number of its items.
pub proof fn lemma_kd_height<T: Bounded2D>(node: KDTreeNode<T>, items: Seq<T>, threshold: usize)
    requires
        node.is_tree_of(items, threshold),
    ensures
        node.height() <= items.len(),
    decreases node,
{
    match kd_split(items, threshold) {
        None => {},
        Some((axis, twice_split)) => {
            let sub = node.subdivision->0;
            let bounds = BoundingBox::union_of(items)->0;
            lemma_split_shrinks(items, bounds, axis);
            lemma_kd_height(
                sub.negative,
                items.filter(on_side(axis, twice_split, Side::Negative)),
                threshold,
            );
            lemma_kd_height(
                sub.positive,
                items.filter(on_side(axis, twice_split, Side::Positive)),
                threshold,
            );
        },
    }
}

/// A tree that was built is well formed: what holds of its root holds of each of its nodes.
pub proof fn lemma_kd_well_formed<T: Bounded2D>(
    node: KDTreeNode<T>,
    items: Seq<T>,
    threshold: usize,
)
    requires
        node.is_tree_of(items, threshold),
    ensures
        node.well_formed(threshold),
    decreases node,
{
    lemma_kd_holds_each_item_once(node, items, threshold);
    lemma_union_of_permutation(node.flatten(), items);
    node.flatten().to_multiset_ensures();
    items.to_multiset_ensures();
    assert(kd_split(node.flatten(), threshold) == kd_split(items, threshold));
    match kd_split(items, threshold) {
        None => {},
        Some((axis, twice_split)) => {
            let sub = node.subdivision->0;
            lemma_kd_straddling_stays(node, items, threshold);
            let here = on_side::<T>(axis, twice_split, Side::Straddling);
            assert forall|i: int| 0 <= i < node.children@.len() implies here(
                #[trigger] node.children@[i],
            ) by {
                items.lemma_filter_pred(here, i);
            }
            lemma_kd_well_formed(
                sub.negative,
                items.filter(on_side(axis, twice_split, Side::Negative)),
                threshold,
            );
            lemma_kd_well_formed(
                sub.positive,
                items.filter(on_side(axis, twice_split, Side::Positive)),
                threshold,
            );
        },
    }
}

} // verus!
