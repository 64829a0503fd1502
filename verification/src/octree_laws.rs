//! What holds of every quad tree that was built from a sequence of items.

use crate::hull::{lemma_union_of_concat, lemma_union_of_permutation};
use crate::octree::{lemma_quarters_shrink, quad_split, OctreeNode};
use crate::partition::{in_place, lemma_places_partition};
use crate::primitives::{Bounded2D, BoundingBox, Placement};
use vstd::prelude::*;
use vstd::seq_lib::{lemma_multiset_commutative, to_multiset_contains};

verus! {

/// Each item that the tree was built from is held by one node of it, and by one only: the
/// items of all nodes together are the given items, each as often as it was given.
pub proof fn lemma_quad_holds_each_item_once<T: Bounded2D>(
    node: OctreeNode<T>,
    items: Seq<T>,
    threshold: usize,
)
    requires
        node.is_tree_of(items, threshold),
    ensures
        node.flatten().to_multiset() == items.to_multiset(),
    decreases node,
{
    match quad_split(items, threshold) {
        None => {},
        Some((tx, ty)) => {
            let quads = node.children->0;
            lemma_quad_holds_each_item_once(
                quads.top_left,
                items.filter(in_place(tx, ty, Placement::TopLeft)),
                threshold,
            );
            lemma_quad_holds_each_item_once(
                quads.bottom_left,
                items.filter(in_place(tx, ty, Placement::BottomLeft)),
                threshold,
            );
            lemma_quad_holds_each_item_once(
                quads.top_right,
                items.filter(in_place(tx, ty, Placement::TopRight)),
                threshold,
            );
            lemma_quad_holds_each_item_once(
                quads.bottom_right,
                items.filter(in_place(tx, ty, Placement::BottomRight)),
                threshold,
            );
            lemma_places_partition(items, tx, ty);
            let one = node.items@ + quads.top_left.flatten();
            let two = one + quads.bottom_left.flatten();
            let three = two + quads.top_right.flatten();
            lemma_multiset_commutative(node.items@, quads.top_left.flatten());
            lemma_multiset_commutative(one, quads.bottom_left.flatten());
            lemma_multiset_commutative(two, quads.top_right.flatten());
            lemma_multiset_commutative(three, quads.bottom_right.flatten());
        },
    }
}

/// The bounds of a tree, taken from its items, are the bounds of all its items, whatever
/// its shape.
pub proof fn lemma_quad_recursive_bounds_of_flatten<T: Bounded2D>(node: OctreeNode<T>)
    ensures
        node.recursive_bounds() == BoundingBox::union_of(node.flatten()),
    decreases node,
{
    match node.children {
        None => {},
        Some(quads) => {
            lemma_quad_recursive_bounds_of_flatten(quads.top_left);
            lemma_quad_recursive_bounds_of_flatten(quads.bottom_left);
            lemma_quad_recursive_bounds_of_flatten(quads.top_right);
            lemma_quad_recursive_bounds_of_flatten(quads.bottom_right);
            let one = node.items@ + quads.top_left.flatten();
            let two = one + quads.bottom_left.flatten();
            let three = two + quads.top_right.flatten();
            lemma_union_of_concat(node.items@, quads.top_left.flatten());
            lemma_union_of_concat(one, quads.bottom_left.flatten());
            lemma_union_of_concat(two, quads.top_right.flatten());
            lemma_union_of_concat(three, quads.bottom_right.flatten());
        },
    }
}

/// The bounds of the tree, taken over its nodes, are the bounds of the items that it was
/// built from, taken directly; and they are the bounds that the root has kept.
pub proof fn lemma_quad_recursive_bounds_sound<T: Bounded2D>(
    node: OctreeNode<T>,
    items: Seq<T>,
    threshold: usize,
)
    requires
        node.is_tree_of(items, threshold),
    ensures
        node.recursive_bounds() == BoundingBox::union_of(items),
        node.recursive_bounds() == node.bounds,
{
    lemma_quad_recursive_bounds_of_flatten(node);
    lemma_quad_holds_each_item_once(node, items, threshold);
    lemma_union_of_permutation(node.flatten(), items);
}

/// No more items than the threshold make a leaf that holds them all; more make a node with
/// four subtrees, unless the bounds of all the items are one and the same point.
pub proof fn lemma_quad_leaf_threshold<T: Bounded2D>(
    node: OctreeNode<T>,
    items: Seq<T>,
    threshold: usize,
)
    requires
        node.is_tree_of(items, threshold),
    ensures
        items.len() <= threshold ==> node.children is None && node.items@ == items,
        node.children is Some <==> items.len() > threshold && BoundingBox::union_of(items)
            is Valid && BoundingBox::union_of(items)->0.has_extent(),
{
}

/// An item whose bounds reach over a coordinate of the midpoint stays at the node, wherever
/// it stood among the items; an item of a subtree lies entirely in that subtree's quadrant.
pub proof fn lemma_quad_crossing_stays<T: Bounded2D>(
    node: OctreeNode<T>,
    items: Seq<T>,
    threshold: usize,
)
    requires
        node.is_tree_of(items, threshold),
        node.children is Some,
    ensures
        node.bounds matches BoundingBox::Valid(rect) && {
            let tx = rect.x.twice_mid();
            let ty = rect.y.twice_mid();
            let quads = node.children->0;
            &&& forall|i: int|
                0 <= i < items.len() && (#[trigger] items[i]).bounds_spec().placement(tx, ty)
                    == Placement::Crossing ==> node.items@.contains(items[i])
            &&& forall|j: int|
                0 <= j < quads.top_left.flatten().len() ==> (
                #[trigger] quads.top_left.flatten()[j]).bounds_spec().placement(tx, ty)
                    == Placement::TopLeft
            &&& forall|j: int|
                0 <= j < quads.bottom_left.flatten().len() ==> (
                #[trigger] quads.bottom_left.flatten()[j]).bounds_spec().placement(tx, ty)
                    == Placement::BottomLeft
            &&& forall|j: int|
                0 <= j < quads.top_right.flatten().len() ==> (
                #[trigger] quads.top_right.flatten()[j]).bounds_spec().placement(tx, ty)
                    == Placement::TopRight
            &&& forall|j: int|
                0 <= j < quads.bottom_right.flatten().len() ==> (
                #[trigger] quads.bottom_right.flatten()[j]).bounds_spec().placement(tx, ty)
                    == Placement::BottomRight
        },
{
    let rect = node.bounds->0;
    let tx = rect.x.twice_mid();
    let ty = rect.y.twice_mid();
    let quads = node.children->0;
    let crossing = in_place::<T>(tx, ty, Placement::Crossing);
    assert forall|i: int| 0 <= i < items.len() && crossing(#[trigger] items[i]) implies node.items@.contains(
        items[i],
    ) by {
        items.lemma_filter_contains(crossing, i);
    }
    lemma_subtree_in_place(quads.top_left, items, threshold, tx, ty, Placement::TopLeft);
    lemma_subtree_in_place(quads.bottom_left, items, threshold, tx, ty, Placement::BottomLeft);
    lemma_subtree_in_place(quads.top_right, items, threshold, tx, ty, Placement::TopRight);
    lemma_subtree_in_place(quads.bottom_right, items, threshold, tx, ty, Placement::BottomRight);
}

/// The items of the tree of those items that have a placement all have that placement.
proof fn lemma_subtree_in_place<T: Bounded2D>(
    subtree: OctreeNode<T>,
    items: Seq<T>,
    threshold: usize,
    tx: int,
    ty: int,
    place: Placement,
)
    requires
        subtree.is_tree_of(items.filter(in_place(tx, ty, place)), threshold),
    ensures
        forall|j: int|
            0 <= j < subtree.flatten().len() ==> (#[trigger] subtree.flatten()[j]).bounds_spec().placement(
                tx,
                ty,
            ) == place,
{
    let pred = in_place::<T>(tx, ty, place);
    let given = items.filter(pred);
    lemma_quad_holds_each_item_once(subtree, given, threshold);
    assert forall|j: int| 0 <= j < subtree.flatten().len() implies pred(
        #[trigger] subtree.flatten()[j],
    ) by {
        let item = subtree.flatten()[j];
        assert(subtree.flatten().contains(item));
        to_multiset_contains(subtree.flatten(), item);
        to_multiset_contains(given, item);
        let k = choose|k: int| 0 <= k < given.len() && given[k] == item;
        items.lemma_filter_pred(pred, k);
    }
}

/// Each subdivision leaves each subtree with fewer items, so the tree is no higher than the
/// number of its items.
pub proof fn lemma_quad_height<T: Bounded2D>(node: OctreeNode<T>, items: Seq<T>, threshold: usize)
    requires
        node.is_tree_of(items, threshold),
    ensures
        node.height() <= items.len(),
    decreases node,
{
    match quad_split(items, threshold) {
        None => {},
        Some((tx, ty)) => {
            let quads = node.children->0;
            lemma_quarters_shrink(items, BoundingBox::union_of(items)->0);
            lemma_quad_height(
                quads.top_left,
                items.filter(in_place(tx, ty, Placement::TopLeft)),
                threshold,
            );
            lemma_quad_height(
                quads.bottom_left,
                items.filter(in_place(tx, ty, Placement::BottomLeft)),
                threshold,
            );
            lemma_quad_height(
                quads.top_right,
                items.filter(in_place(tx, ty, Placement::TopRight)),
                threshold,
            );
            lemma_quad_height(
                quads.bottom_right,
                items.filter(in_place(tx, ty, Placement::BottomRight)),
                threshold,
            );
        },
    }
}

/// A tree that was built is well formed: what holds of its root holds of each of its nodes.
pub proof fn lemma_quad_well_formed<T: Bounded2D>(
    node: OctreeNode<T>,
    items: Seq<T>,
    threshold: usize,
)
    requires
        node.is_tree_of(items, threshold),
    ensures
        node.well_formed(threshold),
    decreases node,
{
    lemma_quad_holds_each_item_once(node, items, threshold);
    lemma_union_of_permutation(node.flatten(), items);
    node.flatten().to_multiset_ensures();
    items.to_multiset_ensures();
    assert(quad_split(node.flatten(), threshold) == quad_split(items, threshold));
    match quad_split(items, threshold) {
        None => {},
        Some((tx, ty)) => {
            let quads = node.children->0;
            lemma_quad_crossing_stays(node, items, threshold);
            let crossing = in_place::<T>(tx, ty, Placement::Crossing);
            assert forall|i: int| 0 <= i < node.items@.len() implies crossing(
                #[trigger] node.items@[i],
            ) by {
                items.lemma_filter_pred(crossing, i);
            }
            lemma_quad_well_formed(
                quads.top_left,
                items.filter(in_place(tx, ty, Placement::TopLeft)),
                threshold,
            );
            lemma_quad_well_formed(
                quads.bottom_left,
                items.filter(in_place(tx, ty, Placement::BottomLeft)),
                threshold,
            );
            lemma_quad_well_formed(
                quads.top_right,
                items.filter(in_place(tx, ty, Placement::TopRight)),
                threshold,
            );
            lemma_quad_well_formed(
                quads.bottom_right,
                items.filter(in_place(tx, ty, Placement::BottomRight)),
                threshold,
            );
        },
    }
}

} // verus!
