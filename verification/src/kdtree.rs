//! The binary tree that splits its items along the wider axis of their bounds.

use crate::hull::lemma_union_of_least;
use crate::kdtree_laws::{
    lemma_kd_height, lemma_kd_holds_each_item_once, lemma_kd_recursive_bounds_sound,
    lemma_kd_well_formed,
};
use crate::partition::{lemma_filter_drops, on_side, split_along};
use crate::primitives::{Axis, Bounded2D, BoundingBox, Bounds, Side};
use crate::MAX_ITEMS_PER_NODE;
use vstd::prelude::*;

verus! {

/// How a node of the binary tree is divided: the axis, the split coordinate and the two
/// subtrees, one for each half-plane.
pub struct KDTreeNodeSubdivision<T> where T: Bounded2D {
    pub axis: Axis,
    /// Twice the split coordinate: the sum of the two ends of the items' bounds on `axis`.
    pub position: i128,
    /// The items entirely below the split coordinate.
    pub negative: KDTreeNode<T>,
    /// The items entirely at or above the split coordinate.
    pub positive: KDTreeNode<T>,
}

/// A node of the binary tree: the items that stay here, and the subdivision if there is one.
pub struct KDTreeNode<T> where T: Bounded2D {
    pub children: Vec<T>,
    pub subdivision: Option<Box<KDTreeNodeSubdivision<T>>>,
}

/// The split that a node makes of `items`: along which axis, and at twice which coordinate.
/// A node splits once it holds `threshold` items, unless their bounds are a single point.
pub open spec fn kd_split<T: Bounded2D>(items: Seq<T>, threshold: usize) -> Option<(Axis, int)> {
    match BoundingBox::union_of(items) {
        BoundingBox::Valid(bounds) => if items.len() >= threshold && bounds.has_extent() {
            Some((bounds.wider_axis(), bounds.along(bounds.wider_axis()).twice_mid()))
        } else {
            None
        },
        BoundingBox::Empty => None,
    }
}

impl<T> KDTreeNode<T> where T: Bounded2D {
    /// This is the tree of `items`: a leaf that holds them all where they are not split;
    /// else the node holds those that straddle the split coordinate, in their order, and its
    /// two subtrees are the trees of those entirely below and of those entirely at or above.
    pub open spec fn is_tree_of(self, items: Seq<T>, threshold: usize) -> bool
        decreases self,
    {
        match kd_split(items, threshold) {
            None => self.subdivision is None && self.children@ == items,
            Some((axis, twice_split)) => {
                &&& self.subdivision matches Some(sub)
                &&& sub.axis == axis
                &&& sub.position == twice_split
                &&& self.children@ == items.filter(on_side(axis, twice_split, Side::Straddling))
                &&& sub.negative.is_tree_of(
                    items.filter(on_side(axis, twice_split, Side::Negative)),
                    threshold,
                )
                &&& sub.positive.is_tree_of(
                    items.filter(on_side(axis, twice_split, Side::Positive)),
                    threshold,
                )
            },
        }
    }

    /// The items of the whole tree: those of the node, then those of the subtree below the
    /// split coordinate, then those of the subtree at or above it.
    pub open spec fn flatten(self) -> Seq<T>
        decreases self,
    {
        match self.subdivision {
            None => self.children@,
            Some(sub) => self.children@ + sub.negative.flatten() + sub.positive.flatten(),
        }
    }

    /// The bounds of the whole tree: the union of the bounds of the node's own items and of
    /// the bounds of its two subtrees.
    pub open spec fn recursive_bounds(self) -> BoundingBox
        decreases self,
    {
        match self.subdivision {
            None => BoundingBox::union_of(self.children@),
            Some(sub) => BoundingBox::union_of(self.children@).union(
                sub.negative.recursive_bounds(),
            ).union(sub.positive.recursive_bounds()),
        }
    }

    /// The number of subdivisions on the longest way down from this node.
    pub open spec fn height(self) -> nat
        decreases self,
    {
        match self.subdivision {
            None => 0,
            Some(sub) => {
                let below = sub.negative.height();
                let above = sub.positive.height();
                1 + if below >= above { below } else { above }
            },
        }
    }

    /// What holds of each node of a tree that was built, whatever it was built from: the
    /// node is split where its items call for it, along the axis and at the coordinate that
    /// their bounds give; the items that it holds itself straddle that coordinate; and the
    /// items of either subtree lie entirely on that subtree's side of it.
    pub open spec fn well_formed(self, threshold: usize) -> bool
        decreases self,
    {
        match self.subdivision {
            None => kd_split(self.flatten(), threshold) is None,
            Some(sub) => {
                &&& kd_split(self.flatten(), threshold) == Some((sub.axis, sub.position as int))
                &&& forall|i: int|
                    0 <= i < self.children@.len() ==> on_side(
                        sub.axis,
                        sub.position as int,
                        Side::Straddling,
                    )(#[trigger] self.children@[i])
                &&& forall|i: int|
                    0 <= i < sub.negative.flatten().len() ==> on_side(
                        sub.axis,
                        sub.position as int,
                        Side::Negative,
                    )(#[trigger] sub.negative.flatten()[i])
                &&& forall|i: int|
                    0 <= i < sub.positive.flatten().len() ==> on_side(
                        sub.axis,
                        sub.position as int,
                        Side::Positive,
                    )(#[trigger] sub.positive.flatten()[i])
                &&& sub.negative.well_formed(threshold)
                &&& sub.positive.well_formed(threshold)
            },
        }
    }

    /// Builds the tree of `items` with the usual threshold: fewer items are not split.
    pub fn new(items: Vec<T>) -> (node: Self)
        ensures
            node.is_tree_of(items@, MAX_ITEMS_PER_NODE),
            node.well_formed(MAX_ITEMS_PER_NODE),
            node.flatten().to_multiset() == items@.to_multiset(),
            node.recursive_bounds() == BoundingBox::union_of(items@),
            node.height() <= items@.len() <= usize::MAX,
    {
        Self::with_threshold(items, MAX_ITEMS_PER_NODE)
    }

    /// Builds the tree of `items`, splitting a node once it holds `threshold` items.
    ///
    /// A node with fewer items is a leaf, and so is one whose bounds have no extent: its items
    /// all have one and the same point as their bounds, and no split would part them. Any other node is split at the
    /// midpoint of the bounds of its items, along the axis on which those bounds are wider.
    pub fn with_threshold(items: Vec<T>, threshold: usize) -> (node: Self)
        ensures
            node.is_tree_of(items@, threshold),
            node.well_formed(threshold),
            node.flatten().to_multiset() == items@.to_multiset(),
            node.recursive_bounds() == BoundingBox::union_of(items@),
            node.height() <= items@.len() <= usize::MAX,
        decreases items.len(),
    {
        let ghost all = items@;
        let split = if items.len() < threshold {
            None
        } else {
            match Bounds::from_items(items.as_slice()) {
                Some(bounds) => {
                    let axis = if bounds.y.size() > bounds.x.size() {
                        Axis::Y
                    } else {
                        Axis::X
                    };
                    if bounds.range(axis).size() > 0 {
                        proof {
                            lemma_split_shrinks(all, bounds, axis);
                        }
                        Some((axis, bounds.range(axis).twice_midpoint()))
                    } else {
                        None
                    }
                },
                None => None,
            }
        };
        let node = match split {
            None => KDTreeNode { children: items, subdivision: None },
            Some((axis, position)) => {
                let (items_negative, items_here, items_positive) = split_along(
                    items,
                    axis,
                    position,
                );
                KDTreeNode {
                    children: items_here,
                    subdivision: Some(
                        Box::new(
                            KDTreeNodeSubdivision {
                                axis,
                                position,
                                negative: KDTreeNode::with_threshold(items_negative, threshold),
                                positive: KDTreeNode::with_threshold(items_positive, threshold),
                            },
                        ),
                    ),
                }
            },
        };
        proof {
            lemma_kd_holds_each_item_once(node, all, threshold);
            lemma_kd_recursive_bounds_sound(node, all, threshold);
            lemma_kd_height(node, all, threshold);
            lemma_kd_well_formed(node, all, threshold);
        }
        node
    }

    /// The bounds of the items that the node itself holds.
    pub fn bounding_box(&self) -> (bounds: BoundingBox)
        ensures
            bounds == BoundingBox::union_of(self.children@),
    {
        BoundingBox::from_items(self.children.as_slice())
    }

    /// The bounds of the whole tree, computed anew from its items at each call.
    pub fn bounding_box_recursive(&self) -> (bounds: BoundingBox)
        ensures
            bounds == self.recursive_bounds(),
        decreases self,
    {
        let mut res = BoundingBox::from_items(self.children.as_slice());
        if let Some(sub) = &self.subdivision {
            res = res | sub.negative.bounding_box_recursive();
            res = res | sub.positive.bounding_box_recursive();
        }
        res
    }
}

/// A split at the midpoint of bounds that have extent leaves neither half-plane with all of
/// the items: the item that reaches the lower end is not entirely above, and the one that
/// reaches the upper end is not entirely below.
pub proof fn lemma_split_shrinks<T: Bounded2D>(items: Seq<T>, bounds: Bounds, axis: Axis)
    requires
        BoundingBox::union_of(items) == BoundingBox::Valid(bounds),
        bounds.along(axis).extent() > 0,
    ensures
        items.filter(on_side(axis, bounds.along(axis).twice_mid(), Side::Negative)).len()
            < items.len(),
        items.filter(on_side(axis, bounds.along(axis).twice_mid(), Side::Positive)).len()
            < items.len(),
{
    let twice_split = bounds.along(axis).twice_mid();
    lemma_union_of_least(items);
    let lo = match axis {
        Axis::X => choose|i: int|
            0 <= i < items.len() && (#[trigger] items[i]).bounds_spec().x.min == bounds.x.min,
        Axis::Y => choose|i: int|
            0 <= i < items.len() && (#[trigger] items[i]).bounds_spec().y.min == bounds.y.min,
    };
    let hi = match axis {
        Axis::X => choose|i: int|
            0 <= i < items.len() && (#[trigger] items[i]).bounds_spec().x.max == bounds.x.max,
        Axis::Y => choose|i: int|
            0 <= i < items.len() && (#[trigger] items[i]).bounds_spec().y.max == bounds.y.max,
    };
    assert(items[lo].bounds_spec().along(axis).min == bounds.along(axis).min);
    assert(items[hi].bounds_spec().along(axis).max == bounds.along(axis).max);
    lemma_filter_drops(items, on_side(axis, twice_split, Side::Negative), hi);
    lemma_filter_drops(items, on_side(axis, twice_split, Side::Positive), lo);
}

} // verus!
