//! The tree that splits its items into the four quadrants around the midpoint of their
//! bounds.

use crate::hull::lemma_union_of_least;
use crate::octree_laws::{
    lemma_quad_height, lemma_quad_holds_each_item_once, lemma_quad_recursive_bounds_sound,
    lemma_quad_well_formed,
};
use crate::partition::{in_place, lemma_filter_drops, split_in_four};
use crate::primitives::{Bounded2D, BoundingBox, Bounds, Placement};
use crate::MAX_ITEMS_PER_NODE;
use vstd::prelude::*;

verus! {

/// The four subtrees of a subdivided node, one for each quadrant. The second axis points
/// down: the top quadrants hold the smaller second coordinates.
pub struct Quadrants<T> where T: Bounded2D {
    pub top_left: OctreeNode<T>,
    pub bottom_left: OctreeNode<T>,
    pub top_right: OctreeNode<T>,
    pub bottom_right: OctreeNode<T>,
}

/// A node of the quad tree: the bounds of all items of its subtree, as they were found when
/// the tree was built; the items that stay here; and the four subtrees, if it is subdivided.
pub struct OctreeNode<T> where T: Bounded2D {
    pub bounds: BoundingBox,
    pub items: Vec<T>,
    pub children: Option<Box<Quadrants<T>>>,
}

/// The point around which a node divides `items` in four, as twice its two coordinates: the
/// midpoint of their bounds. A node divides more than `threshold` items, unless their bounds
/// are a single point.
pub open spec fn quad_split<T: Bounded2D>(items: Seq<T>, threshold: usize) -> Option<(int, int)> {
    match BoundingBox::union_of(items) {
        BoundingBox::Valid(rect) => if items.len() > threshold && rect.has_extent() {
            Some((rect.x.twice_mid(), rect.y.twice_mid()))
        } else {
            None
        },
        BoundingBox::Empty => None,
    }
}

impl<T> OctreeNode<T> where T: Bounded2D {
    /// This is the tree of `items`. Its bounds are theirs. Where they are not divided it is
    /// a leaf that holds them all; else the node holds those that cross a coordinate of the
    /// midpoint, in their order, and its four subtrees are the trees of those that lie
    /// entirely in each quadrant.
    pub open spec fn is_tree_of(self, items: Seq<T>, threshold: usize) -> bool
        decreases self,
    {
        &&& self.bounds == BoundingBox::union_of(items)
        &&& match quad_split(items, threshold) {
            None => self.children is None && self.items@ == items,
            Some((twice_x, twice_y)) => {
                &&& self.children matches Some(quads)
                &&& self.items@ == items.filter(in_place(twice_x, twice_y, Placement::Crossing))
                &&& quads.top_left.is_tree_of(
                    items.filter(in_place(twice_x, twice_y, Placement::TopLeft)),
                    threshold,
                )
                &&& quads.bottom_left.is_tree_of(
                    items.filter(in_place(twice_x, twice_y, Placement::BottomLeft)),
                    threshold,
                )
                &&& quads.top_right.is_tree_of(
                    items.filter(in_place(twice_x, twice_y, Placement::TopRight)),
                    threshold,
                )
                &&& quads.bottom_right.is_tree_of(
                    items.filter(in_place(twice_x, twice_y, Placement::BottomRight)),
                    threshold,
                )
            },
        }
    }

    /// The items of the whole tree: those of the node, then those of its subtrees, top left,
    /// bottom left, top right, bottom right.
    pub open spec fn flatten(self) -> Seq<T>
        decreases self,
    {
        match self.children {
            None => self.items@,
            Some(quads) => self.items@ + quads.top_left.flatten() + quads.bottom_left.flatten()
                + quads.top_right.flatten() + quads.bottom_right.flatten(),
        }
    }

    /// The bounds of the whole tree, taken from its items: the union of the bounds of the
    /// node's own items and of the bounds of its four subtrees.
    pub open spec fn recursive_bounds(self) -> BoundingBox
        decreases self,
    {
        match self.children {
            None => BoundingBox::union_of(self.items@),
            Some(quads) => BoundingBox::union_of(self.items@).union(
                quads.top_left.recursive_bounds(),
            ).union(quads.bottom_left.recursive_bounds()).union(
                quads.top_right.recursive_bounds(),
            ).union(quads.bottom_right.recursive_bounds()),
        }
    }

    /// The number of subdivisions on the longest way down from this node.
    pub open spec fn height(self) -> nat
        decreases self,
    {
        match self.children {
            None => 0,
            Some(quads) => 1 + vstd::math::max(
                vstd::math::max(
                    quads.top_left.height() as int,
                    quads.bottom_left.height() as int,
                ),
                vstd::math::max(
                    quads.top_right.height() as int,
                    quads.bottom_right.height() as int,
                ),
            ) as nat,
        }
    }

    /// What holds of each node of a tree that was built, whatever it was built from: the
    /// node has kept the bounds of the items of its subtree; it is divided where those items
    /// call for it; the items that it holds itself cross a coordinate of the midpoint of
    /// the bounds; and the items of each subtree lie entirely in that subtree's quadrant.
    pub open spec fn well_formed(self, threshold: usize) -> bool
        decreases self,
    {
        &&& self.bounds == BoundingBox::union_of(self.flatten())
        &&& match self.children {
            None => quad_split(self.flatten(), threshold) is None,
            Some(quads) => {
                &&& quad_split(self.flatten(), threshold) matches Some((twice_x, twice_y))
                &&& forall|i: int|
                    0 <= i < self.items@.len() ==> in_place(twice_x, twice_y, Placement::Crossing)(
                        #[trigger] self.items@[i],
                    )
                &&& forall|i: int|
                    0 <= i < quads.top_left.flatten().len() ==> in_place(
                        twice_x,
                        twice_y,
                        Placement::TopLeft,
                    )(#[trigger] quads.top_left.flatten()[i])
                &&& forall|i: int|
                    0 <= i < quads.bottom_left.flatten().len() ==> in_place(
                        twice_x,
                        twice_y,
                        Placement::BottomLeft,
                    )(#[trigger] quads.bottom_left.flatten()[i])
                &&& forall|i: int|
                    0 <= i < quads.top_right.flatten().len() ==> in_place(
                        twice_x,
                        twice_y,
                        Placement::TopRight,
                    )(#[trigger] quads.top_right.flatten()[i])
                &&& forall|i: int|
                    0 <= i < quads.bottom_right.flatten().len() ==> in_place(
                        twice_x,
                        twice_y,
                        Placement::BottomRight,
                    )(#[trigger] quads.bottom_right.flatten()[i])
                &&& quads.top_left.well_formed(threshold)
                &&& quads.bottom_left.well_formed(threshold)
                &&& quads.top_right.well_formed(threshold)
                &&& quads.bottom_right.well_formed(threshold)
            },
        }
    }

    /// Builds the tree of `items` with the usual threshold: more items are divided.
    pub fn new(items: Vec<T>) -> (node: Self)
        ensures
            node.is_tree_of(items@, MAX_ITEMS_PER_NODE),
            node.well_formed(MAX_ITEMS_PER_NODE),
            node.bounds == BoundingBox::union_of(items@),
            node.flatten().to_multiset() == items@.to_multiset(),
            node.recursive_bounds() == BoundingBox::union_of(items@),
            node.height() <= items@.len() <= usize::MAX,
    {
        Self::with_threshold(items, MAX_ITEMS_PER_NODE)
    }

    /// Builds the tree of `items`, dividing a node that holds more than `threshold` items.
    ///
    /// A node with no more items is a leaf, and so is one whose bounds have no extent: its
    /// items all have one and the same point as their bounds, and no division would part them. Any other node is divided
    /// around the midpoint of the bounds of its items. Each node keeps the bounds of the
    /// items that it was built from.
    pub fn with_threshold(items: Vec<T>, threshold: usize) -> (node: Self)
        ensures
            node.is_tree_of(items@, threshold),
            node.well_formed(threshold),
            node.bounds == BoundingBox::union_of(items@),
            node.flatten().to_multiset() == items@.to_multiset(),
            node.recursive_bounds() == BoundingBox::union_of(items@),
            node.height() <= items@.len() <= usize::MAX,
        decreases items.len(),
    {
        let ghost all = items@;
        let bounds = BoundingBox::from_items(items.as_slice());
        let node = if let BoundingBox::Valid(rect) = bounds {
            if items.len() > threshold && (rect.x.size() > 0 || rect.y.size() > 0) {
                let mid_x = rect.x.twice_midpoint();
                let mid_y = rect.y.twice_midpoint();
                proof {
                    lemma_quarters_shrink(all, rect);
                }
                let (items_crossing_mid, items_tl, items_bl, items_tr, items_br) = split_in_four(
                    items,
                    mid_x,
                    mid_y,
                );
                OctreeNode {
                    bounds,
                    items: items_crossing_mid,
                    children: Some(
                        Box::new(
                            Quadrants {
                                top_left: OctreeNode::with_threshold(items_tl, threshold),
                                bottom_left: OctreeNode::with_threshold(items_bl, threshold),
                                top_right: OctreeNode::with_threshold(items_tr, threshold),
                                bottom_right: OctreeNode::with_threshold(items_br, threshold),
                            },
                        ),
                    ),
                }
            } else {
                OctreeNode { bounds, items, children: None }
            }
        } else {
            OctreeNode { bounds, items, children: None }
        };
        proof {
            lemma_quad_holds_each_item_once(node, all, threshold);
            lemma_quad_recursive_bounds_sound(node, all, threshold);
            lemma_quad_height(node, all, threshold);
            lemma_quad_well_formed(node, all, threshold);
        }
        node
    }

    /// The bounds of the whole tree, computed anew from its items at each call.
    pub fn bounding_box_recursive(&self) -> (bounds: BoundingBox)
        ensures
            bounds == self.recursive_bounds(),
        decreases self,
    {
        let mut res = BoundingBox::from_items(self.items.as_slice());
        if let Some(quads) = &self.children {
            res = res | quads.top_left.bounding_box_recursive();
            res = res | quads.bottom_left.bounding_box_recursive();
            res = res | quads.top_right.bounding_box_recursive();
            res = res | quads.bottom_right.bounding_box_recursive();
        }
        res
    }
}

/// A division around the midpoint of bounds that have extent leaves no quadrant with all of
/// the items: on an axis with extent, the item that reaches the lower end is not entirely
/// above the midpoint, and the one that reaches the upper end is not entirely below it.
pub proof fn lemma_quarters_shrink<T: Bounded2D>(items: Seq<T>, rect: Bounds)
    requires
        BoundingBox::union_of(items) == BoundingBox::Valid(rect),
        rect.has_extent(),
    ensures
        items.filter(
            in_place(rect.x.twice_mid(), rect.y.twice_mid(), Placement::TopLeft),
        ).len() < items.len(),
        items.filter(
            in_place(rect.x.twice_mid(), rect.y.twice_mid(), Placement::BottomLeft),
        ).len() < items.len(),
        items.filter(
            in_place(rect.x.twice_mid(), rect.y.twice_mid(), Placement::TopRight),
        ).len() < items.len(),
        items.filter(
            in_place(rect.x.twice_mid(), rect.y.twice_mid(), Placement::BottomRight),
        ).len() < items.len(),
{
    let tx = rect.x.twice_mid();
    let ty = rect.y.twice_mid();
    lemma_union_of_least(items);
    let x_lo = choose|i: int|
        0 <= i < items.len() && (#[trigger] items[i]).bounds_spec().x.min == rect.x.min;
    let x_hi = choose|i: int|
        0 <= i < items.len() && (#[trigger] items[i]).bounds_spec().x.max == rect.x.max;
    let y_lo = choose|i: int|
        0 <= i < items.len() && (#[trigger] items[i]).bounds_spec().y.min == rect.y.min;
    let y_hi = choose|i: int|
        0 <= i < items.len() && (#[trigger] items[i]).bounds_spec().y.max == rect.y.max;
    if rect.x.extent() > 0 {
        lemma_filter_drops(items, in_place(tx, ty, Placement::TopLeft), x_hi);
        lemma_filter_drops(items, in_place(tx, ty, Placement::BottomLeft), x_hi);
        lemma_filter_drops(items, in_place(tx, ty, Placement::TopRight), x_lo);
        lemma_filter_drops(items, in_place(tx, ty, Placement::BottomRight), x_lo);
    } else {
        lemma_filter_drops(items, in_place(tx, ty, Placement::TopLeft), y_hi);
        lemma_filter_drops(items, in_place(tx, ty, Placement::BottomLeft), y_lo);
        lemma_filter_drops(items, in_place(tx, ty, Placement::TopRight), y_hi);
        lemma_filter_drops(items, in_place(tx, ty, Placement::BottomRight), y_lo);
    }
}

} // verus!
