//! Walking a tree in the order in which it is drawn.

use crate::kdtree::KDTreeNode;
use crate::octree::OctreeNode;
use crate::primitives::{Axis, Bounded2D, BoundingBox, Bounds, Range};
use vstd::prelude::*;

verus! {

/// One thing to draw, with the depth of the node that it belongs to: the root has depth 0.
pub enum DrawStep<'a, T> {
    /// An item that a node holds.
    Item { item: &'a T, depth: usize },
    /// The line along which a node of the binary tree is split: it runs across `axis` at the
    /// coordinate `position / 2`, over the interval `span` of the other axis.
    SplitLine { axis: Axis, position: i128, span: Range, depth: usize },
    /// The bounds of a node of the quad tree.
    Outline { bounds: Bounds, depth: usize },
}

/// The other of the two axes.
pub open spec fn across(axis: Axis) -> Axis {
    match axis {
        Axis::X => Axis::Y,
        Axis::Y => Axis::X,
    }
}

/// One step for each of `items`, in their order.
pub open spec fn item_steps<'a, T>(items: Seq<T>, depth: usize) -> Seq<DrawStep<'a, T>> {
    Seq::new(items.len(), |i: int| DrawStep::Item { item: &items[i], depth })
}

/// Adds one step for each of `items` to `steps`.
fn push_items<'a, T>(items: &'a Vec<T>, depth: usize, steps: &mut Vec<DrawStep<'a, T>>)
    ensures
        final(steps)@ == old(steps)@ + item_steps(items@, depth),
{
    let mut i: usize = 0;
    while i < items.len()
        invariant
            i <= items.len(),
            steps@ == old(steps)@ + item_steps(items@.take(i as int), depth),
        decreases items.len() - i,
    {
        steps.push(DrawStep::Item { item: &items[i], depth });
        assert(item_steps(items@.take(i + 1), depth) == item_steps(
            items@.take(i as int),
            depth,
        ).push(DrawStep::Item { item: &items@[i as int], depth }));
        i += 1;
    }
    assert(items@.take(items.len() as int) == items@);
}

impl<T> KDTreeNode<T> where T: Bounded2D {
    /// The line along which this node is split, if it is split and its tree has bounds: the
    /// line runs as far as those bounds reach.
    pub open spec fn split_line<'a>(self, depth: usize) -> Seq<DrawStep<'a, T>> {
        match (self.subdivision, self.recursive_bounds()) {
            (Some(sub), BoundingBox::Valid(bounds)) => seq![
                DrawStep::SplitLine {
                    axis: sub.axis,
                    position: sub.position,
                    span: bounds.along(across(sub.axis)),
                    depth,
                },
            ],
            _ => Seq::empty(),
        }
    }

    /// The steps that draw the tree below a node of depth `depth`: the node's own items,
    /// the subtree below the split coordinate, the subtree at or above it, and then the
    /// node's split line.
    pub open spec fn draw_steps<'a>(self, depth: usize) -> Seq<DrawStep<'a, T>>
        decreases self,
    {
        match self.subdivision {
            None => item_steps(self.children@, depth),
            Some(sub) => item_steps(self.children@, depth) + sub.negative.draw_steps(
                (depth + 1) as usize,
            ) + sub.positive.draw_steps((depth + 1) as usize) + self.split_line(depth),
        }
    }

    /// For each node, its depth and the number of items that it holds: the node first, then
    /// the subtree below the split coordinate, then the subtree at or above it.
    pub open spec fn stats(self, depth: usize) -> Seq<(usize, usize)>
        decreases self,
    {
        match self.subdivision {
            None => seq![(depth, self.children@.len() as usize)],
            Some(sub) => seq![(depth, self.children@.len() as usize)] + sub.negative.stats(
                (depth + 1) as usize,
            ) + sub.positive.stats((depth + 1) as usize),
        }
    }

    /// Lists what is to be drawn of the tree, in order, the node being at depth `depth`.
    pub fn draw_recursive<'a>(&'a self, depth: usize) -> (steps: Vec<DrawStep<'a, T>>)
        requires
            depth + self.height() <= usize::MAX,
        ensures
            steps@ == self.draw_steps(depth),
    {
        let mut steps = Vec::new();
        self.draw_into(depth, &mut steps);
        steps
    }

    fn draw_into<'a>(&'a self, depth: usize, steps: &mut Vec<DrawStep<'a, T>>)
        requires
            depth + self.height() <= usize::MAX,
        ensures
            final(steps)@ == old(steps)@ + self.draw_steps(depth),
        decreases self,
    {
        push_items(&self.children, depth, steps);
        if let Some(sub) = &self.subdivision {
            sub.negative.draw_into(depth + 1, steps);
            sub.positive.draw_into(depth + 1, steps);
            if let BoundingBox::Valid(bounds) = self.bounding_box_recursive() {
                let span = match sub.axis {
                    Axis::X => bounds.y,
                    Axis::Y => bounds.x,
                };
                steps.push(
                    DrawStep::SplitLine { axis: sub.axis, position: sub.position, span, depth },
                );
            }
        }
    }

    /// Lists the depth and the number of items of each node of the tree, the node being at
    /// depth `depth`.
    pub fn stats_recursive(&self, depth: usize) -> (lines: Vec<(usize, usize)>)
        requires
            depth + self.height() <= usize::MAX,
        ensures
            lines@ == self.stats(depth),
    {
        let mut lines = Vec::new();
        self.stats_into(depth, &mut lines);
        lines
    }

    fn stats_into(&self, depth: usize, lines: &mut Vec<(usize, usize)>)
        requires
            depth + self.height() <= usize::MAX,
        ensures
            final(lines)@ == old(lines)@ + self.stats(depth),
        decreases self,
    {
        lines.push((depth, self.children.len()));
        if let Some(sub) = &self.subdivision {
            sub.negative.stats_into(depth + 1, lines);
            sub.positive.stats_into(depth + 1, lines);
        }
    }
}

impl<T> OctreeNode<T> where T: Bounded2D {
    /// The outline of the bounds that the node has kept, if it has any.
    pub open spec fn outline<'a>(self, depth: usize) -> Seq<DrawStep<'a, T>> {
        match self.bounds {
            BoundingBox::Valid(bounds) => seq![DrawStep::Outline { bounds, depth }],
            BoundingBox::Empty => Seq::empty(),
        }
    }

    /// The steps that draw the tree below a node of depth `depth`: the outline of the node,
    /// its own items, and then its subtrees: top left, bottom left, top right, bottom right.
    pub open spec fn draw_steps<'a>(self, depth: usize) -> Seq<DrawStep<'a, T>>
        decreases self,
    {
        match self.children {
            None => self.outline(depth) + item_steps(self.items@, depth),
            Some(quads) => self.outline(depth) + item_steps(self.items@, depth)
                + quads.top_left.draw_steps((depth + 1) as usize) + quads.bottom_left.draw_steps(
                (depth + 1) as usize,
            ) + quads.top_right.draw_steps((depth + 1) as usize)
                + quads.bottom_right.draw_steps((depth + 1) as usize),
        }
    }

    /// Lists what is to be drawn of the tree, in order, the node being at depth `depth`.
    pub fn draw_recursive<'a>(&'a self, depth: usize) -> (steps: Vec<DrawStep<'a, T>>)
        requires
            depth + self.height() <= usize::MAX,
        ensures
            steps@ == self.draw_steps(depth),
    {
        let mut steps = Vec::new();
        self.draw_into(depth, &mut steps);
        steps
    }

    fn draw_into<'a>(&'a self, depth: usize, steps: &mut Vec<DrawStep<'a, T>>)
        requires
            depth + self.height() <= usize::MAX,
        ensures
            final(steps)@ == old(steps)@ + self.draw_steps(depth),
        decreases self,
    {
        if let BoundingBox::Valid(bounds) = self.bounds {
            steps.push(DrawStep::Outline { bounds, depth });
        }
        push_items(&self.items, depth, steps);
        if let Some(quads) = &self.children {
            quads.top_left.draw_into(depth + 1, steps);
            quads.bottom_left.draw_into(depth + 1, steps);
            quads.top_right.draw_into(depth + 1, steps);
            quads.bottom_right.draw_into(depth + 1, steps);
        }
    }
}

} // verus!
