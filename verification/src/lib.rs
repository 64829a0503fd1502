//! A spatial index over items with axis-aligned bounds in the plane.

use vstd::prelude::*;

mod draw;
mod hull;
mod kdtree;
mod kdtree_laws;
mod mesh;
mod obj;
mod octree;
mod octree_laws;
mod partition;
mod primitives;

pub use draw::{across, item_steps, DrawStep};
pub use hull::{
    is_least_box, lemma_least_box_unique, lemma_union_is_least, lemma_union_laws,
    lemma_union_of_concat, lemma_union_of_least, lemma_union_of_permutation,
    lemma_union_of_valid,
};
pub use kdtree::{kd_split, lemma_split_shrinks, KDTreeNode, KDTreeNodeSubdivision};
pub use kdtree_laws::{
    lemma_kd_height, lemma_kd_holds_each_item_once, lemma_kd_leaf_threshold,
    lemma_kd_recursive_bounds_of_flatten, lemma_kd_recursive_bounds_sound, lemma_kd_split_axis,
    lemma_kd_straddling_stays, lemma_kd_well_formed,
};
pub use mesh::{face_in_range, face_triangle, map_vertices, triangles_of_faces};
pub use obj::{
    all_digits, digits_value, face_field, face_of, face_of_line, field, first_space, index_of,
    kind_of, line_kind, nth_field, number_of, parse_index, unsigned, FaceError, LineKind, SPACE,
};
pub use octree::{lemma_quarters_shrink, quad_split, OctreeNode, Quadrants};
pub use octree_laws::{
    lemma_quad_crossing_stays, lemma_quad_height, lemma_quad_holds_each_item_once,
    lemma_quad_leaf_threshold, lemma_quad_recursive_bounds_of_flatten,
    lemma_quad_recursive_bounds_sound, lemma_quad_well_formed,
};
pub use partition::{
    in_place, lemma_filter_drops, lemma_places_partition, lemma_sides_partition, on_side,
    split_along, split_in_four,
};
pub use primitives::{
    Axis, Bounded2D, BoundingBox, Bounds, Placement, Pos2, Pos3, Range, Ray, Side, Triangle,
    Vec2,
};

verus! {

/// The threshold of both trees. The binary tree splits a node that holds at least as many
/// items; the quad tree divides a node that holds more.
pub const MAX_ITEMS_PER_NODE: usize = 32;

} // verus!
