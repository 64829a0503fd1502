//! Points, triangles and the algebra of axis-aligned bounds on an integer grid.

use vstd::prelude::*;
use vstd::std_specs::ops::BitOrSpecImpl;

verus! {

/// One of the two axes of the plane.
#[derive(Clone, Copy, Debug, PartialEq, Eq)]
pub enum Axis {
    X,
    Y,
}

/// Where an interval lies relative to a split coordinate.
#[derive(Clone, Copy, Debug, PartialEq, Eq)]
pub enum Side {
    /// Entirely below: the upper end is strictly less than the split coordinate.
    Negative,
    /// Entirely at or above: the lower end is not less than the split coordinate.
    Positive,
    /// Neither: the interval reaches over the split coordinate.
    Straddling,
}

/// Where a box lies relative to a point that divides the plane in four. The second axis
/// points down: the smaller second coordinates are the top.
#[derive(Clone, Copy, Debug, PartialEq, Eq)]
pub enum Placement {
    /// Entirely below the point on both axes.
    TopLeft,
    /// Entirely below the point on the first axis, entirely at or above it on the second.
    BottomLeft,
    /// Entirely at or above the point on the first axis, entirely below it on the second.
    TopRight,
    /// Entirely at or above the point on both axes.
    BottomRight,
    /// The box reaches over the point's coordinate on one axis or on both.
    Crossing,
}

/// A point of the plane.
#[derive(Clone, Copy, Debug, PartialEq, Eq)]
pub struct Pos2 {
    pub x: i64,
    pub y: i64,
}

/// A direction in the plane.
#[derive(Clone, Copy, Debug, PartialEq, Eq)]
pub struct Vec2 {
    pub x: i64,
    pub y: i64,
}

/// A point in space.
#[derive(Clone, Copy, Debug, PartialEq, Eq)]
pub struct Pos3 {
    pub x: i64,
    pub y: i64,
    pub z: i64,
}

impl Pos3 {
    pub fn new(x: i64, y: i64, z: i64) -> (p: Self)
        ensures
            p == (Pos3 { x, y, z }),
    {
        Pos3 { x, y, z }
    }

    /// The point of the plane that is left when the third coordinate is dropped.
    pub open spec fn flat(self) -> Pos2 {
        Pos2 { x: self.x, y: self.y }
    }
}

/// Three vertices.
pub struct Triangle<T> {
    pub v1: T,
    pub v2: T,
    pub v3: T,
}

impl<T> Triangle<T> {
    pub fn new(v1: T, v2: T, v3: T) -> (t: Self)
        ensures
            t == (Triangle { v1, v2, v3 }),
    {
        Triangle { v1, v2, v3 }
    }
}

impl Triangle<Pos3> {
    /// Projects the triangle onto the plane by dropping the third coordinate of each vertex.
    pub fn remove_z(&self) -> (t: Triangle<Pos2>)
        ensures
            t == (Triangle { v1: self.v1.flat(), v2: self.v2.flat(), v3: self.v3.flat() }),
    {
        Triangle {
            v1: Pos2 { x: self.v1.x, y: self.v1.y },
            v2: Pos2 { x: self.v2.x, y: self.v2.y },
            v3: Pos2 { x: self.v3.x, y: self.v3.y },
        }
    }
}

/// A closed interval `[min, max]` on one axis.
///
/// The fields are public, so a value may be built with `min > max`; [`Range::valid`] says
/// that it was not. [`Range::new`] gives a valid range and the union of valid ranges is valid.
#[derive(Clone, Copy, Debug, PartialEq, Eq)]
pub struct Range {
    pub min: i64,
    pub max: i64,
}

impl Range {
    /// The interval is not empty.
    pub open spec fn valid(self) -> bool {
        self.min <= self.max
    }

    /// The interval `inner` lies in this one.
    pub open spec fn encloses(self, inner: Range) -> bool {
        self.min <= inner.min && inner.max <= self.max
    }

    /// The smallest interval that holds both.
    pub open spec fn union(self, rhs: Range) -> Range {
        Range {
            min: if self.min <= rhs.min { self.min } else { rhs.min },
            max: if self.max >= rhs.max { self.max } else { rhs.max },
        }
    }

    /// The length of the interval.
    pub open spec fn extent(self) -> int {
        self.max - self.min
    }

    /// Twice the arithmetic midpoint of the interval. The midpoint of two grid coordinates
    /// may fall halfway between two grid lines; doubled, it is always an integer.
    pub open spec fn twice_mid(self) -> int {
        self.min + self.max
    }

    /// Where the interval lies relative to the coordinate `twice_split / 2`.
    pub open spec fn side_of(self, twice_split: int) -> Side {
        if 2 * self.max < twice_split {
            Side::Negative
        } else if 2 * self.min >= twice_split {
            Side::Positive
        } else {
            Side::Straddling
        }
    }

    /// The interval that holds the single coordinate `v`.
    pub fn new(v: i64) -> (r: Range)
        ensures
            r == (Range { min: v, max: v }),
            r.valid(),
    {
        Range { min: v, max: v }
    }

    pub fn size(&self) -> (s: i128)
        ensures
            s == self.extent(),
    {
        self.max as i128 - self.min as i128
    }

    /// Twice the midpoint: see [`Range::twice_mid`].
    pub fn twice_midpoint(&self) -> (m: i128)
        ensures
            m == self.twice_mid(),
    {
        self.min as i128 + self.max as i128
    }

    /// Classifies the interval against the split coordinate `twice_split / 2`.
    pub fn side(&self, twice_split: i128) -> (s: Side)
        ensures
            s == self.side_of(twice_split as int),
    {
        if 2 * (self.max as i128) < twice_split {
            Side::Negative
        } else if 2 * (self.min as i128) >= twice_split {
            Side::Positive
        } else {
            Side::Straddling
        }
    }
}

impl core::ops::BitOr<Range> for Range {
    type Output = Range;

    fn bitor(self, rhs: Range) -> (r: Range) {
        Range {
            min: if self.min <= rhs.min { self.min } else { rhs.min },
            max: if self.max >= rhs.max { self.max } else { rhs.max },
        }
    }
}

impl BitOrSpecImpl<Range> for Range {
    open spec fn obeys_bitor_spec() -> bool {
        true
    }

    open spec fn bitor_req(self, rhs: Range) -> bool {
        true
    }

    open spec fn bitor_spec(self, rhs: Range) -> Range {
        self.union(rhs)
    }
}

impl core::ops::BitOrAssign<Range> for Range {
    fn bitor_assign(&mut self, rhs: Range)
        ensures
            *final(self) == old(self).union(rhs),
    {
        *self = *self | rhs;
    }
}

/// An axis-aligned box: one interval per axis.
#[derive(Clone, Copy, Debug, PartialEq, Eq)]
pub struct Bounds {
    pub x: Range,
    pub y: Range,
}

impl Bounds {
    /// Both intervals are valid.
    pub open spec fn valid(self) -> bool {
        self.x.valid() && self.y.valid()
    }

    /// The box `inner` lies in this one.
    pub open spec fn encloses(self, inner: Bounds) -> bool {
        self.x.encloses(inner.x) && self.y.encloses(inner.y)
    }

    /// The smallest box that holds both: the union of the intervals, axis by axis.
    pub open spec fn union(self, rhs: Bounds) -> Bounds {
        Bounds { x: self.x.union(rhs.x), y: self.y.union(rhs.y) }
    }

    /// The interval of the box on `axis`.
    pub open spec fn along(self, axis: Axis) -> Range {
        match axis {
            Axis::X => self.x,
            Axis::Y => self.y,
        }
    }

    /// The box is more than a point: a midpoint of it has items' ends on both sides.
    pub open spec fn has_extent(self) -> bool {
        self.x.extent() > 0 || self.y.extent() > 0
    }

    /// The axis along which the box is wider; the first axis where it is as wide as high.
    pub open spec fn wider_axis(self) -> Axis {
        if self.y.extent() > self.x.extent() {
            Axis::Y
        } else {
            Axis::X
        }
    }

    /// Where the box lies relative to the point `(twice_x / 2, twice_y / 2)`.
    pub open spec fn placement(self, twice_x: int, twice_y: int) -> Placement {
        match (self.x.side_of(twice_x), self.y.side_of(twice_y)) {
            (Side::Negative, Side::Negative) => Placement::TopLeft,
            (Side::Negative, Side::Positive) => Placement::BottomLeft,
            (Side::Positive, Side::Negative) => Placement::TopRight,
            (Side::Positive, Side::Positive) => Placement::BottomRight,
            _ => Placement::Crossing,
        }
    }

    /// Classifies the box against the point `(twice_x / 2, twice_y / 2)`.
    pub fn place(&self, twice_x: i128, twice_y: i128) -> (p: Placement)
        ensures
            p == self.placement(twice_x as int, twice_y as int),
    {
        match self.x.side(twice_x) {
            Side::Negative => match self.y.side(twice_y) {
                Side::Negative => Placement::TopLeft,
                Side::Positive => Placement::BottomLeft,
                Side::Straddling => Placement::Crossing,
            },
            Side::Positive => match self.y.side(twice_y) {
                Side::Negative => Placement::TopRight,
                Side::Positive => Placement::BottomRight,
                Side::Straddling => Placement::Crossing,
            },
            Side::Straddling => Placement::Crossing,
        }
    }

    /// The interval of the box on `axis`.
    pub fn range(&self, axis: Axis) -> (r: Range)
        ensures
            r == self.along(axis),
    {
        match axis {
            Axis::X => self.x,
            Axis::Y => self.y,
        }
    }
}

impl core::ops::BitOr<Bounds> for Bounds {
    type Output = Bounds;

    fn bitor(self, rhs: Bounds) -> (r: Bounds) {
        Bounds { x: self.x | rhs.x, y: self.y | rhs.y }
    }
}

impl BitOrSpecImpl<Bounds> for Bounds {
    open spec fn obeys_bitor_spec() -> bool {
        true
    }

    open spec fn bitor_req(self, rhs: Bounds) -> bool {
        true
    }

    open spec fn bitor_spec(self, rhs: Bounds) -> Bounds {
        self.union(rhs)
    }
}

impl core::ops::BitOrAssign<&Bounds> for Bounds {
    fn bitor_assign(&mut self, rhs: &Bounds)
        ensures
            *final(self) == old(self).union(*rhs),
    {
        *self = *self | *rhs;
    }
}

/// Anything that has axis-aligned bounds in the plane.
pub trait Bounded2D {
    /// The bounds of the item.
    spec fn bounds_spec(&self) -> Bounds;

    fn bounds(&self) -> (b: Bounds)
        ensures
            b == self.bounds_spec(),
    ;
}

impl Bounded2D for Pos2 {
    open spec fn bounds_spec(&self) -> Bounds {
        Bounds { x: Range { min: self.x, max: self.x }, y: Range { min: self.y, max: self.y } }
    }

    fn bounds(&self) -> (b: Bounds)
        ensures
            b.valid(),
    {
        Bounds { x: Range::new(self.x), y: Range::new(self.y) }
    }
}

impl Bounded2D for (i64, i64) {
    open spec fn bounds_spec(&self) -> Bounds {
        Bounds { x: Range { min: self.0, max: self.0 }, y: Range { min: self.1, max: self.1 } }
    }

    fn bounds(&self) -> (b: Bounds)
        ensures
            b.valid(),
    {
        Bounds { x: Range::new(self.0), y: Range::new(self.1) }
    }
}

impl Bounded2D for Triangle<Pos2> {
    open spec fn bounds_spec(&self) -> Bounds {
        self.v1.bounds_spec().union(self.v2.bounds_spec()).union(self.v3.bounds_spec())
    }

    fn bounds(&self) -> (b: Bounds)
        ensures
            b.valid(),
    {
        self.v1.bounds() | self.v2.bounds() | self.v3.bounds()
    }
}

/// A half-line: where it starts and where it points.
pub struct Ray {
    pub start: Pos2,
    pub dir: Vec2,
}

/// The bounds of any number of items: absent until a first item is seen.
#[derive(Clone, Copy, Debug, PartialEq, Eq)]
pub enum BoundingBox {
    Empty,
    Valid(Bounds),
}

impl BoundingBox {
    /// The union of two boxes, either of which may be absent: the absent box is its identity.
    pub open spec fn union(self, other: BoundingBox) -> BoundingBox {
        match (self, other) {
            (a, BoundingBox::Empty) => a,
            (BoundingBox::Empty, b) => b,
            (BoundingBox::Valid(lhs), BoundingBox::Valid(rhs)) => BoundingBox::Valid(lhs.union(rhs)),
        }
    }

    /// The box grown to hold `rhs` as well.
    pub open spec fn extend(self, rhs: Bounds) -> BoundingBox {
        self.union(BoundingBox::Valid(rhs))
    }

    /// The bounds of all of `items`: their bounds folded from the left, starting with none.
    pub open spec fn union_of<T: Bounded2D>(items: Seq<T>) -> BoundingBox
        decreases items.len(),
    {
        if items.len() == 0 {
            BoundingBox::Empty
        } else {
            BoundingBox::union_of(items.drop_last()).extend(items.last().bounds_spec())
        }
    }

    /// The extent along the first axis: zero where there is no box.
    pub open spec fn width_spec(self) -> int {
        match self {
            BoundingBox::Empty => 0,
            BoundingBox::Valid(rect) => rect.x.extent(),
        }
    }

    /// The extent along the second axis: zero where there is no box.
    pub open spec fn height_spec(self) -> int {
        match self {
            BoundingBox::Empty => 0,
            BoundingBox::Valid(rect) => rect.y.extent(),
        }
    }

    pub fn new() -> (b: BoundingBox)
        ensures
            b == BoundingBox::Empty,
    {
        BoundingBox::Empty
    }

    /// The bounds of all of `items`; `Empty` for no items.
    pub fn from_items<T>(items: &[T]) -> (bounds: BoundingBox) where T: Bounded2D
        ensures
            bounds == BoundingBox::union_of(items@),
    {
        let mut bounds = BoundingBox::Empty;
        let mut i: usize = 0;
        while i < items.len()
            invariant
                i <= items.len(),
                bounds == BoundingBox::union_of(items@.take(i as int)),
            decreases items.len() - i,
        {
            bounds = bounds | items[i].bounds();
            proof {
                assert(items@.take(i + 1).drop_last() == items@.take(i as int));
            }
            i += 1;
        }
        proof {
            assert(items@.take(items.len() as int) == items@);
        }
        bounds
    }

    pub fn width(&self) -> (w: i128)
        ensures
            w == self.width_spec(),
    {
        match self {
            BoundingBox::Empty => 0,
            BoundingBox::Valid(rect) => rect.x.size(),
        }
    }

    pub fn height(&self) -> (h: i128)
        ensures
            h == self.height_spec(),
    {
        match self {
            BoundingBox::Empty => 0,
            BoundingBox::Valid(rect) => rect.y.size(),
        }
    }
}

impl core::ops::BitOr<BoundingBox> for BoundingBox {
    type Output = BoundingBox;

    fn bitor(self, other: BoundingBox) -> (r: BoundingBox) {
        match (self, other) {
            (a, BoundingBox::Empty) => a,
            (BoundingBox::Empty, b) => b,
            (BoundingBox::Valid(lhs), BoundingBox::Valid(rhs)) => BoundingBox::Valid(
                Bounds { x: lhs.x | rhs.x, y: lhs.y | rhs.y },
            ),
        }
    }
}

impl BitOrSpecImpl<BoundingBox> for BoundingBox {
    open spec fn obeys_bitor_spec() -> bool {
        true
    }

    open spec fn bitor_req(self, other: BoundingBox) -> bool {
        true
    }

    open spec fn bitor_spec(self, other: BoundingBox) -> BoundingBox {
        self.union(other)
    }
}

impl core::ops::BitOr<Bounds> for BoundingBox {
    type Output = BoundingBox;

    fn bitor(self, rhs: Bounds) -> (r: BoundingBox) {
        match self {
            BoundingBox::Empty => BoundingBox::Valid(rhs),
            BoundingBox::Valid(lhs) => BoundingBox::Valid(lhs | rhs),
        }
    }
}

impl BitOrSpecImpl<Bounds> for BoundingBox {
    open spec fn obeys_bitor_spec() -> bool {
        true
    }

    open spec fn bitor_req(self, rhs: Bounds) -> bool {
        true
    }

    open spec fn bitor_spec(self, rhs: Bounds) -> BoundingBox {
        self.extend(rhs)
    }
}

impl core::ops::BitOrAssign<BoundingBox> for BoundingBox {
    fn bitor_assign(&mut self, rhs: BoundingBox)
        ensures
            *final(self) == old(self).union(rhs),
    {
        *self = match *self {
            BoundingBox::Empty => rhs,
            BoundingBox::Valid(bounds) => rhs | bounds,
        }
    }
}

impl Bounds {
    /// The bounds of all of `items`; `None` for no items.
    pub fn from_items<T>(items: &[T]) -> (res: Option<Bounds>) where T: Bounded2D
        ensures
            match res {
                Some(b) => BoundingBox::union_of(items@) == BoundingBox::Valid(b),
                None => BoundingBox::union_of(items@) == BoundingBox::Empty,
            },
    {
        if items.len() == 0 {
            return None;
        }
        let mut res = items[0].bounds();
        proof {
            let first = items@.take(1);
            assert(first.last() == items@[0]);
            assert(BoundingBox::union_of(first.drop_last()) == BoundingBox::Empty);
        }
        let mut i: usize = 1;
        while i < items.len()
            invariant
                1 <= i <= items.len(),
                BoundingBox::Valid(res) == BoundingBox::union_of(items@.take(i as int)),
            decreases items.len() - i,
        {
            res = res | items[i].bounds();
            proof {
                assert(items@.take(i + 1).drop_last() == items@.take(i as int));
            }
            i += 1;
        }
        proof {
            assert(items@.take(items.len() as int) == items@);
        }
        Some(res)
    }
}

} // verus!
