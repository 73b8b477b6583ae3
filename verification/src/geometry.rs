//! Splitting a polygon ring in two along the longer axis of its bounding box.
//!
//! Coordinates are fixed-point: a position is a pair of 32-bit grid units
//! (for geographic data, a unit of 1e-7 degree covers the globe). All results
//! are exact statements about integers; where a cut falls between two grid
//! positions it is rounded towards the start of the edge.

use vstd::prelude::*;
use vstd::arithmetic::div_mod::{
    lemma_div_is_ordered, lemma_div_multiples_vanish, lemma_div_pos_is_pos,
};
use vstd::arithmetic::mul::{
    lemma_mul_inequality, lemma_mul_is_commutative, lemma_mul_nonnegative,
};
use crate::clip_laws::{lemma_coordinates_fit, lemma_split_partitions_bounds};

verus! {

/// A position on the grid.
#[derive(Clone, Copy, Debug, PartialEq, Eq, Structural)]
pub struct Point {
    pub x: i32,
    pub y: i32,
}

/// The axis that a split line crosses.
#[derive(Clone, Copy, Debug, PartialEq, Eq, Structural)]
pub enum Axis {
    X,
    Y,
}

/// The half-plane that a clip keeps: `Low` is left of a line across X and
/// below a line across Y; `High` is right of it or above it. The line itself
/// belongs to both.
#[derive(Clone, Copy, Debug, PartialEq, Eq, Structural)]
pub enum Side {
    Low,
    High,
}

/// Why a geometry could not be split.
#[derive(Clone, Copy, Debug, PartialEq, Eq, Structural)]
pub enum GeometryError {
    /// The value is no geometry: no object, or one without a list of
    /// coordinates.
    NotGeometry,
    /// The geometry is of another type than `Polygon`.
    NotPolygon,
    /// The polygon has no ring at all.
    NoExterior,
    /// The exterior ring has no position.
    EmptyRing,
    /// A position is no list of exactly two numbers: an entry of a ring is
    /// no list, an entry of a position is no number, or a position of the
    /// exterior ring has more or fewer than two coordinates.
    NotPlanar,
    /// A half of the ring has fewer than four positions.
    TooFewPoints,
    /// The geometry came out of as many splits as are allowed.
    TooDeep,
}

/// The coordinate of `p` along `axis`.
pub open spec fn coordinate(p: Point, axis: Axis) -> int {
    match axis {
        Axis::X => p.x as int,
        Axis::Y => p.y as int,
    }
}

/// The other axis than `axis`.
pub open spec fn across(axis: Axis) -> Axis {
    match axis {
        Axis::X => Axis::Y,
        Axis::Y => Axis::X,
    }
}

/// Whether `p` lies in the half-plane that `side` names of the line at
/// `split` across `axis`.
pub open spec fn keeps(p: Point, split: int, axis: Axis, side: Side) -> bool {
    match side {
        Side::Low => coordinate(p, axis) <= split,
        Side::High => coordinate(p, axis) >= split,
    }
}

/// Whether the line at `split` across `axis` separates `s` from `p`: it lies
/// between them, and they differ along `axis`.
pub open spec fn separates(s: Point, p: Point, split: int, axis: Axis) -> bool {
    let cs = coordinate(s, axis);
    let cp = coordinate(p, axis);
    (cs <= split <= cp || cp <= split <= cs) && cs != cp
}

/// The value `num / den` of the way from `a` to `b`, rounded towards `a`.
pub open spec fn slide(a: int, b: int, num: int, den: int) -> int {
    if b >= a {
        a + (num * (b - a)) / den
    } else {
        a - (num * (a - b)) / den
    }
}

/// Where the edge from `s` to `p` meets the line at `split` across `axis`.
pub open spec fn crossing(s: Point, p: Point, split: int, axis: Axis) -> Point {
    let cs = coordinate(s, axis);
    let cp = coordinate(p, axis);
    let num = if cp > cs { split - cs } else { cs - split };
    let den = if cp > cs { cp - cs } else { cs - cp };
    let other = slide(coordinate(s, across(axis)), coordinate(p, across(axis)), num, den);
    match axis {
        Axis::X => Point { x: split as i32, y: other as i32 },
        Axis::Y => Point { x: other as i32, y: split as i32 },
    }
}

/// A slide by a fraction between 0 and 1 ends between its two ends.
pub proof fn lemma_slide_between(a: int, b: int, num: int, den: int)
    requires
        0 <= num <= den,
        0 < den,
    ensures
        a <= b ==> a <= slide(a, b, num, den) <= b,
        b <= a ==> b <= slide(a, b, num, den) <= a,
{
    let d = if b >= a { b - a } else { a - b };
    lemma_mul_nonnegative(num, d);
    lemma_div_pos_is_pos(num * d, den);
    lemma_mul_inequality(num, den, d);
    lemma_div_is_ordered(num * d, den * d, den);
    lemma_div_multiples_vanish(d, den);
}

/// The crossing of a separated edge lies on the line, and between the two
/// ends along the other axis.
pub proof fn lemma_crossing_on_line(s: Point, p: Point, split: i32, axis: Axis)
    requires
        separates(s, p, split as int, axis),
    ensures
        coordinate(crossing(s, p, split as int, axis), axis) == split,
        coordinate(s, across(axis)) <= coordinate(p, across(axis)) ==> coordinate(s, across(axis))
            <= coordinate(crossing(s, p, split as int, axis), across(axis)) <= coordinate(
            p,
            across(axis),
        ),
        coordinate(p, across(axis)) <= coordinate(s, across(axis)) ==> coordinate(p, across(axis))
            <= coordinate(crossing(s, p, split as int, axis), across(axis)) <= coordinate(
            s,
            across(axis),
        ),
{
    let cs = coordinate(s, axis);
    let cp = coordinate(p, axis);
    let num = if cp > cs { split - cs } else { cs - split };
    let den = if cp > cs { cp - cs } else { cs - cp };
    lemma_slide_between(coordinate(s, across(axis)), coordinate(p, across(axis)), num, den);
}

/// Tells whether `point` lies on the side `side` of the split line.
pub fn inside(point: &Point, split_value: i32, axis: Axis, side: Side) -> (kept: bool)
    ensures
        kept == keeps(*point, split_value as int, axis, side),
{
    let value: i32 = match axis {
        Axis::X => point.x,
        Axis::Y => point.y,
    };
    match side {
        Side::Low => value <= split_value,
        Side::High => value >= split_value,
    }
}

/// Computes where the edge from `s` to `p` meets the split line.
pub fn compute_intersection(s: Point, p: Point, split_value: i32, axis: Axis) -> (cut: Point)
    requires
        separates(s, p, split_value as int, axis),
    ensures
        cut == crossing(s, p, split_value as int, axis),
{
    let (cs, cp, os, op): (i32, i32, i32, i32) = match axis {
        Axis::X => (s.x, p.x, s.y, p.y),
        Axis::Y => (s.y, p.y, s.x, p.x),
    };
    let num: i64 = if cp > cs {
        split_value as i64 - cs as i64
    } else {
        cs as i64 - split_value as i64
    };
    let den: i64 = if cp > cs {
        cp as i64 - cs as i64
    } else {
        cs as i64 - cp as i64
    };
    let span: i64 = if op >= os {
        op as i64 - os as i64
    } else {
        os as i64 - op as i64
    };
    proof {
        lemma_slide_between(os as int, op as int, num as int, den as int);
        lemma_mul_nonnegative(num as int, span as int);
        lemma_mul_inequality(num as int, 0x1_0000_0000, span as int);
        lemma_mul_inequality(span as int, 0x1_0000_0000, 0x1_0000_0000);
        lemma_mul_is_commutative(0x1_0000_0000, span as int);
    }
    let scaled: i128 = (num as i128) * (span as i128);
    let step: i128 = scaled / (den as i128);
    let other: i32 = if op >= os {
        (os as i128 + step) as i32
    } else {
        (os as i128 - step) as i32
    };
    match axis {
        Axis::X => Point { x: split_value, y: other },
        Axis::Y => Point { x: other, y: split_value },
    }
}

/// The axis-aligned box that bounds a ring.
#[derive(Clone, Copy, Debug, PartialEq, Eq, Structural)]
pub struct BoundingBox {
    pub min_x: i32,
    pub max_x: i32,
    pub min_y: i32,
    pub max_y: i32,
}

/// The smallest coordinate of `points` along `axis` (of a ring with a point).
pub open spec fn lowest(points: Seq<Point>, axis: Axis) -> int
    decreases points.len(),
{
    if points.len() <= 1 {
        coordinate(points[0], axis)
    } else {
        let rest = lowest(points.drop_last(), axis);
        let here = coordinate(points.last(), axis);
        if here < rest {
            here
        } else {
            rest
        }
    }
}

/// The largest coordinate of `points` along `axis` (of a ring with a point).
pub open spec fn highest(points: Seq<Point>, axis: Axis) -> int
    decreases points.len(),
{
    if points.len() <= 1 {
        coordinate(points[0], axis)
    } else {
        let rest = highest(points.drop_last(), axis);
        let here = coordinate(points.last(), axis);
        if here > rest {
            here
        } else {
            rest
        }
    }
}

/// The bounding box of a ring with at least one point.
pub open spec fn bounds(points: Seq<Point>) -> BoundingBox {
    BoundingBox {
        min_x: lowest(points, Axis::X) as i32,
        max_x: highest(points, Axis::X) as i32,
        min_y: lowest(points, Axis::Y) as i32,
        max_y: highest(points, Axis::Y) as i32,
    }
}

/// Whether the coordinates of `points` along `axis` lie between `lo` and
/// `hi`, and reach both.
pub open spec fn spans(points: Seq<Point>, axis: Axis, lo: int, hi: int) -> bool {
    &&& forall|i: int| 0 <= i < points.len() ==> lo <= #[trigger] coordinate(points[i], axis) <= hi
    &&& exists|i: int| 0 <= i < points.len() && #[trigger] coordinate(points[i], axis) == lo
    &&& exists|i: int| 0 <= i < points.len() && #[trigger] coordinate(points[i], axis) == hi
}

/// `lowest` and `highest` are the tight bounds of a ring along an axis.
pub proof fn lemma_bounds_span(points: Seq<Point>, axis: Axis)
    requires
        points.len() > 0,
    ensures
        spans(points, axis, lowest(points, axis), highest(points, axis)),
    decreases points.len(),
{
    if points.len() == 1 {
        assert(coordinate(points[0], axis) == lowest(points, axis));
        assert(coordinate(points[0], axis) == highest(points, axis));
    } else {
        let front = points.drop_last();
        lemma_bounds_span(front, axis);
        let last = points.len() - 1;
        assert forall|i: int| 0 <= i < points.len() implies lowest(points, axis)
            <= #[trigger] coordinate(points[i], axis) <= highest(points, axis) by {
            if i < last {
                assert(points[i] == front[i]);
                assert(lowest(front, axis) <= coordinate(front[i], axis) <= highest(front, axis));
            }
        }
        let i_lo = choose|i: int| 0 <= i < front.len() && #[trigger] coordinate(front[i], axis)
            == lowest(front, axis);
        let i_hi = choose|i: int| 0 <= i < front.len() && #[trigger] coordinate(front[i], axis)
            == highest(front, axis);
        assert(points[i_lo] == front[i_lo]);
        assert(points[i_hi] == front[i_hi]);
        if coordinate(points.last(), axis) < lowest(front, axis) {
            assert(coordinate(points[last], axis) == lowest(points, axis));
        } else {
            assert(coordinate(points[i_lo], axis) == lowest(points, axis));
        }
        if coordinate(points.last(), axis) > highest(front, axis) {
            assert(coordinate(points[last], axis) == highest(points, axis));
        } else {
            assert(coordinate(points[i_hi], axis) == highest(points, axis));
        }
    }
}

/// Returns the smallest and largest coordinates of a ring along both axes.
pub fn min_max_coordinate(coordinates: &Vec<Point>) -> (r: Result<BoundingBox, GeometryError>)
    ensures
        match r {
            Ok(b) => coordinates@.len() > 0 && b == bounds(coordinates@),
            Err(e) => coordinates@.len() == 0 && e == GeometryError::EmptyRing,
        },
{
    if coordinates.len() < 1 {
        return Err(GeometryError::EmptyRing);
    }
    let first: Point = coordinates[0];
    let mut min_x: i32 = first.x;
    let mut max_x: i32 = first.x;
    let mut min_y: i32 = first.y;
    let mut max_y: i32 = first.y;
    let mut i: usize = 1;
    assert(coordinates@.take(1).len() == 1);
    while i < coordinates.len()
        invariant
            1 <= i <= coordinates.len(),
            min_x == lowest(coordinates@.take(i as int), Axis::X),
            max_x == highest(coordinates@.take(i as int), Axis::X),
            min_y == lowest(coordinates@.take(i as int), Axis::Y),
            max_y == highest(coordinates@.take(i as int), Axis::Y),
        decreases coordinates.len() - i,
    {
        let point: Point = coordinates[i];
        assert(coordinates@.take(i + 1).drop_last() == coordinates@.take(i as int));
        assert(coordinates@.take(i + 1).last() == point);
        if point.x < min_x {
            min_x = point.x;
        }
        if point.x > max_x {
            max_x = point.x;
        }
        if point.y < min_y {
            min_y = point.y;
        }
        if point.y > max_y {
            max_y = point.y;
        }
        i = i + 1;
    }
    assert(coordinates@.take(i as int) == coordinates@);
    Ok(BoundingBox { min_x, max_x, min_y, max_y })
}

/// The point that precedes position `i` on a ring walked as a cycle: the
/// last point precedes the first.
pub open spec fn before(ring: Seq<Point>, i: int) -> Point {
    if i == 0 {
        ring[ring.len() - 1]
    } else {
        ring[i - 1]
    }
}

/// What one step of a clip emits for the edge from `s` to `p`: `p` where it
/// is kept, with the crossing before it where the edge enters the kept side,
/// and the crossing alone where the edge leaves it.
pub open spec fn emitted(s: Point, p: Point, split: int, axis: Axis, side: Side) -> Seq<Point> {
    if keeps(p, split, axis, side) {
        if keeps(s, split, axis, side) {
            seq![p]
        } else {
            seq![crossing(s, p, split, axis), p]
        }
    } else {
        if keeps(s, split, axis, side) {
            seq![crossing(s, p, split, axis)]
        } else {
            Seq::empty()
        }
    }
}

/// What a clip has emitted after the first `n` positions of `ring`.
pub open spec fn walked(ring: Seq<Point>, split: int, axis: Axis, side: Side, n: nat) -> Seq<Point>
    decreases n,
{
    if n == 0 {
        Seq::empty()
    } else {
        walked(ring, split, axis, side, (n - 1) as nat) + emitted(
            before(ring, n - 1),
            ring[n - 1],
            split,
            axis,
            side,
        )
    }
}

/// `out` with its first point appended again, unless it ends there already.
pub open spec fn closed_up(out: Seq<Point>) -> Seq<Point> {
    if out.len() > 0 && out[0] != out.last() {
        out.push(out[0])
    } else {
        out
    }
}

/// The part of `ring` on the side `side` of the split line, as a closed ring.
pub open spec fn clipped(ring: Seq<Point>, split: int, axis: Axis, side: Side) -> Seq<Point> {
    closed_up(walked(ring, split, axis, side, ring.len()))
}

/// Whether a ring ends where it starts.
pub open spec fn is_closed(ring: Seq<Point>) -> bool {
    ring.len() > 0 && ring[0] == ring.last()
}

/// An edge with one end kept and the other not is separated by the line.
pub proof fn lemma_mixed_edge_separated(s: Point, p: Point, split: int, axis: Axis, side: Side)
    requires
        keeps(s, split, axis, side) != keeps(p, split, axis, side),
    ensures
        separates(s, p, split, axis),
{
}

/// Clips a ring to one side of the split line and closes the result.
pub fn clip_polygon(polygon: &Vec<Point>, split_value: i32, axis: Axis, side: Side) -> (r: Result<
    Vec<Point>,
    GeometryError,
>)
    ensures
        match r {
            Ok(ring) => ring@ == clipped(polygon@, split_value as int, axis, side) && ring@.len()
                >= 4,
            Err(e) => e == GeometryError::TooFewPoints && clipped(
                polygon@,
                split_value as int,
                axis,
                side,
            ).len() < 4,
        },
{
    let mut result: Vec<Point> = Vec::new();
    let n: usize = polygon.len();
    if n > 0 {
        let mut point_s: Point = polygon[n - 1];
        let mut i: usize = 0;
        while i < n
            invariant
                n == polygon@.len(),
                0 <= i <= n,
                point_s == before(polygon@, i as int),
                result@ == walked(polygon@, split_value as int, axis, side, i as nat),
            decreases n - i,
        {
            let point: Point = polygon[i];
            let keep_point: bool = inside(&point, split_value, axis, side);
            let keep_start: bool = inside(&point_s, split_value, axis, side);
            if keep_point != keep_start {
                proof {
                    lemma_mixed_edge_separated(point_s, point, split_value as int, axis, side);
                }
                let intersection: Point = compute_intersection(point_s, point, split_value, axis);
                result.push(intersection);
            }
            if keep_point {
                result.push(point);
            }
            assert(result@ == walked(polygon@, split_value as int, axis, side, (i + 1) as nat));
            point_s = point;
            i = i + 1;
        }
    }
    let len: usize = result.len();
    if len > 0 {
        let head: Point = result[0];
        let last: Point = result[len - 1];
        if head.x != last.x || head.y != last.y {
            result.push(head);
        }
    }
    if result.len() >= 4 {
        Ok(result)
    } else {
        Err(GeometryError::TooFewPoints)
    }
}

/// The middle of the stretch from `lo` to `hi`, rounded down.
pub open spec fn middle(lo: int, hi: int) -> int {
    lo + (hi - lo) / 2
}

/// The axis that a split crosses: X where the box is wider than high, else Y.
pub open spec fn split_axis(b: BoundingBox) -> Axis {
    if b.max_x - b.min_x > b.max_y - b.min_y {
        Axis::X
    } else {
        Axis::Y
    }
}

/// The place of the split line: the middle of the box along the split axis.
pub open spec fn split_line(b: BoundingBox) -> int {
    match split_axis(b) {
        Axis::X => middle(b.min_x as int, b.max_x as int),
        Axis::Y => middle(b.min_y as int, b.max_y as int),
    }
}

/// The two halves of a ring, low half first, or the reason why it has none.
pub open spec fn split_points(ring: Seq<Point>) -> Result<(Seq<Point>, Seq<Point>), GeometryError> {
    if ring.len() == 0 {
        Err(GeometryError::EmptyRing)
    } else {
        let axis = split_axis(bounds(ring));
        let line = split_line(bounds(ring));
        let low = clipped(ring, line, axis, Side::Low);
        let high = clipped(ring, line, axis, Side::High);
        if low.len() >= 4 && high.len() >= 4 {
            Ok((low, high))
        } else {
            Err(GeometryError::TooFewPoints)
        }
    }
}

/// Splits a ring in two along the longer axis of its bounding box.
pub fn split_ring(ring: &Vec<Point>) -> (r: Result<(Vec<Point>, Vec<Point>), GeometryError>)
    ensures
        match r {
            Ok((low, high)) => {
                let axis = split_axis(bounds(ring@));
                &&& split_points(ring@) == Ok::<_, GeometryError>((low@, high@))
                &&& low@.len() >= 4 && is_closed(low@)
                &&& high@.len() >= 4 && is_closed(high@)
                &&& lowest(low@, axis) == lowest(ring@, axis)
                &&& highest(low@, axis) == split_line(bounds(ring@))
                &&& lowest(high@, axis) == split_line(bounds(ring@))
                &&& highest(high@, axis) == highest(ring@, axis)
            },
            Err(e) => split_points(ring@) == Err::<(Seq<Point>, Seq<Point>), _>(e),
        },
{
    let b: BoundingBox = match min_max_coordinate(ring) {
        Ok(b) => b,
        Err(e) => {
            return Err(e);
        },
    };
    proof {
        lemma_coordinates_fit(ring@, Axis::X);
        lemma_coordinates_fit(ring@, Axis::Y);
        lemma_split_partitions_bounds(ring@);
    }
    let width: i64 = b.max_x as i64 - b.min_x as i64;
    let height: i64 = b.max_y as i64 - b.min_y as i64;
    let axis: Axis = if width > height {
        Axis::X
    } else {
        Axis::Y
    };
    let split_value: i32 = match axis {
        Axis::X => (b.min_x as i64 + width / 2) as i32,
        Axis::Y => (b.min_y as i64 + height / 2) as i32,
    };
    assert(split_value == split_line(bounds(ring@)));
    let low: Vec<Point> = match clip_polygon(ring, split_value, axis, Side::Low) {
        Ok(half) => half,
        Err(e) => {
            return Err(e);
        },
    };
    let high: Vec<Point> = match clip_polygon(ring, split_value, axis, Side::High) {
        Ok(half) => half,
        Err(e) => {
            return Err(e);
        },
    };
    Ok((low, high))
}

/// A geometry as a query carries it: the name of its type, and its rings as
/// lists of positions, each position a list of grid coordinates.
#[derive(Clone, Debug)]
pub struct Geometry {
    pub kind: String,
    pub coordinates: Vec<Vec<Vec<i32>>>,
}

/// What a geometry holds.
pub struct Shape {
    pub kind: Seq<char>,
    pub rings: Seq<Seq<Seq<i32>>>,
}

/// The positions of a ring, each as the sequence of its coordinates.
pub open spec fn positions(ring: Seq<Vec<i32>>) -> Seq<Seq<i32>> {
    Seq::new(ring.len(), |i: int| ring[i]@)
}

impl View for Geometry {
    type V = Shape;

    open spec fn view(&self) -> Shape {
        Shape {
            kind: self.kind@,
            rings: Seq::new(self.coordinates@.len(), |i: int| positions(self.coordinates@[i]@)),
        }
    }
}

/// Whether every position of a ring has exactly two coordinates.
pub open spec fn planar(ring: Seq<Seq<i32>>) -> bool {
    forall|i: int| 0 <= i < ring.len() ==> (#[trigger] ring[i]).len() == 2
}

/// The points of a ring of two-coordinate positions.
pub open spec fn ring_points(ring: Seq<Seq<i32>>) -> Seq<Point> {
    Seq::new(ring.len(), |i: int| Point { x: ring[i][0], y: ring[i][1] })
}

/// The positions of a ring of points.
pub open spec fn point_positions(points: Seq<Point>) -> Seq<Seq<i32>> {
    Seq::new(points.len(), |i: int| seq![points[i].x, points[i].y])
}

/// The polygon whose only ring has the points `points`.
pub open spec fn polygon_shape(points: Seq<Point>) -> Shape {
    Shape { kind: "Polygon"@, rings: seq![point_positions(points)] }
}

/// The two halves of a polygon, low half first, or the reason why it cannot
/// be split. Only the exterior ring is split: holes are not carried over.
pub open spec fn split_shape(shape: Shape) -> Result<(Shape, Shape), GeometryError> {
    if shape.kind != "Polygon"@ {
        Err(GeometryError::NotPolygon)
    } else if shape.rings.len() == 0 {
        Err(GeometryError::NoExterior)
    } else if shape.rings[0].len() == 0 {
        Err(GeometryError::EmptyRing)
    } else if !planar(shape.rings[0]) {
        Err(GeometryError::NotPlanar)
    } else {
        match split_points(ring_points(shape.rings[0])) {
            Ok((low, high)) => Ok((polygon_shape(low), polygon_shape(high))),
            Err(e) => Err(e),
        }
    }
}

/// Reads the positions of a ring as points.
pub fn exterior_points(ring: &Vec<Vec<i32>>) -> (r: Result<Vec<Point>, GeometryError>)
    ensures
        match r {
            Ok(points) => planar(positions(ring@)) && points@ == ring_points(positions(ring@)),
            Err(e) => !planar(positions(ring@)) && e == GeometryError::NotPlanar,
        },
{
    let mut points: Vec<Point> = Vec::new();
    let mut i: usize = 0;
    while i < ring.len()
        invariant
            0 <= i <= ring.len(),
            points@.len() == i,
            forall|k: int| 0 <= k < i ==> (#[trigger] positions(ring@)[k]).len() == 2,
            forall|k: int| 0 <= k < i ==> #[trigger] points@[k] == ring_points(positions(ring@))[k],
        decreases ring.len() - i,
    {
        let position: &Vec<i32> = &ring[i];
        if position.len() != 2 {
            assert(positions(ring@)[i as int].len() != 2);
            return Err(GeometryError::NotPlanar);
        }
        points.push(Point { x: position[0], y: position[1] });
        i = i + 1;
    }
    assert(points@ =~= ring_points(positions(ring@)));
    Ok(points)
}

/// Builds the polygon whose only ring has the given points.
pub fn polygon_from(points: &Vec<Point>) -> (g: Geometry)
    ensures
        g@ == polygon_shape(points@),
{
    let mut ring: Vec<Vec<i32>> = Vec::new();
    let mut i: usize = 0;
    while i < points.len()
        invariant
            0 <= i <= points.len(),
            ring@.len() == i,
            forall|k: int| 0 <= k < i ==> (#[trigger] ring@[k])@ == seq![points@[k].x, points@[k].y],
        decreases points.len() - i,
    {
        let mut position: Vec<i32> = Vec::new();
        position.push(points[i].x);
        position.push(points[i].y);
        assert(position@ =~= seq![points@[i as int].x, points@[i as int].y]);
        ring.push(position);
        i = i + 1;
    }
    let mut coordinates: Vec<Vec<Vec<i32>>> = Vec::new();
    coordinates.push(ring);
    let g = Geometry { kind: "Polygon".to_owned(), coordinates };
    assert(positions(g.coordinates@[0]@) =~= point_positions(points@));
    assert(g@.rings =~= seq![point_positions(points@)]);
    g
}

/// Splits the polygon `geometry` in two polygons along the longer axis of
/// the bounding box of its exterior ring: the low half first.
pub fn split_geometry(geometry: &Geometry) -> (r: Result<(Geometry, Geometry), GeometryError>)
    ensures
        match r {
            Ok((first, second)) => split_shape(geometry@) == Ok::<_, GeometryError>(
                (first@, second@),
            ),
            Err(e) => split_shape(geometry@) == Err::<(Shape, Shape), _>(e),
        },
{
    let polygon: String = "Polygon".to_owned();
    if geometry.kind != polygon {
        return Err(GeometryError::NotPolygon);
    }
    if geometry.coordinates.len() == 0 {
        return Err(GeometryError::NoExterior);
    }
    let exterior: &Vec<Vec<i32>> = &geometry.coordinates[0];
    assert(geometry@.rings[0] == positions(exterior@));
    if exterior.len() == 0 {
        return Err(GeometryError::EmptyRing);
    }
    let ring: Vec<Point> = match exterior_points(exterior) {
        Ok(points) => points,
        Err(e) => {
            return Err(e);
        },
    };
    match split_ring(&ring) {
        Ok((low, high)) => Ok((polygon_from(&low), polygon_from(&high))),
        Err(e) => Err(e),
    }
}

} // verus!
