//! What holds of every clip: the points that a half keeps, where they lie,
//! and how the two halves of a split share the bounding box of the ring.

use vstd::prelude::*;
use crate::geometry::{
    across, before, bounds, clipped, closed_up, coordinate, crossing, emitted, highest, is_closed,
    keeps, lemma_bounds_span, lemma_crossing_on_line, lowest, middle, spans, split_axis,
    split_line, walked, Axis, Point, Side,
};

verus! {

/// Whether every point of `points` lies on the side `side` of the line.
pub open spec fn all_kept(points: Seq<Point>, split: int, axis: Axis, side: Side) -> bool {
    forall|i: int| 0 <= i < points.len() ==> keeps(#[trigger] points[i], split, axis, side)
}

/// Whether the coordinates of every point of `points` along `axis` lie
/// between `lo` and `hi`.
pub open spec fn all_between(points: Seq<Point>, axis: Axis, lo: int, hi: int) -> bool {
    forall|i: int| 0 <= i < points.len() ==> lo <= #[trigger] coordinate(points[i], axis) <= hi
}

/// Every point that a clip emits lies on the kept side, and inside any box
/// that holds the ring and meets the line.
pub proof fn lemma_walked_stays_inside(
    ring: Seq<Point>,
    split: i32,
    axis: Axis,
    side: Side,
    n: nat,
    lo: int,
    hi: int,
    lo_o: int,
    hi_o: int,
)
    requires
        n <= ring.len(),
        all_between(ring, axis, lo, hi),
        all_between(ring, across(axis), lo_o, hi_o),
        lo <= split <= hi,
    ensures
        all_kept(walked(ring, split as int, axis, side, n), split as int, axis, side),
        all_between(walked(ring, split as int, axis, side, n), axis, lo, hi),
        all_between(walked(ring, split as int, axis, side, n), across(axis), lo_o, hi_o),
    decreases n,
{
    if n > 0 {
        let prefix = walked(ring, split as int, axis, side, (n - 1) as nat);
        lemma_walked_stays_inside(ring, split, axis, side, (n - 1) as nat, lo, hi, lo_o, hi_o);
        let s = before(ring, n - 1);
        let p = ring[n - 1];
        let step = emitted(s, p, split as int, axis, side);
        let whole = walked(ring, split as int, axis, side, n);
        assert(whole == prefix + step);
        assert(s == ring[if n == 1 { ring.len() - 1 } else { n - 2 }]);
        assert(lo <= coordinate(s, axis) <= hi && lo_o <= coordinate(s, across(axis)) <= hi_o);
        assert(lo <= coordinate(p, axis) <= hi && lo_o <= coordinate(p, across(axis)) <= hi_o);
        if keeps(s, split as int, axis, side) != keeps(p, split as int, axis, side) {
            lemma_crossing_on_line(s, p, split, axis);
        }
        assert forall|i: int| 0 <= i < whole.len() implies keeps(
            #[trigger] whole[i],
            split as int,
            axis,
            side,
        ) && lo <= coordinate(whole[i], axis) <= hi && lo_o <= coordinate(whole[i], across(axis))
            <= hi_o by {
            if i < prefix.len() {
                assert(whole[i] == prefix[i]);
            } else {
                assert(whole[i] == step[i - prefix.len()]);
            }
        }
    }
}

/// A point of the ring on the kept side is among the points that the clip
/// emits.
pub proof fn lemma_walked_has_kept(
    ring: Seq<Point>,
    split: int,
    axis: Axis,
    side: Side,
    n: nat,
    j: int,
)
    requires
        0 <= j < n <= ring.len(),
        keeps(ring[j], split, axis, side),
    ensures
        walked(ring, split, axis, side, n).contains(ring[j]),
    decreases n,
{
    let prefix = walked(ring, split, axis, side, (n - 1) as nat);
    let step = emitted(before(ring, n - 1), ring[n - 1], split, axis, side);
    let whole = walked(ring, split, axis, side, n);
    assert(whole == prefix + step);
    if j == n - 1 {
        assert(whole[prefix.len() + step.len() - 1] == step[step.len() - 1]);
    } else {
        lemma_walked_has_kept(ring, split, axis, side, (n - 1) as nat, j);
        let k = choose|k: int| 0 <= k < prefix.len() && prefix[k] == ring[j];
        assert(whole[k] == ring[j]);
    }
}

/// Where an edge of the ring has one end kept and the other not, its
/// crossing is among the points that the clip emits.
pub proof fn lemma_walked_has_crossing(
    ring: Seq<Point>,
    split: int,
    axis: Axis,
    side: Side,
    n: nat,
    j: int,
)
    requires
        0 <= j < n <= ring.len(),
        keeps(before(ring, j), split, axis, side) != keeps(ring[j], split, axis, side),
    ensures
        walked(ring, split, axis, side, n).contains(crossing(before(ring, j), ring[j], split, axis)),
    decreases n,
{
    let prefix = walked(ring, split, axis, side, (n - 1) as nat);
    let step = emitted(before(ring, n - 1), ring[n - 1], split, axis, side);
    let whole = walked(ring, split, axis, side, n);
    let cut = crossing(before(ring, j), ring[j], split, axis);
    assert(whole == prefix + step);
    if j == n - 1 {
        assert(whole[prefix.len() as int] == step[0]);
    } else {
        lemma_walked_has_crossing(ring, split, axis, side, (n - 1) as nat, j);
        let k = choose|k: int| 0 <= k < prefix.len() && prefix[k] == cut;
        assert(whole[k] == cut);
    }
}

/// On a ring of which no edge but the closing one changes sides, every
/// point is on the side of the first.
proof fn lemma_same_side(ring: Seq<Point>, split: int, axis: Axis, side: Side, i: int)
    requires
        0 <= i < ring.len(),
        forall|j: int|
            1 <= j < ring.len() ==> keeps(before(ring, j), split, axis, side) == keeps(
                #[trigger] ring[j],
                split,
                axis,
                side,
            ),
    ensures
        keeps(ring[i], split, axis, side) == keeps(ring[0], split, axis, side),
    decreases i,
{
    if i > 0 {
        lemma_same_side(ring, split, axis, side, i - 1);
        assert(before(ring, i) == ring[i - 1]);
    }
}

/// A ring with a point on the kept side and a point off it has an edge that
/// changes sides.
pub proof fn lemma_mixed_edge_exists(
    ring: Seq<Point>,
    split: int,
    axis: Axis,
    side: Side,
    a: int,
    b: int,
) -> (j: int)
    requires
        0 <= a < ring.len(),
        0 <= b < ring.len(),
        keeps(ring[a], split, axis, side),
        !keeps(ring[b], split, axis, side),
    ensures
        0 <= j < ring.len(),
        keeps(before(ring, j), split, axis, side) != keeps(ring[j], split, axis, side),
{
    if exists|j: int|
        1 <= j < ring.len() && keeps(before(ring, j), split, axis, side) != keeps(
            #[trigger] ring[j],
            split,
            axis,
            side,
        ) {
        choose|j: int|
            1 <= j < ring.len() && keeps(before(ring, j), split, axis, side) != keeps(
                #[trigger] ring[j],
                split,
                axis,
                side,
            )
    } else {
        lemma_same_side(ring, split, axis, side, a);
        lemma_same_side(ring, split, axis, side, b);
        0
    }
}

/// Closing a ring adds no new point and loses none.
pub proof fn lemma_closed_up_same_points(out: Seq<Point>)
    ensures
        forall|q: Point| closed_up(out).contains(q) <==> out.contains(q),
        out.len() > 0 ==> is_closed(closed_up(out)),
        out.len() <= closed_up(out).len() <= out.len() + 1,
{
    let shut = closed_up(out);
    assert forall|q: Point| shut.contains(q) <==> out.contains(q) by {
        if shut.contains(q) {
            let k = choose|k: int| 0 <= k < shut.len() && shut[k] == q;
            if k < out.len() {
                assert(out[k] == q);
            } else {
                assert(out[0] == q);
            }
        }
        if out.contains(q) {
            let k = choose|k: int| 0 <= k < out.len() && out[k] == q;
            assert(shut[k] == q);
        }
    }
}

/// One half of a ring cut at a line that meets its bounding box: it is
/// closed, it reaches from the line to the end of the box on its side, it
/// stays inside the box along the other axis, and it holds every point of
/// the ring on its side.
pub proof fn lemma_clipped_spans(ring: Seq<Point>, split: i32, axis: Axis, side: Side)
    requires
        ring.len() > 0,
        lowest(ring, axis) <= split <= highest(ring, axis),
    ensures
        is_closed(clipped(ring, split as int, axis, side)),
        side == Side::Low ==> spans(
            clipped(ring, split as int, axis, side),
            axis,
            lowest(ring, axis),
            split as int,
        ),
        side == Side::High ==> spans(
            clipped(ring, split as int, axis, side),
            axis,
            split as int,
            highest(ring, axis),
        ),
        all_between(
            clipped(ring, split as int, axis, side),
            across(axis),
            lowest(ring, across(axis)),
            highest(ring, across(axis)),
        ),
        forall|j: int|
            0 <= j < ring.len() && keeps(#[trigger] ring[j], split as int, axis, side) ==> clipped(
                ring,
                split as int,
                axis,
                side,
            ).contains(ring[j]),
{
    let line = split as int;
    let lo = lowest(ring, axis);
    let hi = highest(ring, axis);
    let lo_o = lowest(ring, across(axis));
    let hi_o = highest(ring, across(axis));
    let out = walked(ring, line, axis, side, ring.len());
    let half = clipped(ring, line, axis, side);
    lemma_bounds_span(ring, axis);
    lemma_bounds_span(ring, across(axis));
    lemma_walked_stays_inside(ring, split, axis, side, ring.len(), lo, hi, lo_o, hi_o);
    lemma_closed_up_same_points(out);

    // Every point of the half is a point of the walk.
    assert forall|i: int| 0 <= i < half.len() implies keeps(#[trigger] half[i], line, axis, side)
        && lo <= coordinate(half[i], axis) <= hi && lo_o <= coordinate(half[i], across(axis))
        <= hi_o by {
        assert(half.contains(half[i]));
        let k = choose|k: int| 0 <= k < out.len() && out[k] == half[i];
        assert(keeps(out[k], line, axis, side));
    }

    // Every kept point of the ring is in the half.
    assert forall|j: int|
        0 <= j < ring.len() && keeps(#[trigger] ring[j], line, axis, side) implies half.contains(
        ring[j],
    ) by {
        lemma_walked_has_kept(ring, line, axis, side, ring.len(), j);
    }

    let i_lo = choose|i: int| 0 <= i < ring.len() && #[trigger] coordinate(ring[i], axis) == lo;
    let i_hi = choose|i: int| 0 <= i < ring.len() && #[trigger] coordinate(ring[i], axis) == hi;
    // The end of the box on the kept side is reached by a point of the ring.
    let i_end = if side == Side::Low { i_lo } else { i_hi };
    assert(keeps(ring[i_end], line, axis, side));
    assert(half.contains(ring[i_end]));
    let k_end = choose|k: int| 0 <= k < half.len() && half[k] == ring[i_end];
    assert(out.contains(ring[i_end]));
    assert(out.len() > 0);

    // The line is reached by a crossing, or by the far end of the box.
    let i_far = if side == Side::Low { i_hi } else { i_lo };
    let on_line: Point = if keeps(ring[i_far], line, axis, side) {
        ring[i_far]
    } else {
        let j = lemma_mixed_edge_exists(ring, line, axis, side, i_end, i_far);
        lemma_walked_has_crossing(ring, line, axis, side, ring.len(), j);
        lemma_crossing_on_line(before(ring, j), ring[j], split, axis);
        crossing(before(ring, j), ring[j], line, axis)
    };
    assert(half.contains(on_line));
    assert(coordinate(on_line, axis) == line);
    let k_line = choose|k: int| 0 <= k < half.len() && half[k] == on_line;
    assert(coordinate(half[k_line], axis) == line);
    assert(coordinate(half[k_end], axis) == (if side == Side::Low { lo } else { hi }));
}

/// The tight bounds of a ring along an axis are `lowest` and `highest`.
pub proof fn lemma_spans_are_bounds(points: Seq<Point>, axis: Axis, lo: int, hi: int)
    requires
        spans(points, axis, lo, hi),
    ensures
        points.len() > 0,
        lo == lowest(points, axis),
        hi == highest(points, axis),
{
    lemma_bounds_span(points, axis);
}

/// The two halves of a split share the bounding box of the ring: along the
/// longer axis of the box the low half reaches from its start to its middle
/// and the high half from its middle to its end; along the other axis both
/// stay inside the box and together they reach both of its ends. Both halves
/// are closed.
pub proof fn lemma_split_partitions_bounds(ring: Seq<Point>)
    requires
        ring.len() > 0,
    ensures
        ({
            let axis = split_axis(bounds(ring));
            let line = split_line(bounds(ring));
            let low = clipped(ring, line, axis, Side::Low);
            let high = clipped(ring, line, axis, Side::High);
            &&& line == middle(lowest(ring, axis), highest(ring, axis))
            &&& is_closed(low)
            &&& is_closed(high)
            &&& lowest(low, axis) == lowest(ring, axis)
            &&& highest(low, axis) == line
            &&& lowest(high, axis) == line
            &&& highest(high, axis) == highest(ring, axis)
            &&& spans(
                low + high,
                across(axis),
                lowest(ring, across(axis)),
                highest(ring, across(axis)),
            )
        }),
{
    let axis = split_axis(bounds(ring));
    let line = split_line(bounds(ring));
    let low = clipped(ring, line, axis, Side::Low);
    let high = clipped(ring, line, axis, Side::High);
    let both = low + high;
    let lo_o = lowest(ring, across(axis));
    let hi_o = highest(ring, across(axis));
    lemma_bounds_span(ring, Axis::X);
    lemma_bounds_span(ring, Axis::Y);
    lemma_coordinates_fit(ring, Axis::X);
    lemma_coordinates_fit(ring, Axis::Y);
    assert(line == middle(lowest(ring, axis), highest(ring, axis)));
    let split = line as i32;
    lemma_clipped_spans(ring, split, axis, Side::Low);
    lemma_clipped_spans(ring, split, axis, Side::High);
    lemma_spans_are_bounds(low, axis, lowest(ring, axis), line);
    lemma_spans_are_bounds(high, axis, line, highest(ring, axis));

    assert forall|i: int| 0 <= i < both.len() implies lo_o <= #[trigger] coordinate(
        both[i],
        across(axis),
    ) <= hi_o by {
        if i < low.len() {
            assert(both[i] == low[i]);
        } else {
            assert(both[i] == high[i - low.len()]);
        }
    }
    let i_lo = choose|i: int|
        0 <= i < ring.len() && #[trigger] coordinate(ring[i], across(axis)) == lo_o;
    let i_hi = choose|i: int|
        0 <= i < ring.len() && #[trigger] coordinate(ring[i], across(axis)) == hi_o;
    lemma_in_one_half(ring, line, axis, i_lo);
    lemma_in_one_half(ring, line, axis, i_hi);
    let k_lo = choose|k: int| 0 <= k < both.len() && both[k] == ring[i_lo];
    let k_hi = choose|k: int| 0 <= k < both.len() && both[k] == ring[i_hi];
    assert(coordinate(both[k_lo], across(axis)) == lo_o);
    assert(coordinate(both[k_hi], across(axis)) == hi_o);
}

/// The bounds of a ring of grid points are grid coordinates.
pub proof fn lemma_coordinates_fit(ring: Seq<Point>, axis: Axis)
    requires
        ring.len() > 0,
    ensures
        i32::MIN <= lowest(ring, axis) <= highest(ring, axis) <= i32::MAX,
{
    lemma_bounds_span(ring, axis);
    let i = choose|i: int| 0 <= i < ring.len() && #[trigger] coordinate(ring[i], axis) == lowest(
        ring,
        axis,
    );
    let j = choose|j: int| 0 <= j < ring.len() && #[trigger] coordinate(ring[j], axis) == highest(
        ring,
        axis,
    );
    assert(lowest(ring, axis) <= coordinate(ring[j], axis));
}

/// Every point of a ring is in one of the two halves of a cut, whatever the
/// line: a point on the line is in both.
pub proof fn lemma_in_one_half(ring: Seq<Point>, line: int, axis: Axis, j: int)
    requires
        0 <= j < ring.len(),
    ensures
        (clipped(ring, line, axis, Side::Low) + clipped(ring, line, axis, Side::High)).contains(
            ring[j],
        ),
{
    let low = clipped(ring, line, axis, Side::Low);
    let high = clipped(ring, line, axis, Side::High);
    if keeps(ring[j], line, axis, Side::Low) {
        lemma_walked_has_kept(ring, line, axis, Side::Low, ring.len(), j);
        lemma_closed_up_same_points(walked(ring, line, axis, Side::Low, ring.len()));
        let k = choose|k: int| 0 <= k < low.len() && low[k] == ring[j];
        assert((low + high)[k] == ring[j]);
    } else {
        lemma_walked_has_kept(ring, line, axis, Side::High, ring.len(), j);
        lemma_closed_up_same_points(walked(ring, line, axis, Side::High, ring.len()));
        let k = choose|k: int| 0 <= k < high.len() && high[k] == ring[j];
        assert((low + high)[low.len() + k] == ring[j]);
    }
}

/// A ring whose bounding box is as wide as it is high is split across Y: at
/// the middle of its height.
pub proof fn lemma_square_box_splits_across_y(ring: Seq<Point>)
    requires
        ring.len() > 0,
        highest(ring, Axis::X) - lowest(ring, Axis::X) == highest(ring, Axis::Y) - lowest(
            ring,
            Axis::Y,
        ),
    ensures
        split_axis(bounds(ring)) == Axis::Y,
        split_line(bounds(ring)) == middle(lowest(ring, Axis::Y), highest(ring, Axis::Y)),
{
    lemma_coordinates_fit(ring, Axis::X);
    lemma_coordinates_fit(ring, Axis::Y);
}

/// A split goes across X exactly where the bounding box is wider than it is
/// high.
pub proof fn lemma_split_axis_is_longer(ring: Seq<Point>)
    requires
        ring.len() > 0,
    ensures
        split_axis(bounds(ring)) == Axis::X <==> highest(ring, Axis::X) - lowest(ring, Axis::X)
            > highest(ring, Axis::Y) - lowest(ring, Axis::Y),
{
    lemma_coordinates_fit(ring, Axis::X);
    lemma_coordinates_fit(ring, Axis::Y);
}

} // verus!
