//! Points in data space and device space, the vertical flip between the two,
//! and the expansion of a point into a filled square neighborhood.

use vstd::prelude::*;

verus! {

/// An ordered pair of signed integers, used both for data-space and
/// device-space coordinates.
#[derive(PartialEq, Eq, Structural, Debug, Clone, Copy, PartialOrd, Ord)]
pub struct Point {
    pub x: i64,
    pub y: i64,
}

/// The device-space y coordinate of a data-space y coordinate: data space has
/// its origin at the bottom left, the pixel buffer at the top left.
pub open spec fn flip_y(y: int, height: int) -> int {
    height - y
}

/// Law: `transform` is its own inverse: transforming a point twice with the
/// same height gives back the original point.
pub proof fn lemma_transform_involutive(p: Point, height: i64)
    requires
        i64::MIN <= height - p.y <= i64::MAX,
    ensures
        ({
            let t = Point { x: p.x, y: (height - p.y) as i64 };
            Point { x: t.x, y: (height - t.y) as i64 } == p
        }),
{
}

/// Whether `q` lies in the filled square of Chebyshev radius `length`
/// centered on `p`.
pub open spec fn in_neighborhood(p: Point, length: int, q: Point) -> bool {
    &&& p.x - length <= q.x <= p.x + length
    &&& p.y - length <= q.y <= p.y + length
}

impl Point {
    /// Maps a data-space point to device space by flipping the vertical axis
    /// relative to the canvas height.
    pub fn transform(self, height: i64) -> (r: Point)
        requires
            i64::MIN <= height - self.y <= i64::MAX,
        ensures
            r.x == self.x,
            r.y == flip_y(self.y as int, height as int),
    {
        Point { x: self.x, y: height - self.y }
    }

    /// Expands the point into the filled square of Chebyshev radius `length`
    /// around it, enumerated column by column (outer over x, inner over y),
    /// so that one data point is rendered as a visible square dot.
    pub fn scaled(&self, length: i64) -> (r: Vec<Point>)
        requires
            length >= 1 ==> {
                &&& i64::MIN <= self.x - length
                &&& self.x + length <= i64::MAX
                &&& i64::MIN <= self.y - length
                &&& self.y + length <= i64::MAX
                &&& (2 * length + 1) * (2 * length + 1) <= usize::MAX
            },
        ensures
            length == 0 ==> r@ == seq![*self],
            length >= 0 ==> r@.len() == (2 * length + 1) * (2 * length + 1),
            length < 0 ==> r@.len() == 0,
            forall|q: Point| r@.contains(q) <==> in_neighborhood(*self, length as int, q),
            forall|i: int, j: int|
                0 <= i < j < r@.len() ==> (r@[i].x < r@[j].x || (r@[i].x == r@[j].x
                    && r@[i].y < r@[j].y)),
    {
        broadcast use vstd::seq_lib::lemma_seq_contains_after_push;

        let mut result: Vec<Point> = Vec::new();
        if length == 0 {
            result.push(*self);
            proof {
                assert(result@ =~= seq![*self]);
                assert((2 * length + 1) * (2 * length + 1) == 1) by (nonlinear_arith)
                    requires
                        length == 0,
                ;
            }
            return result;
        }
        if length < 0 {
            return result;
        }
        assert(2 * length + 1 < 0x1_0000_0000i64) by (nonlinear_arith)
            requires
                length >= 1,
                (2 * length + 1) * (2 * length + 1) <= usize::MAX,
                usize::MAX >= 0xffff_ffffu32,
                usize::MAX <= 0xffff_ffff_ffff_ffffu64,
        ;
        let side: i64 = 2 * length + 1;
        let start_x: i64 = self.x - length;
        let start_y: i64 = self.y - length;
        let mut dx: i64 = 0;
        while dx < side
            invariant
                0 <= dx <= side,
                side == 2 * length + 1,
                1 <= length,
                start_x == self.x - length,
                start_y == self.y - length,
                i64::MIN <= self.x - length,
                self.x + length <= i64::MAX,
                i64::MIN <= self.y - length,
                self.y + length <= i64::MAX,
                side * side <= usize::MAX,
                result@.len() == dx * side,
                forall|q: Point| result@.contains(q) <==> {
                    &&& start_x <= q.x < start_x + dx
                    &&& start_y <= q.y <= self.y + length
                },
                forall|i: int, j: int|
                    0 <= i < j < result@.len() ==> (result@[i].x < result@[j].x
                        || (result@[i].x == result@[j].x && result@[i].y < result@[j].y)),
            decreases side - dx,
        {
            let cx: i64 = start_x + dx;
            let mut dy: i64 = 0;
            assert(dx * side + side == (dx + 1) * side) by (nonlinear_arith);
            assert((dx + 1) * side <= side * side) by (nonlinear_arith)
                requires
                    0 <= dx + 1 <= side,
            ;
            assert(0 <= dx * side) by (nonlinear_arith)
                requires
                    0 <= dx && 0 <= side,
            ;
            while dy < side
                invariant
                    0 <= dy <= side,
                    0 <= dx < side,
                    side == 2 * length + 1,
                    1 <= length,
                    cx == start_x + dx,
                    start_x == self.x - length,
                    start_y == self.y - length,
                    i64::MIN <= self.x - length,
                    self.x + length <= i64::MAX,
                    i64::MIN <= self.y - length,
                    self.y + length <= i64::MAX,
                    side * side <= usize::MAX,
                    dx * side + side <= side * side,
                    0 <= dx * side,
                    result@.len() == dx * side + dy,
                    forall|q: Point| result@.contains(q) <==> ({
                        ||| (start_x <= q.x < cx && start_y <= q.y <= self.y + length)
                        ||| (q.x == cx && start_y <= q.y < start_y + dy)
                    }),
                    forall|i: int, j: int|
                        0 <= i < j < result@.len() ==> (result@[i].x < result@[j].x
                            || (result@[i].x == result@[j].x && result@[i].y < result@[j].y)),
                decreases side - dy,
            {
                let p = Point { x: cx, y: start_y + dy };
                proof {
                    assert(forall|i: int| 0 <= i < result@.len()
                        ==> result@.contains(#[trigger] result@[i]));
                }
                let ghost prev = result@;
                result.push(p);
                proof {
                    assert(result@ == prev.push(p));
                    assert forall|q: Point| result@.contains(q) <==> ({
                        ||| (start_x <= q.x < cx && start_y <= q.y <= self.y + length)
                        ||| (q.x == cx && start_y <= q.y < start_y + dy + 1)
                    }) by {
                        vstd::seq_lib::lemma_seq_contains_after_push(prev, p, q);
                    }
                    assert(result@[result@.len() - 1] == p);
                }
                dy = dy + 1;
            }
            dx = dx + 1;
        }
        proof {
            assert(result@.len() == side * side);
        }
        result
    }
}

/// Law: a scaled neighborhood is symmetric about its center: for every point
/// `q` it contains, it also contains the reflection of `q` through the
/// center.
pub proof fn lemma_neighborhood_symmetric(p: Point, length: i64, pts: Seq<Point>)
    requires
        length >= 1 ==> {
            &&& i64::MIN <= p.x - length
            &&& p.x + length <= i64::MAX
            &&& i64::MIN <= p.y - length
            &&& p.y + length <= i64::MAX
        },
        forall|q: Point| pts.contains(q) <==> in_neighborhood(p, length as int, q),
    ensures
        forall|q: Point| pts.contains(q) ==> pts.contains(
            Point { x: (2 * p.x - q.x) as i64, y: (2 * p.y - q.y) as i64 },
        ),
{
    assert forall|q: Point| pts.contains(q) implies pts.contains(
        Point { x: (2 * p.x - q.x) as i64, y: (2 * p.y - q.y) as i64 },
    ) by {
        assert(in_neighborhood(p, length as int, q));
        let refl = Point { x: (2 * p.x - q.x) as i64, y: (2 * p.y - q.y) as i64 };
        assert(in_neighborhood(p, length as int, refl));
    }
}

} // verus!

