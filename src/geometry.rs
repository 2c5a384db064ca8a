use vstd::prelude::*;

verus! {

/// A point of the playfield, centred on the origin.
#[derive(Clone, Copy, Debug, PartialEq, Eq, Structural)]
pub struct Point {
    pub x: i64,
    pub y: i64,
}

/// An axis-aligned box given by offsets from the centre of the entity that owns it.
#[derive(Clone, Copy, Debug, PartialEq, Eq, Structural)]
pub struct Rect {
    pub left: i64,
    pub right: i64,
    pub top: i64,
    pub bottom: i64,
}

impl Rect {
    /// The box is not inverted on either axis.
    pub open spec fn wf(self) -> bool {
        self.left <= self.right && self.bottom <= self.top
    }
}

/// Two boxes, each placed at the given centre, overlap on both axes; bounds are inclusive.
pub open spec fn boxes_overlap(x1: int, y1: int, r1: Rect, x2: int, y2: int, r2: Rect) -> bool {
    &&& r1.left + x1 <= r2.right + x2
    &&& r1.right + x1 >= r2.left + x2
    &&& r1.bottom + y1 <= r2.top + y2
    &&& r1.top + y1 >= r2.bottom + y2
}

pub open spec fn overlaps(p1: Point, r1: Rect, p2: Point, r2: Rect) -> bool {
    boxes_overlap(p1.x as int, p1.y as int, r1, p2.x as int, p2.y as int, r2)
}

/// Whether the box `r1` placed at `p1` and the box `r2` placed at `p2` overlap.
/// Boxes that only touch along an edge or at a corner overlap.
pub fn intersects(p1: Point, r1: Rect, p2: Point, r2: Rect) -> (r: bool)
    ensures
        r == overlaps(p1, r1, p2, r2),
{
    let x_intersection = r1.left as i128 + p1.x as i128 <= r2.right as i128 + p2.x as i128
        && r1.right as i128 + p1.x as i128 >= r2.left as i128 + p2.x as i128;
    let y_intersection = r1.bottom as i128 + p1.y as i128 <= r2.top as i128 + p2.y as i128
        && r1.top as i128 + p1.y as i128 >= r2.bottom as i128 + p2.y as i128;
    x_intersection && y_intersection
}

/// The overlap test does not depend on which of the two boxes comes first.
pub proof fn lemma_overlap_symmetric(a: Point, ra: Rect, b: Point, rb: Rect)
    ensures
        overlaps(a, ra, b, rb) == overlaps(b, rb, a, ra),
{
}

/// Two boxes that share a piece of an edge overlap: either a vertical edge of one
/// lies on a vertical edge of the other while their vertical extents meet, or the
/// same holds of horizontal edges.
pub proof fn lemma_shared_edge_overlaps(a: Point, ra: Rect, b: Point, rb: Rect)
    requires
        ra.wf(),
        rb.wf(),
        ({
            let vertical_edge = ra.right + a.x == rb.left + b.x || ra.left + a.x == rb.right + b.x;
            let vertical_meet = ra.bottom + a.y <= rb.top + b.y && ra.top + a.y >= rb.bottom
                + b.y;
            let horizontal_edge = ra.top + a.y == rb.bottom + b.y || ra.bottom + a.y == rb.top
                + b.y;
            let horizontal_meet = ra.left + a.x <= rb.right + b.x && ra.right + a.x >= rb.left
                + b.x;
            (vertical_edge && vertical_meet) || (horizontal_edge && horizontal_meet)
        }),
    ensures
        overlaps(a, ra, b, rb),
{
}

} // verus!
