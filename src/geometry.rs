use vstd::prelude::*;

verus! {

/// A point or direction in the plane, in whole length units.
#[derive(Clone, Copy, Debug, PartialEq, Eq, Structural)]
pub struct Vector2 {
    pub x: i64,
    pub y: i64,
}

/// `v` moved into `[lo, hi]`.
pub open spec fn clamp(v: int, lo: int, hi: int) -> int {
    if v < lo {
        lo
    } else if v > hi {
        hi
    } else {
        v
    }
}

/// The circle of centre `(cx, cy)` and the given radius touches or overlaps the
/// rectangle: the point of the rectangle nearest the centre lies within the radius.
pub open spec fn circle_meets_rect(
    left: int,
    right: int,
    top: int,
    bottom: int,
    cx: int,
    cy: int,
    radius: int,
) -> bool {
    let dx = clamp(cx, left, right) - cx;
    let dy = clamp(cy, top, bottom) - cy;
    dx * dx + dy * dy <= radius * radius
}

proof fn lemma_square_exceeds(d: int, r: int)
    requires
        0 <= r,
        d > r || d < -r,
    ensures
        d * d > r * r,
{
    assert(d * d > r * r) by (nonlinear_arith)
        requires
            0 <= r,
            d > r || d < -r,
    ;
}

proof fn lemma_square_bounded(d: int, r: int)
    requires
        0 <= r,
        -r <= d <= r,
    ensures
        0 <= d * d <= r * r,
{
    assert(0 <= d * d <= r * r) by (nonlinear_arith)
        requires
            0 <= r,
            -r <= d <= r,
    ;
}

/// Whether a circle touches an axis-aligned rectangle. The centre is clamped to the
/// rectangle and the squared distance from that point is compared with the squared
/// radius, so a centre inside the rectangle always counts.
pub fn circle_intersects_rect(
    rect_left: i64,
    rect_right: i64,
    rect_top: i64,
    rect_bottom: i64,
    cx: i64,
    cy: i64,
    radius: i64,
) -> (r: bool)
    requires
        rect_left <= rect_right,
        rect_top <= rect_bottom,
        radius >= 0,
    ensures
        r == circle_meets_rect(
            rect_left as int,
            rect_right as int,
            rect_top as int,
            rect_bottom as int,
            cx as int,
            cy as int,
            radius as int,
        ),
{
    let nx: i64 = if cx < rect_left {
        rect_left
    } else if cx > rect_right {
        rect_right
    } else {
        cx
    };
    let ny: i64 = if cy < rect_top {
        rect_top
    } else if cy > rect_bottom {
        rect_bottom
    } else {
        cy
    };
    let dx: i128 = nx as i128 - cx as i128;
    let dy: i128 = ny as i128 - cy as i128;
    let rad: i128 = radius as i128;
    if dx > rad || dx < -rad {
        proof {
            lemma_square_exceeds(dx as int, rad as int);
            assert(dy * dy >= 0) by (nonlinear_arith);
        }
        return false;
    }
    if dy > rad || dy < -rad {
        proof {
            lemma_square_exceeds(dy as int, rad as int);
            assert(dx * dx >= 0) by (nonlinear_arith);
        }
        return false;
    }
    proof {
        lemma_square_bounded(dx as int, rad as int);
        lemma_square_bounded(dy as int, rad as int);
        assert(rad * rad < 0x4000_0000_0000_0000_0000_0000_0000_0000) by (nonlinear_arith)
            requires
                0 <= rad < 0x8000_0000_0000_0000,
        ;
    }
    dx * dx + dy * dy <= rad * rad
}

} // verus!
