//! Shared utilities: cyclic list access, linear search, and the exact 2D
//! segment-crossing test used both by the mesh builder and by the movement
//! resolver.

use vstd::arithmetic::div_mod::lemma_fundamental_div_mod;
use vstd::arithmetic::div_mod::lemma_fundamental_div_mod_converse_mod;
use vstd::prelude::*;

verus! {

/// One world unit expressed in fixed-point steps.
pub const SCALE: i64 = 1000;

/// Bound on every coordinate (positions, heights) the geometry works with,
/// in fixed-point steps (1000 world units).  Keeping all inputs inside this
/// bound makes every cross product fit comfortably in an `i64`.
pub const COORD_LIMIT: i64 = 1_000_000;

pub struct Rect<T> {
    pub left: T,
    pub top: T,
    pub right: T,
    pub bottom: T,
}

impl<T> Rect<T> {
    pub fn new(left: T, top: T, right: T, bottom: T) -> (r: Rect<T>)
        ensures
            r.left == left,
            r.top == top,
            r.right == right,
            r.bottom == bottom,
    {
        Rect { left, top, right, bottom }
    }
}

/// Cyclic indexing into a list: any integer index, positive or negative, is
/// wrapped into `0 .. len` (Euclidean remainder).  `None` only for an empty
/// list.
pub fn get_item<T>(list: &Vec<T>, index: isize) -> (r: Option<&T>)
    ensures
        list.len() == 0 ==> r is None,
        list.len() > 0 ==> (r matches Some(x) && *x == list[index as int % list.len() as int]),
{
    if list.len() == 0 {
        return None;
    }
    let n = list.len();
    let idx: usize = if index >= 0 {
        (index as usize) % n
    } else {
        let m = ((-(index + 1)) as usize) % n;
        proof {
            let j = -(index as int) - 1;
            let ni = n as int;
            lemma_fundamental_div_mod(j, ni);
            assert(index as int == (-(j / ni) - 1) * ni + (ni - 1 - m as int)) by (nonlinear_arith)
                requires
                    j == ni * (j / ni) + j % ni,
                    m as int == j % ni,
                    index as int == -j - 1,
                    ni > 0,
            ;
            lemma_fundamental_div_mod_converse_mod(
                index as int,
                ni,
                -(j / ni) - 1,
                ni - 1 - m as int,
            );
        }
        n - 1 - m
    };
    Some(&list[idx])
}

/// First position of `element` in `list`, if any.
pub fn index_of<T: PartialEq + vstd::std_specs::cmp::PartialEqSpec>(
    list: &Vec<T>,
    element: &T,
) -> (r: Option<usize>)
    ensures
        T::obeys_eq_spec() ==> match r {
            Some(i) => i < list.len() && element.eq_spec(&list[i as int]) && forall|j: int|
                0 <= j < i ==> !element.eq_spec(#[trigger] &list[j]),
            None => forall|j: int| 0 <= j < list.len() ==> !element.eq_spec(#[trigger] &list[j]),
        },
{
    let ghost obeys = T::obeys_eq_spec();
    for i in 0..list.len()
        invariant
            obeys == T::obeys_eq_spec(),
            obeys ==> forall|j: int| 0 <= j < i ==> !element.eq_spec(#[trigger] &list[j]),
    {
        if *element == list[i] {
            return Some(i);
        }
    }
    None
}

/// Twice the signed area of the triangle `(p, q, r)`: positive when the turn
/// `p -> q -> r` is counter-clockwise in the (x, z) plane.
pub open spec fn orient2(p: (int, int), q: (int, int), r: (int, int)) -> int {
    (q.0 - p.0) * (r.1 - p.1) - (r.0 - p.0) * (q.1 - p.1)
}

/// Exact proper-crossing test for the closed segments `a0 a1` and `b0 b1`:
/// true exactly when they intersect in a single point that is strictly
/// interior to both (the intersection parameter lies strictly within both
/// segments' ranges).  Parallel, collinear and degenerate segments never
/// cross, and neither do segments that merely touch at an endpoint.
pub open spec fn segments_cross(
    a0: (int, int),
    a1: (int, int),
    b0: (int, int),
    b1: (int, int),
) -> bool {
    let d1 = orient2(b0, b1, a0);
    let d2 = orient2(b0, b1, a1);
    let d3 = orient2(a0, a1, b0);
    let d4 = orient2(a0, a1, b1);
    ((d1 > 0 && d2 < 0) || (d1 < 0 && d2 > 0)) && ((d3 > 0 && d4 < 0) || (d3 < 0 && d4 > 0))
}

/// `y` lies strictly between 0 and `d`, on whichever side of 0 `d` lies:
/// the scaled form of "the ratio `y / d` is strictly between 0 and 1".
pub open spec fn strictly_within(y: int, d: int) -> bool {
    (d > 0 && 0 < y < d) || (d < 0 && d < y < 0)
}

/// What the four sign tests of `segments_cross` mean: the segments'
/// support lines meet in a single point whose parameter lies strictly
/// within both segments' ranges.
///
/// With `d` the cross product of the two direction vectors (nonzero
/// exactly when the segments are not parallel), the meeting point is
/// `a0 + (tn/d) * (a1 - a0) == b0 + (sn/d) * (b1 - b0)` — the first two
/// conclusions state this equation scaled by `d` — and `segments_cross`
/// holds exactly when `d != 0` and both parameters `tn/d` and `sn/d` are
/// strictly between 0 and 1.
pub proof fn lemma_crossing_is_strict_interior_intersection(
    a0: (int, int),
    a1: (int, int),
    b0: (int, int),
    b1: (int, int),
)
    ensures
        ({
            let d = (a1.0 - a0.0) * (b1.1 - b0.1) - (b1.0 - b0.0) * (a1.1 - a0.1);
            let tn = orient2(b0, b1, a0);
            let sn = -orient2(a0, a1, b0);
            &&& d * a0.0 + tn * (a1.0 - a0.0) == d * b0.0 + sn * (b1.0 - b0.0)
            &&& d * a0.1 + tn * (a1.1 - a0.1) == d * b0.1 + sn * (b1.1 - b0.1)
            &&& segments_cross(a0, a1, b0, b1) <==> d != 0 && strictly_within(tn, d)
                && strictly_within(sn, d)
        }),
{
    let d = (a1.0 - a0.0) * (b1.1 - b0.1) - (b1.0 - b0.0) * (a1.1 - a0.1);
    let tn = orient2(b0, b1, a0);
    let sn = -orient2(a0, a1, b0);
    let d1 = orient2(b0, b1, a0);
    let d2 = orient2(b0, b1, a1);
    let d3 = orient2(a0, a1, b0);
    let d4 = orient2(a0, a1, b1);
    let u0 = a1.0 - a0.0;
    let u1 = a1.1 - a0.1;
    let v0 = b1.0 - b0.0;
    let v1 = b1.1 - b0.1;
    let w0 = b0.0 - a0.0;
    let w1 = b0.1 - a0.1;
    assert(tn == w0 * v1 - v0 * w1) by (nonlinear_arith)
        requires
            tn == (b1.0 - b0.0) * (a0.1 - b0.1) - (a0.0 - b0.0) * (b1.1 - b0.1),
            v0 == b1.0 - b0.0,
            v1 == b1.1 - b0.1,
            w0 == b0.0 - a0.0,
            w1 == b0.1 - a0.1,
    ;
    assert(sn == w0 * u1 - u0 * w1) by (nonlinear_arith)
        requires
            sn == -((a1.0 - a0.0) * (b0.1 - a0.1) - (b0.0 - a0.0) * (a1.1 - a0.1)),
            u0 == a1.0 - a0.0,
            u1 == a1.1 - a0.1,
            w0 == b0.0 - a0.0,
            w1 == b0.1 - a0.1,
    ;
    assert(d == u0 * v1 - v0 * u1) by (nonlinear_arith)
        requires
            d == (a1.0 - a0.0) * (b1.1 - b0.1) - (b1.0 - b0.0) * (a1.1 - a0.1),
            u0 == a1.0 - a0.0,
            u1 == a1.1 - a0.1,
            v0 == b1.0 - b0.0,
            v1 == b1.1 - b0.1,
    ;
    lemma_meeting_point(u0, u1, v0, v1, w0, w1);
    assert(d * b0.0 - d * a0.0 == d * w0) by (nonlinear_arith)
        requires
            w0 == b0.0 - a0.0,
    ;
    assert(d * b0.1 - d * a0.1 == d * w1) by (nonlinear_arith)
        requires
            w1 == b0.1 - a0.1,
    ;
    assert(d == d1 - d2) by (nonlinear_arith)
        requires
            d == (a1.0 - a0.0) * (b1.1 - b0.1) - (b1.0 - b0.0) * (a1.1 - a0.1),
            d1 == (b1.0 - b0.0) * (a0.1 - b0.1) - (a0.0 - b0.0) * (b1.1 - b0.1),
            d2 == (b1.0 - b0.0) * (a1.1 - b0.1) - (a1.0 - b0.0) * (b1.1 - b0.1),
    ;
    assert(d == d4 - d3) by (nonlinear_arith)
        requires
            d == (a1.0 - a0.0) * (b1.1 - b0.1) - (b1.0 - b0.0) * (a1.1 - a0.1),
            d3 == (a1.0 - a0.0) * (b0.1 - a0.1) - (b0.0 - a0.0) * (a1.1 - a0.1),
            d4 == (a1.0 - a0.0) * (b1.1 - a0.1) - (b1.0 - a0.0) * (a1.1 - a0.1),
    ;
}

/// For direction vectors `u`, `v` and offset `w`, the scaled intersection
/// parameters solve the meeting equation exactly: a ring identity.
proof fn lemma_meeting_point(u0: int, u1: int, v0: int, v1: int, w0: int, w1: int)
    ensures
        (w0 * v1 - v0 * w1) * u0 - (w0 * u1 - u0 * w1) * v0 == (u0 * v1 - v0 * u1) * w0,
        (w0 * v1 - v0 * w1) * u1 - (w0 * u1 - u0 * w1) * v1 == (u0 * v1 - v0 * u1) * w1,
{
    assert((w0 * v1 - v0 * w1) * u0 - (w0 * u1 - u0 * w1) * v0 == (u0 * v1 - v0 * u1) * w0)
        by (nonlinear_arith);
    assert((w0 * v1 - v0 * w1) * u1 - (w0 * u1 - u0 * w1) * v1 == (u0 * v1 - v0 * u1) * w1)
        by (nonlinear_arith);
}

/// A 2D line segment from `(x0, y0)` to `(x1, y1)` in fixed-point
/// coordinates (for world geometry the second axis is z).
pub struct Line {
    pub x0: i64,
    pub y0: i64,
    pub x1: i64,
    pub y1: i64,
}

pub open spec fn coord_in_bounds(c: i64) -> bool {
    -COORD_LIMIT <= c <= COORD_LIMIT
}

impl Line {
    pub open spec fn start(&self) -> (int, int) {
        (self.x0 as int, self.y0 as int)
    }

    pub open spec fn end(&self) -> (int, int) {
        (self.x1 as int, self.y1 as int)
    }

    pub open spec fn in_bounds(&self) -> bool {
        coord_in_bounds(self.x0) && coord_in_bounds(self.y0) && coord_in_bounds(self.x1)
            && coord_in_bounds(self.y1)
    }

    pub fn new(x0: i64, y0: i64, x1: i64, y1: i64) -> (r: Self)
        ensures
            r == (Line { x0, y0, x1, y1 }),
    {
        Line { x0, y0, x1, y1 }
    }

    pub fn new_tuples(pos0: (i64, i64), pos1: (i64, i64)) -> (r: Self)
        ensures
            r == (Line { x0: pos0.0, y0: pos0.1, x1: pos1.0, y1: pos1.1 }),
    {
        Line { x0: pos0.0, y0: pos0.1, x1: pos1.0, y1: pos1.1 }
    }

    /// Whether this segment properly crosses `other` (strictly interior
    /// intersection on both segments; parallels and endpoint touches do not
    /// count).
    pub fn crosses(&self, other: &Line) -> (r: bool)
        requires
            self.in_bounds(),
            other.in_bounds(),
        ensures
            r == segments_cross(self.start(), self.end(), other.start(), other.end()),
    {
        let d1 = orient_exec(other.x0, other.y0, other.x1, other.y1, self.x0, self.y0);
        let d2 = orient_exec(other.x0, other.y0, other.x1, other.y1, self.x1, self.y1);
        let d3 = orient_exec(self.x0, self.y0, self.x1, self.y1, other.x0, other.y0);
        let d4 = orient_exec(self.x0, self.y0, self.x1, self.y1, other.x1, other.y1);
        ((d1 > 0 && d2 < 0) || (d1 < 0 && d2 > 0)) && ((d3 > 0 && d4 < 0) || (d3 < 0 && d4 > 0))
    }
}

/// `|a| <= m` and `|b| <= m` bound the product `a * b` by `m * m`.
pub proof fn lemma_mul_bound(a: int, b: int, m: int)
    requires
        0 <= m,
        -m <= a <= m,
        -m <= b <= m,
    ensures
        -(m * m) <= a * b <= m * m,
{
    assert(-(m * m) <= a * b <= m * m) by (nonlinear_arith)
        requires
            0 <= m,
            -m <= a <= m,
            -m <= b <= m,
    ;
}

/// `r` is the rounded-down square root of `n`.
pub open spec fn is_sqrt_floor(n: int, r: int) -> bool {
    0 <= r && r * r <= n < (r + 1) * (r + 1)
}

/// The rounded-down square root of a non-negative integer.
pub open spec fn sqrt_floor(n: int) -> int {
    choose|r: int| is_sqrt_floor(n, r)
}

/// Any witness of `is_sqrt_floor` is the square root: roots are unique.
pub proof fn lemma_sqrt_floor_unique(n: int, r: int)
    requires
        is_sqrt_floor(n, r),
    ensures
        sqrt_floor(n) == r,
{
    let s = choose|s: int| is_sqrt_floor(n, s);
    assert(is_sqrt_floor(n, s));
    if s < r {
        assert((s + 1) * (s + 1) <= r * r) by (nonlinear_arith)
            requires
                0 <= s,
                0 <= r,
                s < r,
        ;
    }
    if r < s {
        assert((r + 1) * (r + 1) <= s * s) by (nonlinear_arith)
            requires
                0 <= s,
                0 <= r,
                r < s,
        ;
    }
}

/// Largest upper bound handed to the square-root search: squares up to
/// 4 * 10^15 are representable well inside `i64`.
pub const ISQRT_MAX_INPUT: i64 = 4_000_000_000_000_000;

/// Rounded-down integer square root by binary search.
pub fn isqrt(n: i64) -> (r: i64)
    requires
        0 <= n <= ISQRT_MAX_INPUT,
    ensures
        is_sqrt_floor(n as int, r as int),
        r as int == sqrt_floor(n as int),
        0 <= r,
{
    let mut lo: i64 = 0;
    let mut hi: i64 = 63_245_553;
    proof {
        assert(n < (63_245_553i64 + 1) * (63_245_553i64 + 1)) by (nonlinear_arith)
            requires
                n <= 4_000_000_000_000_000i64,
        ;
    }
    while lo < hi
        invariant
            0 <= lo <= hi <= 63_245_553,
            lo * lo <= n,
            n < (hi + 1) * (hi + 1),
        decreases hi - lo,
    {
        let mid = lo + (hi - lo + 1) / 2;
        proof {
            lemma_mul_bound(mid as int, mid as int, 63_245_553);
        }
        if mid * mid <= n {
            lo = mid;
        } else {
            hi = mid - 1;
        }
    }
    proof {
        lemma_sqrt_floor_unique(n as int, lo as int);
    }
    lo
}

/// Executable twin of `orient2`, on bounded fixed-point coordinates.
pub(crate) fn orient_exec(px: i64, py: i64, qx: i64, qy: i64, rx: i64, ry: i64) -> (d: i64)
    requires
        coord_in_bounds(px),
        coord_in_bounds(py),
        coord_in_bounds(qx),
        coord_in_bounds(qy),
        coord_in_bounds(rx),
        coord_in_bounds(ry),
    ensures
        d == orient2((px as int, py as int), (qx as int, qy as int), (rx as int, ry as int)),
{
    proof {
        lemma_mul_bound(qx - px, ry - py, 2_000_000);
        lemma_mul_bound(rx - px, qy - py, 2_000_000);
        assert((qx - px) * (ry - py) <= 4_000_000_000_000int);
        assert((rx - px) * (qy - py) <= 4_000_000_000_000int);
    }
    (qx - px) * (ry - py) - (rx - px) * (qy - py)
}

} // verus!
