//! Iterative ear-clipping triangulation of a sector's corner polygon.
//!
//! A shrinking working list of original corner indices is scanned from the
//! front; the first index whose turn is convex and whose candidate triangle
//! strictly contains no other remaining corner is clipped, its floor and
//! ceiling triangles are emitted against the *original* corner indices, and
//! the scan restarts.  The clipping rules are meant for simple,
//! counter-clockwise, hole-free polygons with no three consecutive collinear
//! corners; a scan that finds no ear reports the polygon as degenerate.

use crate::map::{corners_wf, pt, Corner};
use crate::utils::{orient2, orient_exec};
use vstd::arithmetic::div_mod::{
    lemma_fundamental_div_mod_converse_mod, lemma_mod_division_less_than_divisor, lemma_small_mod,
};
use vstd::prelude::*;

verus! {

/// The working list as it starts: every original corner index, in order.
pub open spec fn init_work(n: int) -> Seq<usize> {
    Seq::new(n as nat, |i: int| i as usize)
}

/// A working list over a corner polygon: at least a triangle remains and
/// every entry indexes a corner.
pub open spec fn work_wf(c: Seq<Corner>, work: Seq<usize>) -> bool {
    &&& 3 <= work.len() <= c.len()
    &&& forall|i: int| 0 <= i < work.len() ==> (#[trigger] work[i]) < c.len()
}

/// The corner the working-list entry at position `i` refers to.
pub open spec fn wpt(c: Seq<Corner>, work: Seq<usize>, i: int) -> (int, int) {
    pt(c[work[i] as int])
}

/// Strictly-inside test for point `p` against triangle `(a, b, c)`, as
/// three same-sign cross products; points on an edge or corner fail it.
pub open spec fn in_triangle_strict(
    p: (int, int),
    a: (int, int),
    b: (int, int),
    c: (int, int),
) -> bool {
    orient2(a, c, p) > 0 && orient2(c, b, p) > 0 && orient2(b, a, p) > 0
}

/// The turn at working-list position `i` (previous -> tip -> next, with
/// wraparound) is convex under the polygon's counter-clockwise winding.
pub open spec fn ear_convex(c: Seq<Corner>, work: Seq<usize>, i: int) -> bool {
    let n = work.len() as int;
    orient2(wpt(c, work, i), wpt(c, work, (i + 1) % n), wpt(c, work, (i - 1) % n)) >= 0
}

/// Working-list position `j` defeats ear candidate `i` by lying strictly
/// inside its candidate triangle.  The scan never tests positions `i - 1`,
/// `i` and `i + 1` (without wraparound).
pub open spec fn blocked_by(c: Seq<Corner>, work: Seq<usize>, i: int, j: int) -> bool {
    let n = work.len() as int;
    &&& j != i - 1
    &&& j != i
    &&& j != i + 1
    &&& in_triangle_strict(
        wpt(c, work, j),
        wpt(c, work, i),
        wpt(c, work, (i + 1) % n),
        wpt(c, work, (i - 1) % n),
    )
}

/// A clippable ear: convex turn, and no remaining corner strictly inside
/// the candidate triangle.
pub open spec fn is_ear(c: Seq<Corner>, work: Seq<usize>, i: int) -> bool {
    ear_convex(c, work, i) && forall|j: int| 0 <= j < work.len() ==> !blocked_by(c, work, i, j)
}

/// Position of the first ear at or after position `i`, if any.
pub open spec fn find_ear_from(c: Seq<Corner>, work: Seq<usize>, i: int) -> Option<int>
    decreases work.len() - i,
{
    if i < 0 || i >= work.len() {
        None
    } else if is_ear(c, work, i) {
        Some(i)
    } else {
        find_ear_from(c, work, i + 1)
    }
}

/// The triangles iterative ear clipping emits, as a flattened sequence of
/// original corner index triples (tip, next, previous); `None` when some
/// scan finds no ear.
pub open spec fn clip_spec(c: Seq<Corner>, work: Seq<usize>) -> Option<Seq<usize>>
    decreases work.len(),
{
    if work.len() < 3 {
        None
    } else if work.len() == 3 {
        Some(seq![work[0], work[1], work[2]])
    } else {
        match find_ear_from(c, work, 0) {
            None => None,
            Some(i) => {
                if 0 <= i < work.len() {
                    let n = work.len() as int;
                    let tri = seq![work[i], work[(i + 1) % n], work[(i - 1) % n]];
                    match clip_spec(c, work.remove(i)) {
                        None => None,
                        Some(rest) => Some(tri + rest),
                    }
                } else {
                    None
                }
            },
        }
    }
}

/// The plane index stream a flattened triple sequence expands to: per
/// triangle six indices — the floor triangle on the even (floor) plane
/// vertices, then the ceiling triangle with reversed winding on the odd
/// (ceiling) ones.
pub open spec fn planes_indices_of(tris: Seq<usize>) -> Seq<u32>
    decreases tris.len(),
{
    if tris.len() < 3 {
        Seq::empty()
    } else {
        seq![
            (2 * tris[0]) as u32,
            (2 * tris[1]) as u32,
            (2 * tris[2]) as u32,
            (2 * tris[0] + 1) as u32,
            (2 * tris[2] + 1) as u32,
            (2 * tris[1] + 1) as u32,
        ] + planes_indices_of(tris.skip(3))
    }
}

/// Appending one triple extends the plane index stream by its six indices.
proof fn lemma_planes_indices_push(tris: Seq<usize>, tri: Seq<usize>)
    requires
        tris.len() % 3 == 0,
        tri.len() == 3,
    ensures
        planes_indices_of(tris + tri) == planes_indices_of(tris) + planes_indices_of(tri),
    decreases tris.len(),
{
    if tris.len() == 0 {
        assert(tris + tri =~= tri);
        assert(tri.skip(3) =~= Seq::<usize>::empty());
        assert(planes_indices_of(tris) + planes_indices_of(tri) =~= planes_indices_of(tri));
    } else {
        lemma_planes_indices_push(tris.skip(3), tri);
        assert((tris + tri).skip(3) =~= tris.skip(3) + tri);
        assert(planes_indices_of(tris + tri) =~= planes_indices_of(tris) + planes_indices_of(
            tri,
        ));
    }
}

/// Executable ear test at working-list position `i`, mirroring `is_ear`.
fn check_ear(corners: &Vec<Corner>, work: &Vec<usize>, i: usize) -> (r: bool)
    requires
        corners_wf(corners@),
        work_wf(corners@, work@),
        i < work.len(),
    ensures
        r == is_ear(corners@, work@, i as int),
{
    let n = work.len();
    let iprev = if i == 0 {
        n - 1
    } else {
        i - 1
    };
    let inext = if i + 1 == n {
        0
    } else {
        i + 1
    };
    proof {
        let ni = n as int;
        if i == 0 {
            lemma_fundamental_div_mod_converse_mod(-1, ni, -1, ni - 1);
        } else {
            lemma_small_mod((i - 1) as nat, n as nat);
        }
        if i + 1 == n {
            assert(ni % ni == 0) by {
                lemma_fundamental_div_mod_converse_mod(ni, ni, 1, 0);
            }
        } else {
            lemma_small_mod((i + 1) as nat, n as nat);
        }
    }
    let a = corners[work[i]];
    let b = corners[work[inext]];
    let c = corners[work[iprev]];
    if orient_exec(a.0, a.1, b.0, b.1, c.0, c.1) < 0 {
        return false;
    }
    for j in 0..n
        invariant
            corners_wf(corners@),
            work_wf(corners@, work@),
            n == work.len(),
            i < n,
            a == corners@[work@[i as int] as int],
            b == corners@[work@[(i as int + 1) % n as int] as int],
            c == corners@[work@[(i as int - 1) % n as int] as int],
            forall|k: int| 0 <= k < j ==> !blocked_by(corners@, work@, i as int, k),
    {
        if !(j == i || (i > 0 && j == i - 1) || j == i + 1) {
            let p = corners[work[j]];
            if orient_exec(a.0, a.1, c.0, c.1, p.0, p.1) > 0 && orient_exec(
                c.0,
                c.1,
                b.0,
                b.1,
                p.0,
                p.1,
            ) > 0 && orient_exec(b.0, b.1, a.0, a.1, p.0, p.1) > 0 {
                proof {
                    assert(blocked_by(corners@, work@, i as int, j as int));
                }
                return false;
            }
        }
    }
    true
}

/// Scan for the first clippable ear, front to back.
fn find_ear(corners: &Vec<Corner>, work: &Vec<usize>) -> (r: Option<usize>)
    requires
        corners_wf(corners@),
        work_wf(corners@, work@),
    ensures
        match r {
            Some(i) => i < work.len() && find_ear_from(corners@, work@, 0) == Some(i as int),
            None => find_ear_from(corners@, work@, 0) is None,
        },
{
    for i in 0..work.len()
        invariant
            corners_wf(corners@),
            work_wf(corners@, work@),
            find_ear_from(corners@, work@, 0) == find_ear_from(corners@, work@, i as int),
    {
        if check_ear(corners, work, i) {
            return Some(i);
        }
    }
    None
}

/// Triangulates the corner polygon for both floor and ceiling: `Some`
/// stream of `6 * (N - 2)` plane indices exactly as the clipping process
/// (`clip_spec`) emits them, or `None` when the polygon is degenerate (a
/// scan without a valid ear).
pub fn triangulate(corners: &Vec<Corner>) -> (r: Option<Vec<u32>>)
    requires
        corners_wf(corners@),
    ensures
        match r {
            Some(pi) => clip_spec(corners@, init_work(corners@.len() as int)) matches Some(tris)
                && pi@ == planes_indices_of(tris),
            None => clip_spec(corners@, init_work(corners@.len() as int)) is None,
        },
{
    let n = corners.len();
    let mut work: Vec<usize> = Vec::new();
    for i in 0..n
        invariant
            work@ =~= init_work(i as int),
    {
        work.push(i);
    }
    let mut pi: Vec<u32> = Vec::new();
    let ghost work0 = work@;
    let ghost mut done: Seq<usize> = Seq::empty();
    proof {
        assert(planes_indices_of(done) =~= pi@);
    }
    while work.len() > 3
        invariant
            corners_wf(corners@),
            work_wf(corners@, work@),
            work0 == init_work(corners@.len() as int),
            done.len() % 3 == 0,
            pi@ == planes_indices_of(done),
            match clip_spec(corners@, work@) {
                Some(rest) => clip_spec(corners@, work0) == Some(done + rest),
                None => clip_spec(corners@, work0) is None,
            },
        decreases work.len(),
    {
        let found = find_ear(corners, &work);
        match found {
            None => {
                return None;
            },
            Some(i) => {
                let n_w = work.len();
                let iprev = if i == 0 {
                    n_w - 1
                } else {
                    i - 1
                };
                let inext = if i + 1 == n_w {
                    0
                } else {
                    i + 1
                };
                proof {
                    let ni = n_w as int;
                    if i == 0 {
                        lemma_fundamental_div_mod_converse_mod(-1, ni, -1, ni - 1);
                    } else {
                        lemma_small_mod((i - 1) as nat, n_w as nat);
                    }
                    if i + 1 == n_w {
                        lemma_fundamental_div_mod_converse_mod(ni, ni, 1, 0);
                    } else {
                        lemma_small_mod((i + 1) as nat, n_w as nat);
                    }
                }
                let ta = work[i];
                let tb = work[inext];
                let tc = work[iprev];
                let ghost tri = seq![ta, tb, tc];
                pi.push((2 * ta) as u32);
                pi.push((2 * tb) as u32);
                pi.push((2 * tc) as u32);
                pi.push((2 * ta + 1) as u32);
                pi.push((2 * tc + 1) as u32);
                pi.push((2 * tb + 1) as u32);
                proof {
                    lemma_planes_indices_push(done, tri);
                    assert(tri.skip(3) =~= Seq::<usize>::empty());
                    assert(planes_indices_of(Seq::<usize>::empty()) =~= Seq::<u32>::empty());
                    assert(planes_indices_of(tri) =~= seq![
                        (2 * tri[0]) as u32,
                        (2 * tri[1]) as u32,
                        (2 * tri[2]) as u32,
                        (2 * tri[0] + 1) as u32,
                        (2 * tri[2] + 1) as u32,
                        (2 * tri[1] + 1) as u32,
                    ]);
                    assert(pi@ =~= planes_indices_of(done + tri));
                }
                let ghost work_before = work@;
                work.remove(i);
                proof {
                    let old_done = done;
                    done = done + tri;
                    assert(work@ =~= work_before.remove(i as int));
                    match clip_spec(corners@, work@) {
                        Some(rest) => {
                            assert(clip_spec(corners@, work_before) == Some(tri + rest));
                            assert(old_done + (tri + rest) =~= done + rest);
                        },
                        None => {
                            assert(clip_spec(corners@, work_before) is None);
                        },
                    }
                }
            },
        }
    }
    let ta = work[0];
    let tb = work[1];
    let tc = work[2];
    let ghost tri = seq![ta, tb, tc];
    pi.push((2 * ta) as u32);
    pi.push((2 * tb) as u32);
    pi.push((2 * tc) as u32);
    pi.push((2 * ta + 1) as u32);
    pi.push((2 * tc + 1) as u32);
    pi.push((2 * tb + 1) as u32);
    proof {
        lemma_planes_indices_push(done, tri);
        assert(tri.skip(3) =~= Seq::<usize>::empty());
        assert(planes_indices_of(Seq::<usize>::empty()) =~= Seq::<u32>::empty());
        assert(planes_indices_of(tri) =~= seq![
            (2 * tri[0]) as u32,
            (2 * tri[1]) as u32,
            (2 * tri[2]) as u32,
            (2 * tri[0] + 1) as u32,
            (2 * tri[2] + 1) as u32,
            (2 * tri[1] + 1) as u32,
        ]);
        assert(clip_spec(corners@, work@) == Some(tri));
        assert(pi@ =~= planes_indices_of(done + tri));
    }
    Some(pi)
}

/// Cross product of two position vectors; the shoelace formula's summand.
pub open spec fn xprod(u: (int, int), v: (int, int)) -> int {
    u.0 * v.1 - v.0 * u.1
}

/// Twice the signed area of triangle `(a, b, c)`, written cyclically.
pub open spec fn tri2(a: (int, int), b: (int, int), c: (int, int)) -> int {
    xprod(a, b) + xprod(b, c) + xprod(c, a)
}

/// Partial path sum of shoelace summands over positions `lo .. hi`.
pub open spec fn path_sum(s: Seq<(int, int)>, lo: int, hi: int) -> int
    decreases hi - lo,
{
    if lo >= hi {
        0
    } else {
        xprod(s[lo], s[lo + 1]) + path_sum(s, lo + 1, hi)
    }
}

/// Twice the signed area of the closed polygon `s` (shoelace formula);
/// positive for counter-clockwise winding.
pub open spec fn shoelace(s: Seq<(int, int)>) -> int {
    if s.len() < 3 {
        0
    } else {
        path_sum(s, 0, s.len() - 1) + xprod(s[s.len() - 1], s[0])
    }
}

/// The polygon's corners as specification points.
pub open spec fn poly_pts(c: Seq<Corner>) -> Seq<(int, int)> {
    Seq::new(c.len(), |i: int| pt(c[i]))
}

/// The working list's corners as specification points.
pub open spec fn work_pts(c: Seq<Corner>, work: Seq<usize>) -> Seq<(int, int)> {
    Seq::new(work.len(), |i: int| wpt(c, work, i))
}

/// Sum of the doubled signed areas of a flattened triple sequence's
/// triangles, measured on the original corners.
pub open spec fn tri_area_sum(c: Seq<Corner>, tris: Seq<usize>) -> int
    decreases tris.len(),
{
    if tris.len() < 3 {
        0
    } else {
        orient2(pt(c[tris[0] as int]), pt(c[tris[1] as int]), pt(c[tris[2] as int]))
            + tri_area_sum(c, tris.skip(3))
    }
}

/// `tri2` is the familiar orientation cross product, and is invariant under
/// rotating the triangle's vertices.
proof fn lemma_tri2_orient2(a: (int, int), b: (int, int), c: (int, int))
    ensures
        tri2(a, b, c) == orient2(a, b, c),
        tri2(a, b, c) == tri2(b, c, a),
        xprod(a, b) + xprod(b, a) == 0,
{
    assert(tri2(a, b, c) == orient2(a, b, c)) by (nonlinear_arith);
    assert(tri2(a, b, c) == tri2(b, c, a)) by (nonlinear_arith);
    assert(xprod(a, b) + xprod(b, a) == 0) by (nonlinear_arith);
}

/// Path sums concatenate.
proof fn lemma_path_sum_split(s: Seq<(int, int)>, lo: int, mid: int, hi: int)
    requires
        lo <= mid <= hi,
    ensures
        path_sum(s, lo, hi) == path_sum(s, lo, mid) + path_sum(s, mid, hi),
    decreases mid - lo,
{
    if lo < mid {
        lemma_path_sum_split(s, lo + 1, mid, hi);
    }
}

/// One more edge extends a front-anchored path sum by its summand.
pub proof fn lemma_path_sum_extend(s: Seq<(int, int)>, i: int)
    requires
        0 <= i,
    ensures
        path_sum(s, 0, i + 1) == path_sum(s, 0, i) + xprod(s[i], s[i + 1]),
{
    lemma_path_sum_split(s, 0, i, i + 1);
    assert(path_sum(s, i + 1, i + 1) == 0);
    assert(path_sum(s, i, i + 1) == xprod(s[i], s[i + 1]) + path_sum(s, i + 1, i + 1));
}

/// Path sums only read the positions they cover: a windowed agreement
/// between two sequences (with an index shift) carries the sum over.
proof fn lemma_path_sum_shift(s: Seq<(int, int)>, t: Seq<(int, int)>, d: int, lo: int, hi: int)
    requires
        forall|j: int| lo <= j <= hi ==> #[trigger] t[j] == s[j + d],
    ensures
        path_sum(t, lo, hi) == path_sum(s, lo + d, hi + d),
    decreases hi - lo,
{
    if lo < hi {
        lemma_path_sum_shift(s, t, d, lo + 1, hi);
    }
}

/// Removing one polygon vertex removes exactly the doubled signed area of
/// the triangle it spans with its two (cyclic) neighbours.
pub proof fn lemma_shoelace_remove(s: Seq<(int, int)>, i: int)
    requires
        4 <= s.len(),
        0 <= i < s.len(),
    ensures
        shoelace(s) == shoelace(s.remove(i)) + tri2(
            s[(i - 1) % s.len() as int],
            s[i],
            s[(i + 1) % s.len() as int],
        ),
{
    let n = s.len() as int;
    let r = s.remove(i);
    assert(r.len() == n - 1);
    assert(forall|j: int| 0 <= j < i ==> #[trigger] r[j] == s[j]);
    assert(forall|j: int| i <= j < n - 1 ==> #[trigger] r[j] == s[j + 1]);
    if i == 0 {
        lemma_fundamental_div_mod_converse_mod(-1, n, -1, n - 1);
        lemma_small_mod(1nat, n as nat);
        lemma_path_sum_split(s, 0, 1, n - 1);
        assert(path_sum(s, 0, 1) == xprod(s[0], s[1]));
        lemma_path_sum_shift(s, r, 1, 0, n - 2);
        lemma_tri2_orient2(s[n - 1], s[0], s[1]);
        assert(xprod(s[1], s[n - 1]) + xprod(s[n - 1], s[1]) == 0) by (nonlinear_arith);
    } else if i == n - 1 {
        lemma_small_mod((i - 1) as nat, n as nat);
        assert(n % n == 0) by {
            lemma_fundamental_div_mod_converse_mod(n, n, 1, 0);
        }
        lemma_path_sum_split(s, 0, n - 2, n - 1);
        assert(path_sum(s, n - 1, n - 1) == 0);
        assert(path_sum(s, n - 2, n - 1) == xprod(s[n - 2], s[n - 1]));
        lemma_path_sum_shift(s, r, 0, 0, n - 2);
        lemma_tri2_orient2(s[n - 2], s[n - 1], s[0]);
        assert(xprod(s[n - 2], s[0]) + xprod(s[0], s[n - 2]) == 0) by (nonlinear_arith);
    } else {
        lemma_small_mod((i - 1) as nat, n as nat);
        lemma_small_mod((i + 1) as nat, n as nat);
        lemma_path_sum_split(s, 0, i - 1, n - 1);
        lemma_path_sum_split(s, i - 1, i + 1, n - 1);
        lemma_path_sum_split(s, i - 1, i, i + 1);
        assert(path_sum(s, i, i) == 0);
        assert(path_sum(s, i + 1, i + 1) == 0);
        assert(path_sum(s, i - 1, i) == xprod(s[i - 1], s[i]));
        assert(path_sum(s, i, i + 1) == xprod(s[i], s[i + 1]));
        lemma_path_sum_split(r, 0, i - 1, n - 2);
        lemma_path_sum_split(r, i - 1, i, n - 2);
        assert(path_sum(r, i, i) == 0);
        assert(path_sum(r, i - 1, i) == xprod(r[i - 1], r[i]));
        lemma_path_sum_shift(s, r, 0, 0, i - 1);
        lemma_path_sum_shift(s, r, 1, i, n - 2);
        lemma_tri2_orient2(s[i - 1], s[i], s[i + 1]);
        assert(xprod(s[i - 1], s[i + 1]) + xprod(s[i + 1], s[i - 1]) == 0) by (nonlinear_arith);
    }
}

/// A successful ear search lands on an ear, at or after where it started.
proof fn lemma_find_ear_range(c: Seq<Corner>, work: Seq<usize>, i0: int, i: int)
    requires
        0 <= i0,
        find_ear_from(c, work, i0) == Some(i),
    ensures
        i0 <= i < work.len(),
        is_ear(c, work, i),
    decreases work.len() - i0,
{
    if i0 < work.len() && !is_ear(c, work, i0) {
        lemma_find_ear_range(c, work, i0 + 1, i);
    }
}

/// Core induction behind the triangulation law: whatever working list the
/// clipping process is down to, a successful run emits one triangle per
/// clipped vertex plus the final one, and their doubled signed areas sum to
/// the remaining polygon's doubled shoelace area.
proof fn lemma_clip_count_area(c: Seq<Corner>, work: Seq<usize>, tris: Seq<usize>)
    requires
        3 <= work.len(),
        forall|i: int| 0 <= i < work.len() ==> (#[trigger] work[i]) < c.len(),
        clip_spec(c, work) == Some(tris),
    ensures
        tris.len() == 3 * (work.len() - 2),
        tri_area_sum(c, tris) == shoelace(work_pts(c, work)),
        forall|t: int|
            0 <= t < tris.len() / 3 - 1 ==> #[trigger] orient2(
                pt(c[tris[3 * t] as int]),
                pt(c[tris[3 * t + 1] as int]),
                pt(c[tris[3 * t + 2] as int]),
            ) >= 0,
    decreases work.len(),
{
    let n = work.len() as int;
    let wp = work_pts(c, work);
    if work.len() == 3 {
        assert(tris =~= seq![work[0], work[1], work[2]]);
        assert(tris.skip(3) =~= Seq::<usize>::empty());
        lemma_tri2_orient2(wp[0], wp[1], wp[2]);
        assert(path_sum(wp, 2, 2) == 0);
        assert(path_sum(wp, 1, 2) == xprod(wp[1], wp[2]) + path_sum(wp, 2, 2));
        assert(path_sum(wp, 0, 2) == xprod(wp[0], wp[1]) + path_sum(wp, 1, 2));
        assert(tri_area_sum(c, Seq::<usize>::empty()) == 0);
        assert(tri_area_sum(c, tris.skip(3)) == 0);
        assert(tri_area_sum(c, tris) == orient2(wp[0], wp[1], wp[2]));
    } else {
        let i = find_ear_from(c, work, 0)->Some_0;
        lemma_find_ear_range(c, work, 0, i);
        let tri = seq![work[i], work[(i + 1) % n], work[(i - 1) % n]];
        let w2 = work.remove(i);
        let rest = clip_spec(c, w2)->Some_0;
        assert(tris == tri + rest);
        assert(forall|j: int| 0 <= j < w2.len() ==> (#[trigger] w2[j]) < c.len());
        lemma_clip_count_area(c, w2, rest);
        assert(tris.skip(3) =~= rest);
        lemma_mod_division_less_than_divisor(i + 1, n);
        lemma_mod_division_less_than_divisor(i - 1, n);
        let prev = wp[(i - 1) % n];
        let tip = wp[i];
        let next = wp[(i + 1) % n];
        assert(tri_area_sum(c, tris) == orient2(tip, next, prev) + tri_area_sum(c, rest));
        lemma_shoelace_remove(wp, i);
        assert(work_pts(c, w2) =~= wp.remove(i));
        lemma_tri2_orient2(tip, next, prev);
        assert(tri2(tip, next, prev) == tri2(prev, tip, next)) by {
            lemma_tri2_orient2(prev, tip, next);
            assert(tri2(prev, tip, next) == tri2(tip, next, prev)) by (nonlinear_arith);
        }
        assert forall|t: int|
            0 <= t < tris.len() / 3 - 1 implies #[trigger] orient2(
            pt(c[tris[3 * t] as int]),
            pt(c[tris[3 * t + 1] as int]),
            pt(c[tris[3 * t + 2] as int]),
        ) >= 0 by {
            if t == 0 {
                assert(is_ear(c, work, i));
                assert(tris[0] == work[i] && tris[1] == work[(i + 1) % n] && tris[2] == work[(i
                    - 1) % n]);
            } else {
                assert(tris[3 * t] == rest[3 * (t - 1)]);
                assert(tris[3 * t + 1] == rest[3 * (t - 1) + 1]);
                assert(tris[3 * t + 2] == rest[3 * (t - 1) + 2]);
                assert(orient2(
                    pt(c[rest[3 * (t - 1)] as int]),
                    pt(c[rest[3 * (t - 1) + 1] as int]),
                    pt(c[rest[3 * (t - 1) + 2] as int]),
                ) >= 0);
            }
        }
    }
}

/// For any corner polygon on which the ear-clipping process succeeds, it
/// emits exactly `N - 2` triangles per planar surface (floor and ceiling
/// alike), and the sum of the emitted triangles' doubled signed areas
/// equals the polygon's doubled shoelace area exactly: the triangulation
/// tiles the polygon without gap or overlap of area.  Every clipped ear
/// (each emitted triangle but the final one) passed the convexity test,
/// so its signed area is itself non-negative.
pub proof fn lemma_triangulation_count_and_area(c: Seq<Corner>, tris: Seq<usize>)
    requires
        3 <= c.len() <= usize::MAX,
        clip_spec(c, init_work(c.len() as int)) == Some(tris),
    ensures
        tris.len() == 3 * (c.len() - 2),
        tri_area_sum(c, tris) == shoelace(poly_pts(c)),
        forall|t: int|
            0 <= t < tris.len() / 3 - 1 ==> #[trigger] orient2(
                pt(c[tris[3 * t] as int]),
                pt(c[tris[3 * t + 1] as int]),
                pt(c[tris[3 * t + 2] as int]),
            ) >= 0,
{
    let w0 = init_work(c.len() as int);
    assert(forall|i: int| 0 <= i < w0.len() ==> (#[trigger] w0[i]) < c.len());
    lemma_clip_count_area(c, w0, tris);
    assert forall|i: int| 0 <= i < c.len() implies work_pts(c, w0)[i] == poly_pts(c)[i] by {
        assert(w0[i] == i as usize);
    }
    assert(work_pts(c, w0) =~= poly_pts(c));
}

} // verus!
