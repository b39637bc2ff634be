//! The built world: per-sector polygon data plus generated meshes, and the
//! mesh builder itself.  The builder turns a plain level description
//! (`mapdata::Data`) into wall strips, triangulated floor/ceiling planes and
//! portal connector quads, validating the level invariants on the way.

use crate::earclip::{clip_spec, init_work, path_sum, planes_indices_of, poly_pts, shoelace, xprod};
use crate::mapdata;
use crate::sector::{Sector as SectorMesh, TextureData, Vertex, CEILING, FLOOR, GATE, WALL};
use crate::utils::{
    coord_in_bounds, is_sqrt_floor, isqrt, lemma_mul_bound, lemma_sqrt_floor_unique, sqrt_floor,
    COORD_LIMIT, SCALE,
};
use vstd::arithmetic::div_mod::{
    lemma_div_nonincreasing, lemma_div_pos_is_pos, lemma_mod_division_less_than_divisor,
    lemma_mod_self_0, lemma_small_mod,
};
use vstd::prelude::*;

verus! {

/// A 2D point in the (x, z) plane.
pub type Corner = (i64, i64);

/// A permeable polygon edge leading into another sector.
#[derive(Clone, Copy)]
pub struct Gate {
    pub own: u32,
    pub target_sector: u32,
    pub target_gate: u32,
}

/// A sector of the built world: heights, boundary polygon, gates, and the
/// generated mesh.
pub struct Sector {
    pub floor: i64,
    pub ceiling: i64,
    pub corners: Vec<Corner>,
    pub gates: Vec<Gate>,
    pub mesh: SectorMesh,
}

/// The built world.  (Named `WorldMap` because Verus reserves `Map`.)
pub struct WorldMap {
    pub path: String,
    pub name: String,
    pub description: String,
    pub sectors: Vec<Sector>,
    pub spawn: (i64, i64, i64),
}

/// Most corners a sector polygon may have; keeps every vertex index inside
/// `u32` and every accumulated texture coordinate inside `i64`.
pub const MAX_CORNERS: usize = 100_000;

/// A corner as a pair of unbounded integers, for specification arithmetic.
pub open spec fn pt(c: Corner) -> (int, int) {
    (c.0 as int, c.1 as int)
}

/// Squared Euclidean distance.
pub open spec fn dist2(a: (int, int), b: (int, int)) -> int {
    (b.0 - a.0) * (b.0 - a.0) + (b.1 - a.1) * (b.1 - a.1)
}

/// Rounded-down Euclidean distance between two corners.
pub open spec fn edge_len(a: (int, int), b: (int, int)) -> int {
    sqrt_floor(dist2(a, b))
}

/// Texture-coordinate length of one wall edge: corner-to-corner distance
/// divided by the wall height `h`, in fixed-point steps — so wall texture
/// scale is uniform regardless of wall length.
pub open spec fn tex_step(a: (int, int), b: (int, int), h: int) -> int {
    edge_len(a, b) * SCALE / h
}

/// Accumulated texture coordinate after walking the first `k` edges of the
/// closed corner polygon (edge `e` runs from corner `e` to corner
/// `(e + 1) % len`; `k` may reach `len`, closing the polygon).
pub open spec fn tex_accum(c: Seq<Corner>, h: int, k: int) -> int
    decreases k,
{
    if k <= 0 || c.len() == 0 {
        0
    } else {
        tex_accum(c, h, k - 1) + tex_step(
            pt(c[(k - 1) % c.len() as int]),
            pt(c[k % c.len() as int]),
            h,
        )
    }
}

/// Full-cycle accumulated texture coordinate: the polygon perimeter in
/// texture units.
pub open spec fn tex_perimeter(c: Seq<Corner>, h: int) -> int {
    tex_accum(c, h, c.len() as int)
}

/// A wall-stream vertex at corner `c`, height `y`: the running texture
/// coordinate is `s`, and `t` is 0 at the floor and `SCALE` at the ceiling.
/// The renderer's z axis points the other way, hence the negated z.
pub open spec fn spec_wall_vertex(c: Corner, y: i64, s: int, t: i64) -> Vertex {
    Vertex { x: c.0, y: y, z: (-(c.1 as int)) as i64, s: s as i64, t: t, vtype: WALL }
}

/// A plane-stream vertex at corner `c`, height `y`, tagged `FLOOR` or
/// `CEILING`; floor/ceiling textures tile by world coordinates.
pub open spec fn spec_plane_vertex(c: Corner, y: i64, tag: u32) -> Vertex {
    Vertex { x: c.0, y: y, z: (-(c.1 as int)) as i64, s: c.0, t: c.1, vtype: tag }
}

/// The whole wall vertex stream as one sequence: floor/ceiling pairs per
/// corner, then the closing pair at the first corner.
pub open spec fn wall_vertices_spec(floor: i64, ceiling: i64, c: Seq<Corner>) -> Seq<Vertex> {
    Seq::new(
        (2 * c.len() + 2) as nat,
        |k: int|
            {
                let i = k / 2;
                let ci = if i < c.len() {
                    i
                } else {
                    0
                };
                let sacc = tex_accum(c, ceiling - floor, i);
                if k % 2 == 0 {
                    spec_wall_vertex(c[ci], floor, sacc, 0)
                } else {
                    spec_wall_vertex(c[ci], ceiling, sacc, SCALE)
                }
            },
    )
}

/// The whole plane vertex stream as one sequence: a floor/ceiling pair per
/// corner.
pub open spec fn plane_vertices_spec(floor: i64, ceiling: i64, c: Seq<Corner>) -> Seq<Vertex> {
    Seq::new(
        (2 * c.len()) as nat,
        |k: int|
            if k % 2 == 0 {
                spec_plane_vertex(c[k / 2], floor, FLOOR)
            } else {
                spec_plane_vertex(c[k / 2], ceiling, CEILING)
            },
    )
}

/// Well-formed polygon: at least a triangle, not oversized, all coordinates
/// bounded.
pub open spec fn corners_wf(c: Seq<Corner>) -> bool {
    &&& 3 <= c.len() <= MAX_CORNERS
    &&& forall|i: int|
        0 <= i < c.len() ==> coord_in_bounds((#[trigger] c[i]).0) && coord_in_bounds(c[i].1)
}

/// Habitable heights: bounded, and the floor strictly below the ceiling.
pub open spec fn heights_wf(floor: i64, ceiling: i64) -> bool {
    coord_in_bounds(floor) && coord_in_bounds(ceiling) && floor < ceiling
}

/// One texture-unit edge length is at most 3 * 10^9 fixed-point steps when
/// coordinates are bounded and the divisor is at least 1.
proof fn lemma_tex_step_bound(a: (int, int), b: (int, int), h: int)
    requires
        -(COORD_LIMIT as int) <= a.0 <= COORD_LIMIT as int,
        -(COORD_LIMIT as int) <= a.1 <= COORD_LIMIT as int,
        -(COORD_LIMIT as int) <= b.0 <= COORD_LIMIT as int,
        -(COORD_LIMIT as int) <= b.1 <= COORD_LIMIT as int,
        1 <= h,
    ensures
        0 <= tex_step(a, b, h) <= 3_000_000_000,
        0 <= dist2(a, b) <= 8_000_000_000_000,
        0 <= edge_len(a, b) <= 2_828_427,
{
    lemma_mul_bound(b.0 - a.0, b.0 - a.0, 2_000_000);
    lemma_mul_bound(b.1 - a.1, b.1 - a.1, 2_000_000);
    assert((b.0 - a.0) * (b.0 - a.0) >= 0) by (nonlinear_arith);
    assert((b.1 - a.1) * (b.1 - a.1) >= 0) by (nonlinear_arith);
    let d2 = dist2(a, b);
    let r = sqrt_floor(d2);
    assert(is_sqrt_floor(d2, r)) by {
        lemma_sqrt_exists(d2);
    }
    assert(r <= 2_828_427) by (nonlinear_arith)
        requires
            is_sqrt_floor(d2, r),
            d2 <= 8_000_000_000_000,
    ;
    lemma_div_pos_is_pos(r * SCALE, h);
    lemma_div_nonincreasing(r * SCALE, h);
    assert(r * SCALE / h <= r * SCALE);
}

/// A rounded-down square root exists for every non-negative integer.
proof fn lemma_sqrt_exists(n: int)
    requires
        0 <= n,
    ensures
        is_sqrt_floor(n, sqrt_floor(n)),
    decreases n,
{
    if n == 0 {
        assert(is_sqrt_floor(0, 0));
    } else {
        lemma_sqrt_exists(n - 1);
        let r = sqrt_floor(n - 1);
        assert(is_sqrt_floor(n - 1, r));
        if (r + 1) * (r + 1) <= n {
            assert(is_sqrt_floor(n, r + 1)) by (nonlinear_arith)
                requires
                    is_sqrt_floor(n - 1, r),
                    (r + 1) * (r + 1) <= n,
            ;
        } else {
            assert(is_sqrt_floor(n, r));
        }
    }
    let w = choose|w: int| is_sqrt_floor(n, w);
    lemma_sqrt_floor_unique(n, w);
}

/// Executable edge texture length: `edge_len(a, b) * SCALE / h` exactly.
fn edge_tex_step(a: Corner, b: Corner, h: i64) -> (s: i64)
    requires
        coord_in_bounds(a.0) && coord_in_bounds(a.1),
        coord_in_bounds(b.0) && coord_in_bounds(b.1),
        1 <= h,
    ensures
        s == tex_step(pt(a), pt(b), h as int),
        0 <= s <= 3_000_000_000,
{
    proof {
        lemma_tex_step_bound(pt(a), pt(b), h as int);
        lemma_mul_bound(b.0 - a.0, b.0 - a.0, 2_000_000);
        lemma_mul_bound(b.1 - a.1, b.1 - a.1, 2_000_000);
    }
    let dx = b.0 - a.0;
    let dz = b.1 - a.1;
    let d2 = dx * dx + dz * dz;
    let r = isqrt(d2);
    proof {
        lemma_sqrt_exists(dist2(pt(a), pt(b)));
        assert(0 <= r <= 2_828_427) by (nonlinear_arith)
            requires
                is_sqrt_floor(d2 as int, r as int),
                0 <= d2 <= 8_000_000_000_000,
        ;
    }
    (r * SCALE) / h
}

/// Builds the wall vertex stream: per corner a floor/ceiling vertex pair
/// carrying the running texture coordinate, then one extra closing pair at
/// the first corner carrying the wrapped-around full perimeter, so the
/// texture does not snap back where the polygon closes.
pub fn build_wall_vertices(floor: i64, ceiling: i64, corners: &Vec<Corner>) -> (wv: Vec<Vertex>)
    requires
        corners_wf(corners@),
        heights_wf(floor, ceiling),
    ensures
        wv.len() == 2 * corners.len() + 2,
        forall|i: int|
            0 <= i < corners.len() ==> #[trigger] wv[2 * i] == spec_wall_vertex(
                corners[i],
                floor,
                tex_accum(corners@, ceiling - floor, i),
                0,
            ),
        forall|i: int|
            0 <= i < corners.len() ==> #[trigger] wv[2 * i + 1] == spec_wall_vertex(
                corners[i],
                ceiling,
                tex_accum(corners@, ceiling - floor, i),
                SCALE,
            ),
        wv[2 * corners.len() as int] == spec_wall_vertex(
            corners[0],
            floor,
            tex_perimeter(corners@, ceiling - floor),
            0,
        ),
        wv[2 * corners.len() as int + 1] == spec_wall_vertex(
            corners[0],
            ceiling,
            tex_perimeter(corners@, ceiling - floor),
            SCALE,
        ),
        wv@ == wall_vertices_spec(floor, ceiling, corners@),
{
    let h = ceiling - floor;
    let n = corners.len();
    let mut wv: Vec<Vertex> = Vec::new();
    let mut diff: i64 = 0;
    for i in 0..n
        invariant
            corners_wf(corners@),
            heights_wf(floor, ceiling),
            h == ceiling - floor,
            n == corners.len(),
            wv.len() == 2 * i,
            diff == tex_accum(corners@, h as int, i as int - 1),
            0 <= diff <= 3_000_000_000 * (i as int),
            forall|j: int|
                0 <= j < i ==> #[trigger] wv[2 * j] == spec_wall_vertex(
                    corners[j],
                    floor,
                    tex_accum(corners@, h as int, j),
                    0,
                ),
            forall|j: int|
                0 <= j < i ==> #[trigger] wv[2 * j + 1] == spec_wall_vertex(
                    corners[j],
                    ceiling,
                    tex_accum(corners@, h as int, j),
                    SCALE,
                ),
    {
        if i > 0 {
            proof {
                assert(coord_in_bounds(corners@[i as int - 1].0) && coord_in_bounds(
                    corners@[i as int - 1].1,
                ));
                assert(coord_in_bounds(corners@[i as int].0) && coord_in_bounds(
                    corners@[i as int].1,
                ));
            }
            let step = edge_tex_step(corners[i - 1], corners[i], h);
            diff = diff + step;
            proof {
                let n_i = corners@.len() as int;
                lemma_small_mod((i - 1) as nat, corners@.len());
                lemma_small_mod(i as nat, corners@.len());
                assert(diff == tex_accum(corners@, h as int, i as int));
            }
        }
        let c = corners[i];
        wv.push(Vertex { x: c.0, y: floor, z: -c.1, s: diff, t: 0, vtype: WALL });
        wv.push(Vertex { x: c.0, y: ceiling, z: -c.1, s: diff, t: SCALE, vtype: WALL });
        proof {
            assert(tex_accum(corners@, h as int, i as int) == diff);
        }
    }
    let step = edge_tex_step(corners[n - 1], corners[0], h);
    diff = diff + step;
    proof {
        lemma_small_mod((n - 1) as nat, corners@.len());
        assert(corners@.len() as int % corners@.len() as int == 0) by {
            lemma_mod_self_0(corners@.len() as int);
        }
        assert(diff == tex_perimeter(corners@, h as int));
    }
    let c = corners[0];
    wv.push(Vertex { x: c.0, y: floor, z: -c.1, s: diff, t: 0, vtype: WALL });
    wv.push(Vertex { x: c.0, y: ceiling, z: -c.1, s: diff, t: SCALE, vtype: WALL });
    proof {
        let ws = wall_vertices_spec(floor, ceiling, corners@);
        assert forall|k: int| 0 <= k < wv@.len() implies wv@[k] == ws[k] by {
            let i = k / 2;
            if k % 2 == 0 {
                assert(k == 2 * i);
                assert(wv@[2 * i] == ws[k]);
            } else {
                assert(k == 2 * i + 1);
                assert(wv@[2 * i + 1] == ws[k]);
            }
        }
        assert(wv@ =~= ws);
    }
    wv
}

/// Builds the plane vertex stream: per corner one `FLOOR` and one `CEILING`
/// vertex, textured by world coordinates.
pub fn build_plane_vertices(floor: i64, ceiling: i64, corners: &Vec<Corner>) -> (pv: Vec<Vertex>)
    requires
        corners_wf(corners@),
        heights_wf(floor, ceiling),
    ensures
        pv.len() == 2 * corners.len(),
        forall|i: int|
            0 <= i < corners.len() ==> #[trigger] pv[2 * i] == spec_plane_vertex(
                corners[i],
                floor,
                FLOOR,
            ),
        forall|i: int|
            0 <= i < corners.len() ==> #[trigger] pv[2 * i + 1] == spec_plane_vertex(
                corners[i],
                ceiling,
                CEILING,
            ),
        pv@ == plane_vertices_spec(floor, ceiling, corners@),
{
    let n = corners.len();
    let mut pv: Vec<Vertex> = Vec::new();
    for i in 0..n
        invariant
            corners_wf(corners@),
            n == corners.len(),
            pv.len() == 2 * i,
            forall|j: int|
                0 <= j < i ==> #[trigger] pv[2 * j] == spec_plane_vertex(corners[j], floor, FLOOR),
            forall|j: int|
                0 <= j < i ==> #[trigger] pv[2 * j + 1] == spec_plane_vertex(
                    corners[j],
                    ceiling,
                    CEILING,
                ),
    {
        let c = corners[i];
        pv.push(Vertex { x: c.0, y: floor, z: -c.1, s: c.0, t: c.1, vtype: FLOOR });
        pv.push(Vertex { x: c.0, y: ceiling, z: -c.1, s: c.0, t: c.1, vtype: CEILING });
    }
    proof {
        let ps = plane_vertices_spec(floor, ceiling, corners@);
        assert forall|k: int| 0 <= k < pv@.len() implies pv@[k] == ps[k] by {
            let i = k / 2;
            if k % 2 == 0 {
                assert(k == 2 * i);
                assert(pv@[2 * i] == ps[k]);
            } else {
                assert(k == 2 * i + 1);
                assert(pv@[2 * i + 1] == ps[k]);
            }
        }
        assert(pv@ =~= ps);
    }
    pv
}

/// Whether polygon edge `e` is covered by one of the sector's gates.
pub open spec fn has_gate(gates: Seq<Gate>, e: u32) -> bool {
    exists|g: int| 0 <= g < gates.len() && (#[trigger] gates[g]).own == e
}

/// The six wall-stream indices a solid (non-gate) edge `e` contributes: one
/// quad, wound as two triangles facing into the room.  A gate edge
/// contributes nothing.
pub open spec fn edge_quad(gates: Seq<Gate>, e: int) -> Seq<u32> {
    if has_gate(gates, e as u32) {
        Seq::empty()
    } else {
        seq![
            (2 * e) as u32,
            (2 * e + 1) as u32,
            (2 * e + 2) as u32,
            (2 * e + 1) as u32,
            (2 * e + 3) as u32,
            (2 * e + 2) as u32,
        ]
    }
}

/// Wall index stream for the first `k` edges.
pub open spec fn wall_indices_spec(gates: Seq<Gate>, k: int) -> Seq<u32>
    decreases k,
{
    if k <= 0 {
        Seq::empty()
    } else {
        wall_indices_spec(gates, k - 1) + edge_quad(gates, k - 1)
    }
}

/// How many of the first `k` edges are gate edges.
pub open spec fn num_gate_edges(gates: Seq<Gate>, k: int) -> int
    decreases k,
{
    if k <= 0 {
        0
    } else {
        num_gate_edges(gates, k - 1) + if has_gate(gates, (k - 1) as u32) {
            1int
        } else {
            0int
        }
    }
}

/// Gate-edge counts grow by at most one per edge.
pub proof fn lemma_num_gate_edges_mono(gates: Seq<Gate>, j: int, k: int)
    requires
        0 <= j <= k,
    ensures
        num_gate_edges(gates, j) <= num_gate_edges(gates, k) <= num_gate_edges(gates, j) + (k - j),
        0 <= num_gate_edges(gates, k) - num_gate_edges(gates, j) <= k - j,
    decreases k - j,
{
    if j < k {
        lemma_num_gate_edges_mono(gates, j, k - 1);
    }
}

/// Every non-gate edge produces exactly one wall quad (two triangles, six
/// indices) and every gate edge produces none: the stream's length counts
/// only the non-gate edges, and the quad of non-gate edge `e` stands at
/// position `6 * (e - gate edges before e)`, exactly once.
pub proof fn lemma_wall_quads(gates: Seq<Gate>, n: int)
    requires
        0 <= n,
    ensures
        wall_indices_spec(gates, n).len() == 6 * (n - num_gate_edges(gates, n)),
        0 <= num_gate_edges(gates, n) <= n,
        forall|e: int|
            0 <= e < n && !has_gate(gates, e as u32) ==> #[trigger] wall_indices_spec(
                gates,
                n,
            ).subrange(
                6 * (e - num_gate_edges(gates, e)),
                6 * (e - num_gate_edges(gates, e)) + 6,
            ) =~= edge_quad(gates, e),
    decreases n,
{
    lemma_num_gate_edges_mono(gates, 0, n);
    if n > 0 {
        lemma_wall_quads(gates, n - 1);
        let prev = wall_indices_spec(gates, n - 1);
        let cur = wall_indices_spec(gates, n);
        assert forall|e: int|
            0 <= e < n && !has_gate(gates, e as u32) implies #[trigger] cur.subrange(
            6 * (e - num_gate_edges(gates, e)),
            6 * (e - num_gate_edges(gates, e)) + 6,
        ) =~= edge_quad(gates, e) by {
            let off = 6 * (e - num_gate_edges(gates, e));
            lemma_num_gate_edges_mono(gates, 0, e);
            if e < n - 1 {
                lemma_num_gate_edges_mono(gates, e + 1, n - 1);
                assert(num_gate_edges(gates, e + 1) == num_gate_edges(gates, e));
                assert(off + 6 <= prev.len());
                assert(prev.subrange(off, off + 6) =~= edge_quad(gates, e));
                assert(cur.subrange(off, off + 6) =~= prev.subrange(off, off + 6));
            } else {
                assert(off == prev.len());
                assert(cur.subrange(off, off + 6) =~= edge_quad(gates, e));
            }
        }
    }
}

/// Walking the polygon in order, the accumulated wall texture coordinate
/// never decreases; at `k == len` it has reached the full perimeter in
/// texture units.
pub proof fn lemma_wall_tex_monotone(c: Seq<Corner>, h: int, j: int, k: int)
    requires
        corners_wf(c),
        1 <= h,
        0 <= j <= k <= c.len(),
    ensures
        tex_accum(c, h, j) <= tex_accum(c, h, k),
        tex_accum(c, h, k) <= tex_perimeter(c, h),
    decreases c.len() - k, k - j,
{
    if j < k {
        lemma_tex_accum_step_nonneg(c, h, j + 1);
        lemma_wall_tex_monotone(c, h, j + 1, k);
    } else if k < c.len() {
        lemma_wall_tex_monotone(c, h, k, c.len() as int);
    }
}

/// The accumulated texture coordinate stays within `3 * 10^9` per edge
/// walked, so it fits an `i64` for any polygon the builder accepts.
pub proof fn lemma_tex_accum_bound(c: Seq<Corner>, h: int, k: int)
    requires
        corners_wf(c),
        1 <= h,
        0 <= k <= c.len(),
    ensures
        0 <= tex_accum(c, h, k) <= 3_000_000_000 * k,
    decreases k,
{
    if k > 0 {
        lemma_tex_accum_bound(c, h, k - 1);
        let n_i = c.len() as int;
        lemma_mod_division_less_than_divisor(k - 1, n_i);
        lemma_mod_division_less_than_divisor(k, n_i);
        lemma_tex_step_bound(pt(c[(k - 1) % n_i]), pt(c[k % n_i]), h);
    }
}

/// Walking the built wall vertex stream in order, the texture coordinate
/// `s` never decreases, and the closing vertex pair carries the polygon's
/// full perimeter in texture units: the tiling has no seam where the
/// polygon closes.
pub proof fn lemma_wall_stream_tex_monotone(floor: i64, ceiling: i64, c: Seq<Corner>)
    requires
        corners_wf(c),
        heights_wf(floor, ceiling),
    ensures
        forall|k1: int, k2: int|
            0 <= k1 <= k2 < wall_vertices_spec(floor, ceiling, c).len()
                ==> #[trigger] wall_vertices_spec(floor, ceiling, c)[k1].s
                <= #[trigger] wall_vertices_spec(floor, ceiling, c)[k2].s,
        wall_vertices_spec(floor, ceiling, c)[2 * c.len() as int].s == tex_perimeter(
            c,
            ceiling - floor,
        ) as i64,
{
    let h = ceiling - floor;
    let ws = wall_vertices_spec(floor, ceiling, c);
    assert forall|k1: int, k2: int|
        0 <= k1 <= k2 < ws.len() implies #[trigger] ws[k1].s <= #[trigger] ws[k2].s by {
        let i1 = k1 / 2;
        let i2 = k2 / 2;
        lemma_tex_accum_bound(c, h as int, i1);
        lemma_tex_accum_bound(c, h as int, i2);
        lemma_wall_tex_monotone(c, h as int, i1, i2);
    }
    lemma_tex_accum_bound(c, h as int, c.len() as int);
}

/// The `k`-th accumulation step adds a non-negative amount.
proof fn lemma_tex_accum_step_nonneg(c: Seq<Corner>, h: int, k: int)
    requires
        corners_wf(c),
        1 <= h,
        1 <= k <= c.len(),
    ensures
        tex_accum(c, h, k - 1) <= tex_accum(c, h, k),
{
    let n_i = c.len() as int;
    lemma_mod_division_less_than_divisor(k - 1, n_i);
    lemma_mod_division_less_than_divisor(k, n_i);
    let a = c[(k - 1) % n_i];
    let b = c[k % n_i];
    lemma_tex_step_bound(pt(a), pt(b), h);
}

/// Whether edge `e` is covered by one of `gates` (linear scan, as the
/// stream builder needs it).
fn edge_has_gate(gates: &Vec<Gate>, e: u32) -> (r: bool)
    ensures
        r == has_gate(gates@, e),
{
    for g in 0..gates.len()
        invariant
            forall|j: int| 0 <= j < g ==> (#[trigger] gates@[j]).own != e,
    {
        if gates[g].own == e {
            return true;
        }
    }
    false
}

/// Builds the wall index stream: one quad (two triangles) per edge of the
/// polygon that no gate covers, referencing the wall vertex stream's
/// floor/ceiling pairs, in edge order.
pub fn build_wall_indices(corners_len: usize, gates: &Vec<Gate>) -> (wi: Vec<u32>)
    requires
        corners_len <= MAX_CORNERS,
    ensures
        wi@ == wall_indices_spec(gates@, corners_len as int),
{
    let mut wi: Vec<u32> = Vec::new();
    for i in 0..corners_len
        invariant
            corners_len <= MAX_CORNERS,
            wi@ == wall_indices_spec(gates@, i as int),
    {
        if !edge_has_gate(gates, i as u32) {
            wi.push((2 * i) as u32);
            wi.push((2 * i + 1) as u32);
            wi.push((2 * i + 2) as u32);
            wi.push((2 * i + 1) as u32);
            wi.push((2 * i + 3) as u32);
            wi.push((2 * i + 2) as u32);
        }
        proof {
            assert(wi@ =~= wall_indices_spec(gates@, i + 1));
        }
    }
    wi
}

/// A connector-quad vertex at a gate's edge; tagged `GATE`.
pub open spec fn spec_gate_vertex(c: Corner, y: i64, s: int, t: i64) -> Vertex {
    Vertex { x: c.0, y: y, z: (-(c.1 as int)) as i64, s: s as i64, t: t, vtype: GATE }
}

/// The four vertices of one connector quad spanning a gate's edge `e0 e1`
/// vertically from the `t = 0` height `bottom` to the `t = SCALE` height
/// `top`; the texture runs over the edge length divided by the gap `h`.
pub open spec fn connector_quad_vertices(
    e0: Corner,
    e1: Corner,
    top: i64,
    bottom: i64,
    h: int,
) -> Seq<Vertex> {
    let gs = tex_step(pt(e0), pt(e1), h);
    seq![
        spec_gate_vertex(e0, top, 0, SCALE),
        spec_gate_vertex(e0, bottom, 0, 0),
        spec_gate_vertex(e1, top, gs, SCALE),
        spec_gate_vertex(e1, bottom, gs, 0),
    ]
}

/// A floor connector is generated only by the sector whose floor is
/// strictly higher than the target sector's floor.
pub open spec fn floor_connector_needed(own_floor: i64, target_floor: i64) -> bool {
    own_floor > target_floor
}

/// A ceiling connector is generated only by the sector whose ceiling is
/// strictly lower than the target sector's ceiling.
pub open spec fn ceiling_connector_needed(own_ceiling: i64, target_ceiling: i64) -> bool {
    own_ceiling < target_ceiling
}

/// Index winding of a floor connector quad over its four vertices pushed at
/// base `b`, facing the navigable gap.
pub open spec fn connector_indices_floor(b: int) -> Seq<u32> {
    seq![(b + 3) as u32, (b + 2) as u32, (b + 1) as u32, (b + 2) as u32, b as u32, (b + 1) as u32]
}

/// Index winding of a ceiling connector quad, derived independently of the
/// floor case so it faces the gap from the other side.
pub open spec fn connector_indices_ceiling(b: int) -> Seq<u32> {
    seq![(b + 3) as u32, (b + 1) as u32, (b + 2) as u32, (b + 2) as u32, (b + 1) as u32, b as u32]
}

/// All connector vertices one gate contributes: the floor quad when the
/// owning floor is higher, then the ceiling quad when the owning ceiling is
/// lower; nothing when the heights already match.
pub open spec fn gate_connector_vertices(
    floor: i64,
    ceiling: i64,
    e0: Corner,
    e1: Corner,
    tf: i64,
    tc: i64,
) -> Seq<Vertex> {
    (if floor_connector_needed(floor, tf) {
        connector_quad_vertices(e0, e1, floor, tf, floor - tf)
    } else {
        Seq::empty()
    }) + (if ceiling_connector_needed(ceiling, tc) {
        connector_quad_vertices(e0, e1, ceiling, tc, tc - ceiling)
    } else {
        Seq::empty()
    })
}

/// All connector indices one gate contributes, with its vertices pushed
/// from base position `b`.
pub open spec fn gate_connector_indices(
    floor: i64,
    ceiling: i64,
    tf: i64,
    tc: i64,
    b: int,
) -> Seq<u32> {
    (if floor_connector_needed(floor, tf) {
        connector_indices_floor(b)
    } else {
        Seq::empty()
    }) + (if ceiling_connector_needed(ceiling, tc) {
        connector_indices_ceiling(
            b + if floor_connector_needed(floor, tf) {
                4int
            } else {
                0int
            },
        )
    } else {
        Seq::empty()
    })
}

/// Gate connector generation is symmetric in trigger condition but
/// asymmetric in output: of two sectors joined by a gate, exactly the one
/// whose floor is strictly higher emits the floor connector quad — the
/// other side never also emits one, and neither side does when the floors
/// match.  Ceilings behave the same way with the comparison inverted.
pub proof fn lemma_connector_asymmetry(
    af: i64,
    ac: i64,
    bf: i64,
    bc: i64,
    e0: Corner,
    e1: Corner,
)
    ensures
        af > bf ==> gate_connector_vertices(af, ac, e0, e1, bf, bc).take(4)
            =~= connector_quad_vertices(e0, e1, af, bf, af - bf),
        af > bf ==> !floor_connector_needed(bf, af),
        af == bf ==> !floor_connector_needed(af, bf) && !floor_connector_needed(bf, af),
        !(floor_connector_needed(af, bf) && floor_connector_needed(bf, af)),
        !(ceiling_connector_needed(ac, bc) && ceiling_connector_needed(bc, ac)),
        ac == bc ==> !ceiling_connector_needed(ac, bc) && !ceiling_connector_needed(bc, ac),
{
}

/// Appends the connector quads one gate asks for — a floor quad when this
/// sector's floor is above the target's, a ceiling quad when this sector's
/// ceiling is below the target's — to the wall streams.
pub fn add_gate_connectors(
    wv: &mut Vec<Vertex>,
    wi: &mut Vec<u32>,
    floor: i64,
    ceiling: i64,
    e0: Corner,
    e1: Corner,
    target_floor: i64,
    target_ceiling: i64,
)
    requires
        coord_in_bounds(e0.0) && coord_in_bounds(e0.1),
        coord_in_bounds(e1.0) && coord_in_bounds(e1.1),
        coord_in_bounds(floor) && coord_in_bounds(ceiling),
        coord_in_bounds(target_floor) && coord_in_bounds(target_ceiling),
        old(wv).len() + 8 <= u32::MAX,
    ensures
        final(wv)@ == old(wv)@ + gate_connector_vertices(
            floor,
            ceiling,
            e0,
            e1,
            target_floor,
            target_ceiling,
        ),
        final(wi)@ == old(wi)@ + gate_connector_indices(
            floor,
            ceiling,
            target_floor,
            target_ceiling,
            old(wv)@.len() as int,
        ),
{
    if floor > target_floor {
        let gs = edge_tex_step(e0, e1, floor - target_floor);
        let b = wv.len();
        wv.push(Vertex { x: e0.0, y: floor, z: -e0.1, s: 0, t: SCALE, vtype: GATE });
        wv.push(Vertex { x: e0.0, y: target_floor, z: -e0.1, s: 0, t: 0, vtype: GATE });
        wv.push(Vertex { x: e1.0, y: floor, z: -e1.1, s: gs, t: SCALE, vtype: GATE });
        wv.push(Vertex { x: e1.0, y: target_floor, z: -e1.1, s: gs, t: 0, vtype: GATE });
        wi.push((b + 3) as u32);
        wi.push((b + 2) as u32);
        wi.push((b + 1) as u32);
        wi.push((b + 2) as u32);
        wi.push(b as u32);
        wi.push((b + 1) as u32);
    }
    if ceiling < target_ceiling {
        let gs = edge_tex_step(e0, e1, target_ceiling - ceiling);
        let b = wv.len();
        wv.push(Vertex { x: e0.0, y: ceiling, z: -e0.1, s: 0, t: SCALE, vtype: GATE });
        wv.push(Vertex { x: e0.0, y: target_ceiling, z: -e0.1, s: 0, t: 0, vtype: GATE });
        wv.push(Vertex { x: e1.0, y: ceiling, z: -e1.1, s: gs, t: SCALE, vtype: GATE });
        wv.push(Vertex { x: e1.0, y: target_ceiling, z: -e1.1, s: gs, t: 0, vtype: GATE });
        wi.push((b + 3) as u32);
        wi.push((b + 1) as u32);
        wi.push((b + 2) as u32);
        wi.push((b + 2) as u32);
        wi.push((b + 1) as u32);
        wi.push(b as u32);
    }
    proof {
        assert(wv@ =~= old(wv)@ + gate_connector_vertices(
            floor,
            ceiling,
            e0,
            e1,
            target_floor,
            target_ceiling,
        ));
        assert(wi@ =~= old(wi)@ + gate_connector_indices(
            floor,
            ceiling,
            target_floor,
            target_ceiling,
            old(wv)@.len() as int,
        ));
    }
}

/// Why a level description was rejected at load time.
#[derive(Clone, Copy, PartialEq, Eq, Structural, Debug)]
pub enum MapError {
    TooManySectors,
    TooFewCorners,
    TooManyCorners,
    CoordOutOfRange,
    BadHeights,
    GateEdgeOutOfRange,
    DuplicateGateEdge,
    GateTargetOutOfRange,
    NotCounterClockwise,
    DegeneratePolygon,
}

/// All corner coordinates bounded.
pub open spec fn bounded_corners(c: Seq<Corner>) -> bool {
    forall|i: int|
        0 <= i < c.len() ==> coord_in_bounds((#[trigger] c[i]).0) && coord_in_bounds(c[i].1)
}

/// No two gates of a sector cover the same polygon edge.
pub open spec fn gates_distinct(gs: Seq<mapdata::Gate>) -> bool {
    forall|i: int, j: int|
        0 <= i < j < gs.len() ==> (#[trigger] gs[i]).own != (#[trigger] gs[j]).own
}

/// The corner polygon is wound counter-clockwise (positive shoelace area);
/// a validated precondition of the triangulation's convexity sign tests.
pub open spec fn ccw(c: Seq<Corner>) -> bool {
    shoelace(poly_pts(c)) > 0
}

/// Validation of one sector against the level invariants, in check order;
/// `None` when it passes.
pub open spec fn sector_check(s: mapdata::Sector, nsectors: int) -> Option<MapError> {
    if s.corners@.len() < 3 {
        Some(MapError::TooFewCorners)
    } else if s.corners@.len() > MAX_CORNERS {
        Some(MapError::TooManyCorners)
    } else if !bounded_corners(s.corners@) {
        Some(MapError::CoordOutOfRange)
    } else if !heights_wf(s.floor, s.ceiling) {
        Some(MapError::BadHeights)
    } else if !(forall|g: int|
        0 <= g < s.gates@.len() ==> ((#[trigger] s.gates@[g]).own as int) < s.corners@.len()) {
        Some(MapError::GateEdgeOutOfRange)
    } else if !gates_distinct(s.gates@) {
        Some(MapError::DuplicateGateEdge)
    } else if !(forall|g: int|
        0 <= g < s.gates@.len() ==> ((#[trigger] s.gates@[g]).target_sector as int) < nsectors) {
        Some(MapError::GateTargetOutOfRange)
    } else if !ccw(s.corners@) {
        Some(MapError::NotCounterClockwise)
    } else {
        None
    }
}

/// First validation error among the first `k` sectors.
pub open spec fn validation_error(secs: Seq<mapdata::Sector>, k: int) -> Option<MapError>
    decreases k,
{
    if k <= 0 {
        None
    } else {
        match validation_error(secs, k - 1) {
            Some(e) => Some(e),
            None => sector_check(secs[k - 1], secs.len() as int),
        }
    }
}

/// First sector among the first `k` whose polygon the ear-clipping process
/// cannot triangulate.
pub open spec fn degenerate_error(secs: Seq<mapdata::Sector>, k: int) -> Option<MapError>
    decreases k,
{
    if k <= 0 {
        None
    } else {
        match degenerate_error(secs, k - 1) {
            Some(e) => Some(e),
            None => if clip_spec(
                secs[k - 1].corners@,
                init_work(secs[k - 1].corners@.len() as int),
            ) is None {
                Some(MapError::DegeneratePolygon)
            } else {
                None
            },
        }
    }
}

/// The error the level builder reports, if any: sector validation first
/// (in sector order), then mesh building (in sector order).
pub open spec fn data_error(secs: Seq<mapdata::Sector>) -> Option<MapError> {
    if secs.len() > u32::MAX {
        Some(MapError::TooManySectors)
    } else {
        match validation_error(secs, secs.len() as int) {
            Some(e) => Some(e),
            None => degenerate_error(secs, secs.len() as int),
        }
    }
}

/// An error already found stays found as later sectors are considered.
proof fn lemma_validation_error_mono(secs: Seq<mapdata::Sector>, k: int, m: int)
    requires
        0 <= k <= m,
        validation_error(secs, k) is Some,
    ensures
        validation_error(secs, m) == validation_error(secs, k),
    decreases m - k,
{
    if k < m {
        lemma_validation_error_mono(secs, k, m - 1);
    }
}

/// Same, for mesh-building errors.
proof fn lemma_degenerate_error_mono(secs: Seq<mapdata::Sector>, k: int, m: int)
    requires
        0 <= k <= m,
        degenerate_error(secs, k) is Some,
    ensures
        degenerate_error(secs, m) == degenerate_error(secs, k),
    decreases m - k,
{
    if k < m {
        lemma_degenerate_error_mono(secs, k, m - 1);
    }
}

/// When the whole level validates, so does each sector.
proof fn lemma_validation_none_at(secs: Seq<mapdata::Sector>, k: int, m: int)
    requires
        0 <= k < m,
        validation_error(secs, m) is None,
    ensures
        validation_error(secs, k) is None,
        sector_check(secs[k], secs.len() as int) is None,
    decreases m - k,
{
    if validation_error(secs, k + 1) is Some {
        lemma_validation_error_mono(secs, k + 1, m);
    }
    if k + 1 < m {
        lemma_validation_none_at(secs, k, k + 1);
    }
}

/// Pairwise-distinct gate edges, all below `n`, bound the number of gates
/// by `n` (pigeonhole).
proof fn lemma_gates_bound(gs: Seq<mapdata::Gate>, n: int)
    requires
        0 <= n,
        gates_distinct(gs),
        forall|g: int| 0 <= g < gs.len() ==> ((#[trigger] gs[g]).own as int) < n,
    ensures
        gs.len() <= n,
{
    let owns = Seq::new(gs.len(), |i: int| gs[i].own as int);
    assert(owns.no_duplicates());
    owns.unique_seq_to_set();
    let range = vstd::set_lib::set_int_range(0, n);
    vstd::set_lib::lemma_int_range(0, n);
    assert(owns.to_set().subset_of(range)) by {
        assert forall|x: int| owns.to_set().contains(x) implies range.contains(x) by {
            let i = choose|i: int| 0 <= i < owns.len() && owns[i] == x;
        }
    }
    vstd::set_lib::lemma_len_subset(owns.to_set(), range);
}

/// The polygon's doubled signed (shoelace) area; positive means
/// counter-clockwise winding.
pub fn polygon_doubled_area(corners: &Vec<Corner>) -> (a: i64)
    requires
        3 <= corners.len() <= MAX_CORNERS,
        bounded_corners(corners@),
    ensures
        a == shoelace(poly_pts(corners@)),
{
    let n = corners.len();
    let ghost pp = poly_pts(corners@);
    let mut acc: i64 = 0;
    for i in 0..n - 1
        invariant
            3 <= n <= MAX_CORNERS,
            n == corners.len(),
            bounded_corners(corners@),
            pp == poly_pts(corners@),
            acc == path_sum(pp, 0, i as int),
            -2_000_000_000_000 * (i as int) <= acc <= 2_000_000_000_000 * (i as int),
    {
        let c0 = corners[i];
        let c1 = corners[i + 1];
        proof {
            lemma_mul_bound(c0.0 as int, c1.1 as int, 1_000_000);
            lemma_mul_bound(c1.0 as int, c0.1 as int, 1_000_000);
        }
        acc = acc + (c0.0 * c1.1 - c1.0 * c0.1);
        proof {
            crate::earclip::lemma_path_sum_extend(pp, i as int);
        }
    }
    let c0 = corners[n - 1];
    let c1 = corners[0];
    proof {
        lemma_mul_bound(c0.0 as int, c1.1 as int, 1_000_000);
        lemma_mul_bound(c1.0 as int, c0.1 as int, 1_000_000);
    }
    acc + (c0.0 * c1.1 - c1.0 * c0.1)
}

/// Checks one sector against every level invariant, in order: polygon
/// size, coordinate bounds, habitable heights, gate edge indices in range
/// and pairwise distinct, gate targets in range, counter-clockwise winding.
pub fn validate_sector(s: &mapdata::Sector, nsectors: usize) -> (r: Option<MapError>)
    ensures
        r == sector_check(*s, nsectors as int),
{
    if s.corners.len() < 3 {
        return Some(MapError::TooFewCorners);
    }
    if s.corners.len() > MAX_CORNERS {
        return Some(MapError::TooManyCorners);
    }
    for i in 0..s.corners.len()
        invariant
            3 <= s.corners@.len() <= MAX_CORNERS,
            forall|j: int|
                0 <= j < i ==> coord_in_bounds((#[trigger] s.corners@[j]).0) && coord_in_bounds(
                    s.corners@[j].1,
                ),
    {
        let c = s.corners[i];
        if c.0 < -COORD_LIMIT || c.0 > COORD_LIMIT || c.1 < -COORD_LIMIT || c.1 > COORD_LIMIT {
            proof {
                assert(!bounded_corners(s.corners@));
            }
            return Some(MapError::CoordOutOfRange);
        }
    }
    proof {
        assert(bounded_corners(s.corners@));
    }
    if s.floor < -COORD_LIMIT || s.floor > COORD_LIMIT || s.ceiling < -COORD_LIMIT || s.ceiling
        > COORD_LIMIT || s.floor >= s.ceiling {
        return Some(MapError::BadHeights);
    }
    let ncor = s.corners.len() as u32;
    for gi in 0..s.gates.len()
        invariant
            3 <= s.corners@.len() <= MAX_CORNERS,
            bounded_corners(s.corners@),
            heights_wf(s.floor, s.ceiling),
            ncor == s.corners@.len(),
            forall|j: int|
                0 <= j < gi ==> ((#[trigger] s.gates@[j]).own as int) < s.corners@.len(),
    {
        if s.gates[gi].own >= ncor {
            return Some(MapError::GateEdgeOutOfRange);
        }
    }
    for i in 0..s.gates.len()
        invariant
            3 <= s.corners@.len() <= MAX_CORNERS,
            bounded_corners(s.corners@),
            heights_wf(s.floor, s.ceiling),
            forall|g: int|
                0 <= g < s.gates@.len() ==> ((#[trigger] s.gates@[g]).own as int)
                    < s.corners@.len(),
            forall|a: int, b: int|
                0 <= a < b < s.gates@.len() && a < i ==> (#[trigger] s.gates@[a]).own != (
                #[trigger] s.gates@[b]).own,
    {
        for j in (i + 1)..s.gates.len()
            invariant
                3 <= s.corners@.len() <= MAX_CORNERS,
                bounded_corners(s.corners@),
                heights_wf(s.floor, s.ceiling),
                forall|g: int|
                    0 <= g < s.gates@.len() ==> ((#[trigger] s.gates@[g]).own as int)
                        < s.corners@.len(),
                i < s.gates@.len(),
                forall|a: int, b: int|
                    0 <= a < b < s.gates@.len() && a < i ==> (#[trigger] s.gates@[a]).own != (
                    #[trigger] s.gates@[b]).own,
                forall|b: int|
                    i < b < j ==> s.gates@[i as int].own != (#[trigger] s.gates@[b]).own,
        {
            if s.gates[i].own == s.gates[j].own {
                proof {
                    assert(!gates_distinct(s.gates@));
                }
                return Some(MapError::DuplicateGateEdge);
            }
        }
    }
    proof {
        assert(gates_distinct(s.gates@));
    }
    for gi in 0..s.gates.len()
        invariant
            3 <= s.corners@.len() <= MAX_CORNERS,
            bounded_corners(s.corners@),
            heights_wf(s.floor, s.ceiling),
            forall|g: int|
                0 <= g < s.gates@.len() ==> ((#[trigger] s.gates@[g]).own as int)
                    < s.corners@.len(),
            gates_distinct(s.gates@),
            forall|j: int|
                0 <= j < gi ==> ((#[trigger] s.gates@[j]).target_sector as int) < nsectors,
    {
        if s.gates[gi].target_sector as usize >= nsectors {
            return Some(MapError::GateTargetOutOfRange);
        }
    }
    if !(polygon_doubled_area(&s.corners) > 0) {
        return Some(MapError::NotCounterClockwise);
    }
    None
}

/// A sector's mapdata gates, seen as world gates.
pub open spec fn gates_view(gs: Seq<mapdata::Gate>) -> Seq<Gate> {
    Seq::new(
        gs.len(),
        |i: int|
            Gate {
                own: gs[i].own,
                target_sector: gs[i].target_sector,
                target_gate: gs[i].target_gate,
            },
    )
}

/// First corner of the edge a gate covers.
pub open spec fn gate_edge0(s: mapdata::Sector, g: mapdata::Gate) -> Corner {
    s.corners@[g.own as int]
}

/// Second corner of the edge a gate covers (successor, with wraparound).
pub open spec fn gate_edge1(s: mapdata::Sector, g: mapdata::Gate) -> Corner {
    s.corners@[(g.own as int + 1) % s.corners@.len() as int]
}

/// All connector vertices the first `k` gates of sector `s` contribute, in
/// gate order; targets are looked up in the level's sector list.
pub open spec fn connectors_vertices(
    s: mapdata::Sector,
    secs: Seq<mapdata::Sector>,
    k: int,
) -> Seq<Vertex>
    decreases k,
{
    if k <= 0 {
        Seq::empty()
    } else {
        connectors_vertices(s, secs, k - 1) + ({
            let g = s.gates@[k - 1];
            gate_connector_vertices(
                s.floor,
                s.ceiling,
                gate_edge0(s, g),
                gate_edge1(s, g),
                secs[g.target_sector as int].floor,
                secs[g.target_sector as int].ceiling,
            )
        })
    }
}

/// All connector indices the first `k` gates contribute, with the sector's
/// base wall stream ending at position `b0`.
pub open spec fn connectors_indices(
    s: mapdata::Sector,
    secs: Seq<mapdata::Sector>,
    k: int,
    b0: int,
) -> Seq<u32>
    decreases k,
{
    if k <= 0 {
        Seq::empty()
    } else {
        connectors_indices(s, secs, k - 1, b0) + ({
            let g = s.gates@[k - 1];
            gate_connector_indices(
                s.floor,
                s.ceiling,
                secs[g.target_sector as int].floor,
                secs[g.target_sector as int].ceiling,
                b0 + connectors_vertices(s, secs, k - 1).len(),
            )
        })
    }
}

/// Each gate contributes at most two quads of four vertices.
proof fn lemma_connectors_vertices_len(s: mapdata::Sector, secs: Seq<mapdata::Sector>, k: int)
    requires
        0 <= k,
    ensures
        connectors_vertices(s, secs, k).len() <= 8 * k,
    decreases k,
{
    if k > 0 {
        lemma_connectors_vertices_len(s, secs, k - 1);
    }
}

/// How a built sector relates to its description: data copied, base wall
/// and plane streams as specified, plane indices exactly the ear-clipping
/// output, and per-gate connector quads appended in gate order.
pub open spec fn built_sector_corresponds(
    out: Sector,
    s: mapdata::Sector,
    secs: Seq<mapdata::Sector>,
) -> bool {
    &&& out.floor == s.floor
    &&& out.ceiling == s.ceiling
    &&& out.corners@ == s.corners@
    &&& out.gates@ == gates_view(s.gates@)
    &&& out.mesh.planes_vertices@ == plane_vertices_spec(s.floor, s.ceiling, s.corners@)
    &&& clip_spec(s.corners@, init_work(s.corners@.len() as int)) matches Some(tris)
        && out.mesh.planes_indices@ == planes_indices_of(tris)
    &&& out.mesh.wall_vertices@ == wall_vertices_spec(s.floor, s.ceiling, s.corners@)
        + connectors_vertices(s, secs, s.gates@.len() as int)
    &&& out.mesh.wall_indices@ == wall_indices_spec(gates_view(s.gates@), s.corners@.len() as int)
        + connectors_indices(s, secs, s.gates@.len() as int, 2 * s.corners@.len() as int + 2)
    &&& out.mesh.texture.wall == (s.textures.wall, 0u32)
    &&& out.mesh.texture.floor == (s.textures.floor, 0u32)
    &&& out.mesh.texture.ceiling == (s.textures.ceiling, 0u32)
    &&& out.mesh.texture.gate == (s.textures.gate, 0u32)
}

/// A built sector fit for the movement resolver: sound polygon and
/// heights, and every gate pointing at a real edge and a real sector.
pub open spec fn sector_wf(s: Sector, nsectors: int) -> bool {
    &&& corners_wf(s.corners@)
    &&& heights_wf(s.floor, s.ceiling)
    &&& forall|g: int|
        0 <= g < s.gates@.len() ==> ((#[trigger] s.gates@[g]).own as int) < s.corners@.len() && (
        s.gates@[g].target_sector as int) < nsectors
}

impl WorldMap {
    /// Every sector of the built world is fit for the resolver.
    pub open spec fn wf(&self) -> bool {
        &&& self.sectors@.len() <= u32::MAX
        &&& forall|k: int|
            0 <= k < self.sectors@.len() ==> sector_wf(
                #[trigger] self.sectors@[k],
                self.sectors@.len() as int,
            )
    }

    /// An empty world.
    pub fn new() -> (r: Self)
        ensures
            r.sectors@.len() == 0,
            r.spawn == (0i64, 0i64, 0i64),
            r.path@ =~= Seq::<char>::empty(),
            r.name@ =~= Seq::<char>::empty(),
            r.description@ =~= Seq::<char>::empty(),
            r.wf(),
    {
        WorldMap {
            path: String::new(),
            name: String::new(),
            description: String::new(),
            sectors: Vec::new(),
            spawn: (0, 0, 0),
        }
    }
}

/// An owned copy of a corner polygon.
fn clone_corners(c: &Vec<Corner>) -> (r: Vec<Corner>)
    ensures
        r@ == c@,
{
    let mut r: Vec<Corner> = Vec::new();
    for i in 0..c.len()
        invariant
            r@ =~= c@.take(i as int),
    {
        r.push(c[i]);
        proof {
            assert(r@ =~= c@.take(i as int + 1));
        }
    }
    proof {
        assert(c@.take(c@.len() as int) =~= c@);
    }
    r
}

/// The world's copy of a sector's gate list.
fn convert_gates(gs: &Vec<mapdata::Gate>) -> (r: Vec<Gate>)
    ensures
        r@ == gates_view(gs@),
{
    let mut r: Vec<Gate> = Vec::new();
    for i in 0..gs.len()
        invariant
            r@ =~= gates_view(gs@).take(i as int),
    {
        let g = gs[i];
        r.push(Gate { own: g.own, target_sector: g.target_sector, target_gate: g.target_gate });
        proof {
            assert(r@ =~= gates_view(gs@).take(i as int + 1));
        }
    }
    proof {
        assert(gates_view(gs@).take(gs@.len() as int) =~= gates_view(gs@));
    }
    r
}

/// Builds the whole world from a level description: validates every sector
/// (polygon size and bounds, habitable heights, gate indices, distinct gate
/// edges, counter-clockwise winding), then generates per sector the wall
/// strip, the ear-clipped floor/ceiling planes and the per-gate connector
/// quads.  No partial world is produced: the first failure aborts the load.
pub fn build_from_data(data: mapdata::Data) -> (r: Result<WorldMap, MapError>)
    ensures
        match r {
            Ok(m) => {
                &&& data_error(data.sectors@) is None
                &&& m.wf()
                &&& m.path == data.path
                &&& m.name == data.name
                &&& m.description == data.description
                &&& m.spawn == data.spawn
                &&& m.sectors@.len() == data.sectors@.len()
                &&& forall|k: int|
                    0 <= k < data.sectors@.len() ==> built_sector_corresponds(
                        #[trigger] m.sectors@[k],
                        data.sectors@[k],
                        data.sectors@,
                    )
            },
            Err(e) => data_error(data.sectors@) == Some(e),
        },
{
    let ghost secs = data.sectors@;
    let nsectors = data.sectors.len();
    if nsectors > u32::MAX as usize {
        return Err(MapError::TooManySectors);
    }
    for k in 0..nsectors
        invariant
            secs == data.sectors@,
            nsectors == secs.len(),
            nsectors <= u32::MAX,
            validation_error(secs, k as int) is None,
    {
        match validate_sector(&data.sectors[k], nsectors) {
            Some(e) => {
                proof {
                    assert(validation_error(secs, k as int + 1) == Some(e));
                    lemma_validation_error_mono(secs, k as int + 1, nsectors as int);
                }
                return Err(e);
            },
            None => {
                proof {
                    assert(validation_error(secs, k as int + 1) is None);
                }
            },
        }
    }
    proof {
        assert forall|j: int| 0 <= j < nsectors implies heights_wf(
            secs[j].floor,
            secs[j].ceiling,
        ) by {
            lemma_validation_none_at(secs, j, nsectors as int);
        }
    }
    let mut heights: Vec<(i64, i64)> = Vec::new();
    for k in 0..nsectors
        invariant
            secs == data.sectors@,
            nsectors == secs.len(),
            heights@.len() == k,
            forall|j: int|
                0 <= j < k ==> #[trigger] heights@[j] == (secs[j].floor, secs[j].ceiling),
    {
        heights.push((data.sectors[k].floor, data.sectors[k].ceiling));
    }
    let mut sectors_out: Vec<Sector> = Vec::new();
    for k in 0..nsectors
        invariant
            secs == data.sectors@,
            nsectors == secs.len(),
            nsectors <= u32::MAX,
            validation_error(secs, nsectors as int) is None,
            degenerate_error(secs, k as int) is None,
            heights@.len() == nsectors,
            forall|j: int|
                0 <= j < nsectors ==> #[trigger] heights@[j] == (secs[j].floor, secs[j].ceiling),
            forall|j: int| 0 <= j < nsectors ==> heights_wf(secs[j].floor, secs[j].ceiling),
            sectors_out@.len() == k,
            forall|j: int|
                0 <= j < k ==> built_sector_corresponds(
                    #[trigger] sectors_out@[j],
                    secs[j],
                    secs,
                ),
    {
        proof {
            lemma_validation_none_at(secs, k as int, nsectors as int);
        }
        let s = &data.sectors[k];
        proof {
            assert(sector_check(secs[k as int], nsectors as int) is None);
            assert(corners_wf(s.corners@));
            assert(heights_wf(s.floor, s.ceiling));
            assert(gates_distinct(s.gates@));
            assert(ccw(s.corners@));
            lemma_gates_bound(s.gates@, s.corners@.len() as int);
        }
        let mut wv = build_wall_vertices(s.floor, s.ceiling, &s.corners);
        let gates_conv = convert_gates(&s.gates);
        let mut wi = build_wall_indices(s.corners.len(), &gates_conv);
        let pv = build_plane_vertices(s.floor, s.ceiling, &s.corners);
        let tri_opt = crate::earclip::triangulate(&s.corners);
        let tri_pi = match tri_opt {
            None => {
                proof {
                    assert(degenerate_error(secs, k as int + 1) == Some(
                        MapError::DegeneratePolygon,
                    ));
                    lemma_degenerate_error_mono(secs, k as int + 1, nsectors as int);
                }
                return Err(MapError::DegeneratePolygon);
            },
            Some(p) => p,
        };
        proof {
            assert(degenerate_error(secs, k as int + 1) is None);
        }
        let ncor = s.corners.len();
        let ngates = s.gates.len();
        for gi in 0..ngates
            invariant
                secs == data.sectors@,
                nsectors == secs.len(),
                s == &data.sectors@[k as int],
                k < nsectors,
                corners_wf(s.corners@),
                heights_wf(s.floor, s.ceiling),
                gates_distinct(s.gates@),
                forall|g: int|
                    0 <= g < s.gates@.len() ==> ((#[trigger] s.gates@[g]).own as int)
                        < s.corners@.len() && (s.gates@[g].target_sector as int) < nsectors,
                ngates == s.gates@.len(),
                ngates <= s.corners@.len(),
                ncor == s.corners@.len(),
                heights@.len() == nsectors,
                forall|j: int|
                    0 <= j < nsectors ==> #[trigger] heights@[j] == (
                        secs[j].floor,
                        secs[j].ceiling,
                    ),
                forall|j: int| 0 <= j < nsectors ==> heights_wf(secs[j].floor, secs[j].ceiling),
                wv@ == wall_vertices_spec(s.floor, s.ceiling, s.corners@) + connectors_vertices(
                    *s,
                    secs,
                    gi as int,
                ),
                wi@ == wall_indices_spec(gates_view(s.gates@), s.corners@.len() as int)
                    + connectors_indices(*s, secs, gi as int, 2 * s.corners@.len() as int + 2),
        {
            let g = s.gates[gi];
            let own = g.own as usize;
            let e0 = s.corners[own];
            let e1 = s.corners[
                if own + 1 == ncor {
                    0
                } else {
                    own + 1
                }
            ];
            proof {
                let ni = ncor as int;
                if own + 1 == ncor {
                    lemma_mod_self_0(ni);
                } else {
                    lemma_small_mod((own + 1) as nat, ncor as nat);
                }
                assert(e0 == gate_edge0(*s, s.gates@[gi as int]));
                assert(e1 == gate_edge1(*s, s.gates@[gi as int]));
                lemma_connectors_vertices_len(*s, secs, gi as int);
                assert(wv@.len() <= 2 * MAX_CORNERS + 2 + 8 * MAX_CORNERS);
            }
            let hts = heights[g.target_sector as usize];
            add_gate_connectors(&mut wv, &mut wi, s.floor, s.ceiling, e0, e1, hts.0, hts.1);
            proof {
                assert(wv@ =~= wall_vertices_spec(s.floor, s.ceiling, s.corners@)
                    + connectors_vertices(*s, secs, gi as int + 1));
                assert(wi@ =~= wall_indices_spec(gates_view(s.gates@), s.corners@.len() as int)
                    + connectors_indices(*s, secs, gi as int + 1, 2 * s.corners@.len() as int + 2));
            }
        }
        let corners_own = clone_corners(&s.corners);
        let texture = TextureData {
            wall: (s.textures.wall.clone(), 0),
            floor: (s.textures.floor.clone(), 0),
            ceiling: (s.textures.ceiling.clone(), 0),
            gate: (s.textures.gate.clone(), 0),
        };
        let mesh = SectorMesh::new(wv, wi, pv, tri_pi, texture);
        let out = Sector {
            floor: s.floor,
            ceiling: s.ceiling,
            corners: corners_own,
            gates: gates_conv,
            mesh,
        };
        proof {
            assert(built_sector_corresponds(out, secs[k as int], secs));
        }
        sectors_out.push(out);
    }
    let m = WorldMap {
        path: data.path,
        name: data.name,
        description: data.description,
        sectors: sectors_out,
        spawn: data.spawn,
    };
    proof {
        assert forall|k: int| 0 <= k < m.sectors@.len() implies sector_wf(
            #[trigger] m.sectors@[k],
            m.sectors@.len() as int,
        ) by {
            lemma_validation_none_at(secs, k, nsectors as int);
            assert(built_sector_corresponds(m.sectors@[k], secs[k], secs));
        }
    }
    Ok(m)
}

} // verus!
