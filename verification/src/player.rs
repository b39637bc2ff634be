//! The per-tick collision and sector-transition resolver: given a desired
//! displacement, decide whether the move is legal, whether it passes
//! through a gate into an adjacent sector, and what the player's resulting
//! position and current sector are.

use crate::map::{corners_wf, pt, Corner, Gate, WorldMap};
use crate::utils::{coord_in_bounds, segments_cross, Line, COORD_LIMIT};
use vstd::arithmetic::div_mod::{lemma_mod_self_0, lemma_small_mod};
use vstd::prelude::*;

verus! {

/// Player eye height above the sector floor, in fixed-point steps
/// (0.65 world units).
pub const PLAYER_HEIGHT: i64 = 650;

/// A player: mode flags, the sector they are logically inside, their
/// position, and the position at the start of the previous committed step.
pub struct Player {
    pub spectator: bool,
    pub grounded: bool,
    pub cur_sector: u32,
    pub x: i64,
    pub y: i64,
    pub z: i64,
    pub prev_x: i64,
    pub prev_z: i64,
}

/// Whether the movement segment `from -> to` properly crosses polygon edge
/// `i` (corner `i` to its cyclic successor).
pub open spec fn crosses_edge(c: Seq<Corner>, i: int, from: (int, int), to: (int, int)) -> bool {
    segments_cross(from, to, pt(c[i]), pt(c[(i + 1) % c.len() as int]))
}

/// First polygon edge, at or after `i` in corner order, that the movement
/// segment crosses.  Corner order is the resolver's tie-break: of several
/// crossed edges only the first found is honoured.
pub open spec fn first_crossed_edge_from(
    c: Seq<Corner>,
    from: (int, int),
    to: (int, int),
    i: int,
) -> Option<int>
    decreases c.len() - i,
{
    if i < 0 || i >= c.len() {
        None
    } else if crosses_edge(c, i, from, to) {
        Some(i)
    } else {
        first_crossed_edge_from(c, from, to, i + 1)
    }
}

/// The first gate, in gate order, covering polygon edge `e`.
pub open spec fn gate_at_from(gates: Seq<Gate>, e: u32, i: int) -> Option<Gate>
    decreases gates.len() - i,
{
    if i < 0 || i >= gates.len() {
        None
    } else if gates[i].own == e {
        Some(gates[i])
    } else {
        gate_at_from(gates, e, i + 1)
    }
}

/// A committed move: position advances in the plane, the current sector
/// becomes `sector`, the vertical position snaps to that sector's floor
/// plus the player height, and the previous position catches up.
pub open spec fn accept_move(m: WorldMap, p: Player, dx: i64, dz: i64, sector: u32) -> Player {
    let f = m.sectors@[sector as int].floor;
    Player {
        cur_sector: sector,
        x: (p.x + dx) as i64,
        y: (f + PLAYER_HEIGHT) as i64,
        z: (p.z + dz) as i64,
        prev_x: (p.x + dx) as i64,
        prev_z: (p.z + dz) as i64,
        ..p
    }
}

/// A cancelled move: the displacement is discarded for this step; the
/// vertical position still snaps to the current sector's floor.
pub open spec fn reject_move(m: WorldMap, p: Player) -> Player {
    let f = m.sectors@[p.cur_sector as int].floor;
    Player { y: (f + PLAYER_HEIGHT) as i64, prev_x: p.x, prev_z: p.z, ..p }
}

/// The resolver's decision for one movement step.
///
/// A zero displacement changes nothing.  A spectator moves freely, with no
/// collision and no ground snap.  Otherwise the segment from the current
/// to the candidate position is tested against the current sector's edges
/// in corner order: no crossing commits the move in place; crossing a gate
/// edge commits it into that gate's target sector exactly when that
/// sector's clearance (ceiling - floor) exceeds the player height, and
/// cancels it otherwise; crossing a solid wall cancels it.
pub open spec fn move_spec(m: WorldMap, p: Player, dx: i64, dy: i64, dz: i64) -> Player {
    if dx == 0 && dy == 0 && dz == 0 {
        p
    } else if p.spectator {
        Player { x: (p.x + dx) as i64, y: (p.y + dy) as i64, z: (p.z + dz) as i64, ..p }
    } else {
        let sec = m.sectors@[p.cur_sector as int];
        let from = (p.x as int, p.z as int);
        let to = (p.x + dx, p.z + dz);
        match first_crossed_edge_from(sec.corners@, from, to, 0) {
            None => accept_move(m, p, dx, dz, p.cur_sector),
            Some(e) => match gate_at_from(sec.gates@, e as u32, 0) {
                None => reject_move(m, p),
                Some(g) => {
                    let t = m.sectors@[g.target_sector as int];
                    if t.ceiling - t.floor > PLAYER_HEIGHT {
                        accept_move(m, p, dx, dz, g.target_sector)
                    } else {
                        reject_move(m, p)
                    }
                },
            },
        }
    }
}

/// Scan the current sector's boundary, in corner order, for the first edge
/// the movement segment crosses.
fn first_crossing(corners: &Vec<Corner>, fx: i64, fz: i64, tx: i64, tz: i64) -> (r: Option<
    usize,
>)
    requires
        corners_wf(corners@),
        coord_in_bounds(fx) && coord_in_bounds(fz),
        coord_in_bounds(tx) && coord_in_bounds(tz),
    ensures
        match r {
            Some(i) => i < corners.len() && first_crossed_edge_from(
                corners@,
                (fx as int, fz as int),
                (tx as int, tz as int),
                0,
            ) == Some(i as int),
            None => first_crossed_edge_from(
                corners@,
                (fx as int, fz as int),
                (tx as int, tz as int),
                0,
            ) is None,
        },
{
    let ghost from = (fx as int, fz as int);
    let ghost to = (tx as int, tz as int);
    let n = corners.len();
    let movement = Line::new_tuples((fx, fz), (tx, tz));
    for i in 0..n
        invariant
            corners_wf(corners@),
            n == corners.len(),
            movement == (Line { x0: fx, y0: fz, x1: tx, y1: tz }),
            coord_in_bounds(fx) && coord_in_bounds(fz),
            coord_in_bounds(tx) && coord_in_bounds(tz),
            from == (fx as int, fz as int),
            to == (tx as int, tz as int),
            first_crossed_edge_from(corners@, from, to, 0) == first_crossed_edge_from(
                corners@,
                from,
                to,
                i as int,
            ),
    {
        let c0 = corners[i];
        let c1 = corners[
            if i + 1 == n {
                0
            } else {
                i + 1
            }
        ];
        proof {
            if i + 1 == n {
                lemma_mod_self_0(n as int);
            } else {
                lemma_small_mod((i + 1) as nat, n as nat);
            }
        }
        let edge = Line::new(c0.0, c0.1, c1.0, c1.1);
        if movement.crosses(&edge) {
            return Some(i);
        }
    }
    None
}

/// Scan a sector's gates, in order, for one covering edge `e`.
fn gate_for_edge(gates: &Vec<Gate>, e: u32) -> (r: Option<Gate>)
    ensures
        r == gate_at_from(gates@, e, 0),
{
    let n = gates.len();
    for i in 0..n
        invariant
            n == gates.len(),
            gate_at_from(gates@, e, 0) == gate_at_from(gates@, e, i as int),
    {
        if gates[i].own == e {
            return Some(gates[i]);
        }
    }
    None
}

impl Player {
    /// A player standing at the spawn point, eye height above it, inside
    /// sector 0.
    pub fn new(spawn: (i64, i64, i64)) -> (r: Self)
        requires
            coord_in_bounds(spawn.1),
        ensures
            r.spectator == false,
            r.grounded == false,
            r.cur_sector == 0,
            r.x == spawn.0,
            r.y == spawn.1 + PLAYER_HEIGHT,
            r.z == spawn.2,
            r.prev_x == spawn.0,
            r.prev_z == spawn.2,
    {
        Player {
            spectator: false,
            grounded: false,
            cur_sector: 0,
            x: spawn.0,
            y: spawn.1 + PLAYER_HEIGHT,
            z: spawn.2,
            prev_x: spawn.0,
            prev_z: spawn.2,
        }
    }

    /// Flips spectator mode: a spectator moves freely, with no collision,
    /// no sector transitions and no ground snap.
    pub fn toggle_spectator(&mut self)
        ensures
            final(self).spectator == !old(self).spectator,
            final(self).grounded == old(self).grounded,
            final(self).cur_sector == old(self).cur_sector,
            final(self).x == old(self).x,
            final(self).y == old(self).y,
            final(self).z == old(self).z,
            final(self).prev_x == old(self).prev_x,
            final(self).prev_z == old(self).prev_z,
    {
        self.spectator = !self.spectator;
    }

    /// Resolves one movement step against the world: commits, redirects
    /// into an adjacent sector, or cancels the displacement, exactly as
    /// `move_spec` decides.
    pub fn move_step(&mut self, map: &WorldMap, dx: i64, dy: i64, dz: i64)
        requires
            map.wf(),
            (old(self).cur_sector as int) < map.sectors@.len(),
            coord_in_bounds(old(self).x) && coord_in_bounds(old(self).z),
            -COORD_LIMIT <= old(self).x + dx <= COORD_LIMIT,
            -COORD_LIMIT <= old(self).z + dz <= COORD_LIMIT,
            old(self).spectator ==> -2 * COORD_LIMIT <= old(self).y + dy <= 2 * COORD_LIMIT,
        ensures
            *final(self) == move_spec(*map, *old(self), dx, dy, dz),
            final(self).spectator == old(self).spectator,
            final(self).grounded == old(self).grounded,
            (final(self).cur_sector as int) < map.sectors@.len(),
            coord_in_bounds(final(self).x) && coord_in_bounds(final(self).z),
    {
        if dx == 0 && dy == 0 && dz == 0 {
            return ;
        }
        if self.spectator {
            self.x = self.x + dx;
            self.y = self.y + dy;
            self.z = self.z + dz;
            return ;
        }
        let cur = self.cur_sector as usize;
        let sec = &map.sectors[cur];
        proof {
            assert(crate::map::sector_wf(map.sectors@[cur as int], map.sectors@.len() as int));
        }
        let tx = self.x + dx;
        let tz = self.z + dz;
        let crossed = first_crossing(&sec.corners, self.x, self.z, tx, tz);
        match crossed {
            None => {
                self.x = tx;
                self.z = tz;
                self.y = sec.floor + PLAYER_HEIGHT;
            },
            Some(e) => {
                match gate_for_edge(&sec.gates, e as u32) {
                    None => {
                        self.y = sec.floor + PLAYER_HEIGHT;
                    },
                    Some(g) => {
                        proof {
                            lemma_gate_at_found(sec.gates@, e as u32, 0, g);
                            assert(crate::map::sector_wf(
                                map.sectors@[g.target_sector as int],
                                map.sectors@.len() as int,
                            ));
                        }
                        let t = &map.sectors[g.target_sector as usize];
                        if t.ceiling - t.floor > PLAYER_HEIGHT {
                            self.cur_sector = g.target_sector;
                            self.x = tx;
                            self.z = tz;
                            self.y = t.floor + PLAYER_HEIGHT;
                        } else {
                            self.y = sec.floor + PLAYER_HEIGHT;
                        }
                    },
                }
            },
        }
        self.prev_x = self.x;
        self.prev_z = self.z;
    }
}

/// A found gate came from the scanned list, so its fields obey the
/// sector's gate invariants.
proof fn lemma_gate_at_found(gates: Seq<Gate>, e: u32, i: int, g: Gate)
    requires
        0 <= i,
        gate_at_from(gates, e, i) == Some(g),
    ensures
        exists|j: int| 0 <= j < gates.len() && gates[j] == g,
    decreases gates.len() - i,
{
    if i < gates.len() && gates[i].own != e {
        lemma_gate_at_found(gates, e, i + 1, g);
    }
}

} // verus!
