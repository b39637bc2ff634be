//! Plain level description, as handed over by the (external) file parser:
//! a named list of sectors, each a closed corner polygon with heights, gates
//! and texture names.  Coordinates and heights are fixed-point integers
//! (see `utils::SCALE`).

use vstd::prelude::*;
use vstd::string::StringExecFns;

verus! {

/// A whole level: metadata plus its sectors.  `spawn` is the player start
/// position (x, y, z — y is the vertical height).
pub struct Data {
    pub path: String,
    pub name: String,
    pub description: String,
    pub spawn: (i64, i64, i64),
    pub sectors: Vec<Sector>,
}

/// One room: a vertically bounded (floor/ceiling) horizontal polygon.
/// Corner `i` connects to corner `(i + 1) % len` to form polygon edge `i`.
pub struct Sector {
    pub floor: i64,
    pub ceiling: i64,
    pub corners: Vec<Corner>,
    pub gates: Vec<Gate>,
    pub textures: Texture,
}

/// A 2D point in the (x, z) plane.
pub type Corner = (i64, i64);

/// A permeable polygon edge connecting two sectors: edge `own` of the owning
/// sector leads into `target_sector` (whose matching edge is `target_gate`).
#[derive(Clone, Copy)]
pub struct Gate {
    pub own: u32,
    pub target_sector: u32,
    pub target_gate: u32,
}

/// Texture asset names for a sector's surfaces.
pub struct Texture {
    pub wall: String,
    pub floor: String,
    pub ceiling: String,
    pub gate: String,
}

impl Default for Data {
    fn default() -> (r: Self)
        ensures
            r.path@ =~= Seq::<char>::empty(),
            r.name@ =~= Seq::<char>::empty(),
            r.description@ =~= Seq::<char>::empty(),
            r.spawn == (0i64, 0i64, 0i64),
            r.sectors@ =~= Seq::<Sector>::empty(),
    {
        Data {
            path: String::new(),
            name: String::new(),
            description: String::new(),
            spawn: (0, 0, 0),
            sectors: Vec::new(),
        }
    }
}

impl Default for Texture {
    fn default() -> (r: Self)
        ensures
            r.wall@ == "fallback.png"@,
            r.floor@ == "fallback.png"@,
            r.ceiling@ == "fallback.png"@,
            r.gate@ == "fallback.png"@,
    {
        Texture {
            wall: String::from_str("fallback.png"),
            floor: String::from_str("fallback.png"),
            ceiling: String::from_str("fallback.png"),
            gate: String::from_str("fallback.png"),
        }
    }
}

} // verus!
