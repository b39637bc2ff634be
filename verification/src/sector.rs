//! Renderable per-sector geometry: two vertex/index streams (walls and
//! floor/ceiling planes) whose vertices carry a position, texture
//! coordinates and a surface-type tag.  The GPU upload of these buffers is
//! the renderer's business; this module only holds the data.

use vstd::prelude::*;

verus! {

/// Surface-type tags carried by each vertex; pure metadata for the
/// renderer, never consulted by geometry math.
pub const UNDEFINED: u32 = 0;

pub const FLOOR: u32 = 1;

pub const CEILING: u32 = 2;

pub const WALL: u32 = 3;

pub const GATE: u32 = 4;

/// One mesh vertex: position (x, y, z), texture coordinates (s, t) — all
/// fixed-point — and the surface-type tag.
#[derive(Clone, Copy, PartialEq, Eq, Structural, Debug)]
pub struct Vertex {
    pub x: i64,
    pub y: i64,
    pub z: i64,
    pub s: i64,
    pub t: i64,
    pub vtype: u32,
}

/// Texture names (with renderer-assigned texture ids) for the four surface
/// kinds of a sector.
pub struct TextureData {
    pub wall: (String, u32),
    pub floor: (String, u32),
    pub ceiling: (String, u32),
    pub gate: (String, u32),
}

/// A sector's generated mesh: wall stream and plane (floor/ceiling) stream.
pub struct Sector {
    pub wall_vertices: Vec<Vertex>,
    pub wall_indices: Vec<u32>,
    pub planes_vertices: Vec<Vertex>,
    pub planes_indices: Vec<u32>,
    pub texture: TextureData,
}

impl Sector {
    pub fn new(
        wall_vertices: Vec<Vertex>,
        wall_indices: Vec<u32>,
        planes_vertices: Vec<Vertex>,
        planes_indices: Vec<u32>,
        texture: TextureData,
    ) -> (r: Self)
        ensures
            r.wall_vertices == wall_vertices,
            r.wall_indices == wall_indices,
            r.planes_vertices == planes_vertices,
            r.planes_indices == planes_indices,
            r.texture == texture,
    {
        Sector { wall_vertices, wall_indices, planes_vertices, planes_indices, texture }
    }
}

} // verus!
