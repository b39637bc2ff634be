//! Core of a portal-connected polygonal "sector world": mesh generation for
//! sector walls, floors and ceilings (ear-clipping triangulation, wall strips
//! with continuous texture coordinates, portal connector quads), and the
//! per-tick collision / sector-transition resolver for player movement.
//!
//! All geometry is carried in fixed-point coordinates: one world unit is
//! `SCALE` (1000) integer steps, so positions, heights and texture
//! coordinates are exact integers and every geometric predicate is decided
//! exactly.

pub mod earclip;
pub mod gui;
pub mod map;
pub mod mapdata;
pub mod player;
pub mod sector;
pub mod utils;
