//! The sector mesh builder: triangulation, wall strips, texture
//! coordinates, gate connectors, and level validation.

use mood::map::{build_from_data, MapError, WorldMap};
use mood::mapdata::{Data, Gate, Sector, Texture};
use mood::sector::{CEILING, FLOOR, GATE, WALL};

fn sector(
    floor: i64,
    ceiling: i64,
    corners: &[(i64, i64)],
    gates: &[(u32, u32, u32)],
) -> Sector {
    Sector {
        floor,
        ceiling,
        corners: corners.to_vec(),
        gates: gates
            .iter()
            .map(|&(own, target_sector, target_gate)| Gate { own, target_sector, target_gate })
            .collect(),
        textures: Texture::default(),
    }
}

fn level(sectors: Vec<Sector>) -> Data {
    Data {
        path: String::new(),
        name: "test level".to_string(),
        description: String::new(),
        spawn: (500, 0, 500),
        sectors,
    }
}

fn build(sectors: Vec<Sector>) -> Result<WorldMap, MapError> {
    build_from_data(level(sectors))
}

const SQUARE: [(i64, i64); 4] = [(0, 0), (1_000, 0), (1_000, 1_000), (0, 1_000)];

#[test]
fn square_triangulation_indices() {
    let m = build(vec![sector(0, 3_000, &SQUARE, &[])]).unwrap();
    let mesh = &m.sectors[0].mesh;
    // N - 2 = 2 triangles per surface, floor and ceiling interleaved.
    assert_eq!(mesh.planes_indices, vec![0, 2, 6, 1, 7, 3, 2, 4, 6, 3, 7, 5]);
}

#[test]
fn triangle_count_and_area_l_shape() {
    // An L of three unit squares: 6 corners, doubled shoelace area 6e6.
    let l: [(i64, i64); 6] =
        [(0, 0), (2_000, 0), (2_000, 1_000), (1_000, 1_000), (1_000, 2_000), (0, 2_000)];
    let m = build(vec![sector(0, 3_000, &l, &[])]).unwrap();
    let mesh = &m.sectors[0].mesh;
    // Exactly N - 2 = 4 triangles per planar surface.
    assert_eq!(mesh.planes_indices.len(), 6 * (l.len() - 2));
    // The floor triangles' doubled signed areas sum to the polygon's
    // doubled shoelace area, exactly.
    let mut area: i64 = 0;
    for t in 0..mesh.planes_indices.len() / 6 {
        let a = l[(mesh.planes_indices[6 * t] / 2) as usize];
        let b = l[(mesh.planes_indices[6 * t + 1] / 2) as usize];
        let c = l[(mesh.planes_indices[6 * t + 2] / 2) as usize];
        area += (b.0 - a.0) * (c.1 - a.1) - (c.0 - a.0) * (b.1 - a.1);
    }
    assert_eq!(area, 6_000_000);
}

#[test]
fn wall_texture_monotone_and_wraps_to_perimeter() {
    let m = build(vec![sector(0, 3_000, &SQUARE, &[])]).unwrap();
    let wv = &m.sectors[0].mesh.wall_vertices;
    assert_eq!(wv.len(), 2 * SQUARE.len() + 2);
    // Each edge is 1000 long over height 3000: a step of 333 texture units.
    let expected_s = [0, 333, 666, 999, 1_332];
    for (i, s) in expected_s.iter().enumerate() {
        assert_eq!(wv[2 * i].s, *s);
        assert_eq!(wv[2 * i + 1].s, *s);
        assert_eq!(wv[2 * i].t, 0);
        assert_eq!(wv[2 * i + 1].t, 1_000);
        assert_eq!(wv[2 * i].vtype, WALL);
    }
    // Monotonically non-decreasing, closing at the full perimeter.
    for w in wv.windows(2) {
        assert!(w[0].s <= w[1].s);
    }
    assert_eq!(wv[wv.len() - 1].s, 1_332);
}

#[test]
fn plane_vertices_tag_and_texture() {
    let m = build(vec![sector(0, 3_000, &SQUARE, &[])]).unwrap();
    let pv = &m.sectors[0].mesh.planes_vertices;
    assert_eq!(pv.len(), 8);
    assert_eq!(pv[0].vtype, FLOOR);
    assert_eq!(pv[1].vtype, CEILING);
    // Plane textures tile by world coordinates; z is negated for rendering.
    assert_eq!((pv[4].x, pv[4].y, pv[4].z), (1_000, 0, -1_000));
    assert_eq!((pv[4].s, pv[4].t), (1_000, 1_000));
}

#[test]
fn every_solid_edge_one_quad_no_gates() {
    let m = build(vec![sector(0, 3_000, &SQUARE, &[])]).unwrap();
    let wi = &m.sectors[0].mesh.wall_indices;
    assert_eq!(
        wi,
        &vec![0, 1, 2, 1, 3, 2, 2, 3, 4, 3, 5, 4, 4, 5, 6, 5, 7, 6, 6, 7, 8, 7, 9, 8]
    );
}

fn two_rooms(floor1: i64, ceiling1: i64) -> Vec<Sector> {
    // Room 0 and room 1 share the vertical edge x = 1000, z in [0, 1000]:
    // edge 1 of room 0, edge 3 of room 1.
    let s1: [(i64, i64); 4] = [(1_000, 0), (2_000, 0), (2_000, 1_000), (1_000, 1_000)];
    vec![
        sector(0, 3_000, &SQUARE, &[(1, 1, 3)]),
        sector(floor1, ceiling1, &s1, &[(3, 0, 1)]),
    ]
}

#[test]
fn gate_edge_produces_no_wall_quad() {
    let m = build(two_rooms(0, 3_000)).unwrap();
    let wi = &m.sectors[0].mesh.wall_indices;
    // Edge 1 is a gate: only edges 0, 2, 3 contribute a quad each.
    assert_eq!(
        wi,
        &vec![0, 1, 2, 1, 3, 2, 4, 5, 6, 5, 7, 6, 6, 7, 8, 7, 9, 8]
    );
}

#[test]
fn floor_connector_only_on_higher_side() {
    let m = build(two_rooms(500, 3_000)).unwrap();
    // Room 1's floor (500) is above room 0's (0): room 1 alone generates
    // the floor connector quad; room 0 generates nothing.
    assert_eq!(m.sectors[0].mesh.wall_vertices.len(), 10);
    let wv = &m.sectors[1].mesh.wall_vertices;
    assert_eq!(wv.len(), 14);
    let quad = &wv[10..14];
    for v in quad {
        assert_eq!(v.vtype, GATE);
    }
    // Spanning that edge from the target floor (0) up to room 1's
    // floor (500), at x = 1000.
    assert_eq!((quad[0].x, quad[0].y, quad[0].z, quad[0].s, quad[0].t), (1_000, 500, -1_000, 0, 1_000));
    assert_eq!((quad[1].x, quad[1].y, quad[1].z, quad[1].s, quad[1].t), (1_000, 0, -1_000, 0, 0));
    // Edge length 1000 over the 500 gap: 2000 texture units.
    assert_eq!((quad[2].x, quad[2].y, quad[2].z, quad[2].s, quad[2].t), (1_000, 500, 0, 2_000, 1_000));
    assert_eq!((quad[3].x, quad[3].y, quad[3].z, quad[3].s, quad[3].t), (1_000, 0, 0, 2_000, 0));
    let wi = &m.sectors[1].mesh.wall_indices;
    assert_eq!(&wi[wi.len() - 6..], &[13, 12, 11, 12, 10, 11]);
}

#[test]
fn ceiling_connector_only_on_lower_side() {
    let m = build(two_rooms(0, 2_000)).unwrap();
    // Room 1's ceiling (2000) is below room 0's (3000): room 1 alone
    // generates the ceiling connector.
    assert_eq!(m.sectors[0].mesh.wall_vertices.len(), 10);
    let wv = &m.sectors[1].mesh.wall_vertices;
    assert_eq!(wv.len(), 14);
    assert_eq!((wv[10].y, wv[11].y), (2_000, 3_000));
    assert_eq!(wv[10].vtype, GATE);
    let wi = &m.sectors[1].mesh.wall_indices;
    assert_eq!(&wi[wi.len() - 6..], &[13, 11, 12, 12, 11, 10]);
}

#[test]
fn matching_heights_generate_no_connector() {
    let m = build(two_rooms(0, 3_000)).unwrap();
    assert_eq!(m.sectors[0].mesh.wall_vertices.len(), 10);
    assert_eq!(m.sectors[1].mesh.wall_vertices.len(), 10);
}

#[test]
fn level_metadata_carried_over() {
    let m = build(vec![sector(0, 3_000, &SQUARE, &[])]).unwrap();
    assert_eq!(m.name, "test level");
    assert_eq!(m.spawn, (500, 0, 500));
    assert_eq!(m.sectors[0].floor, 0);
    assert_eq!(m.sectors[0].ceiling, 3_000);
    assert_eq!(m.sectors[0].corners, SQUARE.to_vec());
    assert_eq!(m.sectors[0].mesh.texture.wall.0, "fallback.png");
    assert_eq!(m.sectors[0].mesh.texture.gate.0, "fallback.png");
}

#[test]
fn error_too_few_corners() {
    let r = build(vec![sector(0, 3_000, &[(0, 0), (1_000, 0)], &[])]);
    assert_eq!(r.err(), Some(MapError::TooFewCorners));
}

#[test]
fn error_coord_out_of_range() {
    let r = build(vec![sector(0, 3_000, &[(0, 0), (2_000_000, 0), (0, 1_000)], &[])]);
    assert_eq!(r.err(), Some(MapError::CoordOutOfRange));
}

#[test]
fn error_bad_heights() {
    let r = build(vec![sector(3_000, 0, &SQUARE, &[])]);
    assert_eq!(r.err(), Some(MapError::BadHeights));
}

#[test]
fn error_gate_edge_out_of_range() {
    let r = build(vec![sector(0, 3_000, &SQUARE, &[(4, 0, 0)])]);
    assert_eq!(r.err(), Some(MapError::GateEdgeOutOfRange));
}

#[test]
fn error_duplicate_gate_edge() {
    let mut rooms = two_rooms(0, 3_000);
    rooms[0].gates.push(Gate { own: 1, target_sector: 1, target_gate: 3 });
    let r = build(rooms);
    assert_eq!(r.err(), Some(MapError::DuplicateGateEdge));
}

#[test]
fn error_gate_target_out_of_range() {
    let r = build(vec![sector(0, 3_000, &SQUARE, &[(1, 5, 0)])]);
    assert_eq!(r.err(), Some(MapError::GateTargetOutOfRange));
}

#[test]
fn error_not_counter_clockwise() {
    let cw: [(i64, i64); 4] = [(0, 0), (0, 1_000), (1_000, 1_000), (1_000, 0)];
    let r = build(vec![sector(0, 3_000, &cw, &[])]);
    assert_eq!(r.err(), Some(MapError::NotCounterClockwise));
}

#[test]
fn error_degenerate_polygon() {
    // Positive shoelace area, but self-intersecting: no scan finds an ear.
    let bad: [(i64, i64); 6] =
        [(0, 0), (2_000, 0), (500, 500), (2_000, 1_000), (0, 1_000), (1_500, 500)];
    let r = build(vec![sector(0, 3_000, &bad, &[])]);
    assert_eq!(r.err(), Some(MapError::DegeneratePolygon));
}

#[test]
fn first_failing_sector_wins() {
    let r = build(vec![sector(3_000, 0, &SQUARE, &[]), sector(0, 3_000, &[(0, 0)], &[])]);
    assert_eq!(r.err(), Some(MapError::BadHeights));
}

#[test]
fn empty_world() {
    let m = mood::map::WorldMap::new();
    assert_eq!(m.sectors.len(), 0);
    assert_eq!(m.spawn, (0, 0, 0));
}

#[test]
fn texture_default_is_fallback() {
    let t = Texture::default();
    assert_eq!(t.wall, "fallback.png");
    assert_eq!(t.floor, "fallback.png");
    assert_eq!(t.ceiling, "fallback.png");
    assert_eq!(t.gate, "fallback.png");
}

#[test]
fn data_default_is_empty() {
    let d = Data::default();
    assert_eq!(d.name, "");
    assert_eq!(d.sectors.len(), 0);
    assert_eq!(d.spawn, (0, 0, 0));
}

#[test]
fn triangulate_direct_square() {
    let corners = vec![(0i64, 0i64), (1_000, 0), (1_000, 1_000), (0, 1_000)];
    let pi = mood::earclip::triangulate(&corners).unwrap();
    assert_eq!(pi, vec![0, 2, 6, 1, 7, 3, 2, 4, 6, 3, 7, 5]);
}

#[test]
fn triangulate_direct_degenerate() {
    let corners =
        vec![(0i64, 0i64), (2_000, 0), (500, 500), (2_000, 1_000), (0, 1_000), (1_500, 500)];
    assert!(mood::earclip::triangulate(&corners).is_none());
}

#[test]
fn doubled_area_signs() {
    let ccw = vec![(0i64, 0i64), (1_000, 0), (1_000, 1_000), (0, 1_000)];
    assert_eq!(mood::map::polygon_doubled_area(&ccw), 2_000_000);
    let cw = vec![(0i64, 0i64), (0, 1_000), (1_000, 1_000), (1_000, 0)];
    assert_eq!(mood::map::polygon_doubled_area(&cw), -2_000_000);
}

#[test]
fn validate_sector_accepts_square() {
    let s = sector(0, 3_000, &SQUARE, &[]);
    assert!(mood::map::validate_sector(&s, 1).is_none());
}
