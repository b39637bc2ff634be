//! The collision and sector-transition resolver, end to end on a built
//! two-room world.

use mood::map::{build_from_data, WorldMap};
use mood::mapdata::{Data, Gate, Sector, Texture};
use mood::player::{Player, PLAYER_HEIGHT};

fn sector(
    floor: i64,
    ceiling: i64,
    corners: &[(i64, i64)],
    gates: &[(u32, u32, u32)],
) -> Sector {
    Sector {
        floor,
        ceiling,
        corners: corners.to_vec(),
        gates: gates
            .iter()
            .map(|&(own, target_sector, target_gate)| Gate { own, target_sector, target_gate })
            .collect(),
        textures: Texture::default(),
    }
}

/// Room 0 (floor 0, ceiling 3) and room 1 (given heights), joined by a
/// gate across the shared edge x = 1000.
fn two_rooms(floor1: i64, ceiling1: i64) -> WorldMap {
    let square: [(i64, i64); 4] = [(0, 0), (1_000, 0), (1_000, 1_000), (0, 1_000)];
    let s1: [(i64, i64); 4] = [(1_000, 0), (2_000, 0), (2_000, 1_000), (1_000, 1_000)];
    build_from_data(Data {
        path: String::new(),
        name: String::new(),
        description: String::new(),
        spawn: (500, 0, 500),
        sectors: vec![
            sector(0, 3_000, &square, &[(1, 1, 3)]),
            sector(floor1, ceiling1, &s1, &[(3, 0, 1)]),
        ],
    })
    .unwrap()
}

#[test]
fn low_ceiling_gate_rejects_move() {
    // Crossing into a sector with ceiling 0.4 (clearance below the player
    // height 0.65): the move is discarded, the sector stays 0.
    let m = two_rooms(0, 400);
    let mut p = Player::new((500, 0, 500));
    p.move_step(&m, 1_000, 0, 0);
    assert_eq!(p.cur_sector, 0);
    assert_eq!((p.x, p.z), (500, 500));
    assert_eq!(p.y, PLAYER_HEIGHT);
}

#[test]
fn clear_gate_accepts_move_and_switches_sector() {
    // Ceiling 2 gives clearance above 0.65: the move commits, the sector
    // becomes 1, and the vertical position snaps to floor + 0.65.
    let m = two_rooms(0, 2_000);
    let mut p = Player::new((500, 0, 500));
    p.move_step(&m, 1_000, 0, 0);
    assert_eq!(p.cur_sector, 1);
    assert_eq!((p.x, p.z), (1_500, 500));
    assert_eq!(p.y, PLAYER_HEIGHT);
}

#[test]
fn gate_snaps_to_target_floor() {
    let m = two_rooms(200, 2_000);
    let mut p = Player::new((500, 0, 500));
    p.move_step(&m, 1_000, 0, 0);
    assert_eq!(p.cur_sector, 1);
    assert_eq!(p.y, 200 + PLAYER_HEIGHT);
}

#[test]
fn solid_wall_rejects_move() {
    let m = two_rooms(0, 3_000);
    let mut p = Player::new((500, 0, 500));
    p.move_step(&m, 0, 0, -1_000);
    assert_eq!(p.cur_sector, 0);
    assert_eq!((p.x, p.z), (500, 500));
}

#[test]
fn free_move_within_sector() {
    let m = two_rooms(0, 3_000);
    let mut p = Player::new((500, 0, 500));
    p.move_step(&m, 200, 0, 100);
    assert_eq!(p.cur_sector, 0);
    assert_eq!((p.x, p.z), (700, 600));
    assert_eq!(p.y, PLAYER_HEIGHT);
    assert_eq!((p.prev_x, p.prev_z), (700, 600));
}

#[test]
fn zero_displacement_is_a_no_op() {
    let m = two_rooms(0, 3_000);
    let mut p = Player::new((500, 0, 500));
    let y0 = p.y;
    p.move_step(&m, 0, 0, 0);
    assert_eq!((p.x, p.y, p.z), (500, y0, 500));
    assert_eq!(p.cur_sector, 0);
}

#[test]
fn spectator_moves_freely() {
    // Spectator mode bypasses collision, transitions and ground snap,
    // including through walls and vertically.
    let m = two_rooms(0, 400);
    let mut p = Player::new((500, 0, 500));
    p.toggle_spectator();
    assert!(p.spectator);
    p.move_step(&m, 1_000, 700, -2_000);
    assert_eq!(p.cur_sector, 0);
    assert_eq!((p.x, p.y, p.z), (1_500, PLAYER_HEIGHT + 700, -1_500));
    p.toggle_spectator();
    assert!(!p.spectator);
}

#[test]
fn player_spawns_at_eye_height_in_sector_zero() {
    let p = Player::new((250, 1_000, -750));
    assert_eq!(p.cur_sector, 0);
    assert_eq!((p.x, p.y, p.z), (250, 1_000 + PLAYER_HEIGHT, -750));
    assert_eq!((p.prev_x, p.prev_z), (250, -750));
    assert!(!p.spectator);
}

#[test]
fn first_crossed_edge_wins() {
    // A displacement long enough to cross both the portal edge and the far
    // wall of room 1 is resolved against the first edge found in corner
    // order of room 0 alone: its gate, edge 1.
    let m = two_rooms(0, 2_000);
    let mut p = Player::new((500, 0, 500));
    p.move_step(&m, 5_000, 0, 0);
    assert_eq!(p.cur_sector, 1);
    assert_eq!((p.x, p.z), (5_500, 500));
}

#[test]
fn landing_exactly_on_an_edge_is_not_a_crossing() {
    // The crossing test asks for a strictly interior intersection: a move
    // that ends exactly on the boundary touches it without crossing, so it
    // commits within the current sector — the documented treatment of
    // degenerate geometry.
    let m = two_rooms(0, 3_000);
    let mut p = Player::new((500, 0, 500));
    p.move_step(&m, 500, 0, 0);
    assert_eq!(p.cur_sector, 0);
    assert_eq!((p.x, p.z), (1_000, 500));
}

#[test]
fn walking_through_a_gate_step_by_step() {
    let m = two_rooms(0, 2_000);
    let mut p = Player::new((500, 0, 500));
    let mut transitions = 0;
    for _ in 0..4 {
        let before = p.cur_sector;
        p.move_step(&m, 300, 0, 0);
        if p.cur_sector != before {
            transitions += 1;
        }
    }
    assert_eq!(transitions, 1);
    assert_eq!(p.cur_sector, 1);
    assert_eq!((p.x, p.z), (1_700, 500));
}
