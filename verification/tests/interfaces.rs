//! GUI interface selection and the health display update.

use mood::gui::{ActiveInterface, Gui, GuiManager, Vertex};

fn vx(x: i64) -> Vertex {
    Vertex { x, y: 1, z: 7, r: 2, s: 3 }
}

#[test]
fn set_gui_returns_previous() {
    let mut m = GuiManager::new(ActiveInterface::NONE);
    let before = m.set_gui(ActiveInterface::TEST);
    assert_eq!(before, ActiveInterface::NONE);
    let before = m.set_gui(ActiveInterface::PAUSE);
    assert_eq!(before, ActiveInterface::TEST);
}

#[test]
fn active_interface_follows_selection() {
    let mut m = GuiManager::new(ActiveInterface::NONE);
    m.set_gui(ActiveInterface::HELP);
    m.active_interface_mut().push_vertex(vx(42));
    assert_eq!(m.active_interface().vertices.len(), 1);
    assert_eq!(m.active_interface().vertices[0].x, 42);
    m.set_gui(ActiveInterface::NONE);
    assert_eq!(m.active_interface().vertices.len(), 0);
}

#[test]
fn set_hp_paints_point_blocks() {
    let mut m = GuiManager::new(ActiveInterface::NONE);
    m.set_gui(ActiveInterface::TEST);
    for k in 0..32 {
        m.active_interface_mut().push_vertex(vx(k));
    }
    m.set_hp(3);
    let v = &m.active_interface().vertices;
    assert_eq!(v.len(), 32);
    // Two leading blocks untouched.
    for k in 0..8 {
        assert_eq!(v[k].z, 7);
    }
    // Five point blocks of four vertices: the first three pulled forward,
    // the last two flattened.
    for i in 0..5 {
        for j in 0..4 {
            let expected = if i < 3 { -200 } else { 0 };
            assert_eq!(v[8 + i * 4 + j].z, expected);
            assert_eq!(v[8 + i * 4 + j].x, (8 + i * 4 + j) as i64);
        }
    }
    // Anything after the window untouched.
    for k in 28..32 {
        assert_eq!(v[k].z, 7);
    }
}

#[test]
fn set_hp_zero_flattens_all() {
    let mut m = GuiManager::new(ActiveInterface::NONE);
    m.set_gui(ActiveInterface::TEST);
    for k in 0..28 {
        m.active_interface_mut().push_vertex(vx(k));
    }
    m.set_hp(0);
    let v = &m.active_interface().vertices;
    for i in 0..5 {
        for j in 0..4 {
            assert_eq!(v[8 + i * 4 + j].z, 0);
        }
    }
}

#[test]
fn update_vertex_overwrites_window() {
    let mut g = Gui::new();
    for k in 0..6 {
        g.push_vertex(vx(k));
    }
    let patch = vec![vx(100), vx(101)];
    g.update_vertex(2, &patch);
    let xs: Vec<i64> = g.vertices.iter().map(|v| v.x).collect();
    assert_eq!(xs, vec![0, 1, 100, 101, 4, 5]);
}

#[test]
fn vertices_clone_copies() {
    let mut g = Gui::new();
    g.push_vertex(vx(9));
    let c = g.vertices_clone();
    assert_eq!(c.len(), 1);
    assert_eq!(c[0], vx(9));
}
