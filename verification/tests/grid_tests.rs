use dungeon_gen::entity::{Color, Object};
use dungeon_gen::geometry::Rect;
use dungeon_gen::grid::{
    create_h_tunnel, create_room, create_v_tunnel, is_blocked, Grid, MAP_HEIGHT, MAP_WIDTH,
};

fn player_at(x: i32, y: i32) -> Object {
    Object::new(x, y, '@', Color { r: 255, g: 255, b: 255 }, true)
}

#[test]
fn new_grid_is_all_wall() {
    let g = Grid::new();
    for &(x, y) in &[(0, 0), (79, 42), (40, 21), (0, 42), (79, 0)] {
        let t = g.get(x, y);
        assert!(t.blocked);
        assert!(t.block_sight);
        assert!(!t.explored);
    }
    assert_eq!(MAP_WIDTH, 80);
    assert_eq!(MAP_HEIGHT, 43);
}

#[test]
fn create_room_carves_interior_only() {
    let mut g = Grid::new();
    let room = Rect::new(0, 0, 6, 6);
    create_room(room, &mut g);
    // Interior cells are floor.
    for x in 1..6 {
        for y in 1..6 {
            assert!(!g.get(x, y).blocked);
            assert!(!g.get(x, y).block_sight);
        }
    }
    // The boundary rows and columns stay wall.
    for k in 0..7 {
        assert!(g.get(k, 0).blocked);
        assert!(g.get(0, k).blocked);
        assert!(g.get(k, 6).blocked);
        assert!(g.get(6, k).blocked);
    }
}

#[test]
fn h_tunnel_endpoints_are_order_independent() {
    let mut a = Grid::new();
    let mut b = Grid::new();
    create_h_tunnel(2, 7, 5, &mut a);
    create_h_tunnel(7, 2, 5, &mut b);
    for x in 0..MAP_WIDTH {
        for y in 0..MAP_HEIGHT {
            assert_eq!(a.get(x, y).blocked, b.get(x, y).blocked);
        }
    }
    for x in 2..8 {
        assert!(!a.get(x, 5).blocked);
    }
    assert!(a.get(1, 5).blocked);
    assert!(a.get(8, 5).blocked);
}

#[test]
fn v_tunnel_endpoints_are_order_independent() {
    let mut a = Grid::new();
    let mut b = Grid::new();
    create_v_tunnel(3, 9, 10, &mut a);
    create_v_tunnel(9, 3, 10, &mut b);
    for x in 0..MAP_WIDTH {
        for y in 0..MAP_HEIGHT {
            assert_eq!(a.get(x, y).blocked, b.get(x, y).blocked);
        }
    }
    for y in 3..10 {
        assert!(!a.get(10, y).blocked);
    }
    assert!(a.get(10, 2).blocked);
    assert!(a.get(10, 10).blocked);
}

#[test]
fn wall_is_blocked_regardless_of_entities() {
    let g = Grid::new();
    let objects: Vec<Object> = Vec::new();
    assert!(is_blocked(0, 0, &g, &objects));
    let with_entity = vec![player_at(0, 0)];
    assert!(is_blocked(0, 0, &g, &with_entity));
}

#[test]
fn floor_with_blocking_entity_is_blocked() {
    let mut g = Grid::new();
    create_room(Rect::new(0, 0, 6, 6), &mut g);
    let objects = vec![player_at(2, 3)];
    assert!(is_blocked(2, 3, &g, &objects));
    assert!(!is_blocked(2, 4, &g, &objects));
}

#[test]
fn floor_with_non_blocking_entity_is_free() {
    let mut g = Grid::new();
    create_room(Rect::new(0, 0, 6, 6), &mut g);
    let mut marker = Object::new(2, 3, '!', Color { r: 127, g: 0, b: 255 }, false);
    marker.always_visible = true;
    let objects = vec![marker];
    assert!(!is_blocked(2, 3, &g, &objects));
}
