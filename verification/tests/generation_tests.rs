use dungeon_gen::dungeon::make_map;
use dungeon_gen::entity::{Ai, Color, DeathCallback, Item, Object, Slot};
use dungeon_gen::entropy::Entropy;
use dungeon_gen::grid::{MAP_HEIGHT, MAP_WIDTH};

fn player_at(x: i32, y: i32) -> Object {
    let mut p = Object::new(x, y, '@', Color { r: 255, g: 255, b: 255 }, true);
    p.alive = true;
    p
}

// With every draw replaying as 0, the first attempt accepts the room
// (0, 0)..(6, 6) and all later attempts propose the same rectangle,
// which intersects it and is rejected.
#[test]
fn all_zero_draws_give_one_room() {
    let mut objects = vec![player_at(0, 0)];
    let mut e = Entropy::scripted(Vec::new());
    let g = make_map(&mut objects, 1, &mut e);

    assert_eq!(objects.len(), 2);
    // The player keeps identity and moves to the first room's center.
    assert_eq!(objects[0].glyph, '@');
    assert!(objects[0].blocks);
    assert_eq!((objects[0].x, objects[0].y), (3, 3));
    // The stairs stand at the last (same) room's center.
    let stairs = &objects[1];
    assert_eq!((stairs.x, stairs.y), (3, 3));
    assert_eq!(stairs.glyph, '<');
    assert!(!stairs.blocks);
    assert!(stairs.always_visible);
    assert!(stairs.fighter.is_none());
    assert!(stairs.item.is_none());

    // Interior carved, boundary and the rest wall.
    for x in 1..6 {
        for y in 1..6 {
            assert!(!g.get(x, y).blocked);
        }
    }
    for k in 0..7 {
        assert!(g.get(k, 0).blocked);
        assert!(g.get(0, k).blocked);
        assert!(g.get(k, 6).blocked);
        assert!(g.get(6, k).blocked);
    }
    assert!(g.get(40, 21).blocked);
}

#[test]
fn scripted_orc_spawn() {
    let mut objects = vec![player_at(0, 0)];
    // Room draws 0,0,0,0; one monster; spot (1,1); weighted roll 0 (orc);
    // no items.
    let mut e = Entropy::scripted(vec![0, 0, 0, 0, 1, 0, 0, 0, 0]);
    make_map(&mut objects, 1, &mut e);

    assert_eq!(objects.len(), 3);
    let orc = &objects[1];
    assert_eq!((orc.x, orc.y), (1, 1));
    assert_eq!(orc.glyph, 'o');
    assert_eq!(orc.color, Color { r: 63, g: 127, b: 63 });
    assert!(orc.blocks);
    assert!(orc.alive);
    let f = orc.fighter.expect("an orc fights");
    assert_eq!(f.base_max_hp, 20);
    assert_eq!(f.hp, 20);
    assert_eq!(f.base_defense, 0);
    assert_eq!(f.base_power, 4);
    assert_eq!(f.xp, 35);
    assert_eq!(f.on_death, DeathCallback::Monster);
    assert_eq!(orc.ai, Some(Ai::Basic));
    assert_eq!(objects[2].glyph, '<');
}

#[test]
fn scripted_troll_spawn_at_depth_three() {
    let mut objects = vec![player_at(0, 0)];
    // At depth 3 the troll weight is 15; a roll of 80 falls past the
    // orc's weight of 80 and picks the troll.
    let mut e = Entropy::scripted(vec![0, 0, 0, 0, 1, 0, 0, 80, 0]);
    make_map(&mut objects, 3, &mut e);

    assert_eq!(objects.len(), 3);
    let troll = &objects[1];
    assert_eq!((troll.x, troll.y), (1, 1));
    assert_eq!(troll.glyph, 'T');
    assert_eq!(troll.color, Color { r: 0, g: 127, b: 0 });
    assert!(troll.blocks);
    assert!(troll.alive);
    let f = troll.fighter.expect("a troll fights");
    assert_eq!(f.base_max_hp, 30);
    assert_eq!(f.hp, 30);
    assert_eq!(f.base_defense, 2);
    assert_eq!(f.base_power, 8);
    assert_eq!(f.xp, 100);
    assert_eq!(f.on_death, DeathCallback::Monster);
}

// Two monsters are requested but both draws name the same spot; the
// second finds it blocked by the first and is skipped without retry.
#[test]
fn blocked_spot_skips_placement() {
    let mut objects = vec![player_at(0, 0)];
    let mut e = Entropy::scripted(vec![0, 0, 0, 0, 2, 0, 0, 0, 0, 0, 0]);
    make_map(&mut objects, 1, &mut e);

    // Player, a single orc, stairs: the second monster was skipped.
    assert_eq!(objects.len(), 3);
    assert_eq!(objects[1].glyph, 'o');
    assert_eq!((objects[1].x, objects[1].y), (1, 1));
    assert_eq!(objects[2].glyph, '<');
}

#[test]
fn scripted_confusion_scroll_at_depth_two() {
    let mut objects = vec![player_at(0, 0)];
    // At depth 2 the item weights are [35, 0, 0, 10, 0, 0]; a roll of 35
    // falls into the confusion scroll's bracket.
    let mut e = Entropy::scripted(vec![0, 0, 0, 0, 0, 1, 0, 0, 35]);
    make_map(&mut objects, 2, &mut e);

    assert_eq!(objects.len(), 3);
    let scroll = &objects[1];
    assert_eq!((scroll.x, scroll.y), (1, 1));
    assert_eq!(scroll.glyph, '#');
    assert_eq!(scroll.color, Color { r: 255, g: 255, b: 115 });
    assert_eq!(scroll.item, Some(Item::Confuse));
    assert!(!scroll.blocks);
    assert!(scroll.always_visible);
    assert!(scroll.fighter.is_none());
    assert!(scroll.equipment.is_none());
}

#[test]
fn scripted_sword_at_depth_four() {
    let mut objects = vec![player_at(0, 0)];
    // At depth 4 the item weights are [35, 25, 0, 10, 5, 0]; a roll of 70
    // lands in the sword's bracket.
    let mut e = Entropy::scripted(vec![0, 0, 0, 0, 0, 1, 0, 0, 70]);
    make_map(&mut objects, 4, &mut e);

    assert_eq!(objects.len(), 3);
    let sword = &objects[1];
    assert_eq!(sword.glyph, '/');
    assert_eq!(sword.color, Color { r: 0, g: 191, b: 255 });
    assert_eq!(sword.item, Some(Item::Sword));
    let eq = sword.equipment.expect("a sword is equipment");
    assert!(!eq.equipped);
    assert_eq!(eq.slot, Slot::RightHand);
    assert_eq!(eq.power_bonus, 3);
    assert_eq!(eq.defense_bonus, 0);
    assert_eq!(eq.max_hp_bonus, 0);
}

#[test]
fn scripted_two_rooms_joined_by_tunnel() {
    let mut objects = vec![player_at(0, 0)];
    // First room (0,0)..(6,6); second at x = 20, joined horizontally
    // then vertically (coin draw 0); later attempts all rejected.
    let mut e = Entropy::scripted(vec![0, 0, 0, 0, 0, 0, 0, 0, 20, 0, 0, 0, 0]);
    let g = make_map(&mut objects, 1, &mut e);

    assert_eq!(objects.len(), 2);
    assert_eq!((objects[0].x, objects[0].y), (3, 3));
    // Stairs at the center of the last accepted room.
    assert_eq!((objects[1].x, objects[1].y), (23, 3));
    // The corridor between the rooms is carved at row 3.
    for x in 3..24 {
        assert!(!g.get(x, 3).blocked);
    }
    // Off the corridor it is still wall.
    assert!(g.get(10, 2).blocked);
    assert!(g.get(10, 4).blocked);
}

// Identical scripted draws and depth give identical grids and entities.
#[test]
fn identical_draws_generate_identical_levels() {
    let draws = vec![0, 0, 0, 0, 1, 0, 0, 0, 0, 3, 7, 2, 5, 40, 11, 1, 0, 9];
    let mut objects_a = vec![player_at(5, 7)];
    let mut objects_b = vec![player_at(5, 7)];
    let mut ea = Entropy::scripted(draws.clone());
    let mut eb = Entropy::scripted(draws);
    let ga = make_map(&mut objects_a, 6, &mut ea);
    let gb = make_map(&mut objects_b, 6, &mut eb);

    assert_eq!(objects_a, objects_b);
    for x in 0..MAP_WIDTH {
        for y in 0..MAP_HEIGHT {
            assert_eq!(ga.get(x, y), gb.get(x, y));
        }
    }
}

// A full run against the process generator: the shape the contract
// promises holds of whatever was drawn.
#[test]
fn system_generation_respects_layout_rules() {
    let mut objects = vec![player_at(12, 34)];
    let mut e = Entropy::system();
    let g = make_map(&mut objects, 5, &mut e);

    assert!(objects.len() >= 2);
    assert_eq!(objects[0].glyph, '@');
    let stairs = objects.last().expect("stairs exist");
    assert_eq!(stairs.glyph, '<');
    assert!(!stairs.blocks);
    assert!(stairs.always_visible);

    for (k, o) in objects.iter().enumerate() {
        assert!(0 <= o.x && o.x < MAP_WIDTH);
        assert!(0 <= o.y && o.y < MAP_HEIGHT);
        // Everyone stands on a floor tile.
        assert!(!g.get(o.x, o.y).blocked);
        // No two blocking entities share a tile (the player may share
        // with a monster placed before it moved).
        if k >= 1 && o.blocks {
            for other in objects[1..k].iter() {
                if other.blocks {
                    assert!((other.x, other.y) != (o.x, o.y));
                }
            }
        }
    }
}
