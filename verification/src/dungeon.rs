//! The dungeon generator: random room placement with tunnel connection,
//! and depth-scaled random population of each accepted room.

use vstd::prelude::*;

use crate::entity::{
    make_confusion_scroll, make_fireball_scroll, make_heal_potion, make_lightning_scroll, make_orc,
    make_shield, make_stairs, make_sword, make_troll, same_but_pos, Object, spec_confusion_scroll,
    spec_fireball_scroll, spec_heal_potion, spec_is_item, spec_is_monster, spec_is_stairs,
    spec_lightning_scroll, spec_orc, spec_shield, spec_stairs, spec_sword, spec_troll,
};
use crate::entropy::{
    lemma_sum_le_pointwise, spec_choose_draw, spec_coin_draw, spec_range_draw, spec_step,
    sum_weights, Entropy,
};
use crate::geometry::{spec_center_x, spec_center_y, spec_intersects, Rect};
use crate::grid::{
    create_h_tunnel, create_room, create_v_tunnel, in_bounds, in_room_interior, is_blocked,
    spec_carve_h_tiles, spec_carve_room_tiles, spec_carve_v_tiles, spec_is_blocked_tiles,
    spec_max, spec_min, spec_wall_grid, Grid, Tile, MAP_HEIGHT, MAP_WIDTH,
};
use crate::tables::{from_dungeon_level, lemma_lookup_in_values, spec_lookup, Transition};
use vstd::pervasive::VecAdditionalExecFns;

verus! {

pub const ROOM_MAX_SIZE: i32 = 10;

pub const ROOM_MIN_SIZE: i32 = 6;

pub const MAX_ROOMS: i32 = 30;

/// A room rectangle the generator accepts: strictly inside the grid,
/// with a non-empty interior.
pub open spec fn room_ok(r: Rect) -> bool {
    &&& 0 <= r.x1
    &&& r.x1 + 1 < r.x2
    &&& r.x2 < MAP_WIDTH
    &&& 0 <= r.y1
    &&& r.y1 + 1 < r.y2
    &&& r.y2 < MAP_HEIGHT
}

/// A room of the size the generator draws: both sides within
/// [ROOM_MIN_SIZE, ROOM_MAX_SIZE].
pub open spec fn room_sized(r: Rect) -> bool {
    &&& ROOM_MIN_SIZE <= r.x2 - r.x1 <= ROOM_MAX_SIZE
    &&& ROOM_MIN_SIZE <= r.y2 - r.y1 <= ROOM_MAX_SIZE
}

/// An entity content placement just created: one of the fixed archetypes,
/// on a floor tile strictly inside its room.
pub open spec fn placed_ok(o: Object, room: Rect, grid: Grid) -> bool {
    &&& spec_is_monster(o) || spec_is_item(o)
    &&& in_room_interior(room, o.x as int, o.y as int)
    &&& !grid.tile_at(o.x as int, o.y as int).blocked
}

/// Maximum number of monsters per room, by depth.
pub open spec fn spec_monster_count_table() -> Seq<Transition> {
    seq![
        Transition { level: 1, value: 2 },
        Transition { level: 4, value: 3 },
        Transition { level: 6, value: 5 },
    ]
}

fn monster_count_table() -> (t: Vec<Transition>)
    ensures
        t@ == spec_monster_count_table(),
{
    let mut t: Vec<Transition> = Vec::new();
    t.push(Transition { level: 1, value: 2 });
    t.push(Transition { level: 4, value: 3 });
    t.push(Transition { level: 6, value: 5 });
    proof {
        assert(t@ =~= spec_monster_count_table());
    }
    t
}

/// Troll spawn weight, by depth.
pub open spec fn spec_troll_chance_table() -> Seq<Transition> {
    seq![
        Transition { level: 3, value: 15 },
        Transition { level: 5, value: 30 },
        Transition { level: 7, value: 60 },
    ]
}

fn troll_chance_table() -> (t: Vec<Transition>)
    ensures
        t@ == spec_troll_chance_table(),
{
    let mut t: Vec<Transition> = Vec::new();
    t.push(Transition { level: 3, value: 15 });
    t.push(Transition { level: 5, value: 30 });
    t.push(Transition { level: 7, value: 60 });
    proof {
        assert(t@ =~= spec_troll_chance_table());
    }
    t
}

/// Maximum number of items per room, by depth.
pub open spec fn spec_item_count_table() -> Seq<Transition> {
    seq![Transition { level: 1, value: 1 }, Transition { level: 4, value: 2 }]
}

fn item_count_table() -> (t: Vec<Transition>)
    ensures
        t@ == spec_item_count_table(),
{
    let mut t: Vec<Transition> = Vec::new();
    t.push(Transition { level: 1, value: 1 });
    t.push(Transition { level: 4, value: 2 });
    proof {
        assert(t@ =~= spec_item_count_table());
    }
    t
}

pub open spec fn spec_single_table(lvl: u32, val: u32) -> Seq<Transition> {
    seq![Transition { level: lvl, value: val }]
}

fn single_table(lvl: u32, val: u32) -> (t: Vec<Transition>)
    ensures
        t@ == spec_single_table(lvl, val),
{
    let mut t: Vec<Transition> = Vec::new();
    t.push(Transition { level: lvl, value: val });
    proof {
        assert(t@ =~= spec_single_table(lvl, val));
    }
    t
}

/// The monster weight list the generator builds at a given depth.
pub open spec fn spec_monster_weights(level: u32) -> Seq<u32> {
    seq![80u32, spec_lookup(spec_troll_chance_table(), level)]
}

/// The item weight list the generator builds at a given depth.
pub open spec fn spec_item_weights(level: u32) -> Seq<u32> {
    seq![
        35u32,
        spec_lookup(spec_single_table(4, 25), level),
        spec_lookup(spec_single_table(6, 25), level),
        spec_lookup(spec_single_table(2, 10), level),
        spec_lookup(spec_single_table(4, 5), level),
        spec_lookup(spec_single_table(8, 15), level),
    ]
}

/// The monster a weighted draw instantiates.
pub open spec fn spec_monster_for(idx: int, x: i32, y: i32) -> Object {
    if idx == 0 {
        spec_orc(x, y)
    } else {
        spec_troll(x, y)
    }
}

/// The item a weighted draw instantiates.
pub open spec fn spec_item_for(idx: int, x: i32, y: i32) -> Object {
    if idx == 0 {
        spec_heal_potion(x, y)
    } else if idx == 1 {
        spec_lightning_scroll(x, y)
    } else if idx == 2 {
        spec_fireball_scroll(x, y)
    } else if idx == 3 {
        spec_confusion_scroll(x, y)
    } else if idx == 4 {
        spec_sword(x, y)
    } else {
        spec_shield(x, y)
    }
}

/// `n` monster placements replayed from scripted draws: each draws a spot
/// inside the room; a blocked spot is skipped and draws no kind, a free
/// one draws a weighted kind and appends that archetype there.
pub open spec fn spec_replay_monsters(
    room: Rect,
    tiles: Seq<Tile>,
    objects: Seq<Object>,
    level: u32,
    values: Seq<u64>,
    next: int,
    n: nat,
) -> (Seq<Object>, int)
    decreases n,
{
    if n == 0 {
        (objects, next)
    } else {
        let x = spec_range_draw(values, next, room.x1 + 1, room.x2 as int);
        let c1 = spec_step(values, next);
        let y = spec_range_draw(values, c1, room.y1 + 1, room.y2 as int);
        let c2 = spec_step(values, c1);
        if !spec_is_blocked_tiles(x, y, tiles, objects) {
            let idx = spec_choose_draw(values, c2, spec_monster_weights(level));
            let c3 = spec_step(values, c2);
            spec_replay_monsters(
                room,
                tiles,
                objects.push(spec_monster_for(idx, x as i32, y as i32)),
                level,
                values,
                c3,
                (n - 1) as nat,
            )
        } else {
            spec_replay_monsters(room, tiles, objects, level, values, c2, (n - 1) as nat)
        }
    }
}

/// `n` item placements replayed from scripted draws, as the monsters.
pub open spec fn spec_replay_items(
    room: Rect,
    tiles: Seq<Tile>,
    objects: Seq<Object>,
    level: u32,
    values: Seq<u64>,
    next: int,
    n: nat,
) -> (Seq<Object>, int)
    decreases n,
{
    if n == 0 {
        (objects, next)
    } else {
        let x = spec_range_draw(values, next, room.x1 + 1, room.x2 as int);
        let c1 = spec_step(values, next);
        let y = spec_range_draw(values, c1, room.y1 + 1, room.y2 as int);
        let c2 = spec_step(values, c1);
        if !spec_is_blocked_tiles(x, y, tiles, objects) {
            let idx = spec_choose_draw(values, c2, spec_item_weights(level));
            let c3 = spec_step(values, c2);
            spec_replay_items(
                room,
                tiles,
                objects.push(spec_item_for(idx, x as i32, y as i32)),
                level,
                values,
                c3,
                (n - 1) as nat,
            )
        } else {
            spec_replay_items(room, tiles, objects, level, values, c2, (n - 1) as nat)
        }
    }
}

/// One room's whole population replayed from scripted draws: the monster
/// count draw, the monsters, the item count draw, the items.
pub open spec fn spec_replay_place(
    room: Rect,
    tiles: Seq<Tile>,
    objects: Seq<Object>,
    level: u32,
    values: Seq<u64>,
    next: int,
) -> (Seq<Object>, int) {
    let nm = spec_range_draw(values, next, 0, spec_lookup(spec_monster_count_table(), level) + 1);
    let c1 = spec_step(values, next);
    let m = spec_replay_monsters(room, tiles, objects, level, values, c1, nm as nat);
    let ni = spec_range_draw(values, m.1, 0, spec_lookup(spec_item_count_table(), level) + 1);
    let c2 = spec_step(values, m.1);
    spec_replay_items(room, tiles, m.0, level, values, c2, ni as nat)
}

/// Populate one freshly carved room: a depth-scaled random number of
/// monsters (orcs, and trolls once their weight is positive) and items
/// (potions, scrolls and equipment, weighted by depth), each dropped on
/// a random interior spot and skipped without retry when that spot is
/// blocked at the moment of the draw.
fn place_objects(room: Rect, grid: &Grid, objects: &mut Vec<Object>, level: u32, entropy: &mut Entropy)
    requires
        grid.wf(),
        room_ok(room),
    ensures
        old(objects)@.len() <= final(objects)@.len(),
        forall|i: int| 0 <= i < old(objects)@.len() ==> final(objects)@[i] == old(objects)@[i],
        forall|k: int|
            old(objects)@.len() <= k < final(objects)@.len()
                ==> placed_ok(final(objects)@[k], room, *grid),
        forall|j: int, k: int|
            0 <= j < k < final(objects)@.len() && old(objects)@.len() <= k
                && final(objects)@[j].blocks && final(objects)@[k].blocks
                ==> !(final(objects)@[j].x == final(objects)@[k].x
                    && final(objects)@[j].y == final(objects)@[k].y),
        final(objects)@.len() <= old(objects)@.len() + spec_lookup(
            spec_monster_count_table(),
            level,
        ) + spec_lookup(spec_item_count_table(), level),
        old(entropy).is_scripted() ==> final(entropy).is_scripted() && final(entropy).spec_values()
            == old(entropy).spec_values() && ({
            let r = spec_replay_place(
                room,
                grid@,
                old(objects)@,
                level,
                old(entropy).spec_values(),
                old(entropy).spec_next(),
            );
            final(objects)@ == r.0 && final(entropy).spec_next() == r.1
        }),
        !old(entropy).is_scripted() ==> *final(entropy) == *old(entropy),
{
    let ghost vals = entropy.spec_values();
    let max_monsters_t = monster_count_table();
    let max_monsters = from_dungeon_level(&max_monsters_t, level);
    proof {
        lemma_lookup_in_values(max_monsters_t@, level);
        assert(max_monsters <= 5);
    }
    let num_monsters = entropy.range_u32(0, max_monsters + 1);
    let ghost m_c = entropy.spec_next();

    let troll_t = troll_chance_table();
    let troll_chance = from_dungeon_level(&troll_t, level);
    let mut monster_weights: Vec<u32> = Vec::new();
    monster_weights.push(80);
    monster_weights.push(troll_chance);
    proof {
        lemma_lookup_in_values(troll_t@, level);
        assert(forall|i: int|
            0 <= i < monster_weights@.len() ==> monster_weights@[i] <= 80);
        lemma_sum_le_pointwise(monster_weights@, 80);
        assert(monster_weights@ =~= spec_monster_weights(level));
    }

    let mut placed: u32 = 0;
    while placed < num_monsters
        invariant
            grid.wf(),
            room_ok(room),
            monster_weights@.len() == 2,
            monster_weights@[0] == 80,
            sum_weights(monster_weights@) <= u32::MAX,
            monster_weights@ == spec_monster_weights(level),
            !old(entropy).is_scripted() ==> *entropy == *old(entropy),
            old(entropy).is_scripted() ==> entropy.is_scripted() && entropy.spec_values() == vals
                && spec_replay_monsters(
                room,
                grid@,
                objects@,
                level,
                vals,
                entropy.spec_next(),
                (num_monsters - placed) as nat,
            ) == spec_replay_monsters(
                room,
                grid@,
                old(objects)@,
                level,
                vals,
                m_c,
                num_monsters as nat,
            ),
            placed <= num_monsters,
            num_monsters <= spec_lookup(spec_monster_count_table(), level),
            old(objects)@.len() <= objects@.len(),
            objects@.len() <= old(objects)@.len() + placed,
            forall|i: int| 0 <= i < old(objects)@.len() ==> objects@[i] == old(objects)@[i],
            forall|k: int|
                old(objects)@.len() <= k < objects@.len() ==> placed_ok(objects@[k], room, *grid),
            forall|j: int, k: int|
                0 <= j < k < objects@.len() && old(objects)@.len() <= k && objects@[j].blocks
                    && objects@[k].blocks ==> !(objects@[j].x == objects@[k].x && objects@[j].y
                    == objects@[k].y),
        decreases num_monsters - placed,
    {
        let ghost it_c = entropy.spec_next();
        let ghost it_objs = objects@;
        let x = entropy.range_i32(room.x1 + 1, room.x2);
        let y = entropy.range_i32(room.y1 + 1, room.y2);
        if !is_blocked(x, y, grid, objects) {
            let idx = entropy.choose_weighted(&monster_weights);
            let monster = if idx == 0 {
                make_orc(x, y)
            } else {
                make_troll(x, y)
            };
            objects.push(monster);
            proof {
                if old(entropy).is_scripted() {
                    assert(spec_replay_monsters(
                        room,
                        grid@,
                        it_objs,
                        level,
                        vals,
                        it_c,
                        (num_monsters - placed) as nat,
                    ) == spec_replay_monsters(
                        room,
                        grid@,
                        objects@,
                        level,
                        vals,
                        entropy.spec_next(),
                        (num_monsters - placed - 1) as nat,
                    ));
                }
            }
        } else {
            proof {
                if old(entropy).is_scripted() {
                    assert(spec_replay_monsters(
                        room,
                        grid@,
                        it_objs,
                        level,
                        vals,
                        it_c,
                        (num_monsters - placed) as nat,
                    ) == spec_replay_monsters(
                        room,
                        grid@,
                        objects@,
                        level,
                        vals,
                        entropy.spec_next(),
                        (num_monsters - placed - 1) as nat,
                    ));
                }
            }
        }
        placed = placed + 1;
    }

    proof {
        if old(entropy).is_scripted() {
            assert(spec_replay_monsters(
                room,
                grid@,
                objects@,
                level,
                vals,
                entropy.spec_next(),
                0nat,
            ) == (objects@, entropy.spec_next()));
        }
    }
    let ghost m_objs = objects@;
    let ghost mid_c = entropy.spec_next();

    let max_items_t = item_count_table();
    let max_items = from_dungeon_level(&max_items_t, level);
    proof {
        lemma_lookup_in_values(max_items_t@, level);
        assert(max_items <= 2);
    }
    let num_items = entropy.range_u32(0, max_items + 1);
    let ghost i_c = entropy.spec_next();

    let lightning_t = single_table(4, 25);
    let fireball_t = single_table(6, 25);
    let confusion_t = single_table(2, 10);
    let sword_t = single_table(4, 5);
    let shield_t = single_table(8, 15);
    let mut item_weights: Vec<u32> = Vec::new();
    item_weights.push(35);
    item_weights.push(from_dungeon_level(&lightning_t, level));
    item_weights.push(from_dungeon_level(&fireball_t, level));
    item_weights.push(from_dungeon_level(&confusion_t, level));
    item_weights.push(from_dungeon_level(&sword_t, level));
    item_weights.push(from_dungeon_level(&shield_t, level));
    proof {
        lemma_lookup_in_values(lightning_t@, level);
        lemma_lookup_in_values(fireball_t@, level);
        lemma_lookup_in_values(confusion_t@, level);
        lemma_lookup_in_values(sword_t@, level);
        lemma_lookup_in_values(shield_t@, level);
        assert(forall|i: int| 0 <= i < item_weights@.len() ==> item_weights@[i] <= 35);
        lemma_sum_le_pointwise(item_weights@, 35);
        assert(item_weights@ =~= spec_item_weights(level));
    }

    let mut dropped: u32 = 0;
    while dropped < num_items
        invariant
            grid.wf(),
            room_ok(room),
            item_weights@.len() == 6,
            item_weights@[0] == 35,
            sum_weights(item_weights@) <= u32::MAX,
            item_weights@ == spec_item_weights(level),
            !old(entropy).is_scripted() ==> *entropy == *old(entropy),
            old(entropy).is_scripted() ==> entropy.is_scripted() && entropy.spec_values() == vals
                && spec_replay_items(
                room,
                grid@,
                objects@,
                level,
                vals,
                entropy.spec_next(),
                (num_items - dropped) as nat,
            ) == spec_replay_items(
                room,
                grid@,
                m_objs,
                level,
                vals,
                i_c,
                num_items as nat,
            ),
            dropped <= num_items,
            num_items <= spec_lookup(spec_item_count_table(), level),
            old(objects)@.len() <= objects@.len(),
            objects@.len() <= old(objects)@.len() + spec_lookup(
                spec_monster_count_table(),
                level,
            ) + dropped,
            forall|i: int| 0 <= i < old(objects)@.len() ==> objects@[i] == old(objects)@[i],
            forall|k: int|
                old(objects)@.len() <= k < objects@.len() ==> placed_ok(objects@[k], room, *grid),
            forall|j: int, k: int|
                0 <= j < k < objects@.len() && old(objects)@.len() <= k && objects@[j].blocks
                    && objects@[k].blocks ==> !(objects@[j].x == objects@[k].x && objects@[j].y
                    == objects@[k].y),
        decreases num_items - dropped,
    {
        let ghost it_c = entropy.spec_next();
        let ghost it_objs = objects@;
        let x = entropy.range_i32(room.x1 + 1, room.x2);
        let y = entropy.range_i32(room.y1 + 1, room.y2);
        if !is_blocked(x, y, grid, objects) {
            let idx = entropy.choose_weighted(&item_weights);
            let item = if idx == 0 {
                make_heal_potion(x, y)
            } else if idx == 1 {
                make_lightning_scroll(x, y)
            } else if idx == 2 {
                make_fireball_scroll(x, y)
            } else if idx == 3 {
                make_confusion_scroll(x, y)
            } else if idx == 4 {
                make_sword(x, y)
            } else {
                make_shield(x, y)
            };
            objects.push(item);
            proof {
                if old(entropy).is_scripted() {
                    assert(spec_replay_items(
                        room,
                        grid@,
                        it_objs,
                        level,
                        vals,
                        it_c,
                        (num_items - dropped) as nat,
                    ) == spec_replay_items(
                        room,
                        grid@,
                        objects@,
                        level,
                        vals,
                        entropy.spec_next(),
                        (num_items - dropped - 1) as nat,
                    ));
                }
            }
        } else {
            proof {
                if old(entropy).is_scripted() {
                    assert(spec_replay_items(
                        room,
                        grid@,
                        it_objs,
                        level,
                        vals,
                        it_c,
                        (num_items - dropped) as nat,
                    ) == spec_replay_items(
                        room,
                        grid@,
                        objects@,
                        level,
                        vals,
                        entropy.spec_next(),
                        (num_items - dropped - 1) as nat,
                    ));
                }
            }
        }
        dropped = dropped + 1;
    }
    proof {
        if old(entropy).is_scripted() {
            assert(spec_replay_items(
                room,
                grid@,
                objects@,
                level,
                vals,
                entropy.spec_next(),
                0nat,
            ) == (objects@, entropy.spec_next()));
        }
    }
}

/// A room with a non-empty interior holds its own center strictly inside.
proof fn lemma_center_in_interior(r: Rect)
    requires
        0 <= r.x1,
        r.x1 + 1 < r.x2,
        0 <= r.y1,
        r.y1 + 1 < r.y2,
    ensures
        in_room_interior(r, spec_center_x(r), spec_center_y(r)),
{
    assert(r.x1 < (r.x1 + r.x2) / 2 < r.x2) by (nonlinear_arith)
        requires
            0 <= r.x1,
            r.x1 + 1 < r.x2,
    ;
    assert(r.y1 < (r.y1 + r.y2) / 2 < r.y2) by (nonlinear_arith)
        requires
            0 <= r.y1,
            r.y1 + 1 < r.y2,
    ;
}

/// A carved corridor segment: one row between two columns, or one
/// column between two rows, endpoints included.
pub enum Tunnel {
    Across { x1: int, x2: int, y: int },
    Down { y1: int, y2: int, x: int },
}

pub open spec fn on_tunnel(t: Tunnel, x: int, y: int) -> bool {
    match t {
        Tunnel::Across { x1, x2, y: ty } => y == ty && spec_min(x1, x2) <= x <= spec_max(x1, x2),
        Tunnel::Down { y1, y2, x: tx } => x == tx && spec_min(y1, y2) <= y <= spec_max(y1, y2),
    }
}

/// A cell generation has carved: strictly inside an accepted room, or on
/// one of the tunnels.
pub open spec fn covered(rooms: Seq<Rect>, tunnels: Seq<Tunnel>, x: int, y: int) -> bool {
    (exists|i: int| 0 <= i < rooms.len() && in_room_interior(rooms[i], x, y)) || (exists|i: int|
        0 <= i < tunnels.len() && on_tunnel(tunnels[i], x, y))
}

/// The grid is exactly the carved cells: a cell is floor precisely when
/// it is covered, and every cell is one of the two canonical tiles.
pub open spec fn exact_coverage(grid: Grid, rooms: Seq<Rect>, tunnels: Seq<Tunnel>) -> bool {
    forall|x: int, y: int|
        in_bounds(x, y) ==> (!grid.tile_at(x, y).blocked <==> covered(rooms, tunnels, x, y))
            && (grid.tile_at(x, y) == crate::grid::spec_wall() || grid.tile_at(x, y)
            == crate::grid::spec_empty())
}

/// Carving a room extends exact coverage by that room.
proof fn lemma_cover_push_room(g0: Grid, g1: Grid, rooms: Seq<Rect>, tunnels: Seq<Tunnel>, room: Rect)
    requires
        exact_coverage(g0, rooms, tunnels),
        forall|x: int, y: int|
            in_bounds(x, y) && in_room_interior(room, x, y) ==> g1.tile_at(x, y)
                == crate::grid::spec_empty(),
        forall|x: int, y: int|
            in_bounds(x, y) && !in_room_interior(room, x, y) ==> g1.tile_at(x, y) == g0.tile_at(
                x,
                y,
            ),
    ensures
        exact_coverage(g1, rooms.push(room), tunnels),
{
    assert forall|x: int, y: int|
        in_bounds(x, y) implies (!g1.tile_at(x, y).blocked <==> covered(
        rooms.push(room),
        tunnels,
        x,
        y,
    )) && (g1.tile_at(x, y) == crate::grid::spec_wall() || g1.tile_at(x, y)
        == crate::grid::spec_empty()) by {
        if in_room_interior(room, x, y) {
            assert(rooms.push(room)[rooms.len() as int] == room);
            assert(covered(rooms.push(room), tunnels, x, y));
        } else {
            assert(g1.tile_at(x, y) == g0.tile_at(x, y));
            if covered(rooms.push(room), tunnels, x, y) {
                if exists|i: int|
                    0 <= i < rooms.push(room).len() && in_room_interior(
                        rooms.push(room)[i],
                        x,
                        y,
                    ) {
                    let i = choose|i: int|
                        0 <= i < rooms.push(room).len() && in_room_interior(
                            rooms.push(room)[i],
                            x,
                            y,
                        );
                    assert(i < rooms.len());
                    assert(rooms.push(room)[i] == rooms[i]);
                    assert(covered(rooms, tunnels, x, y));
                }
            }
            if covered(rooms, tunnels, x, y) {
                if exists|i: int| 0 <= i < rooms.len() && in_room_interior(rooms[i], x, y) {
                    let i = choose|i: int|
                        0 <= i < rooms.len() && in_room_interior(rooms[i], x, y);
                    assert(rooms.push(room)[i] == rooms[i]);
                    assert(covered(rooms.push(room), tunnels, x, y));
                }
            }
        }
    }
}

/// Carving a tunnel extends exact coverage by that segment.
proof fn lemma_cover_push_tunnel(g0: Grid, g1: Grid, rooms: Seq<Rect>, tunnels: Seq<Tunnel>, t: Tunnel)
    requires
        exact_coverage(g0, rooms, tunnels),
        forall|x: int, y: int|
            in_bounds(x, y) && on_tunnel(t, x, y) ==> g1.tile_at(x, y)
                == crate::grid::spec_empty(),
        forall|x: int, y: int|
            in_bounds(x, y) && !on_tunnel(t, x, y) ==> g1.tile_at(x, y) == g0.tile_at(x, y),
    ensures
        exact_coverage(g1, rooms, tunnels.push(t)),
{
    assert forall|x: int, y: int|
        in_bounds(x, y) implies (!g1.tile_at(x, y).blocked <==> covered(
        rooms,
        tunnels.push(t),
        x,
        y,
    )) && (g1.tile_at(x, y) == crate::grid::spec_wall() || g1.tile_at(x, y)
        == crate::grid::spec_empty()) by {
        if on_tunnel(t, x, y) {
            assert(tunnels.push(t)[tunnels.len() as int] == t);
            assert(covered(rooms, tunnels.push(t), x, y));
        } else {
            assert(g1.tile_at(x, y) == g0.tile_at(x, y));
            if covered(rooms, tunnels.push(t), x, y) {
                if exists|i: int|
                    0 <= i < tunnels.push(t).len() && on_tunnel(tunnels.push(t)[i], x, y) {
                    let i = choose|i: int|
                        0 <= i < tunnels.push(t).len() && on_tunnel(tunnels.push(t)[i], x, y);
                    assert(i < tunnels.len());
                    assert(tunnels.push(t)[i] == tunnels[i]);
                    assert(covered(rooms, tunnels, x, y));
                }
            }
            if covered(rooms, tunnels, x, y) {
                if exists|i: int| 0 <= i < tunnels.len() && on_tunnel(tunnels[i], x, y) {
                    let i = choose|i: int| 0 <= i < tunnels.len() && on_tunnel(tunnels[i], x, y);
                    assert(tunnels.push(t)[i] == tunnels[i]);
                    assert(covered(rooms, tunnels.push(t), x, y));
                }
            }
        }
    }
}

/// Carving only opens floor: a step that turns cells to floor and leaves
/// the rest alone keeps every carved room interior and every occupied
/// tile passable.
proof fn lemma_floors_monotone(g0: Grid, g1: Grid, rooms: Seq<Rect>, objects: Seq<Object>)
    requires
        forall|x: int, y: int|
            in_bounds(x, y) ==> g1.tile_at(x, y) == crate::grid::spec_empty() || g1.tile_at(x, y)
                == g0.tile_at(x, y),
        forall|i: int| 0 <= i < rooms.len() ==> room_ok(rooms[i]),
        forall|i: int, x: int, y: int|
            0 <= i < rooms.len() && in_room_interior(rooms[i], x, y) ==> !g0.tile_at(x, y).blocked,
        forall|k: int|
            1 <= k < objects.len() ==> in_bounds(objects[k].x as int, objects[k].y as int)
                && !g0.tile_at(objects[k].x as int, objects[k].y as int).blocked,
    ensures
        forall|i: int, x: int, y: int|
            0 <= i < rooms.len() && in_room_interior(rooms[i], x, y) ==> !g1.tile_at(x, y).blocked,
        forall|k: int|
            1 <= k < objects.len() ==> !g1.tile_at(objects[k].x as int, objects[k].y as int).blocked,
{
    assert forall|i: int, x: int, y: int|
        0 <= i < rooms.len() && in_room_interior(rooms[i], x, y) implies !g1.tile_at(
        x,
        y,
    ).blocked by {
        assert(room_ok(rooms[i]));
        assert(in_bounds(x, y));
    }
    assert forall|k: int| 1 <= k < objects.len() implies !g1.tile_at(
        objects[k].x as int,
        objects[k].y as int,
    ).blocked by {
        assert(in_bounds(objects[k].x as int, objects[k].y as int));
    }
}

/// One generation attempt and those after it, replayed from scripted
/// draws: each attempt draws size and position; a rectangle meeting any
/// accepted room (inclusive-edge test) is rejected, an accepted one is
/// carved and populated, the first accepted room receives the player at
/// its center, later ones an L-shaped tunnel from the previous center in
/// a coin-tossed bend order.
pub open spec fn spec_replay_attempts(
    tiles: Seq<Tile>,
    rooms: Seq<Rect>,
    objects: Seq<Object>,
    level: u32,
    values: Seq<u64>,
    next: int,
    n: nat,
) -> (Seq<Tile>, Seq<Rect>, Seq<Object>, int)
    decreases n,
{
    if n == 0 {
        (tiles, rooms, objects, next)
    } else {
        let w = spec_range_draw(values, next, ROOM_MIN_SIZE as int, ROOM_MAX_SIZE + 1);
        let c1 = spec_step(values, next);
        let h = spec_range_draw(values, c1, ROOM_MIN_SIZE as int, ROOM_MAX_SIZE + 1);
        let c2 = spec_step(values, c1);
        let x = spec_range_draw(values, c2, 0, MAP_WIDTH - w);
        let c3 = spec_step(values, c2);
        let y = spec_range_draw(values, c3, 0, MAP_HEIGHT - h);
        let c4 = spec_step(values, c3);
        let room = Rect { x1: x as i32, y1: y as i32, x2: (x + w) as i32, y2: (y + h) as i32 };
        if exists|t: int| 0 <= t < rooms.len() && spec_intersects(room, rooms[t]) {
            spec_replay_attempts(tiles, rooms, objects, level, values, c4, (n - 1) as nat)
        } else {
            let t1 = spec_carve_room_tiles(tiles, room);
            let p = spec_replay_place(room, t1, objects, level, values, c4);
            let cx = spec_center_x(room);
            let cy = spec_center_y(room);
            if rooms.len() == 0 {
                let moved = (Object { x: cx as i32, y: cy as i32, ..p.0[0] });
                spec_replay_attempts(
                    t1,
                    rooms.push(room),
                    p.0.update(0, moved),
                    level,
                    values,
                    p.1,
                    (n - 1) as nat,
                )
            } else {
                let prev = rooms.last();
                let px = spec_center_x(prev);
                let py = spec_center_y(prev);
                let coin = spec_coin_draw(values, p.1);
                let c5 = spec_step(values, p.1);
                let t2 = if coin {
                    spec_carve_v_tiles(spec_carve_h_tiles(t1, px, cx, py), py, cy, cx)
                } else {
                    spec_carve_h_tiles(spec_carve_v_tiles(t1, py, cy, px), px, cx, cy)
                };
                spec_replay_attempts(t2, rooms.push(room), p.0, level, values, c5, (n - 1) as nat)
            }
        }
    }
}

/// A whole generation replayed from scripted draws: MAX_ROOMS attempts
/// from an all-wall grid and the player alone, then the stairs appended
/// at the last accepted room's center.
pub open spec fn spec_replay_generation(player: Object, level: u32, values: Seq<u64>, next: int) -> (
    Seq<Tile>,
    Seq<Rect>,
    Seq<Object>,
    int,
) {
    let r = spec_replay_attempts(
        spec_wall_grid(),
        Seq::<Rect>::empty(),
        seq![player],
        level,
        values,
        next,
        MAX_ROOMS as nat,
    );
    let sx = spec_center_x(r.1.last());
    let sy = spec_center_y(r.1.last());
    (r.0, r.1, r.2.push(spec_stairs(sx as i32, sy as i32)), r.3)
}

/// The shape a finished level has, witnessed by its accepted rooms and
/// carved tunnels: at most MAX_ROOMS rooms, each inside the grid and of
/// the drawn size range, no two intersecting (inclusive-edge test); a
/// cell is floor exactly when a room interior or a tunnel covers it and
/// every cell is one of the two canonical tiles; the player stands at
/// the first room's center and the stairs entity at the last room's
/// center.
pub open spec fn generated_layout(
    rooms: Seq<Rect>,
    tunnels: Seq<Tunnel>,
    grid: Grid,
    objects: Seq<Object>,
) -> bool {
    &&& 1 <= rooms.len() <= MAX_ROOMS
    &&& exact_coverage(grid, rooms, tunnels)
    &&& objects.len() >= 2
    &&& forall|i: int| 0 <= i < rooms.len() ==> room_ok(rooms[i]) && room_sized(rooms[i])
    &&& forall|i: int, j: int| 0 <= i < j < rooms.len() ==> !spec_intersects(rooms[i], rooms[j])
    &&& forall|i: int, x: int, y: int|
        0 <= i < rooms.len() && in_room_interior(rooms[i], x, y) ==> !grid.tile_at(x, y).blocked
    &&& objects[0].x == spec_center_x(rooms[0])
    &&& objects[0].y == spec_center_y(rooms[0])
    &&& objects[objects.len() - 1].x == spec_center_x(rooms[rooms.len() - 1])
    &&& objects[objects.len() - 1].y == spec_center_y(rooms[rooms.len() - 1])
}

/// Generate a level: reset to an all-wall grid, keep only the player
/// (entry 0), accept up to MAX_ROOMS random non-overlapping rooms, carve
/// and populate each, connect successive room centers with an L-shaped
/// tunnel in random bend order, move the player to the first room's
/// center, and finally drop an always-visible, non-blocking stairs
/// marker at the last room's center.
#[verifier::rlimit(100)]
pub fn make_map(objects: &mut Vec<Object>, level: u32, entropy: &mut Entropy) -> (grid: Grid)
    requires
        old(objects)@.len() >= 1,
    ensures
        grid.wf(),
        final(objects)@.len() >= 2,
        same_but_pos(final(objects)@[0], old(objects)@[0]),
        spec_is_stairs(final(objects)@[final(objects)@.len() - 1]),
        forall|k: int|
            1 <= k < final(objects)@.len() - 1
                ==> spec_is_monster(final(objects)@[k]) || spec_is_item(final(objects)@[k]),
        forall|k: int|
            1 <= k < final(objects)@.len()
                ==> in_bounds(final(objects)@[k].x as int, final(objects)@[k].y as int)
                    && !grid.tile_at(final(objects)@[k].x as int, final(objects)@[k].y as int).blocked,
        forall|j: int, k: int|
            1 <= j < k < final(objects)@.len() && final(objects)@[j].blocks
                && final(objects)@[k].blocks
                ==> !(final(objects)@[j].x == final(objects)@[k].x
                    && final(objects)@[j].y == final(objects)@[k].y),
        exists|rooms: Seq<Rect>, tunnels: Seq<Tunnel>|
            generated_layout(rooms, tunnels, grid, final(objects)@),
        old(entropy).is_scripted() ==> final(entropy).is_scripted() && final(entropy).spec_values()
            == old(entropy).spec_values() && ({
            let r = spec_replay_generation(
                old(objects)@[0],
                level,
                old(entropy).spec_values(),
                old(entropy).spec_next(),
            );
            grid@ == r.0 && final(objects)@ == r.2 && final(entropy).spec_next() == r.3
        }),
        !old(entropy).is_scripted() ==> *final(entropy) == *old(entropy),
{
    let ghost vals = entropy.spec_values();
    let ghost c0 = entropy.spec_next();
    let mut grid = Grid::new();

    // The player is the first entry; everything else is discarded.
    objects.truncate(1);

    let mut rooms: Vec<Rect> = Vec::new();
    let ghost mut tunnels: Seq<Tunnel> = Seq::<Tunnel>::empty();
    proof {
        assert(rooms@ =~= Seq::<Rect>::empty());
        assert(objects@ =~= seq![old(objects)@[0]]);
        assert forall|x: int, y: int|
            in_bounds(x, y) implies (!grid.tile_at(x, y).blocked <==> covered(
            rooms@,
            tunnels,
            x,
            y,
        )) && (grid.tile_at(x, y) == crate::grid::spec_wall() || grid.tile_at(x, y)
            == crate::grid::spec_empty()) by {
            assert(grid.tile_at(x, y) == crate::grid::spec_wall());
        }
        assert(exact_coverage(grid, rooms@, tunnels));
    }
    let mut attempt: i32 = 0;
    while attempt < MAX_ROOMS
        invariant
            0 <= attempt <= MAX_ROOMS,
            grid.wf(),
            old(objects)@.len() >= 1,
            objects@.len() >= 1,
            same_but_pos(objects@[0], old(objects)@[0]),
            attempt >= 1 ==> rooms@.len() >= 1,
            rooms@.len() <= attempt,
            rooms@.len() == 0 ==> objects@.len() == 1,
            forall|i: int| 0 <= i < rooms@.len() ==> room_ok(rooms@[i]) && room_sized(rooms@[i]),
            forall|i: int, j: int|
                0 <= i < j < rooms@.len() ==> !spec_intersects(rooms@[i], rooms@[j]),
            forall|i: int, x: int, y: int|
                0 <= i < rooms@.len() && in_room_interior(rooms@[i], x, y)
                    ==> !grid.tile_at(x, y).blocked,
            rooms@.len() >= 1 ==> objects@[0].x == spec_center_x(rooms@[0]) && objects@[0].y
                == spec_center_y(rooms@[0]),
            exact_coverage(grid, rooms@, tunnels),
            !old(entropy).is_scripted() ==> *entropy == *old(entropy),
            forall|k: int|
                1 <= k < objects@.len() ==> spec_is_monster(objects@[k]) || spec_is_item(
                    objects@[k],
                ),
            forall|k: int|
                1 <= k < objects@.len() ==> in_bounds(objects@[k].x as int, objects@[k].y as int)
                    && !grid.tile_at(objects@[k].x as int, objects@[k].y as int).blocked,
            forall|j: int, k: int|
                1 <= j < k < objects@.len() && objects@[j].blocks && objects@[k].blocks ==> !(
                objects@[j].x == objects@[k].x && objects@[j].y == objects@[k].y),
            old(entropy).is_scripted() ==> entropy.is_scripted() && entropy.spec_values() == vals
                && spec_replay_attempts(
                grid@,
                rooms@,
                objects@,
                level,
                vals,
                entropy.spec_next(),
                (MAX_ROOMS - attempt) as nat,
            ) == spec_replay_attempts(
                spec_wall_grid(),
                Seq::<Rect>::empty(),
                seq![old(objects)@[0]],
                level,
                vals,
                c0,
                MAX_ROOMS as nat,
            ),
        decreases MAX_ROOMS - attempt,
    {
        let ghost a_c = entropy.spec_next();
        let ghost a_tiles = grid@;
        let ghost a_rooms = rooms@;
        let ghost a_objs = objects@;
        // Random size within [ROOM_MIN_SIZE, ROOM_MAX_SIZE] and a position
        // that keeps the whole rectangle inside the grid.
        let w = entropy.range_i32(ROOM_MIN_SIZE, ROOM_MAX_SIZE + 1);
        let h = entropy.range_i32(ROOM_MIN_SIZE, ROOM_MAX_SIZE + 1);
        let x = entropy.range_i32(0, MAP_WIDTH - w);
        let y = entropy.range_i32(0, MAP_HEIGHT - h);
        let new_room = Rect::new(x, y, w, h);

        let mut failed = false;
        let mut ri: usize = 0;
        while ri < rooms.len()
            invariant
                ri <= rooms@.len(),
                failed == exists|t: int| 0 <= t < ri && spec_intersects(new_room, rooms@[t]),
            decreases rooms@.len() - ri,
        {
            if new_room.intersects_with(&rooms[ri]) {
                failed = true;
            }
            ri = ri + 1;
        }

        if !failed {
            let ghost g0 = grid;
            create_room(new_room, &mut grid);
            proof {
                lemma_floors_monotone(g0, grid, rooms@, objects@);
                lemma_cover_push_room(g0, grid, a_rooms, tunnels, new_room);
            }
            place_objects(new_room, &grid, objects, level, entropy);
            let c = new_room.center();
            proof {
                lemma_center_in_interior(new_room);
                assert(room_ok(new_room));
                assert forall|xx: int, yy: int| in_room_interior(new_room, xx, yy) implies
                    in_bounds(xx, yy) && !grid.tile_at(xx, yy).blocked by {
                    assert(in_bounds(xx, yy));
                    assert(grid.tile_at(xx, yy) == crate::grid::spec_empty());
                }
                assert forall|i: int, xx: int, yy: int|
                    0 <= i < rooms@.push(new_room).len() && in_room_interior(
                    rooms@.push(new_room)[i], xx, yy) implies !grid.tile_at(xx, yy).blocked by {
                    if i < rooms@.len() {
                        assert(rooms@.push(new_room)[i] == rooms@[i]);
                        assert(room_ok(rooms@[i]));
                        assert(in_room_interior(rooms@[i], xx, yy));
                        assert(in_bounds(xx, yy));
                        assert(!g0.tile_at(xx, yy).blocked);
                        if in_room_interior(new_room, xx, yy) {
                            assert(grid.tile_at(xx, yy) == crate::grid::spec_empty());
                        } else {
                            assert(grid.tile_at(xx, yy) == g0.tile_at(xx, yy));
                        }
                    } else {
                        assert(rooms@.push(new_room)[i] == new_room);
                        assert(in_room_interior(new_room, xx, yy));
                        assert(in_bounds(xx, yy));
                        assert(grid.tile_at(xx, yy) == crate::grid::spec_empty());
                    }
                }
                assert forall|i: int|
                    0 <= i < rooms@.push(new_room).len() implies room_ok(
                    rooms@.push(new_room)[i]) by {
                    if i < rooms@.len() {
                        assert(rooms@.push(new_room)[i] == rooms@[i]);
                    } else {
                        assert(rooms@.push(new_room)[i] == new_room);
                    }
                }
            }
            if rooms.len() == 0 {
                // The first accepted room is where the player starts.
                let mut player = objects[0];
                player.set_pos(c.0, c.1);
                objects.set(0, player);
            } else {
                // Connect to the previous room with an L-shaped tunnel,
                // bend order chosen by a coin toss.
                let prev = rooms[rooms.len() - 1];
                let pc = prev.center();
                proof {
                    lemma_center_in_interior(prev);
                }
                if entropy.coin() {
                    let ghost g1 = grid;
                    create_h_tunnel(pc.0, c.0, pc.1, &mut grid);
                    proof {
                        lemma_floors_monotone(g1, grid, rooms@.push(new_room), objects@);
                        lemma_cover_push_tunnel(
                            g1,
                            grid,
                            a_rooms.push(new_room),
                            tunnels,
                            Tunnel::Across { x1: pc.0 as int, x2: c.0 as int, y: pc.1 as int },
                        );
                        tunnels = tunnels.push(
                            Tunnel::Across { x1: pc.0 as int, x2: c.0 as int, y: pc.1 as int },
                        );
                    }
                    let ghost g2 = grid;
                    create_v_tunnel(pc.1, c.1, c.0, &mut grid);
                    proof {
                        lemma_floors_monotone(g2, grid, rooms@.push(new_room), objects@);
                        lemma_cover_push_tunnel(
                            g2,
                            grid,
                            a_rooms.push(new_room),
                            tunnels,
                            Tunnel::Down { y1: pc.1 as int, y2: c.1 as int, x: c.0 as int },
                        );
                        tunnels = tunnels.push(
                            Tunnel::Down { y1: pc.1 as int, y2: c.1 as int, x: c.0 as int },
                        );
                    }
                } else {
                    let ghost g1 = grid;
                    create_v_tunnel(pc.1, c.1, pc.0, &mut grid);
                    proof {
                        lemma_floors_monotone(g1, grid, rooms@.push(new_room), objects@);
                        lemma_cover_push_tunnel(
                            g1,
                            grid,
                            a_rooms.push(new_room),
                            tunnels,
                            Tunnel::Down { y1: pc.1 as int, y2: c.1 as int, x: pc.0 as int },
                        );
                        tunnels = tunnels.push(
                            Tunnel::Down { y1: pc.1 as int, y2: c.1 as int, x: pc.0 as int },
                        );
                    }
                    let ghost g2 = grid;
                    create_h_tunnel(pc.0, c.0, c.1, &mut grid);
                    proof {
                        lemma_floors_monotone(g2, grid, rooms@.push(new_room), objects@);
                        lemma_cover_push_tunnel(
                            g2,
                            grid,
                            a_rooms.push(new_room),
                            tunnels,
                            Tunnel::Across { x1: pc.0 as int, x2: c.0 as int, y: c.1 as int },
                        );
                        tunnels = tunnels.push(
                            Tunnel::Across { x1: pc.0 as int, x2: c.0 as int, y: c.1 as int },
                        );
                    }
                }
            }
            rooms.push(new_room);
            proof {
                if old(entropy).is_scripted() {
                    assert(spec_replay_attempts(
                        a_tiles,
                        a_rooms,
                        a_objs,
                        level,
                        vals,
                        a_c,
                        (MAX_ROOMS - attempt) as nat,
                    ) == spec_replay_attempts(
                        grid@,
                        rooms@,
                        objects@,
                        level,
                        vals,
                        entropy.spec_next(),
                        (MAX_ROOMS - attempt - 1) as nat,
                    ));
                }
            }
        } else {
            proof {
                if old(entropy).is_scripted() {
                    assert(spec_replay_attempts(
                        a_tiles,
                        a_rooms,
                        a_objs,
                        level,
                        vals,
                        a_c,
                        (MAX_ROOMS - attempt) as nat,
                    ) == spec_replay_attempts(
                        grid@,
                        rooms@,
                        objects@,
                        level,
                        vals,
                        entropy.spec_next(),
                        (MAX_ROOMS - attempt - 1) as nat,
                    ));
                }
            }
        }
        attempt = attempt + 1;
    }

    // Stairs down at the center of the last accepted room; the first
    // attempt always accepts, so at least one room exists.
    let last = rooms[rooms.len() - 1];
    let c = last.center();
    proof {
        lemma_center_in_interior(last);
    }
    let stairs = make_stairs(c.0, c.1);
    objects.push(stairs);
    proof {
        assert(generated_layout(rooms@, tunnels, grid, objects@));
        if old(entropy).is_scripted() {
            assert(spec_replay_attempts(
                grid@,
                rooms@,
                objects@.drop_last(),
                level,
                vals,
                entropy.spec_next(),
                0nat,
            ) == (grid@, rooms@, objects@.drop_last(), entropy.spec_next()));
            assert(objects@.drop_last() =~= objects@.drop_last());
        }
    }
    grid
}

} // verus!
