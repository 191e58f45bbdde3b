//! Entities: the player, monsters, items and the stairs marker, each a
//! flat record of position, glyph, colour, flags and optional tags, plus
//! the fixed archetypes that content placement instantiates.

use vstd::prelude::*;

verus! {

/// An RGB display colour, carried for the renderer and never read here.
#[derive(Clone, Copy, Debug, PartialEq, Eq, Structural)]
pub struct Color {
    pub r: u8,
    pub g: u8,
    pub b: u8,
}

#[derive(Clone, Copy, Debug, PartialEq, Eq, Structural)]
pub enum DeathCallback {
    Player,
    Monster,
}

#[derive(Clone, Copy, Debug, PartialEq, Eq, Structural)]
pub enum Ai {
    Basic,
}

#[derive(Clone, Copy, Debug, PartialEq, Eq, Structural)]
pub enum Item {
    Heal,
    Lightning,
    Fireball,
    Confuse,
    Sword,
    Shield,
}

#[derive(Clone, Copy, Debug, PartialEq, Eq, Structural)]
pub enum Slot {
    LeftHand,
    RightHand,
}

#[derive(Clone, Copy, Debug, PartialEq, Eq, Structural)]
pub struct Fighter {
    pub base_max_hp: i32,
    pub hp: i32,
    pub base_defense: i32,
    pub base_power: i32,
    pub xp: i32,
    pub on_death: DeathCallback,
}

#[derive(Clone, Copy, Debug, PartialEq, Eq, Structural)]
pub struct Equipment {
    pub equipped: bool,
    pub slot: Slot,
    pub max_hp_bonus: i32,
    pub power_bonus: i32,
    pub defense_bonus: i32,
}

/// One entity record. Index 0 of the level's collection is the player.
#[derive(Clone, Copy, Debug, PartialEq)]
pub struct Object {
    pub x: i32,
    pub y: i32,
    pub glyph: char,
    pub color: Color,
    pub blocks: bool,
    pub alive: bool,
    pub always_visible: bool,
    pub fighter: Option<Fighter>,
    pub ai: Option<Ai>,
    pub item: Option<Item>,
    pub equipment: Option<Equipment>,
}

pub open spec fn spec_object_new(x: i32, y: i32, glyph: char, color: Color, blocks: bool) -> Object {
    Object {
        x,
        y,
        glyph,
        color,
        blocks,
        alive: false,
        always_visible: false,
        fighter: None,
        ai: None,
        item: None,
        equipment: None,
    }
}

/// Two entities that agree on everything but their position.
pub open spec fn same_but_pos(a: Object, b: Object) -> bool {
    &&& a.glyph == b.glyph
    &&& a.color == b.color
    &&& a.blocks == b.blocks
    &&& a.alive == b.alive
    &&& a.always_visible == b.always_visible
    &&& a.fighter == b.fighter
    &&& a.ai == b.ai
    &&& a.item == b.item
    &&& a.equipment == b.equipment
}

impl Object {
    pub fn new(x: i32, y: i32, glyph: char, color: Color, blocks: bool) -> (o: Object)
        ensures
            o == spec_object_new(x, y, glyph, color, blocks),
    {
        Object {
            x,
            y,
            glyph,
            color,
            blocks,
            alive: false,
            always_visible: false,
            fighter: None,
            ai: None,
            item: None,
            equipment: None,
        }
    }

    pub fn pos(&self) -> (p: (i32, i32))
        ensures
            p.0 == self.x,
            p.1 == self.y,
    {
        (self.x, self.y)
    }

    pub fn set_pos(&mut self, x: i32, y: i32)
        ensures
            final(self).x == x,
            final(self).y == y,
            same_but_pos(*final(self), *old(self)),
    {
        self.x = x;
        self.y = y;
    }
}

pub open spec fn spec_orc(x: i32, y: i32) -> Object {
    Object {
        x,
        y,
        glyph: 'o',
        color: Color { r: 63, g: 127, b: 63 },
        blocks: true,
        alive: true,
        always_visible: false,
        fighter: Some(
            Fighter {
                base_max_hp: 20,
                hp: 20,
                base_defense: 0,
                base_power: 4,
                xp: 35,
                on_death: DeathCallback::Monster,
            },
        ),
        ai: Some(Ai::Basic),
        item: None,
        equipment: None,
    }
}

pub open spec fn spec_troll(x: i32, y: i32) -> Object {
    Object {
        x,
        y,
        glyph: 'T',
        color: Color { r: 0, g: 127, b: 0 },
        blocks: true,
        alive: true,
        always_visible: false,
        fighter: Some(
            Fighter {
                base_max_hp: 30,
                hp: 30,
                base_defense: 2,
                base_power: 8,
                xp: 100,
                on_death: DeathCallback::Monster,
            },
        ),
        ai: Some(Ai::Basic),
        item: None,
        equipment: None,
    }
}

/// The fields every placed item shares: non-blocking, always visible,
/// tagged with its kind.
pub open spec fn spec_item_base(x: i32, y: i32, glyph: char, color: Color, kind: Item) -> Object {
    Object {
        x,
        y,
        glyph,
        color,
        blocks: false,
        alive: false,
        always_visible: true,
        fighter: None,
        ai: None,
        item: Some(kind),
        equipment: None,
    }
}

pub open spec fn spec_heal_potion(x: i32, y: i32) -> Object {
    spec_item_base(x, y, '!', Color { r: 127, g: 0, b: 255 }, Item::Heal)
}

pub open spec fn spec_lightning_scroll(x: i32, y: i32) -> Object {
    spec_item_base(x, y, '#', Color { r: 255, g: 255, b: 115 }, Item::Lightning)
}

pub open spec fn spec_fireball_scroll(x: i32, y: i32) -> Object {
    spec_item_base(x, y, '#', Color { r: 255, g: 255, b: 115 }, Item::Fireball)
}

pub open spec fn spec_confusion_scroll(x: i32, y: i32) -> Object {
    spec_item_base(x, y, '#', Color { r: 255, g: 255, b: 115 }, Item::Confuse)
}

pub open spec fn spec_sword(x: i32, y: i32) -> Object {
    Object {
        equipment: Some(
            Equipment {
                equipped: false,
                slot: Slot::RightHand,
                max_hp_bonus: 0,
                power_bonus: 3,
                defense_bonus: 0,
            },
        ),
        ..spec_item_base(x, y, '/', Color { r: 0, g: 191, b: 255 }, Item::Sword)
    }
}

pub open spec fn spec_shield(x: i32, y: i32) -> Object {
    Object {
        equipment: Some(
            Equipment {
                equipped: false,
                slot: Slot::LeftHand,
                max_hp_bonus: 0,
                power_bonus: 0,
                defense_bonus: 1,
            },
        ),
        ..spec_item_base(x, y, '[', Color { r: 0, g: 191, b: 255 }, Item::Shield)
    }
}

pub open spec fn spec_stairs(x: i32, y: i32) -> Object {
    Object {
        always_visible: true,
        ..spec_object_new(x, y, '<', Color { r: 255, g: 255, b: 255 }, false)
    }
}

/// A monster exactly as content placement creates it, at its own position.
pub open spec fn spec_is_monster(o: Object) -> bool {
    o == spec_orc(o.x, o.y) || o == spec_troll(o.x, o.y)
}

/// An item exactly as content placement creates it, at its own position.
pub open spec fn spec_is_item(o: Object) -> bool {
    ||| o == spec_heal_potion(o.x, o.y)
    ||| o == spec_lightning_scroll(o.x, o.y)
    ||| o == spec_fireball_scroll(o.x, o.y)
    ||| o == spec_confusion_scroll(o.x, o.y)
    ||| o == spec_sword(o.x, o.y)
    ||| o == spec_shield(o.x, o.y)
}

pub open spec fn spec_is_stairs(o: Object) -> bool {
    o == spec_stairs(o.x, o.y)
}

pub fn make_orc(x: i32, y: i32) -> (o: Object)
    ensures
        o == spec_orc(x, y),
{
    let mut o = Object::new(x, y, 'o', Color { r: 63, g: 127, b: 63 }, true);
    o.fighter = Some(
        Fighter {
            base_max_hp: 20,
            hp: 20,
            base_defense: 0,
            base_power: 4,
            xp: 35,
            on_death: DeathCallback::Monster,
        },
    );
    o.ai = Some(Ai::Basic);
    o.alive = true;
    o
}

pub fn make_troll(x: i32, y: i32) -> (o: Object)
    ensures
        o == spec_troll(x, y),
{
    let mut o = Object::new(x, y, 'T', Color { r: 0, g: 127, b: 0 }, true);
    o.fighter = Some(
        Fighter {
            base_max_hp: 30,
            hp: 30,
            base_defense: 2,
            base_power: 8,
            xp: 100,
            on_death: DeathCallback::Monster,
        },
    );
    o.ai = Some(Ai::Basic);
    o.alive = true;
    o
}

fn make_item_base(x: i32, y: i32, glyph: char, color: Color, kind: Item) -> (o: Object)
    ensures
        o == spec_item_base(x, y, glyph, color, kind),
{
    let mut o = Object::new(x, y, glyph, color, false);
    o.item = Some(kind);
    o.always_visible = true;
    o
}

pub fn make_heal_potion(x: i32, y: i32) -> (o: Object)
    ensures
        o == spec_heal_potion(x, y),
{
    make_item_base(x, y, '!', Color { r: 127, g: 0, b: 255 }, Item::Heal)
}

pub fn make_lightning_scroll(x: i32, y: i32) -> (o: Object)
    ensures
        o == spec_lightning_scroll(x, y),
{
    make_item_base(x, y, '#', Color { r: 255, g: 255, b: 115 }, Item::Lightning)
}

pub fn make_fireball_scroll(x: i32, y: i32) -> (o: Object)
    ensures
        o == spec_fireball_scroll(x, y),
{
    make_item_base(x, y, '#', Color { r: 255, g: 255, b: 115 }, Item::Fireball)
}

pub fn make_confusion_scroll(x: i32, y: i32) -> (o: Object)
    ensures
        o == spec_confusion_scroll(x, y),
{
    make_item_base(x, y, '#', Color { r: 255, g: 255, b: 115 }, Item::Confuse)
}

pub fn make_sword(x: i32, y: i32) -> (o: Object)
    ensures
        o == spec_sword(x, y),
{
    let mut o = make_item_base(x, y, '/', Color { r: 0, g: 191, b: 255 }, Item::Sword);
    o.equipment = Some(
        Equipment {
            equipped: false,
            slot: Slot::RightHand,
            max_hp_bonus: 0,
            power_bonus: 3,
            defense_bonus: 0,
        },
    );
    o
}

pub fn make_shield(x: i32, y: i32) -> (o: Object)
    ensures
        o == spec_shield(x, y),
{
    let mut o = make_item_base(x, y, '[', Color { r: 0, g: 191, b: 255 }, Item::Shield);
    o.equipment = Some(
        Equipment {
            equipped: false,
            slot: Slot::LeftHand,
            max_hp_bonus: 0,
            power_bonus: 0,
            defense_bonus: 1,
        },
    );
    o
}

pub fn make_stairs(x: i32, y: i32) -> (o: Object)
    ensures
        o == spec_stairs(x, y),
{
    let mut o = Object::new(x, y, '<', Color { r: 255, g: 255, b: 255 }, false);
    o.always_visible = true;
    o
}

} // verus!
