//! The entity data model.
//!
//! Every map-resident thing — the player, monsters, items, stairs — shares
//! one record shape, `Object`, whose behaviour is selected by which optional
//! capability fields are populated: a monster has `Fighter` and `Ai`, an item
//! has `Item` (optionally `Equipment`), the player has `Fighter` only and
//! stairs have none.

use vstd::prelude::*;

use crate::color::Color;
use crate::constants::{HP_MAX, HP_MIN, STAT_MAX, XP_MAX};
use crate::tile::on_map;

verus! {

/// Largest coordinate magnitude the engine accepts; keeps every squared
/// distance inside `i64`.
pub const COORD_MAX: i32 = 1_000_000_000;

/// Largest level the engine accepts; keeps every level-up threshold inside
/// `i32`.
pub const LEVEL_MAX: i32 = 10_000_000;

/// The body slot an equipment piece occupies.
#[derive(Clone, Copy, Debug, PartialEq, Eq, Structural)]
pub enum Slot {
    LeftHand,
    RightHand,
    Head,
}

impl Slot {
    /// The slot's user-facing name.
    pub fn describe(&self) -> (s: String)
        ensures
            s@ == slot_name(*self),
    {
        match *self {
            Slot::LeftHand => "left hand".to_owned(),
            Slot::RightHand => "right hand".to_owned(),
            Slot::Head => "head".to_owned(),
        }
    }
}

/// The wearable aspect of an item: stat bonuses granted while equipped.
#[derive(Clone, Copy, Debug, PartialEq, Eq, Structural)]
pub struct Equipment {
    pub slot: Slot,
    pub equipped: bool,
    pub power_bonus: i32,
    pub defense_bonus: i32,
    pub max_hp_bonus: i32,
}

impl Equipment {
    /// Bonuses stay within the per-stat bound.
    pub open spec fn wf(self) -> bool {
        &&& 0 <= self.power_bonus <= STAT_MAX
        &&& 0 <= self.defense_bonus <= STAT_MAX
        &&& 0 <= self.max_hp_bonus <= STAT_MAX
    }
}

/// A tag identifying an item's use-behaviour.
#[derive(Clone, Copy, Debug, PartialEq, Eq, Structural)]
pub enum Item {
    Heal,
    Lightning,
    Confuse,
    Fireball,
    Sword,
    Shield,
}

/// Which of the two fixed death procedures runs when a fighter dies.
#[derive(Clone, Copy, Debug, PartialEq, Eq, Structural)]
pub enum DeathCallback {
    Player,
    Monster,
}

/// The combat-capable aspect of an entity.
#[derive(Clone, Copy, Debug, PartialEq, Eq, Structural)]
pub struct Fighter {
    pub hp: i32,
    pub base_defense: i32,
    pub base_power: i32,
    pub base_max_hp: i32,
    pub xp: i32,
    pub on_death: DeathCallback,
}

impl Fighter {
    /// Stats stay inside the bounds under which combat arithmetic cannot
    /// overflow.
    pub open spec fn wf(self) -> bool {
        &&& 0 <= self.base_defense <= STAT_MAX
        &&& 0 <= self.base_power <= STAT_MAX
        &&& 0 <= self.base_max_hp <= STAT_MAX
        &&& HP_MIN <= self.hp <= HP_MAX
        &&& 0 <= self.xp <= XP_MAX
    }
}

/// The decision state of a monster: a strict two-state machine.  `Confused`
/// wraps the state to resume into once its counter is exhausted; the boxed
/// recursion keeps nested confusion representable.
#[derive(Debug)]
pub enum Ai {
    Basic,
    Confused { previous_ai: Box<Ai>, num_turns: i32 },
}

/// Any map-resident thing.  Index 0 of the entity store is permanently the
/// player for the session.
#[derive(Debug)]
pub struct Object {
    pub x: i32,
    pub y: i32,
    pub name: String,
    pub blocks: bool,
    pub alive: bool,
    pub always_visible: bool,
    pub glyph: char,
    pub color: Color,
    pub level: i32,
    pub fighter: Option<Fighter>,
    pub ai: Option<Ai>,
    pub item: Option<Item>,
    pub equipment: Option<Equipment>,
}

impl Clone for Ai {
    fn clone(&self) -> (r: Ai)
        ensures
            r == *self,
        decreases *self,
    {
        match self {
            Ai::Basic => Ai::Basic,
            Ai::Confused { previous_ai, num_turns } => Ai::Confused {
                previous_ai: Box::new((&**previous_ai).clone()),
                num_turns: *num_turns,
            },
        }
    }
}

impl PartialEq for Ai {
    fn eq(&self, other: &Ai) -> (r: bool)
        decreases *self,
    {
        match (self, other) {
            (Ai::Basic, Ai::Basic) => true,
            (
                Ai::Confused { previous_ai: p1, num_turns: n1 },
                Ai::Confused { previous_ai: p2, num_turns: n2 },
            ) => *n1 == *n2 && (&**p1).eq(&**p2),
            _ => false,
        }
    }
}

impl vstd::std_specs::cmp::PartialEqSpecImpl for Ai {
    open spec fn obeys_eq_spec() -> bool {
        true
    }

    open spec fn eq_spec(&self, other: &Ai) -> bool {
        *self == *other
    }
}

/// True when the entity carries the player's name and therefore draws
/// bonuses from the inventory.
pub open spec fn is_player_name(o: Object) -> bool {
    o.name@ == "player"@
}

/// Well-formedness of the entity store: it is never empty, index 0 is the
/// player (a fighter with the player death procedure, and nothing else
/// carries the player's name), every entity is well-formed, and no ground
/// object is marked equipped — equipped status is only meaningful inside
/// the inventory.
pub open spec fn store_wf(objects: Seq<Object>) -> bool {
    &&& objects.len() >= 1
    &&& forall|i: int| 0 <= i < objects.len() ==> (#[trigger] objects[i]).wf()
    &&& is_player_name(objects[0])
    &&& objects[0].fighter is Some
    &&& objects[0].fighter.unwrap().on_death is Player
    &&& forall|i: int|
        0 <= i < objects.len() ==> on_map(
            (#[trigger] objects[i]).x as int,
            objects[i].y as int,
        )
    &&& forall|i: int| 0 < i < objects.len() ==> !is_player_name(#[trigger] objects[i])
    &&& forall|i: int|
        0 <= i < objects.len() ==> match (#[trigger] objects[i]).equipment {
            Some(e) => !e.equipped,
            None => true,
        }
}

/// The user-facing name of a slot.
pub open spec fn slot_name(s: Slot) -> Seq<char> {
    match s {
        Slot::LeftHand => "left hand"@,
        Slot::RightHand => "right hand"@,
        Slot::Head => "head"@,
    }
}

/// True when `o` carries an equipped piece for some slot.
pub open spec fn is_equipped(o: Object) -> bool {
    match o.equipment {
        Some(e) => e.equipped,
        None => false,
    }
}

/// True when `o` carries an equipped piece for `slot`.
pub open spec fn is_equipped_in(o: Object, slot: Slot) -> bool {
    match o.equipment {
        Some(e) => e.equipped && e.slot == slot,
        None => false,
    }
}

/// At most one equipped piece per slot in an inventory.
pub open spec fn slot_exclusive(inv: Seq<Object>) -> bool {
    forall|i: int, j: int, s: Slot|
        0 <= i < inv.len() && 0 <= j < inv.len() && #[trigger] is_equipped_in(inv[i], s)
            && #[trigger] is_equipped_in(inv[j], s) ==> i == j
}

impl Object {
    /// Coordinates, level and every populated capability stay within the
    /// engine's arithmetic bounds.
    pub open spec fn wf(self) -> bool {
        &&& -COORD_MAX <= self.x <= COORD_MAX
        &&& -COORD_MAX <= self.y <= COORD_MAX
        &&& 1 <= self.level <= LEVEL_MAX
        &&& match self.fighter {
            Some(f) => f.wf(),
            None => true,
        }
        &&& match self.equipment {
            Some(e) => e.wf(),
            None => true,
        }
    }

    /// A bare entity: not alive, level 1, no capabilities populated.
    pub fn new(x: i32, y: i32, glyph: char, name: &str, color: Color, blocks: bool) -> (o: Object)
        ensures
            o == (Object {
                x,
                y,
                glyph,
                color,
                name: o.name,
                blocks,
                alive: false,
                always_visible: false,
                level: 1,
                fighter: None,
                ai: None,
                item: None,
                equipment: None,
            }),
            o.name@ == name@,
    {
        Object {
            x,
            y,
            glyph,
            color,
            name: name.to_owned(),
            blocks,
            alive: false,
            always_visible: false,
            level: 1,
            fighter: None,
            ai: None,
            item: None,
            equipment: None,
        }
    }

    /// The entity's position.
    pub fn pos(&self) -> (p: (i32, i32))
        ensures
            p == (self.x, self.y),
    {
        (self.x, self.y)
    }

    /// Moves the entity to `(x, y)`; nothing else changes.
    pub fn set_pos(&mut self, x: i32, y: i32)
        ensures
            *final(self) == (Object { x, y, ..*old(self) }),
    {
        self.x = x;
        self.y = y;
    }

    /// Squared Euclidean distance to another entity.
    pub fn distance_to_sq(&self, other: &Object) -> (d: i64)
        requires
            -COORD_MAX <= self.x <= COORD_MAX,
            -COORD_MAX <= self.y <= COORD_MAX,
            -COORD_MAX <= other.x <= COORD_MAX,
            -COORD_MAX <= other.y <= COORD_MAX,
        ensures
            d == dist_sq(self.x as int, self.y as int, other.x as int, other.y as int),
    {
        self.distance_sq(other.x, other.y)
    }

    /// Squared Euclidean distance to the point `(x, y)`.
    pub fn distance_sq(&self, x: i32, y: i32) -> (d: i64)
        requires
            -COORD_MAX <= self.x <= COORD_MAX,
            -COORD_MAX <= self.y <= COORD_MAX,
            -COORD_MAX <= x <= COORD_MAX,
            -COORD_MAX <= y <= COORD_MAX,
        ensures
            d == dist_sq(self.x as int, self.y as int, x as int, y as int),
    {
        let dx: i64 = x as i64 - self.x as i64;
        let dy: i64 = y as i64 - self.y as i64;
        proof {
            assert(dx * dx + dy * dy <= 8_000_000_000_000_000_000 && dx * dx >= 0 && dy * dy >= 0)
                by (nonlinear_arith)
                requires
                    -2_000_000_000 <= dx <= 2_000_000_000,
                    -2_000_000_000 <= dy <= 2_000_000_000,
            ;
        }
        dx * dx + dy * dy
    }
}

impl Clone for Object {
    fn clone(&self) -> (r: Object)
        ensures
            r == *self,
    {
        Object {
            x: self.x,
            y: self.y,
            name: self.name.clone(),
            blocks: self.blocks,
            alive: self.alive,
            always_visible: self.always_visible,
            glyph: self.glyph,
            color: self.color,
            level: self.level,
            fighter: self.fighter,
            ai: match &self.ai {
                Some(a) => Some(a.clone()),
                None => None,
            },
            item: self.item,
            equipment: self.equipment,
        }
    }
}

impl PartialEq for Object {
    fn eq(&self, other: &Object) -> (r: bool) {
        let fighter_eq = match (&self.fighter, &other.fighter) {
            (Some(a), Some(b)) => *a == *b,
            (None, None) => true,
            _ => false,
        };
        let ai_eq = match (&self.ai, &other.ai) {
            (Some(a), Some(b)) => a.eq(b),
            (None, None) => true,
            _ => false,
        };
        let item_eq = match (&self.item, &other.item) {
            (Some(a), Some(b)) => *a == *b,
            (None, None) => true,
            _ => false,
        };
        let equipment_eq = match (&self.equipment, &other.equipment) {
            (Some(a), Some(b)) => *a == *b,
            (None, None) => true,
            _ => false,
        };
        self.x == other.x && self.y == other.y && self.name == other.name
            && self.blocks == other.blocks && self.alive == other.alive
            && self.always_visible == other.always_visible && self.glyph == other.glyph
            && self.color == other.color && self.level == other.level && fighter_eq && ai_eq
            && item_eq && equipment_eq
    }
}

/// Deep equality of entities: every field agrees, with the name compared as
/// its character sequence.
pub open spec fn obj_eq(a: Object, b: Object) -> bool {
    &&& a.x == b.x
    &&& a.y == b.y
    &&& a.name@ == b.name@
    &&& a.blocks == b.blocks
    &&& a.alive == b.alive
    &&& a.always_visible == b.always_visible
    &&& a.glyph == b.glyph
    &&& a.color == b.color
    &&& a.level == b.level
    &&& a.fighter == b.fighter
    &&& a.ai == b.ai
    &&& a.item == b.item
    &&& a.equipment == b.equipment
}

impl vstd::std_specs::cmp::PartialEqSpecImpl for Object {
    open spec fn obeys_eq_spec() -> bool {
        true
    }

    open spec fn eq_spec(&self, other: &Object) -> bool {
        obj_eq(*self, *other)
    }
}

/// Squared Euclidean distance between two points.
pub open spec fn dist_sq(x1: int, y1: int, x2: int, y2: int) -> int {
    (x2 - x1) * (x2 - x1) + (y2 - y1) * (y2 - y1)
}

} // verus!
