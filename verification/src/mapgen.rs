//! Procedural dungeon generation: randomized room placement with rejection,
//! L-shaped corridors between consecutive rooms, and depth-scaled monster
//! and item population.

use vstd::prelude::*;

use crate::color::Color;
use crate::constants::{MAP_HEIGHT, MAP_WIDTH, MAX_ROOMS, ROOM_MAX_SIZE, ROOM_MIN_SIZE};
use crate::objects::{
    is_player_name, store_wf, Ai, DeathCallback, Equipment, Fighter, Item, Object, Slot,
};
use crate::rng::RngState;
use crate::tile::{map_view, map_wf, on_map, tile_at, DungeonMap, Tile};

verus! {

/// An axis-aligned room candidate; the walkable interior excludes the
/// bounding rows and columns.
#[derive(Clone, Copy, Debug, PartialEq, Eq, Structural)]
pub struct Rect {
    pub x1: i32,
    pub y1: i32,
    pub x2: i32,
    pub y2: i32,
}

/// True when the bounding boxes of `a` and `b` overlap (inclusive test).
pub open spec fn spec_intersects(a: Rect, b: Rect) -> bool {
    a.x1 <= b.x2 && a.x2 >= b.x1 && a.y1 <= b.y2 && a.y2 >= b.y1
}

/// True when `(x, y)` lies strictly inside `r` — on a walkable tile.
pub open spec fn in_interior(r: Rect, x: int, y: int) -> bool {
    r.x1 < x < r.x2 && r.y1 < y < r.y2
}

/// A room candidate that fits on the map with walls to spare.
pub open spec fn rect_wf(r: Rect) -> bool {
    &&& 0 <= r.x1
    &&& r.x1 + 2 <= r.x2 < MAP_WIDTH
    &&& 0 <= r.y1
    &&& r.y1 + 2 <= r.y2 < MAP_HEIGHT
}

/// The centre of `r` (component-wise integer midpoint).
pub open spec fn spec_center(r: Rect) -> (int, int) {
    (((r.x1 + r.x2) / 2) as int, ((r.y1 + r.y2) / 2) as int)
}

impl Rect {
    /// A rectangle with top-left corner `(x, y)`, width `w` and height `h`.
    pub fn new(x: i32, y: i32, w: i32, h: i32) -> (r: Rect)
        requires
            -1000 <= x <= 1000,
            -1000 <= y <= 1000,
            0 <= w <= 1000,
            0 <= h <= 1000,
        ensures
            r == (Rect { x1: x, y1: y, x2: (x + w) as i32, y2: (y + h) as i32 }),
    {
        Rect { x1: x, y1: y, x2: x + w, y2: y + h }
    }

    /// The centre tile of the room.
    pub fn center(&self) -> (c: (i32, i32))
        requires
            rect_wf(*self),
        ensures
            c.0 == spec_center(*self).0,
            c.1 == spec_center(*self).1,
            in_interior(*self, c.0 as int, c.1 as int),
            on_map(c.0 as int, c.1 as int),
    {
        let cx = (self.x1 + self.x2) / 2;
        let cy = (self.y1 + self.y2) / 2;
        proof {
            assert(self.x1 < (self.x1 + self.x2) / 2 < self.x2) by (nonlinear_arith)
                requires
                    self.x1 + 2 <= self.x2,
                    0 <= self.x1,
            ;
            assert(self.y1 < (self.y1 + self.y2) / 2 < self.y2) by (nonlinear_arith)
                requires
                    self.y1 + 2 <= self.y2,
                    0 <= self.y1,
            ;
        }
        (cx, cy)
    }

    /// Inclusive bounding-box overlap with another room.
    pub fn intersects_with(&self, other: &Rect) -> (r: bool)
        ensures
            r == spec_intersects(*self, *other),
    {
        self.x1 <= other.x2 && self.x2 >= other.x1 && self.y1 <= other.y2 && self.y2 >= other.y1
    }
}

/// Carves the interior of `room` out of the walls.
pub fn create_room(room: Rect, map: &mut DungeonMap)
    requires
        map_wf(map_view(old(map))),
        rect_wf(room),
    ensures
        map_wf(map_view(final(map))),
        forall|x: int, y: int|
            on_map(x, y) ==> tile_at(map_view(final(map)), x, y) == (if in_interior(room, x, y) {
                Tile { blocked: false, block_sight: false, explored: false }
            } else {
                tile_at(map_view(old(map)), x, y)
            }),
{
    let mut x = room.x1 + 1;
    while x < room.x2
        invariant
            map_wf(map_view(map)),
            rect_wf(room),
            room.x1 < x <= room.x2,
            forall|xi: int, yi: int|
                on_map(xi, yi) ==> tile_at(map_view(map), xi, yi) == (if in_interior(room, xi, yi)
                    && xi < x {
                    Tile { blocked: false, block_sight: false, explored: false }
                } else {
                    tile_at(map_view(old(map)), xi, yi)
                }),
        decreases room.x2 - x,
    {
        let mut y = room.y1 + 1;
        while y < room.y2
            invariant
                map_wf(map_view(map)),
                rect_wf(room),
                room.x1 < x < room.x2,
                room.y1 < y <= room.y2,
                forall|xi: int, yi: int|
                    on_map(xi, yi) ==> tile_at(map_view(map), xi, yi) == (if in_interior(
                        room,
                        xi,
                        yi,
                    ) && (xi < x || (xi == x && yi < y)) {
                        Tile { blocked: false, block_sight: false, explored: false }
                    } else {
                        tile_at(map_view(old(map)), xi, yi)
                    }),
            decreases room.y2 - y,
        {
            crate::tile::map_set_tile(map, x, y, Tile::empty());
            y = y + 1;
        }
        x = x + 1;
    }
}

/// Carves a horizontal tunnel along row `y` between columns `x1` and `x2`
/// (in either order, both ends included).
pub fn create_h_tunnel(x1: i32, x2: i32, y: i32, map: &mut DungeonMap)
    requires
        map_wf(map_view(old(map))),
        0 <= x1 < MAP_WIDTH,
        0 <= x2 < MAP_WIDTH,
        0 <= y < MAP_HEIGHT,
    ensures
        map_wf(map_view(final(map))),
        forall|xi: int, yi: int|
            on_map(xi, yi) ==> tile_at(map_view(final(map)), xi, yi) == (if yi == y && (if x1 <= x2 {
                x1 <= xi <= x2
            } else {
                x2 <= xi <= x1
            }) {
                Tile { blocked: false, block_sight: false, explored: false }
            } else {
                tile_at(map_view(old(map)), xi, yi)
            }),
{
    let lo = if x1 < x2 {
        x1
    } else {
        x2
    };
    let hi = if x1 < x2 {
        x2
    } else {
        x1
    };
    let mut x = lo;
    while x <= hi
        invariant
            map_wf(map_view(map)),
            0 <= lo <= x <= hi + 1,
            hi < MAP_WIDTH,
            0 <= y < MAP_HEIGHT,
            forall|xi: int, yi: int|
                on_map(xi, yi) ==> tile_at(map_view(map), xi, yi) == (if yi == y && lo <= xi < x {
                    Tile { blocked: false, block_sight: false, explored: false }
                } else {
                    tile_at(map_view(old(map)), xi, yi)
                }),
        decreases hi + 1 - x,
    {
        crate::tile::map_set_tile(map, x, y, Tile::empty());
        x = x + 1;
    }
}

/// Carves a vertical tunnel along column `x` between rows `y1` and `y2`
/// (in either order, both ends included).
pub fn create_v_tunnel(y1: i32, y2: i32, x: i32, map: &mut DungeonMap)
    requires
        map_wf(map_view(old(map))),
        0 <= y1 < MAP_HEIGHT,
        0 <= y2 < MAP_HEIGHT,
        0 <= x < MAP_WIDTH,
    ensures
        map_wf(map_view(final(map))),
        forall|xi: int, yi: int|
            on_map(xi, yi) ==> tile_at(map_view(final(map)), xi, yi) == (if xi == x && (if y1 <= y2 {
                y1 <= yi <= y2
            } else {
                y2 <= yi <= y1
            }) {
                Tile { blocked: false, block_sight: false, explored: false }
            } else {
                tile_at(map_view(old(map)), xi, yi)
            }),
{
    let lo = if y1 < y2 {
        y1
    } else {
        y2
    };
    let hi = if y1 < y2 {
        y2
    } else {
        y1
    };
    let mut y = lo;
    while y <= hi
        invariant
            map_wf(map_view(map)),
            0 <= lo <= y <= hi + 1,
            hi < MAP_HEIGHT,
            0 <= x < MAP_WIDTH,
            forall|xi: int, yi: int|
                on_map(xi, yi) ==> tile_at(map_view(map), xi, yi) == (if xi == x && lo <= yi < y {
                    Tile { blocked: false, block_sight: false, explored: false }
                } else {
                    tile_at(map_view(old(map)), xi, yi)
                }),
        decreases hi + 1 - y,
    {
        crate::tile::map_set_tile(map, x, y, Tile::empty());
        y = y + 1;
    }
}

/// A step of a depth-scaled table: from depth `level` onward the table
/// yields `value`.
#[derive(Clone, Copy, Debug, PartialEq, Eq, Structural)]
pub struct Transition {
    pub level: u32,
    pub value: u32,
}

/// The value of the highest table step whose level is at or below `level`;
/// 0 below the first step.
pub open spec fn spec_from_dungeon_level(table: Seq<Transition>, level: u32) -> u32
    decreases table.len(),
{
    if table.len() == 0 {
        0
    } else if table.last().level <= level {
        table.last().value
    } else {
        spec_from_dungeon_level(table.drop_last(), level)
    }
}

/// Looks up the depth-scaled value for `level` in an ascending table.
pub fn from_dungeon_level(table: &Vec<Transition>, level: u32) -> (v: u32)
    ensures
        v == spec_from_dungeon_level(table@, level),
{
    let mut i: usize = table.len();
    proof {
        assert(table@.take(table@.len() as int) =~= table@);
    }
    while i > 0
        invariant
            i <= table@.len(),
            spec_from_dungeon_level(table@, level) == spec_from_dungeon_level(
                table@.take(i as int),
                level,
            ),
        decreases i,
    {
        let t = &table[i - 1];
        proof {
            assert(table@.take(i as int).last() == table@[i - 1]);
            assert(table@.take(i as int).drop_last() =~= table@.take(i - 1));
        }
        if level >= t.level {
            return t.value;
        }
        i = i - 1;
    }
    proof {
        assert(table@.take(0).len() == 0);
    }
    0
}

/// A freshly spawned entity is a sound store entry: well-formed, inside the
/// room it was placed in, never named like the player, and never already
/// equipped.
pub open spec fn valid_spawn(o: Object, room: Rect) -> bool {
    &&& o.wf()
    &&& !is_player_name(o)
    &&& in_interior(room, o.x as int, o.y as int)
    &&& match o.equipment {
        Some(e) => !e.equipped,
        None => true,
    }
    &&& match o.fighter {
        Some(f) => f.on_death is Monster,
        None => true,
    }
}

/// An orc: a weak basic-minded fighter.
fn make_orc(x: i32, y: i32) -> (o: Object)
    requires
        on_map(x as int, y as int),
    ensures
        o.name@ == "orc"@,
        o.x == x && o.y == y,
        o.blocks && o.alive,
        o.glyph == 'o',
        o.color == Color::DesaturatedGreen,
        o.fighter == Some(
            Fighter {
                hp: 20,
                base_max_hp: 20,
                base_defense: 0,
                base_power: 4,
                xp: 35,
                on_death: DeathCallback::Monster,
            },
        ),
        o.ai == Some(Ai::Basic),
        o.item is None && o.equipment is None,
        o.level == 1,
        !o.always_visible,
        is_orc(o, x as int, y as int),
        o.wf(),
        !is_player_name(o),
{
    proof {
        reveal_strlit("orc");
        reveal_strlit("player");
        assert("orc"@.len() == 3);
        assert("player"@.len() == 6);
    }
    let mut o = Object::new(x, y, 'o', "orc", Color::DesaturatedGreen, true);
    o.fighter = Some(
        Fighter {
            hp: 20,
            base_max_hp: 20,
            base_defense: 0,
            base_power: 4,
            xp: 35,
            on_death: DeathCallback::Monster,
        },
    );
    o.ai = Some(Ai::Basic);
    o.alive = true;
    o
}

/// A troll: a sturdier basic-minded fighter.
fn make_troll(x: i32, y: i32) -> (o: Object)
    requires
        on_map(x as int, y as int),
    ensures
        o.name@ == "troll"@,
        o.x == x && o.y == y,
        o.blocks && o.alive,
        o.glyph == 'T',
        o.color == Color::DarkerGreen,
        o.fighter == Some(
            Fighter {
                hp: 30,
                base_max_hp: 30,
                base_defense: 2,
                base_power: 8,
                xp: 100,
                on_death: DeathCallback::Monster,
            },
        ),
        o.ai == Some(Ai::Basic),
        o.item is None && o.equipment is None,
        o.level == 1,
        !o.always_visible,
        is_troll(o, x as int, y as int),
        o.wf(),
        !is_player_name(o),
{
    proof {
        reveal_strlit("troll");
        reveal_strlit("player");
        assert("troll"@.len() == 5);
        assert("player"@.len() == 6);
    }
    let mut o = Object::new(x, y, 'T', "troll", Color::DarkerGreen, true);
    o.fighter = Some(
        Fighter {
            hp: 30,
            base_max_hp: 30,
            base_defense: 2,
            base_power: 8,
            xp: 100,
            on_death: DeathCallback::Monster,
        },
    );
    o.ai = Some(Ai::Basic);
    o.alive = true;
    o
}

/// A ground item: a non-blocking, always-visible object carrying `tag` and
/// possibly an (unequipped) equipment payload.
fn make_item(
    x: i32,
    y: i32,
    glyph: char,
    name: &str,
    color: Color,
    tag: Item,
    equipment: Option<Equipment>,
) -> (o: Object)
    requires
        on_map(x as int, y as int),
        name@ != "player"@,
        match equipment {
            Some(e) => e.wf() && !e.equipped,
            None => true,
        },
    ensures
        o.name@ == name@,
        o.x == x && o.y == y,
        !o.blocks && !o.alive,
        o.always_visible,
        o.glyph == glyph,
        o.color == color,
        o.fighter is None && o.ai is None,
        o.item == Some(tag),
        o.equipment == equipment,
        o.level == 1,
        o.wf(),
        !is_player_name(o),
{
    let mut o = Object::new(x, y, glyph, name, color, false);
    o.item = Some(tag);
    o.equipment = equipment;
    o.always_visible = true;
    o
}

/// The index of the step containing `roll` when the weights are laid end to
/// end: the least `i` with `weights[0] + … + weights[i] > roll`.
pub open spec fn spec_weighted_pick(weights: Seq<u32>, roll: int) -> int
    decreases weights.len(),
{
    if weights.len() == 0 {
        0
    } else if roll < weights.first() {
        0
    } else {
        1 + spec_weighted_pick(weights.drop_first(), roll - weights.first())
    }
}

/// The total of a weight table.
pub open spec fn sum_weights(weights: Seq<u32>) -> int
    decreases weights.len(),
{
    if weights.len() == 0 {
        0
    } else {
        weights.first() + sum_weights(weights.drop_first())
    }
}

/// A roll below the total always lands inside the table.
pub proof fn lemma_weighted_pick_in_range(weights: Seq<u32>, roll: int)
    requires
        0 <= roll < sum_weights(weights),
    ensures
        0 <= spec_weighted_pick(weights, roll) < weights.len(),
    decreases weights.len(),
{
    if weights.len() > 0 && roll >= weights.first() {
        lemma_weighted_pick_in_range(weights.drop_first(), roll - weights.first());
    }
}

/// Weighted random selection: draws a roll below the total weight and
/// returns the index of the step it lands in.
pub fn weighted_pick(weights: &Vec<u32>, rng: &mut RngState) -> (ix: usize)
    requires
        sum_weights(weights@) > 0,
        weights@.len() <= 16,
        forall|i: int| 0 <= i < weights@.len() ==> #[trigger] weights@[i] <= 1_000_000,
    ensures
        ix < weights@.len(),
        ix == spec_weighted_pick(
            weights@,
            crate::rng::rng_next(old(rng).state) as int % sum_weights(weights@),
        ),
        final(rng).state == crate::rng::rng_next(old(rng).state),
{
    let mut total: u32 = 0;
    let mut i: usize = 0;
    proof {
        lemma_sum_weights_bounded(weights@, 0);
    }
    while i < weights.len()
        invariant
            i <= weights@.len(),
            weights@.len() <= 16,
            forall|k: int| 0 <= k < weights@.len() ==> #[trigger] weights@[k] <= 1_000_000,
            total == sum_weights(weights@.take(i as int)),
            0 <= total <= 16_000_000,
        decreases weights@.len() - i,
    {
        proof {
            lemma_sum_weights_take_step(weights@, i as int);
            lemma_sum_weights_bounded(weights@.take(i + 1), 0);
            lemma_sum_weights_take_bound(weights@, i + 1);
        }
        total = total + weights[i];
        i = i + 1;
    }
    proof {
        assert(weights@.take(weights@.len() as int) =~= weights@);
    }
    let roll: u32 = rng.below(total as u64) as u32;
    let mut ix: usize = 0;
    let mut acc: u32 = roll;
    proof {
        lemma_weighted_pick_in_range(weights@, roll as int);
    }
    loop
        invariant
            0 <= ix < weights@.len(),
            weights@.len() <= 16,
            forall|k: int| 0 <= k < weights@.len() ==> #[trigger] weights@[k] <= 1_000_000,
            0 <= acc < sum_weights(weights@.skip(ix as int)),
            spec_weighted_pick(weights@, roll as int) == ix + spec_weighted_pick(
                weights@.skip(ix as int),
                acc as int,
            ),
        ensures
            ix < weights@.len(),
            ix == spec_weighted_pick(weights@, roll as int),
        decreases weights@.len() - ix,
    {
        proof {
            assert(weights@.skip(ix as int).first() == weights@[ix as int]);
            assert(weights@.skip(ix as int).drop_first() =~= weights@.skip(ix as int + 1));
        }
        if acc < weights[ix] {
            break ;
        }
        proof {
            lemma_weighted_pick_in_range(
                weights@.skip(ix as int + 1),
                acc - weights@[ix as int],
            );
        }
        acc = acc - weights[ix];
        ix = ix + 1;
    }
    ix
}

/// Prefix sums of bounded weight tables are bounded.
pub proof fn lemma_sum_weights_bounded(weights: Seq<u32>, lo: int)
    requires
        forall|k: int| 0 <= k < weights.len() ==> #[trigger] weights[k] <= 1_000_000,
    ensures
        0 <= sum_weights(weights) <= weights.len() * 1_000_000,
    decreases weights.len(),
{
    if weights.len() > 0 {
        assert(forall|k: int|
            0 <= k < weights.drop_first().len() ==> #[trigger] weights.drop_first()[k]
                <= 1_000_000);
        lemma_sum_weights_bounded(weights.drop_first(), lo);
        assert((weights.len() - 1) * 1_000_000 + 1_000_000 == weights.len() * 1_000_000)
            by (nonlinear_arith);
    }
}

/// One more element extends a prefix sum by that element.
pub proof fn lemma_sum_weights_take_step(weights: Seq<u32>, i: int)
    requires
        0 <= i < weights.len(),
    ensures
        sum_weights(weights.take(i + 1)) == sum_weights(weights.take(i)) + weights[i],
    decreases i,
{
    if i == 0 {
        assert(weights.take(1).first() == weights[0]);
        assert(weights.take(1).drop_first() =~= weights.take(0));
    } else {
        assert(weights.take(i + 1).first() == weights[0]);
        assert(weights.take(i).first() == weights[0]);
        assert(weights.take(i + 1).drop_first() =~= weights.drop_first().take(i));
        assert(weights.take(i).drop_first() =~= weights.drop_first().take(i - 1));
        lemma_sum_weights_take_step(weights.drop_first(), i - 1);
        assert(weights.drop_first()[i - 1] == weights[i]);
    }
}

/// A prefix sum of a bounded table never exceeds the table's own bound.
pub proof fn lemma_sum_weights_take_bound(weights: Seq<u32>, i: int)
    requires
        0 <= i <= weights.len(),
        weights.len() <= 16,
        forall|k: int| 0 <= k < weights.len() ==> #[trigger] weights[k] <= 1_000_000,
    ensures
        0 <= sum_weights(weights.take(i)) <= 16_000_000,
{
    assert(forall|k: int|
        0 <= k < weights.take(i).len() ==> #[trigger] weights.take(i)[k] <= 1_000_000);
    lemma_sum_weights_bounded(weights.take(i), 0);
    assert(weights.take(i).len() * 1_000_000 <= 16 * 1_000_000) by (nonlinear_arith)
        requires
            weights.take(i).len() <= 16,
    ;
}

/// The depth table for the monster count per room.
pub open spec fn spec_monster_count_table() -> Seq<Transition> {
    seq![
        Transition { level: 1, value: 2 },
        Transition { level: 4, value: 3 },
        Transition { level: 6, value: 5 },
    ]
}

/// The depth table for the troll weight.
pub open spec fn spec_troll_table() -> Seq<Transition> {
    seq![
        Transition { level: 3, value: 15 },
        Transition { level: 5, value: 30 },
        Transition { level: 7, value: 60 },
    ]
}

/// The depth table for the item count per room.
pub open spec fn spec_item_count_table() -> Seq<Transition> {
    seq![Transition { level: 1, value: 1 }, Transition { level: 4, value: 2 }]
}

/// The depth table for the lightning-scroll weight.
pub open spec fn spec_lightning_table() -> Seq<Transition> {
    seq![Transition { level: 4, value: 25 }]
}

/// The depth table for the fireball-scroll weight.
pub open spec fn spec_fireball_table() -> Seq<Transition> {
    seq![Transition { level: 6, value: 25 }]
}

/// The depth table for the confusion-scroll weight.
pub open spec fn spec_confuse_table() -> Seq<Transition> {
    seq![Transition { level: 2, value: 10 }]
}

/// The depth table for the sword weight.
pub open spec fn spec_sword_table() -> Seq<Transition> {
    seq![Transition { level: 4, value: 5 }]
}

/// The depth table for the shield weight.
pub open spec fn spec_shield_table() -> Seq<Transition> {
    seq![Transition { level: 8, value: 15 }]
}

/// Exactly a freshly spawned orc at `(x, y)`, every field pinned.
pub open spec fn is_orc(o: Object, x: int, y: int) -> bool {
    &&& o.name@ == "orc"@
    &&& o.x == x && o.y == y
    &&& o.blocks && o.alive && !o.always_visible
    &&& o.glyph == 'o'
    &&& o.color == Color::DesaturatedGreen
    &&& o.level == 1
    &&& o.fighter == Some(
        Fighter {
            hp: 20,
            base_max_hp: 20,
            base_defense: 0,
            base_power: 4,
            xp: 35,
            on_death: DeathCallback::Monster,
        },
    )
    &&& o.ai == Some(Ai::Basic)
    &&& o.item is None && o.equipment is None
}

/// Exactly a freshly spawned troll at `(x, y)`, every field pinned.
pub open spec fn is_troll(o: Object, x: int, y: int) -> bool {
    &&& o.name@ == "troll"@
    &&& o.x == x && o.y == y
    &&& o.blocks && o.alive && !o.always_visible
    &&& o.glyph == 'T'
    &&& o.color == Color::DarkerGreen
    &&& o.level == 1
    &&& o.fighter == Some(
        Fighter {
            hp: 30,
            base_max_hp: 30,
            base_defense: 2,
            base_power: 8,
            xp: 100,
            on_death: DeathCallback::Monster,
        },
    )
    &&& o.ai == Some(Ai::Basic)
    &&& o.item is None && o.equipment is None
}

/// The weighted-table index a raw choice maps to: the five named items, with
/// everything past the table's end falling to the shield.
pub open spec fn item_kind_of(choice: int) -> int {
    if 0 <= choice <= 4 {
        choice
    } else {
        5
    }
}

/// Exactly the ground item of weighted-table index `kind` at `(x, y)`,
/// every field pinned.
pub open spec fn is_spawned_item(o: Object, kind: int, x: int, y: int) -> bool {
    &&& o.x == x && o.y == y
    &&& !o.blocks && !o.alive && o.always_visible
    &&& o.level == 1
    &&& o.fighter is None && o.ai is None
    &&& if kind == 0 {
        o.name@ == "healing potion"@ && o.glyph == '!' && o.color == Color::Violet && o.item
            == Some(Item::Heal) && o.equipment is None
    } else if kind == 1 {
        o.name@ == "scroll of lightning bolt"@ && o.glyph == '#' && o.color == Color::LightYellow
            && o.item == Some(Item::Lightning) && o.equipment is None
    } else if kind == 2 {
        o.name@ == "scroll of fireball"@ && o.glyph == '#' && o.color == Color::LightYellow
            && o.item == Some(Item::Fireball) && o.equipment is None
    } else if kind == 3 {
        o.name@ == "scroll of confusion"@ && o.glyph == '#' && o.color == Color::LightYellow
            && o.item == Some(Item::Confuse) && o.equipment is None
    } else if kind == 4 {
        o.name@ == "sword"@ && o.glyph == '/' && o.color == Color::Sky && o.item == Some(
            Item::Sword,
        ) && o.equipment == Some(
            Equipment {
                slot: Slot::RightHand,
                equipped: false,
                power_bonus: 3,
                defense_bonus: 0,
                max_hp_bonus: 0,
            },
        )
    } else {
        o.name@ == "shield"@ && o.glyph == '[' && o.color == Color::DarkerOrange && o.item
            == Some(Item::Shield) && o.equipment == Some(
            Equipment {
                slot: Slot::LeftHand,
                equipped: false,
                power_bonus: 0,
                defense_bonus: 1,
                max_hp_bonus: 0,
            },
        )
    }
}

/// One monster placement attempt, pinned to the generator draws: two draws
/// pick a uniform tile inside the room; a blocked tile places nothing; a
/// free tile draws once more and appends the weighted-table species.
pub open spec fn monster_attempt_rel(
    map: Seq<Seq<Tile>>,
    room: Rect,
    troll_chance: u32,
    pre: Seq<Object>,
    r0: u64,
    post: Seq<Object>,
    r1: u64,
) -> bool {
    let s1 = crate::rng::rng_next(r0);
    let x = room.x1 + 1 + (s1 % ((room.x2 - 1 - (room.x1 + 1) + 1) as u64)) as i32;
    let s2 = crate::rng::rng_next(s1);
    let y = room.y1 + 1 + (s2 % ((room.y2 - 1 - (room.y1 + 1) + 1) as u64)) as i32;
    if crate::ai::spec_is_blocked(map, pre, x, y) {
        post == pre && r1 == s2
    } else {
        let s3 = crate::rng::rng_next(s2);
        let weights = seq![80u32, troll_chance];
        let choice = spec_weighted_pick(weights, s3 as int % sum_weights(weights));
        &&& r1 == s3
        &&& post.len() == pre.len() + 1
        &&& post.take(pre.len() as int) == pre
        &&& if choice == 0 {
            is_orc(post.last(), x, y)
        } else {
            is_troll(post.last(), x, y)
        }
    }
}

/// One item placement attempt, pinned to the generator draws in the same
/// way, the species drawn from the six-entry item table.
pub open spec fn item_attempt_rel(
    map: Seq<Seq<Tile>>,
    room: Rect,
    lightning_chance: u32,
    fireball_chance: u32,
    confuse_chance: u32,
    sword_chance: u32,
    shield_chance: u32,
    pre: Seq<Object>,
    r0: u64,
    post: Seq<Object>,
    r1: u64,
) -> bool {
    let s1 = crate::rng::rng_next(r0);
    let x = room.x1 + 1 + (s1 % ((room.x2 - 1 - (room.x1 + 1) + 1) as u64)) as i32;
    let s2 = crate::rng::rng_next(s1);
    let y = room.y1 + 1 + (s2 % ((room.y2 - 1 - (room.y1 + 1) + 1) as u64)) as i32;
    if crate::ai::spec_is_blocked(map, pre, x, y) {
        post == pre && r1 == s2
    } else {
        let s3 = crate::rng::rng_next(s2);
        let weights = seq![
            35u32,
            lightning_chance,
            fireball_chance,
            confuse_chance,
            sword_chance,
            shield_chance,
        ];
        let choice = spec_weighted_pick(weights, s3 as int % sum_weights(weights));
        &&& r1 == s3
        &&& post.len() == pre.len() + 1
        &&& post.take(pre.len() as int) == pre
        &&& is_spawned_item(post.last(), item_kind_of(choice), x, y)
    }
}

/// Every consecutive pair of a monster-placement trace is one attempt.
pub open spec fn monster_trace_ok(
    map: Seq<Seq<Tile>>,
    room: Rect,
    troll_chance: u32,
    trace: Seq<(Seq<Object>, u64)>,
) -> bool {
    forall|k: int|
        0 <= k < trace.len() - 1 ==> monster_attempt_rel(
            map,
            room,
            troll_chance,
            (#[trigger] trace[k]).0,
            trace[k].1,
            trace[k + 1].0,
            trace[k + 1].1,
        )
}

/// Every consecutive pair of an item-placement trace is one attempt.
pub open spec fn item_trace_ok(
    map: Seq<Seq<Tile>>,
    room: Rect,
    lightning_chance: u32,
    fireball_chance: u32,
    confuse_chance: u32,
    sword_chance: u32,
    shield_chance: u32,
    trace: Seq<(Seq<Object>, u64)>,
) -> bool {
    forall|k: int|
        0 <= k < trace.len() - 1 ==> item_attempt_rel(
            map,
            room,
            lightning_chance,
            fireball_chance,
            confuse_chance,
            sword_chance,
            shield_chance,
            (#[trigger] trace[k]).0,
            trace[k].1,
            trace[k + 1].0,
            trace[k + 1].1,
        )
}

/// Populates `room` with depth-scaled monsters and items: each candidate
/// tile is drawn uniformly inside the room and skipped when blocked; every
/// placed entity is a valid spawn inside the room, appended to the store.
#[verifier::rlimit(80)]
pub fn place_objects(
    room: Rect,
    map: &DungeonMap,
    objects: &mut Vec<Object>,
    level: u32,
    rng: &mut RngState,
) -> (spawn_traces: Ghost<(Seq<(Seq<Object>, u64)>, Seq<(Seq<Object>, u64)>)>)
    requires
        map_wf(map_view(map)),
        rect_wf(room),
        store_wf(old(objects)@),
    ensures
        store_wf(final(objects)@),
        final(objects)@.len() >= old(objects)@.len(),
        forall|i: int|
            0 <= i < old(objects)@.len() ==> #[trigger] final(objects)@[i] == old(objects)@[i],
        forall|i: int|
            old(objects)@.len() <= i < final(objects)@.len() ==> valid_spawn(
                #[trigger] final(objects)@[i],
                room,
            ),
        ({
            let r0 = old(rng).state;
            let max_monsters = spec_from_dungeon_level(spec_monster_count_table(), level);
            let troll_chance = spec_from_dungeon_level(spec_troll_table(), level);
            let n_monsters = crate::rng::rng_next(r0) % ((max_monsters + 1) as u64);
            let mtrace = spawn_traces@.0;
            let itrace = spawn_traces@.1;
            &&& mtrace.len() == n_monsters + 1
            &&& mtrace.first() == (old(objects)@, crate::rng::rng_next(r0))
            &&& monster_trace_ok(map_view(map), room, troll_chance, mtrace)
            &&& ({
                let rm = mtrace.last().1;
                let max_items = spec_from_dungeon_level(spec_item_count_table(), level);
                let n_items = crate::rng::rng_next(rm) % ((max_items + 1) as u64);
                &&& itrace.len() == n_items + 1
                &&& itrace.first() == (mtrace.last().0, crate::rng::rng_next(rm))
                &&& item_trace_ok(
                    map_view(map),
                    room,
                    spec_from_dungeon_level(spec_lightning_table(), level),
                    spec_from_dungeon_level(spec_fireball_table(), level),
                    spec_from_dungeon_level(spec_confuse_table(), level),
                    spec_from_dungeon_level(spec_sword_table(), level),
                    spec_from_dungeon_level(spec_shield_table(), level),
                    itrace,
                )
                &&& itrace.last() == (final(objects)@, final(rng).state)
            })
        }),
{
    let mut monster_table: Vec<Transition> = Vec::new();
    monster_table.push(Transition { level: 1, value: 2 });
    monster_table.push(Transition { level: 4, value: 3 });
    monster_table.push(Transition { level: 6, value: 5 });
    let max_monsters = from_dungeon_level(&monster_table, level);
    let mut troll_table: Vec<Transition> = Vec::new();
    troll_table.push(Transition { level: 3, value: 15 });
    troll_table.push(Transition { level: 5, value: 30 });
    troll_table.push(Transition { level: 7, value: 60 });
    let troll_chance = from_dungeon_level(&troll_table, level);
    proof {
        lemma_table_value_bound(troll_table@, level, 60);
        assert(monster_table@ =~= spec_monster_count_table());
        assert(troll_table@ =~= spec_troll_table());
    }
    let num_monsters = rng.below(max_monsters as u64 + 1);
    let ghost mut mtrace: Seq<(Seq<Object>, u64)> = seq![(objects@, rng.state)];
    let mut k: u64 = 0;
    while k < num_monsters
        invariant
            map_wf(map_view(map)),
            rect_wf(room),
            store_wf(objects@),
            troll_chance <= 60,
            troll_chance == spec_from_dungeon_level(spec_troll_table(), level),
            objects@.len() >= old(objects)@.len(),
            forall|i: int|
                0 <= i < old(objects)@.len() ==> #[trigger] objects@[i] == old(objects)@[i],
            forall|i: int|
                old(objects)@.len() <= i < objects@.len() ==> valid_spawn(
                    #[trigger] objects@[i],
                    room,
                ),
            k <= num_monsters,
            mtrace.len() == k + 1,
            mtrace.first() == (old(objects)@, crate::rng::rng_next(old(rng).state)),
            mtrace.last() == (objects@, rng.state),
            monster_trace_ok(map_view(map), room, troll_chance, mtrace),
        decreases num_monsters - k,
    {
        let ghost mid_objects = objects@;
        let ghost mid_state = rng.state;
        try_place_monster(room, map, objects, troll_chance, rng);
        proof {
            let ghost prev = mtrace;
            mtrace = mtrace.push((objects@, rng.state));
            assert(mtrace[mtrace.len() - 2] == (mid_objects, mid_state));
            assert forall|j: int|
                0 <= j < mtrace.len() - 1 implies monster_attempt_rel(
                map_view(map),
                room,
                troll_chance,
                (#[trigger] mtrace[j]).0,
                mtrace[j].1,
                mtrace[j + 1].0,
                mtrace[j + 1].1,
            ) by {
                if j < prev.len() - 1 {
                    assert(mtrace[j] == prev[j]);
                    assert(mtrace[j + 1] == prev[j + 1]);
                } else {
                    assert(mtrace[j] == (mid_objects, mid_state));
                    assert(mtrace[j + 1] == (objects@, rng.state));
                }
            }
        }
        k = k + 1;
    }
    let ghost mtrace_done = mtrace;
    let mut item_table: Vec<Transition> = Vec::new();
    item_table.push(Transition { level: 1, value: 1 });
    item_table.push(Transition { level: 4, value: 2 });
    let max_items = from_dungeon_level(&item_table, level);
    let mut lightning_table: Vec<Transition> = Vec::new();
    lightning_table.push(Transition { level: 4, value: 25 });
    let lightning_chance = from_dungeon_level(&lightning_table, level);
    let mut fireball_table: Vec<Transition> = Vec::new();
    fireball_table.push(Transition { level: 6, value: 25 });
    let fireball_chance = from_dungeon_level(&fireball_table, level);
    let mut confuse_table: Vec<Transition> = Vec::new();
    confuse_table.push(Transition { level: 2, value: 10 });
    let confuse_chance = from_dungeon_level(&confuse_table, level);
    let mut sword_table: Vec<Transition> = Vec::new();
    sword_table.push(Transition { level: 4, value: 5 });
    let sword_chance = from_dungeon_level(&sword_table, level);
    let mut shield_table: Vec<Transition> = Vec::new();
    shield_table.push(Transition { level: 8, value: 15 });
    let shield_chance = from_dungeon_level(&shield_table, level);
    proof {
        lemma_table_value_bound(lightning_table@, level, 25);
        lemma_table_value_bound(fireball_table@, level, 25);
        lemma_table_value_bound(confuse_table@, level, 10);
        lemma_table_value_bound(sword_table@, level, 5);
        lemma_table_value_bound(shield_table@, level, 15);
        assert(item_table@ =~= spec_item_count_table());
        assert(lightning_table@ =~= spec_lightning_table());
        assert(fireball_table@ =~= spec_fireball_table());
        assert(confuse_table@ =~= spec_confuse_table());
        assert(sword_table@ =~= spec_sword_table());
        assert(shield_table@ =~= spec_shield_table());
    }
    let num_items = rng.below(max_items as u64 + 1);
    let ghost mut itrace: Seq<(Seq<Object>, u64)> = seq![(objects@, rng.state)];
    let mut k2: u64 = 0;
    while k2 < num_items
        invariant
            map_wf(map_view(map)),
            rect_wf(room),
            store_wf(objects@),
            lightning_chance <= 25,
            fireball_chance <= 25,
            confuse_chance <= 10,
            sword_chance <= 5,
            shield_chance <= 15,
            lightning_chance == spec_from_dungeon_level(spec_lightning_table(), level),
            fireball_chance == spec_from_dungeon_level(spec_fireball_table(), level),
            confuse_chance == spec_from_dungeon_level(spec_confuse_table(), level),
            sword_chance == spec_from_dungeon_level(spec_sword_table(), level),
            shield_chance == spec_from_dungeon_level(spec_shield_table(), level),
            objects@.len() >= old(objects)@.len(),
            forall|i: int|
                0 <= i < old(objects)@.len() ==> #[trigger] objects@[i] == old(objects)@[i],
            forall|i: int|
                old(objects)@.len() <= i < objects@.len() ==> valid_spawn(
                    #[trigger] objects@[i],
                    room,
                ),
            k2 <= num_items,
            itrace.len() == k2 + 1,
            itrace.first() == (mtrace_done.last().0, crate::rng::rng_next(mtrace_done.last().1)),
            itrace.last() == (objects@, rng.state),
            item_trace_ok(
                map_view(map),
                room,
                lightning_chance,
                fireball_chance,
                confuse_chance,
                sword_chance,
                shield_chance,
                itrace,
            ),
        decreases num_items - k2,
    {
        let ghost mid_objects = objects@;
        let ghost mid_state = rng.state;
        try_place_item(
            room,
            map,
            objects,
            lightning_chance,
            fireball_chance,
            confuse_chance,
            sword_chance,
            shield_chance,
            rng,
        );
        proof {
            let ghost prev = itrace;
            itrace = itrace.push((objects@, rng.state));
            assert(itrace[itrace.len() - 2] == (mid_objects, mid_state));
            assert forall|j: int|
                0 <= j < itrace.len() - 1 implies item_attempt_rel(
                map_view(map),
                room,
                lightning_chance,
                fireball_chance,
                confuse_chance,
                sword_chance,
                shield_chance,
                (#[trigger] itrace[j]).0,
                itrace[j].1,
                itrace[j + 1].0,
                itrace[j + 1].1,
            ) by {
                if j < prev.len() - 1 {
                    assert(itrace[j] == prev[j]);
                    assert(itrace[j + 1] == prev[j + 1]);
                } else {
                    assert(itrace[j] == (mid_objects, mid_state));
                    assert(itrace[j + 1] == (objects@, rng.state));
                }
            }
        }
        k2 = k2 + 1;
    }
    Ghost((mtrace_done, itrace))
}

/// One monster placement attempt: a uniformly random interior tile, skipped
/// when blocked, else an orc or (depth-weighted) troll.
fn try_place_monster(
    room: Rect,
    map: &DungeonMap,
    objects: &mut Vec<Object>,
    troll_chance: u32,
    rng: &mut RngState,
)
    requires
        map_wf(map_view(map)),
        rect_wf(room),
        store_wf(old(objects)@),
        troll_chance <= 60,
    ensures
        store_wf(final(objects)@),
        final(objects)@.len() >= old(objects)@.len(),
        forall|i: int|
            0 <= i < old(objects)@.len() ==> #[trigger] final(objects)@[i] == old(objects)@[i],
        forall|i: int|
            old(objects)@.len() <= i < final(objects)@.len() ==> valid_spawn(
                #[trigger] final(objects)@[i],
                room,
            ),
        monster_attempt_rel(
            map_view(map),
            room,
            troll_chance,
            old(objects)@,
            old(rng).state,
            final(objects)@,
            final(rng).state,
        ),
{
    let x = rng.range_inclusive(room.x1 + 1, room.x2 - 1);
    let y = rng.range_inclusive(room.y1 + 1, room.y2 - 1);
    if !crate::ai::is_blocked(x, y, map, objects) {
        let mut weights: Vec<u32> = Vec::new();
        weights.push(80);
        weights.push(troll_chance);
        proof {
            assert(weights@.first() == 80);
            assert(weights@.drop_first() =~= seq![troll_chance]);
            assert(seq![troll_chance].first() == troll_chance);
            assert(seq![troll_chance].drop_first() =~= Seq::<u32>::empty());
            assert(sum_weights(Seq::<u32>::empty()) == 0);
            assert(sum_weights(seq![troll_chance]) == troll_chance);
            assert(sum_weights(weights@) == 80 + troll_chance);
            assert(weights@ =~= seq![80u32, troll_chance]);
        }
        let choice = weighted_pick(&weights, rng);
        let monster = if choice == 0 {
            make_orc(x, y)
        } else {
            make_troll(x, y)
        };
        push_spawn(objects, monster, room);
        proof {
            assert(objects@.take(old(objects)@.len() as int) =~= old(objects)@);
        }
    }
}

/// One item placement attempt: a uniformly random interior tile, skipped
/// when blocked, else an item drawn from the depth-weighted table.
fn try_place_item(
    room: Rect,
    map: &DungeonMap,
    objects: &mut Vec<Object>,
    lightning_chance: u32,
    fireball_chance: u32,
    confuse_chance: u32,
    sword_chance: u32,
    shield_chance: u32,
    rng: &mut RngState,
)
    requires
        map_wf(map_view(map)),
        rect_wf(room),
        store_wf(old(objects)@),
        lightning_chance <= 25,
        fireball_chance <= 25,
        confuse_chance <= 10,
        sword_chance <= 5,
        shield_chance <= 15,
    ensures
        store_wf(final(objects)@),
        final(objects)@.len() >= old(objects)@.len(),
        forall|i: int|
            0 <= i < old(objects)@.len() ==> #[trigger] final(objects)@[i] == old(objects)@[i],
        forall|i: int|
            old(objects)@.len() <= i < final(objects)@.len() ==> valid_spawn(
                #[trigger] final(objects)@[i],
                room,
            ),
        item_attempt_rel(
            map_view(map),
            room,
            lightning_chance,
            fireball_chance,
            confuse_chance,
            sword_chance,
            shield_chance,
            old(objects)@,
            old(rng).state,
            final(objects)@,
            final(rng).state,
        ),
{
    let x = rng.range_inclusive(room.x1 + 1, room.x2 - 1);
    let y = rng.range_inclusive(room.y1 + 1, room.y2 - 1);
    if !crate::ai::is_blocked(x, y, map, objects) {
        let mut weights: Vec<u32> = Vec::new();
        weights.push(35);
        weights.push(lightning_chance);
        weights.push(fireball_chance);
        weights.push(confuse_chance);
        weights.push(sword_chance);
        weights.push(shield_chance);
        proof {
            lemma_sum_weights_bounded(weights@.drop_first(), 0);
            assert(sum_weights(weights@) == 35 + sum_weights(weights@.drop_first()));
            assert(forall|i: int|
                0 <= i < weights@.len() ==> #[trigger] weights@[i] <= 1_000_000);
            assert(weights@ =~= seq![
                35u32,
                lightning_chance,
                fireball_chance,
                confuse_chance,
                sword_chance,
                shield_chance,
            ]);
        }
        let choice = weighted_pick(&weights, rng);
        let item = pick_item_object(choice, x, y);
        push_spawn(objects, item, room);
        proof {
            assert(objects@.take(old(objects)@.len() as int) =~= old(objects)@);
        }
    }
}

/// Appends one valid spawn to the store, preserving its well-formedness.
fn push_spawn(objects: &mut Vec<Object>, o: Object, room: Rect)
    requires
        store_wf(old(objects)@),
        valid_spawn(o, room),
        rect_wf(room),
    ensures
        store_wf(final(objects)@),
        final(objects)@ == old(objects)@.push(o),
{
    objects.push(o);
}

/// The ground item for a weighted-table index: a healing potion, one of the
/// three scrolls, a sword or a shield.
fn pick_item_object(choice: usize, x: i32, y: i32) -> (o: Object)
    requires
        on_map(x as int, y as int),
    ensures
        o.wf(),
        !is_player_name(o),
        o.x == x && o.y == y,
        o.fighter is None,
        !o.blocks,
        o.item is Some,
        match o.equipment {
            Some(e) => !e.equipped,
            None => true,
        },
        is_spawned_item(o, item_kind_of(choice as int), x as int, y as int),
{
    if choice == 0 {
        proof {
            reveal_strlit("healing potion");
            reveal_strlit("player");
            assert("healing potion"@.len() == 14);
            assert("player"@.len() == 6);
        }
        make_item(x, y, '!', "healing potion", Color::Violet, Item::Heal, None)
    } else if choice == 1 {
        proof {
            reveal_strlit("scroll of lightning bolt");
            reveal_strlit("player");
            assert("scroll of lightning bolt"@.len() == 24);
            assert("player"@.len() == 6);
        }
        make_item(x, y, '#', "scroll of lightning bolt", Color::LightYellow, Item::Lightning, None)
    } else if choice == 2 {
        proof {
            reveal_strlit("scroll of fireball");
            reveal_strlit("player");
            assert("scroll of fireball"@.len() == 18);
            assert("player"@.len() == 6);
        }
        make_item(x, y, '#', "scroll of fireball", Color::LightYellow, Item::Fireball, None)
    } else if choice == 3 {
        proof {
            reveal_strlit("scroll of confusion");
            reveal_strlit("player");
            assert("scroll of confusion"@.len() == 19);
            assert("player"@.len() == 6);
        }
        make_item(x, y, '#', "scroll of confusion", Color::LightYellow, Item::Confuse, None)
    } else if choice == 4 {
        proof {
            reveal_strlit("sword");
            reveal_strlit("player");
            assert("sword"@.len() == 5);
            assert("player"@.len() == 6);
        }
        make_item(
            x,
            y,
            '/',
            "sword",
            Color::Sky,
            Item::Sword,
            Some(
                Equipment {
                    slot: Slot::RightHand,
                    equipped: false,
                    power_bonus: 3,
                    defense_bonus: 0,
                    max_hp_bonus: 0,
                },
            ),
        )
    } else {
        proof {
            reveal_strlit("shield");
            reveal_strlit("player");
            assert("shield"@[0] == 's');
            assert("player"@[0] == 'p');
        }
        make_item(
            x,
            y,
            '[',
            "shield",
            Color::DarkerOrange,
            Item::Shield,
            Some(
                Equipment {
                    slot: Slot::LeftHand,
                    equipped: false,
                    power_bonus: 0,
                    defense_bonus: 1,
                    max_hp_bonus: 0,
                },
            ),
        )
    }
}

/// Every value a depth table can yield is bounded by the bound on its
/// entries.
pub proof fn lemma_table_value_bound(table: Seq<Transition>, level: u32, bound: u32)
    requires
        forall|j: int| 0 <= j < table.len() ==> (#[trigger] table[j]).value <= bound,
    ensures
        spec_from_dungeon_level(table, level) <= bound,
    decreases table.len(),
{
    if table.len() > 0 && !(table.last().level <= level) {
        assert(forall|j: int|
            0 <= j < table.drop_last().len() ==> (#[trigger] table.drop_last()[j]).value
                <= bound);
        lemma_table_value_bound(table.drop_last(), level, bound);
    }
}

/// Every tile either kept its value or was carved empty.
pub open spec fn tiles_monotone(
    old_map: Seq<Seq<Tile>>,
    new_map: Seq<Seq<Tile>>,
) -> bool {
    forall|x: int, y: int|
        on_map(x, y) ==> tile_at(new_map, x, y) == tile_at(old_map, x, y) || tile_at(
            new_map,
            x,
            y,
        ) == (Tile { blocked: false, block_sight: false, explored: false })
}

/// A well-formed room's centre lies strictly inside it.
proof fn lemma_center_in_interior(r: Rect)
    requires
        rect_wf(r),
    ensures
        in_interior(r, spec_center(r).0, spec_center(r).1),
        on_map(spec_center(r).0, spec_center(r).1),
{
    assert(r.x1 < (r.x1 + r.x2) / 2 < r.x2) by (nonlinear_arith)
        requires
            r.x1 + 2 <= r.x2,
            0 <= r.x1,
    ;
    assert(r.y1 < (r.y1 + r.y2) / 2 < r.y2) by (nonlinear_arith)
        requires
            r.y1 + 2 <= r.y2,
            0 <= r.y1,
    ;
}

/// Monotone carving composes.
proof fn lemma_monotone_trans(m0: Seq<Seq<Tile>>, m1: Seq<Seq<Tile>>, m2: Seq<Seq<Tile>>)
    requires
        tiles_monotone(m0, m1),
        tiles_monotone(m1, m2),
    ensures
        tiles_monotone(m0, m2),
{
    assert forall|x: int, y: int|
        on_map(x, y) implies tile_at(m2, x, y) == tile_at(m0, x, y) || tile_at(m2, x, y) == (Tile {
        blocked: false,
        block_sight: false,
        explored: false,
    }) by {
        assert(tile_at(m1, x, y) == tile_at(m0, x, y) || tile_at(m1, x, y) == (Tile {
            blocked: false,
            block_sight: false,
            explored: false,
        }));
    }
}

/// A carved room interior stays carved under monotone carving.
proof fn lemma_carved_preserved(m1: Seq<Seq<Tile>>, m2: Seq<Seq<Tile>>, room: Rect)
    requires
        tiles_monotone(m1, m2),
        rect_wf(room),
        forall|x: int, y: int|
            #[trigger] in_interior(room, x, y) ==> !tile_at(m1, x, y).blocked,
    ensures
        forall|x: int, y: int|
            #[trigger] in_interior(room, x, y) ==> !tile_at(m2, x, y).blocked,
{
    assert forall|x: int, y: int|
        #[trigger] in_interior(room, x, y) implies !tile_at(m2, x, y).blocked by {
        assert(on_map(x, y));
        assert(tile_at(m2, x, y) == tile_at(m1, x, y) || tile_at(m2, x, y) == (Tile {
            blocked: false,
            block_sight: false,
            explored: false,
        }));
    }
}

/// True when `v` lies between `a` and `b`, whichever way round they are.
pub open spec fn between(a: int, b: int, v: int) -> bool {
    (a <= v <= b) || (b <= v <= a)
}

/// True when `(x, y)` lies on the L-corridor between `pc` and `nc`: the
/// horizontal leg at `pc`'s row then the vertical leg at `nc`'s column when
/// `horiz_first`, the other order otherwise.
pub open spec fn on_l_corridor(
    pc: (int, int),
    nc: (int, int),
    horiz_first: bool,
    x: int,
    y: int,
) -> bool {
    if horiz_first {
        (y == pc.1 && between(pc.0, nc.0, x)) || (x == nc.0 && between(pc.1, nc.1, y))
    } else {
        (x == pc.0 && between(pc.1, nc.1, y)) || (y == nc.1 && between(pc.0, nc.0, x))
    }
}

/// True when `(x, y)` was carved by one of the accepted rooms or by one of
/// the L-corridors that connect each accepted room to its predecessor
/// (`orders[i - 1]` records the leg order drawn for the corridor into room
/// `i`).
#[verifier::opaque]
pub open spec fn covered(rooms: Seq<Rect>, orders: Seq<bool>, x: int, y: int) -> bool
    decreases rooms.len(),
{
    if rooms.len() == 0 {
        false
    } else {
        let j = rooms.len() - 1;
        ||| covered(rooms.drop_last(), orders, x, y)
        ||| in_interior(rooms[j], x, y)
        ||| (j >= 1 && on_l_corridor(
            spec_center(rooms[j - 1]),
            spec_center(rooms[j]),
            orders[j - 1],
            x,
            y,
        ))
    }
}

/// Coverage reads only the orders it indexes, so a new order for a later
/// room changes nothing.
pub proof fn lemma_covered_push_order(
    rooms: Seq<Rect>,
    orders: Seq<bool>,
    coin: bool,
    x: int,
    y: int,
)
    requires
        orders.len() >= rooms.len() - 1,
    ensures
        covered(rooms, orders.push(coin), x, y) == covered(rooms, orders, x, y),
    decreases rooms.len(),
{
    reveal(covered);
    if rooms.len() > 0 {
        lemma_covered_push_order(rooms.drop_last(), orders, coin, x, y);
    }
}

/// Carves the new room and, when a previous room exists, an L-shaped tunnel
/// (in one of the two leg orders, drawn at random) between the two centres:
/// exactly the union of the room interior and the corridor becomes floor,
/// every other tile keeps its value.
fn carve_and_connect(
    map: &mut DungeonMap,
    prev_room: Option<Rect>,
    new_room: Rect,
    rng: &mut RngState,
) -> (coin: Ghost<bool>)
    requires
        map_wf(map_view(old(map))),
        rect_wf(new_room),
        prev_room matches Some(p) ==> rect_wf(p),
    ensures
        map_wf(map_view(final(map))),
        tiles_monotone(map_view(old(map)), map_view(final(map))),
        forall|x: int, y: int|
            #[trigger] in_interior(new_room, x, y) ==> !tile_at(
                map_view(final(map)),
                x,
                y,
            ).blocked,
        forall|x: int, y: int|
            on_map(x, y) ==> tile_at(map_view(final(map)), x, y) == (if in_interior(
                new_room,
                x,
                y,
            ) || (match prev_room {
                Some(p) => on_l_corridor(
                    spec_center(p),
                    spec_center(new_room),
                    coin@,
                    x,
                    y,
                ),
                None => false,
            }) {
                Tile { blocked: false, block_sight: false, explored: false }
            } else {
                tile_at(map_view(old(map)), x, y)
            }),
        prev_room is Some ==> final(rng).state == crate::rng::rng_next(old(rng).state) && coin@
            == (crate::rng::rng_next(old(rng).state) % 2 == 0),
        prev_room is None ==> *final(rng) == *old(rng),
{
    let ghost m0 = map_view(old(map));
    create_room(new_room, map);
    let ghost m1 = map_view(map);
    proof {
        assert forall|x: int, y: int|
            on_map(x, y) implies tile_at(m1, x, y) == tile_at(m0, x, y) || tile_at(m1, x, y)
            == (Tile { blocked: false, block_sight: false, explored: false }) by {
            if in_interior(new_room, x, y) {
                assert(tile_at(m1, x, y) == (Tile {
                    blocked: false,
                    block_sight: false,
                    explored: false,
                }));
            } else {
                assert(tile_at(m1, x, y) == tile_at(m0, x, y));
            }
        }
        assert(tiles_monotone(m0, m1));
        assert forall|x: int, y: int|
            #[trigger] in_interior(new_room, x, y) implies !tile_at(m1, x, y).blocked by {
            assert(on_map(x, y));
        }
    }
    let center = new_room.center();
    let new_x = center.0;
    let new_y = center.1;
    match prev_room {
        Some(prev) => {
            let prev_center = prev.center();
            let prev_x = prev_center.0;
            let prev_y = prev_center.1;
            let coin = rng.below(2);
            let horiz_first = coin == 0;
            if horiz_first {
                create_h_tunnel(prev_x, new_x, prev_y, map);
            } else {
                create_v_tunnel(prev_y, new_y, prev_x, map);
            }
            let ghost m2 = map_view(map);
            proof {
                assert(tiles_monotone(m1, m2));
                lemma_monotone_trans(m0, m1, m2);
                lemma_carved_preserved(m1, m2, new_room);
            }
            if horiz_first {
                create_v_tunnel(prev_y, new_y, new_x, map);
            } else {
                create_h_tunnel(prev_x, new_x, new_y, map);
            }
            let ghost m3 = map_view(map);
            proof {
                assert(tiles_monotone(m2, m3));
                lemma_monotone_trans(m0, m2, m3);
                lemma_carved_preserved(m2, m3, new_room);
                assert forall|x: int, y: int|
                    on_map(x, y) implies tile_at(m3, x, y) == (if in_interior(new_room, x, y)
                    || on_l_corridor(
                    spec_center(prev),
                    spec_center(new_room),
                    horiz_first,
                    x,
                    y,
                ) {
                    Tile { blocked: false, block_sight: false, explored: false }
                } else {
                    tile_at(m0, x, y)
                }) by {
                    assert(spec_center(prev) == (prev_x as int, prev_y as int));
                    assert(spec_center(new_room) == (new_x as int, new_y as int));
                }
            }
            Ghost(horiz_first)
        },
        None => {
            Ghost(true)
        },
    }
}

/// The whole population pass over one room, pinned to the generator draws:
/// the monster count, each placement and each species derive from the
/// explicit generator state, and likewise for the items.
#[verifier::opaque]
pub open spec fn place_objects_rel(
    map: Seq<Seq<Tile>>,
    room: Rect,
    level: u32,
    pre: Seq<Object>,
    r0: u64,
    post: Seq<Object>,
    r1: u64,
) -> bool {
    exists|mtrace: Seq<(Seq<Object>, u64)>, itrace: Seq<(Seq<Object>, u64)>|
        #![trigger monster_trace_ok(map, room, spec_from_dungeon_level(spec_troll_table(), level), mtrace), item_trace_ok(map, room, spec_from_dungeon_level(spec_lightning_table(), level), spec_from_dungeon_level(spec_fireball_table(), level), spec_from_dungeon_level(spec_confuse_table(), level), spec_from_dungeon_level(spec_sword_table(), level), spec_from_dungeon_level(spec_shield_table(), level), itrace)]
        {
            let max_monsters = spec_from_dungeon_level(spec_monster_count_table(), level);
            let troll_chance = spec_from_dungeon_level(spec_troll_table(), level);
            let n_monsters = crate::rng::rng_next(r0) % ((max_monsters + 1) as u64);
            &&& mtrace.len() == n_monsters + 1
            &&& mtrace.first() == (pre, crate::rng::rng_next(r0))
            &&& monster_trace_ok(map, room, troll_chance, mtrace)
            &&& ({
                let rm = mtrace.last().1;
                let max_items = spec_from_dungeon_level(spec_item_count_table(), level);
                let n_items = crate::rng::rng_next(rm) % ((max_items + 1) as u64);
                &&& itrace.len() == n_items + 1
                &&& itrace.first() == (mtrace.last().0, crate::rng::rng_next(rm))
                &&& item_trace_ok(
                    map,
                    room,
                    spec_from_dungeon_level(spec_lightning_table(), level),
                    spec_from_dungeon_level(spec_fireball_table(), level),
                    spec_from_dungeon_level(spec_confuse_table(), level),
                    spec_from_dungeon_level(spec_sword_table(), level),
                    spec_from_dungeon_level(spec_shield_table(), level),
                    itrace,
                )
                &&& itrace.last() == (post, r1)
            })
        }
}

/// One room placement attempt, pinned to the generator draws: four draws
/// pick the candidate's size and position; a candidate overlapping any
/// accepted room changes nothing; an accepted one is carved, connected to
/// the previous room by an L-corridor whose leg order is one more draw, and
/// populated — the very first accepted room repositions the player to its
/// centre instead of drawing a corridor.
#[verifier::opaque]
pub open spec fn room_attempt_rel(
    pre_map: Seq<Seq<Tile>>,
    pre_rooms: Seq<Rect>,
    pre_objects: Seq<Object>,
    r0: u64,
    post_map: Seq<Seq<Tile>>,
    post_rooms: Seq<Rect>,
    post_objects: Seq<Object>,
    r1: u64,
    level: u32,
) -> bool {
    let s1 = crate::rng::rng_next(r0);
    let w = ROOM_MIN_SIZE + (s1 % ((ROOM_MAX_SIZE - ROOM_MIN_SIZE + 1) as u64)) as i32;
    let s2 = crate::rng::rng_next(s1);
    let h = ROOM_MIN_SIZE + (s2 % ((ROOM_MAX_SIZE - ROOM_MIN_SIZE + 1) as u64)) as i32;
    let s3 = crate::rng::rng_next(s2);
    let x = 0 + (s3 % ((MAP_WIDTH - w - 1 - 0 + 1) as u64)) as i32;
    let s4 = crate::rng::rng_next(s3);
    let y = 0 + (s4 % ((MAP_HEIGHT - h - 1 - 0 + 1) as u64)) as i32;
    let cand = Rect { x1: x as i32, y1: y as i32, x2: (x + w) as i32, y2: (y + h) as i32 };
    if exists|j: int| 0 <= j < pre_rooms.len() && spec_intersects(cand, #[trigger] pre_rooms[j]) {
        &&& post_map == pre_map
        &&& post_rooms == pre_rooms
        &&& post_objects == pre_objects
        &&& r1 == s4
    } else {
        room_accept_rel(
            pre_map,
            pre_rooms,
            pre_objects,
            s4,
            post_map,
            post_rooms,
            post_objects,
            r1,
            level,
            cand,
        )
    }
}

/// The accepted half of one room placement: a corridor-order draw when a
/// previous room exists, the exact carve of interior and corridor, the
/// population pass, and the player repositioned into the very first room.
#[verifier::opaque]
pub open spec fn room_accept_rel(
    pre_map: Seq<Seq<Tile>>,
    pre_rooms: Seq<Rect>,
    pre_objects: Seq<Object>,
    r0: u64,
    post_map: Seq<Seq<Tile>>,
    post_rooms: Seq<Rect>,
    post_objects: Seq<Object>,
    r1: u64,
    level: u32,
    cand: Rect,
) -> bool {
    let first = pre_rooms.len() == 0;
    let coin = crate::rng::rng_next(r0) % 2 == 0;
    &&& post_rooms == pre_rooms.push(cand)
    &&& map_wf(post_map)
    &&& forall|xx: int, yy: int|
        on_map(xx, yy) ==> tile_at(post_map, xx, yy) == (if in_interior(cand, xx, yy) || (!first
            && on_l_corridor(spec_center(pre_rooms.last()), spec_center(cand), coin, xx, yy)) {
            Tile { blocked: false, block_sight: false, explored: false }
        } else {
            tile_at(pre_map, xx, yy)
        })
    &&& if first {
        exists|mid_objects: Seq<Object>|
            {
                &&& #[trigger] place_objects_rel(
                    post_map,
                    cand,
                    level,
                    pre_objects,
                    r0,
                    mid_objects,
                    r1,
                )
                &&& mid_objects.len() >= 1
                &&& post_objects == mid_objects.update(
                    0,
                    Object {
                        x: spec_center(cand).0 as i32,
                        y: spec_center(cand).1 as i32,
                        ..mid_objects[0]
                    },
                )
            }
    } else {
        exists|mid_objects: Seq<Object>|
            {
                &&& #[trigger] place_objects_rel(
                    post_map,
                    cand,
                    level,
                    pre_objects,
                    crate::rng::rng_next(r0),
                    mid_objects,
                    r1,
                )
                &&& mid_objects.len() >= 1
                &&& post_objects == mid_objects
            }
    }
}

/// Carving one accepted room and its corridor extends the covered region by
/// exactly that room's interior and corridor.
proof fn lemma_covered_extend(
    m0: Seq<Seq<Tile>>,
    m1: Seq<Seq<Tile>>,
    rooms0: Seq<Rect>,
    orders0: Seq<bool>,
    cand: Rect,
    coin: bool,
)
    requires
        orders0.len() == (if rooms0.len() == 0 {
            0int
        } else {
            rooms0.len() - 1
        }),
        forall|x: int, y: int|
            on_map(x, y) ==> tile_at(m0, x, y) == (if covered(rooms0, orders0, x, y) {
                Tile { blocked: false, block_sight: false, explored: false }
            } else {
                Tile { blocked: true, block_sight: true, explored: false }
            }),
        forall|x: int, y: int|
            on_map(x, y) ==> tile_at(m1, x, y) == (if in_interior(cand, x, y) || (rooms0.len()
                > 0 && on_l_corridor(spec_center(rooms0.last()), spec_center(cand), coin, x, y)) {
                Tile { blocked: false, block_sight: false, explored: false }
            } else {
                tile_at(m0, x, y)
            }),
    ensures
        forall|x: int, y: int|
            on_map(x, y) ==> tile_at(m1, x, y) == (if covered(
                rooms0.push(cand),
                if rooms0.len() == 0 {
                    orders0
                } else {
                    orders0.push(coin)
                },
                x,
                y,
            ) {
                Tile { blocked: false, block_sight: false, explored: false }
            } else {
                Tile { blocked: true, block_sight: true, explored: false }
            }),
{
    reveal(covered);
    let rooms1 = rooms0.push(cand);
    let orders1 = if rooms0.len() == 0 {
        orders0
    } else {
        orders0.push(coin)
    };
    assert(rooms1.drop_last() =~= rooms0);
    assert forall|x: int, y: int|
        on_map(x, y) implies tile_at(m1, x, y) == (if covered(rooms1, orders1, x, y) {
        Tile { blocked: false, block_sight: false, explored: false }
    } else {
        Tile { blocked: true, block_sight: true, explored: false }
    }) by {
        if rooms0.len() > 0 {
            lemma_covered_push_order(rooms0, orders0, coin, x, y);
        }
        assert(covered(rooms1, orders1, x, y) == (covered(rooms0, orders1, x, y)
            || in_interior(cand, x, y) || (rooms0.len() > 0 && on_l_corridor(
            spec_center(rooms0.last()),
            spec_center(cand),
            coin,
            x,
            y,
        ))));
    }
}

/// A point inside any accepted room is covered.
proof fn lemma_interior_covered(rooms: Seq<Rect>, orders: Seq<bool>, i: int, x: int, y: int)
    requires
        0 <= i < rooms.len(),
        in_interior(rooms[i], x, y),
    ensures
        covered(rooms, orders, x, y),
    decreases rooms.len(),
{
    reveal(covered);
    if i < rooms.len() - 1 {
        lemma_interior_covered(rooms.drop_last(), orders, i, x, y);
    }
}

/// One room placement attempt: a uniformly random candidate, rejected (and
/// not retried) when its bounding box overlaps any accepted room, otherwise
/// carved, populated, and connected by an L-corridor to the previously
/// accepted room — the very first accepted room instead repositions the
/// player to its centre.
#[verifier::rlimit(100)]
#[verifier::spinoff_prover]
fn try_place_room(
    map: &mut DungeonMap,
    rooms: &mut Vec<Rect>,
    objects: &mut Vec<Object>,
    level: u32,
    rng: &mut RngState,
    Ghost(player0): Ghost<Object>,
    Ghost(orders0): Ghost<Seq<bool>>,
) -> (orders: Ghost<Seq<bool>>)
    requires
        store_wf(old(objects)@),
        map_wf(map_view(old(map))),
        forall|i: int| 0 <= i < old(rooms)@.len() ==> rect_wf(#[trigger] old(rooms)@[i]),
        forall|i: int, j: int|
            0 <= i < j < old(rooms)@.len() ==> !spec_intersects(old(rooms)@[i], old(rooms)@[j]),
        old(rooms)@.len() == 0 ==> old(objects)@[0] == player0,
        old(rooms)@.len() > 0 ==> old(objects)@[0] == (Object {
            x: spec_center(old(rooms)@[0]).0 as i32,
            y: spec_center(old(rooms)@[0]).1 as i32,
            ..player0
        }),
        orders0.len() == (if old(rooms)@.len() == 0 {
            0int
        } else {
            old(rooms)@.len() - 1
        }),
        forall|x: int, y: int|
            on_map(x, y) ==> tile_at(map_view(old(map)), x, y) == (if covered(
                old(rooms)@,
                orders0,
                x,
                y,
            ) {
                Tile { blocked: false, block_sight: false, explored: false }
            } else {
                Tile { blocked: true, block_sight: true, explored: false }
            }),
    ensures
        store_wf(final(objects)@),
        map_wf(map_view(final(map))),
        final(rooms)@.len() >= old(rooms)@.len(),
        old(rooms)@.len() == 0 ==> final(rooms)@.len() >= 1,
        forall|i: int| 0 <= i < final(rooms)@.len() ==> rect_wf(#[trigger] final(rooms)@[i]),
        forall|i: int, j: int|
            0 <= i < j < final(rooms)@.len() ==> !spec_intersects(
                final(rooms)@[i],
                final(rooms)@[j],
            ),
        final(rooms)@.len() == 0 ==> final(objects)@[0] == player0,
        final(rooms)@.len() > 0 ==> final(objects)@[0] == (Object {
            x: spec_center(final(rooms)@[0]).0 as i32,
            y: spec_center(final(rooms)@[0]).1 as i32,
            ..player0
        }),
        orders@.len() == (if final(rooms)@.len() == 0 {
            0int
        } else {
            final(rooms)@.len() - 1
        }),
        forall|x: int, y: int|
            on_map(x, y) ==> tile_at(map_view(final(map)), x, y) == (if covered(
                final(rooms)@,
                orders@,
                x,
                y,
            ) {
                Tile { blocked: false, block_sight: false, explored: false }
            } else {
                Tile { blocked: true, block_sight: true, explored: false }
            }),
        room_attempt_rel(
            map_view(old(map)),
            old(rooms)@,
            old(objects)@,
            old(rng).state,
            map_view(final(map)),
            final(rooms)@,
            final(objects)@,
            final(rng).state,
            level,
        ),
{
    let w = rng.range_inclusive(ROOM_MIN_SIZE, ROOM_MAX_SIZE);
    let h = rng.range_inclusive(ROOM_MIN_SIZE, ROOM_MAX_SIZE);
    let x = rng.range_inclusive(0, MAP_WIDTH - w - 1);
    let y = rng.range_inclusive(0, MAP_HEIGHT - h - 1);
    let new_room = Rect::new(x, y, w, h);
    let mut failed = false;
    let mut ri: usize = 0;
    while ri < rooms.len()
        invariant
            ri <= rooms@.len(),
            rooms@ == old(rooms)@,
            failed == exists|j: int|
                0 <= j < ri && spec_intersects(new_room, #[trigger] rooms@[j]),
        decreases rooms@.len() - ri,
    {
        if new_room.intersects_with(&rooms[ri]) {
            failed = true;
        }
        ri = ri + 1;
    }
    if !failed {
        let orders1 = accept_room(
            map,
            rooms,
            objects,
            level,
            rng,
            new_room,
            Ghost(player0),
            Ghost(orders0),
        );
        proof {
            assert(room_attempt_rel(
                map_view(old(map)),
                old(rooms)@,
                old(objects)@,
                old(rng).state,
                map_view(map),
                rooms@,
                objects@,
                rng.state,
                level,
            )) by {
                reveal(room_attempt_rel);
            }
        }
        orders1
    } else {
        proof {
            assert(room_attempt_rel(
                map_view(old(map)),
                old(rooms)@,
                old(objects)@,
                old(rng).state,
                map_view(map),
                rooms@,
                objects@,
                rng.state,
                level,
            )) by {
                reveal(room_attempt_rel);
            }
        }
        Ghost(orders0)
    }
}

/// Bundles the facts of one accepted room into its relation.
proof fn lemma_accept_rel_intro(
    pre_map: Seq<Seq<Tile>>,
    pre_rooms: Seq<Rect>,
    pre_objects: Seq<Object>,
    r0: u64,
    post_map: Seq<Seq<Tile>>,
    post_rooms: Seq<Rect>,
    post_objects: Seq<Object>,
    r1: u64,
    level: u32,
    cand: Rect,
    coin: bool,
    placed: Seq<Object>,
)
    requires
        post_rooms == pre_rooms.push(cand),
        map_wf(post_map),
        pre_rooms.len() > 0 ==> coin == (crate::rng::rng_next(r0) % 2 == 0),
        forall|xx: int, yy: int|
            on_map(xx, yy) ==> tile_at(post_map, xx, yy) == (if in_interior(cand, xx, yy) || (
            pre_rooms.len() > 0 && on_l_corridor(
                spec_center(pre_rooms.last()),
                spec_center(cand),
                coin,
                xx,
                yy,
            )) {
                Tile { blocked: false, block_sight: false, explored: false }
            } else {
                tile_at(pre_map, xx, yy)
            }),
        place_objects_rel(
            post_map,
            cand,
            level,
            pre_objects,
            if pre_rooms.len() == 0 {
                r0
            } else {
                crate::rng::rng_next(r0)
            },
            placed,
            r1,
        ),
        placed.len() >= 1,
        if pre_rooms.len() == 0 {
            post_objects == placed.update(
                0,
                Object {
                    x: spec_center(cand).0 as i32,
                    y: spec_center(cand).1 as i32,
                    ..placed[0]
                },
            )
        } else {
            post_objects == placed
        },
    ensures
        room_accept_rel(
            pre_map,
            pre_rooms,
            pre_objects,
            r0,
            post_map,
            post_rooms,
            post_objects,
            r1,
            level,
            cand,
        ),
{
    reveal(room_accept_rel);
    if pre_rooms.len() == 0 {
        assert(place_objects_rel(post_map, cand, level, pre_objects, r0, placed, r1));
    } else {
        assert(place_objects_rel(
            post_map,
            cand,
            level,
            pre_objects,
            crate::rng::rng_next(r0),
            placed,
            r1,
        ));
    }
}

/// Accepts one candidate room: carves it (and its corridor to the previous
/// room), populates it, repositions the player into the very first room,
/// and records it with its corridor's leg order.
#[verifier::rlimit(100)]
#[verifier::spinoff_prover]
fn accept_room(
    map: &mut DungeonMap,
    rooms: &mut Vec<Rect>,
    objects: &mut Vec<Object>,
    level: u32,
    rng: &mut RngState,
    new_room: Rect,
    Ghost(player0): Ghost<Object>,
    Ghost(orders0): Ghost<Seq<bool>>,
)  -> (orders: Ghost<Seq<bool>>)
    requires
        store_wf(old(objects)@),
        map_wf(map_view(old(map))),
        rect_wf(new_room),
        forall|i: int| 0 <= i < old(rooms)@.len() ==> rect_wf(#[trigger] old(rooms)@[i]),
        forall|i: int, j: int|
            0 <= i < j < old(rooms)@.len() ==> !spec_intersects(old(rooms)@[i], old(rooms)@[j]),
        forall|j: int|
            0 <= j < old(rooms)@.len() ==> !spec_intersects(new_room, #[trigger] old(rooms)@[j]),
        old(rooms)@.len() == 0 ==> old(objects)@[0] == player0,
        old(rooms)@.len() > 0 ==> old(objects)@[0] == (Object {
            x: spec_center(old(rooms)@[0]).0 as i32,
            y: spec_center(old(rooms)@[0]).1 as i32,
            ..player0
        }),
        orders0.len() == (if old(rooms)@.len() == 0 {
            0int
        } else {
            old(rooms)@.len() - 1
        }),
        forall|x: int, y: int|
            on_map(x, y) ==> tile_at(map_view(old(map)), x, y) == (if covered(
                old(rooms)@,
                orders0,
                x,
                y,
            ) {
                Tile { blocked: false, block_sight: false, explored: false }
            } else {
                Tile { blocked: true, block_sight: true, explored: false }
            }),
    ensures
        store_wf(final(objects)@),
        map_wf(map_view(final(map))),
        final(rooms)@ == old(rooms)@.push(new_room),
        forall|i: int| 0 <= i < final(rooms)@.len() ==> rect_wf(#[trigger] final(rooms)@[i]),
        forall|i: int, j: int|
            0 <= i < j < final(rooms)@.len() ==> !spec_intersects(
                final(rooms)@[i],
                final(rooms)@[j],
            ),
        final(objects)@[0] == (Object {
            x: spec_center(final(rooms)@[0]).0 as i32,
            y: spec_center(final(rooms)@[0]).1 as i32,
            ..player0
        }),
        orders@.len() == final(rooms)@.len() - 1,
        forall|x: int, y: int|
            on_map(x, y) ==> tile_at(map_view(final(map)), x, y) == (if covered(
                final(rooms)@,
                orders@,
                x,
                y,
            ) {
                Tile { blocked: false, block_sight: false, explored: false }
            } else {
                Tile { blocked: true, block_sight: true, explored: false }
            }),
        room_accept_rel(
            map_view(old(map)),
            old(rooms)@,
            old(objects)@,
            old(rng).state,
            map_view(final(map)),
            final(rooms)@,
            final(objects)@,
            final(rng).state,
            level,
            new_room,
        ),
{
    let ghost first = old(rooms)@.len() == 0;
    let prev_room: Option<Rect> = if rooms.len() == 0 {
        None
    } else {
        Some(rooms[rooms.len() - 1])
    };
    let coin = carve_and_connect(map, prev_room, new_room, rng);
    let ghost carved_map = map_view(map);
    let ghost rng_after_carve = rng.state;
    let spawn_traces = place_objects(new_room, &*map, objects, level, rng);
    let ghost placed_objects = objects@;
    proof {
        assert(monster_trace_ok(
            carved_map,
            new_room,
            spec_from_dungeon_level(spec_troll_table(), level),
            spawn_traces@.0,
        ));
        assert(item_trace_ok(
            carved_map,
            new_room,
            spec_from_dungeon_level(spec_lightning_table(), level),
            spec_from_dungeon_level(spec_fireball_table(), level),
            spec_from_dungeon_level(spec_confuse_table(), level),
            spec_from_dungeon_level(spec_sword_table(), level),
            spec_from_dungeon_level(spec_shield_table(), level),
            spawn_traces@.1,
        ));
        assert(place_objects_rel(
            carved_map,
            new_room,
            level,
            old(objects)@,
            rng_after_carve,
            placed_objects,
            rng.state,
        )) by {
            reveal(place_objects_rel);
        }
    }
    let center = new_room.center();
    if rooms.len() == 0 {
        let mut player = objects.remove(0);
        player.set_pos(center.0, center.1);
        objects.insert(0, player);
        proof {
            assert(objects@ =~= placed_objects.update(0, objects@[0]));
        }
    }
    rooms.push(new_room);
    let ghost orders1: Seq<bool> = if first {
        orders0
    } else {
        orders0.push(coin@)
    };
    proof {
        assert(rooms@ == old(rooms)@.push(new_room));
        assert(rooms@[rooms@.len() - 1] == new_room);
        assert forall|i: int, j: int|
            0 <= i < j < rooms@.len() implies !spec_intersects(rooms@[i], rooms@[j]) by {
            if j == rooms@.len() - 1 {
                assert(rooms@[i] == old(rooms)@[i]);
                assert(!spec_intersects(new_room, old(rooms)@[i]));
            } else {
                assert(rooms@[i] == old(rooms)@[i]);
                assert(rooms@[j] == old(rooms)@[j]);
            }
        }
        assert(rooms@.drop_last() =~= old(rooms)@);
        lemma_covered_extend(
            map_view(old(map)),
            map_view(map),
            old(rooms)@,
            orders0,
            new_room,
            coin@,
        );
        assert(carved_map == map_view(map));
        lemma_accept_rel_intro(
            map_view(old(map)),
            old(rooms)@,
            old(objects)@,
            old(rng).state,
            map_view(map),
            rooms@,
            objects@,
            rng.state,
            level,
            new_room,
            coin@,
            placed_objects,
        );
    }
    Ghost(orders1)
}

/// Generates a dungeon: a fully walled grid with up to `MAX_ROOMS`
/// non-overlapping rooms carved out and connected by L-shaped corridors,
/// the player repositioned to the first room's centre, every room populated
/// per the depth tables, and a stairs marker at the last room's centre.
///
/// No two accepted rooms' bounding boxes overlap, every accepted room's
/// interior ends up carved, and both the player's tile and the stairs' tile
/// lie in carved space.
#[verifier::rlimit(80)]
pub fn make_map(objects: &mut Vec<Object>, level: u32, rng: &mut RngState) -> (r: (
    DungeonMap,
    Ghost<(Seq<Rect>, Seq<bool>)>,
))
    requires
        store_wf(old(objects)@),
    ensures
        map_wf(map_view(&r.0)),
        r.1@.0.len() >= 1,
        r.1@.1.len() == r.1@.0.len() - 1,
        forall|i: int| 0 <= i < r.1@.0.len() ==> rect_wf(#[trigger] r.1@.0[i]),
        forall|i: int, j: int|
            0 <= i < j < r.1@.0.len() ==> !spec_intersects(r.1@.0[i], r.1@.0[j]),
        forall|i: int, x: int, y: int|
            0 <= i < r.1@.0.len() && #[trigger] in_interior(r.1@.0[i], x, y) ==> !tile_at(
                map_view(&r.0),
                x,
                y,
            ).blocked,
        forall|x: int, y: int|
            on_map(x, y) ==> tile_at(map_view(&r.0), x, y) == (if covered(
                r.1@.0,
                r.1@.1,
                x,
                y,
            ) {
                Tile { blocked: false, block_sight: false, explored: false }
            } else {
                Tile { blocked: true, block_sight: true, explored: false }
            }),
        exists|trace: Seq<(Seq<Seq<Tile>>, Seq<Rect>, Seq<Object>, u64)>|
            {
                &&& #[trigger] gen_trace_ok(level, trace)
                &&& trace.len() == MAX_ROOMS + 1
                &&& trace.first().1 == Seq::<Rect>::empty()
                &&& trace.first().2 == old(objects)@.subrange(0, 1)
                &&& trace.first().3 == old(rng).state
                &&& map_wf(trace.first().0)
                &&& forall|x: int, y: int|
                    on_map(x, y) ==> tile_at(trace.first().0, x, y) == (Tile {
                        blocked: true,
                        block_sight: true,
                        explored: false,
                    })
                &&& trace.last() == (
                    map_view(&r.0),
                    r.1@.0,
                    final(objects)@.drop_last(),
                    final(rng).state,
                )
            },
        store_wf(final(objects)@),
        final(objects)@.len() >= 2,
        final(objects)@[0] == (Object {
            x: spec_center(r.1@.0[0]).0 as i32,
            y: spec_center(r.1@.0[0]).1 as i32,
            ..old(objects)@[0]
        }),
        final(objects)@.last().name@ == "stairs"@,
        final(objects)@.last().x == spec_center(r.1@.0[r.1@.0.len() - 1]).0 as i32,
        final(objects)@.last().y == spec_center(r.1@.0[r.1@.0.len() - 1]).1 as i32,
        !final(objects)@.last().blocks,
        final(objects)@.last().always_visible,
        final(objects)@.last().fighter is None,
        final(objects)@.last().ai is None,
        final(objects)@.last().item is None,
        final(objects)@.last().equipment is None,
        !tile_at(map_view(&r.0), final(objects)@[0].x as int, final(objects)@[0].y as int).blocked,
        !tile_at(
            map_view(&r.0),
            final(objects)@.last().x as int,
            final(objects)@.last().y as int,
        ).blocked,
        reachable(
            map_view(&r.0),
            (final(objects)@[0].x as int, final(objects)@[0].y as int),
            (final(objects)@.last().x as int, final(objects)@.last().y as int),
        ),
{
    objects.truncate(1);
    proof {
        assert(objects@ =~= old(objects)@.subrange(0, 1));
        assert(objects@[0] == old(objects)@[0]);
        assert(store_wf(objects@));
    }
    let mut map = crate::tile::walled_map();
    let mut rooms: Vec<Rect> = Vec::new();
    let ghost mut orders: Seq<bool> = Seq::empty();
    let ghost mut gen_trace: Seq<(Seq<Seq<Tile>>, Seq<Rect>, Seq<Object>, u64)> = seq![
        (map_view(&map), rooms@, objects@, rng.state),
    ];
    proof {
        reveal(covered);
        assert(forall|x: int, y: int| !covered(rooms@, orders, x, y));
    }
    let mut attempt: i32 = 0;
    while attempt < MAX_ROOMS
        invariant
            store_wf(objects@),
            map_wf(map_view(&map)),
            0 <= attempt <= MAX_ROOMS,
            attempt >= 1 ==> rooms@.len() >= 1,
            forall|i: int| 0 <= i < rooms@.len() ==> rect_wf(#[trigger] rooms@[i]),
            forall|i: int, j: int|
                0 <= i < j < rooms@.len() ==> !spec_intersects(rooms@[i], rooms@[j]),
            objects@.len() >= 1,
            rooms@.len() == 0 ==> objects@[0] == old(objects)@[0],
            rooms@.len() > 0 ==> objects@[0] == (Object {
                x: spec_center(rooms@[0]).0 as i32,
                y: spec_center(rooms@[0]).1 as i32,
                ..old(objects)@[0]
            }),
            orders.len() == (if rooms@.len() == 0 {
                0int
            } else {
                rooms@.len() - 1
            }),
            forall|x: int, y: int|
                on_map(x, y) ==> tile_at(map_view(&map), x, y) == (if covered(
                    rooms@,
                    orders,
                    x,
                    y,
                ) {
                    Tile { blocked: false, block_sight: false, explored: false }
                } else {
                    Tile { blocked: true, block_sight: true, explored: false }
                }),
            gen_trace.len() == attempt + 1,
            gen_trace.first().1 == Seq::<Rect>::empty(),
            gen_trace.first().2 == old(objects)@.subrange(0, 1),
            gen_trace.first().3 == old(rng).state,
            map_wf(gen_trace.first().0),
            forall|x: int, y: int|
                on_map(x, y) ==> tile_at(gen_trace.first().0, x, y) == (Tile {
                    blocked: true,
                    block_sight: true,
                    explored: false,
                }),
            gen_trace.last() == (map_view(&map), rooms@, objects@, rng.state),
            gen_trace_ok(level, gen_trace),
        decreases MAX_ROOMS - attempt,
    {
        let ghost mid_map = map_view(&map);
        let ghost mid_rooms = rooms@;
        let ghost mid_objects = objects@;
        let ghost mid_state = rng.state;
        let new_orders = try_place_room(
            &mut map,
            &mut rooms,
            objects,
            level,
            rng,
            Ghost(old(objects)@[0]),
            Ghost(orders),
        );
        proof {
            orders = new_orders@;
            let prev = gen_trace;
            gen_trace = gen_trace.push((map_view(&map), rooms@, objects@, rng.state));
            assert(gen_trace[gen_trace.len() - 2] == (mid_map, mid_rooms, mid_objects, mid_state));
            assert forall|k: int|
                0 <= k < gen_trace.len() - 1 implies room_attempt_rel(
                (#[trigger] gen_trace[k]).0,
                gen_trace[k].1,
                gen_trace[k].2,
                gen_trace[k].3,
                gen_trace[k + 1].0,
                gen_trace[k + 1].1,
                gen_trace[k + 1].2,
                gen_trace[k + 1].3,
                level,
            ) by {
                if k < prev.len() - 1 {
                    assert(gen_trace[k] == prev[k]);
                    assert(gen_trace[k + 1] == prev[k + 1]);
                } else {
                    assert(gen_trace[k] == (mid_map, mid_rooms, mid_objects, mid_state));
                    assert(gen_trace[k + 1] == (map_view(&map), rooms@, objects@, rng.state));
                }
            }
        }
        attempt = attempt + 1;
    }
    proof {
        assert forall|i: int, x: int, y: int|
            0 <= i < rooms@.len() && #[trigger] in_interior(rooms@[i], x, y) implies !tile_at(
            map_view(&map),
            x,
            y,
        ).blocked by {
            assert(rect_wf(rooms@[i]));
            assert(on_map(x, y));
            lemma_interior_covered(rooms@, orders, i, x, y);
        }
    }
    let last_center = rooms[rooms.len() - 1].center();
    let last_x = last_center.0;
    let last_y = last_center.1;
    proof {
        reveal_strlit("stairs");
        reveal_strlit("player");
        assert("stairs"@[0] == 's');
        assert("player"@[0] == 'p');
    }
    let mut stairs = Object::new(last_x, last_y, '<', "stairs", Color::White, false);
    stairs.always_visible = true;
    let ghost before_stairs = objects@;
    objects.push(stairs);
    proof {
        assert(objects@[0] == before_stairs[0]);
        assert(objects@.last() == objects@[objects@.len() - 1]);
        lemma_center_in_interior(rooms@[0]);
        assert(in_interior(rooms@[0], objects@[0].x as int, objects@[0].y as int));
        assert(in_interior(
            rooms@[rooms@.len() - 1],
            objects@.last().x as int,
            objects@.last().y as int,
        ));
    }
    proof {
        assert(objects@.drop_last() =~= before_stairs);
        assert(gen_trace_ok(level, gen_trace));
        lemma_rooms_reachable(map_view(&map), rooms@, orders, rooms@.len() - 1);
        lemma_center_in_interior(rooms@[0]);
        lemma_center_in_interior(rooms@[rooms@.len() - 1]);
        assert((objects@[0].x as int, objects@[0].y as int) == spec_center(rooms@[0]));
        assert((objects@.last().x as int, objects@.last().y as int) == spec_center(
            rooms@[rooms@.len() - 1],
        ));
    }
    (map, Ghost((rooms@, orders)))
}

/// Every consecutive pair of a generation trace is one room placement
/// attempt.
pub open spec fn gen_trace_ok(
    level: u32,
    trace: Seq<(Seq<Seq<Tile>>, Seq<Rect>, Seq<Object>, u64)>,
) -> bool {
    forall|k: int|
        0 <= k < trace.len() - 1 ==> room_attempt_rel(
            (#[trigger] trace[k]).0,
            trace[k].1,
            trace[k].2,
            trace[k].3,
            trace[k + 1].0,
            trace[k + 1].1,
            trace[k + 1].2,
            trace[k + 1].3,
            level,
        )
}

/// One orthogonal step between two tiles.
pub open spec fn adjacent(a: (int, int), b: (int, int)) -> bool {
    ||| (a.0 == b.0 && (a.1 == b.1 + 1 || a.1 + 1 == b.1))
    ||| (a.1 == b.1 && (a.0 == b.0 + 1 || a.0 + 1 == b.0))
}

/// A walk over carved tiles: every step lies on the map on an unblocked
/// tile, and consecutive steps are orthogonally adjacent.
pub open spec fn is_carved_path(m: Seq<Seq<Tile>>, p: Seq<(int, int)>) -> bool {
    &&& p.len() >= 1
    &&& forall|i: int|
        0 <= i < p.len() ==> on_map((#[trigger] p[i]).0, p[i].1) && !tile_at(
            m,
            p[i].0,
            p[i].1,
        ).blocked
    &&& forall|i: int| 0 <= i < p.len() - 1 ==> adjacent(#[trigger] p[i], p[i + 1])
}

/// `b` can be reached from `a` over carved tiles only.
pub open spec fn reachable(m: Seq<Seq<Tile>>, a: (int, int), b: (int, int)) -> bool {
    exists|p: Seq<(int, int)>|
        #[trigger] is_carved_path(m, p) && p.first() == a && p.last() == b
}

/// Reachability composes.
proof fn lemma_reach_trans(m: Seq<Seq<Tile>>, a: (int, int), b: (int, int), c: (int, int))
    requires
        reachable(m, a, b),
        reachable(m, b, c),
    ensures
        reachable(m, a, c),
{
    let p = choose|p: Seq<(int, int)>|
        #[trigger] is_carved_path(m, p) && p.first() == a && p.last() == b;
    let q = choose|q: Seq<(int, int)>|
        #[trigger] is_carved_path(m, q) && q.first() == b && q.last() == c;
    if q.len() == 1 {
        assert(is_carved_path(m, p) && p.first() == a && p.last() == c);
    } else {
        let r = p + q.drop_first();
        assert(r.len() == p.len() + q.len() - 1);
        assert forall|i: int|
            0 <= i < r.len() implies on_map((#[trigger] r[i]).0, r[i].1) && !tile_at(
            m,
            r[i].0,
            r[i].1,
        ).blocked by {
            if i < p.len() {
                assert(r[i] == p[i]);
            } else {
                assert(r[i] == q[i - p.len() + 1]);
            }
        }
        assert forall|i: int| 0 <= i < r.len() - 1 implies adjacent(#[trigger] r[i], r[i + 1]) by {
            if i + 1 < p.len() {
                assert(r[i] == p[i]);
                assert(r[i + 1] == p[i + 1]);
            } else if i + 1 == p.len() {
                assert(r[i] == p[p.len() - 1]);
                assert(r[i + 1] == q.drop_first()[0]);
                assert(q.drop_first()[0] == q[1]);
                assert(adjacent(q[0], q[1]));
                assert(p[p.len() - 1] == q[0]);
            } else {
                assert(r[i] == q[i - p.len() + 1]);
                assert(r[i + 1] == q[i - p.len() + 2]);
                assert(adjacent(q[i - p.len() + 1], q[i - p.len() + 2]));
            }
        }
        assert(is_carved_path(m, r) && r.first() == a && r.last() == c);
    }
}

/// A horizontal run of carved tiles is walkable end to end.
#[verifier::rlimit(100)]
proof fn lemma_hseg(m: Seq<Seq<Tile>>, x1: int, x2: int, y: int)
    requires
        forall|x: int|
            #[trigger] between(x1, x2, x) ==> on_map(x, y) && !tile_at(m, x, y).blocked,
    ensures
        reachable(m, (x1, y), (x2, y)),
    decreases (if x1 <= x2 {
        x2 - x1
    } else {
        x1 - x2
    }),
{
    if x1 == x2 {
        let p = seq![(x1, y)];
        assert(between(x1, x2, x1));
        assert(p[0] == (x1, y));
        assert(on_map(x1, y) && !tile_at(m, x1, y).blocked);
        assert(is_carved_path(m, p) && p.first() == (x1, y) && p.last() == (x2, y));
    } else {
        let step: int = if x1 < x2 {
            1
        } else {
            -1
        };
        let p = seq![(x1, y), (x1 + step, y)];
        assert(between(x1, x2, x1) && between(x1, x2, x1 + step));
        assert(p[0] == (x1, y) && p[1] == (x1 + step, y));
        assert(on_map(x1, y) && !tile_at(m, x1, y).blocked);
        assert(on_map(x1 + step, y) && !tile_at(m, x1 + step, y).blocked);
        assert(adjacent(p[0], p[1]));
        assert(is_carved_path(m, p) && p.first() == (x1, y) && p.last() == (x1 + step, y));
        assert(reachable(m, (x1, y), (x1 + step, y)));
        assert forall|xx: int|
            #[trigger] between(x1 + step, x2, xx) implies on_map(xx, y) && !tile_at(
            m,
            xx,
            y,
        ).blocked by {
            assert(between(x1, x2, xx));
        }
        lemma_hseg(m, x1 + step, x2, y);
        lemma_reach_trans(m, (x1, y), (x1 + step, y), (x2, y));
    }
}

/// A vertical run of carved tiles is walkable end to end.
#[verifier::rlimit(100)]
proof fn lemma_vseg(m: Seq<Seq<Tile>>, y1: int, y2: int, x: int)
    requires
        forall|y: int|
            #[trigger] between(y1, y2, y) ==> on_map(x, y) && !tile_at(m, x, y).blocked,
    ensures
        reachable(m, (x, y1), (x, y2)),
    decreases (if y1 <= y2 {
        y2 - y1
    } else {
        y1 - y2
    }),
{
    if y1 == y2 {
        let p = seq![(x, y1)];
        assert(between(y1, y2, y1));
        assert(p[0] == (x, y1));
        assert(on_map(x, y1) && !tile_at(m, x, y1).blocked);
        assert(is_carved_path(m, p) && p.first() == (x, y1) && p.last() == (x, y2));
    } else {
        let step: int = if y1 < y2 {
            1
        } else {
            -1
        };
        let p = seq![(x, y1), (x, y1 + step)];
        assert(between(y1, y2, y1) && between(y1, y2, y1 + step));
        assert(p[0] == (x, y1) && p[1] == (x, y1 + step));
        assert(on_map(x, y1) && !tile_at(m, x, y1).blocked);
        assert(on_map(x, y1 + step) && !tile_at(m, x, y1 + step).blocked);
        assert(adjacent(p[0], p[1]));
        assert(is_carved_path(m, p) && p.first() == (x, y1) && p.last() == (x, y1 + step));
        assert(reachable(m, (x, y1), (x, y1 + step)));
        assert forall|yy: int|
            #[trigger] between(y1 + step, y2, yy) implies on_map(x, yy) && !tile_at(
            m,
            x,
            yy,
        ).blocked by {
            assert(between(y1, y2, yy));
        }
        lemma_vseg(m, y1 + step, y2, x);
        lemma_reach_trans(m, (x, y1), (x, y1 + step), (x, y2));
    }
}

/// The centres of two consecutive accepted rooms are connected over carved
/// tiles: the corridor's two legs are straight carved runs.
proof fn lemma_corridor_connects(
    m: Seq<Seq<Tile>>,
    rooms: Seq<Rect>,
    orders: Seq<bool>,
    i: int,
)
    requires
        1 <= i < rooms.len(),
        orders.len() >= rooms.len() - 1,
        forall|k: int| 0 <= k < rooms.len() ==> rect_wf(#[trigger] rooms[k]),
        forall|x: int, y: int|
            on_map(x, y) ==> tile_at(m, x, y) == (if covered(rooms, orders, x, y) {
                Tile { blocked: false, block_sight: false, explored: false }
            } else {
                Tile { blocked: true, block_sight: true, explored: false }
            }),
    ensures
        reachable(m, spec_center(rooms[i - 1]), spec_center(rooms[i])),
{
    let pc = spec_center(rooms[i - 1]);
    let nc = spec_center(rooms[i]);
    lemma_center_in_interior(rooms[i - 1]);
    lemma_center_in_interior(rooms[i]);
    assert forall|x: int, y: int|
        on_l_corridor(pc, nc, orders[i - 1], x, y) implies on_map(x, y) && !tile_at(
        m,
        x,
        y,
    ).blocked by {
        assert(on_map(pc.0, pc.1) && on_map(nc.0, nc.1));
        lemma_corridor_covered(rooms, orders, i, x, y);
    }
    if orders[i - 1] {
        assert(forall|x: int|
            between(pc.0, nc.0, x) ==> on_l_corridor(pc, nc, true, x, pc.1));
        lemma_hseg(m, pc.0, nc.0, pc.1);
        assert(forall|y: int|
            between(pc.1, nc.1, y) ==> on_l_corridor(pc, nc, true, nc.0, y));
        lemma_vseg(m, pc.1, nc.1, nc.0);
        lemma_reach_trans(m, pc, (nc.0, pc.1), nc);
    } else {
        assert(forall|y: int|
            between(pc.1, nc.1, y) ==> on_l_corridor(pc, nc, false, pc.0, y));
        lemma_vseg(m, pc.1, nc.1, pc.0);
        assert(forall|x: int|
            between(pc.0, nc.0, x) ==> on_l_corridor(pc, nc, false, x, nc.1));
        lemma_hseg(m, pc.0, nc.0, nc.1);
        lemma_reach_trans(m, pc, (pc.0, nc.1), nc);
    }
}

/// A corridor cell of connection `i` is covered.
proof fn lemma_corridor_covered(rooms: Seq<Rect>, orders: Seq<bool>, i: int, x: int, y: int)
    requires
        1 <= i < rooms.len(),
        on_l_corridor(spec_center(rooms[i - 1]), spec_center(rooms[i]), orders[i - 1], x, y),
    ensures
        covered(rooms, orders, x, y),
    decreases rooms.len(),
{
    reveal(covered);
    if i < rooms.len() - 1 {
        lemma_corridor_covered(rooms.drop_last(), orders, i, x, y);
    }
}

/// Every accepted room's centre — the stairs' tile among them — is reachable
/// from the first room's centre, the player's spawn tile, over carved tiles
/// only.
pub proof fn lemma_rooms_reachable(
    m: Seq<Seq<Tile>>,
    rooms: Seq<Rect>,
    orders: Seq<bool>,
    i: int,
)
    requires
        0 <= i < rooms.len(),
        orders.len() >= rooms.len() - 1,
        forall|k: int| 0 <= k < rooms.len() ==> rect_wf(#[trigger] rooms[k]),
        forall|x: int, y: int|
            on_map(x, y) ==> tile_at(m, x, y) == (if covered(rooms, orders, x, y) {
                Tile { blocked: false, block_sight: false, explored: false }
            } else {
                Tile { blocked: true, block_sight: true, explored: false }
            }),
    ensures
        reachable(m, spec_center(rooms[0]), spec_center(rooms[i])),
    decreases i,
{
    lemma_center_in_interior(rooms[i]);
    if i == 0 {
        let c = spec_center(rooms[0]);
        let p = seq![c];
        lemma_interior_covered(rooms, orders, 0, c.0, c.1);
        assert(is_carved_path(m, p) && p.first() == c && p.last() == c);
    } else {
        lemma_rooms_reachable(m, rooms, orders, i - 1);
        lemma_corridor_connects(m, rooms, orders, i);
        lemma_reach_trans(
            m,
            spec_center(rooms[0]),
            spec_center(rooms[i - 1]),
            spec_center(rooms[i]),
        );
    }
}

} // verus!
