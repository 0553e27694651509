//! Item use: dispatch by item tag to heal, lightning, confusion, fireball
//! or an equipment toggle, each returning whether the item was consumed,
//! kept, or the action cancelled.

use vstd::prelude::*;
use vstd::string::StringExecFns;

use crate::color::Color;
use crate::combat::{
    dies_from, lemma_remains_not_player, monster_death_msg, take_damage_post, xp_of,
};
use crate::constants::{
    CONFUSE_NUM_TURNS, FIREBALL_DAMAGE, FIREBALL_RADIUS, HEAL_AMOUNT, LIGHTNING_DAMAGE,
    LIGHTNING_RANGE, PLAYER, XP_MAX,
};
use crate::game::{max_hp_of, same_but_log, Game};
use crate::inventory::{
    dequip_post, dequipped_msg, equip_post, get_equipped_in_slot, unequipped,
};
use crate::log::{log_appended, log_appended2, MessageLog};
use crate::objects::{
    dist_sq, is_equipped_in, slot_exclusive, store_wf, Ai, DeathCallback, Fighter, Item, Object,
};
use crate::text::{dec_int, i32_to_string};
use crate::vision::VisionGrid;

verus! {

/// What an item use did: consumed the item, kept it (equipment toggles), or
/// was cancelled with no state change.
#[derive(Clone, Copy, Debug, PartialEq, Eq, Structural)]
pub enum UseResult {
    UsedUp,
    Cancelled,
    UsedAndKept,
}

/// The resolved target an interactive layer hands to `use_item`: nothing,
/// a map tile, or a monster's store index.
#[derive(Clone, Copy, Debug, PartialEq, Eq, Structural)]
pub enum UseTarget {
    NoTarget,
    Tile(i32, i32),
    Monster(usize),
}

/// The transform performed by `toggle_equipment`: an equipped piece is
/// dequipped; an unequipped one is equipped after any occupant of the same
/// slot is dequipped first — the two are never equipped simultaneously.
pub open spec fn toggle_equipment_post(
    old_game: Game,
    new_game: Game,
    id: int,
    r: UseResult,
) -> bool {
    let it = old_game.inventory@[id];
    match it.equipment {
        None => new_game == old_game && r is Cancelled,
        Some(e) => {
            &&& r is UsedAndKept
            &&& new_game.map == old_game.map
            &&& new_game.dungeon_level == old_game.dungeon_level
            &&& if e.equipped {
                &&& new_game.inventory@ == old_game.inventory@.update(
                    id,
                    Object { equipment: unequipped(it.equipment), ..it },
                )
                &&& log_appended(
                    old_game.log@,
                    new_game.log@,
                    dequipped_msg(it.name@, e.slot),
                    Color::LightYellow,
                )
            } else {
                if exists|j: int|
                    0 <= j < old_game.inventory@.len() && is_equipped_in(
                        #[trigger] old_game.inventory@[j],
                        e.slot,
                    ) {
                    let j = choose|j: int|
                        0 <= j < old_game.inventory@.len() && is_equipped_in(
                            #[trigger] old_game.inventory@[j],
                            e.slot,
                        );
                    let occupant = old_game.inventory@[j];
                    exists|mid_log: Seq<(String, Color)>|
                        {
                            &&& #[trigger] dequip_post(
                                occupant,
                                new_game.inventory@[j],
                                old_game.log@,
                                mid_log,
                            )
                            &&& equip_post(it, new_game.inventory@[id], mid_log, new_game.log@)
                            &&& new_game.inventory@ == old_game.inventory@.update(
                                j,
                                new_game.inventory@[j],
                            ).update(id, new_game.inventory@[id])
                        }
                } else {
                    &&& equip_post(it, new_game.inventory@[id], old_game.log@, new_game.log@)
                    &&& new_game.inventory@ == old_game.inventory@.update(
                        id,
                        new_game.inventory@[id],
                    )
                }
            }
        },
    }
}

/// Equips or dequips the item at `inventory_id`.  Equipping first dequips
/// any current occupant of the slot, so no slot ever holds two equipped
/// pieces.
pub fn toggle_equipment(inventory_id: usize, game: &mut Game) -> (r: UseResult)
    requires
        old(game).wf(),
        inventory_id < old(game).inventory@.len(),
    ensures
        final(game).wf(),
        slot_exclusive(final(game).inventory@),
        toggle_equipment_post(*old(game), *final(game), inventory_id as int, r),
{
    let equipment = match &game.inventory[inventory_id].equipment {
        Some(equipment) => *equipment,
        None => {
            return UseResult::Cancelled;
        },
    };
    if equipment.equipped {
        let mut it = game.inventory.remove(inventory_id);
        it.dequip(&mut game.log);
        game.inventory.insert(inventory_id, it);
        proof {
            assert(game.inventory@ =~= old(game).inventory@.update(
                inventory_id as int,
                game.inventory@[inventory_id as int],
            ));
        }
    } else {
        match get_equipped_in_slot(equipment.slot, &game.inventory) {
            Some(old_equipment) => {
                let mut occ = game.inventory.remove(old_equipment);
                occ.dequip(&mut game.log);
                game.inventory.insert(old_equipment, occ);
                proof {
                    assert(game.inventory@ =~= old(game).inventory@.update(
                        old_equipment as int,
                        game.inventory@[old_equipment as int],
                    ));
                }
                let mut it = game.inventory.remove(inventory_id);
                it.equip(&mut game.log);
                game.inventory.insert(inventory_id, it);
                proof {
                    let inv0 = old(game).inventory@;
                    assert(game.inventory@ =~= inv0.update(
                        old_equipment as int,
                        game.inventory@[old_equipment as int],
                    ).update(inventory_id as int, game.inventory@[inventory_id as int]));
                }
            },
            None => {
                let mut it = game.inventory.remove(inventory_id);
                it.equip(&mut game.log);
                game.inventory.insert(inventory_id, it);
                proof {
                    assert(game.inventory@ =~= old(game).inventory@.update(
                        inventory_id as int,
                        game.inventory@[inventory_id as int],
                    ));
                }
            },
        }
    }
    UseResult::UsedAndKept
}

/// The transform performed by `cast_heal`: at full health the cast is
/// rejected; otherwise the player is healed by `HEAL_AMOUNT`, capped at the
/// effective maximum.
pub open spec fn cast_heal_post(
    old_objects: Seq<Object>,
    old_game: Game,
    new_objects: Seq<Object>,
    new_game: Game,
    r: UseResult,
) -> bool {
    let player = old_objects[0];
    let f = player.fighter.unwrap();
    let maxhp = max_hp_of(player, old_game.inventory@);
    &&& same_but_log(old_game, new_game)
    &&& if f.hp == maxhp {
        &&& new_objects == old_objects
        &&& log_appended(
            old_game.log@,
            new_game.log@,
            "You are already at full health."@,
            Color::Red,
        )
        &&& r is Cancelled
    } else {
        let healed = if f.hp + HEAL_AMOUNT > maxhp {
            maxhp
        } else {
            f.hp + HEAL_AMOUNT
        };
        &&& new_objects == old_objects.update(
            0,
            Object { fighter: Some(Fighter { hp: healed as i32, ..f }), ..player },
        )
        &&& log_appended(
            old_game.log@,
            new_game.log@,
            "Your wounds start to feel better!"@,
            Color::LightViolet,
        )
        &&& r is UsedUp
    }
}

/// Heals the player by a fixed amount, capped at the effective maximum;
/// rejected with a message at full health.
pub fn cast_heal(_inventory_id: usize, objects: &mut Vec<Object>, game: &mut Game) -> (r:
    UseResult)
    requires
        old(game).wf(),
        store_wf(old(objects)@),
    ensures
        final(game).wf(),
        store_wf(final(objects)@),
        cast_heal_post(old(objects)@, *old(game), final(objects)@, *final(game), r),
{
    let hp = match &objects[PLAYER].fighter {
        Some(f) => f.hp,
        None => 0,
    };
    let maxhp = objects[PLAYER].max_hp(game);
    if hp == maxhp {
        game.log.add("You are already at full health.".to_owned(), Color::Red);
        return UseResult::Cancelled;
    }
    game.log.add("Your wounds start to feel better!".to_owned(), Color::LightViolet);
    let mut player = objects.remove(PLAYER);
    player.heal(HEAL_AMOUNT, game);
    objects.insert(PLAYER, player);
    proof {
        assert(objects@ =~= old(objects)@.update(0, objects@[0]));
    }
    UseResult::UsedUp
}

/// True when store entry `i` is a target lightning can consider: a living
/// decision-making fighter other than the player, currently visible.
pub open spec fn lightning_candidate(objects: Seq<Object>, fov: VisionGrid, i: int) -> bool {
    &&& 0 < i < objects.len()
    &&& objects[i].fighter is Some
    &&& objects[i].ai is Some
    &&& fov.sees(objects[i].x as int, objects[i].y as int)
}

/// Squared distance from the player to store entry `i`.
pub open spec fn player_dist_sq(objects: Seq<Object>, i: int) -> int {
    dist_sq(objects[0].x as int, objects[0].y as int, objects[i].x as int, objects[i].y as int)
}

/// The closest visible monster within `max_range` of the player: the first
/// one at minimal distance, or nothing when none is in range.
pub fn closest_monster(max_range: i32, objects: &Vec<Object>, fov: &VisionGrid) -> (r: Option<
    usize,
>)
    requires
        store_wf(objects@),
        fov.wf(),
        0 <= max_range <= 1_000_000,
    ensures
        match r {
            Some(i) => {
                &&& lightning_candidate(objects@, *fov, i as int)
                &&& player_dist_sq(objects@, i as int) < (max_range + 1) * (max_range + 1)
                &&& forall|j: int|
                    lightning_candidate(objects@, *fov, j) ==> player_dist_sq(objects@, i as int)
                        <= #[trigger] player_dist_sq(objects@, j)
                &&& forall|j: int|
                    0 <= j < i && lightning_candidate(objects@, *fov, j) ==> player_dist_sq(
                        objects@,
                        i as int,
                    ) < #[trigger] player_dist_sq(objects@, j)
            },
            None => forall|j: int|
                lightning_candidate(objects@, *fov, j) ==> #[trigger] player_dist_sq(objects@, j)
                    >= (max_range + 1) * (max_range + 1),
        },
{
    let mut closest_enemy: Option<usize> = None;
    proof {
        assert(((max_range + 1) as int) * ((max_range + 1) as int) <= 0x10_0000_0000_0000)
            by (nonlinear_arith)
            requires
                0 <= max_range <= 1_000_000,
        ;
    }
    let limit: i64 = ((max_range + 1) as i64) * ((max_range + 1) as i64);
    let mut closest_dist: i64 = limit;
    let mut id: usize = 1;
    while id < objects.len()
        invariant
            store_wf(objects@),
            fov.wf(),
            1 <= id <= objects@.len(),
            0 <= max_range <= 1_000_000,
            limit == (max_range + 1) * (max_range + 1),
            match closest_enemy {
                Some(i) => {
                    &&& lightning_candidate(objects@, *fov, i as int)
                    &&& i < id
                    &&& closest_dist == player_dist_sq(objects@, i as int)
                    &&& closest_dist < limit
                    &&& forall|j: int|
                        0 <= j < id && lightning_candidate(objects@, *fov, j)
                            ==> closest_dist <= #[trigger] player_dist_sq(objects@, j)
                    &&& forall|j: int|
                        0 <= j < i && lightning_candidate(objects@, *fov, j)
                            ==> closest_dist < #[trigger] player_dist_sq(objects@, j)
                },
                None => {
                    &&& closest_dist == limit
                    &&& forall|j: int|
                        0 <= j < id && lightning_candidate(objects@, *fov, j)
                            ==> #[trigger] player_dist_sq(objects@, j) >= limit
                },
            },
        decreases objects@.len() - id,
    {
        let object = &objects[id];
        let is_candidate = object.fighter.is_some() && object.ai.is_some() && fov.is_in_fov(
            object.x,
            object.y,
        );
        if is_candidate {
            let dist = objects[PLAYER].distance_to_sq(object);
            if dist < closest_dist {
                closest_enemy = Some(id);
                closest_dist = dist;
            }
        }
        id = id + 1;
    }
    closest_enemy
}

/// The first non-player fighter standing on `(x, y)`, if any.
pub fn monster_at(objects: &Vec<Object>, x: i32, y: i32) -> (r: Option<usize>)
    requires
        objects@.len() >= 1,
    ensures
        match r {
            Some(i) => {
                &&& 0 < i < objects@.len()
                &&& objects@[i as int].fighter is Some
                &&& objects@[i as int].x == x && objects@[i as int].y == y
            },
            None => forall|j: int|
                0 < j < objects@.len() ==> !((#[trigger] objects@[j]).x == x && objects@[j].y == y
                    && objects@[j].fighter is Some),
        },
{
    let mut id: usize = 1;
    while id < objects.len()
        invariant
            1 <= id <= objects@.len(),
            forall|j: int|
                0 < j < id ==> !((#[trigger] objects@[j]).x == x && objects@[j].y == y
                    && objects@[j].fighter is Some),
        decreases objects@.len() - id,
    {
        let obj = &objects[id];
        if obj.x == x && obj.y == y && obj.fighter.is_some() {
            return Some(id);
        }
        id = id + 1;
    }
    None
}

/// The lightning strike announcement.
pub open spec fn lightning_msg(name: Seq<char>) -> Seq<char> {
    "A lightning bolt strikes the "@ + name + " with a loud thunder! The damage is "@ + dec_int(
        LIGHTNING_DAMAGE as int,
    ) + " hit points."@
}

/// The death announcement `take_damage` emits for `o` (which must die).
pub open spec fn death_msg_of(o: Object) -> Seq<char> {
    match o.fighter.unwrap().on_death {
        crate::objects::DeathCallback::Player => "You died!"@,
        crate::objects::DeathCallback::Monster => monster_death_msg(
            o.name@,
            o.fighter.unwrap().xp as int,
        ),
    }
}

/// The colour of the death announcement for `o`.
pub open spec fn death_color_of(o: Object) -> Color {
    match o.fighter.unwrap().on_death {
        crate::objects::DeathCallback::Player => Color::DarkRed,
        crate::objects::DeathCallback::Monster => Color::Orange,
    }
}

/// The transform performed by `cast_lightning` when it strikes monster `i`.
pub open spec fn lightning_hit_post(
    old_objects: Seq<Object>,
    old_game: Game,
    new_objects: Seq<Object>,
    new_game: Game,
    i: int,
    r: UseResult,
) -> bool {
    let m = old_objects[i];
    let player = old_objects[0];
    &&& r is UsedUp
    &&& new_game.map == old_game.map
    &&& new_game.inventory == old_game.inventory
    &&& new_game.dungeon_level == old_game.dungeon_level
    &&& take_damage_post(m, new_objects[i], LIGHTNING_DAMAGE as int)
    &&& if dies_from(m, LIGHTNING_DAMAGE as int) {
        &&& new_objects == old_objects.update(i, new_objects[i]).update(
            0,
            Object {
                fighter: Some(
                    Fighter {
                        xp: (player.fighter.unwrap().xp + m.fighter.unwrap().xp) as i32,
                        ..player.fighter.unwrap()
                    },
                ),
                ..player
            },
        )
        &&& log_appended2(
            old_game.log@,
            new_game.log@,
            lightning_msg(m.name@),
            Color::LightBlue,
            death_msg_of(m),
            death_color_of(m),
        )
    } else {
        &&& new_objects == old_objects.update(i, new_objects[i])
        &&& log_appended(old_game.log@, new_game.log@, lightning_msg(m.name@), Color::LightBlue)
    }
}

/// The full transform performed by `cast_lightning`: the first closest
/// visible monster in range is struck, or the cast is rejected when none is.
pub open spec fn cast_lightning_post(
    old_objects: Seq<Object>,
    old_game: Game,
    new_objects: Seq<Object>,
    new_game: Game,
    fov: VisionGrid,
    r: UseResult,
) -> bool {
    if exists|j: int|
        lightning_candidate(old_objects, fov, j) && #[trigger] player_dist_sq(old_objects, j) < (
        LIGHTNING_RANGE + 1) * (LIGHTNING_RANGE + 1) {
        exists|i: int|
            {
                &&& lightning_candidate(old_objects, fov, i)
                &&& #[trigger] player_dist_sq(old_objects, i) < (LIGHTNING_RANGE + 1) * (
                LIGHTNING_RANGE + 1)
                &&& forall|j: int|
                    lightning_candidate(old_objects, fov, j) ==> player_dist_sq(old_objects, i)
                        <= #[trigger] player_dist_sq(old_objects, j)
                &&& lightning_hit_post(old_objects, old_game, new_objects, new_game, i, r)
            }
    } else {
        &&& new_objects == old_objects
        &&& same_but_log(old_game, new_game)
        &&& log_appended(
            old_game.log@,
            new_game.log@,
            "No enemy is close enough to strike."@,
            Color::Red,
        )
        &&& r is Cancelled
    }
}

/// Strikes the closest visible monster within `LIGHTNING_RANGE`; rejected
/// with a message when none is in range.  A kill credits the player.
pub fn cast_lightning(
    _inventory_id: usize,
    objects: &mut Vec<Object>,
    game: &mut Game,
    fov: &VisionGrid,
) -> (r: UseResult)
    requires
        old(game).wf(),
        store_wf(old(objects)@),
        fov.wf(),
        forall|j: int|
            0 < j < old(objects)@.len() ==> old(objects)@[0].fighter.unwrap().xp + xp_of(
                #[trigger] old(objects)@[j],
            ) <= XP_MAX,
    ensures
        final(game).wf(),
        store_wf(final(objects)@),
        cast_lightning_post(old(objects)@, *old(game), final(objects)@, *final(game), *fov, r),
{
    let monster_id = closest_monster(LIGHTNING_RANGE, objects, fov);
    match monster_id {
        Some(monster_id) => {
            let mut m: String = "A lightning bolt strikes the ".to_owned();
            m.append(objects[monster_id].name.as_str());
            m.append(" with a loud thunder! The damage is ");
            let digits = i32_to_string(LIGHTNING_DAMAGE);
            m.append(digits.as_str());
            m.append(" hit points.");
            game.log.add(m, Color::LightBlue);
            let mut monster = objects.remove(monster_id);
            let xp_opt = monster.take_damage(LIGHTNING_DAMAGE, game);
            objects.insert(monster_id, monster);
            proof {
                assert(objects@ =~= old(objects)@.update(
                    monster_id as int,
                    objects@[monster_id as int],
                ));
                lemma_remains_not_player(old(objects)@[monster_id as int].name@);
            }
            match xp_opt {
                Some(xp) => {
                    let mut player = objects.remove(PLAYER);
                    match &mut player.fighter {
                        Some(f) => {
                            f.xp = f.xp + xp;
                        },
                        None => {},
                    }
                    objects.insert(PLAYER, player);
                    proof {
                        assert(objects@ =~= old(objects)@.update(
                            monster_id as int,
                            objects@[monster_id as int],
                        ).update(0, objects@[0]));
                    }
                },
                None => {},
            }
            UseResult::UsedUp
        },
        None => {
            game.log.add("No enemy is close enough to strike.".to_owned(), Color::Red);
            UseResult::Cancelled
        },
    }
}

/// The confusion prompt shown before targeting.
pub open spec fn confuse_prompt_msg() -> Seq<char> {
    "Left-click an enemy to confuse it, or right-click to cancel."@
}

/// The announcement that a monster was confused.
pub open spec fn vacant_msg(name: Seq<char>) -> Seq<char> {
    "The eyes of "@ + name + " look vacant, as it starts to stumble around!"@
}

/// The transform performed by `cast_confuse`: the targeted monster's
/// decision state is wrapped in `Confused` for `CONFUSE_NUM_TURNS` turns;
/// with no target the cast is cancelled.
pub open spec fn cast_confuse_post(
    old_objects: Seq<Object>,
    old_game: Game,
    new_objects: Seq<Object>,
    new_game: Game,
    target: Option<usize>,
    r: UseResult,
) -> bool {
    match target {
        None => {
            &&& new_objects == old_objects
            &&& same_but_log(old_game, new_game)
            &&& log_appended2(
                old_game.log@,
                new_game.log@,
                confuse_prompt_msg(),
                Color::LightCyan,
                "No enemy is close enough to strike."@,
                Color::Red,
            )
            &&& r is Cancelled
        },
        Some(id) => {
            let m = old_objects[id as int];
            let prev = match m.ai {
                Some(a) => a,
                None => Ai::Basic,
            };
            &&& new_objects == old_objects.update(id as int, new_objects[id as int])
            &&& new_objects[id as int] == (Object { ai: new_objects[id as int].ai, ..m })
            &&& (new_objects[id as int].ai matches Some(a) && (a matches Ai::Confused {
                previous_ai,
                num_turns,
            } && *previous_ai == prev && num_turns == CONFUSE_NUM_TURNS))
            &&& same_but_log(old_game, new_game)
            &&& log_appended2(
                old_game.log@,
                new_game.log@,
                confuse_prompt_msg(),
                Color::LightCyan,
                vacant_msg(m.name@),
                Color::LightGreen,
            )
            &&& r is UsedUp
        },
    }
}

/// Pushes the targeted monster into the `Confused` state for a fixed
/// duration, wrapping whatever decision state it had; cancelled when the
/// targeting was aborted.
pub fn cast_confuse(
    _inventory_id: usize,
    objects: &mut Vec<Object>,
    game: &mut Game,
    target: Option<usize>,
) -> (r: UseResult)
    requires
        old(game).wf(),
        store_wf(old(objects)@),
        target matches Some(id) ==> 0 < id < old(objects)@.len(),
    ensures
        final(game).wf(),
        store_wf(final(objects)@),
        cast_confuse_post(old(objects)@, *old(game), final(objects)@, *final(game), target, r),
{
    game.log.add(
        "Left-click an enemy to confuse it, or right-click to cancel.".to_owned(),
        Color::LightCyan,
    );
    match target {
        Some(monster_id) => {
            let mut monster = objects.remove(monster_id);
            let old_ai = monster.ai.take().unwrap_or(Ai::Basic);
            monster.ai = Some(
                Ai::Confused { previous_ai: Box::new(old_ai), num_turns: CONFUSE_NUM_TURNS },
            );
            let mut m: String = "The eyes of ".to_owned();
            m.append(monster.name.as_str());
            m.append(" look vacant, as it starts to stumble around!");
            game.log.add(m, Color::LightGreen);
            objects.insert(monster_id, monster);
            proof {
                assert(objects@ =~= old(objects)@.update(
                    monster_id as int,
                    objects@[monster_id as int],
                ));
            }
            UseResult::UsedUp
        },
        None => {
            game.log.add("No enemy is close enough to strike.".to_owned(), Color::Red);
            UseResult::Cancelled
        },
    }
}

/// The fireball targeting prompt.
pub open spec fn fireball_prompt_msg() -> Seq<char> {
    "Left-click a target tile for the fireball, or right-click to cancel."@
}

/// The fireball explosion announcement.
pub open spec fn fireball_explode_msg() -> Seq<char> {
    "The fireball explodes, burning everything within "@ + dec_int(FIREBALL_RADIUS as int)
        + " tiles!"@
}

/// The per-entity burn announcement.
pub open spec fn burn_msg(name: Seq<char>) -> Seq<char> {
    "The "@ + name + " gets burned for "@ + dec_int(FIREBALL_DAMAGE as int) + " hit points."@
}

/// True when the fireball centred on `(tx, ty)` burns `o`: it has a fighter
/// and stands within Euclidean distance `FIREBALL_RADIUS` of the centre.
pub open spec fn fireball_hits(o: Object, tx: int, ty: int) -> bool {
    &&& o.fighter is Some
    &&& dist_sq(o.x as int, o.y as int, tx, ty) <= FIREBALL_RADIUS * FIREBALL_RADIUS
}

/// The log entries the fireball produces for one entity: a burn line when it
/// is hit, followed by a death announcement when the burn kills it; nothing
/// at all for an entity it does not hit.
pub open spec fn fireball_entry(o: Object, tx: int, ty: int) -> Seq<(Seq<char>, Color)> {
    if fireball_hits(o, tx, ty) {
        if dies_from(o, FIREBALL_DAMAGE as int) {
            seq![(burn_msg(o.name@), Color::Orange)].push((death_msg_of(o), death_color_of(o)))
        } else {
            seq![(burn_msg(o.name@), Color::Orange)]
        }
    } else {
        Seq::empty()
    }
}

/// The log entries the fireball produces for entities `0..i`, in store
/// order.
pub open spec fn fireball_msgs_upto(objects: Seq<Object>, tx: int, ty: int, i: int) -> Seq<
    (Seq<char>, Color),
>
    decreases i,
{
    if i <= 0 {
        Seq::empty()
    } else {
        fireball_msgs_upto(objects, tx, ty, i - 1) + fireball_entry(objects[i - 1], tx, ty)
    }
}

/// Actual log entries agree with the expected abstract ones, text and
/// colour alike.
pub open spec fn msgs_match(
    actual: Seq<(String, Color)>,
    expected: Seq<(Seq<char>, Color)>,
) -> bool {
    &&& actual.len() == expected.len()
    &&& forall|k: int|
        0 <= k < actual.len() ==> (#[trigger] actual[k]).0@ == expected[k].0 && actual[k].1
            == expected[k].1
}

/// The experience the player is credited with: the rewards of every
/// non-player entity among `1..i` that the burn kills.
pub open spec fn fireball_gain_upto(objects: Seq<Object>, tx: int, ty: int, i: int) -> int
    decreases i,
{
    if i <= 1 {
        0
    } else {
        fireball_gain_upto(objects, tx, ty, i - 1) + (if fireball_hits(objects[i - 1], tx, ty)
            && dies_from(objects[i - 1], FIREBALL_DAMAGE as int) {
            xp_of(objects[i - 1])
        } else {
            0
        })
    }
}

/// Total experience carried by entities `1..i`.
pub open spec fn xp_sum_upto(objects: Seq<Object>, i: int) -> int
    decreases i,
{
    if i <= 1 {
        0
    } else {
        xp_sum_upto(objects, i - 1) + xp_of(objects[i - 1])
    }
}

/// Total experience carried by every non-player entity.
pub open spec fn xp_sum_rest(objects: Seq<Object>) -> int {
    xp_sum_upto(objects, objects.len() as int)
}

/// The credited gain never exceeds the experience actually carried.
pub proof fn lemma_fireball_gain_bounds(objects: Seq<Object>, tx: int, ty: int, i: int)
    requires
        0 <= i <= objects.len(),
        forall|k: int| 0 <= k < objects.len() ==> (#[trigger] objects[k]).wf(),
    ensures
        0 <= fireball_gain_upto(objects, tx, ty, i) <= xp_sum_upto(objects, i),
        0 <= xp_sum_upto(objects, i),
    decreases i,
{
    if i > 1 {
        lemma_fireball_gain_bounds(objects, tx, ty, i - 1);
        assert(objects[i - 1].wf());
    }
}

/// Entity experience totals only grow with the index bound.
pub proof fn lemma_xp_sum_monotone(objects: Seq<Object>, i: int, j: int)
    requires
        0 <= i <= j <= objects.len(),
        forall|k: int| 0 <= k < objects.len() ==> (#[trigger] objects[k]).wf(),
    ensures
        xp_sum_upto(objects, i) <= xp_sum_upto(objects, j),
    decreases j - i,
{
    if i < j {
        lemma_xp_sum_monotone(objects, i, j - 1);
        assert(objects[j - 1].wf());
    }
}

/// The transform performed by a fireball strike at `(tx, ty)`: every entity
/// with a fighter within the radius — the player included — takes the
/// fireball damage exactly once; everything else is untouched and produces
/// no log entry; the player is credited with the rewards of the monsters it
/// kills.
pub open spec fn fireball_strike_post(
    old_objects: Seq<Object>,
    old_game: Game,
    new_objects: Seq<Object>,
    new_game: Game,
    tx: int,
    ty: int,
) -> bool {
    &&& new_game.map == old_game.map
    &&& new_game.inventory == old_game.inventory
    &&& new_game.dungeon_level == old_game.dungeon_level
    &&& new_objects.len() == old_objects.len()
    &&& forall|i: int|
        0 < i < old_objects.len() ==> if fireball_hits(#[trigger] old_objects[i], tx, ty) {
            take_damage_post(old_objects[i], new_objects[i], FIREBALL_DAMAGE as int)
        } else {
            new_objects[i] == old_objects[i]
        }
    &&& exists|p_mid: Object|
        {
            &&& (if fireball_hits(old_objects[0], tx, ty) {
                take_damage_post(old_objects[0], p_mid, FIREBALL_DAMAGE as int)
            } else {
                p_mid == old_objects[0]
            })
            &&& p_mid.fighter is Some
            &&& new_objects[0] == (Object {
                fighter: Some(
                    Fighter {
                        xp: (p_mid.fighter.unwrap().xp + fireball_gain_upto(
                            old_objects,
                            tx,
                            ty,
                            old_objects.len() as int,
                        )) as i32,
                        ..#[trigger] p_mid.fighter.unwrap()
                    },
                ),
                ..p_mid
            })
        }
    &&& new_game.log@.len() == old_game.log@.len() + 2 + fireball_msgs_upto(
        old_objects,
        tx,
        ty,
        old_objects.len() as int,
    ).len()
    &&& forall|k: int| 0 <= k < old_game.log@.len() ==> new_game.log@[k] == old_game.log@[k]
    &&& new_game.log@[old_game.log@.len() as int].0@ == fireball_prompt_msg()
    &&& new_game.log@[old_game.log@.len() as int].1 == Color::LightCyan
    &&& new_game.log@[old_game.log@.len() as int + 1].0@ == fireball_explode_msg()
    &&& new_game.log@[old_game.log@.len() as int + 1].1 == Color::Orange
    &&& msgs_match(
        new_game.log@.skip(old_game.log@.len() as int + 2),
        fireball_msgs_upto(old_objects, tx, ty, old_objects.len() as int),
    )
}

/// The full transform performed by `cast_fireball`: a strike at the chosen
/// tile, or a cancelled cast after the prompt.
pub open spec fn cast_fireball_post(
    old_objects: Seq<Object>,
    old_game: Game,
    new_objects: Seq<Object>,
    new_game: Game,
    target: Option<(i32, i32)>,
    r: UseResult,
) -> bool {
    match target {
        None => {
            &&& new_objects == old_objects
            &&& same_but_log(old_game, new_game)
            &&& log_appended(old_game.log@, new_game.log@, fireball_prompt_msg(), Color::LightCyan)
            &&& r is Cancelled
        },
        Some(t) => {
            &&& fireball_strike_post(old_objects, old_game, new_objects, new_game, t.0 as int, t.1 as int)
            &&& r is UsedUp
        },
    }
}

/// Burns every fighter within the fireball radius of the targeted tile,
/// the player included, and credits the player with the kills; cancelled
/// when the targeting was aborted.
pub fn cast_fireball(
    _inventory_id: usize,
    objects: &mut Vec<Object>,
    game: &mut Game,
    target: Option<(i32, i32)>,
) -> (r: UseResult)
    requires
        old(game).wf(),
        store_wf(old(objects)@),
        target matches Some(t) ==> crate::tile::on_map(t.0 as int, t.1 as int),
        old(objects)@[0].fighter.unwrap().xp + xp_sum_rest(old(objects)@) <= XP_MAX,
    ensures
        final(game).wf(),
        store_wf(final(objects)@),
        cast_fireball_post(old(objects)@, *old(game), final(objects)@, *final(game), target, r),
{
    game.log.add(
        "Left-click a target tile for the fireball, or right-click to cancel.".to_owned(),
        Color::LightCyan,
    );
    let (x, y) = match target {
        Some(tile_pos) => tile_pos,
        None => {
            return UseResult::Cancelled;
        },
    };
    let mut m: String = "The fireball explodes, burning everything within ".to_owned();
    let digits = i32_to_string(FIREBALL_RADIUS);
    m.append(digits.as_str());
    m.append(" tiles!");
    game.log.add(m, Color::Orange);

    let ghost old_objs = old(objects)@;
    let ghost base_log = game.log@;
    let ghost tx = x as int;
    let ghost ty = y as int;
    proof {
        lemma_fireball_gain_bounds(old_objs, tx, ty, old_objs.len() as int);
    }
    let mut xp_to_gain: i32 = 0;
    let mut id: usize = 0;
    while id < objects.len()
        invariant
            game.wf(),
            0 <= id <= objects@.len(),
            objects@.len() == old_objs.len(),
            forall|k: int| 0 <= k < old_objs.len() ==> (#[trigger] old_objs[k]).wf(),
            store_wf(old_objs),
            crate::tile::on_map(tx, ty),
            tx == x as int,
            ty == y as int,
            forall|i: int| id <= i < objects@.len() ==> (#[trigger] objects@[i]) == old_objs[i],
            forall|i: int|
                0 <= i < id ==> if fireball_hits(#[trigger] old_objs[i], tx, ty) {
                    take_damage_post(old_objs[i], objects@[i], FIREBALL_DAMAGE as int)
                } else {
                    objects@[i] == old_objs[i]
                },
            forall|i: int| 0 <= i < id ==> (#[trigger] objects@[i]).wf(),
            forall|i: int|
                0 <= i < id ==> crate::tile::on_map(
                    (#[trigger] objects@[i]).x as int,
                    objects@[i].y as int,
                ),
            forall|i: int|
                0 < i < id ==> !crate::objects::is_player_name(#[trigger] objects@[i]),
            forall|i: int|
                0 <= i < id ==> match (#[trigger] objects@[i]).equipment {
                    Some(e) => !e.equipped,
                    None => true,
                },
            id > 0 ==> objects@[0].fighter is Some && objects@[0].fighter.unwrap().on_death
                is Player,
            xp_to_gain == fireball_gain_upto(old_objs, tx, ty, id as int),
            0 <= xp_to_gain <= xp_sum_upto(old_objs, id as int),
            xp_sum_upto(old_objs, old_objs.len() as int) <= XP_MAX,
            game.map == old(game).map,
            game.inventory == old(game).inventory,
            game.dungeon_level == old(game).dungeon_level,
            game.log@.len() >= base_log.len(),
            forall|k: int| 0 <= k < base_log.len() ==> game.log@[k] == base_log[k],
            msgs_match(
                game.log@.skip(base_log.len() as int),
                fireball_msgs_upto(old_objs, tx, ty, id as int),
            ),
        decreases objects@.len() - id,
    {
        proof {
            assert(objects@[id as int] == old_objs[id as int]);
            lemma_fireball_gain_bounds(old_objs, tx, ty, id + 1);
            lemma_xp_sum_monotone(old_objs, id + 1, old_objs.len() as int);
        }
        let ghost prev_expected = fireball_msgs_upto(old_objs, tx, ty, id as int);
        let ghost entry = fireball_entry(old_objs[id as int], tx, ty);
        let dist = objects[id].distance_sq(x, y);
        let has_fighter = objects[id].fighter.is_some();
        if dist <= (FIREBALL_RADIUS * FIREBALL_RADIUS) as i64 && has_fighter {
            let mut bm: String = "The ".to_owned();
            bm.append(objects[id].name.as_str());
            bm.append(" gets burned for ");
            let digits2 = i32_to_string(FIREBALL_DAMAGE);
            bm.append(digits2.as_str());
            bm.append(" hit points.");
            let ghost l0 = game.log@;
            game.log.add(bm, Color::Orange);
            let ghost l1 = game.log@;
            let mut obj = objects.remove(id);
            let xp_opt = obj.take_damage(FIREBALL_DAMAGE, game);
            objects.insert(id, obj);
            proof {
                lemma_remains_not_player(old_objs[id as int].name@);
                let l2 = game.log@;
                let suffix = l2.skip(base_log.len() as int);
                assert(fireball_msgs_upto(old_objs, tx, ty, id + 1) == prev_expected + entry);
                assert(l1.skip(base_log.len() as int) =~= l0.skip(base_log.len() as int).push(
                    l1.last(),
                ));
                if dies_from(old_objs[id as int], FIREBALL_DAMAGE as int) {
                    assert(entry.len() == 2);
                    assert(l2.len() == l1.len() + 1);
                    assert(forall|k: int| 0 <= k < l1.len() ==> l2[k] == l1[k]);
                } else {
                    assert(l2 == l1);
                    assert(entry.len() == 1);
                }
                assert(msgs_match(suffix, prev_expected + entry)) by {
                    assert(suffix.len() == prev_expected.len() + entry.len());
                    assert forall|k: int| 0 <= k < suffix.len() implies (#[trigger] suffix[k]).0@
                        == (prev_expected + entry)[k].0 && suffix[k].1 == (prev_expected
                        + entry)[k].1 by {
                        if k < prev_expected.len() {
                            assert(suffix[k] == l0.skip(base_log.len() as int)[k]);
                        } else if k == prev_expected.len() {
                            assert(suffix[k] == l1.last());
                        } else {
                            assert(suffix[k] == l2.last());
                        }
                    }
                }
            }
            match xp_opt {
                Some(xp) => {
                    if id != PLAYER {
                        xp_to_gain = xp_to_gain + xp;
                    }
                },
                None => {},
            }
        } else {
            proof {
                assert(!fireball_hits(old_objs[id as int], tx, ty));
                assert(entry =~= Seq::<(Seq<char>, Color)>::empty());
                assert(fireball_msgs_upto(old_objs, tx, ty, id + 1) =~= prev_expected);
            }
        }
        id = id + 1;
    }
    proof {
        assert forall|k: int| 0 <= k < old(game).log@.len() implies game.log@[k] == old(
            game,
        ).log@[k] by {
            assert(game.log@[k] == base_log[k]);
        }
        let n0 = old(game).log@.len() as int;
        assert(game.log@[n0] == base_log[n0]);
        assert(game.log@[n0 + 1] == base_log[n0 + 1]);
    }
    let mut player = objects.remove(PLAYER);
    match &mut player.fighter {
        Some(f) => {
            f.xp = f.xp + xp_to_gain;
        },
        None => {},
    }
    objects.insert(PLAYER, player);
    UseResult::UsedUp
}

/// Rejection logged when using an entity with no use-behaviour.
pub open spec fn cannot_be_used_msg(name: Seq<char>) -> Seq<char> {
    "The "@ + name + " cannot be used."@
}

/// The monster target an interactive layer resolved, if any.
pub open spec fn spec_confuse_target(t: UseTarget) -> Option<usize> {
    match t {
        UseTarget::Monster(id) => Some(id),
        _ => None,
    }
}

/// The tile target an interactive layer resolved, if any.
pub open spec fn spec_tile_target(t: UseTarget) -> Option<(i32, i32)> {
    match t {
        UseTarget::Tile(x, y) => Some((x, y)),
        _ => None,
    }
}

/// The transform performed by the use-behaviour of `tag` alone, before
/// `use_item` disposes of the item.
pub open spec fn dispatched_post(
    old_objects: Seq<Object>,
    old_game: Game,
    mid_objects: Seq<Object>,
    mid_game: Game,
    id: int,
    fov: VisionGrid,
    target: UseTarget,
    tag: Item,
    r: UseResult,
) -> bool {
    match tag {
        Item::Heal => cast_heal_post(old_objects, old_game, mid_objects, mid_game, r),
        Item::Lightning => cast_lightning_post(
            old_objects,
            old_game,
            mid_objects,
            mid_game,
            fov,
            r,
        ),
        Item::Confuse => cast_confuse_post(
            old_objects,
            old_game,
            mid_objects,
            mid_game,
            spec_confuse_target(target),
            r,
        ),
        Item::Fireball => cast_fireball_post(
            old_objects,
            old_game,
            mid_objects,
            mid_game,
            spec_tile_target(target),
            r,
        ),
        Item::Sword => mid_objects == old_objects && toggle_equipment_post(
            old_game,
            mid_game,
            id,
            r,
        ),
        Item::Shield => mid_objects == old_objects && toggle_equipment_post(
            old_game,
            mid_game,
            id,
            r,
        ),
    }
}

/// The transform performed by `use_item`: an entity with no item tag is
/// rejected with a message; otherwise its use-behaviour runs, after which a
/// consumed item leaves the inventory, a cancelled use logs `Cancelled`, and
/// an equipment toggle keeps the item.
pub open spec fn use_item_post(
    old_objects: Seq<Object>,
    old_game: Game,
    new_objects: Seq<Object>,
    new_game: Game,
    id: int,
    fov: VisionGrid,
    target: UseTarget,
) -> bool {
    match old_game.inventory@[id].item {
        None => {
            &&& new_objects == old_objects
            &&& same_but_log(old_game, new_game)
            &&& log_appended(
                old_game.log@,
                new_game.log@,
                cannot_be_used_msg(old_game.inventory@[id].name@),
                Color::White,
            )
        },
        Some(tag) => exists|mid_objects: Seq<Object>, mid_game: Game, r: UseResult|
            {
                &&& #[trigger] dispatched_post(
                    old_objects,
                    old_game,
                    mid_objects,
                    mid_game,
                    id,
                    fov,
                    target,
                    tag,
                    r,
                )
                &&& match r {
                    UseResult::UsedUp => {
                        &&& new_objects == mid_objects
                        &&& new_game.map == mid_game.map
                        &&& new_game.log == mid_game.log
                        &&& new_game.dungeon_level == mid_game.dungeon_level
                        &&& new_game.inventory@ == mid_game.inventory@.remove(id)
                    },
                    UseResult::Cancelled => {
                        &&& new_objects == mid_objects
                        &&& same_but_log(mid_game, new_game)
                        &&& log_appended(mid_game.log@, new_game.log@, "Cancelled"@, Color::White)
                    },
                    UseResult::UsedAndKept => new_objects == mid_objects && new_game == mid_game,
                }
            },
    }
}

/// Every single entity's reward fits beside the player's experience when the
/// whole store's rewards do.
pub proof fn lemma_xp_le_sum(objects: Seq<Object>, j: int)
    requires
        forall|k: int| 0 <= k < objects.len() ==> (#[trigger] objects[k]).wf(),
        0 < j < objects.len(),
    ensures
        xp_of(objects[j]) <= xp_sum_rest(objects),
{
    assert(xp_sum_upto(objects, j + 1) == xp_sum_upto(objects, j) + xp_of(objects[j]));
    lemma_xp_sum_monotone(objects, 1, j);
    lemma_xp_sum_monotone(objects, j + 1, objects.len() as int);
    assert(objects[j].wf());
}

/// Uses the item at `inventory_id`: dispatches on its tag, removes it when
/// consumed, logs a cancellation, and keeps toggled equipment.
pub fn use_item(
    inventory_id: usize,
    objects: &mut Vec<Object>,
    game: &mut Game,
    fov: &VisionGrid,
    target: UseTarget,
)
    requires
        old(game).wf(),
        store_wf(old(objects)@),
        fov.wf(),
        inventory_id < old(game).inventory@.len(),
        old(objects)@[0].fighter.unwrap().xp + xp_sum_rest(old(objects)@) <= XP_MAX,
        target matches UseTarget::Monster(id) ==> 0 < id < old(objects)@.len(),
        target matches UseTarget::Tile(x, y) ==> crate::tile::on_map(x as int, y as int),
    ensures
        final(game).wf(),
        store_wf(final(objects)@),
        use_item_post(
            old(objects)@,
            *old(game),
            final(objects)@,
            *final(game),
            inventory_id as int,
            *fov,
            target,
        ),
{
    let tag = match &game.inventory[inventory_id].item {
        Some(tag) => *tag,
        None => {
            let mut m: String = "The ".to_owned();
            m.append(game.inventory[inventory_id].name.as_str());
            m.append(" cannot be used.");
            game.log.add(m, Color::White);
            return ;
        },
    };
    proof {
        assert forall|j: int| 0 < j < old(objects)@.len() implies old(
            objects,
        )@[0].fighter.unwrap().xp + xp_of(#[trigger] old(objects)@[j]) <= XP_MAX by {
            lemma_xp_le_sum(old(objects)@, j);
            assert(old(objects)@[0].wf());
        }
    }
    let result = match tag {
        Item::Heal => cast_heal(inventory_id, objects, game),
        Item::Lightning => cast_lightning(inventory_id, objects, game, fov),
        Item::Confuse => {
            let monster_target = match target {
                UseTarget::Monster(id) => Some(id),
                _ => None,
            };
            cast_confuse(inventory_id, objects, game, monster_target)
        },
        Item::Fireball => {
            let tile_target = match target {
                UseTarget::Tile(x, y) => Some((x, y)),
                _ => None,
            };
            cast_fireball(inventory_id, objects, game, tile_target)
        },
        Item::Sword => toggle_equipment(inventory_id, game),
        Item::Shield => toggle_equipment(inventory_id, game),
    };
    let ghost mid_objects = objects@;
    let ghost mid_game = *game;
    proof {
        assert(dispatched_post(
            old(objects)@,
            *old(game),
            mid_objects,
            mid_game,
            inventory_id as int,
            *fov,
            target,
            tag,
            result,
        ));
    }
    match result {
        UseResult::UsedUp => {
            game.inventory.remove(inventory_id);
        },
        UseResult::Cancelled => {
            game.log.add("Cancelled".to_owned(), Color::White);
        },
        UseResult::UsedAndKept => {},
    }
}

} // verus!
