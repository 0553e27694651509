//! Attack resolution, damage and death.
//!
//! `attack` computes `damage = effective_power(attacker) −
//! effective_defense(defender)` and applies positive damage through
//! `take_damage`.  When hit points drop to zero or below, the entity is
//! marked not-alive and its death procedure runs exactly once: a dead player
//! becomes a corpse glyph, a dead monster is converted in place into inert,
//! non-blocking remains.

use vstd::prelude::*;
use vstd::string::StringExecFns;

use crate::color::Color;
use crate::constants::{EFFECTIVE_STAT_MAX, XP_MAX};
use crate::game::{
    defense_of, max_hp_of, power_of, same_but_log, Game,
};
use crate::log::{log_appended, log_appended2, MessageLog};
use crate::objects::{DeathCallback, Fighter, Object};
use crate::text::{dec_int, i32_to_string};

verus! {

/// The experience a killer is credited with for `o`: its fighter's `xp`, or
/// 0 when it has none.
pub open spec fn xp_of(o: Object) -> int {
    match o.fighter {
        Some(f) => f.xp as int,
        None => 0,
    }
}

/// Hit points after applying `damage`: positive damage is subtracted from a
/// fighter that still has positive hit points; anything else leaves them
/// unchanged.  A fallen fighter (hit points at or below zero) is inert by
/// design: its death procedure has already fired exactly once, and freezing
/// its hit points is what keeps every fighter's hit points above `HP_MIN`
/// however many area blasts wash over the corpse.
pub open spec fn hp_after_damage(f: Fighter, damage: int) -> int {
    if damage > 0 && f.hp > 0 {
        f.hp - damage
    } else {
        f.hp as int
    }
}

/// True when applying `damage` to `o` makes it die now: its hit points end
/// at or below zero while it is still marked alive.
pub open spec fn dies_from(o: Object, damage: int) -> bool {
    match o.fighter {
        Some(f) => hp_after_damage(f, damage) <= 0 && o.alive,
        None => false,
    }
}

/// The name of a monster's remains.
pub open spec fn remains_name(name: Seq<char>) -> Seq<char> {
    "remains of "@ + name
}

/// `post` is `pre` converted in place into inert remains: not alive, not
/// blocking, fighter and decision state cleared, corpse glyph and colour,
/// name rewritten.
pub open spec fn monster_remains_of(pre: Object, post: Object) -> bool {
    &&& post.x == pre.x
    &&& post.y == pre.y
    &&& post.name@ == remains_name(pre.name@)
    &&& post.blocks == false
    &&& post.alive == false
    &&& post.always_visible == pre.always_visible
    &&& post.glyph == '%'
    &&& post.color == Color::DarkRed
    &&& post.level == pre.level
    &&& post.fighter is None
    &&& post.ai is None
    &&& post.item == pre.item
    &&& post.equipment == pre.equipment
}

/// The entity transform performed by `take_damage` with `damage`.
pub open spec fn take_damage_post(pre: Object, post: Object, damage: int) -> bool {
    match pre.fighter {
        None => post == pre,
        Some(f) => {
            let hp1 = hp_after_damage(f, damage);
            if hp1 <= 0 && pre.alive {
                match f.on_death {
                    DeathCallback::Player => post == (Object {
                        alive: false,
                        glyph: '%',
                        color: Color::DarkRed,
                        fighter: Some(Fighter { hp: hp1 as i32, ..f }),
                        ..pre
                    }),
                    DeathCallback::Monster => monster_remains_of(pre, post),
                }
            } else {
                post == (Object { fighter: Some(Fighter { hp: hp1 as i32, ..f }), ..pre })
            }
        },
    }
}

/// The message announcing a monster's death and its experience reward.
pub open spec fn monster_death_msg(name: Seq<char>, xp: int) -> Seq<char> {
    name + " is dead! You gain "@ + dec_int(xp) + " experience points."@
}

/// The log growth performed by `take_damage`: one death announcement when
/// the entity dies now, nothing otherwise.
pub open spec fn take_damage_log(
    pre: Object,
    damage: int,
    log0: Seq<(String, Color)>,
    log1: Seq<(String, Color)>,
) -> bool {
    if dies_from(pre, damage) {
        match pre.fighter.unwrap().on_death {
            DeathCallback::Player => log_appended(log0, log1, "You died!"@, Color::DarkRed),
            DeathCallback::Monster => log_appended(
                log0,
                log1,
                monster_death_msg(pre.name@, pre.fighter.unwrap().xp as int),
                Color::Orange,
            ),
        }
    } else {
        log1 == log0
    }
}

/// The attacker's announcement of a landed blow.
pub open spec fn attack_hit_msg(attacker: Seq<char>, target: Seq<char>, damage: int) -> Seq<
    char,
> {
    attacker + " attacks "@ + target + " for "@ + dec_int(damage) + " hit points."@
}

/// The attacker's announcement of a blow without effect.
pub open spec fn attack_miss_msg(attacker: Seq<char>, target: Seq<char>) -> Seq<char> {
    attacker + " attacks "@ + target + " but it has no effect!"@
}

/// Builds the landed-blow message.
fn attack_hit_message(attacker: &String, target: &String, damage: i32) -> (m: String)
    ensures
        m@ == attack_hit_msg(attacker@, target@, damage as int),
{
    let mut m = attacker.clone();
    m.append(" attacks ");
    m.append(target.as_str());
    m.append(" for ");
    let digits = i32_to_string(damage);
    m.append(digits.as_str());
    m.append(" hit points.");
    m
}

/// Builds the no-effect message.
fn attack_miss_message(attacker: &String, target: &String) -> (m: String)
    ensures
        m@ == attack_miss_msg(attacker@, target@),
{
    let mut m = attacker.clone();
    m.append(" attacks ");
    m.append(target.as_str());
    m.append(" but it has no effect!");
    m
}

/// Builds the monster death announcement.
fn monster_death_message(name: &String, xp: i32) -> (m: String)
    ensures
        m@ == monster_death_msg(name@, xp as int),
{
    let mut m = name.clone();
    m.append(" is dead! You gain ");
    let digits = i32_to_string(xp);
    m.append(digits.as_str());
    m.append(" experience points.");
    m
}

/// Death of the player: the glyph becomes a corpse marker; stats stay.
fn player_death(player: &mut Object, game: &mut Game)
    ensures
        *final(player) == (Object {
            glyph: '%',
            color: Color::DarkRed,
            ..*old(player)
        }),
        same_but_log(*old(game), *final(game)),
        log_appended(old(game).log@, final(game).log@, "You died!"@, Color::DarkRed),
{
    game.log.add("You died!".to_owned(), Color::DarkRed);
    player.glyph = '%';
    player.color = Color::DarkRed;
}

/// Death of a monster: announce the kill, then convert the entity in place
/// into non-blocking remains with no fighter and no decision state.
fn monster_death(monster: &mut Object, game: &mut Game)
    requires
        old(monster).fighter is Some,
        old(monster).alive == false,
    ensures
        monster_remains_of(*old(monster), *final(monster)),
        same_but_log(*old(game), *final(game)),
        log_appended(
            old(game).log@,
            final(game).log@,
            monster_death_msg(old(monster).name@, old(monster).fighter.unwrap().xp as int),
            Color::Orange,
        ),
{
    let xp = match &monster.fighter {
        Some(f) => f.xp,
        None => 0,
    };
    let msg = monster_death_message(&monster.name, xp);
    game.log.add(msg, Color::Orange);
    monster.glyph = '%';
    monster.color = Color::DarkRed;
    monster.blocks = false;
    monster.fighter = None;
    monster.ai = None;
    let mut remains: String = "remains of ".to_owned();
    remains.append(monster.name.as_str());
    monster.name = remains;
}

impl DeathCallback {
    /// Dispatches to exactly one of the two fixed death procedures.
    pub fn callback(self, object: &mut Object, game: &mut Game)
        requires
            old(object).fighter is Some,
            old(object).alive == false,
        ensures
            same_but_log(*old(game), *final(game)),
            self is Player ==> *final(object) == (Object {
                glyph: '%',
                color: Color::DarkRed,
                ..*old(object)
            }) && log_appended(old(game).log@, final(game).log@, "You died!"@, Color::DarkRed),
            self is Monster ==> monster_remains_of(*old(object), *final(object)) && log_appended(
                old(game).log@,
                final(game).log@,
                monster_death_msg(old(object).name@, old(object).fighter.unwrap().xp as int),
                Color::Orange,
            ),
    {
        match self {
            DeathCallback::Player => player_death(object, game),
            DeathCallback::Monster => monster_death(object, game),
        }
    }
}

impl Object {
    /// Applies `damage` to this entity's fighter, fires the death procedure
    /// exactly once if hit points drop to or below zero, and returns the
    /// experience to credit the killer with.  An already-fallen fighter is
    /// inert: its hit points stay frozen (see `hp_after_damage`), so death
    /// can never fire twice and the `HP_MIN` bound holds over any number of
    /// blows.
    pub fn take_damage(&mut self, damage: i32, game: &mut Game) -> (xp: Option<i32>)
        requires
            old(self).wf(),
            old(game).wf(),
            damage <= EFFECTIVE_STAT_MAX,
        ensures
            final(self).wf(),
            final(game).wf(),
            same_but_log(*old(game), *final(game)),
            take_damage_post(*old(self), *final(self), damage as int),
            take_damage_log(*old(self), damage as int, old(game).log@, final(game).log@),
            xp == (if dies_from(*old(self), damage as int) {
                Some(old(self).fighter.unwrap().xp)
            } else {
                Option::<i32>::None
            }),
    {
        match &mut self.fighter {
            Some(f) => {
                if damage > 0 && f.hp > 0 {
                    f.hp = f.hp - damage;
                }
            },
            None => {},
        }
        match self.fighter {
            Some(fighter) => {
                if fighter.hp <= 0 && self.alive {
                    self.alive = false;
                    fighter.on_death.callback(self, game);
                    return Some(fighter.xp);
                }
            },
            None => {},
        }
        None
    }

    /// Resolves one melee blow against `target`: positive damage is applied
    /// through `take_damage` and a kill credits the victim's experience to
    /// this attacker; otherwise a no-effect message is logged and nothing
    /// changes.
    pub fn attack(&mut self, target: &mut Object, game: &mut Game)
        requires
            old(self).wf(),
            old(target).wf(),
            old(game).wf(),
            old(self).fighter is Some,
            old(self).fighter.unwrap().xp + xp_of(*old(target)) <= XP_MAX,
        ensures
            final(self).wf(),
            final(target).wf(),
            final(game).wf(),
            same_but_log(*old(game), *final(game)),
            attack_outcome(
                *old(self),
                *old(target),
                old(game).inventory@,
                *final(self),
                *final(target),
            ),
            attack_log(
                *old(self),
                *old(target),
                old(game).inventory@,
                old(game).log@,
                final(game).log@,
            ),
    {
        let damage = self.power(game) - target.defense(game);
        if damage > 0 {
            let msg = attack_hit_message(&self.name, &target.name, damage);
            game.log.add(msg, Color::DesaturatedFuchsia);
            match target.take_damage(damage, game) {
                Some(xp) => {
                    match &mut self.fighter {
                        Some(f) => {
                            f.xp = f.xp + xp;
                        },
                        None => {},
                    }
                },
                None => {},
            }
        } else {
            let msg = attack_miss_message(&self.name, &target.name);
            game.log.add(msg, Color::DesaturatedFuchsia);
        }
    }

    /// Restores `amount` hit points, never beyond the effective maximum.
    pub fn heal(&mut self, amount: i32, game: &Game)
        requires
            old(self).wf(),
            game.wf(),
            0 <= amount <= EFFECTIVE_STAT_MAX,
        ensures
            final(self).wf(),
            match old(self).fighter {
                None => *final(self) == *old(self),
                Some(f) => {
                    let maxhp = max_hp_of(*old(self), game.inventory@);
                    let healed = if f.hp + amount > maxhp {
                        maxhp
                    } else {
                        f.hp + amount
                    };
                    *final(self) == (Object {
                        fighter: Some(Fighter { hp: healed as i32, ..f }),
                        ..*old(self)
                    })
                },
            },
    {
        let maxhp = self.max_hp(game);
        match &mut self.fighter {
            Some(f) => {
                if f.hp > maxhp - amount {
                    f.hp = maxhp;
                } else {
                    f.hp = f.hp + amount;
                }
            },
            None => {},
        }
    }
}

/// The remains of a monster can never take the player's name: the rewritten
/// name is always longer.
pub proof fn lemma_remains_not_player(n: Seq<char>)
    ensures
        remains_name(n) != "player"@,
{
    reveal_strlit("remains of ");
    reveal_strlit("player");
    assert(remains_name(n).len() >= 11);
}

/// The entity transform performed by `attack`: with positive damage the
/// target is wounded as `take_damage` describes and a kill transfers its
/// experience to the attacker; otherwise neither entity changes.
pub open spec fn attack_outcome(
    pre_a: Object,
    pre_t: Object,
    inv: Seq<Object>,
    post_a: Object,
    post_t: Object,
) -> bool {
    let damage = power_of(pre_a, inv) - defense_of(pre_t, inv);
    if damage > 0 {
        &&& take_damage_post(pre_t, post_t, damage)
        &&& post_a == (if dies_from(pre_t, damage) {
            Object {
                fighter: Some(
                    Fighter {
                        xp: (pre_a.fighter.unwrap().xp + xp_of(pre_t)) as i32,
                        ..pre_a.fighter.unwrap()
                    },
                ),
                ..pre_a
            }
        } else {
            pre_a
        })
    } else {
        post_a == pre_a && post_t == pre_t
    }
}

/// The log growth performed by `attack`: a hit line plus a death
/// announcement for a kill, a hit line alone for a plain wound, a no-effect
/// line for the rest.
pub open spec fn attack_log(
    pre_a: Object,
    pre_t: Object,
    inv: Seq<Object>,
    log0: Seq<(String, Color)>,
    log1: Seq<(String, Color)>,
) -> bool {
    let damage = power_of(pre_a, inv) - defense_of(pre_t, inv);
    if damage > 0 {
        if dies_from(pre_t, damage) {
            match pre_t.fighter.unwrap().on_death {
                DeathCallback::Player => log_appended2(
                    log0,
                    log1,
                    attack_hit_msg(pre_a.name@, pre_t.name@, damage),
                    Color::DesaturatedFuchsia,
                    "You died!"@,
                    Color::DarkRed,
                ),
                DeathCallback::Monster => log_appended2(
                    log0,
                    log1,
                    attack_hit_msg(pre_a.name@, pre_t.name@, damage),
                    Color::DesaturatedFuchsia,
                    monster_death_msg(pre_t.name@, pre_t.fighter.unwrap().xp as int),
                    Color::Orange,
                ),
            }
        } else {
            log_appended(
                log0,
                log1,
                attack_hit_msg(pre_a.name@, pre_t.name@, damage),
                Color::DesaturatedFuchsia,
            )
        }
    } else {
        log_appended(log0, log1, attack_miss_msg(pre_a.name@, pre_t.name@), Color::DesaturatedFuchsia)
    }
}

} // verus!
