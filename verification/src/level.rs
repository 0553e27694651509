//! Character progression: experience thresholds and the level-up choice.
//!
//! A level-up becomes available once accumulated experience reaches
//! `LEVEL_UP_BASE + level · LEVEL_UP_FACTOR`.  On trigger that threshold is
//! subtracted from the experience — surplus carries forward — the level
//! rises by one, and exactly one of three permanent base-stat increases is
//! applied.

use vstd::prelude::*;
use vstd::string::StringExecFns;

use crate::color::Color;
use crate::constants::{HP_MAX, LEVEL_UP_BASE, LEVEL_UP_FACTOR, PLAYER, STAT_MAX};
use crate::game::{same_but_log, Game};
use crate::log::{log_appended, MessageLog};
use crate::objects::{store_wf, Fighter, Object, LEVEL_MAX};
use crate::text::{dec_int, i32_to_string};

verus! {

/// Experience required to rise past `level`.
pub open spec fn spec_level_up_xp(level: int) -> int {
    LEVEL_UP_BASE + level * LEVEL_UP_FACTOR
}

/// Computes the experience threshold for `level`.
pub fn level_up_xp(level: i32) -> (xp: i32)
    requires
        1 <= level <= LEVEL_MAX,
    ensures
        xp == spec_level_up_xp(level as int),
{
    proof {
        assert(level * LEVEL_UP_FACTOR <= LEVEL_MAX * LEVEL_UP_FACTOR && 0 <= level
            * LEVEL_UP_FACTOR) by (nonlinear_arith)
            requires
                1 <= level <= LEVEL_MAX,
        ;
    }
    LEVEL_UP_BASE + level * LEVEL_UP_FACTOR
}

/// True when the player has banked enough experience to level up.
pub open spec fn spec_level_up_pending(player: Object) -> bool {
    match player.fighter {
        Some(f) => f.xp >= spec_level_up_xp(player.level as int),
        None => false,
    }
}

/// Tests whether a level-up is available for the player.
pub fn level_up_pending(player: &Object) -> (r: bool)
    requires
        player.wf(),
    ensures
        r == spec_level_up_pending(*player),
{
    match &player.fighter {
        Some(f) => f.xp >= level_up_xp(player.level),
        None => false,
    }
}

/// The three permanent base-stat increases a level-up offers.
#[derive(Clone, Copy, Debug, PartialEq, Eq, Structural)]
pub enum LevelUpChoice {
    Constitution,
    Strength,
    Agility,
}

/// The level-up announcement.
pub open spec fn level_up_msg(new_level: int) -> Seq<char> {
    "Your battle skills grow stronger! You reached level "@ + dec_int(new_level) + "!"@
}

/// The player after one level-up with `choice`: the threshold is deducted
/// from its experience (surplus kept), the level rises by one, and exactly
/// one stat branch applies.
pub open spec fn leveled_up(player: Object, choice: LevelUpChoice) -> Object {
    let f = player.fighter.unwrap();
    let threshold = spec_level_up_xp(player.level as int);
    let f1 = Fighter { xp: (f.xp - threshold) as i32, ..f };
    let f2 = match choice {
        LevelUpChoice::Constitution => Fighter {
            base_max_hp: (f1.base_max_hp + 20) as i32,
            hp: (f1.hp + 20) as i32,
            ..f1
        },
        LevelUpChoice::Strength => Fighter { base_power: (f1.base_power + 1) as i32, ..f1 },
        LevelUpChoice::Agility => Fighter { base_defense: (f1.base_defense + 1) as i32, ..f1 },
    };
    Object { level: (player.level + 1) as i32, fighter: Some(f2), ..player }
}

/// Applies one level-up with the chosen stat increase to the player:
/// the threshold amount is subtracted from its experience (not zeroed),
/// the level rises by exactly one, and exactly one branch applies.
pub fn apply_level_up(objects: &mut Vec<Object>, game: &mut Game, choice: LevelUpChoice)
    requires
        old(game).wf(),
        store_wf(old(objects)@),
        spec_level_up_pending(old(objects)@[0]),
        old(objects)@[0].level < LEVEL_MAX,
        old(objects)@[0].fighter.unwrap().base_max_hp <= STAT_MAX - 20,
        old(objects)@[0].fighter.unwrap().hp <= HP_MAX - 20,
        old(objects)@[0].fighter.unwrap().base_power <= STAT_MAX - 1,
        old(objects)@[0].fighter.unwrap().base_defense <= STAT_MAX - 1,
    ensures
        final(game).wf(),
        store_wf(final(objects)@),
        final(objects)@ == old(objects)@.update(0, leveled_up(old(objects)@[0], choice)),
        same_but_log(*old(game), *final(game)),
        log_appended(
            old(game).log@,
            final(game).log@,
            level_up_msg(old(objects)@[0].level + 1),
            Color::Yellow,
        ),
{
    proof {
        let lv = old(objects)@[0].level as int;
        assert(1 * LEVEL_UP_FACTOR <= lv * LEVEL_UP_FACTOR) by (nonlinear_arith)
            requires
                1 <= lv,
        ;
    }
    let new_level = objects[PLAYER].level + 1;
    let mut m: String = "Your battle skills grow stronger! You reached level ".to_owned();
    let digits = i32_to_string(new_level);
    m.append(digits.as_str());
    m.append("!");
    game.log.add(m, Color::Yellow);
    let threshold = level_up_xp(objects[PLAYER].level);
    let mut player = objects.remove(PLAYER);
    player.level = new_level;
    match &mut player.fighter {
        Some(f) => {
            f.xp = f.xp - threshold;
            match choice {
                LevelUpChoice::Constitution => {
                    f.base_max_hp = f.base_max_hp + 20;
                    f.hp = f.hp + 20;
                },
                LevelUpChoice::Strength => {
                    f.base_power = f.base_power + 1;
                },
                LevelUpChoice::Agility => {
                    f.base_defense = f.base_defense + 1;
                },
            }
        },
        None => {},
    }
    objects.insert(PLAYER, player);
    proof {
        assert(objects@ =~= old(objects)@.update(0, objects@[0]));
    }
}

} // verus!
