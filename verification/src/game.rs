//! The persistent session state and the effective-stat computation.
//!
//! An entity's effective stats are its fighter's base values plus the bonuses
//! of every equipped piece in the *player's* inventory — and only for the
//! entity named "player": non-player entities never receive equipment
//! bonuses.

use vstd::prelude::*;

use crate::constants::{EFFECTIVE_STAT_MAX, INVENTORY_CAPACITY, STAT_MAX};
use crate::log::Messages;
use crate::objects::{is_equipped, is_player_name, slot_exclusive, Equipment, Object};
use crate::tile::{map_view, map_wf, DungeonMap};

verus! {

/// Everything a session must keep besides the entity store: the map, the
/// message log, the player's inventory and the current dungeon depth.
#[derive(Debug)]
pub struct Game {
    pub map: DungeonMap,
    pub log: Messages,
    pub inventory: Vec<Object>,
    pub dungeon_level: u32,
}

impl Game {
    /// The map has the standard dimensions, the inventory respects its
    /// capacity, every carried object is well-formed, and no slot holds two
    /// equipped pieces.
    pub open spec fn wf(self) -> bool {
        &&& map_wf(map_view(&self.map))
        &&& self.inventory@.len() <= INVENTORY_CAPACITY
        &&& forall|i: int|
            0 <= i < self.inventory@.len() ==> (#[trigger] self.inventory@[i]).wf()
        &&& slot_exclusive(self.inventory@)
        &&& forall|i: int|
            0 <= i < self.inventory@.len() && is_equipped(#[trigger] self.inventory@[i])
                ==> self.inventory@[i].item is Some
        &&& forall|i: int|
            0 <= i < self.inventory@.len() ==> !is_player_name(#[trigger] self.inventory@[i])
    }
}

/// Two game states that agree on everything except the message log.
pub open spec fn same_but_log(g1: Game, g2: Game) -> bool {
    &&& g2.map == g1.map
    &&& g2.inventory == g1.inventory
    &&& g2.dungeon_level == g1.dungeon_level
}

/// The equipped pieces of an inventory, in inventory order.
pub open spec fn equipped_seq(inv: Seq<Object>) -> Seq<Equipment>
    decreases inv.len(),
{
    if inv.len() == 0 {
        Seq::empty()
    } else {
        let rest = equipped_seq(inv.drop_last());
        match inv.last().equipment {
            Some(e) => if e.equipped {
                rest.push(e)
            } else {
                rest
            },
            None => rest,
        }
    }
}

/// Total power bonus of a list of equipment pieces.
pub open spec fn sum_power(es: Seq<Equipment>) -> int
    decreases es.len(),
{
    if es.len() == 0 {
        0
    } else {
        sum_power(es.drop_last()) + es.last().power_bonus
    }
}

/// Total defense bonus of a list of equipment pieces.
pub open spec fn sum_defense(es: Seq<Equipment>) -> int
    decreases es.len(),
{
    if es.len() == 0 {
        0
    } else {
        sum_defense(es.drop_last()) + es.last().defense_bonus
    }
}

/// Total max-hp bonus of a list of equipment pieces.
pub open spec fn sum_max_hp(es: Seq<Equipment>) -> int
    decreases es.len(),
{
    if es.len() == 0 {
        0
    } else {
        sum_max_hp(es.drop_last()) + es.last().max_hp_bonus
    }
}

/// The bonuses an entity draws from the inventory: the equipped pieces for
/// the player, nothing for anyone else.
pub open spec fn bonus_sources(o: Object, inv: Seq<Object>) -> Seq<Equipment> {
    if is_player_name(o) {
        equipped_seq(inv)
    } else {
        Seq::empty()
    }
}

/// Effective maximum hit points: base plus equipped bonuses.
pub open spec fn max_hp_of(o: Object, inv: Seq<Object>) -> int {
    (match o.fighter {
        Some(f) => f.base_max_hp as int,
        None => 0,
    }) + sum_max_hp(bonus_sources(o, inv))
}

/// Effective attack power: base plus equipped bonuses.
pub open spec fn power_of(o: Object, inv: Seq<Object>) -> int {
    (match o.fighter {
        Some(f) => f.base_power as int,
        None => 0,
    }) + sum_power(bonus_sources(o, inv))
}

/// Effective defense: base plus equipped bonuses.
pub open spec fn defense_of(o: Object, inv: Seq<Object>) -> int {
    (match o.fighter {
        Some(f) => f.base_defense as int,
        None => 0,
    }) + sum_defense(bonus_sources(o, inv))
}

/// Every equipped piece of a well-formed inventory is well-formed, so the
/// three bonus sums lie between 0 and one `STAT_MAX` per inventory entry.
pub proof fn lemma_bonus_sums_bounded(inv: Seq<Object>)
    requires
        forall|i: int| 0 <= i < inv.len() ==> (#[trigger] inv[i]).wf(),
    ensures
        0 <= sum_power(equipped_seq(inv)) <= inv.len() * STAT_MAX,
        0 <= sum_defense(equipped_seq(inv)) <= inv.len() * STAT_MAX,
        0 <= sum_max_hp(equipped_seq(inv)) <= inv.len() * STAT_MAX,
        forall|k: int|
            0 <= k < equipped_seq(inv).len() ==> (#[trigger] equipped_seq(inv)[k]).wf(),
        equipped_seq(inv).len() <= inv.len(),
    decreases inv.len(),
{
    if inv.len() == 0 {
    } else {
        let prefix = inv.drop_last();
        assert(forall|i: int| 0 <= i < prefix.len() ==> (#[trigger] prefix[i]).wf());
        lemma_bonus_sums_bounded(prefix);
        assert(inv.last() == inv[inv.len() - 1]);
        assert(inv.last().wf());
        let n = inv.len() as int;
        assert((n - 1) * (STAT_MAX as int) + (STAT_MAX as int) == n * (STAT_MAX as int))
            by (nonlinear_arith);
        assert(0 <= (n - 1) * (STAT_MAX as int)) by (nonlinear_arith)
            requires
                n >= 1,
        ;
        let rest = equipped_seq(prefix);
        match inv.last().equipment {
            Some(e) => {
                if e.equipped {
                    assert(equipped_seq(inv) == rest.push(e));
                    assert(rest.push(e).drop_last() =~= rest);
                    assert(rest.push(e).last() == e);
                    assert(forall|k: int|
                        0 <= k < rest.push(e).len() ==> #[trigger] rest.push(e)[k] == (if k
                            < rest.len() {
                            rest[k]
                        } else {
                            e
                        }));
                } else {
                    assert(equipped_seq(inv) == rest);
                }
            },
            None => {
                assert(equipped_seq(inv) == rest);
            },
        }
    }
}

impl Object {
    /// The equipped pieces this entity benefits from: the player's equipped
    /// inventory for the player, nothing for anyone else.
    pub fn get_all_equipped(&self, game: &Game) -> (es: Vec<Equipment>)
        ensures
            es@ == bonus_sources(*self, game.inventory@),
    {
        let player_name: String = "player".to_owned();
        if self.name == player_name {
            let mut es: Vec<Equipment> = Vec::new();
            let mut i: usize = 0;
            while i < game.inventory.len()
                invariant
                    i <= game.inventory@.len(),
                    es@ == equipped_seq(game.inventory@.take(i as int)),
                decreases game.inventory@.len() - i,
            {
                let ghost prefix = game.inventory@.take(i as int);
                proof {
                    assert(game.inventory@.take(i + 1).drop_last() =~= prefix);
                    assert(game.inventory@.take(i + 1).last() == game.inventory@[i as int]);
                }
                match &game.inventory[i].equipment {
                    Some(e) => {
                        if e.equipped {
                            es.push(*e);
                        }
                    },
                    None => {},
                }
                i = i + 1;
            }
            proof {
                assert(game.inventory@.take(game.inventory@.len() as int) =~= game.inventory@);
            }
            es
        } else {
            Vec::new()
        }
    }

    /// Effective maximum hit points (0 for entities with no fighter and no
    /// bonuses).
    pub fn max_hp(&self, game: &Game) -> (hp: i32)
        requires
            game.wf(),
            match self.fighter {
                Some(f) => f.wf(),
                None => true,
            },
        ensures
            hp == max_hp_of(*self, game.inventory@),
            0 <= hp <= EFFECTIVE_STAT_MAX,
    {
        let base = match &self.fighter {
            Some(f) => f.base_max_hp,
            None => 0,
        };
        proof {
            lemma_bonus_sums_bounded(game.inventory@);
            assert(game.inventory@.len() * STAT_MAX <= 26 * STAT_MAX) by (nonlinear_arith)
                requires
                    game.inventory@.len() <= 26,
            ;
        }
        let es = self.get_all_equipped(game);
        let mut bonus: i32 = 0;
        let mut i: usize = 0;
        while i < es.len()
            invariant
                i <= es@.len(),
                bonus == sum_max_hp(es@.take(i as int)),
                es@ == bonus_sources(*self, game.inventory@),
                0 <= sum_max_hp(es@) <= 26 * STAT_MAX,
                forall|k: int| 0 <= k < es@.len() ==> (#[trigger] es@[k]).wf(),
                es@.len() <= 26,
                0 <= bonus <= 26 * STAT_MAX,
            decreases es@.len() - i,
        {
            proof {
                assert(es@.take(i + 1).drop_last() =~= es@.take(i as int));
                lemma_sum_max_hp_prefix_bound(es@, i + 1);
                assert((i + 1) * (STAT_MAX as int) <= 26 * (STAT_MAX as int)) by (nonlinear_arith)
                    requires
                        0 <= i,
                        i + 1 <= 26,
                ;
            }
            bonus = bonus + es[i].max_hp_bonus;
            i = i + 1;
        }
        proof {
            assert(es@.take(es@.len() as int) =~= es@);
        }
        base + bonus
    }

    /// Effective attack power.
    pub fn power(&self, game: &Game) -> (p: i32)
        requires
            game.wf(),
            match self.fighter {
                Some(f) => f.wf(),
                None => true,
            },
        ensures
            p == power_of(*self, game.inventory@),
            0 <= p <= EFFECTIVE_STAT_MAX,
    {
        let base = match &self.fighter {
            Some(f) => f.base_power,
            None => 0,
        };
        proof {
            lemma_bonus_sums_bounded(game.inventory@);
            assert(game.inventory@.len() * STAT_MAX <= 26 * STAT_MAX) by (nonlinear_arith)
                requires
                    game.inventory@.len() <= 26,
            ;
        }
        let es = self.get_all_equipped(game);
        let mut bonus: i32 = 0;
        let mut i: usize = 0;
        while i < es.len()
            invariant
                i <= es@.len(),
                bonus == sum_power(es@.take(i as int)),
                es@ == bonus_sources(*self, game.inventory@),
                0 <= sum_power(es@) <= 26 * STAT_MAX,
                forall|k: int| 0 <= k < es@.len() ==> (#[trigger] es@[k]).wf(),
                es@.len() <= 26,
                0 <= bonus <= 26 * STAT_MAX,
            decreases es@.len() - i,
        {
            proof {
                assert(es@.take(i + 1).drop_last() =~= es@.take(i as int));
                lemma_sum_power_prefix_bound(es@, i + 1);
                assert((i + 1) * (STAT_MAX as int) <= 26 * (STAT_MAX as int)) by (nonlinear_arith)
                    requires
                        0 <= i,
                        i + 1 <= 26,
                ;
            }
            bonus = bonus + es[i].power_bonus;
            i = i + 1;
        }
        proof {
            assert(es@.take(es@.len() as int) =~= es@);
        }
        base + bonus
    }

    /// Effective defense.
    pub fn defense(&self, game: &Game) -> (d: i32)
        requires
            game.wf(),
            match self.fighter {
                Some(f) => f.wf(),
                None => true,
            },
        ensures
            d == defense_of(*self, game.inventory@),
            0 <= d <= EFFECTIVE_STAT_MAX,
    {
        let base = match &self.fighter {
            Some(f) => f.base_defense,
            None => 0,
        };
        proof {
            lemma_bonus_sums_bounded(game.inventory@);
            assert(game.inventory@.len() * STAT_MAX <= 26 * STAT_MAX) by (nonlinear_arith)
                requires
                    game.inventory@.len() <= 26,
            ;
        }
        let es = self.get_all_equipped(game);
        let mut bonus: i32 = 0;
        let mut i: usize = 0;
        while i < es.len()
            invariant
                i <= es@.len(),
                bonus == sum_defense(es@.take(i as int)),
                es@ == bonus_sources(*self, game.inventory@),
                0 <= sum_defense(es@) <= 26 * STAT_MAX,
                forall|k: int| 0 <= k < es@.len() ==> (#[trigger] es@[k]).wf(),
                es@.len() <= 26,
                0 <= bonus <= 26 * STAT_MAX,
            decreases es@.len() - i,
        {
            proof {
                assert(es@.take(i + 1).drop_last() =~= es@.take(i as int));
                lemma_sum_defense_prefix_bound(es@, i + 1);
                assert((i + 1) * (STAT_MAX as int) <= 26 * (STAT_MAX as int)) by (nonlinear_arith)
                    requires
                        0 <= i,
                        i + 1 <= 26,
                ;
            }
            bonus = bonus + es[i].defense_bonus;
            i = i + 1;
        }
        proof {
            assert(es@.take(es@.len() as int) =~= es@);
        }
        base + bonus
    }
}

/// A prefix sum of well-formed pieces stays between 0 and one `STAT_MAX` per
/// element.
pub proof fn lemma_sum_power_prefix_bound(es: Seq<Equipment>, n: int)
    requires
        0 <= n <= es.len(),
        forall|k: int| 0 <= k < es.len() ==> (#[trigger] es[k]).wf(),
    ensures
        0 <= sum_power(es.take(n)) <= n * STAT_MAX,
    decreases n,
{
    if n == 0 {
        assert(es.take(0).len() == 0);
    } else {
        lemma_sum_power_prefix_bound(es, n - 1);
        assert(es.take(n).drop_last() =~= es.take(n - 1));
        assert(es.take(n).last() == es[n - 1]);
        assert((n - 1) * STAT_MAX + STAT_MAX == n * STAT_MAX) by (nonlinear_arith);
    }
}

/// A prefix sum of well-formed pieces stays between 0 and one `STAT_MAX` per
/// element.
pub proof fn lemma_sum_defense_prefix_bound(es: Seq<Equipment>, n: int)
    requires
        0 <= n <= es.len(),
        forall|k: int| 0 <= k < es.len() ==> (#[trigger] es[k]).wf(),
    ensures
        0 <= sum_defense(es.take(n)) <= n * STAT_MAX,
    decreases n,
{
    if n == 0 {
        assert(es.take(0).len() == 0);
    } else {
        lemma_sum_defense_prefix_bound(es, n - 1);
        assert(es.take(n).drop_last() =~= es.take(n - 1));
        assert(es.take(n).last() == es[n - 1]);
        assert((n - 1) * STAT_MAX + STAT_MAX == n * STAT_MAX) by (nonlinear_arith);
    }
}

/// A prefix sum of well-formed pieces stays between 0 and one `STAT_MAX` per
/// element.
pub proof fn lemma_sum_max_hp_prefix_bound(es: Seq<Equipment>, n: int)
    requires
        0 <= n <= es.len(),
        forall|k: int| 0 <= k < es.len() ==> (#[trigger] es[k]).wf(),
    ensures
        0 <= sum_max_hp(es.take(n)) <= n * STAT_MAX,
    decreases n,
{
    if n == 0 {
        assert(es.take(0).len() == 0);
    } else {
        lemma_sum_max_hp_prefix_bound(es, n - 1);
        assert(es.take(n).drop_last() =~= es.take(n - 1));
        assert(es.take(n).last() == es[n - 1]);
        assert((n - 1) * STAT_MAX + STAT_MAX == n * STAT_MAX) by (nonlinear_arith);
    }
}

} // verus!
