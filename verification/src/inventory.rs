//! Inventory management: picking items up, dropping them, and the
//! equip/dequip pair with its slot-exclusivity discipline.
//!
//! `equip` itself does not enforce exclusivity; callers serialize
//! dequip-old-then-equip-new, and the inventory invariant (`slot_exclusive`)
//! records that no slot ever holds two equipped pieces.

use vstd::prelude::*;
use vstd::string::StringExecFns;

use crate::color::Color;
use crate::constants::{INVENTORY_CAPACITY, PLAYER};
use crate::game::{same_but_log, Game};
use crate::log::{log_appended, log_appended2, MessageLog, Messages};
use crate::objects::{
    is_equipped, is_equipped_in, slot_exclusive, slot_name, store_wf, Equipment, Object, Slot,
};

verus! {

/// Rejection logged when an inventory at capacity cannot take an item.
pub open spec fn inventory_full_msg(name: Seq<char>) -> Seq<char> {
    "Your inventory is full, cannot pick up "@ + name + "."@
}

/// Announcement of a successful pickup.
pub open spec fn picked_up_msg(name: Seq<char>) -> Seq<char> {
    "You picked up a "@ + name + "!"@
}

/// Announcement of a successful equip.
pub open spec fn equipped_msg(name: Seq<char>, s: Slot) -> Seq<char> {
    "Equipped "@ + name + " on "@ + slot_name(s) + "."@
}

/// Announcement of a successful dequip.
pub open spec fn dequipped_msg(name: Seq<char>, s: Slot) -> Seq<char> {
    "Dequipped "@ + name + " from "@ + slot_name(s) + "."@
}

/// Rejection logged when equipping something that is not an item.
pub open spec fn cant_equip_not_item_msg(name: Seq<char>) -> Seq<char> {
    "Can't equip "@ + name + " because it's not an Item."@
}

/// Rejection logged when equipping an item with no equipment payload.
pub open spec fn cant_equip_not_equipment_msg(name: Seq<char>) -> Seq<char> {
    "Can't equip "@ + name + " because it's not an Equipment."@
}

/// Rejection logged when dequipping something that is not an item.
pub open spec fn cant_dequip_not_item_msg(name: Seq<char>) -> Seq<char> {
    "Can't dequip "@ + name + " because it's not an Item."@
}

/// Rejection logged when dequipping an item with no equipment payload.
pub open spec fn cant_dequip_not_equipment_msg(name: Seq<char>) -> Seq<char> {
    "Can't dequip "@ + name + " because it's not an Equipment."@
}

/// Announcement of a drop.
pub open spec fn dropped_msg(name: Seq<char>) -> Seq<char> {
    "You dropped a "@ + name + "."@
}

/// The entity-and-log transform performed by `equip`: a missing item tag or
/// equipment payload is rejected with a message; an unequipped piece becomes
/// equipped with a message; an already-equipped piece is left alone
/// silently.
pub open spec fn equip_post(
    pre: Object,
    post: Object,
    log0: Seq<(String, Color)>,
    log1: Seq<(String, Color)>,
) -> bool {
    if pre.item is None {
        post == pre && log_appended(log0, log1, cant_equip_not_item_msg(pre.name@), Color::Red)
    } else {
        match pre.equipment {
            Some(e) => if !e.equipped {
                &&& post == (Object {
                    equipment: Some(Equipment { equipped: true, ..e }),
                    ..pre
                })
                &&& log_appended(log0, log1, equipped_msg(pre.name@, e.slot), Color::LightGreen)
            } else {
                post == pre && log1 == log0
            },
            None => post == pre && log_appended(
                log0,
                log1,
                cant_equip_not_equipment_msg(pre.name@),
                Color::Red,
            ),
        }
    }
}

/// The entity-and-log transform performed by `dequip`, mirroring
/// `equip_post`.
pub open spec fn dequip_post(
    pre: Object,
    post: Object,
    log0: Seq<(String, Color)>,
    log1: Seq<(String, Color)>,
) -> bool {
    if pre.item is None {
        post == pre && log_appended(log0, log1, cant_dequip_not_item_msg(pre.name@), Color::Red)
    } else {
        match pre.equipment {
            Some(e) => if e.equipped {
                &&& post == (Object {
                    equipment: Some(Equipment { equipped: false, ..e }),
                    ..pre
                })
                &&& log_appended(log0, log1, dequipped_msg(pre.name@, e.slot), Color::LightYellow)
            } else {
                post == pre && log1 == log0
            },
            None => post == pre && log_appended(
                log0,
                log1,
                cant_dequip_not_equipment_msg(pre.name@),
                Color::Red,
            ),
        }
    }
}

impl Object {
    /// Marks this entity's equipment as equipped and logs it.  Fails with a
    /// message when the entity is not an item or has no equipment payload.
    /// Exclusivity is the caller's responsibility.
    pub fn equip(&mut self, log: &mut Messages)
        ensures
            equip_post(*old(self), *final(self), old(log)@, final(log)@),
    {
        if self.item.is_none() {
            let mut m: String = "Can't equip ".to_owned();
            m.append(self.name.as_str());
            m.append(" because it's not an Item.");
            log.add(m, Color::Red);
            return ;
        }
        match &mut self.equipment {
            Some(equipment) => {
                if !equipment.equipped {
                    equipment.equipped = true;
                    let slot = equipment.slot;
                    let mut m: String = "Equipped ".to_owned();
                    m.append(self.name.as_str());
                    m.append(" on ");
                    let sn = slot.describe();
                    m.append(sn.as_str());
                    m.append(".");
                    log.add(m, Color::LightGreen);
                }
            },
            None => {
                let mut m: String = "Can't equip ".to_owned();
                m.append(self.name.as_str());
                m.append(" because it's not an Equipment.");
                log.add(m, Color::Red);
            },
        }
    }

    /// Marks this entity's equipment as no longer equipped and logs it,
    /// mirroring `equip`.
    pub fn dequip(&mut self, log: &mut Messages)
        ensures
            dequip_post(*old(self), *final(self), old(log)@, final(log)@),
    {
        if self.item.is_none() {
            let mut m: String = "Can't dequip ".to_owned();
            m.append(self.name.as_str());
            m.append(" because it's not an Item.");
            log.add(m, Color::Red);
            return ;
        }
        match &mut self.equipment {
            Some(equipment) => {
                if equipment.equipped {
                    equipment.equipped = false;
                    let slot = equipment.slot;
                    let mut m: String = "Dequipped ".to_owned();
                    m.append(self.name.as_str());
                    m.append(" from ");
                    let sn = slot.describe();
                    m.append(sn.as_str());
                    m.append(".");
                    log.add(m, Color::LightYellow);
                }
            },
            None => {
                let mut m: String = "Can't dequip ".to_owned();
                m.append(self.name.as_str());
                m.append(" because it's not an Equipment.");
                log.add(m, Color::Red);
            },
        }
    }
}

/// The first inventory index holding an equipped piece for `slot`, if any.
pub fn get_equipped_in_slot(slot: Slot, inventory: &Vec<Object>) -> (r: Option<usize>)
    ensures
        match r {
            Some(i) => i < inventory@.len() && is_equipped_in(inventory@[i as int], slot)
                && forall|j: int| 0 <= j < i ==> !is_equipped_in(inventory@[j], slot),
            None => forall|j: int|
                0 <= j < inventory@.len() ==> !is_equipped_in(inventory@[j], slot),
        },
{
    let mut inventory_id: usize = 0;
    while inventory_id < inventory.len()
        invariant
            inventory_id <= inventory@.len(),
            forall|j: int| 0 <= j < inventory_id ==> !is_equipped_in(inventory@[j], slot),
        decreases inventory@.len() - inventory_id,
    {
        let found = match &inventory[inventory_id].equipment {
            Some(e) => e.equipped && e.slot == slot,
            None => false,
        };
        if found {
            return Some(inventory_id);
        }
        inventory_id = inventory_id + 1;
    }
    None
}

/// The equipment option with its `equipped` flag cleared.
pub open spec fn unequipped(e: Option<Equipment>) -> Option<Equipment> {
    match e {
        Some(eq) => Some(Equipment { equipped: false, ..eq }),
        None => None,
    }
}

/// The transform performed by `pick_item_up`: a full inventory rejects the
/// pickup; otherwise the entity moves from the world store into the
/// inventory (the store's last entry takes its place) and, when it carries
/// equipment for a currently-unoccupied slot, it is auto-equipped.
pub open spec fn pick_item_up_post(
    old_objects: Seq<Object>,
    old_game: Game,
    new_objects: Seq<Object>,
    new_game: Game,
    id: int,
) -> bool {
    if old_game.inventory@.len() >= INVENTORY_CAPACITY {
        &&& new_objects == old_objects
        &&& same_but_log(old_game, new_game)
        &&& log_appended(
            old_game.log@,
            new_game.log@,
            inventory_full_msg(old_objects[id].name@),
            Color::Red,
        )
    } else {
        let item = old_objects[id];
        let inv1 = old_game.inventory@.push(item);
        &&& new_objects == old_objects.update(id, old_objects.last()).drop_last()
        &&& new_game.map == old_game.map
        &&& new_game.dungeon_level == old_game.dungeon_level
        &&& match item.equipment {
            Some(e) => if !e.equipped && (forall|k: int|
                0 <= k < inv1.len() ==> !is_equipped_in(inv1[k], e.slot)) {
                if item.item is Some {
                    &&& new_game.inventory@ == inv1.update(
                        inv1.len() - 1,
                        Object { equipment: Some(Equipment { equipped: true, ..e }), ..item },
                    )
                    &&& log_appended2(
                        old_game.log@,
                        new_game.log@,
                        picked_up_msg(item.name@),
                        Color::Green,
                        equipped_msg(item.name@, e.slot),
                        Color::LightGreen,
                    )
                } else {
                    &&& new_game.inventory@ == inv1
                    &&& log_appended2(
                        old_game.log@,
                        new_game.log@,
                        picked_up_msg(item.name@),
                        Color::Green,
                        cant_equip_not_item_msg(item.name@),
                        Color::Red,
                    )
                }
            } else {
                &&& new_game.inventory@ == inv1
                &&& log_appended(old_game.log@, new_game.log@, picked_up_msg(item.name@), Color::Green)
            },
            None => {
                &&& new_game.inventory@ == inv1
                &&& log_appended(old_game.log@, new_game.log@, picked_up_msg(item.name@), Color::Green)
            },
        }
    }
}

/// Moves the entity at `object_id` from the world store into the inventory,
/// unless the inventory is at capacity.  An equipment piece for a free slot
/// is equipped on pickup.
pub fn pick_item_up(object_id: usize, objects: &mut Vec<Object>, game: &mut Game)
    requires
        old(game).wf(),
        store_wf(old(objects)@),
        0 < object_id < old(objects)@.len(),
    ensures
        final(game).wf(),
        store_wf(final(objects)@),
        pick_item_up_post(
            old(objects)@,
            *old(game),
            final(objects)@,
            *final(game),
            object_id as int,
        ),
{
    if game.inventory.len() >= INVENTORY_CAPACITY {
        let mut m: String = "Your inventory is full, cannot pick up ".to_owned();
        m.append(objects[object_id].name.as_str());
        m.append(".");
        game.log.add(m, Color::Red);
    } else {
        let ghost old_objs = objects@;
        let item = objects.swap_remove(object_id);
        proof {
            assert(store_wf(objects@)) by {
                assert(forall|i: int|
                    0 <= i < objects@.len() ==> objects@[i] == old_objs.update(
                        object_id as int,
                        old_objs.last(),
                    ).drop_last()[i]);
                assert(forall|i: int| 0 <= i < objects@.len() ==> (#[trigger] objects@[i]).wf());
            }
        }
        let mut m: String = "You picked up a ".to_owned();
        m.append(item.name.as_str());
        m.append("!");
        game.log.add(m, Color::Green);
        let slot_opt = match &item.equipment {
            Some(e) => Some(e.slot),
            None => None,
        };
        let ghost inv1 = game.inventory@.push(item);
        game.inventory.push(item);
        proof {
            assert(slot_exclusive(game.inventory@)) by {
                assert(!is_equipped(old_objs[object_id as int]));
                assert(forall|s: Slot| !is_equipped_in(game.inventory@.last(), s));
            }
        }
        match slot_opt {
            Some(slot) => {
                match get_equipped_in_slot(slot, &game.inventory) {
                    Some(_) => {},
                    None => {
                        match game.inventory.pop() {
                            Some(mut it) => {
                                it.equip(&mut game.log);
                                let ghost itg = it;
                                game.inventory.push(it);
                                proof {
                                    assert(game.inventory@ =~= inv1.update(
                                        inv1.len() - 1,
                                        itg,
                                    ));
                                    if itg == inv1.last() {
                                        assert(inv1.update(inv1.len() - 1, inv1.last())
                                            =~= inv1);
                                    }
                                }
                            },
                            None => {},
                        }
                    },
                }
            },
            None => {},
        }
    }
}

/// The transform performed by `drop_item`: the item leaves the inventory
/// (dequipped first when it was equipped), lands on the player's tile, and
/// rejoins the world store at the end.
pub open spec fn drop_item_post(
    old_game: Game,
    old_objects: Seq<Object>,
    new_game: Game,
    new_objects: Seq<Object>,
    id: int,
) -> bool {
    let item = old_game.inventory@[id];
    let landed = Object {
        x: old_objects[0].x,
        y: old_objects[0].y,
        equipment: unequipped(item.equipment),
        ..item
    };
    &&& new_game.inventory@ == old_game.inventory@.remove(id)
    &&& new_game.map == old_game.map
    &&& new_game.dungeon_level == old_game.dungeon_level
    &&& new_objects == old_objects.push(landed)
    &&& if is_equipped(item) {
        log_appended2(
            old_game.log@,
            new_game.log@,
            dequipped_msg(item.name@, item.equipment.unwrap().slot),
            Color::LightYellow,
            dropped_msg(item.name@),
            Color::Yellow,
        )
    } else {
        log_appended(old_game.log@, new_game.log@, dropped_msg(item.name@), Color::Yellow)
    }
}

/// Moves the item at `inventory_id` out of the inventory and back into the
/// world at the player's feet, dequipping it first if it was equipped.
pub fn drop_item(inventory_id: usize, game: &mut Game, objects: &mut Vec<Object>)
    requires
        old(game).wf(),
        store_wf(old(objects)@),
        inventory_id < old(game).inventory@.len(),
    ensures
        final(game).wf(),
        store_wf(final(objects)@),
        drop_item_post(*old(game), old(objects)@, *final(game), final(objects)@, inventory_id as int),
{
    let mut item = game.inventory.remove(inventory_id);
    let item_equipped = match &item.equipment {
        Some(e) => e.equipped,
        None => false,
    };
    if item_equipped {
        item.dequip(&mut game.log);
    }
    let px = objects[PLAYER].x;
    let py = objects[PLAYER].y;
    item.set_pos(px, py);
    let mut m: String = "You dropped a ".to_owned();
    m.append(item.name.as_str());
    m.append(".");
    game.log.add(m, Color::Yellow);
    objects.push(item);
    proof {
        let old_inv = old(game).inventory@;
        assert(forall|i: int|
            0 <= i < game.inventory@.len() ==> game.inventory@[i] == old_inv.remove(
                inventory_id as int,
            )[i]);
        let item0 = old_inv[inventory_id as int];
        let landed = Object {
            x: old(objects)@[0].x,
            y: old(objects)@[0].y,
            equipment: unequipped(item0.equipment),
            ..item0
        };
        assert(objects@.last() == landed);
        assert(objects@ =~= old(objects)@.push(landed));
    }
}

} // verus!
