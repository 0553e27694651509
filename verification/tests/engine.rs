//! End-to-end exercises of the rules engine: generation, combat, leveling,
//! confusion, equipment exclusivity, area damage and the save round trip.

use roguelike::ai::ai_take_turn;
use roguelike::color::Color;
use roguelike::constants::{
    FIREBALL_DAMAGE, HEAL_AMOUNT, LEVEL_UP_BASE, LEVEL_UP_FACTOR, MAP_HEIGHT, MAP_WIDTH,
};
use roguelike::game::Game;
use roguelike::items::{
    cast_fireball, cast_heal, cast_lightning, closest_monster, toggle_equipment, use_item,
    UseResult, UseTarget,
};
use roguelike::inventory::{drop_item, get_equipped_in_slot, pick_item_up};
use roguelike::level::{apply_level_up, level_up_pending, level_up_xp, LevelUpChoice};
use roguelike::mapgen::{from_dungeon_level, make_map, Rect, Transition};
use roguelike::objects::{Ai, DeathCallback, Equipment, Fighter, Item, Object, Slot};
use roguelike::rng::RngState;
use roguelike::text::{i32_to_string, u32_to_string};
use roguelike::tile::{walled_map, Tile};
use roguelike::turn::{play_turn, player_move_or_attack, Command, PlayerAction};
use roguelike::ui::{inventory_options, menu_index, update_explored};
use roguelike::vision::VisionGrid;

fn make_player(x: i32, y: i32) -> Object {
    let mut player = Object::new(x, y, '@', "player", Color::White, true);
    player.alive = true;
    player.fighter = Some(Fighter {
        hp: 100,
        base_max_hp: 100,
        base_defense: 1,
        base_power: 4,
        xp: 0,
        on_death: DeathCallback::Player,
    });
    player
}

fn make_monster(x: i32, y: i32, name: &str, hp: i32, defense: i32, power: i32, xp: i32) -> Object {
    let mut m = Object::new(x, y, 'm', name, Color::DesaturatedGreen, true);
    m.alive = true;
    m.fighter = Some(Fighter {
        hp,
        base_max_hp: hp,
        base_defense: defense,
        base_power: power,
        xp,
        on_death: DeathCallback::Monster,
    });
    m.ai = Some(Ai::Basic);
    m
}

fn open_game() -> Game {
    let mut map = walled_map();
    for x in 0..MAP_WIDTH as usize {
        for y in 0..MAP_HEIGHT as usize {
            map[x][y] = Tile::empty();
        }
    }
    Game {
        map,
        log: Vec::new(),
        inventory: Vec::new(),
        dungeon_level: 1,
    }
}

fn fov_all(visible: bool) -> VisionGrid {
    let mut cells = Vec::new();
    for _ in 0..MAP_WIDTH as usize {
        let mut col = Vec::new();
        for _ in 0..MAP_HEIGHT as usize {
            col.push(visible);
        }
        cells.push(col);
    }
    VisionGrid::from_cells(cells)
}

#[test]
fn generated_dungeon_is_sound() {
    let mut objects = vec![make_player(1, 1)];
    let mut rng = RngState::new(42);
    let (map, _rooms) = make_map(&mut objects, 1, &mut rng);
    // player stays at index 0 and spawns on carved floor
    assert_eq!(objects[0].name, "player");
    let px = objects[0].x as usize;
    let py = objects[0].y as usize;
    assert!(!map[px][py].blocked);
    // the stairs marker sits on carved floor at the end of the store
    let stairs = objects.last().unwrap();
    assert_eq!(stairs.name, "stairs");
    assert!(!map[stairs.x as usize][stairs.y as usize].blocked);
    assert!(!stairs.blocks);
    assert!(stairs.always_visible);
    // no monster was spawned on top of another blocking entity
    for i in 0..objects.len() {
        for j in 0..objects.len() {
            if i != j && objects[i].blocks && objects[j].blocks {
                assert!(objects[i].x != objects[j].x || objects[i].y != objects[j].y);
            }
        }
    }
}

#[test]
fn attack_applies_exact_damage_and_logs() {
    let mut game = open_game();
    let mut attacker = make_monster(2, 2, "player", 100, 0, 10, 0);
    attacker.name = "player".to_string();
    let mut defender = make_monster(3, 2, "orc", 20, 4, 3, 35);
    attacker.attack(&mut defender, &mut game);
    // power 10, defense 4: exactly 6 hit points removed, one log entry
    assert_eq!(defender.fighter.unwrap().hp, 14);
    assert_eq!(game.log.len(), 1);
    assert_eq!(game.log[0].0, "player attacks orc for 6 hit points.");
    assert_eq!(game.log[0].1, Color::DesaturatedFuchsia);
}

#[test]
fn attack_without_effect_changes_nothing() {
    let mut game = open_game();
    let mut attacker = make_monster(2, 2, "rat", 10, 0, 3, 1);
    let mut defender = make_monster(3, 2, "knight", 30, 5, 1, 10);
    attacker.attack(&mut defender, &mut game);
    assert_eq!(defender.fighter.unwrap().hp, 30);
    assert_eq!(game.log.len(), 1);
    assert_eq!(game.log[0].0, "rat attacks knight but it has no effect!");
}

#[test]
fn killing_blow_converts_to_remains_and_credits_xp() {
    let mut game = open_game();
    let mut attacker = make_monster(2, 2, "player", 100, 0, 50, 0);
    let mut defender = make_monster(3, 2, "orc", 20, 0, 3, 35);
    attacker.attack(&mut defender, &mut game);
    assert!(!defender.alive);
    assert!(defender.fighter.is_none());
    assert!(defender.ai.is_none());
    assert!(!defender.blocks);
    assert_eq!(defender.name, "remains of orc");
    assert_eq!(defender.glyph, '%');
    assert_eq!(attacker.fighter.unwrap().xp, 35);
    assert_eq!(game.log.len(), 2);
    assert_eq!(game.log[1].0, "orc is dead! You gain 35 experience points.");
}

#[test]
fn leveling_threshold_and_carryover() {
    // configured constants: threshold past level 1 is 200 + 1 * 150
    assert_eq!(level_up_xp(1), LEVEL_UP_BASE + LEVEL_UP_FACTOR);
    assert_eq!(level_up_xp(1), 350);
    let mut player = make_player(1, 1);
    player.fighter.as_mut().unwrap().xp = 110;
    assert!(!level_up_pending(&player));
    player.fighter.as_mut().unwrap().xp = 400;
    assert!(level_up_pending(&player));
    let mut game = open_game();
    let mut objects = vec![player];
    apply_level_up(&mut objects, &mut game, LevelUpChoice::Strength);
    let f = objects[0].fighter.unwrap();
    // the threshold is subtracted, not zeroed; level rises by exactly 1
    assert_eq!(f.xp, 50);
    assert_eq!(objects[0].level, 2);
    assert_eq!(f.base_power, 5);
    assert_eq!(f.base_max_hp, 100);
    assert_eq!(f.base_defense, 1);
}

#[test]
fn constitution_choice_raises_hp_and_max() {
    let mut player = make_player(1, 1);
    player.fighter.as_mut().unwrap().xp = 350;
    let mut game = open_game();
    let mut objects = vec![player];
    apply_level_up(&mut objects, &mut game, LevelUpChoice::Constitution);
    let f = objects[0].fighter.unwrap();
    assert_eq!(f.base_max_hp, 120);
    assert_eq!(f.hp, 120);
    assert_eq!(f.xp, 0);
}

#[test]
fn confusion_reverts_exactly_on_fourth_evaluation() {
    let mut game = open_game();
    let mut objects = vec![make_player(10, 10), make_monster(30, 30, "orc", 20, 0, 3, 35)];
    objects[1].ai = Some(Ai::Confused {
        previous_ai: Box::new(Ai::Basic),
        num_turns: 3,
    });
    let fov = fov_all(false);
    let mut rng = RngState::new(7);
    for step in 0..4 {
        let still_confused = matches!(objects[1].ai, Some(Ai::Confused { .. }));
        assert!(still_confused, "reverted too early at evaluation {}", step);
        if let Some(Ai::Confused { num_turns, .. }) = objects[1].ai {
            assert_eq!(num_turns, 3 - step);
        }
        ai_take_turn(1, &mut objects, &mut game, &fov, &mut rng);
    }
    // exactly on the fourth evaluation the monster is Basic again
    assert!(matches!(objects[1].ai, Some(Ai::Basic)));
    let last = game.log.last().unwrap();
    assert_eq!(last.0, "The orc is no longer confused!");
}

fn sword(x: i32, y: i32, name: &str) -> Object {
    let mut o = Object::new(x, y, '/', name, Color::Sky, false);
    o.item = Some(Item::Sword);
    o.equipment = Some(Equipment {
        slot: Slot::RightHand,
        equipped: false,
        power_bonus: 3,
        defense_bonus: 0,
        max_hp_bonus: 0,
    });
    o
}

#[test]
fn toggle_never_leaves_two_equipped_in_one_slot() {
    let mut game = open_game();
    game.inventory.push(sword(0, 0, "old sword"));
    game.inventory.push(sword(0, 0, "new sword"));
    // equip the first
    let r = toggle_equipment(0, &mut game);
    assert!(matches!(r, UseResult::UsedAndKept));
    assert!(game.inventory[0].equipment.unwrap().equipped);
    // equipping the second must first dequip the occupant
    let r = toggle_equipment(1, &mut game);
    assert!(matches!(r, UseResult::UsedAndKept));
    assert!(!game.inventory[0].equipment.unwrap().equipped);
    assert!(game.inventory[1].equipment.unwrap().equipped);
    let mut equipped_right_hand = 0;
    for it in &game.inventory {
        if let Some(e) = it.equipment {
            if e.equipped && e.slot == Slot::RightHand {
                equipped_right_hand += 1;
            }
        }
    }
    assert_eq!(equipped_right_hand, 1);
    assert_eq!(get_equipped_in_slot(Slot::RightHand, &game.inventory), Some(1));
}

#[test]
fn fireball_burns_every_fighter_in_radius_exactly_once() {
    let mut game = open_game();
    let mut objects = vec![
        make_player(10, 10),
        make_monster(11, 10, "orc", 60, 0, 3, 35),
        make_monster(10, 13, "troll", 60, 0, 3, 100),
        make_monster(20, 20, "far orc", 60, 0, 3, 35),
    ];
    let mut stairs = Object::new(11, 11, '<', "stairs", Color::White, false);
    stairs.always_visible = true;
    objects.push(stairs);
    let before_log = game.log.len();
    let r = cast_fireball(0, &mut objects, &mut game, Some((10, 10)));
    assert!(matches!(r, UseResult::UsedUp));
    // every fighter within Euclidean distance 3 of the centre burns once,
    // the player included; the far orc and the stairs are untouched
    assert_eq!(objects[0].fighter.unwrap().hp, 100 - FIREBALL_DAMAGE);
    assert_eq!(objects[1].fighter.unwrap().hp, 60 - FIREBALL_DAMAGE);
    assert_eq!(objects[2].fighter.unwrap().hp, 60 - FIREBALL_DAMAGE);
    assert_eq!(objects[3].fighter.unwrap().hp, 60);
    assert!(objects[4].fighter.is_none());
    // prompt + explosion + exactly three burn lines, none for the stairs
    assert_eq!(game.log.len(), before_log + 2 + 3);
    for entry in &game.log {
        assert!(!entry.0.contains("stairs"));
    }
}

#[test]
fn fireball_kills_credit_the_player() {
    let mut game = open_game();
    let mut objects = vec![
        make_player(40, 10),
        make_monster(41, 10, "orc", 10, 0, 3, 35),
    ];
    objects[0].fighter.as_mut().unwrap().hp = 1000000;
    objects[0].fighter.as_mut().unwrap().base_max_hp = 1000000;
    let r = cast_fireball(0, &mut objects, &mut game, Some((41, 10)));
    assert!(matches!(r, UseResult::UsedUp));
    assert!(objects[1].fighter.is_none());
    assert_eq!(objects[0].fighter.unwrap().xp, 35);
}

#[test]
fn heal_caps_at_effective_maximum() {
    let mut game = open_game();
    let mut player = make_player(1, 1);
    player.fighter.as_mut().unwrap().hp = 90;
    player.heal(HEAL_AMOUNT, &game);
    assert_eq!(player.fighter.unwrap().hp, 100);
    // at full health the potion is rejected
    let mut objects = vec![player];
    let r = cast_heal(0, &mut objects, &mut game);
    assert!(matches!(r, UseResult::Cancelled));
    assert_eq!(game.log.last().unwrap().0, "You are already at full health.");
}

#[test]
fn lightning_strikes_closest_visible_monster() {
    let mut game = open_game();
    let mut objects = vec![
        make_player(10, 10),
        make_monster(14, 10, "far orc", 60, 0, 3, 35),
        make_monster(11, 10, "near orc", 60, 0, 3, 35),
    ];
    let fov = fov_all(true);
    assert_eq!(closest_monster(5, &objects, &fov), Some(2));
    let r = cast_lightning(0, &mut objects, &mut game, &fov);
    assert!(matches!(r, UseResult::UsedUp));
    assert_eq!(objects[2].fighter.unwrap().hp, 20);
    assert_eq!(objects[1].fighter.unwrap().hp, 60);
    // invisible monsters are out of reach
    let dark = fov_all(false);
    let mut game2 = open_game();
    let r2 = cast_lightning(0, &mut objects, &mut game2, &dark);
    assert!(matches!(r2, UseResult::Cancelled));
    assert_eq!(game2.log.last().unwrap().0, "No enemy is close enough to strike.");
}

#[test]
fn pickup_respects_capacity_and_auto_equips() {
    let mut game = open_game();
    let mut objects = vec![make_player(5, 5), sword(5, 5, "sword")];
    pick_item_up(1, &mut objects, &mut game);
    assert_eq!(objects.len(), 1);
    assert_eq!(game.inventory.len(), 1);
    // a free slot auto-equips the picked piece
    assert!(game.inventory[0].equipment.unwrap().equipped);
    // a full inventory rejects the pickup and leaves the item on the ground
    let mut game3 = open_game();
    for _ in 0..26 {
        let mut filler = Object::new(1, 1, '!', "healing potion", Color::Violet, false);
        filler.item = Some(Item::Heal);
        game3.inventory.push(filler);
    }
    let mut objects3 = vec![make_player(5, 5), sword(5, 5, "sword")];
    pick_item_up(1, &mut objects3, &mut game3);
    assert_eq!(objects3.len(), 2);
    assert_eq!(game3.inventory.len(), 26);
    assert_eq!(
        game3.log.last().unwrap().0,
        "Your inventory is full, cannot pick up sword."
    );
}

#[test]
fn dropping_dequips_and_returns_to_player_tile() {
    let mut game = open_game();
    let mut objects = vec![make_player(7, 9), sword(5, 5, "sword")];
    pick_item_up(1, &mut objects, &mut game);
    assert!(game.inventory[0].equipment.unwrap().equipped);
    drop_item(0, &mut game, &mut objects);
    assert_eq!(game.inventory.len(), 0);
    let dropped = objects.last().unwrap();
    assert_eq!(dropped.name, "sword");
    assert_eq!((dropped.x, dropped.y), (7, 9));
    assert!(!dropped.equipment.unwrap().equipped);
}

#[test]
fn unusable_object_is_rejected() {
    let mut game = open_game();
    let mut junk = Object::new(0, 0, '*', "rock", Color::LightGrey, false);
    junk.equipment = None;
    game.inventory.push(junk);
    let mut objects = vec![make_player(1, 1)];
    let fov = fov_all(true);
    use_item(0, &mut objects, &mut game, &fov, UseTarget::NoTarget);
    assert_eq!(game.log.last().unwrap().0, "The rock cannot be used.");
}

#[test]
fn depth_tables_step_with_level() {
    let table = vec![
        Transition { level: 1, value: 2 },
        Transition { level: 4, value: 3 },
        Transition { level: 6, value: 5 },
    ];
    assert_eq!(from_dungeon_level(&table, 0), 0);
    assert_eq!(from_dungeon_level(&table, 1), 2);
    assert_eq!(from_dungeon_level(&table, 3), 2);
    assert_eq!(from_dungeon_level(&table, 4), 3);
    assert_eq!(from_dungeon_level(&table, 6), 5);
    assert_eq!(from_dungeon_level(&table, 60), 5);
}

#[test]
fn decimal_rendering_is_exact() {
    assert_eq!(u32_to_string(0), "0");
    assert_eq!(u32_to_string(350), "350");
    assert_eq!(i32_to_string(-123), "-123");
    assert_eq!(i32_to_string(2147483647), "2147483647");
}

#[test]
fn menu_letters_map_to_options() {
    assert_eq!(menu_index('a', 3), Some(0));
    assert_eq!(menu_index('c', 3), Some(2));
    assert_eq!(menu_index('d', 3), None);
    assert_eq!(menu_index('!', 3), None);
    let inv: Vec<Object> = Vec::new();
    let opts = inventory_options(&inv);
    assert_eq!(opts.len(), 1);
    assert_eq!(opts[0], "Inventory is empty.");
}

#[test]
fn movement_collides_silently_and_attacks_adjacent() {
    let mut game = open_game();
    let mut objects = vec![make_player(10, 10), make_monster(11, 10, "orc", 20, 0, 3, 35)];
    // stepping into the monster attacks it instead of moving
    player_move_or_attack(1, 0, &mut game, &mut objects);
    assert_eq!((objects[0].x, objects[0].y), (10, 10));
    assert_eq!(objects[1].fighter.unwrap().hp, 16);
    // stepping into free space moves
    player_move_or_attack(0, 1, &mut game, &mut objects);
    assert_eq!((objects[0].x, objects[0].y), (10, 11));
}

#[test]
fn full_turn_runs_monster_phase() {
    let mut game = open_game();
    let mut objects = vec![make_player(10, 10), make_monster(12, 10, "orc", 20, 0, 3, 35)];
    let fov = fov_all(true);
    let mut rng = RngState::new(3);
    let action = play_turn(Command::Wait, &mut objects, &mut game, &fov, &mut rng);
    assert!(matches!(action, PlayerAction::TookTurn));
    // the visible monster closed in on the player during its evaluation
    assert_eq!((objects[1].x, objects[1].y), (11, 10));
    let action = play_turn(Command::Exit, &mut objects, &mut game, &fov, &mut rng);
    assert!(matches!(action, PlayerAction::Exit));
}

#[test]
fn explored_flags_are_set_and_never_reset() {
    let mut game = open_game();
    let lit = fov_all(true);
    update_explored(&mut game.map, &lit);
    assert!(game.map[5][5].explored);
    let dark = fov_all(false);
    update_explored(&mut game.map, &dark);
    assert!(game.map[5][5].explored);
}

#[test]
fn rect_overlap_is_inclusive() {
    let a = Rect::new(0, 0, 10, 10);
    let b = Rect::new(10, 10, 5, 5);
    let c = Rect::new(11, 11, 5, 5);
    assert!(a.intersects_with(&b));
    assert!(!a.intersects_with(&c));
    assert_eq!(a.center(), (5, 5));
}

#[test]
fn stairs_are_reachable_from_spawn() {
    // walk the carved tiles from the player's spawn: the stairs must be in
    // the flooded region
    let mut objects = vec![make_player(1, 1)];
    let mut rng = RngState::new(1234);
    let (map, _rooms) = make_map(&mut objects, 1, &mut rng);
    let (px, py) = (objects[0].x as usize, objects[0].y as usize);
    let stairs = objects.last().unwrap();
    let (sx, sy) = (stairs.x as usize, stairs.y as usize);
    let w = MAP_WIDTH as usize;
    let h = MAP_HEIGHT as usize;
    let mut seen = vec![vec![false; h]; w];
    let mut queue = vec![(px, py)];
    seen[px][py] = true;
    while let Some((x, y)) = queue.pop() {
        let mut push = |nx: usize, ny: usize, seen: &mut Vec<Vec<bool>>, q: &mut Vec<(usize, usize)>| {
            if nx < w && ny < h && !seen[nx][ny] && !map[nx][ny].blocked {
                seen[nx][ny] = true;
                q.push((nx, ny));
            }
        };
        if x > 0 {
            push(x - 1, y, &mut seen, &mut queue);
        }
        push(x + 1, y, &mut seen, &mut queue);
        if y > 0 {
            push(x, y - 1, &mut seen, &mut queue);
        }
        push(x, y + 1, &mut seen, &mut queue);
    }
    assert!(seen[sx][sy], "stairs not reachable from the spawn tile");
}
