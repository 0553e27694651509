//! The per-turn orchestration: interpreting one player command, classifying
//! it, and running every monster's decision process when a turn was spent.
//!
//! The interactive layer reads input, resolves targeting, and calls
//! `play_turn` with one command per iteration; it never mutates the world
//! itself.

use vstd::prelude::*;

use crate::ai::{ai_take_turn, ai_take_turn_post, moved_pos};
use crate::color::Color;
use crate::combat::{attack_log, attack_outcome, xp_of};
use crate::constants::{PLAYER, XP_MAX};
use crate::game::{same_but_log, Game};
use crate::inventory::{drop_item, drop_item_post, pick_item_up, pick_item_up_post};
use crate::items::{lemma_xp_le_sum, use_item, use_item_post, xp_sum_rest, UseTarget};
use crate::log::{log_appended2, MessageLog};
use crate::mapgen::{make_map, Rect};
use crate::objects::{store_wf, Object};
use crate::rng::RngState;
use crate::tile::{map_view, on_map, tile_at};
use crate::vision::VisionGrid;

verus! {

/// How a command was classified: it consumed the turn, it did not, or the
/// session ends (saving is the interactive layer's job).
#[derive(Clone, Copy, Debug, PartialEq, Eq, Structural)]
pub enum PlayerAction {
    TookTurn,
    DidntTakeTurn,
    Exit,
}

/// One abstract player command, input mapping already done by the
/// interactive layer: a step (or attack) in one of eight directions, a wait,
/// a pickup, an item use or drop (with any resolved target), a descent, or
/// an exit.
#[derive(Clone, Copy, Debug, PartialEq, Eq, Structural)]
pub enum Command {
    Move(i32, i32),
    Wait,
    PickUp,
    UseFromInventory(usize, UseTarget),
    DropFromInventory(usize),
    Descend,
    Exit,
}

/// The first store index holding a fighter on `(x, y)`, the player included.
pub open spec fn fighter_at(objects: Seq<Object>, x: int, y: int, i: int) -> bool {
    &&& 0 <= i < objects.len()
    &&& objects[i].fighter is Some
    &&& objects[i].x == x && objects[i].y == y
}

/// The transform of one movement command: attack the first fighter on the
/// destination tile, or step there (collisions silently absorbed).
pub open spec fn move_or_attack_post(
    old_objects: Seq<Object>,
    old_game: Game,
    new_objects: Seq<Object>,
    new_game: Game,
    dx: int,
    dy: int,
) -> bool {
    let p = old_objects[0];
    let nx = p.x + dx;
    let ny = p.y + dy;
    if exists|i: int| 0 < i && fighter_at(old_objects, nx, ny, i) {
        exists|i: int|
            {
                &&& 0 < i && #[trigger] fighter_at(old_objects, nx, ny, i)
                &&& forall|j: int| 0 < j < i ==> !fighter_at(old_objects, nx, ny, j)
                &&& attack_outcome(
                    p,
                    old_objects[i],
                    old_game.inventory@,
                    new_objects[0],
                    new_objects[i],
                )
                &&& attack_log(p, old_objects[i], old_game.inventory@, old_game.log@, new_game.log@)
                &&& new_objects == old_objects.update(0, new_objects[0]).update(i, new_objects[i])
                &&& same_but_log(old_game, new_game)
            }
    } else {
        &&& new_objects == old_objects.update(
            0,
            Object {
                x: moved_pos(map_view(&old_game.map), old_objects, 0, dx, dy).0 as i32,
                y: moved_pos(map_view(&old_game.map), old_objects, 0, dx, dy).1 as i32,
                ..p
            },
        )
        &&& new_game == old_game
    }
}

/// Moves the player by `(dx, dy)`, or attacks the first fighter standing on
/// the destination tile.
pub fn player_move_or_attack(
    dx: i32,
    dy: i32,
    game: &mut Game,
    objects: &mut Vec<Object>,
)
    requires
        old(game).wf(),
        store_wf(old(objects)@),
        -1 <= dx <= 1,
        -1 <= dy <= 1,
        forall|j: int|
            0 < j < old(objects)@.len() ==> old(objects)@[0].fighter.unwrap().xp + xp_of(
                #[trigger] old(objects)@[j],
            ) <= XP_MAX,
    ensures
        final(game).wf(),
        store_wf(final(objects)@),
        move_or_attack_post(
            old(objects)@,
            *old(game),
            final(objects)@,
            *final(game),
            dx as int,
            dy as int,
        ),
        final(game).map == old(game).map,
{
    let x = objects[PLAYER].x + dx;
    let y = objects[PLAYER].y + dy;
    let mut target_id: Option<usize> = None;
    let mut id: usize = 1;
    while id < objects.len()
        invariant
            1 <= id <= objects@.len(),
            objects@ == old(objects)@,
            x == old(objects)@[0].x + dx,
            y == old(objects)@[0].y + dy,
            match target_id {
                None => forall|j: int|
                    0 < j < id ==> !fighter_at(objects@, x as int, y as int, j),
                Some(t) => {
                    &&& 0 < t < id
                    &&& fighter_at(objects@, x as int, y as int, t as int)
                    &&& forall|j: int|
                        0 < j < t ==> !fighter_at(objects@, x as int, y as int, j)
                },
            },
        decreases objects@.len() - id,
    {
        if target_id.is_none() {
            let o = &objects[id];
            if o.fighter.is_some() && o.x == x && o.y == y {
                target_id = Some(id);
            }
        }
        id = id + 1;
    }
    match target_id {
        Some(tid) => {
            let mut player = objects.remove(PLAYER);
            let mut target = objects.remove(tid - 1);
            player.attack(&mut target, game);
            objects.insert(0, player);
            objects.insert(tid, target);
            proof {
                crate::combat::lemma_remains_not_player(old(objects)@[tid as int].name@);
                assert(objects@ =~= old(objects)@.update(0, objects@[0]).update(
                    tid as int,
                    objects@[tid as int],
                ));
            }
        },
        None => {
            crate::ai::move_by(PLAYER, dx, dy, &game.map, objects);
        },
    }
}

/// Messages announcing a descent to the next dungeon depth.
pub open spec fn rest_msg() -> Seq<char> {
    "You take a moment to rest, and recover your strength."@
}

/// The second descent announcement.
pub open spec fn deeper_msg() -> Seq<char> {
    "After a rare moment of peace, you descend deeper into the heart of the dungeon..."@
}

/// Advances to the next dungeon depth: the player rests (healing half its
/// effective maximum), the depth counter rises by one, and a fresh dungeon
/// replaces the map and the monster population.
pub fn next_level(game: &mut Game, objects: &mut Vec<Object>, rng: &mut RngState) -> (rooms:
    Ghost<(Seq<Rect>, Seq<bool>)>)
    requires
        old(game).wf(),
        store_wf(old(objects)@),
        old(game).dungeon_level < 0xFFFF_FFFF,
    ensures
        final(game).wf(),
        store_wf(final(objects)@),
        final(game).dungeon_level == old(game).dungeon_level + 1,
        final(game).inventory == old(game).inventory,
        log_appended2(
            old(game).log@,
            final(game).log@,
            rest_msg(),
            Color::Violet,
            deeper_msg(),
            Color::Red,
        ),
        rooms@.0.len() >= 1,
        final(objects)@.len() >= 2,
        final(objects)@[0] == (Object {
            x: crate::mapgen::spec_center(rooms@.0[0]).0 as i32,
            y: crate::mapgen::spec_center(rooms@.0[0]).1 as i32,
            ..healed_for_descent(old(objects)@[0], *old(game))
        }),
        forall|x: int, y: int|
            on_map(x, y) ==> tile_at(map_view(&final(game).map), x, y) == (if crate::mapgen::covered(
                rooms@.0,
                rooms@.1,
                x,
                y,
            ) {
                crate::tile::Tile { blocked: false, block_sight: false, explored: false }
            } else {
                crate::tile::Tile { blocked: true, block_sight: true, explored: false }
            }),
        !tile_at(
            map_view(&final(game).map),
            final(objects)@[0].x as int,
            final(objects)@[0].y as int,
        ).blocked,
        final(objects)@.last().name@ == "stairs"@,
        crate::mapgen::reachable(
            map_view(&final(game).map),
            (final(objects)@[0].x as int, final(objects)@[0].y as int),
            (final(objects)@.last().x as int, final(objects)@.last().y as int),
        ),
{
    game.log.add(
        "You take a moment to rest, and recover your strength.".to_owned(),
        Color::Violet,
    );
    let heal_hp = objects[PLAYER].max_hp(game) / 2;
    let mut player = objects.remove(PLAYER);
    player.heal(heal_hp, game);
    objects.insert(PLAYER, player);
    proof {
        assert(objects@ =~= old(objects)@.update(0, objects@[0]));
    }
    game.log.add(
        "After a rare moment of peace, you descend deeper into the heart of the dungeon..."
            .to_owned(),
        Color::Red,
    );
    game.dungeon_level = game.dungeon_level + 1;
    let (map, rooms) = make_map(objects, game.dungeon_level, rng);
    game.map = map;
    rooms
}

/// The player after the descent's rest: healed by half its effective
/// maximum.
pub open spec fn healed_for_descent(player: Object, game: Game) -> Object {
    let f = player.fighter.unwrap();
    let maxhp = crate::game::max_hp_of(player, game.inventory@);
    let amount = maxhp / 2;
    let healed = if f.hp + amount > maxhp {
        maxhp
    } else {
        f.hp + amount
    };
    Object { fighter: Some(crate::objects::Fighter { hp: healed as i32, ..f }), ..player }
}

/// One step of the monster pass: the state before evaluating the monster at
/// store index `k + 1` is `trace[k]`, the state after is `trace[k + 1]`, and
/// the step transforms the world exactly as `ai_take_turn_post` says.
pub open spec fn ai_trace_ok(
    map: Seq<Seq<crate::tile::Tile>>,
    fov: VisionGrid,
    trace: Seq<(Seq<Object>, Game, RngState)>,
) -> bool {
    forall|k: int|
        0 <= k < trace.len() - 1 ==> ai_take_turn_post(
            map,
            (#[trigger] trace[k]).0,
            trace[k].1,
            trace[k + 1].0,
            trace[k + 1].1,
            k + 1,
            fov,
            trace[k].2,
            trace[k + 1].2,
        )
}

/// Runs one decision-process evaluation for every monster in store order and
/// returns the trace of intermediate states: entry `k` is the world before
/// monster `k + 1` moved, the first entry is the initial state, the last the
/// final one, and consecutive entries are related by `ai_take_turn_post`.
#[verifier::rlimit(100)]
pub fn monsters_take_turns(
    objects: &mut Vec<Object>,
    game: &mut Game,
    fov: &VisionGrid,
    rng: &mut RngState,
) -> (trace: Ghost<Seq<(Seq<Object>, Game, RngState)>>)
    requires
        old(game).wf(),
        store_wf(old(objects)@),
        fov.wf(),
        forall|i: int|
            0 < i < old(objects)@.len() ==> ((#[trigger] old(objects)@[i]).ai is Some
                ==> old(objects)@[i].fighter is Some),
        forall|i: int|
            0 < i < old(objects)@.len() ==> (#[trigger] old(objects)@[i]).fighter is Some
                ==> old(objects)@[i].fighter.unwrap().xp + xp_of(old(objects)@[0]) <= XP_MAX,
    ensures
        final(game).wf(),
        store_wf(final(objects)@),
        final(objects)@.len() == old(objects)@.len(),
        final(game).map == old(game).map,
        final(game).inventory == old(game).inventory,
        final(game).dungeon_level == old(game).dungeon_level,
        trace@.len() == old(objects)@.len(),
        trace@.first() == (old(objects)@, *old(game), *old(rng)),
        trace@.last() == (final(objects)@, *final(game), *final(rng)),
        ai_trace_ok(map_view(&old(game).map), *fov, trace@),
{
    let ghost mut trace: Seq<(Seq<Object>, Game, RngState)> = seq![
        (old(objects)@, *old(game), *old(rng)),
    ];
    let mut id: usize = 1;
    while id < objects.len()
        invariant
            game.wf(),
            store_wf(objects@),
            fov.wf(),
            1 <= id <= objects@.len(),
            objects@.len() == old(objects)@.len(),
            game.map == old(game).map,
            game.inventory == old(game).inventory,
            game.dungeon_level == old(game).dungeon_level,
            xp_of(objects@[0]) == xp_of(old(objects)@[0]),
            forall|i: int| id <= i < objects@.len() ==> (#[trigger] objects@[i]) == old(
                objects,
            )@[i],
            forall|i: int|
                0 < i < old(objects)@.len() ==> ((#[trigger] old(objects)@[i]).ai is Some
                    ==> old(objects)@[i].fighter is Some),
            forall|i: int|
                0 < i < old(objects)@.len() ==> (#[trigger] old(objects)@[i]).fighter is Some
                    ==> old(objects)@[i].fighter.unwrap().xp + xp_of(old(objects)@[0])
                    <= XP_MAX,
            trace.len() == id,
            trace.first() == (old(objects)@, *old(game), *old(rng)),
            trace.last() == (objects@, *game, *rng),
            ai_trace_ok(map_view(&old(game).map), *fov, trace),
        decreases objects@.len() - id,
    {
        let ghost mid_objects = objects@;
        let ghost mid_game = *game;
        let ghost mid_rng = *rng;
        let has_ai = objects[id].ai.is_some();
        if has_ai {
            proof {
                assert(objects@[id as int] == old(objects)@[id as int]);
            }
            ai_take_turn(id, objects, game, fov, rng);
            proof {
                assert(map_view(&mid_game.map) == map_view(&old(game).map));
                assert(ai_take_turn_post(
                    map_view(&old(game).map),
                    mid_objects,
                    mid_game,
                    objects@,
                    *game,
                    id as int,
                    *fov,
                    mid_rng,
                    *rng,
                ));
            }
        } else {
            proof {
                assert(ai_take_turn_post(
                    map_view(&old(game).map),
                    mid_objects,
                    mid_game,
                    objects@,
                    *game,
                    id as int,
                    *fov,
                    mid_rng,
                    *rng,
                )) by {
                    reveal(ai_take_turn_post);
                }
            }
        }
        proof {
            let ghost prev = trace;
            trace = trace.push((objects@, *game, *rng));
            assert(trace.last() == (objects@, *game, *rng));
            assert(trace[trace.len() - 2] == (mid_objects, mid_game, mid_rng));
            assert forall|k: int|
                0 <= k < trace.len() - 1 implies ai_take_turn_post(
                map_view(&old(game).map),
                (#[trigger] trace[k]).0,
                trace[k].1,
                trace[k + 1].0,
                trace[k + 1].1,
                k + 1,
                *fov,
                trace[k].2,
                trace[k + 1].2,
            ) by {
                if k < prev.len() - 1 {
                    assert(trace[k] == prev[k]);
                    assert(trace[k + 1] == prev[k + 1]);
                } else {
                    assert(k == id - 1);
                    assert(trace[k] == (mid_objects, mid_game, mid_rng));
                    assert(trace[k + 1] == (objects@, *game, *rng));
                }
            }
        }
        id = id + 1;
    }
    Ghost(trace)
}

/// True when store entry `i` is the first pickable item on `(x, y)`.
pub open spec fn item_at(objects: Seq<Object>, x: int, y: int, i: int) -> bool {
    &&& 0 < i < objects.len()
    &&& objects[i].item is Some
    &&& objects[i].x == x && objects[i].y == y
}

/// The classification each command receives: movement and waiting consume
/// the turn; inventory work, pickups and descents do not; exit ends the
/// session.
pub open spec fn spec_classify(cmd: Command) -> PlayerAction {
    match cmd {
        Command::Move(_, _) => PlayerAction::TookTurn,
        Command::Wait => PlayerAction::TookTurn,
        Command::PickUp => PlayerAction::DidntTakeTurn,
        Command::UseFromInventory(_, _) => PlayerAction::DidntTakeTurn,
        Command::DropFromInventory(_) => PlayerAction::DidntTakeTurn,
        Command::Descend => PlayerAction::DidntTakeTurn,
        Command::Exit => PlayerAction::Exit,
    }
}

/// The player-phase transform of one command, before any monster moves.
pub open spec fn command_post(
    cmd: Command,
    old_objects: Seq<Object>,
    old_game: Game,
    new_objects: Seq<Object>,
    new_game: Game,
    fov: VisionGrid,
) -> bool {
    match cmd {
        Command::Move(dx, dy) => move_or_attack_post(
            old_objects,
            old_game,
            new_objects,
            new_game,
            dx as int,
            dy as int,
        ),
        Command::Wait => new_objects == old_objects && new_game == old_game,
        Command::PickUp => {
            let px = old_objects[0].x as int;
            let py = old_objects[0].y as int;
            if exists|i: int| item_at(old_objects, px, py, i) {
                exists|i: int|
                    {
                        &&& #[trigger] item_at(old_objects, px, py, i)
                        &&& forall|j: int| 0 < j < i ==> !item_at(old_objects, px, py, j)
                        &&& pick_item_up_post(old_objects, old_game, new_objects, new_game, i)
                    }
            } else {
                new_objects == old_objects && new_game == old_game
            }
        },
        Command::UseFromInventory(id, target) => use_item_post(
            old_objects,
            old_game,
            new_objects,
            new_game,
            id as int,
            fov,
            target,
        ),
        Command::DropFromInventory(id) => drop_item_post(
            old_game,
            old_objects,
            new_game,
            new_objects,
            id as int,
        ),
        Command::Descend => {
            if exists|i: int|
                0 < i < old_objects.len() && (#[trigger] old_objects[i]).name@ == "stairs"@
                    && old_objects[i].x == old_objects[0].x && old_objects[i].y
                    == old_objects[0].y {
                &&& new_game.dungeon_level == old_game.dungeon_level + 1
                &&& new_game.inventory == old_game.inventory
                &&& new_objects.len() >= 2
            } else {
                new_objects == old_objects && new_game == old_game
            }
        },
        Command::Exit => new_objects == old_objects && new_game == old_game,
    }
}

/// Applies one player command, classifies it, and — when the turn was spent
/// and the player still stands — evaluates every monster's decision process
/// once.
#[verifier::rlimit(60)]
pub fn play_turn(
    cmd: Command,
    objects: &mut Vec<Object>,
    game: &mut Game,
    fov: &VisionGrid,
    rng: &mut RngState,
) -> (action: PlayerAction)
    requires
        old(game).wf(),
        store_wf(old(objects)@),
        fov.wf(),
        old(objects)@[0].fighter.unwrap().xp + 2 * xp_sum_rest(old(objects)@) <= XP_MAX,
        forall|i: int|
            0 < i < old(objects)@.len() ==> ((#[trigger] old(objects)@[i]).ai is Some
                ==> old(objects)@[i].fighter is Some),
        cmd matches Command::Move(dx, dy) ==> -1 <= dx <= 1 && -1 <= dy <= 1,
        cmd matches Command::UseFromInventory(id, t) ==> id < old(game).inventory@.len() && (
        t matches UseTarget::Monster(m) ==> 0 < m < old(objects)@.len()) && (
        t matches UseTarget::Tile(tx, ty) ==> on_map(tx as int, ty as int)),
        cmd matches Command::DropFromInventory(id) ==> id < old(game).inventory@.len(),
        cmd is Descend ==> old(game).dungeon_level < 0xFFFF_FFFF,
    ensures
        final(game).wf(),
        store_wf(final(objects)@),
        action == spec_classify(cmd),
        exists|mid_objects: Seq<Object>, mid_game: Game|
            {
                &&& #[trigger] command_post(
                    cmd,
                    old(objects)@,
                    *old(game),
                    mid_objects,
                    mid_game,
                    *fov,
                )
                &&& final(objects)@.len() == mid_objects.len()
                &&& final(game).inventory == mid_game.inventory
                &&& final(game).dungeon_level == mid_game.dungeon_level
                &&& (action != PlayerAction::TookTurn ==> final(objects)@ == mid_objects
                    && *final(game) == mid_game)
                &&& (action == PlayerAction::TookTurn ==> (if mid_objects[0].alive {
                    exists|trace: Seq<(Seq<Object>, Game, RngState)>|
                        {
                            &&& #[trigger] ai_trace_ok(map_view(&mid_game.map), *fov, trace)
                            &&& trace.len() == mid_objects.len()
                            &&& trace.first() == (mid_objects, mid_game, *old(rng))
                            &&& trace.last() == (
                                final(objects)@,
                                *final(game),
                                *final(rng),
                            )
                        }
                } else {
                    final(objects)@ == mid_objects && *final(game) == mid_game
                }))
            },
{
    proof {
        assert forall|j: int|
            0 < j < old(objects)@.len() implies old(objects)@[0].fighter.unwrap().xp + xp_of(
            #[trigger] old(objects)@[j],
        ) <= XP_MAX by {
            lemma_xp_le_sum(old(objects)@, j);
            assert(old(objects)@[0].wf());
            assert(xp_sum_rest(old(objects)@) >= 0) by {
                crate::items::lemma_xp_sum_monotone(
                    old(objects)@,
                    1,
                    old(objects)@.len() as int,
                );
            }
        }
    }
    let action: PlayerAction = match cmd {
        Command::Move(dx, dy) => {
            player_move_or_attack(dx, dy, game, objects);
            PlayerAction::TookTurn
        },
        Command::Wait => PlayerAction::TookTurn,
        Command::PickUp => {
            let px = objects[PLAYER].x;
            let py = objects[PLAYER].y;
            let mut found: Option<usize> = None;
            let mut id: usize = 1;
            while id < objects.len()
                invariant
                    1 <= id <= objects@.len(),
                    objects@ == old(objects)@,
                    px == old(objects)@[0].x,
                    py == old(objects)@[0].y,
                    match found {
                        None => forall|j: int|
                            0 < j < id ==> !item_at(objects@, px as int, py as int, j),
                        Some(t) => {
                            &&& 0 < t < id
                            &&& item_at(objects@, px as int, py as int, t as int)
                            &&& forall|j: int|
                                0 < j < t ==> !item_at(objects@, px as int, py as int, j)
                        },
                    },
                decreases objects@.len() - id,
            {
                if found.is_none() {
                    let o = &objects[id];
                    if o.item.is_some() && o.x == px && o.y == py {
                        found = Some(id);
                    }
                }
                id = id + 1;
            }
            match found {
                Some(item_id) => {
                    pick_item_up(item_id, objects, game);
                },
                None => {},
            }
            PlayerAction::DidntTakeTurn
        },
        Command::UseFromInventory(id, target) => {
            use_item(id, objects, game, fov, target);
            PlayerAction::DidntTakeTurn
        },
        Command::DropFromInventory(id) => {
            drop_item(id, game, objects);
            PlayerAction::DidntTakeTurn
        },
        Command::Descend => {
            proof {
                reveal_strlit("stairs");
            }
            let stairs_name: String = "stairs".to_owned();
            let px = objects[PLAYER].x;
            let py = objects[PLAYER].y;
            let mut on_stairs: Option<usize> = None;
            let mut id: usize = 1;
            while id < objects.len()
                invariant
                    1 <= id <= objects@.len(),
                    objects@ == old(objects)@,
                    stairs_name@ == "stairs"@,
                    px == old(objects)@[0].x,
                    py == old(objects)@[0].y,
                    on_stairs matches Some(t) ==> 0 < t < objects@.len()
                        && objects@[t as int].name@ == "stairs"@ && objects@[t as int].x == px
                        && objects@[t as int].y == py,
                    on_stairs is None ==> forall|j: int|
                        0 < j < id ==> !((#[trigger] objects@[j]).name@ == "stairs"@
                            && objects@[j].x == px && objects@[j].y == py),
                decreases objects@.len() - id,
            {
                if on_stairs.is_none() {
                    let o = &objects[id];
                    if o.x == px && o.y == py && o.name == stairs_name {
                        on_stairs = Some(id);
                    }
                }
                id = id + 1;
            }
            match on_stairs {
                Some(_) => {
                    next_level(game, objects, rng);
                },
                None => {},
            }
            PlayerAction::DidntTakeTurn
        },
        Command::Exit => PlayerAction::Exit,
    };
    let ghost mid_objects = objects@;
    let ghost mid_game = *game;
    proof {
        assert(command_post(cmd, old(objects)@, *old(game), mid_objects, mid_game, *fov));
    }
    let player_alive = objects[PLAYER].alive;
    if matches!(action, PlayerAction::TookTurn) && player_alive {
        proof {
            match cmd {
                Command::Move(dx, dy) => {
                    lemma_move_keeps_xp_bounds(
                        old(objects)@,
                        mid_objects,
                        *old(game),
                        mid_game,
                        dx as int,
                        dy as int,
                    );
                },
                _ => {},
            }
        }
        let trace = monsters_take_turns(objects, game, fov, rng);
        proof {
            assert(ai_trace_ok(map_view(&mid_game.map), *fov, trace@));
        }
    }
    action
}

/// After one movement command the per-monster experience-transfer bound
/// still holds: the player gained at most the whole store's rewards, and no
/// monster gained anything.
proof fn lemma_move_keeps_xp_bounds(
    old_objects: Seq<Object>,
    mid_objects: Seq<Object>,
    old_game: Game,
    mid_game: Game,
    dx: int,
    dy: int,
)
    requires
        store_wf(old_objects),
        store_wf(mid_objects),
        old_objects[0].fighter.unwrap().xp + 2 * xp_sum_rest(old_objects) <= XP_MAX,
        move_or_attack_post(old_objects, old_game, mid_objects, mid_game, dx, dy),
    ensures
        forall|i: int|
            0 < i < mid_objects.len() ==> (#[trigger] mid_objects[i]).fighter is Some
                ==> mid_objects[i].fighter.unwrap().xp + xp_of(mid_objects[0]) <= XP_MAX,
{
    let p = old_objects[0];
    let nx = p.x + dx;
    let ny = p.y + dy;
    crate::items::lemma_xp_sum_monotone(old_objects, 1, old_objects.len() as int);
    if exists|i: int| 0 < i && fighter_at(old_objects, nx, ny, i) {
        let i = choose|i: int|
            {
                &&& 0 < i && #[trigger] fighter_at(old_objects, nx, ny, i)
                &&& forall|j: int| 0 < j < i ==> !fighter_at(old_objects, nx, ny, j)
                &&& attack_outcome(
                    p,
                    old_objects[i],
                    old_game.inventory@,
                    mid_objects[0],
                    mid_objects[i],
                )
                &&& attack_log(p, old_objects[i], old_game.inventory@, old_game.log@, mid_game.log@)
                &&& mid_objects == old_objects.update(0, mid_objects[0]).update(i, mid_objects[i])
                &&& crate::game::same_but_log(old_game, mid_game)
            };
        lemma_xp_le_sum(old_objects, i);
        assert(xp_of(mid_objects[0]) <= p.fighter.unwrap().xp + xp_of(old_objects[i]));
        assert forall|k: int|
            0 < k < mid_objects.len() && (#[trigger] mid_objects[k]).fighter is Some
                implies mid_objects[k].fighter.unwrap().xp + xp_of(mid_objects[0])
            <= XP_MAX by {
            if k != i {
                assert(mid_objects[k] == old_objects[k]);
            }
            lemma_xp_le_sum(old_objects, k);
            assert(xp_of(mid_objects[k]) <= xp_of(old_objects[k]));
        }
    } else {
        assert(xp_of(mid_objects[0]) == xp_of(old_objects[0]));
        assert forall|k: int|
            0 < k < mid_objects.len() && (#[trigger] mid_objects[k]).fighter is Some
                implies mid_objects[k].fighter.unwrap().xp + xp_of(mid_objects[0])
            <= XP_MAX by {
            assert(mid_objects[k] == old_objects[k]);
            lemma_xp_le_sum(old_objects, k);
        }
    }
}

} // verus!

