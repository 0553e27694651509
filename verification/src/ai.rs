//! The monster decision process: a strict two-state machine per monster.
//!
//! `Basic` chases and attacks the player while visible; `Confused` stumbles
//! randomly while its counter lasts, then resumes the state it wrapped.
//! Confusion is only entered externally (by the confusion spell), never
//! self-selected.

use vstd::prelude::*;
use vstd::string::StringExecFns;

use crate::color::Color;
use crate::combat::{attack_log, attack_outcome, xp_of};
use crate::constants::{PLAYER, XP_MAX};
use crate::game::Game;
use crate::log::{log_appended, MessageLog};
use crate::objects::{dist_sq, store_wf, Ai, Object};
use crate::rng::{rng_next, RngState};
use crate::tile::{map_view, map_wf, on_map, tile_at, DungeonMap};
use crate::vision::VisionGrid;

verus! {

/// True when `(x, y)` cannot be stepped onto: a blocked tile, or any
/// blocking entity standing there.
pub open spec fn spec_is_blocked(
    map: Seq<Seq<crate::tile::Tile>>,
    objects: Seq<Object>,
    x: int,
    y: int,
) -> bool {
    ||| tile_at(map, x, y).blocked
    ||| exists|i: int|
        0 <= i < objects.len() && (#[trigger] objects[i]).blocks && objects[i].x == x
            && objects[i].y == y
}

/// Tests whether `(x, y)` is blocked by terrain or by a blocking entity.
pub fn is_blocked(x: i32, y: i32, map: &DungeonMap, objects: &Vec<Object>) -> (r: bool)
    requires
        map_wf(map_view(map)),
        on_map(x as int, y as int),
    ensures
        r == spec_is_blocked(map_view(map), objects@, x as int, y as int),
{
    if crate::tile::map_tile(map, x, y).blocked {
        return true;
    }
    let mut i: usize = 0;
    while i < objects.len()
        invariant
            i <= objects@.len(),
            forall|j: int|
                0 <= j < i ==> !((#[trigger] objects@[j]).blocks && objects@[j].x == x
                    && objects@[j].y == y),
        decreases objects@.len() - i,
    {
        let o = &objects[i];
        if o.blocks && o.x == x && o.y == y {
            return true;
        }
        i = i + 1;
    }
    false
}

/// Where the entity at `id` ends up after trying to step by `(dx, dy)`: the
/// destination if it lies on the map and is free, its own tile otherwise
/// (the collision is silently absorbed).
pub open spec fn moved_pos(
    map: Seq<Seq<crate::tile::Tile>>,
    objects: Seq<Object>,
    id: int,
    dx: int,
    dy: int,
) -> (int, int) {
    let nx = objects[id].x + dx;
    let ny = objects[id].y + dy;
    if on_map(nx, ny) && !spec_is_blocked(map, objects, nx, ny) {
        (nx, ny)
    } else {
        (objects[id].x as int, objects[id].y as int)
    }
}

/// Steps the entity at `id` by `(dx, dy)` unless the destination is off the
/// map or blocked; a collision is a silent no-op.
pub fn move_by(id: usize, dx: i32, dy: i32, map: &DungeonMap, objects: &mut Vec<Object>)
    requires
        map_wf(map_view(map)),
        id < old(objects)@.len(),
        -2 <= dx <= 2,
        -2 <= dy <= 2,
        on_map(old(objects)@[id as int].x as int, old(objects)@[id as int].y as int),
    ensures
        final(objects)@ == old(objects)@.update(
            id as int,
            Object {
                x: moved_pos(map_view(map), old(objects)@, id as int, dx as int, dy as int).0
                    as i32,
                y: moved_pos(map_view(map), old(objects)@, id as int, dx as int, dy as int).1
                    as i32,
                ..old(objects)@[id as int]
            },
        ),
{
    let x = objects[id].x;
    let y = objects[id].y;
    let nx = x + dx;
    let ny = y + dy;
    let free = if 0 <= nx && nx < crate::constants::MAP_WIDTH && 0 <= ny && ny
        < crate::constants::MAP_HEIGHT {
        !is_blocked(nx, ny, map, objects)
    } else {
        false
    };
    if free {
        let mut o = objects.remove(id);
        o.set_pos(nx, ny);
        objects.insert(id, o);
        proof {
            assert(objects@ =~= old(objects)@.update(id as int, objects@[id as int]));
        }
    } else {
        proof {
            assert(objects@ =~= old(objects)@.update(id as int, objects@[id as int]));
        }
    }
}

/// The greedy unit step toward a target along one axis: the normalized
/// component rounded to the nearest integer (half away from zero).  For a
/// displacement `(dx, dy)` the x component rounds to ±1 exactly when
/// `3·dx² ≥ dy²` — the integer form of `|dx|/√(dx²+dy²) ≥ 1/2`.
pub open spec fn step_toward(dx: int, dy: int) -> int {
    if dx > 0 && 3 * dx * dx >= dy * dy {
        1
    } else if dx < 0 && 3 * dx * dx >= dy * dy {
        -1
    } else {
        0
    }
}

/// Computes the unit step components toward `(target_x, target_y)`.
fn unit_step(x: i32, y: i32, target_x: i32, target_y: i32) -> (step: (i32, i32))
    requires
        on_map(x as int, y as int),
        on_map(target_x as int, target_y as int),
    ensures
        step.0 == step_toward(target_x - x, target_y - y),
        step.1 == step_toward(target_y - y, target_x - x),
        -1 <= step.0 <= 1,
        -1 <= step.1 <= 1,
{
    let dx: i64 = (target_x - x) as i64;
    let dy: i64 = (target_y - y) as i64;
    proof {
        assert(-100_000 <= 3 * dx * dx <= 100_000 && -100_000 <= dx * dx <= 100_000 && -100_000
            <= 3 * dy * dy <= 100_000 && -100_000 <= dy * dy <= 100_000 && -300 <= 3 * dx <= 300
            && -300 <= 3 * dy <= 300) by (nonlinear_arith)
            requires
                -100 <= dx <= 100,
                -100 <= dy <= 100,
        ;
    }
    let sx: i32 = if dx > 0 && 3 * dx * dx >= dy * dy {
        1
    } else if dx < 0 && 3 * dx * dx >= dy * dy {
        -1
    } else {
        0
    };
    let sy: i32 = if dy > 0 && 3 * dy * dy >= dx * dx {
        1
    } else if dy < 0 && 3 * dy * dy >= dx * dx {
        -1
    } else {
        0
    };
    (sx, sy)
}

/// Moves the entity at `id` one greedy unit step toward `(target_x,
/// target_y)`, colliding silently.
pub fn move_towards(
    id: usize,
    target_x: i32,
    target_y: i32,
    map: &DungeonMap,
    objects: &mut Vec<Object>,
)
    requires
        map_wf(map_view(map)),
        id < old(objects)@.len(),
        on_map(old(objects)@[id as int].x as int, old(objects)@[id as int].y as int),
        on_map(target_x as int, target_y as int),
    ensures
        ({
            let m = old(objects)@[id as int];
            let sx = step_toward(target_x - m.x, target_y - m.y);
            let sy = step_toward(target_y - m.y, target_x - m.x);
            final(objects)@ == old(objects)@.update(
                id as int,
                Object {
                    x: moved_pos(map_view(map), old(objects)@, id as int, sx, sy).0 as i32,
                    y: moved_pos(map_view(map), old(objects)@, id as int, sx, sy).1 as i32,
                    ..m
                },
            )
        }),
{
    let x = objects[id].x;
    let y = objects[id].y;
    let (sx, sy) = unit_step(x, y, target_x, target_y);
    move_by(id, sx, sy, map, objects);
}

/// Announcement that a monster's confusion has worn off.
pub open spec fn no_longer_confused_msg(name: Seq<char>) -> Seq<char> {
    "The "@ + name + " is no longer confused!"@
}

/// The decision-state transition evaluated once per turn: `Basic` stays
/// `Basic`; `Confused` counts its remaining turns down and resumes the
/// wrapped state exactly when the counter is exhausted.
pub open spec fn ai_state_after(ai: Ai) -> Ai {
    match ai {
        Ai::Basic => Ai::Basic,
        Ai::Confused { previous_ai, num_turns } => if num_turns > 0 {
            Ai::Confused { previous_ai, num_turns: (num_turns - 1) as i32 }
        } else {
            *previous_ai
        },
    }
}

/// The decision state after `k` per-turn evaluations.
pub open spec fn ai_state_iter(ai: Ai, k: nat) -> Ai
    decreases k,
{
    if k == 0 {
        ai
    } else {
        ai_state_after(ai_state_iter(ai, (k - 1) as nat))
    }
}

/// True when `ai` is `Confused` wrapping `prev` with `n` turns remaining.
pub open spec fn confused_with(ai: Ai, prev: Ai, n: int) -> bool {
    ai matches Ai::Confused { previous_ai, num_turns } && *previous_ai == prev && num_turns == n
}

/// A monster pushed into `Confused` with `r` remaining turns stays confused
/// through the first `r` evaluations — its counter reading `r, r−1, …` and
/// reaching 0 just before the last one — and returns to the wrapped state
/// exactly on evaluation `r + 1`, never earlier.
pub proof fn lemma_confusion_reverts(ai: Ai, prev: Ai, r: int)
    requires
        confused_with(ai, prev, r),
        r >= 0,
    ensures
        forall|k: int|
            0 <= k <= r ==> confused_with(#[trigger] ai_state_iter(ai, k as nat), prev, r - k),
        ai_state_iter(ai, (r + 1) as nat) == prev,
    decreases r,
{
    assert(ai_state_iter(ai, 0) == ai);
    if r == 0 {
        assert(ai_state_iter(ai, 1) == ai_state_after(ai));
    } else {
        let ai1 = ai_state_after(ai);
        assert(confused_with(ai1, prev, r - 1));
        lemma_confusion_reverts(ai1, prev, r - 1);
        assert forall|k: int|
            0 <= k <= r implies confused_with(#[trigger] ai_state_iter(ai, k as nat), prev, r - k) by {
            if k > 0 {
                lemma_ai_iter_shift(ai, (k - 1) as nat);
                assert(ai_state_iter(ai, k as nat) == ai_state_iter(ai1, (k - 1) as nat));
            }
        }
        lemma_ai_iter_shift(ai, r as nat);
        assert(ai_state_iter(ai, (r + 1) as nat) == ai_state_iter(ai1, r as nat));
    }
}

/// Iterating `k + 1` times is one step followed by `k` iterations.
pub proof fn lemma_ai_iter_shift(ai: Ai, k: nat)
    ensures
        ai_state_iter(ai, k + 1) == ai_state_iter(ai_state_after(ai), k),
    decreases k,
{
    if k == 0 {
        assert(ai_state_iter(ai, 1) == ai_state_after(ai_state_iter(ai, 0)));
        assert(ai_state_iter(ai, 0) == ai);
        assert(ai_state_iter(ai_state_after(ai), 0) == ai_state_after(ai));
    } else {
        lemma_ai_iter_shift(ai, (k - 1) as nat);
        assert(ai_state_iter(ai, k + 1) == ai_state_after(ai_state_iter(ai, k)));
        assert(ai_state_iter(ai_state_after(ai), k) == ai_state_after(
            ai_state_iter(ai_state_after(ai), (k - 1) as nat),
        ));
    }
}

/// The world transform of one `Basic` evaluation: invisible monsters do
/// nothing; a visible monster two or more tiles away steps toward the
/// player; an adjacent one attacks while the player has hit points left.
pub open spec fn ai_basic_post(
    map: Seq<Seq<crate::tile::Tile>>,
    old_objects: Seq<Object>,
    old_game: Game,
    new_objects: Seq<Object>,
    new_game: Game,
    fov: VisionGrid,
    id: int,
) -> bool {
    let m = old_objects[id];
    let p = old_objects[0];
    if fov.sees(m.x as int, m.y as int) {
        if dist_sq(m.x as int, m.y as int, p.x as int, p.y as int) >= 4 {
            let sx = step_toward(p.x - m.x, p.y - m.y);
            let sy = step_toward(p.y - m.y, p.x - m.x);
            &&& new_objects == old_objects.update(
                id,
                Object {
                    x: moved_pos(map, old_objects, id, sx, sy).0 as i32,
                    y: moved_pos(map, old_objects, id, sx, sy).1 as i32,
                    ..m
                },
            )
            &&& new_game == old_game
        } else if p.fighter matches Some(pf) && pf.hp > 0 {
            &&& attack_outcome(m, p, old_game.inventory@, new_objects[id], new_objects[0])
            &&& attack_log(m, p, old_game.inventory@, old_game.log@, new_game.log@)
            &&& new_objects == old_objects.update(id, new_objects[id]).update(0, new_objects[0])
            &&& crate::game::same_but_log(old_game, new_game)
        } else {
            new_objects == old_objects && new_game == old_game
        }
    } else {
        new_objects == old_objects && new_game == old_game
    }
}

/// One evaluation of the `Basic` state: chase the player while at distance,
/// attack when adjacent and the player still stands, do nothing unseen.
pub fn ai_basic(monster_id: usize, objects: &mut Vec<Object>, game: &mut Game, fov: &VisionGrid)
    requires
        old(game).wf(),
        store_wf(old(objects)@),
        fov.wf(),
        0 < monster_id < old(objects)@.len(),
        old(objects)@[monster_id as int].fighter is Some,
        old(objects)@[monster_id as int].fighter.unwrap().xp + xp_of(old(objects)@[0])
            <= XP_MAX,
    ensures
        final(game).wf(),
        store_wf(final(objects)@),
        ai_basic_post(
            map_view(&old(game).map),
            old(objects)@,
            *old(game),
            final(objects)@,
            *final(game),
            *fov,
            monster_id as int,
        ),
        final(game).map == old(game).map,
{
    let mx = objects[monster_id].x;
    let my = objects[monster_id].y;
    if fov.is_in_fov(mx, my) {
        let d = objects[monster_id].distance_to_sq(&objects[PLAYER]);
        if d >= 4 {
            let px = objects[PLAYER].x;
            let py = objects[PLAYER].y;
            move_towards(monster_id, px, py, &game.map, objects);
        } else {
            let player_stands = match &objects[PLAYER].fighter {
                Some(f) => f.hp > 0,
                None => false,
            };
            if player_stands {
                let mut monster = objects.remove(monster_id);
                let mut player_obj = objects.remove(0);
                monster.attack(&mut player_obj, game);
                objects.insert(0, player_obj);
                objects.insert(monster_id, monster);
                proof {
                    assert(objects@ =~= old(objects)@.update(
                        monster_id as int,
                        objects@[monster_id as int],
                    ).update(0, objects@[0]));
                }
            }
        }
    }
}

/// The world transform of one `Confused` evaluation: with turns remaining
/// the monster takes one random step (collisions silently absorbed) and the
/// counter falls by one; with none left a message announces recovery and the
/// wrapped state resumes.
pub open spec fn ai_confused_post(
    map: Seq<Seq<crate::tile::Tile>>,
    old_objects: Seq<Object>,
    old_game: Game,
    new_objects: Seq<Object>,
    new_game: Game,
    id: int,
    prev: Ai,
    num_turns: int,
    rng0: RngState,
    rng1: RngState,
) -> bool {
    let m = old_objects[id];
    if num_turns > 0 {
        let dx = (rng_next(rng0.state) % 3) as int - 1;
        let dy = (rng_next(rng_next(rng0.state)) % 3) as int - 1;
        &&& new_objects == old_objects.update(
            id,
            Object {
                x: moved_pos(map, old_objects, id, dx, dy).0 as i32,
                y: moved_pos(map, old_objects, id, dx, dy).1 as i32,
                ai: new_objects[id].ai,
                ..m
            },
        )
        &&& confused_with(new_objects[id].ai.unwrap(), prev, num_turns - 1)
        &&& new_objects[id].ai is Some
        &&& new_game == old_game
        &&& rng1.state == rng_next(rng_next(rng0.state))
    } else {
        &&& new_objects == old_objects.update(id, Object { ai: new_objects[id].ai, ..m })
        &&& new_objects[id].ai == Some(prev)
        &&& crate::game::same_but_log(old_game, new_game)
        &&& log_appended(
            old_game.log@,
            new_game.log@,
            no_longer_confused_msg(m.name@),
            Color::Red,
        )
        &&& rng1 == rng0
    }
}

/// One evaluation of the `Confused` state for the monster at `id`.
fn ai_confused(
    monster_id: usize,
    previous_ai: Box<Ai>,
    num_turns: i32,
    objects: &mut Vec<Object>,
    game: &mut Game,
    rng: &mut RngState,
) -> (new_ai: Ai)
    requires
        old(game).wf(),
        store_wf(old(objects)@),
        0 < monster_id < old(objects)@.len(),
    ensures
        final(game).wf(),
        store_wf(final(objects)@),
        ({
            let m = old(objects)@[monster_id as int];
            if num_turns > 0 {
                let dx = (rng_next(old(rng).state) % 3) as int - 1;
                let dy = (rng_next(rng_next(old(rng).state)) % 3) as int - 1;
                &&& final(objects)@ == old(objects)@.update(
                    monster_id as int,
                    Object {
                        x: moved_pos(
                            map_view(&old(game).map),
                            old(objects)@,
                            monster_id as int,
                            dx,
                            dy,
                        ).0 as i32,
                        y: moved_pos(
                            map_view(&old(game).map),
                            old(objects)@,
                            monster_id as int,
                            dx,
                            dy,
                        ).1 as i32,
                        ..m
                    },
                )
                &&& confused_with(new_ai, *previous_ai, num_turns - 1)
                &&& *final(game) == *old(game)
                &&& final(rng).state == rng_next(rng_next(old(rng).state))
            } else {
                &&& final(objects)@ == old(objects)@
                &&& new_ai == *previous_ai
                &&& crate::game::same_but_log(*old(game), *final(game))
                &&& log_appended(
                    old(game).log@,
                    final(game).log@,
                    no_longer_confused_msg(m.name@),
                    Color::Red,
                )
                &&& *final(rng) == *old(rng)
            }
        }),
{
    if num_turns > 0 {
        let ddx = rng.range_inclusive(-1, 1);
        let ddy = rng.range_inclusive(-1, 1);
        move_by(monster_id, ddx, ddy, &game.map, objects);
        Ai::Confused { previous_ai, num_turns: num_turns - 1 }
    } else {
        let mut m: String = "The ".to_owned();
        m.append(objects[monster_id].name.as_str());
        m.append(" is no longer confused!");
        game.log.add(m, Color::Red);
        *previous_ai
    }
}

/// The world transform of one decision-process evaluation for the monster at
/// `id`: nothing without a decision state; otherwise the state steps through
/// `ai_state_after` while the world changes as the state's evaluation says.
#[verifier::opaque]
pub open spec fn ai_take_turn_post(
    map: Seq<Seq<crate::tile::Tile>>,
    old_objects: Seq<Object>,
    old_game: Game,
    new_objects: Seq<Object>,
    new_game: Game,
    id: int,
    fov: VisionGrid,
    rng0: RngState,
    rng1: RngState,
) -> bool {
    match old_objects[id].ai {
        None => new_objects == old_objects && new_game == old_game && rng1 == rng0,
        Some(a) => {
            &&& new_objects[id].ai == Some(ai_state_after(a))
            &&& match a {
                Ai::Basic => {
                    &&& ai_basic_post(
                        map,
                        old_objects,
                        old_game,
                        new_objects,
                        new_game,
                        fov,
                        id,
                    )
                    &&& rng1 == rng0
                },
                Ai::Confused { previous_ai, num_turns } => ai_confused_post(
                    map,
                    old_objects,
                    old_game,
                    new_objects,
                    new_game,
                    id,
                    *previous_ai,
                    num_turns as int,
                    rng0,
                    rng1,
                ),
            }
        },
    }
}

/// Evaluates the decision process of the monster at `monster_id` once.
pub fn ai_take_turn(
    monster_id: usize,
    objects: &mut Vec<Object>,
    game: &mut Game,
    fov: &VisionGrid,
    rng: &mut RngState,
)
    requires
        old(game).wf(),
        store_wf(old(objects)@),
        fov.wf(),
        0 < monster_id < old(objects)@.len(),
        old(objects)@[monster_id as int].ai is Some ==> old(objects)@[monster_id as int].fighter
            is Some,
        old(objects)@[monster_id as int].fighter is Some ==> old(
            objects,
        )@[monster_id as int].fighter.unwrap().xp + xp_of(old(objects)@[0]) <= XP_MAX,
    ensures
        final(game).wf(),
        store_wf(final(objects)@),
        ai_take_turn_post(
            map_view(&old(game).map),
            old(objects)@,
            *old(game),
            final(objects)@,
            *final(game),
            monster_id as int,
            *fov,
            *old(rng),
            *final(rng),
        ),
        final(game).map == old(game).map,
        final(objects)@.len() == old(objects)@.len(),
        forall|i: int|
            monster_id < i < final(objects)@.len() ==> #[trigger] final(objects)@[i] == old(
                objects,
            )@[i],
        xp_of(final(objects)@[0]) == xp_of(old(objects)@[0]),
        final(game).inventory == old(game).inventory,
        final(game).dungeon_level == old(game).dungeon_level,
{
    proof {
        reveal(ai_take_turn_post);
    }
    let ai_opt = match &objects[monster_id].ai {
        Some(a) => Some(a.clone()),
        None => None,
    };
    match ai_opt {
        None => {},
        Some(Ai::Basic) => {
            ai_basic(monster_id, objects, game, fov);
            proof {
                assert(objects@[monster_id as int].ai == Some(Ai::Basic));
            }
        },
        Some(Ai::Confused { previous_ai, num_turns }) => {
            let new_ai = ai_confused(monster_id, previous_ai, num_turns, objects, game, rng);
            let mut monster = objects.remove(monster_id);
            monster.ai = Some(new_ai);
            objects.insert(monster_id, monster);
            proof {
                assert(objects@ =~= old(objects)@.update(
                    monster_id as int,
                    objects@[monster_id as int],
                ));
            }
        },
    }
}

} // verus!
