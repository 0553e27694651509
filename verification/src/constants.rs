//! Tunable rule constants: map dimensions, combat amounts, item parameters
//! and the bounds that keep every arithmetic step inside `i32`.

use vstd::prelude::*;

verus! {

/// Index of the player in the entity store; it never changes for a session.
pub const PLAYER: usize = 0;

/// Width of the dungeon grid in tiles.
pub const MAP_WIDTH: i32 = 80;
/// Height of the dungeon grid in tiles.
pub const MAP_HEIGHT: i32 = 43;

/// Largest width or height of a generated room, walls excluded.
pub const ROOM_MAX_SIZE: i32 = 10;
/// Smallest width or height of a generated room, walls excluded.
pub const ROOM_MIN_SIZE: i32 = 6;
/// Number of room placements attempted per dungeon.
pub const MAX_ROOMS: i32 = 30;

/// Hit points restored by a healing potion.
pub const HEAL_AMOUNT: i32 = 40;
/// Damage dealt by a lightning scroll.
pub const LIGHTNING_DAMAGE: i32 = 40;
/// Range, in tiles, within which lightning can strike.
pub const LIGHTNING_RANGE: i32 = 5;
/// Range, in tiles, within which a monster can be confused.
pub const CONFUSE_RANGE: i32 = 8;
/// Number of turns a confused monster stumbles around.
pub const CONFUSE_NUM_TURNS: i32 = 10;
/// Radius, in tiles, of a fireball explosion.
pub const FIREBALL_RADIUS: i32 = 3;
/// Damage dealt by a fireball to everything in its radius.
pub const FIREBALL_DAMAGE: i32 = 25;

/// Most items an inventory can hold (one per menu letter).
pub const INVENTORY_CAPACITY: usize = 26;

/// Base experience needed for the first level-up.
pub const LEVEL_UP_BASE: i32 = 200;
/// Additional experience needed per level already gained.
pub const LEVEL_UP_FACTOR: i32 = 150;

/// Radius of the player's light source, handed to the visibility oracle.
pub const TORCH_RADIUS: i32 = 10;

/// Upper bound on any single base stat or equipment bonus.
///
/// With at most `INVENTORY_CAPACITY` equipped bonuses on top of one base
/// stat, every effective stat stays at or below `EFFECTIVE_STAT_MAX`, so
/// damage computations cannot overflow `i32`.
pub const STAT_MAX: i32 = 10_000_000;

/// Upper bound on an effective stat: a base plus 26 bonuses.
pub const EFFECTIVE_STAT_MAX: i32 = 270_000_000;

/// Bounds on a fighter's current hit points.  The lower bound holds because
/// damage is only ever applied to a fighter with positive hit points, and a
/// single blow removes at most `EFFECTIVE_STAT_MAX`.
pub const HP_MIN: i32 = -270_000_000;
/// Upper bound on a fighter's current hit points.
pub const HP_MAX: i32 = 1_000_000_000;

/// Upper bound on a single entity's experience field under which one more
/// transfer is guaranteed not to overflow.
pub const XP_MAX: i32 = 1_000_000_000;

} // verus!
