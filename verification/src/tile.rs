//! The static tile grid: passability, opacity and the explored flag.

use vstd::prelude::*;

use crate::constants::{MAP_HEIGHT, MAP_WIDTH};

verus! {

/// One cell of the dungeon grid.  `blocked` and `block_sight` are fixed at
/// generation time; `explored` is set by the visibility pass and never reset.
#[derive(Clone, Copy, Debug, PartialEq, Eq, Structural)]
pub struct Tile {
    pub blocked: bool,
    pub block_sight: bool,
    pub explored: bool,
}

impl Tile {
    /// A walkable, see-through, unexplored tile.
    pub fn empty() -> (t: Tile)
        ensures
            t == (Tile { blocked: false, block_sight: false, explored: false }),
    {
        Tile { blocked: false, block_sight: false, explored: false }
    }

    /// A solid wall tile.
    pub fn wall() -> (t: Tile)
        ensures
            t == (Tile { blocked: true, block_sight: true, explored: false }),
    {
        Tile { blocked: true, block_sight: true, explored: false }
    }
}

/// The dungeon grid, indexed `[x][y]` as a vector of columns.
pub type DungeonMap = Vec<Vec<Tile>>;

/// A well-formed map is exactly `MAP_WIDTH` columns of `MAP_HEIGHT` tiles.
pub open spec fn map_wf(map: Seq<Seq<Tile>>) -> bool {
    &&& map.len() == MAP_WIDTH
    &&& forall|x: int| 0 <= x < map.len() ==> (#[trigger] map[x]).len() == MAP_HEIGHT
}

/// The tile of `map` at integer coordinates `(x, y)`.
pub open spec fn tile_at(map: Seq<Seq<Tile>>, x: int, y: int) -> Tile {
    map[x][y]
}

/// True when `(x, y)` lies on the grid.
pub open spec fn on_map(x: int, y: int) -> bool {
    0 <= x < MAP_WIDTH && 0 <= y < MAP_HEIGHT
}

/// The view of an executable map as a sequence of columns.
pub open spec fn map_view(map: &DungeonMap) -> Seq<Seq<Tile>> {
    map@.map_values(|col: Vec<Tile>| col@)
}

/// Reads the tile at `(x, y)`.
pub fn map_tile(map: &DungeonMap, x: i32, y: i32) -> (t: Tile)
    requires
        map_wf(map_view(map)),
        on_map(x as int, y as int),
    ensures
        t == tile_at(map_view(map), x as int, y as int),
{
    proof {
        assert(map@[x as int]@ == map_view(map)[x as int]);
        assert(map_view(map)[x as int].len() == MAP_HEIGHT);
    }
    map[x as usize][y as usize]
}

/// Replaces the tile at `(x, y)`.
pub fn map_set_tile(map: &mut DungeonMap, x: i32, y: i32, t: Tile)
    requires
        map_wf(map_view(old(map))),
        on_map(x as int, y as int),
    ensures
        map_wf(map_view(final(map))),
        map_view(final(map)) == map_view(old(map)).update(
            x as int,
            map_view(old(map))[x as int].update(y as int, t),
        ),
{
    proof {
        assert(old(map)@[x as int]@ == map_view(old(map))[x as int]);
        assert(map_view(old(map))[x as int].len() == MAP_HEIGHT);
    }
    let column = &mut map[x as usize];
    column[y as usize] = t;
    proof {
        assert(map_view(map) =~= map_view(old(map)).update(
            x as int,
            map_view(old(map))[x as int].update(y as int, t),
        ));
    }
}

/// Builds a fully walled map of the standard dimensions.
pub fn walled_map() -> (map: DungeonMap)
    ensures
        map_wf(map_view(&map)),
        forall|x: int, y: int|
            on_map(x, y) ==> tile_at(map_view(&map), x, y) == (Tile {
                blocked: true,
                block_sight: true,
                explored: false,
            }),
{
    let mut map: DungeonMap = Vec::new();
    while map.len() < MAP_WIDTH as usize
        invariant
            map@.len() <= MAP_WIDTH,
            forall|x: int| 0 <= x < map@.len() ==> (#[trigger] map_view(&map)[x]).len()
                == MAP_HEIGHT,
            forall|x: int, y: int|
                0 <= x < map@.len() && 0 <= y < MAP_HEIGHT ==> map_view(&map)[x][y] == (Tile {
                    blocked: true,
                    block_sight: true,
                    explored: false,
                }),
        decreases MAP_WIDTH - map@.len(),
    {
        let mut column: Vec<Tile> = Vec::new();
        while column.len() < MAP_HEIGHT as usize
            invariant
                column@.len() <= MAP_HEIGHT,
                forall|y: int| 0 <= y < column@.len() ==> column@[y] == (Tile {
                    blocked: true,
                    block_sight: true,
                    explored: false,
                }),
            decreases MAP_HEIGHT - column@.len(),
        {
            column.push(Tile::wall());
        }
        let ghost prev = map_view(&map);
        let ghost col_view = column@;
        map.push(column);
        proof {
            assert(map_view(&map) =~= prev.push(col_view));
        }
    }
    map
}

} // verus!
