//! The computational half of the interactive chrome: menu letter mapping,
//! inventory option lists, targeting validation, and the explored-tile pass
//! that the renderer triggers.  Drawing itself is an external collaborator.

use vstd::prelude::*;

use crate::constants::INVENTORY_CAPACITY;
use crate::objects::{dist_sq, Object};
use crate::tile::{map_view, map_wf, on_map, tile_at, DungeonMap, Tile};
use crate::vision::VisionGrid;

verus! {

/// Maps a typed menu letter to the option it selects: `a` is option 0, `b`
/// option 1, and so on; letters past the option count select nothing.
pub fn menu_index(letter: char, option_count: usize) -> (r: Option<usize>)
    requires
        option_count <= INVENTORY_CAPACITY,
    ensures
        ({
            let ix = letter as int - 'a' as int;
            if 0 <= ix < option_count {
                r == Some(ix as usize)
            } else {
                r is None
            }
        }),
{
    let code = letter as u32;
    let base = 'a' as u32;
    if code >= base && (code - base) < option_count as u32 {
        Some((code - base) as usize)
    } else {
        None
    }
}

/// The option texts of an inventory menu: one entry per carried item's name,
/// or a single placeholder line when the inventory is empty.
pub fn inventory_options(inventory: &Vec<Object>) -> (r: Vec<String>)
    ensures
        inventory@.len() == 0 ==> r@.len() == 1 && r@[0]@ == "Inventory is empty."@,
        inventory@.len() > 0 ==> r@.len() == inventory@.len() && forall|i: int|
            0 <= i < r@.len() ==> (#[trigger] r@[i])@ == inventory@[i].name@,
{
    if inventory.len() == 0 {
        let mut r: Vec<String> = Vec::new();
        r.push("Inventory is empty.".to_owned());
        proof {
            assert(r@[0]@ == "Inventory is empty."@);
        }
        r
    } else {
        let mut r: Vec<String> = Vec::new();
        let mut i: usize = 0;
        while i < inventory.len()
            invariant
                i <= inventory@.len(),
                r@.len() == i,
                forall|k: int| 0 <= k < i ==> (#[trigger] r@[k])@ == inventory@[k].name@,
            decreases inventory@.len() - i,
        {
            r.push(inventory[i].name.clone());
            i = i + 1;
        }
        r
    }
}

/// True when a click at `(x, y)` is a valid selection: on the map, currently
/// visible, and within the given squared range of the player when a range is
/// given.
pub fn accept_target(
    x: i32,
    y: i32,
    player: &Object,
    fov: &VisionGrid,
    max_range_sq: Option<i64>,
) -> (r: bool)
    requires
        fov.wf(),
        player.wf(),
    ensures
        r == (on_map(x as int, y as int) && fov.sees(x as int, y as int) && (
        match max_range_sq {
            Some(limit) => dist_sq(player.x as int, player.y as int, x as int, y as int)
                <= limit,
            None => true,
        })),
{
    if !(0 <= x && x < crate::constants::MAP_WIDTH && 0 <= y && y
        < crate::constants::MAP_HEIGHT) {
        return false;
    }
    if !fov.is_in_fov(x, y) {
        return false;
    }
    match max_range_sq {
        Some(limit) => player.distance_sq(x, y) <= limit,
        None => true,
    }
}

/// The names of the currently visible entities standing on `(x, y)`, in
/// store order.
pub open spec fn spec_names_at(
    objects: Seq<Object>,
    x: int,
    y: int,
    fov: VisionGrid,
) -> Seq<Seq<char>>
    decreases objects.len(),
{
    if objects.len() == 0 {
        Seq::empty()
    } else {
        let rest = spec_names_at(objects.drop_last(), x, y, fov);
        let o = objects.last();
        if o.x == x && o.y == y && fov.sees(o.x as int, o.y as int) {
            rest.push(o.name@)
        } else {
            rest
        }
    }
}

/// Collects the names of the visible entities under the pointer, for the
/// interactive layer to join and display.
pub fn names_at(objects: &Vec<Object>, x: i32, y: i32, fov: &VisionGrid) -> (r: Vec<String>)
    requires
        fov.wf(),
        forall|i: int|
            0 <= i < objects@.len() ==> on_map(
                (#[trigger] objects@[i]).x as int,
                objects@[i].y as int,
            ),
    ensures
        r@.map_values(|s: String| s@) == spec_names_at(objects@, x as int, y as int, *fov),
{
    let mut r: Vec<String> = Vec::new();
    let mut i: usize = 0;
    proof {
        assert(r@.map_values(|s: String| s@) =~= spec_names_at(
            objects@.take(0),
            x as int,
            y as int,
            *fov,
        ));
    }
    while i < objects.len()
        invariant
            i <= objects@.len(),
            fov.wf(),
            forall|k: int|
                0 <= k < objects@.len() ==> on_map(
                    (#[trigger] objects@[k]).x as int,
                    objects@[k].y as int,
                ),
            r@.map_values(|s: String| s@) == spec_names_at(
                objects@.take(i as int),
                x as int,
                y as int,
                *fov,
            ),
        decreases objects@.len() - i,
    {
        let o = &objects[i];
        proof {
            assert(objects@.take(i + 1).drop_last() =~= objects@.take(i as int));
            assert(objects@.take(i + 1).last() == objects@[i as int]);
        }
        if o.x == x && o.y == y && fov.is_in_fov(o.x, o.y) {
            let ghost prev = r@.map_values(|s: String| s@);
            r.push(o.name.clone());
            proof {
                assert(r@.map_values(|s: String| s@) =~= prev.push(objects@[i as int].name@));
            }
        }
        i = i + 1;
    }
    proof {
        assert(objects@.take(objects@.len() as int) =~= objects@);
    }
    r
}

/// Marks every currently visible tile explored; explored flags are never
/// reset.
pub fn update_explored(map: &mut DungeonMap, fov: &VisionGrid)
    requires
        map_wf(map_view(old(map))),
        fov.wf(),
    ensures
        map_wf(map_view(final(map))),
        forall|x: int, y: int|
            on_map(x, y) ==> tile_at(map_view(final(map)), x, y) == (Tile {
                explored: tile_at(map_view(old(map)), x, y).explored || fov.sees(x, y),
                ..tile_at(map_view(old(map)), x, y)
            }),
{
    let mut x: i32 = 0;
    while x < crate::constants::MAP_WIDTH
        invariant
            map_wf(map_view(map)),
            fov.wf(),
            0 <= x <= crate::constants::MAP_WIDTH,
            forall|xi: int, yi: int|
                on_map(xi, yi) ==> tile_at(map_view(map), xi, yi) == (if xi < x {
                    Tile {
                        explored: tile_at(map_view(old(map)), xi, yi).explored || fov.sees(
                            xi,
                            yi,
                        ),
                        ..tile_at(map_view(old(map)), xi, yi)
                    }
                } else {
                    tile_at(map_view(old(map)), xi, yi)
                }),
        decreases crate::constants::MAP_WIDTH - x,
    {
        let mut y: i32 = 0;
        while y < crate::constants::MAP_HEIGHT
            invariant
                map_wf(map_view(map)),
                fov.wf(),
                0 <= x < crate::constants::MAP_WIDTH,
                0 <= y <= crate::constants::MAP_HEIGHT,
                forall|xi: int, yi: int|
                    on_map(xi, yi) ==> tile_at(map_view(map), xi, yi) == (if xi < x || (xi == x
                        && yi < y) {
                        Tile {
                            explored: tile_at(map_view(old(map)), xi, yi).explored || fov.sees(
                                xi,
                                yi,
                            ),
                            ..tile_at(map_view(old(map)), xi, yi)
                        }
                    } else {
                        tile_at(map_view(old(map)), xi, yi)
                    }),
            decreases crate::constants::MAP_HEIGHT - y,
        {
            let visible = fov.is_in_fov(x, y);
            if visible {
                let t = crate::tile::map_tile(map, x, y);
                crate::tile::map_set_tile(
                    map,
                    x,
                    y,
                    Tile { explored: true, ..t },
                );
            }
            y = y + 1;
        }
        x = x + 1;
    }
}

} // verus!
