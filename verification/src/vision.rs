//! The visibility oracle's answer as plain data.
//!
//! The field-of-view computation itself is an external collaborator; the
//! engine only consumes its result: a grid of booleans saying which tiles
//! are currently visible from the player's position.

use vstd::prelude::*;

use crate::constants::{MAP_HEIGHT, MAP_WIDTH};
use crate::tile::on_map;

verus! {

/// One visibility answer per map tile, indexed `[x][y]`.
pub struct VisionGrid {
    pub cells: Vec<Vec<bool>>,
}

/// The view of a vision grid as a sequence of columns.
pub open spec fn vision_view(v: &VisionGrid) -> Seq<Seq<bool>> {
    v.cells@.map_values(|col: Vec<bool>| col@)
}

impl VisionGrid {
    /// The grid has the standard map dimensions.
    pub open spec fn wf(self) -> bool {
        &&& vision_view(&self).len() == MAP_WIDTH
        &&& forall|x: int|
            0 <= x < vision_view(&self).len() ==> (#[trigger] vision_view(&self)[x]).len()
                == MAP_HEIGHT
    }

    /// True when the oracle reported `(x, y)` visible.
    pub open spec fn sees(self, x: int, y: int) -> bool {
        on_map(x, y) && vision_view(&self)[x][y]
    }

    /// Builds a grid from the oracle's raw answer.
    pub fn from_cells(cells: Vec<Vec<bool>>) -> (v: VisionGrid)
        requires
            cells@.len() == MAP_WIDTH,
            forall|x: int| 0 <= x < cells@.len() ==> (#[trigger] cells@[x])@.len() == MAP_HEIGHT,
        ensures
            v.wf(),
            v.cells@ == cells@,
    {
        let v = VisionGrid { cells };
        proof {
            assert(forall|x: int|
                0 <= x < vision_view(&v).len() ==> (#[trigger] vision_view(&v)[x]).len()
                    == MAP_HEIGHT);
        }
        v
    }

    /// Queries the oracle's answer for `(x, y)`.
    pub fn is_in_fov(&self, x: i32, y: i32) -> (r: bool)
        requires
            self.wf(),
            on_map(x as int, y as int),
        ensures
            r == self.sees(x as int, y as int),
    {
        proof {
            assert(self.cells@[x as int]@ == vision_view(self)[x as int]);
            assert(vision_view(self)[x as int].len() == MAP_HEIGHT);
        }
        self.cells[x as usize][y as usize]
    }
}

} // verus!
