//! The player's field of view, as the simulation reads it. Computing it is
//! left to whoever draws the level.

use vstd::prelude::*;
use crate::map::{Tile, TileGrid, in_grid};
use crate::object::Object;
use crate::settings::PLAYER;

verus! {

/// The cells that the player can currently see, stored column by column:
/// `cells[x][y]`.
#[derive(Clone, Debug, PartialEq, Eq)]
pub struct FovMap {
    pub cells: Vec<Vec<bool>>,
}

impl View for FovMap {
    type V = Seq<Seq<bool>>;

    open spec fn view(&self) -> Seq<Seq<bool>> {
        Seq::new(self.cells@.len(), |x: int| self.cells@[x]@)
    }
}

/// Whether `(x, y)` is a cell that can be seen. A cell that the field of view
/// does not cover cannot.
pub open spec fn visible_at(fov: Seq<Seq<bool>>, x: int, y: int) -> bool {
    0 <= x < fov.len() && 0 <= y < fov[x].len() && fov[x][y]
}

/// The grid in which every visible cell has been marked as explored.
pub open spec fn explored_where(grid: Seq<Seq<Tile>>, fov: Seq<Seq<bool>>) -> Seq<Seq<Tile>> {
    Seq::new(
        grid.len(),
        |x: int|
            Seq::new(
                grid[x].len(),
                |y: int|
                    if visible_at(fov, x, y) {
                        Tile { explored: true, ..grid[x][y] }
                    } else {
                        grid[x][y]
                    },
            ),
    )
}

impl FovMap {
    /// A field of view of the given size in which nothing can be seen.
    pub fn new(width: usize, height: usize) -> (fov: FovMap)
        ensures
            fov@.len() == width,
            forall|x: int| 0 <= x < width ==> (#[trigger] fov@[x]).len() == height,
            forall|x: int, y: int| !visible_at(fov@, x, y),
    {
        let mut cells: Vec<Vec<bool>> = Vec::new();
        let mut x: usize = 0;
        while x < width
            invariant
                x <= width,
                cells@.len() == x,
                forall|i: int| 0 <= i < x ==> (#[trigger] cells@[i])@.len() == height,
                forall|i: int, j: int| 0 <= i < x && 0 <= j < height ==> !(#[trigger] cells@[i]@[j]),
            decreases width - x,
        {
            let mut column: Vec<bool> = Vec::new();
            let mut y: usize = 0;
            while y < height
                invariant
                    y <= height,
                    column@.len() == y,
                    forall|j: int| 0 <= j < y ==> !(#[trigger] column@[j]),
                decreases height - y,
            {
                column.push(false);
                y += 1;
            }
            cells.push(column);
            x += 1;
        }
        FovMap { cells }
    }

    /// Whether the cell in column `x` and row `y` can be seen.
    pub fn sees(&self, x: usize, y: usize) -> (b: bool)
        ensures
            b == visible_at(self@, x as int, y as int),
    {
        x < self.cells.len() && y < self.cells[x].len() && self.cells[x][y]
    }

    /// Whether the cell `(x, y)` can be seen.
    pub fn is_in_fov(&self, x: i32, y: i32) -> (b: bool)
        ensures
            b == visible_at(self@, x as int, y as int),
    {
        x >= 0 && y >= 0 && self.sees(x as usize, y as usize)
    }

    /// Records whether the cell `(x, y)` can be seen.
    pub fn set(&mut self, x: i32, y: i32, visible: bool)
        requires
            0 <= x < old(self)@.len(),
            0 <= y < old(self)@[x as int].len(),
        ensures
            final(self)@ == old(self)@.update(x as int, old(self)@[x as int].update(y as int, visible)),
    {
        self.cells[x as usize][y as usize] = visible;
    }
}

/// Whether the field of view has to be computed anew: only when the player
/// is no longer where it was computed for.
pub fn fov_recompute(previous_player_position: (i32, i32), objects: &Vec<Object>) -> (b: bool)
    requires
        objects@.len() > 0,
    ensures
        b == (previous_player_position != (objects@[0].x, objects@[0].y)),
{
    previous_player_position.0 != objects[PLAYER].x || previous_player_position.1 != objects[PLAYER].y
}

/// Marks every tile that can be seen as explored.
pub fn mark_explored(fov: &FovMap, map: &mut TileGrid)
    ensures
        final(map)@ == explored_where(old(map)@, fov@),
{
    let ghost before = map@;
    let ghost after = explored_where(before, fov@);
    let mut x: usize = 0;
    while x < map.tiles.len()
        invariant
            x <= map.tiles@.len(),
            after == explored_where(before, fov@),
            map.tiles@.len() == before.len(),
            forall|i: int| 0 <= i < before.len() ==> (#[trigger] map.tiles@[i])@.len() == before[i].len(),
            forall|i: int, j: int| in_grid(before, i, j) && i < x ==> (#[trigger] map.tiles@[i]@[j]) == after[i][j],
            forall|i: int, j: int| in_grid(before, i, j) && i >= x ==> (#[trigger] map.tiles@[i]@[j]) == before[i][j],
        decreases map.tiles@.len() - x,
    {
        let mut y: usize = 0;
        while y < map.tiles[x].len()
            invariant
                x < map.tiles@.len(),
                y <= map.tiles@[x as int]@.len(),
                after == explored_where(before, fov@),
                map.tiles@.len() == before.len(),
                forall|i: int| 0 <= i < before.len() ==> (#[trigger] map.tiles@[i])@.len() == before[i].len(),
                forall|i: int, j: int| in_grid(before, i, j) && i < x ==> (#[trigger] map.tiles@[i]@[j]) == after[i][j],
                forall|i: int, j: int| in_grid(before, i, j) && i > x ==> (#[trigger] map.tiles@[i]@[j]) == before[i][j],
                forall|j: int| in_grid(before, x as int, j) && j < y ==> (#[trigger] map.tiles@[x as int]@[j]) == after[x as int][j],
                forall|j: int| in_grid(before, x as int, j) && j >= y ==> (#[trigger] map.tiles@[x as int]@[j]) == before[x as int][j],
            decreases map.tiles@[x as int]@.len() - y,
        {
            if fov.sees(x, y) {
                map.tiles[x][y].explored = true;
            }
            y += 1;
        }
        x += 1;
    }
    assert(map@ =~~= after);
}

/// What computing a field of view has to know of a tile.
#[derive(Clone, Copy, Debug, PartialEq, Eq)]
pub struct Sight {
    /// Whether one can see through the tile.
    pub transparent: bool,
    /// Whether one can walk on the tile.
    pub walkable: bool,
}

/// What computing a field of view has to know of `tile`.
pub open spec fn sight_of(tile: Tile) -> Sight {
    Sight { transparent: !tile.block_sight, walkable: !tile.blocked }
}

/// Lays out, tile by tile, what computing a field of view over `map` has to
/// know.
pub fn initialise_fov(map: &TileGrid) -> (cells: Vec<Vec<Sight>>)
    ensures
        cells@.len() == map@.len(),
        forall|x: int| 0 <= x < map@.len() ==> (#[trigger] cells@[x])@.len() == map@[x].len(),
        forall|x: int, y: int| in_grid(map@, x, y) ==> (#[trigger] cells@[x]@[y]) == sight_of(map@[x][y]),
{
    let mut cells: Vec<Vec<Sight>> = Vec::new();
    let mut x: usize = 0;
    while x < map.tiles.len()
        invariant
            x <= map.tiles@.len(),
            cells@.len() == x,
            forall|i: int| 0 <= i < x ==> (#[trigger] cells@[i])@.len() == map.tiles@[i]@.len(),
            forall|i: int, j: int|
                0 <= i < x && 0 <= j < map.tiles@[i]@.len() ==> (#[trigger] cells@[i]@[j]) == sight_of(
                    map.tiles@[i]@[j],
                ),
        decreases map.tiles@.len() - x,
    {
        let mut column: Vec<Sight> = Vec::new();
        let mut y: usize = 0;
        while y < map.tiles[x].len()
            invariant
                x < map.tiles@.len(),
                y <= map.tiles@[x as int]@.len(),
                column@.len() == y,
                forall|j: int| 0 <= j < y ==> (#[trigger] column@[j]) == sight_of(map.tiles@[x as int]@[j]),
            decreases map.tiles@[x as int]@.len() - y,
        {
            let tile = map.tiles[x][y];
            column.push(Sight { transparent: !tile.block_sight, walkable: !tile.blocked });
            y += 1;
        }
        cells.push(column);
        x += 1;
    }
    cells
}

} // verus!
