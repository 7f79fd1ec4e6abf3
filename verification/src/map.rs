//! The tile grid of a dungeon level.

use vstd::prelude::*;
use crate::game::{Game, World, world};
use crate::help::mut_two;
use crate::object::{Object, ObjectView, attacked, first_from, fits, lemma_first_from_skip, lemma_views_update, views};
use crate::settings::PLAYER;

verus! {

/// One cell of a dungeon level.
#[derive(Clone, Copy, Debug, PartialEq, Eq, Structural)]
pub struct Tile {
    pub blocked: bool,
    pub explored: bool,
    pub block_sight: bool,
}

impl Tile {
    /// A floor tile: walkable and transparent.
    pub fn empty() -> (t: Tile)
        ensures
            t == (Tile { blocked: false, explored: false, block_sight: false }),
    {
        Tile { blocked: false, explored: false, block_sight: false }
    }

    /// A wall tile: neither walkable nor transparent.
    pub fn wall() -> (t: Tile)
        ensures
            t == (Tile { blocked: true, explored: false, block_sight: true }),
    {
        Tile { blocked: true, explored: false, block_sight: true }
    }
}

/// A grid of tiles stored column by column: `tiles[x][y]`.
#[derive(Clone, Debug, PartialEq)]
pub struct TileGrid {
    pub tiles: Vec<Vec<Tile>>,
}

impl View for TileGrid {
    type V = Seq<Seq<Tile>>;

    open spec fn view(&self) -> Seq<Seq<Tile>> {
        Seq::new(self.tiles@.len(), |x: int| self.tiles@[x]@)
    }
}

/// Whether `(x, y)` names a cell of the grid.
pub open spec fn in_grid(grid: Seq<Seq<Tile>>, x: int, y: int) -> bool {
    0 <= x < grid.len() && 0 <= y < grid[x].len()
}

/// Whether the grid has exactly `width` columns of `height` cells each.
pub open spec fn is_rect(grid: Seq<Seq<Tile>>, width: int, height: int) -> bool {
    &&& grid.len() == width
    &&& forall|x: int| 0 <= x < width ==> (#[trigger] grid[x]).len() == height
}

/// Whether a walker can stand on `(x, y)` as far as the tiles are concerned:
/// the cell exists and is not blocked.
pub open spec fn is_floor(grid: Seq<Seq<Tile>>, x: int, y: int) -> bool {
    in_grid(grid, x, y) && !grid[x][y].blocked
}

/// The grid with every tile marked as explored.
pub open spec fn revealed(grid: Seq<Seq<Tile>>) -> Seq<Seq<Tile>> {
    Seq::new(
        grid.len(),
        |x: int| Seq::new(grid[x].len(), |y: int| Tile { explored: true, ..grid[x][y] }),
    )
}

impl TileGrid {
    /// A grid of `width` columns and `height` rows in which every cell is `tile`.
    pub fn filled(width: usize, height: usize, tile: Tile) -> (grid: TileGrid)
        ensures
            is_rect(grid@, width as int, height as int),
            forall|x: int, y: int| in_grid(grid@, x, y) ==> grid@[x][y] == tile,
    {
        let mut tiles: Vec<Vec<Tile>> = Vec::new();
        let mut x: usize = 0;
        while x < width
            invariant
                x <= width,
                tiles@.len() == x,
                forall|i: int| 0 <= i < x ==> (#[trigger] tiles@[i])@.len() == height,
                forall|i: int, j: int| 0 <= i < x && 0 <= j < height ==> (#[trigger] tiles@[i]@[j]) == tile,
            decreases width - x,
        {
            let mut column: Vec<Tile> = Vec::new();
            let mut y: usize = 0;
            while y < height
                invariant
                    y <= height,
                    column@.len() == y,
                    forall|j: int| 0 <= j < y ==> (#[trigger] column@[j]) == tile,
                decreases height - y,
            {
                column.push(tile);
                y += 1;
            }
            tiles.push(column);
            x += 1;
        }
        TileGrid { tiles }
    }

    /// Whether `(x, y)` names a cell of the grid.
    pub fn in_bounds(&self, x: i32, y: i32) -> (b: bool)
        ensures
            b == in_grid(self@, x as int, y as int),
    {
        x >= 0 && (x as usize) < self.tiles.len() && y >= 0 && (y as usize) < self.tiles[x as usize].len()
    }

    /// The tile at `(x, y)`.
    pub fn tile(&self, x: i32, y: i32) -> (t: Tile)
        requires
            in_grid(self@, x as int, y as int),
        ensures
            t == self@[x as int][y as int],
    {
        self.tiles[x as usize][y as usize]
    }

    /// Replaces the tile at `(x, y)`.
    pub fn set(&mut self, x: i32, y: i32, tile: Tile)
        requires
            in_grid(old(self)@, x as int, y as int),
        ensures
            final(self)@ == old(self)@.update(x as int, old(self)@[x as int].update(y as int, tile)),
    {
        self.tiles[x as usize][y as usize] = tile;
    }

    /// Marks every tile as explored.
    pub fn reveal_all(&mut self)
        ensures
            final(self)@ == revealed(old(self)@),
    {
        let ghost before = self@;
        let mut x: usize = 0;
        while x < self.tiles.len()
            invariant
                x <= self.tiles@.len(),
                self.tiles@.len() == before.len(),
                forall|i: int| 0 <= i < x ==> (#[trigger] self.tiles@[i])@ == revealed(before)[i],
                forall|i: int| x <= i < before.len() ==> (#[trigger] self.tiles@[i])@ == before[i],
            decreases self.tiles@.len() - x,
        {
            let mut y: usize = 0;
            while y < self.tiles[x].len()
                invariant
                    x < self.tiles@.len(),
                    self.tiles@.len() == before.len(),
                    y <= self.tiles@[x as int]@.len(),
                    self.tiles@[x as int]@.len() == before[x as int].len(),
                    forall|i: int| 0 <= i < x ==> (#[trigger] self.tiles@[i])@ == revealed(before)[i],
                    forall|i: int| x < i < before.len() ==> (#[trigger] self.tiles@[i])@ == before[i],
                    forall|j: int| 0 <= j < y ==> (#[trigger] self.tiles@[x as int]@[j]) == (Tile { explored: true, ..before[x as int][j] }),
                    forall|j: int| y <= j < before[x as int].len() ==> (#[trigger] self.tiles@[x as int]@[j]) == before[x as int][j],
                decreases self.tiles@[x as int]@.len() - y,
            {
                self.tiles[x][y].explored = true;
                y += 1;
            }
            assert(self.tiles@[x as int]@ =~= revealed(before)[x as int]);
            x += 1;
        }
        assert(self@ =~= revealed(before));
    }
}

/// An axis-aligned rectangle. Its walls lie on its border; its interior is
/// what lies strictly between them.
#[derive(Clone, Copy, Debug, PartialEq, Eq)]
pub struct Rect {
    pub x1: i32,
    pub y1: i32,
    pub x2: i32,
    pub y2: i32,
}

/// Half of `n`, rounded towards zero.
pub open spec fn half(n: int) -> int {
    if n >= 0 {
        n / 2
    } else {
        -((-n) / 2)
    }
}

impl Rect {
    /// Whether `(x, y)` lies strictly inside the rectangle.
    pub open spec fn holds(self, x: int, y: int) -> bool {
        self.x1 < x < self.x2 && self.y1 < y < self.y2
    }

    /// The cell in the middle of the rectangle.
    pub open spec fn middle(self) -> (int, int) {
        (half(self.x1 + self.x2), half(self.y1 + self.y2))
    }

    /// Whether the rectangle covers `other`, borders included.
    pub open spec fn covers(self, other: Rect) -> bool {
        self.x1 <= other.x1 && self.x2 >= other.x2 && self.y1 <= other.y1 && self.y2 >= other.y2
    }

    /// Whether every interior cell of the rectangle is a cell of the grid.
    pub open spec fn inside(self, grid: Seq<Seq<Tile>>) -> bool {
        forall|x: int, y: int| self.holds(x, y) ==> in_grid(grid, x, y)
    }

    /// The rectangle with its corner at `(x, y)`, `w` wide and `h` high.
    pub fn new(x: i32, y: i32, w: i32, h: i32) -> (r: Rect)
        requires
            i32::MIN <= x + w <= i32::MAX,
            i32::MIN <= y + h <= i32::MAX,
        ensures
            r == (Rect { x1: x, y1: y, x2: (x + w) as i32, y2: (y + h) as i32 }),
    {
        Rect { x1: x, y1: y, x2: x + w, y2: y + h }
    }

    /// The cell in the middle of the rectangle.
    pub fn center(&self) -> (c: (i32, i32))
        ensures
            (c.0 as int, c.1 as int) == self.middle(),
    {
        let center_x: i64 = (self.x1 as i64 + self.x2 as i64) / 2;
        let center_y: i64 = (self.y1 as i64 + self.y2 as i64) / 2;
        (center_x as i32, center_y as i32)
    }

    /// Whether the rectangle covers `other`, borders included. A candidate
    /// room is turned down when it covers a room that already exists.
    pub fn intersects_with(&self, other: &Rect) -> (b: bool)
        ensures
            b == self.covers(*other),
    {
        (self.x1 <= other.x1) && (self.x2 >= other.x2) && (self.y1 <= other.y1) && (self.y2 >= other.y2)
    }
}

/// Untouched floor: what carving leaves in a cell.
pub open spec fn floor() -> Tile {
    Tile { blocked: false, explored: false, block_sight: false }
}

/// The grid in which every cell of the box from `(x_lo, y_lo)` to
/// `(x_hi, y_hi)`, borders included, has become untouched floor and every
/// other cell is as it was.
pub open spec fn carved(grid: Seq<Seq<Tile>>, x_lo: int, x_hi: int, y_lo: int, y_hi: int) -> Seq<Seq<Tile>> {
    Seq::new(
        grid.len(),
        |x: int|
            Seq::new(
                grid[x].len(),
                |y: int|
                    if x_lo <= x <= x_hi && y_lo <= y <= y_hi {
                        floor()
                    } else {
                        grid[x][y]
                    },
            ),
    )
}

/// The smaller of two numbers.
pub open spec fn lesser(a: int, b: int) -> int {
    if a <= b {
        a
    } else {
        b
    }
}

/// The larger of two numbers.
pub open spec fn greater(a: int, b: int) -> int {
    if a <= b {
        b
    } else {
        a
    }
}

/// The grid after the interior of `room` has been carved out.
pub open spec fn with_room(grid: Seq<Seq<Tile>>, room: Rect) -> Seq<Seq<Tile>> {
    carved(grid, room.x1 + 1, room.x2 - 1, room.y1 + 1, room.y2 - 1)
}

/// The grid after a horizontal tunnel between `x1` and `x2` at height `y`.
pub open spec fn with_h_tunnel(grid: Seq<Seq<Tile>>, x1: int, x2: int, y: int) -> Seq<Seq<Tile>> {
    carved(grid, lesser(x1, x2), greater(x1, x2), y, y)
}

/// The grid after a vertical tunnel between `y1` and `y2` in column `x`.
pub open spec fn with_v_tunnel(grid: Seq<Seq<Tile>>, y1: int, y2: int, x: int) -> Seq<Seq<Tile>> {
    carved(grid, x, x, lesser(y1, y2), greater(y1, y2))
}

fn carve(map: &mut TileGrid, x_lo: i32, x_hi: i32, y_lo: i32, y_hi: i32)
    requires
        forall|x: int, y: int| x_lo <= x <= x_hi && y_lo <= y <= y_hi ==> in_grid(old(map)@, x, y),
    ensures
        final(map)@ == carved(old(map)@, x_lo as int, x_hi as int, y_lo as int, y_hi as int),
{
    let ghost before = map@;
    let ghost after = carved(before, x_lo as int, x_hi as int, y_lo as int, y_hi as int);
    let mut x: i64 = x_lo as i64;
    while x <= x_hi as i64
        invariant
            x_lo <= x,
            x <= x_hi + 1 || x == x_lo,
            forall|i: int, j: int| x_lo <= i <= x_hi && y_lo <= j <= y_hi ==> in_grid(before, i, j),
            after == carved(before, x_lo as int, x_hi as int, y_lo as int, y_hi as int),
            map.tiles@.len() == before.len(),
            forall|i: int| 0 <= i < before.len() ==> (#[trigger] map.tiles@[i])@.len() == before[i].len(),
            forall|i: int, j: int| in_grid(before, i, j) && i < x ==> (#[trigger] map.tiles@[i]@[j]) == after[i][j],
            forall|i: int, j: int| in_grid(before, i, j) && i >= x ==> (#[trigger] map.tiles@[i]@[j]) == before[i][j],
        decreases x_hi + 1 - x,
    {
        let mut y: i64 = y_lo as i64;
        while y <= y_hi as i64
            invariant
                x_lo <= x <= x_hi,
                y_lo <= y,
                y <= y_hi + 1 || y == y_lo,
                forall|i: int, j: int| x_lo <= i <= x_hi && y_lo <= j <= y_hi ==> in_grid(before, i, j),
                after == carved(before, x_lo as int, x_hi as int, y_lo as int, y_hi as int),
                map.tiles@.len() == before.len(),
                forall|i: int| 0 <= i < before.len() ==> (#[trigger] map.tiles@[i])@.len() == before[i].len(),
                forall|i: int, j: int| in_grid(before, i, j) && i < x ==> (#[trigger] map.tiles@[i]@[j]) == after[i][j],
                forall|i: int, j: int| in_grid(before, i, j) && i > x ==> (#[trigger] map.tiles@[i]@[j]) == before[i][j],
                forall|j: int| in_grid(before, x as int, j) && j < y ==> (#[trigger] map.tiles@[x as int]@[j]) == after[x as int][j],
                forall|j: int| in_grid(before, x as int, j) && j >= y ==> (#[trigger] map.tiles@[x as int]@[j]) == before[x as int][j],
            decreases y_hi + 1 - y,
        {
            assert(in_grid(before, x as int, y as int));
            map.tiles[x as usize][y as usize] = Tile::empty();
            y += 1;
        }
        x += 1;
    }
    assert(map@ =~~= after);
}

/// Carves out the interior of `room`.
pub fn create_room(room: Rect, map: &mut TileGrid)
    requires
        room.inside(old(map)@),
    ensures
        final(map)@ == with_room(old(map)@, room),
{
    let ghost before = map@;
    if room.x2 <= room.x1 || room.y2 <= room.y1 {
        assert(map@ =~~= with_room(before, room));
        return ;
    }
    assert forall|x: int, y: int| room.x1 + 1 <= x <= room.x2 - 1 && room.y1 + 1 <= y <= room.y2 - 1 implies in_grid(
        before,
        x,
        y,
    ) by {
        assert(room.holds(x, y));
    }
    carve(map, room.x1 + 1, room.x2 - 1, room.y1 + 1, room.y2 - 1);
}

/// Carves a horizontal tunnel from `x1` to `x2` at height `y`.
pub fn create_h_tunnel(x1: i32, x2: i32, y: i32, map: &mut TileGrid)
    requires
        forall|x: int| lesser(x1 as int, x2 as int) <= x <= greater(x1 as int, x2 as int) ==> in_grid(old(map)@, x, y as int),
    ensures
        final(map)@ == with_h_tunnel(old(map)@, x1 as int, x2 as int, y as int),
{
    let low: i32 = if x1 <= x2 { x1 } else { x2 };
    let high: i32 = if x1 <= x2 { x2 } else { x1 };
    carve(map, low, high, y, y);
}

/// Carves a vertical tunnel from `y1` to `y2` in column `x`.
pub fn create_v_tunnel(y1: i32, y2: i32, x: i32, map: &mut TileGrid)
    requires
        forall|y: int| lesser(y1 as int, y2 as int) <= y <= greater(y1 as int, y2 as int) ==> in_grid(old(map)@, x as int, y),
    ensures
        final(map)@ == with_v_tunnel(old(map)@, y1 as int, y2 as int, x as int),
{
    let low: i32 = if y1 <= y2 { y1 } else { y2 };
    let high: i32 = if y1 <= y2 { y2 } else { y1 };
    carve(map, x, x, low, high);
}

/// Whether the entity stands on `(x, y)` and is in the way of others.
pub open spec fn blocks_cell(o: ObjectView, x: int, y: int) -> bool {
    o.blocks && o.x == x && o.y == y
}

/// Whether some entity stands on `(x, y)` and is in the way of others.
pub open spec fn occupied(objects: Seq<ObjectView>, x: int, y: int) -> bool {
    exists|i: int| 0 <= i < objects.len() && blocks_cell(#[trigger] objects[i], x, y)
}

/// Whether nothing can step onto `(x, y)`: there is no floor there, or
/// something is in the way.
pub open spec fn blocked_at(grid: Seq<Seq<Tile>>, objects: Seq<ObjectView>, x: int, y: int) -> bool {
    !is_floor(grid, x, y) || occupied(objects, x, y)
}

/// The entities after entity `id` has tried to step by `(dx, dy)`: it moves
/// if the cell it would reach is free, and stays put otherwise.
pub open spec fn stepped(objects: Seq<ObjectView>, id: int, dx: int, dy: int, grid: Seq<Seq<Tile>>) -> Seq<ObjectView> {
    let o = objects[id];
    if fits(o.x + dx) && fits(o.y + dy) && !blocked_at(grid, objects, o.x + dx, o.y + dy) {
        objects.update(id, o.at(o.x + dx, o.y + dy))
    } else {
        objects
    }
}

/// Whether nothing can step onto `(x, y)`.
pub fn is_blocked(x: i32, y: i32, map: &TileGrid, objects: &Vec<Object>) -> (b: bool)
    ensures
        b == blocked_at(map@, views(objects@), x as int, y as int),
{
    if !map.in_bounds(x, y) {
        return true;
    }
    if map.tile(x, y).blocked {
        return true;
    }
    let mut i: usize = 0;
    while i < objects.len()
        invariant
            i <= objects@.len(),
            forall|j: int| 0 <= j < i ==> !blocks_cell(#[trigger] views(objects@)[j], x as int, y as int),
        decreases objects@.len() - i,
    {
        if objects[i].blocks && objects[i].x == x && objects[i].y == y {
            assert(blocks_cell(views(objects@)[i as int], x as int, y as int));
            return true;
        }
        i += 1;
    }
    false
}

/// Moves entity `id` by `(dx, dy)` unless the cell it would reach is blocked.
pub fn move_by(id: usize, dx: i32, dy: i32, map: &TileGrid, objects: &mut Vec<Object>)
    requires
        id < old(objects).len(),
    ensures
        views(final(objects)@) == stepped(views(old(objects)@), id as int, dx as int, dy as int, map@),
{
    let (x, y) = objects[id].pos();
    let nx: i64 = x as i64 + dx as i64;
    let ny: i64 = y as i64 + dy as i64;
    if nx < i32::MIN as i64 || nx > i32::MAX as i64 || ny < i32::MIN as i64 || ny > i32::MAX as i64 {
        return ;
    }
    if !is_blocked(nx as i32, ny as i32, map, objects) {
        objects[id].set_pos(nx as i32, ny as i32);
        proof {
            lemma_views_update(old(objects)@, id as int, objects@[id as int]);
        }
    }
}

/// The test for a fighter that stands on `(x, y)`.
pub open spec fn fighter_on(x: int, y: int) -> spec_fn(ObjectView) -> bool {
    |o: ObjectView| o.fighter is Some && o.x == x && o.y == y
}

/// The entity, other than the player, that the player would attack by
/// stepping by `(dx, dy)`: the first fighter on that cell.
pub open spec fn attack_target(objects: Seq<ObjectView>, dx: int, dy: int) -> Option<int> {
    first_from(objects, fighter_on(objects[0].x + dx, objects[0].y + dy), 1)
}

/// The player's move. If a fighter stands on the cell that the player steps
/// towards, the player attacks it; otherwise the player moves there if the
/// cell is free.
pub open spec fn move_or_attack(w: World, dx: int, dy: int) -> World {
    match attack_target(w.objects, dx, dy) {
        Some(t) => {
            let fight = attacked(w.objects[0], w.objects[t]);
            World {
                objects: w.objects.update(0, fight.attacker).update(t, fight.target),
                game: w.game.logged(fight.messages),
            }
        },
        None => w.with_objects(stepped(w.objects, 0, dx, dy, w.game.map)),
    }
}

/// Whether the statistics that `move_or_attack(w, dx, dy)` computes can be stored.
pub open spec fn move_or_attack_fits(w: World, dx: int, dy: int) -> bool {
    match attack_target(w.objects, dx, dy) {
        Some(t) => crate::object::attack_fits(w.objects[0], w.objects[t]),
        None => true,
    }
}

/// The index as a mathematical integer.
pub open spec fn index_of(found: Option<usize>) -> Option<int> {
    match found {
        Some(i) => Some(i as int),
        None => None,
    }
}

/// The first fighter on `(x, y)` at or after index `from`.
pub fn find_fighter_at(objects: &Vec<Object>, x: i64, y: i64, from: usize) -> (found: Option<usize>)
    ensures
        index_of(found) == first_from(views(objects@), fighter_on(x as int, y as int), from as int),
        found matches Some(i) ==> from <= i < objects@.len(),
{
    let ghost p = fighter_on(x as int, y as int);
    let mut i: usize = from;
    while i < objects.len()
        invariant
            from <= i,
            p == fighter_on(x as int, y as int),
            forall|j: int| from <= j < i && j < objects@.len() ==> !p(#[trigger] views(objects@)[j]),
        decreases objects@.len() - i,
    {
        if objects[i].fighter.is_some() && objects[i].x as i64 == x && objects[i].y as i64 == y {
            proof {
                lemma_first_from_skip(views(objects@), p, from as int, i as int);
            }
            return Some(i);
        }
        i += 1;
    }
    proof {
        if from <= objects@.len() {
            lemma_first_from_skip(views(objects@), p, from as int, objects@.len() as int);
        }
    }
    None
}

/// Moves the player by `(dx, dy)`, or attacks the fighter that stands there.
pub fn player_move_or_attack(dx: i32, dy: i32, game: &mut Game, objects: &mut Vec<Object>)
    requires
        old(objects).len() > 0,
        move_or_attack_fits(world(*old(game), old(objects)@), dx as int, dy as int),
    ensures
        world(*final(game), final(objects)@) == move_or_attack(
            world(*old(game), old(objects)@),
            dx as int,
            dy as int,
        ),
{
    let x: i64 = objects[PLAYER].x as i64 + dx as i64;
    let y: i64 = objects[PLAYER].y as i64 + dy as i64;
    match find_fighter_at(objects, x, y, 1) {
        Some(target_id) => {
            let (player, target) = mut_two(PLAYER, target_id, objects);
            player.attack(target, game);
            proof {
                let mid = old(objects)@.update(PLAYER as int, *player);
                lemma_views_update(old(objects)@, PLAYER as int, *player);
                lemma_views_update(mid, target_id as int, *target);
            }
        },
        None => {
            move_by(PLAYER, dx, dy, &game.map, objects);
        },
    }
}

} // verus!
