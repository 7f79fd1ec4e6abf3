//! Random generation of a dungeon level: rooms, the corridors between them,
//! and what lives in them.

use vstd::prelude::*;
use crate::map::{
    Rect, Tile, TileGrid, blocked_at, blocks_cell, carved, create_h_tunnel, create_room, create_v_tunnel, floor,
    greater, in_grid, is_blocked, is_floor, is_rect, lesser, occupied, with_h_tunnel, with_room, with_v_tunnel,
};
use crate::object::{
    Ai, Color, DeathCallback, Fighter, FighterView, Object, ObjectView, fresh, lemma_views_push,
    lemma_views_subrange, lemma_views_update, views,
};
use crate::object::items::Item;
use crate::random::{random_bool, random_range, total_weight, weighted_index};
use crate::settings::{MAP_HEIGHT, MAP_WIDTH, PLAYER};

verus! {

/// The sizes and limits that a level is generated with.
#[derive(Clone, Copy, Debug, PartialEq, Eq)]
pub struct MapConfig {
    pub width: i32,
    pub height: i32,
    pub room_min_size: i32,
    pub room_max_size: i32,
    pub max_rooms: i32,
    pub max_room_monsters: i32,
    pub max_room_items: i32,
}

impl MapConfig {
    /// Whether a level can be generated with these numbers: rooms have an
    /// interior and fit the grid, and at least one room is tried.
    pub open spec fn valid(self) -> bool {
        &&& 2 <= self.room_min_size <= self.room_max_size
        &&& self.room_max_size < self.width
        &&& self.room_max_size < self.height
        &&& 1 <= self.max_rooms
        &&& 0 <= self.max_room_monsters < 0x1000_0000
        &&& 0 <= self.max_room_items < 0x1000_0000
    }

    /// The numbers of an ordinary level.
    pub open spec fn ordinary() -> MapConfig {
        MapConfig {
            width: MAP_WIDTH,
            height: MAP_HEIGHT,
            room_min_size: 6,
            room_max_size: 10,
            max_rooms: 30,
            max_room_monsters: 3,
            max_room_items: 2,
        }
    }

    /// The configuration of an ordinary level.
    pub fn standard() -> (config: MapConfig)
        ensures
            config.valid(),
            config == MapConfig::ordinary(),
    {
        MapConfig {
            width: MAP_WIDTH,
            height: MAP_HEIGHT,
            room_min_size: 6,
            room_max_size: 10,
            max_rooms: 30,
            max_room_monsters: 3,
            max_room_items: 2,
        }
    }

    /// Whether a level can be generated with these numbers.
    pub fn is_valid(&self) -> (b: bool)
        ensures
            b == self.valid(),
    {
        2 <= self.room_min_size && self.room_min_size <= self.room_max_size && self.room_max_size < self.width
            && self.room_max_size < self.height && 1 <= self.max_rooms && 0 <= self.max_room_monsters
            && self.max_room_monsters < 0x1000_0000 && 0 <= self.max_room_items && self.max_room_items
            < 0x1000_0000
    }
}

/// An ork on `(x, y)`.
pub open spec fn ork(x: int, y: int) -> ObjectView {
    ObjectView {
        alive: true,
        fighter: Some(
            FighterView {
                max_hp: 10,
                hp: 10,
                max_mana: 0,
                mana: 0,
                defense: 0,
                power: 3,
                xp: 35,
                on_death: DeathCallback::Monster,
            },
        ),
        ai: Some(Ai::Basic),
        ..fresh(x, y, 'o', Color::DesaturatedGreen, "ork"@, true)
    }
}

/// A troll on `(x, y)`.
pub open spec fn troll(x: int, y: int) -> ObjectView {
    ObjectView {
        alive: true,
        fighter: Some(
            FighterView {
                max_hp: 16,
                hp: 16,
                max_mana: 0,
                mana: 0,
                defense: 1,
                power: 4,
                xp: 100,
                on_death: DeathCallback::Monster,
            },
        ),
        ai: Some(Ai::Basic),
        ..fresh(x, y, 'T', Color::DarkerGreen, "troll"@, true)
    }
}

/// The monster that choice `choice` stands for: an ork for 0, else a troll.
pub open spec fn monster(choice: int, x: int, y: int) -> ObjectView {
    if choice == 0 {
        ork(x, y)
    } else {
        troll(x, y)
    }
}

/// The item that choice `choice` stands for: a healing potion for 0, a mana
/// potion for 1, else a vision scroll.
pub open spec fn item(choice: int, x: int, y: int) -> ObjectView {
    if choice == 0 {
        ObjectView {
            item: Some(Item::Heal),
            always_visible: true,
            ..fresh(x, y, '!', Color::Violet, "healing potion"@, false)
        }
    } else if choice == 1 {
        ObjectView {
            item: Some(Item::Mana),
            always_visible: true,
            ..fresh(x, y, '!', Color::LightBlue, "mana potion"@, false)
        }
    } else {
        ObjectView {
            item: Some(Item::Vision),
            always_visible: true,
            ..fresh(x, y, '$', Color::Pink, "vision scroll"@, false)
        }
    }
}

/// The stairs down on `(x, y)`.
pub open spec fn stairs(x: int, y: int) -> ObjectView {
    ObjectView { always_visible: true, ..fresh(x, y, '<', Color::White, "stairs"@, false) }
}

/// Makes the monster that `choice` stands for.
pub fn spawn_monster(choice: usize, x: i32, y: i32) -> (o: Object)
    ensures
        o@ == monster(choice as int, x as int, y as int),
{
    if choice == 0 {
        let mut ork = Object::new(x, y, 'o', Color::DesaturatedGreen, "ork", true);
        ork.alive = true;
        ork.fighter = Some(
            Fighter {
                max_hp: 10,
                hp: 10,
                max_mana: 0,
                mana: 0,
                defense: 0,
                power: 3,
                xp: 35,
                on_death: DeathCallback::Monster,
            },
        );
        ork.ai = Some(Ai::Basic);
        ork
    } else {
        let mut troll = Object::new(x, y, 'T', Color::DarkerGreen, "troll", true);
        troll.alive = true;
        troll.fighter = Some(
            Fighter {
                max_hp: 16,
                hp: 16,
                max_mana: 0,
                mana: 0,
                defense: 1,
                power: 4,
                xp: 100,
                on_death: DeathCallback::Monster,
            },
        );
        troll.ai = Some(Ai::Basic);
        troll
    }
}

/// Makes the item that `choice` stands for.
pub fn spawn_item(choice: usize, x: i32, y: i32) -> (o: Object)
    ensures
        o@ == item(choice as int, x as int, y as int),
{
    let mut object = if choice == 0 {
        let mut object = Object::new(x, y, '!', Color::Violet, "healing potion", false);
        object.item = Some(Item::Heal);
        object
    } else if choice == 1 {
        let mut object = Object::new(x, y, '!', Color::LightBlue, "mana potion", false);
        object.item = Some(Item::Mana);
        object
    } else {
        let mut object = Object::new(x, y, '$', Color::Pink, "vision scroll", false);
        object.item = Some(Item::Vision);
        object
    };
    object.always_visible = true;
    object
}

/// The entities after `newcomer` has been put down, which happens only if
/// its cell is free.
pub open spec fn placed(objects: Seq<ObjectView>, newcomer: ObjectView, grid: Seq<Seq<Tile>>) -> Seq<ObjectView> {
    if blocked_at(grid, objects, newcomer.x, newcomer.y) {
        objects
    } else {
        objects.push(newcomer)
    }
}

/// Puts the monster that `choice` stands for on `(x, y)` if that cell is free.
pub fn place_monster(x: i32, y: i32, choice: usize, map: &TileGrid, objects: &mut Vec<Object>)
    ensures
        views(final(objects)@) == placed(views(old(objects)@), monster(choice as int, x as int, y as int), map@),
{
    if !is_blocked(x, y, map, objects) {
        let monster = spawn_monster(choice, x, y);
        proof {
            lemma_views_push(objects@, monster);
        }
        objects.push(monster);
    }
}

/// Puts the item that `choice` stands for on `(x, y)` if that cell is free.
pub fn place_item(x: i32, y: i32, choice: usize, map: &TileGrid, objects: &mut Vec<Object>)
    ensures
        views(final(objects)@) == placed(views(old(objects)@), item(choice as int, x as int, y as int), map@),
{
    if !is_blocked(x, y, map, objects) {
        let item = spawn_item(choice, x, y);
        proof {
            lemma_views_push(objects@, item);
        }
        objects.push(item);
    }
}

/// Whether `o` is a monster as generation makes them, inside `room`.
pub open spec fn is_monster_of(o: ObjectView, room: Rect) -> bool {
    room.holds(o.x, o.y) && (o == ork(o.x, o.y) || o == troll(o.x, o.y))
}

/// Whether `o` is an item as generation makes them, inside `room`.
pub open spec fn is_item_of(o: ObjectView, room: Rect) -> bool {
    room.holds(o.x, o.y) && (o == item(0, o.x, o.y) || o == item(1, o.x, o.y) || o == item(2, o.x, o.y))
}

/// Whether entity `i` was put on a cell that was free of what came before it.
pub open spec fn on_free_cell(objects: Seq<ObjectView>, i: int, grid: Seq<Seq<Tile>>) -> bool {
    !blocked_at(grid, objects.subrange(0, i), objects[i].x, objects[i].y)
}

/// What a population pass over `room` may do to the entities: it keeps those
/// that were there, and appends at most `max_monsters` monsters and then at
/// most `max_items` items, each inside the room and on a cell that was free.
pub open spec fn populated(
    before: Seq<ObjectView>,
    after: Seq<ObjectView>,
    room: Rect,
    grid: Seq<Seq<Tile>>,
    max_monsters: int,
    max_items: int,
) -> bool {
    exists|m: int|
        {
            &&& before.len() <= m <= before.len() + max_monsters
            &&& (#[trigger] after.subrange(0, m)).len() == m
            &&& m <= after.len() <= m + max_items
            &&& after.subrange(0, before.len() as int) == before
            &&& forall|i: int| before.len() <= i < m ==> is_monster_of(#[trigger] after[i], room)
            &&& forall|i: int| m <= i < after.len() ==> is_item_of(#[trigger] after[i], room)
            &&& forall|i: int| before.len() <= i < after.len() ==> #[trigger] on_free_cell(after, i, grid)
        }
}

/// The weights with which an ork or a troll is chosen.
fn monster_weights() -> (weights: Vec<u32>)
    ensures
        weights@ == seq![80u32, 20u32],
        total_weight(weights@) == 100,
{
    let mut weights: Vec<u32> = Vec::new();
    weights.push(80);
    weights.push(20);
    proof {
        let s = seq![80u32, 20u32];
        assert(weights@ =~= s);
        assert(s.drop_last() =~= seq![80u32]);
        assert(seq![80u32].drop_last() =~= Seq::<u32>::empty());
        reveal_with_fuel(total_weight, 3);
    }
    weights
}

/// The weights with which a healing potion, a mana potion or a vision scroll
/// is chosen.
fn item_weights() -> (weights: Vec<u32>)
    ensures
        weights@ == seq![4u32, 4u32, 1u32],
        total_weight(weights@) == 9,
{
    let mut weights: Vec<u32> = Vec::new();
    weights.push(4);
    weights.push(4);
    weights.push(1);
    proof {
        let s = seq![4u32, 4u32, 1u32];
        assert(weights@ =~= s);
        assert(s.drop_last() =~= seq![4u32, 4u32]);
        assert(seq![4u32, 4u32].drop_last() =~= seq![4u32]);
        assert(seq![4u32].drop_last() =~= Seq::<u32>::empty());
        reveal_with_fuel(total_weight, 4);
    }
    weights
}

proof fn lemma_push_free(objects: Seq<ObjectView>, o: ObjectView, grid: Seq<Seq<Tile>>, start: int)
    requires
        0 <= start <= objects.len(),
        forall|i: int| start <= i < objects.len() ==> #[trigger] on_free_cell(objects, i, grid),
        !blocked_at(grid, objects, o.x, o.y),
    ensures
        forall|i: int| start <= i < objects.len() + 1 ==> #[trigger] on_free_cell(objects.push(o), i, grid),
{
    assert forall|i: int| start <= i < objects.len() + 1 implies #[trigger] on_free_cell(
        objects.push(o),
        i,
        grid,
    ) by {
        assert(objects.push(o).subrange(0, i) =~= objects.subrange(0, i));
        if i == objects.len() {
            assert(objects.subrange(0, i) =~= objects);
        } else {
            assert(on_free_cell(objects, i, grid));
        }
    }
}

/// Fills `room` with up to `max_monsters` monsters and up to `max_items`
/// items, each on a random free cell of its interior.
pub fn populate(room: Rect, max_monsters: i32, max_items: i32, map: &TileGrid, objects: &mut Vec<Object>)
    requires
        room.x1 + 1 < room.x2,
        room.y1 + 1 < room.y2,
        0 <= max_monsters < i32::MAX,
        0 <= max_items < i32::MAX,
    ensures
        populated(views(old(objects)@), views(final(objects)@), room, map@, max_monsters as int, max_items as int),
{
    let ghost before = views(objects@);
    let ghost grid = map@;
    let num_monsters: i32 = random_range(0, max_monsters + 1);
    let weights = monster_weights();
    let mut placed_monsters: i32 = 0;
    while placed_monsters < num_monsters
        invariant
            0 <= placed_monsters <= num_monsters <= max_monsters,
            room.x1 + 1 < room.x2,
            room.y1 + 1 < room.y2,
            grid == map@,
            weights@ == seq![80u32, 20u32],
            total_weight(weights@) == 100,
            before.len() <= objects@.len() <= before.len() + placed_monsters,
            views(objects@).subrange(0, before.len() as int) == before,
            forall|i: int| before.len() <= i < objects@.len() ==> is_monster_of(#[trigger] views(objects@)[i], room),
            forall|i: int| before.len() <= i < objects@.len() ==> #[trigger] on_free_cell(views(objects@), i, grid),
        decreases num_monsters - placed_monsters,
    {
        let x: i32 = random_range(room.x1 + 1, room.x2);
        let y: i32 = random_range(room.y1 + 1, room.y2);
        let choice: usize = weighted_index(&weights);
        let ghost prior = views(objects@);
        let ghost old_len = objects@.len();
        place_monster(x, y, choice, map, objects);
        proof {
            let o = monster(choice as int, x as int, y as int);
            let after = views(objects@);
            assert(prior.len() == old_len);
            assert(after.len() == objects@.len());
            assert(is_monster_of(o, room));
            if blocked_at(grid, prior, o.x, o.y) {
                assert(after == prior);
            } else {
                assert(after == prior.push(o));
                lemma_push_free(prior, o, grid, before.len() as int);
                assert(after.subrange(0, before.len() as int) =~= prior.subrange(0, before.len() as int));
                assert forall|i: int| before.len() <= i < after.len() implies is_monster_of(
                    #[trigger] after[i],
                    room,
                ) by {
                    if i < prior.len() {
                        assert(after[i] == prior[i]);
                    }
                }
            }
        }
        placed_monsters += 1;
    }
    let ghost m = objects@.len() as int;
    let num_items: i32 = random_range(0, max_items + 1);
    let weights = item_weights();
    let mut placed_items: i32 = 0;
    while placed_items < num_items
        invariant
            0 <= placed_items <= num_items <= max_items,
            room.x1 + 1 < room.x2,
            room.y1 + 1 < room.y2,
            grid == map@,
            weights@ == seq![4u32, 4u32, 1u32],
            total_weight(weights@) == 9,
            before.len() <= m <= before.len() + max_monsters,
            m <= objects@.len() <= m + placed_items,
            views(objects@).subrange(0, before.len() as int) == before,
            forall|i: int| before.len() <= i < m ==> is_monster_of(#[trigger] views(objects@)[i], room),
            forall|i: int| m <= i < objects@.len() ==> is_item_of(#[trigger] views(objects@)[i], room),
            forall|i: int| before.len() <= i < objects@.len() ==> #[trigger] on_free_cell(views(objects@), i, grid),
        decreases num_items - placed_items,
    {
        let x: i32 = random_range(room.x1 + 1, room.x2);
        let y: i32 = random_range(room.y1 + 1, room.y2);
        let choice: usize = weighted_index(&weights);
        let ghost prior = views(objects@);
        let ghost old_len = objects@.len();
        place_item(x, y, choice, map, objects);
        proof {
            let o = item(choice as int, x as int, y as int);
            let after = views(objects@);
            assert(prior.len() == old_len);
            assert(after.len() == objects@.len());
            assert(is_item_of(o, room));
            if blocked_at(grid, prior, o.x, o.y) {
                assert(after == prior);
            } else {
                assert(after == prior.push(o));
                lemma_push_free(prior, o, grid, before.len() as int);
                assert(after.subrange(0, before.len() as int) =~= prior.subrange(0, before.len() as int));
                assert forall|i: int| before.len() <= i < m implies is_monster_of(#[trigger] after[i], room) by {
                    assert(after[i] == prior[i]);
                }
                assert forall|i: int| m <= i < after.len() implies is_item_of(#[trigger] after[i], room) by {
                    if i < prior.len() {
                        assert(after[i] == prior[i]);
                    }
                }
            }
        }
        placed_items += 1;
    }
    proof {
        let after = views(objects@);
        assert(after.subrange(0, m).len() == m);
    }
}

/// Fills `room` as an ordinary level is filled: with up to three monsters and
/// up to two items.
pub fn place_objects(room: Rect, map: &TileGrid, objects: &mut Vec<Object>)
    requires
        room.x1 + 1 < room.x2,
        room.y1 + 1 < room.y2,
    ensures
        populated(views(old(objects)@), views(final(objects)@), room, map@, 3, 2),
{
    populate(room, 3, 2, map, objects)
}

/// Whether `room` has an interior and lies within a grid of the given size,
/// its walls included.
pub open spec fn room_fits(room: Rect, width: int, height: int) -> bool {
    &&& 0 <= room.x1
    &&& room.x1 + 2 <= room.x2 < width
    &&& 0 <= room.y1
    &&& room.y1 + 2 <= room.y2 < height
}

/// Whether the corridor from `a` to `b` is open: the column of `a` between
/// the heights of the two cells, and the row of `b` between their columns.
pub open spec fn linked(grid: Seq<Seq<Tile>>, a: (int, int), b: (int, int)) -> bool {
    &&& forall|y: int| lesser(a.1, b.1) <= y <= greater(a.1, b.1) ==> #[trigger] is_floor(grid, a.0, y)
    &&& forall|x: int| lesser(a.0, b.0) <= x <= greater(a.0, b.0) ==> #[trigger] is_floor(grid, x, b.1)
}

/// Whether the interior of every room is open floor.
pub open spec fn rooms_open(grid: Seq<Seq<Tile>>, rooms: Seq<Rect>) -> bool {
    forall|i: int, x: int, y: int|
        0 <= i < rooms.len() && (#[trigger] rooms[i]).holds(x, y) ==> #[trigger] is_floor(grid, x, y)
}

/// Whether every room is joined to the next by an open corridor between
/// their middles.
pub open spec fn rooms_linked(grid: Seq<Seq<Tile>>, rooms: Seq<Rect>) -> bool {
    forall|i: int| 0 <= i < rooms.len() - 1 ==> linked(grid, (#[trigger] rooms[i]).middle(), rooms[i + 1].middle())
}

/// Whether `(x, y)` lies on the corridor from `a` to `b`: in the column of
/// `a` between the heights of the two cells, or in the row of `b` between
/// their columns.
pub open spec fn on_corridor(a: (int, int), b: (int, int), x: int, y: int) -> bool {
    ||| x == a.0 && lesser(a.1, b.1) <= y <= greater(a.1, b.1)
    ||| y == b.1 && lesser(a.0, b.0) <= x <= greater(a.0, b.0)
}

/// Whether `(x, y)` lies inside one of the rooms.
pub open spec fn in_a_room(rooms: Seq<Rect>, x: int, y: int) -> bool {
    exists|i: int| 0 <= i < rooms.len() && (#[trigger] rooms[i]).holds(x, y)
}

/// Whether `(x, y)` lies on the corridor from one of the rooms to the next.
pub open spec fn in_a_corridor(rooms: Seq<Rect>, x: int, y: int) -> bool {
    exists|i: int|
        0 <= i < rooms.len() - 1 && on_corridor((#[trigger] rooms[i]).middle(), rooms[i + 1].middle(), x, y)
}

/// A wall that nobody has seen yet.
pub open spec fn rock() -> Tile {
    Tile { blocked: true, explored: false, block_sight: true }
}

/// The grid that the rooms make: untouched floor inside every room and along
/// the corridor from each room to the next, and rock everywhere else.
pub open spec fn grid_of(rooms: Seq<Rect>, width: int, height: int) -> Seq<Seq<Tile>> {
    Seq::new(
        width as nat,
        |x: int|
            Seq::new(
                height as nat,
                |y: int|
                    if in_a_room(rooms, x, y) || in_a_corridor(rooms, x, y) {
                        floor()
                    } else {
                        rock()
                    },
            ),
    )
}

/// What holds of the grid and the rooms at every step of generation: every
/// room fits the grid, and the grid is the one that the rooms make. So every
/// room is open, and every room is joined to the next.
pub open spec fn dug(grid: Seq<Seq<Tile>>, rooms: Seq<Rect>, width: int, height: int) -> bool {
    &&& 0 <= width
    &&& 0 <= height
    &&& is_rect(grid, width, height)
    &&& forall|i: int| 0 <= i < rooms.len() ==> room_fits(#[trigger] rooms[i], width, height)
    &&& grid == grid_of(rooms, width, height)
    &&& rooms_open(grid, rooms)
    &&& rooms_linked(grid, rooms)
}

/// What a new room adds to the cells that the rooms open.
pub proof fn lemma_room_added(rooms: Seq<Rect>, candidate: Rect, x: int, y: int)
    ensures
        in_a_room(rooms.push(candidate), x, y) <==> in_a_room(rooms, x, y) || candidate.holds(x, y),
        in_a_corridor(rooms.push(candidate), x, y) <==> in_a_corridor(rooms, x, y) || (rooms.len() > 0
            && on_corridor(rooms.last().middle(), candidate.middle(), x, y)),
{
    let all = rooms.push(candidate);
    if in_a_room(all, x, y) {
        let i = choose|i: int| 0 <= i < all.len() && (#[trigger] all[i]).holds(x, y);
        if i < rooms.len() {
            assert(rooms[i].holds(x, y));
        }
    }
    if in_a_room(rooms, x, y) {
        let i = choose|i: int| 0 <= i < rooms.len() && (#[trigger] rooms[i]).holds(x, y);
        assert(all[i].holds(x, y));
    }
    if candidate.holds(x, y) {
        assert(all[rooms.len() as int].holds(x, y));
    }
    if in_a_corridor(all, x, y) {
        let i = choose|i: int|
            0 <= i < all.len() - 1 && on_corridor((#[trigger] all[i]).middle(), all[i + 1].middle(), x, y);
        if i < rooms.len() - 1 {
            assert(all[i + 1] == rooms[i + 1]);
            assert(on_corridor(rooms[i].middle(), rooms[i + 1].middle(), x, y));
        } else {
            assert(all[i] == rooms.last());
            assert(all[i + 1] == candidate);
        }
    }
    if in_a_corridor(rooms, x, y) {
        let i = choose|i: int|
            0 <= i < rooms.len() - 1 && on_corridor((#[trigger] rooms[i]).middle(), rooms[i + 1].middle(), x, y);
        assert(all[i] == rooms[i]);
        assert(all[i + 1] == rooms[i + 1]);
        assert(on_corridor(all[i].middle(), all[i + 1].middle(), x, y));
    }
    if rooms.len() > 0 && on_corridor(rooms.last().middle(), candidate.middle(), x, y) {
        let i = rooms.len() - 1;
        assert(all[i] == rooms.last());
        assert(all[i + 1] == candidate);
        assert(on_corridor(all[i].middle(), all[i + 1].middle(), x, y));
    }
}

/// Whether no two entities that are in the way of others share a cell.
pub open spec fn uncrowded(objects: Seq<ObjectView>) -> bool {
    forall|i: int, j: int|
        0 <= i < j < objects.len() && (#[trigger] objects[i]).blocks && (#[trigger] objects[j]).blocks ==> !(
        objects[i].x == objects[j].x && objects[i].y == objects[j].y)
}

/// Whether every entity stands on open floor.
pub open spec fn on_floor(objects: Seq<ObjectView>, grid: Seq<Seq<Tile>>) -> bool {
    forall|i: int| 0 <= i < objects.len() ==> is_floor(grid, (#[trigger] objects[i]).x, objects[i].y)
}

/// Whether `candidate` covers one of `rooms`.
pub open spec fn covers_any(candidate: Rect, rooms: Seq<Rect>) -> bool {
    exists|i: int| 0 <= i < rooms.len() && candidate.covers(#[trigger] rooms[i])
}

/// The grid after the corridor from `prev` to `next` has been carved, in
/// the order that `vertical_first` gives.
pub open spec fn with_corridor(grid: Seq<Seq<Tile>>, prev: (int, int), next: (int, int), vertical_first: bool) -> Seq<
    Seq<Tile>,
> {
    if vertical_first {
        with_h_tunnel(with_v_tunnel(grid, prev.1, next.1, prev.0), prev.0, next.0, next.1)
    } else {
        with_v_tunnel(with_h_tunnel(grid, prev.0, next.0, next.1), prev.1, next.1, prev.0)
    }
}

/// The order in which the two tunnels of a corridor are carved makes no
/// difference to the grid.
pub proof fn lemma_corridor_order(grid: Seq<Seq<Tile>>, prev: (int, int), next: (int, int))
    ensures
        with_corridor(grid, prev, next, true) == with_corridor(grid, prev, next, false),
{
    assert(with_corridor(grid, prev, next, true) =~~= with_corridor(grid, prev, next, false));
}

/// The grid after `candidate` has been accepted as the room after `rooms`.
pub open spec fn with_accepted(grid: Seq<Seq<Tile>>, rooms: Seq<Rect>, candidate: Rect, vertical_first: bool) -> Seq<
    Seq<Tile>,
> {
    if rooms.len() == 0 {
        with_room(grid, candidate)
    } else {
        with_corridor(with_room(grid, candidate), rooms.last().middle(), candidate.middle(), vertical_first)
    }
}

/// The middle of a room that has an interior lies in its interior.
pub proof fn lemma_middle_inside(room: Rect)
    requires
        room.x1 + 2 <= room.x2,
        room.y1 + 2 <= room.y2,
    ensures
        room.holds(room.middle().0, room.middle().1),
{
}

/// Carving keeps the shape of the grid, opens the cells of the box and
/// closes none.
pub proof fn lemma_carved(grid: Seq<Seq<Tile>>, x_lo: int, x_hi: int, y_lo: int, y_hi: int)
    ensures
        carved(grid, x_lo, x_hi, y_lo, y_hi).len() == grid.len(),
        forall|x: int, y: int|
            in_grid(grid, x, y) <==> #[trigger] in_grid(carved(grid, x_lo, x_hi, y_lo, y_hi), x, y),
        forall|width: int, height: int|
            is_rect(grid, width, height) ==> #[trigger] is_rect(carved(grid, x_lo, x_hi, y_lo, y_hi), width, height),
        forall|x: int, y: int|
            is_floor(grid, x, y) ==> #[trigger] is_floor(carved(grid, x_lo, x_hi, y_lo, y_hi), x, y),
        forall|x: int, y: int|
            in_grid(grid, x, y) && x_lo <= x <= x_hi && y_lo <= y <= y_hi ==> #[trigger] is_floor(
                carved(grid, x_lo, x_hi, y_lo, y_hi),
                x,
                y,
            ),
{
    let c = carved(grid, x_lo, x_hi, y_lo, y_hi);
    assert forall|x: int, y: int| in_grid(grid, x, y) <==> #[trigger] in_grid(c, x, y) by {
        if 0 <= x < grid.len() {
            assert(c[x].len() == grid[x].len());
        }
    }
    assert forall|width: int, height: int| is_rect(grid, width, height) implies #[trigger] is_rect(
        c,
        width,
        height,
    ) by {
        assert forall|x: int| 0 <= x < width implies (#[trigger] c[x]).len() == height by {
            assert(grid[x].len() == height);
        }
    }
}

/// Accepting a room keeps what generation maintains.
pub proof fn lemma_accept_keeps_dug(
    grid: Seq<Seq<Tile>>,
    rooms: Seq<Rect>,
    candidate: Rect,
    vertical_first: bool,
    width: int,
    height: int,
)
    requires
        dug(grid, rooms, width, height),
        room_fits(candidate, width, height),
    ensures
        dug(with_accepted(grid, rooms, candidate, vertical_first), rooms.push(candidate), width, height),
        forall|x: int, y: int|
            is_floor(grid, x, y) ==> #[trigger] is_floor(with_accepted(grid, rooms, candidate, vertical_first), x, y),
        forall|x: int, y: int|
            is_floor(with_room(grid, candidate), x, y) ==> #[trigger] is_floor(
                with_accepted(grid, rooms, candidate, vertical_first),
                x,
                y,
            ),
{
    let g1 = with_room(grid, candidate);
    let after = with_accepted(grid, rooms, candidate, vertical_first);
    let all = rooms.push(candidate);
    lemma_carved(grid, candidate.x1 + 1, candidate.x2 - 1, candidate.y1 + 1, candidate.y2 - 1);
    assert(is_rect(g1, width, height));
    if rooms.len() > 0 {
        let prev = rooms.last().middle();
        let next = candidate.middle();
        assert(room_fits(rooms[rooms.len() - 1], width, height));
        lemma_middle_inside(rooms.last());
        lemma_middle_inside(candidate);
        if vertical_first {
            let g2 = with_v_tunnel(g1, prev.1, next.1, prev.0);
            lemma_carved(g1, prev.0, prev.0, lesser(prev.1, next.1), greater(prev.1, next.1));
            lemma_carved(g2, lesser(prev.0, next.0), greater(prev.0, next.0), next.1, next.1);
            assert(is_rect(g2, width, height));
            assert(is_rect(after, width, height));
            assert forall|y: int| lesser(prev.1, next.1) <= y <= greater(prev.1, next.1) implies #[trigger] is_floor(
                after,
                prev.0,
                y,
            ) by {
                assert(in_grid(g1, prev.0, y));
                assert(is_floor(g2, prev.0, y));
            }
            assert forall|x: int| lesser(prev.0, next.0) <= x <= greater(prev.0, next.0) implies #[trigger] is_floor(
                after,
                x,
                next.1,
            ) by {
                assert(in_grid(g2, x, next.1));
            }
            assert forall|x: int, y: int| is_floor(g1, x, y) implies #[trigger] is_floor(after, x, y) by {
                assert(is_floor(g2, x, y));
            }
        } else {
            let g2 = with_h_tunnel(g1, prev.0, next.0, next.1);
            lemma_carved(g1, lesser(prev.0, next.0), greater(prev.0, next.0), next.1, next.1);
            lemma_carved(g2, prev.0, prev.0, lesser(prev.1, next.1), greater(prev.1, next.1));
            assert(is_rect(g2, width, height));
            assert(is_rect(after, width, height));
            assert forall|y: int| lesser(prev.1, next.1) <= y <= greater(prev.1, next.1) implies #[trigger] is_floor(
                after,
                prev.0,
                y,
            ) by {
                assert(in_grid(g2, prev.0, y));
            }
            assert forall|x: int| lesser(prev.0, next.0) <= x <= greater(prev.0, next.0) implies #[trigger] is_floor(
                after,
                x,
                next.1,
            ) by {
                assert(in_grid(g1, x, next.1));
                assert(is_floor(g2, x, next.1));
            }
            assert forall|x: int, y: int| is_floor(g1, x, y) implies #[trigger] is_floor(after, x, y) by {
                assert(is_floor(g2, x, y));
            }
        }
        assert(linked(after, prev, next));
    }
    assert forall|x: int, y: int| is_floor(grid, x, y) implies #[trigger] is_floor(after, x, y) by {
        assert(is_floor(g1, x, y));
    }
    assert(after =~~= grid_of(all, width, height)) by {
        assert(after.len() == width);
        assert forall|x: int| 0 <= x < width implies (#[trigger] after[x]).len() == height by {}
        assert forall|x: int, y: int| 0 <= x < width && 0 <= y < height implies (#[trigger] after[x][y]) == grid_of(
            all,
            width,
            height,
        )[x][y] by {
            lemma_room_added(rooms, candidate, x, y);
            assert(grid[x].len() == height);
            assert(grid[x][y] == grid_of(rooms, width, height)[x][y]);
            assert(g1[x][y] == if candidate.holds(x, y) { floor() } else { grid[x][y] });
            if rooms.len() > 0 {
                let prev = rooms.last().middle();
                let next = candidate.middle();
                assert(after[x][y] == if on_corridor(prev, next, x, y) { floor() } else { g1[x][y] }) by {
                    if vertical_first {
                        let g2 = with_v_tunnel(g1, prev.1, next.1, prev.0);
                        assert(g2[x].len() == height);
                    } else {
                        let g2 = with_h_tunnel(g1, prev.0, next.0, next.1);
                        assert(g2[x].len() == height);
                    }
                }
            }
        }
    }
    assert forall|i: int| 0 <= i < all.len() implies room_fits(#[trigger] all[i], width, height) by {
        if i < rooms.len() {
            assert(all[i] == rooms[i]);
        }
    }
    assert forall|i: int, x: int, y: int| 0 <= i < all.len() && (#[trigger] all[i]).holds(x, y) implies #[trigger] is_floor(
        after,
        x,
        y,
    ) by {
        if i < rooms.len() {
            assert(all[i] == rooms[i]);
            assert(rooms[i].holds(x, y));
            assert(is_floor(grid, x, y));
        } else {
            assert(in_grid(grid, x, y));
            assert(is_floor(g1, x, y));
        }
    }
    assert forall|i: int| 0 <= i < all.len() - 1 implies linked(
        after,
        (#[trigger] all[i]).middle(),
        all[i + 1].middle(),
    ) by {
        if i < rooms.len() - 1 {
            assert(all[i] == rooms[i]);
            assert(all[i + 1] == rooms[i + 1]);
            let a = rooms[i].middle();
            let b = rooms[i + 1].middle();
            assert(linked(grid, a, b));
            assert forall|y: int| lesser(a.1, b.1) <= y <= greater(a.1, b.1) implies #[trigger] is_floor(
                after,
                a.0,
                y,
            ) by {
                assert(is_floor(grid, a.0, y));
            }
            assert forall|x: int| lesser(a.0, b.0) <= x <= greater(a.0, b.0) implies #[trigger] is_floor(
                after,
                x,
                b.1,
            ) by {
                assert(is_floor(grid, x, b.1));
            }
        } else {
            assert(all[i] == rooms.last());
            assert(all[i + 1] == candidate);
        }
    }
}

/// Whether `o` is a monster or an item as generation makes them, inside one
/// of the rooms after the first.
pub open spec fn spawned_in(o: ObjectView, rooms: Seq<Rect>) -> bool {
    exists|r: int| 1 <= r < rooms.len() && (is_monster_of(o, #[trigger] rooms[r]) || is_item_of(o, rooms[r]))
}

/// Whether no room covers a room that was accepted before it.
pub open spec fn none_covers_earlier(rooms: Seq<Rect>) -> bool {
    forall|i: int, j: int| 0 <= i < j < rooms.len() ==> !(#[trigger] rooms[j]).covers(#[trigger] rooms[i])
}

/// What holds of a level under construction. The grid and rooms are as
/// [`dug`] says and no room covers an earlier one. The player is the first
/// entity and stands in the middle of the first room once there is one. Every
/// other entity was spawned in a later room, and there are no more of them
/// than `room_cap` for each such room. All stand on open floor, and no two
/// that are in the way of others share a cell.
pub open spec fn site(
    grid: Seq<Seq<Tile>>,
    rooms: Seq<Rect>,
    objects: Seq<ObjectView>,
    width: int,
    height: int,
    room_cap: int,
) -> bool {
    &&& dug(grid, rooms, width, height)
    &&& none_covers_earlier(rooms)
    &&& objects.len() >= 1
    &&& uncrowded(objects)
    &&& rooms.len() == 0 ==> objects.len() == 1
    &&& rooms.len() >= 1 ==> on_floor(objects, grid) && (objects[0].x, objects[0].y) == rooms[0].middle()
    &&& rooms.len() >= 1 ==> objects.len() <= 1 + (rooms.len() - 1) * room_cap
    &&& forall|i: int| 1 <= i < objects.len() ==> spawned_in(#[trigger] objects[i], rooms)
}

impl MapConfig {
    /// The most entities that a population pass adds to a room.
    pub open spec fn room_cap(self) -> int {
        self.max_room_monsters + self.max_room_items
    }
}

/// A population pass keeps entities from sharing a cell, and puts what it
/// adds on open floor.
pub proof fn lemma_populated(
    before: Seq<ObjectView>,
    after: Seq<ObjectView>,
    room: Rect,
    grid: Seq<Seq<Tile>>,
    max_monsters: int,
    max_items: int,
)
    requires
        populated(before, after, room, grid, max_monsters, max_items),
    ensures
        before.len() <= after.len() <= before.len() + max_monsters + max_items,
        forall|i: int| 0 <= i < before.len() ==> #[trigger] after[i] == before[i],
        forall|i: int|
            before.len() <= i < after.len() ==> is_monster_of(#[trigger] after[i], room) || is_item_of(
                after[i],
                room,
            ),
        forall|i: int| before.len() <= i < after.len() ==> is_floor(grid, (#[trigger] after[i]).x, after[i].y),
        uncrowded(before) ==> uncrowded(after),
{
    assert forall|i: int| 0 <= i < before.len() implies #[trigger] after[i] == before[i] by {
        assert(after.subrange(0, before.len() as int)[i] == after[i]);
    }
    assert forall|i: int| before.len() <= i < after.len() implies is_floor(
        grid,
        (#[trigger] after[i]).x,
        after[i].y,
    ) by {
        assert(on_free_cell(after, i, grid));
    }
    if uncrowded(before) {
        assert forall|i: int, j: int|
            0 <= i < j < after.len() && (#[trigger] after[i]).blocks && (#[trigger] after[j]).blocks implies !(
        after[i].x == after[j].x && after[i].y == after[j].y) by {
            if j >= before.len() {
                assert(on_free_cell(after, j, grid));
                let earlier = after.subrange(0, j);
                assert(earlier[i] == after[i]);
                if after[i].x == after[j].x && after[i].y == after[j].y {
                    assert(blocks_cell(earlier[i], after[j].x, after[j].y));
                    assert(occupied(earlier, after[j].x, after[j].y));
                }
            } else {
                assert(after[i] == before[i]);
                assert(after[j] == before[j]);
            }
        }
    }
}

/// Whether `candidate` covers one of `rooms`.
pub fn covers_some(candidate: &Rect, rooms: &Vec<Rect>) -> (b: bool)
    ensures
        b == covers_any(*candidate, rooms@),
{
    let mut i: usize = 0;
    while i < rooms.len()
        invariant
            i <= rooms@.len(),
            forall|j: int| 0 <= j < i ==> !candidate.covers(#[trigger] rooms@[j]),
        decreases rooms@.len() - i,
    {
        if candidate.intersects_with(&rooms[i]) {
            return true;
        }
        i += 1;
    }
    false
}

/// Carves the corridor from `prev` to `next`: a vertical tunnel in the column
/// of `prev` and a horizontal one in the row of `next`, in the order that
/// `vertical_first` gives.
pub fn connect(prev: (i32, i32), next: (i32, i32), vertical_first: bool, map: &mut TileGrid)
    requires
        forall|y: int|
            lesser(prev.1 as int, next.1 as int) <= y <= greater(prev.1 as int, next.1 as int) ==> in_grid(
                old(map)@,
                prev.0 as int,
                y,
            ),
        forall|x: int|
            lesser(prev.0 as int, next.0 as int) <= x <= greater(prev.0 as int, next.0 as int) ==> in_grid(
                old(map)@,
                x,
                next.1 as int,
            ),
    ensures
        final(map)@ == with_corridor(
            old(map)@,
            (prev.0 as int, prev.1 as int),
            (next.0 as int, next.1 as int),
            vertical_first,
        ),
{
    let (prev_x, prev_y) = prev;
    let (new_x, new_y) = next;
    proof {
        lemma_carved(
            map@,
            prev_x as int,
            prev_x as int,
            lesser(prev_y as int, new_y as int),
            greater(prev_y as int, new_y as int),
        );
        lemma_carved(
            map@,
            lesser(prev_x as int, new_x as int),
            greater(prev_x as int, new_x as int),
            new_y as int,
            new_y as int,
        );
    }
    if vertical_first {
        create_v_tunnel(prev_y, new_y, prev_x, map);
        create_h_tunnel(prev_x, new_x, new_y, map);
    } else {
        create_h_tunnel(prev_x, new_x, new_y, map);
        create_v_tunnel(prev_y, new_y, prev_x, map);
    }
}

/// Considers `candidate` as the next room. It is turned down, and nothing
/// changes, if it covers a room that exists. Otherwise it is carved out. The
/// first room receives the player in its middle; every later one is populated
/// and joined to the room before it.
pub fn add_room(
    candidate: Rect,
    vertical_first: bool,
    config: &MapConfig,
    map: &mut TileGrid,
    rooms: &mut Vec<Rect>,
    objects: &mut Vec<Object>,
) -> (accepted: bool)
    requires
        config.valid(),
        room_fits(candidate, config.width as int, config.height as int),
        site(
            old(map)@,
            old(rooms)@,
            views(old(objects)@),
            config.width as int,
            config.height as int,
            config.room_cap(),
        ),
    ensures
        accepted == !covers_any(candidate, old(rooms)@),
        !accepted ==> final(map)@ == old(map)@ && final(rooms)@ == old(rooms)@ && views(final(objects)@) == views(
            old(objects)@,
        ),
        accepted ==> final(rooms)@ == old(rooms)@.push(candidate),
        accepted ==> final(map)@ == with_accepted(old(map)@, old(rooms)@, candidate, vertical_first),
        accepted && old(rooms)@.len() == 0 ==> views(final(objects)@) == views(old(objects)@).update(
            0,
            views(old(objects)@)[0].at(candidate.middle().0, candidate.middle().1),
        ),
        accepted && old(rooms)@.len() > 0 ==> populated(
            views(old(objects)@),
            views(final(objects)@),
            candidate,
            with_room(old(map)@, candidate),
            config.max_room_monsters as int,
            config.max_room_items as int,
        ),
        site(
            final(map)@,
            final(rooms)@,
            views(final(objects)@),
            config.width as int,
            config.height as int,
            config.room_cap(),
        ),
{
    let ghost grid = map@;
    let ghost old_rooms = rooms@;
    let ghost before = views(objects@);
    let ghost width = config.width as int;
    let ghost height = config.height as int;
    if covers_some(&candidate, rooms) {
        return false;
    }
    proof {
        lemma_accept_keeps_dug(grid, old_rooms, candidate, vertical_first, width, height);
        lemma_carved(grid, candidate.x1 + 1, candidate.x2 - 1, candidate.y1 + 1, candidate.y2 - 1);
        lemma_middle_inside(candidate);
        assert forall|x: int, y: int| candidate.holds(x, y) implies in_grid(grid, x, y) by {
            assert(grid[x].len() == height);
        }
    }
    create_room(candidate, map);
    let ghost g1 = map@;
    let (new_x, new_y) = candidate.center();
    if rooms.len() == 0 {
        objects[PLAYER].set_pos(new_x, new_y);
        proof {
            lemma_views_update(old(objects)@, 0, objects@[0]);
            assert(is_floor(g1, new_x as int, new_y as int));
        }
    } else {
        populate(candidate, config.max_room_monsters, config.max_room_items, map, objects);
        let (prev_x, prev_y) = rooms[rooms.len() - 1].center();
        proof {
            let prev = old_rooms.last();
            assert(room_fits(old_rooms[old_rooms.len() - 1], width, height));
            lemma_middle_inside(prev);
            assert forall|y: int|
                lesser(prev_y as int, new_y as int) <= y <= greater(prev_y as int, new_y as int) implies in_grid(
                g1,
                prev_x as int,
                y,
            ) by {
                assert(g1[prev_x as int].len() == height);
            }
            assert forall|x: int|
                lesser(prev_x as int, new_x as int) <= x <= greater(prev_x as int, new_x as int) implies in_grid(
                g1,
                x,
                new_y as int,
            ) by {
                assert(g1[x].len() == height);
            }
        }
        connect((prev_x, prev_y), (new_x, new_y), vertical_first, map);
        proof {
            let after = views(objects@);
            lemma_populated(
                before,
                after,
                candidate,
                g1,
                config.max_room_monsters as int,
                config.max_room_items as int,
            );
            assert forall|i: int| 0 <= i < after.len() implies is_floor(map@, (#[trigger] after[i]).x, after[i].y) by {
                if i < before.len() {
                    assert(after[i] == before[i]);
                    assert(is_floor(grid, before[i].x, before[i].y));
                } else {
                    assert(is_floor(g1, after[i].x, after[i].y));
                }
            }
        }
    }
    rooms.push(candidate);
    proof {
        let all = rooms@;
        let after = views(objects@);
        assert forall|i: int, j: int| 0 <= i < j < all.len() implies !(#[trigger] all[j]).covers(#[trigger] all[i]) by {
            if j < old_rooms.len() {
                assert(all[i] == old_rooms[i] && all[j] == old_rooms[j]);
            } else {
                assert(all[i] == old_rooms[i]);
            }
        }
        assert forall|i: int| 1 <= i < after.len() implies spawned_in(#[trigger] after[i], all) by {
            if old_rooms.len() > 0 {
                lemma_populated(
                    before,
                    after,
                    candidate,
                    g1,
                    config.max_room_monsters as int,
                    config.max_room_items as int,
                );
                if i < before.len() {
                    assert(after[i] == before[i]);
                    assert(spawned_in(before[i], old_rooms));
                    let r = choose|r: int|
                        1 <= r < old_rooms.len() && (is_monster_of(before[i], #[trigger] old_rooms[r]) || is_item_of(
                            before[i],
                            old_rooms[r],
                        ));
                    assert(all[r] == old_rooms[r]);
                } else {
                    assert(all[old_rooms.len() as int] == candidate);
                }
            }
        }
        assert(all[0] == if old_rooms.len() == 0 { candidate } else { old_rooms[0] });
        if old_rooms.len() > 0 {
            lemma_populated(
                before,
                after,
                candidate,
                g1,
                config.max_room_monsters as int,
                config.max_room_items as int,
            );
            let cap = config.room_cap();
            let n = old_rooms.len() as int;
            assert((n - 1) * cap + cap == n * cap) by (nonlinear_arith);
        } else {
            assert(0 * config.room_cap() == 0);
        }
    }
    true
}

/// A generated level: its grid, and the rooms that were accepted, in order.
#[derive(Clone, Debug, PartialEq)]
pub struct Level {
    pub map: TileGrid,
    pub rooms: Vec<Rect>,
}

/// Whether the sides of `room` are as long as the configuration allows.
pub open spec fn room_sized(room: Rect, config: MapConfig) -> bool {
    &&& config.room_min_size <= room.x2 - room.x1 <= config.room_max_size
    &&& config.room_min_size <= room.y2 - room.y1 <= config.room_max_size
}

/// What holds of every generated level, whatever the random choices were.
/// There is at least one room, and no more than were tried, each of a size
/// that the configuration allows. The grid, the rooms and the entities are
/// as [`site`] says; of those that were there before only the player is
/// left, moved into the first room; and the last entity is the stairs, in
/// the middle of the last room.
pub open spec fn generated(
    config: MapConfig,
    grid: Seq<Seq<Tile>>,
    rooms: Seq<Rect>,
    before: Seq<ObjectView>,
    after: Seq<ObjectView>,
) -> bool {
    &&& 1 <= rooms.len() <= config.max_rooms
    &&& forall|i: int| 0 <= i < rooms.len() ==> room_sized(#[trigger] rooms[i], config)
    &&& after.len() >= 2
    &&& site(grid, rooms, after.drop_last(), config.width as int, config.height as int, config.room_cap())
    &&& after[0] == before[0].at(rooms[0].middle().0, rooms[0].middle().1)
    &&& after.last() == stairs(rooms.last().middle().0, rooms.last().middle().1)
    &&& uncrowded(after)
    &&& on_floor(after, grid)
}

/// Generates a level. Rooms of random size are tried at random places, one
/// after another; each that is accepted is carved, populated and joined to
/// the one before. Only the player is kept of the entities.
pub fn generate(config: &MapConfig, objects: &mut Vec<Object>) -> (level: Level)
    requires
        config.valid(),
        old(objects).len() >= 1,
    ensures
        generated(*config, level.map@, level.rooms@, views(old(objects)@), views(final(objects)@)),
{
    let ghost before = views(objects@);
    let ghost width = config.width as int;
    let ghost height = config.height as int;
    let mut map = TileGrid::filled(config.width as usize, config.height as usize, Tile::wall());
    objects.truncate(1);
    proof {
        lemma_views_subrange(old(objects)@, 0, 1);
    }
    let mut rooms: Vec<Rect> = Vec::new();
    let mut attempt: i32 = 0;
    proof {
        assert(map@ =~~= grid_of(rooms@, width, height)) by {
            assert forall|x: int, y: int| 0 <= x < width && 0 <= y < height implies (#[trigger] map@[x][y]) == rock() by {
                assert(in_grid(map@, x, y));
            }
        }
    }
    while attempt < config.max_rooms
        invariant
            config.valid(),
            0 <= attempt <= config.max_rooms,
            width == config.width,
            height == config.height,
            rooms@.len() <= attempt,
            attempt >= 1 ==> rooms@.len() >= 1,
            site(map@, rooms@, views(objects@), width, height, config.room_cap()),
            forall|i: int| 0 <= i < rooms@.len() ==> room_sized(#[trigger] rooms@[i], *config),
            views(objects@)[0].at(0, 0) == before[0].at(0, 0),
        decreases config.max_rooms - attempt,
    {
        let w: i32 = random_range(config.room_min_size, config.room_max_size + 1);
        let h: i32 = random_range(config.room_min_size, config.room_max_size + 1);
        let x: i32 = random_range(0, config.width - w);
        let y: i32 = random_range(0, config.height - h);
        let new_room = Rect::new(x, y, w, h);
        let vertical_first = random_bool();
        let ghost prior = views(objects@);
        let ghost prior_rooms = rooms@;
        let ghost prior_map = map@;
        let accepted = add_room(new_room, vertical_first, config, &mut map, &mut rooms, objects);
        proof {
            if accepted && prior_rooms.len() > 0 {
                lemma_populated(
                    prior,
                    views(objects@),
                    new_room,
                    with_room(prior_map, new_room),
                    config.max_room_monsters as int,
                    config.max_room_items as int,
                );
            }
            if !accepted {
                assert(covers_any(new_room, prior_rooms));
            }
            assert forall|i: int| 0 <= i < rooms@.len() implies room_sized(#[trigger] rooms@[i], *config) by {
                if i < prior_rooms.len() {
                    assert(rooms@[i] == prior_rooms[i]);
                }
            }
        }
        attempt += 1;
    }
    let (last_room_x, last_room_y) = rooms[rooms.len() - 1].center();
    let mut stairs = Object::new(last_room_x, last_room_y, '<', Color::White, "stairs", false);
    stairs.always_visible = true;
    let ghost inhabitants = views(objects@);
    proof {
        lemma_views_push(objects@, stairs);
    }
    objects.push(stairs);
    proof {
        let after = views(objects@);
        let last = rooms@.last();
        assert(after.drop_last() =~= inhabitants);
        assert(room_fits(rooms@[rooms@.len() - 1], width, height));
        lemma_middle_inside(last);
        assert(last.holds(last.middle().0, last.middle().1));
        assert(is_floor(map@, last.middle().0, last.middle().1));
        assert forall|i: int| 0 <= i < after.len() implies is_floor(map@, (#[trigger] after[i]).x, after[i].y) by {
            if i < inhabitants.len() {
                assert(after[i] == inhabitants[i]);
            }
        }
        assert forall|i: int, j: int|
            0 <= i < j < after.len() && (#[trigger] after[i]).blocks && (#[trigger] after[j]).blocks implies !(
        after[i].x == after[j].x && after[i].y == after[j].y) by {
            assert(after[i] == inhabitants[i]);
            assert(after[j] == inhabitants[j]);
        }
    }
    Level { map, rooms }
}

/// Generates an ordinary level and returns its grid.
pub fn make_map(objects: &mut Vec<Object>) -> (map: TileGrid)
    requires
        old(objects).len() >= 1,
    ensures
        exists|rooms: Seq<Rect>|
            generated(MapConfig::ordinary(), map@, rooms, views(old(objects)@), views(final(objects)@)),
{
    let config = MapConfig::standard();
    let level = generate(&config, objects);
    assert(generated(MapConfig::ordinary(), level.map@, level.rooms@, views(old(objects)@), views(objects@)));
    level.map
}

/// Whether two cells are neighbours in a row or in a column.
pub open spec fn adjacent(a: (int, int), b: (int, int)) -> bool {
    ||| a.0 == b.0 && (a.1 == b.1 + 1 || b.1 == a.1 + 1)
    ||| a.1 == b.1 && (a.0 == b.0 + 1 || b.0 == a.0 + 1)
}

/// Whether `path` is a walk from `from` to `to`: it starts and ends there,
/// every cell of it is open floor, and each cell is a neighbour of the next.
pub open spec fn is_walk(grid: Seq<Seq<Tile>>, path: Seq<(int, int)>, from: (int, int), to: (int, int)) -> bool {
    &&& path.len() >= 1
    &&& path[0] == from
    &&& path[path.len() - 1] == to
    &&& forall|i: int| 0 <= i < path.len() ==> is_floor(grid, (#[trigger] path[i]).0, path[i].1)
    &&& forall|i: int| 0 <= i < path.len() - 1 ==> adjacent(#[trigger] path[i], path[i + 1])
}

/// Whether one can walk from `from` to `to` over open floor.
pub open spec fn reachable(grid: Seq<Seq<Tile>>, from: (int, int), to: (int, int)) -> bool {
    exists|path: Seq<(int, int)>| is_walk(grid, path, from, to)
}

/// An open stretch of a column can be walked.
pub proof fn lemma_walk_column(grid: Seq<Seq<Tile>>, x: int, y1: int, y2: int)
    requires
        forall|y: int| lesser(y1, y2) <= y <= greater(y1, y2) ==> #[trigger] is_floor(grid, x, y),
    ensures
        reachable(grid, (x, y1), (x, y2)),
{
    let path = if y1 <= y2 {
        Seq::new((y2 - y1 + 1) as nat, |i: int| (x, y1 + i))
    } else {
        Seq::new((y1 - y2 + 1) as nat, |i: int| (x, y1 - i))
    };
    assert forall|i: int| 0 <= i < path.len() implies is_floor(grid, (#[trigger] path[i]).0, path[i].1) by {
        assert(is_floor(grid, x, path[i].1));
    }
    assert(is_walk(grid, path, (x, y1), (x, y2)));
}

/// An open stretch of a row can be walked.
pub proof fn lemma_walk_row(grid: Seq<Seq<Tile>>, x1: int, x2: int, y: int)
    requires
        forall|x: int| lesser(x1, x2) <= x <= greater(x1, x2) ==> #[trigger] is_floor(grid, x, y),
    ensures
        reachable(grid, (x1, y), (x2, y)),
{
    let path = if x1 <= x2 {
        Seq::new((x2 - x1 + 1) as nat, |i: int| (x1 + i, y))
    } else {
        Seq::new((x1 - x2 + 1) as nat, |i: int| (x1 - i, y))
    };
    assert forall|i: int| 0 <= i < path.len() implies is_floor(grid, (#[trigger] path[i]).0, path[i].1) by {
        assert(is_floor(grid, path[i].0, y));
    }
    assert(is_walk(grid, path, (x1, y), (x2, y)));
}

/// Two walks that meet make one walk.
pub proof fn lemma_reachable_transitive(grid: Seq<Seq<Tile>>, a: (int, int), b: (int, int), c: (int, int))
    requires
        reachable(grid, a, b),
        reachable(grid, b, c),
    ensures
        reachable(grid, a, c),
{
    let first = choose|path: Seq<(int, int)>| is_walk(grid, path, a, b);
    let second = choose|path: Seq<(int, int)>| is_walk(grid, path, b, c);
    let path = first + second.subrange(1, second.len() as int);
    assert forall|i: int| 0 <= i < path.len() implies is_floor(grid, (#[trigger] path[i]).0, path[i].1) by {
        if i >= first.len() {
            assert(path[i] == second[i - first.len() + 1]);
        }
    }
    assert forall|i: int| 0 <= i < path.len() - 1 implies adjacent(#[trigger] path[i], path[i + 1]) by {
        if i + 1 < first.len() {
            assert(adjacent(first[i], first[i + 1]));
        } else if i + 1 == first.len() {
            assert(path[i] == second[0]);
            assert(path[i + 1] == second[1]);
            assert(adjacent(second[0], second[1]));
        } else {
            assert(path[i] == second[i - first.len() + 1]);
            assert(path[i + 1] == second[i - first.len() + 2]);
            assert(adjacent(second[i - first.len() + 1], second[i - first.len() + 2]));
        }
    }
    assert(is_walk(grid, path, a, c));
}

/// A walk can be walked backwards.
pub proof fn lemma_reachable_symmetric(grid: Seq<Seq<Tile>>, a: (int, int), b: (int, int))
    requires
        reachable(grid, a, b),
    ensures
        reachable(grid, b, a),
{
    let forth = choose|path: Seq<(int, int)>| is_walk(grid, path, a, b);
    let back = Seq::new(forth.len(), |i: int| forth[forth.len() - 1 - i]);
    assert forall|i: int| 0 <= i < back.len() - 1 implies adjacent(#[trigger] back[i], back[i + 1]) by {
        assert(adjacent(forth[forth.len() - 2 - i], forth[forth.len() - 2 - i + 1]));
    }
    assert(is_walk(grid, back, b, a));
}

/// An open corridor can be walked from end to end.
pub proof fn lemma_linked_reachable(grid: Seq<Seq<Tile>>, a: (int, int), b: (int, int))
    requires
        linked(grid, a, b),
    ensures
        reachable(grid, a, b),
{
    lemma_walk_column(grid, a.0, a.1, b.1);
    lemma_walk_row(grid, a.0, b.0, b.1);
    lemma_reachable_transitive(grid, a, (a.0, b.1), b);
}

/// Inside an open room every cell can be reached from every other.
pub proof fn lemma_room_reachable(grid: Seq<Seq<Tile>>, room: Rect, a: (int, int), b: (int, int))
    requires
        forall|x: int, y: int| room.holds(x, y) ==> #[trigger] is_floor(grid, x, y),
        room.holds(a.0, a.1),
        room.holds(b.0, b.1),
    ensures
        reachable(grid, a, b),
{
    assert forall|y: int| lesser(a.1, b.1) <= y <= greater(a.1, b.1) implies #[trigger] is_floor(grid, a.0, y) by {
        assert(room.holds(a.0, y));
    }
    assert forall|x: int| lesser(a.0, b.0) <= x <= greater(a.0, b.0) implies #[trigger] is_floor(grid, x, b.1) by {
        assert(room.holds(x, b.1));
    }
    lemma_linked_reachable(grid, a, b);
}

/// In a generated level the interior of every room is open floor, and from
/// every cell of a room one can walk to every cell of the room accepted
/// after it.
pub proof fn lemma_rooms_connected(
    grid: Seq<Seq<Tile>>,
    rooms: Seq<Rect>,
    width: int,
    height: int,
    i: int,
    a: (int, int),
    b: (int, int),
)
    requires
        dug(grid, rooms, width, height),
        0 <= i < rooms.len() - 1,
        rooms[i].holds(a.0, a.1),
        rooms[i + 1].holds(b.0, b.1),
    ensures
        is_floor(grid, a.0, a.1),
        is_floor(grid, b.0, b.1),
        reachable(grid, rooms[i].middle(), rooms[i + 1].middle()),
        reachable(grid, a, b),
{
    let here = rooms[i];
    let there = rooms[i + 1];
    assert(room_fits(here, width, height));
    assert(room_fits(there, width, height));
    lemma_middle_inside(here);
    lemma_middle_inside(there);
    assert forall|x: int, y: int| here.holds(x, y) implies #[trigger] is_floor(grid, x, y) by {
        assert(rooms[i].holds(x, y));
    }
    assert forall|x: int, y: int| there.holds(x, y) implies #[trigger] is_floor(grid, x, y) by {
        assert(rooms[i + 1].holds(x, y));
    }
    assert(linked(grid, here.middle(), there.middle()));
    lemma_linked_reachable(grid, here.middle(), there.middle());
    lemma_room_reachable(grid, here, a, here.middle());
    lemma_room_reachable(grid, there, there.middle(), b);
    lemma_reachable_transitive(grid, a, here.middle(), there.middle());
    lemma_reachable_transitive(grid, a, there.middle(), b);
}

/// In a generated level one can walk from every room to every other.
pub proof fn lemma_all_rooms_connected(
    grid: Seq<Seq<Tile>>,
    rooms: Seq<Rect>,
    width: int,
    height: int,
    i: int,
    j: int,
)
    requires
        dug(grid, rooms, width, height),
        0 <= i <= j < rooms.len(),
    ensures
        reachable(grid, rooms[i].middle(), rooms[j].middle()),
        reachable(grid, rooms[j].middle(), rooms[i].middle()),
    decreases j - i,
{
    assert(room_fits(rooms[i], width, height));
    lemma_middle_inside(rooms[i]);
    if i == j {
        assert forall|x: int, y: int| rooms[i].holds(x, y) implies #[trigger] is_floor(grid, x, y) by {}
        lemma_room_reachable(grid, rooms[i], rooms[i].middle(), rooms[i].middle());
    } else {
        lemma_all_rooms_connected(grid, rooms, width, height, i, j - 1);
        assert(room_fits(rooms[j - 1], width, height));
        assert(room_fits(rooms[j], width, height));
        lemma_middle_inside(rooms[j - 1]);
        lemma_middle_inside(rooms[j]);
        lemma_rooms_connected(grid, rooms, width, height, j - 1, rooms[j - 1].middle(), rooms[j].middle());
        lemma_reachable_transitive(grid, rooms[i].middle(), rooms[j - 1].middle(), rooms[j].middle());
        lemma_reachable_symmetric(grid, rooms[i].middle(), rooms[j].middle());
    }
}

} // verus!
