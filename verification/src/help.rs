//! Helpers on the entity store.

use vstd::prelude::*;
use vstd::string::*;
use crate::fov::{FovMap, visible_at};
use crate::object::{Object, ObjectView, dist_sq, lemma_square_bound, views};
use crate::settings::PLAYER;

verus! {

/// Borrows two different elements of `items` mutably at once.
pub fn mut_two<T>(first_index: usize, second_index: usize, items: &mut Vec<T>) -> (pair: (&mut T, &mut T))
    requires
        first_index != second_index,
        first_index < old(items).len(),
        second_index < old(items).len(),
    ensures
        *pair.0 == old(items)@[first_index as int],
        *pair.1 == old(items)@[second_index as int],
        final(items)@ == old(items)@.update(first_index as int, *final(pair.0)).update(
            second_index as int,
            *final(pair.1),
        ),
{
    let split_at_index = if first_index > second_index {
        first_index
    } else {
        second_index
    };
    let (first_slice, second_slice) = items.split_at_mut(split_at_index);
    if first_index < second_index {
        (&mut first_slice[first_index], &mut second_slice[0])
    } else {
        (&mut second_slice[0], &mut first_slice[second_index])
    }
}

/// Whether the entity is a monster that the player can see.
pub open spec fn is_prey(o: ObjectView, fov: Seq<Seq<bool>>) -> bool {
    o.fighter is Some && o.ai is Some && visible_at(fov, o.x, o.y)
}

/// The square of the distance from the player to entity `i`.
pub open spec fn gap_sq(objects: Seq<ObjectView>, i: int) -> int {
    dist_sq(objects[0].x, objects[0].y, objects[i].x, objects[i].y)
}

/// The square of the distance below which a monster is within `max_range`:
/// that of `max_range + 1`, or nothing if that is not a distance.
pub open spec fn reach_sq(max_range: int) -> int {
    if max_range + 1 > 0 {
        (max_range + 1) * (max_range + 1)
    } else {
        0
    }
}

/// The visible monster nearest to the player among the entities before
/// `upto`, if one is within `max_range`; of several equally near, the first.
pub open spec fn closest_upto(objects: Seq<ObjectView>, fov: Seq<Seq<bool>>, max_range: int, upto: int) -> Option<
    int,
>
    decreases upto,
{
    if upto <= 1 {
        None
    } else {
        let best = closest_upto(objects, fov, max_range, upto - 1);
        let bound = match best {
            Some(b) => gap_sq(objects, b),
            None => reach_sq(max_range),
        };
        if is_prey(objects[upto - 1], fov) && gap_sq(objects, upto - 1) < bound {
            Some(upto - 1)
        } else {
            best
        }
    }
}

/// The visible monster nearest to the player, if one is within `max_range`.
pub open spec fn closest(objects: Seq<ObjectView>, fov: Seq<Seq<bool>>, max_range: int) -> Option<int> {
    closest_upto(objects, fov, max_range, objects.len() as int)
}

/// What `closest_upto` finds is a visible monster within range, none is
/// nearer, and none before it is as near. It finds nothing only if no visible
/// monster is within range.
pub proof fn lemma_closest(objects: Seq<ObjectView>, fov: Seq<Seq<bool>>, max_range: int, upto: int)
    requires
        upto <= objects.len(),
    ensures
        match closest_upto(objects, fov, max_range, upto) {
            Some(i) => {
                &&& 1 <= i < upto
                &&& is_prey(objects[i], fov)
                &&& gap_sq(objects, i) < reach_sq(max_range)
                &&& forall|j: int| 1 <= j < upto && is_prey(#[trigger] objects[j], fov) ==> gap_sq(objects, i) <= gap_sq(objects, j)
                &&& forall|j: int| 1 <= j < i && is_prey(#[trigger] objects[j], fov) ==> gap_sq(objects, i) < gap_sq(objects, j)
            },
            None => forall|j: int|
                1 <= j < upto && is_prey(#[trigger] objects[j], fov) ==> gap_sq(objects, j) >= reach_sq(max_range),
        },
    decreases upto,
{
    if upto > 1 {
        lemma_closest(objects, fov, max_range, upto - 1);
    }
}

/// The visible monster nearest to the player, if one is within `max_range`.
pub fn closest_monster(fov: &FovMap, objects: &Vec<Object>, max_range: i32) -> (found: Option<usize>)
    requires
        objects@.len() > 0,
    ensures
        match found {
            Some(i) => closest(views(objects@), fov@, max_range as int) == Some(i as int) && 0 < i < objects@.len(),
            None => closest(views(objects@), fov@, max_range as int) is None,
        },
{
    let reach: i128 = max_range as i128 + 1;
    proof {
        lemma_square_bound(reach as int);
    }
    let mut closest_dist: i128 = if reach > 0 {
        reach * reach
    } else {
        0
    };
    let mut closest_enemy: Option<usize> = None;
    let mut id: usize = 1;
    while id < objects.len()
        invariant
            1 <= id <= objects@.len(),
            match closest_enemy {
                Some(i) => closest_upto(views(objects@), fov@, max_range as int, id as int) == Some(i as int) && 0 < i
                    < id && closest_dist == gap_sq(views(objects@), i as int),
                None => closest_upto(views(objects@), fov@, max_range as int, id as int) is None && closest_dist
                    == reach_sq(max_range as int),
            },
        decreases objects@.len() - id,
    {
        let object = &objects[id];
        if object.fighter.is_some() && object.ai.is_some() && fov.is_in_fov(object.x, object.y) {
            let dist = objects[PLAYER].distance_sq_to(object);
            if dist < closest_dist {
                closest_enemy = Some(id);
                closest_dist = dist;
            }
        }
        id += 1;
    }
    closest_enemy
}

/// What the player does with the pointer while choosing a tile.
#[derive(Clone, Copy, Debug, PartialEq, Eq)]
pub struct Pointer {
    /// The column of the tile under the pointer.
    pub x: i32,
    /// The row of the tile under the pointer.
    pub y: i32,
    /// Whether the left button was pressed.
    pub accept: bool,
    /// Whether the right button or the escape key was pressed.
    pub cancel: bool,
}

/// What has come of choosing a tile.
#[derive(Clone, Copy, Debug, PartialEq, Eq)]
pub enum Targeting {
    /// The player chose this tile.
    Chosen(i32, i32),
    /// The player gave up.
    Cancelled,
    /// The player has not decided yet.
    Waiting,
}

/// Whether `(x, y)` is within `max_range` of the player; without a range
/// every tile is.
pub open spec fn in_range(objects: Seq<ObjectView>, x: int, y: int, max_range: Option<int>) -> bool {
    match max_range {
        Some(r) => r >= 0 && dist_sq(objects[0].x, objects[0].y, x, y) <= r * r,
        None => true,
    }
}

/// Whether `(x, y)` can be chosen as a target: the player sees it, and it is
/// within range.
pub open spec fn targetable(objects: Seq<ObjectView>, fov: Seq<Seq<bool>>, x: int, y: int, max_range: Option<int>) -> bool {
    visible_at(fov, x, y) && in_range(objects, x, y, max_range)
}

/// What one look at the pointer decides. A tile that can be targeted is
/// chosen when the player accepts it; failing that, the player may give up;
/// failing that, the choice is still open.
pub open spec fn targeting(pointer: Pointer, objects: Seq<ObjectView>, fov: Seq<Seq<bool>>, max_range: Option<int>) -> Targeting {
    if pointer.accept && targetable(objects, fov, pointer.x as int, pointer.y as int, max_range) {
        Targeting::Chosen(pointer.x, pointer.y)
    } else if pointer.cancel {
        Targeting::Cancelled
    } else {
        Targeting::Waiting
    }
}

/// The range as a mathematical integer.
pub open spec fn range_of(max_range: Option<i32>) -> Option<int> {
    match max_range {
        Some(r) => Some(r as int),
        None => None,
    }
}

/// Decides what one look at the pointer means for the choice of a tile.
pub fn target_tile(pointer: Pointer, fov: &FovMap, objects: &Vec<Object>, max_range: Option<i32>) -> (result:
    Targeting)
    requires
        objects@.len() > 0,
    ensures
        result == targeting(pointer, views(objects@), fov@, range_of(max_range)),
{
    let in_fov = fov.is_in_fov(pointer.x, pointer.y);
    let in_range = match max_range {
        Some(r) => {
            proof {
                lemma_square_bound(r as int);
            }
            r >= 0 && objects[PLAYER].distance_sq(pointer.x, pointer.y) <= (r as i128) * (r as i128)
        },
        None => true,
    };
    if pointer.accept && in_fov && in_range {
        return Targeting::Chosen(pointer.x, pointer.y);
    }
    if pointer.cancel {
        return Targeting::Cancelled;
    }
    Targeting::Waiting
}

/// The test for a fighter on `(x, y)`.
pub open spec fn fighter_at(x: int, y: int) -> spec_fn(ObjectView) -> bool {
    |o: ObjectView| o.x == x && o.y == y && o.fighter is Some
}

/// The monster on the targeted tile: the place, counted from the first
/// entity after the player, of the first fighter there.
pub open spec fn monster_on(objects: Seq<ObjectView>, target: Option<(int, int)>) -> Option<int> {
    match target {
        Some((x, y)) => match crate::object::first_from(objects, fighter_at(x, y), 1) {
            Some(i) => Some(i - 1),
            None => None,
        },
        None => None,
    }
}

/// The monster on the targeted tile, counted from the first entity after
/// the player.
pub fn targer_monster(target: Option<(i32, i32)>, objects: &Vec<Object>) -> (found: Option<usize>)
    ensures
        match found {
            Some(i) => monster_on(views(objects@), crate::object::spells::tile_of(target)) == Some(i as int),
            None => monster_on(views(objects@), crate::object::spells::tile_of(target)) is None,
        },
{
    let (x, y) = match target {
        Some(tile) => tile,
        None => {
            return None;
        },
    };
    let ghost p = fighter_at(x as int, y as int);
    let mut i: usize = 1;
    while i < objects.len()
        invariant
            1 <= i,
            target == Some((x, y)),
            p == fighter_at(x as int, y as int),
            forall|j: int| 1 <= j < i && j < objects@.len() ==> !p(#[trigger] views(objects@)[j]),
        decreases objects@.len() - i,
    {
        if objects[i].x == x && objects[i].y == y && objects[i].fighter.is_some() {
            proof {
                crate::object::lemma_first_from_skip(views(objects@), p, 1, i as int);
                assert(p(views(objects@)[i as int]));
            }
            return Some(i - 1);
        }
        i += 1;
    }
    proof {
        if 1 <= objects@.len() {
            crate::object::lemma_first_from_skip(views(objects@), p, 1, objects@.len() as int);
        }
    }
    None
}

/// Whether the entity is on `(x, y)` and can be seen there.
pub open spec fn seen_on(o: ObjectView, x: int, y: int, fov: Seq<Seq<bool>>) -> bool {
    o.x == x && o.y == y && visible_at(fov, o.x, o.y)
}

/// The names of the entities before `upto` that can be seen on `(x, y)`,
/// separated by a comma and a blank.
pub open spec fn names_on(objects: Seq<ObjectView>, x: int, y: int, fov: Seq<Seq<bool>>, upto: int) -> Seq<char>
    decreases upto,
{
    if upto <= 0 {
        Seq::empty()
    } else {
        let before = names_on(objects, x, y, fov, upto - 1);
        let o = objects[upto - 1];
        if seen_on(o, x, y, fov) {
            if any_on(objects, x, y, fov, upto - 1) {
                before + ", "@ + o.name
            } else {
                o.name
            }
        } else {
            before
        }
    }
}

/// Whether one of the entities before `upto` can be seen on `(x, y)`.
pub open spec fn any_on(objects: Seq<ObjectView>, x: int, y: int, fov: Seq<Seq<bool>>, upto: int) -> bool {
    exists|i: int| 0 <= i < upto && i < objects.len() && seen_on(#[trigger] objects[i], x, y, fov)
}

/// The names of the entities that can be seen on the tile `(x, y)` under
/// the pointer, separated by a comma and a blank.
pub fn get_names_under_mouse(x: i32, y: i32, objects: &Vec<Object>, fov: &FovMap) -> (names: String)
    ensures
        names@ == names_on(views(objects@), x as int, y as int, fov@, objects@.len() as int),
{
    let mut names = String::new();
    let mut found = false;
    let mut i: usize = 0;
    while i < objects.len()
        invariant
            0 <= i <= objects@.len(),
            found == any_on(views(objects@), x as int, y as int, fov@, i as int),
            !found ==> names@ == Seq::<char>::empty(),
            names@ == names_on(views(objects@), x as int, y as int, fov@, i as int),
        decreases objects@.len() - i,
    {
        let ghost all = views(objects@);
        if objects[i].x == x && objects[i].y == y && fov.is_in_fov(objects[i].x, objects[i].y) {
            if found {
                names.append(", ");
            }
            names.append(objects[i].name.as_str());
            proof {
                assert(seen_on(all[i as int], x as int, y as int, fov@));
                if !found {
                    assert(Seq::<char>::empty() + all[i as int].name =~= all[i as int].name);
                }
            }
            found = true;
        } else {
            proof {
                assert(!seen_on(all[i as int], x as int, y as int, fov@));
                if any_on(all, x as int, y as int, fov@, i + 1) {
                    let k = choose|k: int| 0 <= k < i + 1 && k < all.len() && seen_on(#[trigger] all[k], x as int, y as int, fov@);
                    assert(k < i);
                }
            }
        }
        i += 1;
    }
    names
}

} // verus!
