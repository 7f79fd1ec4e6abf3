//! What no turn ever undoes: the player keeps the first place in the store,
//! the log only grows, the inventory stays within its capacity, and no tile
//! of the level is walled up, opened or forgotten.

use vstd::prelude::*;
use crate::engine::{PlayerIntent, handled, monster_served, monsters_moved, player_moved, turn_taken};
use crate::game::{World, descended, leveled, player_ticked};
use crate::help::lemma_closest;
use crate::map::{Tile, attack_target, fighter_on, in_grid, move_or_attack};
use crate::object::{MessageView, ObjectView, first_from, lemma_first_from_is_first, picked_up};
use crate::object::items::{item_dropped, item_used};
use crate::object::perks::eaten;
use crate::object::spells::{Spells, spell_cast};
use crate::settings::INVENTORY_SIZE;

verus! {

/// Whether the entity dies as a player does, if it can die at all.
pub open spec fn dies_as_player(o: ObjectView) -> bool {
    o.fighter matches Some(f) ==> f.on_death is Player
}

/// Whether `after` is the player `before` at a later time: it has the name
/// that it had, is in the way as it was, is as little an item or a monster
/// as it was, and can fight if it could.
pub open spec fn same_player(before: ObjectView, after: ObjectView) -> bool {
    &&& after.name == before.name
    &&& after.blocks == before.blocks
    &&& after.always_visible == before.always_visible
    &&& after.item == before.item
    &&& after.ai == before.ai
    &&& after.fighter is Some <==> before.fighter is Some
    &&& dies_as_player(after)
}

/// Whether the log `after` begins with the log `before`.
pub open spec fn log_grown(before: Seq<MessageView>, after: Seq<MessageView>) -> bool {
    before.len() <= after.len() && after.subrange(0, before.len() as int) == before
}

/// Whether the grid `after` has the tiles of `before`, none walled up,
/// opened or forgotten: each blocks the way and the sight as it did, and is
/// explored if it was.
pub open spec fn map_kept(before: Seq<Seq<Tile>>, after: Seq<Seq<Tile>>) -> bool {
    &&& after.len() == before.len()
    &&& forall|x: int| 0 <= x < before.len() ==> (#[trigger] after[x]).len() == before[x].len()
    &&& forall|x: int, y: int|
        in_grid(before, x, y) ==> {
            &&& (#[trigger] after[x][y]).blocked == before[x][y].blocked
            &&& after[x][y].block_sight == before[x][y].block_sight
            &&& before[x][y].explored ==> after[x][y].explored
        }
}

/// Whether the state `after` carries on from `before` on the same level:
/// the player is in its place, the log has only grown, the tiles are kept,
/// the dungeon level is the same, and the inventory is within its capacity
/// if it was.
pub open spec fn carries_on(before: World, after: World) -> bool {
    &&& after.objects.len() >= 1
    &&& same_player(before.objects[0], after.objects[0])
    &&& log_grown(before.game.messages, after.game.messages)
    &&& map_kept(before.game.map, after.game.map)
    &&& after.game.dungeon_level == before.game.dungeon_level
    &&& before.game.inventory.len() <= INVENTORY_SIZE ==> after.game.inventory.len() <= INVENTORY_SIZE
}

/// A state with a player carries on from itself.
pub proof fn lemma_carries_on_reflexive(w: World)
    requires
        w.objects.len() >= 1,
        dies_as_player(w.objects[0]),
    ensures
        carries_on(w, w),
{
    assert(w.game.messages.subrange(0, w.game.messages.len() as int) =~= w.game.messages);
}

/// What carries on from a state that carries on, carries on.
pub proof fn lemma_carries_on_transitive(a: World, b: World, c: World)
    requires
        carries_on(a, b),
        carries_on(b, c),
    ensures
        carries_on(a, c),
{
    let first = a.game.messages;
    let second = b.game.messages;
    let third = c.game.messages;
    assert(third.subrange(0, first.len() as int) =~= first) by {
        assert forall|i: int| 0 <= i < first.len() implies third[i] == first[i] by {
            assert(second.subrange(0, first.len() as int)[i] == second[i]);
            assert(third.subrange(0, second.len() as int)[i] == third[i]);
        }
    }
    assert forall|x: int, y: int| in_grid(a.game.map, x, y) implies {
        &&& (#[trigger] c.game.map[x][y]).blocked == a.game.map[x][y].blocked
        &&& c.game.map[x][y].block_sight == a.game.map[x][y].block_sight
        &&& a.game.map[x][y].explored ==> c.game.map[x][y].explored
    } by {
        assert(b.game.map[x].len() == a.game.map[x].len());
        assert(in_grid(b.game.map, x, y));
        let t = b.game.map[x][y];
    }
    assert forall|x: int| 0 <= x < a.game.map.len() implies (#[trigger] c.game.map[x]).len() == a.game.map[x].len() by {
        assert(b.game.map[x].len() == a.game.map[x].len());
    }
}

/// Logging carries on.
pub proof fn lemma_logged_carries_on(w: World, messages: Seq<MessageView>)
    requires
        w.objects.len() >= 1,
        dies_as_player(w.objects[0]),
    ensures
        carries_on(w, w.logged(messages)),
{
    assert((w.game.messages + messages).subrange(0, w.game.messages.len() as int) =~= w.game.messages);
}

/// The player's move carries on.
pub proof fn lemma_move_carries_on(w: World, dx: int, dy: int)
    requires
        w.objects.len() >= 1,
        dies_as_player(w.objects[0]),
    ensures
        carries_on(w, move_or_attack(w, dx, dy)),
{
    lemma_first_from_is_first(w.objects, fighter_on(w.objects[0].x + dx, w.objects[0].y + dy), 1);
    lemma_carries_on_reflexive(w);
    match attack_target(w.objects, dx, dy) {
        Some(t) => {
            let fight = crate::object::attacked(w.objects[0], w.objects[t]);
            lemma_logged_carries_on(w, fight.messages);
        },
        None => {},
    }
}

/// Casting a spell carries on.
pub proof fn lemma_spell_carries_on(spell: Spells, target: Option<(int, int)>, w: World, fov: Seq<Seq<bool>>)
    requires
        w.objects.len() >= 1,
        dies_as_player(w.objects[0]),
    ensures
        carries_on(w, spell_cast(spell, target, w, fov).world),
{
    let cast = spell_cast(spell, target, w, fov).world;
    lemma_closest(w.objects, fov, crate::object::spells::LIGHTNING_RANGE as int, w.objects.len() as int);
    lemma_carries_on_reflexive(w);
    if cast.game != w.game {
        let said = choose|said: Seq<MessageView>| cast.game == w.game.logged(said);
        lemma_logged_carries_on(w, said);
    }
}

/// Using an item carries on.
pub proof fn lemma_item_used_carries_on(w: World, id: int, fov: Seq<Seq<bool>>)
    requires
        w.objects.len() >= 1,
        dies_as_player(w.objects[0]),
    ensures
        carries_on(w, item_used(w, id, fov)),
{
    let used = item_used(w, id, fov);
    lemma_closest(w.objects, fov, crate::object::items::LIGHTNING_RANGE as int, w.objects.len() as int);
    lemma_carries_on_reflexive(w);
    if 0 <= id < w.game.inventory.len() {
        match w.game.inventory[id].item {
            Some(kind) => {
                let cast = crate::object::items::item_effect(kind, w, fov).world;
                assert(carries_on(w, cast)) by {
                    if cast.game.messages != w.game.messages {
                        let said = choose|said: Seq<MessageView>| cast.game == w.game.logged(said);
                        lemma_logged_carries_on(w, said);
                    }
                }
                assert(carries_on(cast, used)) by {
                    lemma_carries_on_reflexive(cast);
                    lemma_logged_carries_on(cast, seq![crate::object::note(crate::object::MessageKind::Cancelled)]);
                }
                lemma_carries_on_transitive(w, cast, used);
            },
            None => {
                lemma_logged_carries_on(
                    w,
                    seq![crate::object::report(crate::object::MessageKind::CannotUse, w.game.inventory[id].name, 0)],
                );
            },
        }
    } else {
        lemma_logged_carries_on(w, seq![crate::object::note(crate::object::MessageKind::Cancelled)]);
    }
}

/// Dropping, picking up and eating carry on.
pub proof fn lemma_handling_items_carries_on(w: World, id: int)
    requires
        w.objects.len() >= 1,
        dies_as_player(w.objects[0]),
    ensures
        carries_on(w, item_dropped(w, id)),
        1 <= id < w.objects.len() ==> carries_on(w, picked_up(w, id)) && carries_on(w, eaten(w, id)),
{
    lemma_carries_on_reflexive(w);
    assert forall|said: Seq<MessageView>|
        (#[trigger] (w.game.messages + said)).subrange(0, w.game.messages.len() as int) == w.game.messages by {
        assert((w.game.messages + said).subrange(0, w.game.messages.len() as int) =~= w.game.messages);
    }
}

/// Whatever the player intends, short of a descent, carries on.
pub proof fn lemma_handled_carries_on(w: World, intent: PlayerIntent, fov: Seq<Seq<bool>>)
    requires
        w.objects.len() >= 1,
        dies_as_player(w.objects[0]),
    ensures
        carries_on(w, handled(w, intent, fov).world),
{
    lemma_carries_on_reflexive(w);
    let p = w.objects[0];
    match intent {
        PlayerIntent::Move(direction) => {
            lemma_move_carries_on(w, direction.delta().0, direction.delta().1);
        },
        PlayerIntent::UseItem(id) => {
            lemma_item_used_carries_on(w, id as int, fov);
        },
        PlayerIntent::DropItem(id) => {
            lemma_handling_items_carries_on(w, id as int);
        },
        PlayerIntent::CastSpell(id, target) => {
            if 0 <= id < w.game.spells.len() {
                lemma_spell_carries_on(w.game.spells[id as int], crate::object::spells::tile_of(target), w, fov);
            } else {
                lemma_logged_carries_on(w, seq![crate::object::note(crate::object::MessageKind::Cancelled)]);
            }
        },
        PlayerIntent::PickUp => {
            lemma_first_from_is_first(w.objects, crate::engine::item_on(p.x, p.y), 1);
            match first_from(w.objects, crate::engine::item_on(p.x, p.y), 1) {
                Some(i) => {
                    lemma_handling_items_carries_on(w, i);
                },
                None => {},
            }
        },
        PlayerIntent::Descend => {
            lemma_first_from_is_first(w.objects, crate::engine::remains_on(p.x, p.y), 1);
            match first_from(w.objects, crate::engine::remains_on(p.x, p.y), 1) {
                Some(i) => {
                    lemma_handling_items_carries_on(w, i);
                },
                None => {},
            }
        },
        _ => {},
    }
}

/// The player's status effect carries on.
pub proof fn lemma_ticked_carries_on(w: World)
    requires
        w.objects.len() >= 1,
        dies_as_player(w.objects[0]),
    ensures
        carries_on(w, player_ticked(w)),
{
    let after = player_ticked(w);
    lemma_carries_on_reflexive(w);
    if after.game != w.game {
        let said = choose|said: Seq<MessageView>| after.game == w.game.logged(said);
        lemma_logged_carries_on(w, said);
    }
}

/// The turn of a monster carries on.
pub proof fn lemma_monster_turn_carries_on(w: World, id: int, fov: Seq<Seq<bool>>)
    requires
        0 < id < w.objects.len(),
        dies_as_player(w.objects[0]),
    ensures
        carries_on(w, monster_served(w, id, fov)),
        monster_served(w, id, fov).objects.len() == w.objects.len(),
{
    let after = monster_served(w, id, fov);
    lemma_carries_on_reflexive(w);
    if after.game != w.game {
        let said = choose|said: Seq<MessageView>| after.game == w.game.logged(said);
        lemma_logged_carries_on(w, said);
    }
}

/// The turns of the monsters carry on.
pub proof fn lemma_monsters_carry_on(w: World, fov: Seq<Seq<bool>>, from: int, to: int)
    requires
        1 <= from,
        1 <= to == w.objects.len(),
        dies_as_player(w.objects[0]),
    ensures
        carries_on(w, monsters_moved(w, fov, from, to)),
    decreases to - from,
{
    if from < to {
        let next = monster_served(w, from, fov);
        lemma_monster_turn_carries_on(w, from, fov);
        lemma_monsters_carry_on(next, fov, from + 1, to);
        lemma_carries_on_transitive(w, next, monsters_moved(next, fov, from + 1, to));
    } else {
        lemma_carries_on_reflexive(w);
    }
}

/// A whole turn, short of a descent, carries on: the player keeps the first
/// place in the store, the log only grows, no tile is walled up, opened or
/// forgotten, and the inventory stays within its capacity.
pub proof fn lemma_turn_carries_on(w: World, intent: PlayerIntent, fov: Seq<Seq<bool>>)
    requires
        w.objects.len() >= 1,
        dies_as_player(w.objects[0]),
    ensures
        carries_on(w, turn_taken(w, intent, fov).world),
{
    let first = player_moved(w, intent, fov);
    lemma_carries_on_reflexive(w);
    lemma_handled_carries_on(w, intent, fov);
    assert(carries_on(w, first.world));
    if crate::engine::world_moves(first) {
        let ticked = player_ticked(first.world);
        lemma_ticked_carries_on(first.world);
        lemma_carries_on_transitive(w, first.world, ticked);
        lemma_monsters_carry_on(ticked, fov, 1, ticked.objects.len() as int);
        assert(ticked.objects.len() == first.world.objects.len());
        lemma_carries_on_transitive(w, ticked, monsters_moved(ticked, fov, 1, ticked.objects.len() as int));
    }
}

/// Levelling up carries on.
pub proof fn lemma_leveled_carries_on(w: World, choice: int)
    requires
        w.objects.len() >= 1,
        dies_as_player(w.objects[0]),
    ensures
        carries_on(w, leveled(w, choice)),
{
    lemma_carries_on_reflexive(w);
    if crate::game::levels_up(w, choice) {
        let said = seq![
            crate::object::report(crate::object::MessageKind::LevelUp, Seq::empty(), w.objects[0].level + 1),
        ];
        assert((w.game.messages + said).subrange(0, w.game.messages.len() as int) =~= w.game.messages);
    }
}

/// A descent keeps the player in its place, the inventory as it is, and the
/// log growing; it leaves the level behind and counts one level more.
pub proof fn lemma_descent_keeps(before: World, after: World)
    requires
        before.objects.len() >= 1,
        dies_as_player(before.objects[0]),
        descended(before, after),
    ensures
        after.objects.len() >= 2,
        same_player(before.objects[0], after.objects[0]),
        log_grown(before.game.messages, after.game.messages),
        after.game.inventory == before.game.inventory,
        after.game.dungeon_level == before.game.dungeon_level + 1,
{
    let said = seq![
        crate::object::note(crate::object::MessageKind::Rest),
        crate::object::note(crate::object::MessageKind::Descend),
    ];
    assert((before.game.messages + said).subrange(0, before.game.messages.len() as int) =~= before.game.messages);
}

} // verus!
