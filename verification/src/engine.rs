//! The player's turn: what an intent does to the state of the run, and the
//! turns of the monsters that follow it.

use vstd::prelude::*;
use vstd::string::*;
use crate::ai::{ai_take_turn, monster_turn, monster_turn_fits};
use crate::fov::FovMap;
use crate::game::{
    Game, GameView, World, check_level_up, check_status_effect, descended, descent_fits, level_up_due, next_level,
    level_up_xp, player_ticked, player_ticked_fits, world,
};
use crate::map::{index_of, move_or_attack, move_or_attack_fits, player_move_or_attack, revealed};
use crate::object::{
    Effect, Fighter, MessageKind, Object, ObjectView, PlayerAction, REMAINS_GLYPH, UseResult, first_from,
    lemma_first_from_is_first, lemma_first_from_skip, lemma_views_update, note, pick_item_up, picked_up, rewarded,
    views,
};
use crate::object::items::{drop_item, item_dropped, item_used, item_used_fits, use_item};
use crate::object::perks::{Perks, eaten, trigger_scavenger};
use crate::object::spells::{cast_spell, spell_cast, spell_cast_fits, tile_of};
use crate::settings::{LEVEL_UP_BASE, LEVEL_UP_FACTOR, PLAYER};

verus! {

/// The four ways the player can step.
#[derive(Clone, Copy, Debug, PartialEq, Eq, Structural)]
pub enum Direction {
    Up,
    Down,
    Left,
    Right,
}

impl Direction {
    /// The step as a change of column and row.
    pub open spec fn delta(self) -> (int, int) {
        match self {
            Direction::Up => (0, -1),
            Direction::Down => (0, 1),
            Direction::Left => (-1, 0),
            Direction::Right => (1, 0),
        }
    }

    /// The step as a change of column and row.
    pub fn step(&self) -> (d: (i32, i32))
        ensures
            (d.0 as int, d.1 as int) == self.delta(),
    {
        match self {
            Direction::Up => (0, -1),
            Direction::Down => (0, 1),
            Direction::Left => (-1, 0),
            Direction::Right => (1, 0),
        }
    }
}

/// The shortcuts that bend the rules.
#[derive(Clone, Copy, Debug, PartialEq, Eq, Structural)]
pub enum Cheat {
    /// Marks the whole level as explored.
    RevealMap,
    /// Gives the player experience.
    GainExperience,
}

/// The experience that the cheat gives.
pub const CHEAT_XP: i32 = 100;

/// What the player wants to do, once the input has been decoded.
#[derive(Clone, Copy, Debug, PartialEq, Eq)]
pub enum PlayerIntent {
    /// Step in a direction, or attack what stands there.
    Move(Direction),
    /// Use an entry of the inventory.
    UseItem(usize),
    /// Drop an entry of the inventory.
    DropItem(usize),
    /// Cast the spell with this place among the known spells, at this tile
    /// if it is aimed.
    CastSpell(usize, Option<(i32, i32)>),
    /// Pick up what lies here.
    PickUp,
    /// Take the stairs, or eat what lies here.
    Descend,
    /// Let a turn pass.
    Wait,
    /// Bend the rules.
    OpenCheat(Cheat),
    /// Leave.
    Exit,
}

/// The state after an intent has been handled, and what the intent amounted to.
#[verifier::ext_equal]
pub struct Handled {
    pub world: World,
    pub action: PlayerAction,
}

/// The test for an item that lies on `(x, y)`.
pub open spec fn item_on(x: int, y: int) -> spec_fn(ObjectView) -> bool {
    |o: ObjectView| o.x == x && o.y == y && o.item is Some
}

/// The test for remains that lie on `(x, y)`.
pub open spec fn remains_on(x: int, y: int) -> spec_fn(ObjectView) -> bool {
    |o: ObjectView| o.x == x && o.y == y && o.glyph == REMAINS_GLYPH
}

/// The test for stairs on `(x, y)`.
pub open spec fn stairs_on(x: int, y: int) -> spec_fn(ObjectView) -> bool {
    |o: ObjectView| o.x == x && o.y == y && o.name == "stairs"@
}

/// Whether the player stands on stairs.
pub open spec fn on_stairs(objects: Seq<ObjectView>) -> bool {
    first_from(objects, stairs_on(objects[0].x, objects[0].y), 0) is Some
}

/// Whether the intent takes the player down the stairs.
pub open spec fn descends(w: World, intent: PlayerIntent) -> bool {
    intent is Descend && w.objects[0].alive && on_stairs(w.objects)
}

/// What picking up comes to: the first item under the player, if there is
/// one, goes to the inventory.
pub open spec fn gathered(w: World) -> World {
    match first_from(w.objects, item_on(w.objects[0].x, w.objects[0].y), 1) {
        Some(i) => picked_up(w, i),
        None => w,
    }
}

/// What eating comes to: a player with the scavenger perk eats the first
/// remains that lie under it.
pub open spec fn scavenged(w: World) -> World {
    if w.game.perks.contains(Perks::Scavenger) {
        match first_from(w.objects, remains_on(w.objects[0].x, w.objects[0].y), 1) {
            Some(i) => eaten(w, i),
            None => w,
        }
    } else {
        w
    }
}

/// What casting the spell in place `id` of the known spells comes to. A
/// place that does not exist is a cancelled choice. A spell that had its
/// effect takes the turn.
pub open spec fn spell_chosen(w: World, id: int, target: Option<(int, int)>, fov: Seq<Seq<bool>>) -> Handled {
    if 0 <= id < w.game.spells.len() {
        let cast = spell_cast(w.game.spells[id], target, w, fov);
        Handled {
            world: cast.world,
            action: if cast.result is UsedUp {
                PlayerAction::TookTurn
            } else {
                PlayerAction::DidntTakeTurn
            },
        }
    } else {
        Handled { world: w.logged(seq![note(MessageKind::Cancelled)]), action: PlayerAction::DidntTakeTurn }
    }
}

/// What an intent does, but for a descent, of which [`descended`] speaks.
/// Leaving always works. A dead player can do nothing but look at the whole
/// level. Moving and waiting take the turn, and so does a spell that had its
/// effect; nothing else does.
pub open spec fn handled(w: World, intent: PlayerIntent, fov: Seq<Seq<bool>>) -> Handled {
    let idle = Handled { world: w, action: PlayerAction::DidntTakeTurn };
    let alive = w.objects[0].alive;
    match intent {
        PlayerIntent::Exit => Handled { world: w, action: PlayerAction::Exit },
        PlayerIntent::OpenCheat(Cheat::RevealMap) => Handled {
            world: World { game: GameView { map: revealed(w.game.map), ..w.game }, ..w },
            action: PlayerAction::DidntTakeTurn,
        },
        _ => if !alive {
            idle
        } else {
            match intent {
                PlayerIntent::Move(direction) => Handled {
                    world: move_or_attack(w, direction.delta().0, direction.delta().1),
                    action: PlayerAction::TookTurn,
                },
                PlayerIntent::UseItem(id) => Handled {
                    world: item_used(w, id as int, fov),
                    action: PlayerAction::DidntTakeTurn,
                },
                PlayerIntent::DropItem(id) => Handled {
                    world: item_dropped(w, id as int),
                    action: PlayerAction::DidntTakeTurn,
                },
                PlayerIntent::CastSpell(id, target) => spell_chosen(w, id as int, tile_of(target), fov),
                PlayerIntent::PickUp => Handled { world: gathered(w), action: PlayerAction::DidntTakeTurn },
                PlayerIntent::Descend => Handled { world: scavenged(w), action: PlayerAction::DidntTakeTurn },
                PlayerIntent::Wait => Handled { world: w, action: PlayerAction::TookTurn },
                PlayerIntent::OpenCheat(Cheat::GainExperience) => Handled {
                    world: w.with_objects(w.objects.update(0, rewarded(w.objects[0], CHEAT_XP as int))),
                    action: PlayerAction::DidntTakeTurn,
                },
                _ => idle,
            }
        },
    }
}

/// Whether the statistics that handling the intent computes can be stored.
pub open spec fn handled_fits(w: World, intent: PlayerIntent, fov: Seq<Seq<bool>>) -> bool {
    w.objects[0].alive ==> match intent {
        PlayerIntent::Move(direction) => move_or_attack_fits(w, direction.delta().0, direction.delta().1),
        PlayerIntent::UseItem(id) => item_used_fits(w, id as int, fov),
        PlayerIntent::CastSpell(id, target) => 0 <= id < w.game.spells.len() ==> spell_cast_fits(
            w.game.spells[id as int],
            tile_of(target),
            w,
            fov,
        ),
        PlayerIntent::Descend => on_stairs(w.objects) ==> descent_fits(w),
        PlayerIntent::OpenCheat(Cheat::GainExperience) => rewarded(w.objects[0], CHEAT_XP as int).storable(),
        _ => true,
    }
}

fn find_item_at(objects: &Vec<Object>, x: i32, y: i32) -> (found: Option<usize>)
    ensures
        index_of(found) == first_from(views(objects@), item_on(x as int, y as int), 1),
        found matches Some(i) ==> 1 <= i < objects@.len(),
{
    let ghost p = item_on(x as int, y as int);
    let mut i: usize = 1;
    while i < objects.len()
        invariant
            1 <= i,
            p == item_on(x as int, y as int),
            forall|j: int| 1 <= j < i && j < objects@.len() ==> !p(#[trigger] views(objects@)[j]),
        decreases objects@.len() - i,
    {
        if objects[i].x == x && objects[i].y == y && objects[i].item.is_some() {
            proof {
                lemma_first_from_skip(views(objects@), p, 1, i as int);
            }
            return Some(i);
        }
        i += 1;
    }
    proof {
        if 1 <= objects@.len() {
            lemma_first_from_skip(views(objects@), p, 1, objects@.len() as int);
        }
    }
    None
}

fn find_remains_at(objects: &Vec<Object>, x: i32, y: i32) -> (found: Option<usize>)
    ensures
        index_of(found) == first_from(views(objects@), remains_on(x as int, y as int), 1),
        found matches Some(i) ==> 1 <= i < objects@.len(),
{
    let ghost p = remains_on(x as int, y as int);
    let mut i: usize = 1;
    while i < objects.len()
        invariant
            1 <= i,
            p == remains_on(x as int, y as int),
            forall|j: int| 1 <= j < i && j < objects@.len() ==> !p(#[trigger] views(objects@)[j]),
        decreases objects@.len() - i,
    {
        if objects[i].x == x && objects[i].y == y && objects[i].glyph == REMAINS_GLYPH {
            proof {
                lemma_first_from_skip(views(objects@), p, 1, i as int);
            }
            return Some(i);
        }
        i += 1;
    }
    proof {
        if 1 <= objects@.len() {
            lemma_first_from_skip(views(objects@), p, 1, objects@.len() as int);
        }
    }
    None
}

/// Whether the player stands on stairs.
pub fn player_on_stairs(objects: &Vec<Object>) -> (b: bool)
    requires
        objects@.len() > 0,
    ensures
        b == on_stairs(views(objects@)),
{
    let x = objects[PLAYER].x;
    let y = objects[PLAYER].y;
    let stairs = String::from_str("stairs");
    let ghost p = stairs_on(x as int, y as int);
    let mut i: usize = 0;
    while i < objects.len()
        invariant
            0 <= i <= objects@.len(),
            stairs@ == "stairs"@,
            x == objects@[0].x,
            y == objects@[0].y,
            p == stairs_on(x as int, y as int),
            forall|j: int| 0 <= j < i ==> !p(#[trigger] views(objects@)[j]),
        decreases objects@.len() - i,
    {
        if objects[i].x == x && objects[i].y == y && objects[i].name == stairs {
            proof {
                lemma_first_from_skip(views(objects@), p, 0, i as int);
            }
            return true;
        }
        i += 1;
    }
    proof {
        lemma_first_from_skip(views(objects@), p, 0, objects@.len() as int);
    }
    false
}

fn has_perk(perks: &Vec<Perks>, perk: Perks) -> (b: bool)
    ensures
        b == perks@.contains(perk),
{
    let mut i: usize = 0;
    while i < perks.len()
        invariant
            i <= perks@.len(),
            forall|j: int| 0 <= j < i ==> perks@[j] != perk,
        decreases perks@.len() - i,
    {
        if perks[i] == perk {
            return true;
        }
        i += 1;
    }
    false
}

/// Does what the player intends, and says what that amounted to.
pub fn handle_keys(intent: PlayerIntent, fov: &FovMap, game: &mut Game, objects: &mut Vec<Object>) -> (action:
    PlayerAction)
    requires
        old(objects).len() > 0,
        handled_fits(world(*old(game), old(objects)@), intent, fov@),
    ensures
        final(objects).len() > 0,
        descends(world(*old(game), old(objects)@), intent) ==> action == PlayerAction::DidntTakeTurn && descended(
            world(*old(game), old(objects)@),
            world(*final(game), final(objects)@),
        ),
        !descends(world(*old(game), old(objects)@), intent) ==> world(*final(game), final(objects)@) == handled(
            world(*old(game), old(objects)@),
            intent,
            fov@,
        ).world && action == handled(world(*old(game), old(objects)@), intent, fov@).action,
{
    let ghost before = world(*game, objects@);
    let player_alive = objects[PLAYER].alive;
    match intent {
        PlayerIntent::Exit => PlayerAction::Exit,
        PlayerIntent::OpenCheat(Cheat::RevealMap) => {
            game.map.reveal_all();
            assert(game@ =~= GameView { map: revealed(before.game.map), ..before.game });
            PlayerAction::DidntTakeTurn
        },
        _ => {
            if !player_alive {
                return PlayerAction::DidntTakeTurn;
            }
            match intent {
                PlayerIntent::Move(direction) => {
                    let (dx, dy) = direction.step();
                    player_move_or_attack(dx, dy, game, objects);
                    proof {
                        let after = move_or_attack(before, dx as int, dy as int);
                        lemma_first_from_is_first(
                            before.objects,
                            crate::map::fighter_on(before.objects[0].x + dx, before.objects[0].y + dy),
                            1,
                        );
                        assert(after.objects.len() == before.objects.len());
                        assert(views(objects@).len() == objects@.len());
                    }
                    PlayerAction::TookTurn
                },
                PlayerIntent::PickUp => {
                    let (x, y) = objects[PLAYER].pos();
                    match find_item_at(objects, x, y) {
                        Some(item_id) => {
                            pick_item_up(item_id, game, objects);
                            proof {
                                assert(picked_up(before, item_id as int).objects.len() >= 1);
                                assert(views(objects@).len() == objects@.len());
                            }
                        },
                        None => {},
                    }
                    PlayerAction::DidntTakeTurn
                },
                PlayerIntent::UseItem(inventory_index) => {
                    use_item(inventory_index, fov, game, objects);
                    proof {
                        lemma_item_used_keeps_player(before, inventory_index as int, fov@);
                        assert(views(objects@).len() == objects@.len());
                    }
                    PlayerAction::DidntTakeTurn
                },
                PlayerIntent::DropItem(inventory_index) => {
                    drop_item(inventory_index, game, objects);
                    proof {
                        assert(item_dropped(before, inventory_index as int).objects.len() >= 1);
                        assert(views(objects@).len() == objects@.len());
                    }
                    PlayerAction::DidntTakeTurn
                },
                PlayerIntent::CastSpell(spell_id, target) => {
                    if spell_id < game.spells.len() {
                        let spell = game.spells[spell_id];
                        let result = cast_spell(spell, target, fov, game, objects);
                        proof {
                            lemma_spell_cast_keeps_player(spell, tile_of(target), before, fov@);
                            assert(views(objects@).len() == objects@.len());
                        }
                        match result {
                            UseResult::Cancelled => PlayerAction::DidntTakeTurn,
                            UseResult::UsedUp => PlayerAction::TookTurn,
                        }
                    } else {
                        game.note(MessageKind::Cancelled);
                        PlayerAction::DidntTakeTurn
                    }
                },
                PlayerIntent::Descend => {
                    if player_on_stairs(objects) {
                        next_level(game, objects);
                        proof {
                            assert(views(objects@).len() == objects@.len());
                        }
                        return PlayerAction::DidntTakeTurn;
                    }
                    if has_perk(&game.perks, Perks::Scavenger) {
                        let (x, y) = objects[PLAYER].pos();
                        match find_remains_at(objects, x, y) {
                            Some(dead_monster_id) => {
                                trigger_scavenger(dead_monster_id, game, objects);
                                proof {
                                    assert(eaten(before, dead_monster_id as int).objects.len() >= 1);
                                    assert(views(objects@).len() == objects@.len());
                                }
                            },
                            None => {},
                        }
                    }
                    PlayerAction::DidntTakeTurn
                },
                PlayerIntent::Wait => PlayerAction::TookTurn,
                PlayerIntent::OpenCheat(Cheat::GainExperience) => {
                    match objects[PLAYER].fighter {
                        Some(f) => {
                            objects[PLAYER].fighter = Some(Fighter { xp: f.xp + CHEAT_XP, ..f });
                        },
                        None => {},
                    }
                    proof {
                        assert(objects@ =~= old(objects)@.update(0, objects@[0]));
                        lemma_views_update(old(objects)@, 0, objects@[0]);
                    }
                    PlayerAction::DidntTakeTurn
                },
                _ => PlayerAction::DidntTakeTurn,
            }
        },
    }
}

/// Using an item leaves the player in the store.
pub proof fn lemma_item_used_keeps_player(w: World, id: int, fov: Seq<Seq<bool>>)
    requires
        w.objects.len() > 0,
    ensures
        item_used(w, id, fov).objects.len() == w.objects.len(),
{
    crate::help::lemma_closest(w.objects, fov, crate::object::items::LIGHTNING_RANGE as int, w.objects.len() as int);
}

/// Casting a spell leaves the player in the store.
pub proof fn lemma_spell_cast_keeps_player(spell: crate::object::spells::Spells, target: Option<(int, int)>, w: World, fov: Seq<Seq<bool>>)
    requires
        w.objects.len() > 0,
    ensures
        spell_cast(spell, target, w, fov).world.objects.len() >= w.objects.len(),
{
    crate::help::lemma_closest(w.objects, fov, crate::object::spells::LIGHTNING_RANGE as int, w.objects.len() as int);
}

/// The state after monster `id` has had its turn, if it is one that acts.
pub open spec fn monster_served(w: World, id: int, fov: Seq<Seq<bool>>) -> World {
    if w.objects[id].ai is Some {
        monster_turn(w, id, fov)
    } else {
        w
    }
}

/// The state after the entities from `from` up to `to` have had their turns,
/// one after another in the order of the store.
pub open spec fn monsters_moved(w: World, fov: Seq<Seq<bool>>, from: int, to: int) -> World
    decreases to - from,
{
    if from >= to {
        w
    } else {
        monsters_moved(monster_served(w, from, fov), fov, from + 1, to)
    }
}

/// Whether the statistics that `monsters_moved(w, fov, from, to)` computes
/// can be stored.
pub open spec fn monsters_fit(w: World, fov: Seq<Seq<bool>>, from: int, to: int) -> bool
    decreases to - from,
{
    if from >= to {
        true
    } else {
        &&& w.objects[from].ai is Some ==> monster_turn_fits(w, from, fov)
        &&& monsters_fit(monster_served(w, from, fov), fov, from + 1, to)
    }
}

/// The turn of a monster neither adds nor removes an entity.
pub proof fn lemma_monster_turn_len(w: World, id: int, fov: Seq<Seq<bool>>)
    requires
        0 < id < w.objects.len(),
    ensures
        monster_turn(w, id, fov).objects.len() == w.objects.len(),
{
}

/// Lets every monster have its turn, in the order of the store.
pub fn run_monsters(fov: &FovMap, game: &mut Game, objects: &mut Vec<Object>)
    requires
        old(objects).len() > 0,
        monsters_fit(world(*old(game), old(objects)@), fov@, 1, old(objects).len() as int),
    ensures
        final(objects).len() == old(objects).len(),
        world(*final(game), final(objects)@) == monsters_moved(
            world(*old(game), old(objects)@),
            fov@,
            1,
            old(objects).len() as int,
        ),
{
    let ghost before = world(*game, objects@);
    let ghost count = objects@.len() as int;
    let mut id: usize = 1;
    while id < objects.len()
        invariant
            1 <= id <= count,
            objects@.len() == count,
            monsters_fit(world(*game, objects@), fov@, id as int, count),
            monsters_moved(world(*game, objects@), fov@, id as int, count) == monsters_moved(before, fov@, 1, count),
        decreases count - id,
    {
        let ghost here = world(*game, objects@);
        if objects[id].ai.is_some() {
            proof {
                lemma_monster_turn_len(here, id as int, fov@);
            }
            ai_take_turn(id, fov, game, objects);
            proof {
                assert(views(objects@).len() == objects@.len());
            }
        }
        id += 1;
    }
}

/// Whether the player has to choose a reward before anything else happens.
pub open spec fn awaits_reward(w: World) -> bool {
    w.objects[0].fighter is Some && level_up_due(w.objects[0])
}

/// Whether the player is frozen and so loses its action.
pub open spec fn frozen_out(player: ObjectView) -> bool {
    player.alive && (player.effect matches Some(e) && e.effect is Frozen && e.turns_left != 0)
}

/// What the player's part of a turn comes to, but for a descent. While a
/// reward has to be chosen nothing happens. A frozen player loses its action
/// and the turn passes. Otherwise the intent is handled.
pub open spec fn player_moved(w: World, intent: PlayerIntent, fov: Seq<Seq<bool>>) -> Handled {
    if awaits_reward(w) {
        Handled { world: w, action: PlayerAction::DidntTakeTurn }
    } else if frozen_out(w.objects[0]) && !(intent is Exit) {
        Handled { world: w, action: PlayerAction::TookTurn }
    } else {
        handled(w, intent, fov)
    }
}

/// Whether the turn is a descent.
pub open spec fn turn_descends(w: World, intent: PlayerIntent) -> bool {
    !awaits_reward(w) && !frozen_out(w.objects[0]) && descends(w, intent)
}

/// Whether the rest of the world moves after the player's part of a turn:
/// only when that took the turn and left the player alive.
pub open spec fn world_moves(first: Handled) -> bool {
    first.action is TookTurn && first.world.objects[0].alive
}

/// What a whole turn comes to, but for a descent. After the player's part,
/// if the world moves, the player's status effect is applied and then every
/// monster has its turn.
pub open spec fn turn_taken(w: World, intent: PlayerIntent, fov: Seq<Seq<bool>>) -> Handled {
    let first = player_moved(w, intent, fov);
    if world_moves(first) {
        Handled {
            world: monsters_moved(player_ticked(first.world), fov, 1, first.world.objects.len() as int),
            action: PlayerAction::TookTurn,
        }
    } else {
        first
    }
}

/// Whether the statistics that a whole turn computes can be stored.
pub open spec fn turn_fits(w: World, intent: PlayerIntent, fov: Seq<Seq<bool>>) -> bool {
    let first = player_moved(w, intent, fov);
    &&& !awaits_reward(w) && !(frozen_out(w.objects[0]) && !(intent is Exit)) ==> handled_fits(w, intent, fov)
    &&& !turn_descends(w, intent) && world_moves(first) ==> {
        &&& player_ticked_fits(first.world)
        &&& monsters_fit(player_ticked(first.world), fov, 1, first.world.objects.len() as int)
    }
}

/// Plays one turn: the player's intent, then, if that took the turn and the
/// player lives, the player's status effect and the monsters' turns.
pub fn play_turn(intent: PlayerIntent, fov: &FovMap, game: &mut Game, objects: &mut Vec<Object>) -> (action:
    PlayerAction)
    requires
        old(objects).len() > 0,
        turn_fits(world(*old(game), old(objects)@), intent, fov@),
    ensures
        final(objects).len() > 0,
        turn_descends(world(*old(game), old(objects)@), intent) ==> action == PlayerAction::DidntTakeTurn
            && descended(world(*old(game), old(objects)@), world(*final(game), final(objects)@)),
        !turn_descends(world(*old(game), old(objects)@), intent) ==> world(*final(game), final(objects)@)
            == turn_taken(world(*old(game), old(objects)@), intent, fov@).world && action == turn_taken(
            world(*old(game), old(objects)@),
            intent,
            fov@,
        ).action,
{
    if objects[PLAYER].fighter.is_some() && check_level_up(objects) {
        return PlayerAction::DidntTakeTurn;
    }
    let frozen = objects[PLAYER].alive && match objects[PLAYER].effect {
        Some(e) => e.effect == Effect::Frozen && e.turns_left != 0,
        None => false,
    };
    let player_action = match intent {
        PlayerIntent::Exit => handle_keys(intent, fov, game, objects),
        _ => if frozen {
            PlayerAction::TookTurn
        } else {
            handle_keys(intent, fov, game, objects)
        },
    };
    if player_action == PlayerAction::Exit {
        return player_action;
    }
    if objects[PLAYER].alive && player_action == PlayerAction::TookTurn {
        proof {
            assert(views(objects@).len() == objects@.len());
        }
        check_status_effect(game, objects);
        proof {
            assert(views(objects@).len() == objects@.len());
        }
        run_monsters(fov, game, objects);
    }
    player_action
}

/// What the character screen shows.
#[derive(Clone, Copy, Debug, PartialEq, Eq)]
pub struct CharacterSheet {
    pub level: i32,
    pub xp: i32,
    pub level_up_xp: i64,
    pub max_hp: i32,
    pub power: i32,
    pub defense: i32,
    pub spells_known: usize,
}

/// The player's character sheet; a player that cannot fight has none.
pub fn character_sheet(game: &Game, objects: &Vec<Object>) -> (sheet: Option<CharacterSheet>)
    requires
        objects@.len() > 0,
    ensures
        sheet is Some <==> objects@[0].fighter is Some,
        sheet matches Some(s) ==> {
            &&& s.level == objects@[0].level
            &&& s.xp == objects@[0].fighter->0.xp
            &&& s.level_up_xp == level_up_xp(objects@[0].level as int)
            &&& s.max_hp == objects@[0].fighter->0.max_hp
            &&& s.power == objects@[0].fighter->0.power
            &&& s.defense == objects@[0].fighter->0.defense
            &&& s.spells_known == game.spells@.len()
        },
{
    let player = &objects[PLAYER];
    match player.fighter {
        Some(fighter) => Some(
            CharacterSheet {
                level: player.level,
                xp: fighter.xp,
                level_up_xp: LEVEL_UP_BASE as i64 + player.level as i64 * LEVEL_UP_FACTOR as i64,
                max_hp: fighter.max_hp,
                power: fighter.power,
                defense: fighter.defense,
                spells_known: game.spells.len(),
            },
        ),
        None => None,
    }
}

} // verus!
