//! Limits within which the numbers of a run are sure to stay storable.
//!
//! The rules of the simulation are stated over mathematical integers, and
//! each function asks that what it computes can be stored. A caller rarely
//! knows what a whole turn will compute. It can check instead that the state
//! is within the limits given here, which is enough for a turn.

use vstd::prelude::*;
use crate::ai::{acted, monster_turn_fits};
use crate::engine::{
    PlayerIntent, play_turn, turn_taken, descends, handled, handled_fits, monster_served, monsters_fit,
    player_moved, turn_descends, turn_fits, world_moves,
};
use crate::fov::FovMap;
use crate::game::{
    Game, World, descended, descent_fits, level_up, leveled, leveled_fits, levels_up, player_ticked,
    player_ticked_fits, world,
};
use crate::object::PlayerAction;
use crate::help::lemma_closest;
use crate::map::{attack_target, fighter_on, move_or_attack, move_or_attack_fits};
use crate::object::{
    Fighter, FighterView, Object, ObjectView, attacked, damaged, lemma_first_from_is_first, views,
};
use crate::object::items::LIGHTNING_RANGE;
use crate::object::spells::{Spells, blast_xp, blasted, spell_cast, spell_cast_fits};

verus! {

/// The largest magnitude that a statistic may have for a state to be within
/// limits.
pub const STAT_LIMIT: i32 = 0x4_0000;

/// The largest number of entities that a level may hold for a state to be
/// within limits.
pub const STORE_LIMIT: usize = 0x1000;

/// Whether a number is of modest size.
pub open spec fn modest(n: int) -> bool {
    -STAT_LIMIT <= n <= STAT_LIMIT
}

/// Whether every statistic of a fighter is of modest size.
pub open spec fn tame_fighter(f: FighterView) -> bool {
    &&& modest(f.max_hp)
    &&& modest(f.hp)
    &&& modest(f.max_mana)
    &&& modest(f.mana)
    &&& modest(f.defense)
    &&& modest(f.power)
    &&& modest(f.xp)
}

/// Whether the numbers of an entity can be stored, and its level, the
/// statistics of its fighter and the turns that its status effect lasts are
/// of modest size.
pub open spec fn tame_object(o: ObjectView) -> bool {
    &&& o.storable()
    &&& modest(o.level)
    &&& o.fighter matches Some(f) ==> tame_fighter(f)
    &&& o.effect matches Some(e) ==> modest(e.turns_left)
}

/// Whether a state is within limits: there is a player, there are not too
/// many entities, and every number that the rules compute with is of modest
/// size.
pub open spec fn tame(w: World) -> bool {
    &&& 1 <= w.objects.len() <= STORE_LIMIT
    &&& forall|i: int| 0 <= i < w.objects.len() ==> tame_object(#[trigger] w.objects[i])
    &&& 0 <= w.game.dungeon_level <= STAT_LIMIT
}

/// Whether a number is of modest size.
fn is_modest(n: i32) -> (b: bool)
    ensures
        b == modest(n as int),
{
    -STAT_LIMIT <= n && n <= STAT_LIMIT
}

/// Whether every statistic of the fighter is of modest size.
fn is_tame_fighter(f: &Fighter) -> (b: bool)
    ensures
        b == tame_fighter(f@),
{
    is_modest(f.max_hp) && is_modest(f.hp) && is_modest(f.max_mana) && is_modest(f.mana) && is_modest(f.defense)
        && is_modest(f.power) && is_modest(f.xp)
}

/// Whether the numbers of the entity are of modest size.
fn is_tame_object(o: &Object) -> (b: bool)
    ensures
        b == tame_object(o@),
{
    let fighter_ok = match &o.fighter {
        Some(f) => is_tame_fighter(f),
        None => true,
    };
    let effect_ok = match o.effect {
        Some(e) => is_modest(e.turns_left),
        None => true,
    };
    is_modest(o.level) && fighter_ok && effect_ok
}

/// Whether the state is within limits.
pub fn within_limits(game: &Game, objects: &Vec<Object>) -> (b: bool)
    ensures
        b == tame(world(*game, objects@)),
{
    if objects.len() < 1 || objects.len() > STORE_LIMIT || game.dungeon_level > STAT_LIMIT as u32 {
        return false;
    }
    let mut i: usize = 0;
    while i < objects.len()
        invariant
            i <= objects@.len(),
            forall|j: int| 0 <= j < i ==> tame_object(#[trigger] views(objects@)[j]),
        decreases objects@.len() - i,
    {
        if !is_tame_object(&objects[i]) {
            assert(!tame_object(views(objects@)[i as int]));
            return false;
        }
        i += 1;
    }
    true
}

/// The magnitude within which the statistics of the monsters stay while
/// the player acts.
pub open spec fn wide_limit() -> int {
    4 * STAT_LIMIT
}

/// The magnitude within which the player's experience stays while the
/// player acts: every entity of a full level may have given up its own.
pub open spec fn xp_limit() -> int {
    (STORE_LIMIT + 2) * STAT_LIMIT
}

/// Whether a number is within the wide limit.
pub open spec fn wide(n: int) -> bool {
    -wide_limit() <= n <= wide_limit()
}

/// Whether an entity that has yet to take its turn is within the wide limit.
pub open spec fn calm_monster(o: ObjectView) -> bool {
    &&& o.storable()
    &&& o.fighter matches Some(f) ==> wide(f.hp) && wide(f.power) && wide(f.defense) && wide(f.xp)
    &&& o.effect matches Some(e) ==> wide(e.turns_left)
}

/// Whether the player is such that no monster's attack computes what cannot
/// be stored.
pub open spec fn calm_player(o: ObjectView) -> bool {
    &&& o.storable()
    &&& o.fighter matches Some(f) ==> {
        &&& wide(f.power)
        &&& wide(f.defense)
        &&& -xp_limit() <= f.xp <= xp_limit()
        &&& -3 * wide_limit() <= f.hp
        &&& o.alive ==> -wide_limit() <= f.hp
    }
}

/// What holds while the monsters take their turns, when `next` is the next
/// to take its turn.
pub open spec fn calm(w: World, next: int) -> bool {
    &&& 1 <= next <= w.objects.len()
    &&& calm_player(w.objects[0])
    &&& forall|j: int| next <= j < w.objects.len() ==> calm_monster(#[trigger] w.objects[j])
}

/// The turn of a monster in a calm state computes only what can be stored,
/// and leaves the state calm for the next monster.
pub proof fn lemma_calm_turn(w: World, fov: Seq<Seq<bool>>, id: int)
    requires
        calm(w, id),
        id < w.objects.len(),
    ensures
        w.objects[id].ai is Some ==> monster_turn_fits(w, id, fov),
        calm(monster_served(w, id, fov), id + 1),
{
    let after = monster_served(w, id, fov);
    assert(calm_monster(w.objects[id]));
    assert forall|j: int| id + 1 <= j < after.objects.len() implies calm_monster(#[trigger] after.objects[j]) by {
        assert(calm_monster(w.objects[j]));
    }
}

/// The turns of the monsters in a calm state compute only what can be
/// stored.
pub proof fn lemma_calm_phase(w: World, fov: Seq<Seq<bool>>, from: int, to: int)
    requires
        calm(w, from),
        to == w.objects.len(),
    ensures
        monsters_fit(w, fov, from, to),
    decreases to - from,
{
    if from < to {
        lemma_calm_turn(w, fov, from);
        lemma_calm_phase(monster_served(w, from, fov), fov, from + 1, to);
    }
}

/// Whether a state in which the player has just acted is such that the rest
/// of the turn computes only what can be stored.
pub open spec fn settled(w: World) -> bool {
    player_ticked_fits(w) && calm(player_ticked(w), 1)
}

/// Whether the player, having acted, is such that its status effect and the
/// monsters compute only what can be stored.
pub open spec fn ready_player(o: ObjectView) -> bool {
    &&& o.storable()
    &&& o.fighter matches Some(f) ==> {
        &&& wide(f.power)
        &&& wide(f.defense)
        &&& -xp_limit() <= f.xp <= xp_limit()
        &&& -wide_limit() <= f.hp
    }
    &&& o.effect matches Some(e) ==> wide(e.turns_left)
}

/// Whether the player is ready and every other entity calm.
pub open spec fn ready(w: World) -> bool {
    &&& 1 <= w.objects.len()
    &&& ready_player(w.objects[0])
    &&& forall|j: int| 1 <= j < w.objects.len() ==> calm_monster(#[trigger] w.objects[j])
}

/// A ready state is settled.
pub proof fn lemma_ready_settled(w: World)
    requires
        ready(w),
    ensures
        settled(w),
        player_ticked(w).objects.len() == w.objects.len(),
{
    let after = player_ticked(w);
    assert forall|j: int| 1 <= j < after.objects.len() implies calm_monster(#[trigger] after.objects[j]) by {
        assert(calm_monster(w.objects[j]));
    }
}

/// A state within limits is ready as it is.
pub proof fn lemma_tame_ready(w: World)
    requires
        tame(w),
    ensures
        ready(w),
{
    assert(tame_object(w.objects[0]));
    assert forall|j: int| 1 <= j < w.objects.len() implies calm_monster(#[trigger] w.objects[j]) by {
        assert(tame_object(w.objects[j]));
    }
}

/// Within limits, the player's move computes only what can be stored and
/// leaves the state ready.
pub proof fn lemma_tame_move(w: World, dx: int, dy: int)
    requires
        tame(w),
    ensures
        move_or_attack_fits(w, dx, dy),
        ready(move_or_attack(w, dx, dy)),
{
    let moved = move_or_attack(w, dx, dy);
    lemma_first_from_is_first(w.objects, fighter_on(w.objects[0].x + dx, w.objects[0].y + dy), 1);
    lemma_tame_ready(w);
    assert(tame_object(w.objects[0]));
    match attack_target(w.objects, dx, dy) {
        Some(t) => {
            assert(tame_object(w.objects[t]));
            let fight = attacked(w.objects[0], w.objects[t]);
            assert(calm_monster(fight.target));
            assert(ready_player(fight.attacker));
            assert forall|j: int| 1 <= j < moved.objects.len() implies calm_monster(#[trigger] moved.objects[j]) by {
                if j != t {
                    assert(calm_monster(w.objects[j]));
                }
            }
        },
        None => {
            assert forall|j: int| 1 <= j < moved.objects.len() implies calm_monster(#[trigger] moved.objects[j]) by {
                assert(calm_monster(w.objects[j]));
            }
        },
    }
}

/// Within limits, the experience that a fireball yields is no more than
/// every entity's share.
pub proof fn lemma_tame_blast_xp(objects: Seq<ObjectView>, x: int, y: int, upto: int)
    requires
        0 <= upto <= objects.len(),
        forall|i: int| 0 <= i < objects.len() ==> tame_object(#[trigger] objects[i]),
    ensures
        -upto * STAT_LIMIT <= blast_xp(objects, x, y, upto) <= upto * STAT_LIMIT,
    decreases upto,
{
    if upto > 0 {
        lemma_tame_blast_xp(objects, x, y, upto - 1);
        assert(tame_object(objects[upto - 1]));
    }
}

/// Within limits, the healing spell leaves the state ready.
pub proof fn lemma_tame_heal(w: World)
    requires
        tame(w),
    ensures
        ready(crate::object::spells::heal_spell(w).world),
{
    let cast = crate::object::spells::heal_spell(w).world;
    lemma_tame_ready(w);
    assert(tame_object(w.objects[0]));
    assert forall|j: int| 1 <= j < cast.objects.len() implies calm_monster(#[trigger] cast.objects[j]) by {
        assert(calm_monster(w.objects[j]));
    }
}

/// Within limits, the lightning spell computes only what can be stored and
/// leaves the state ready.
pub proof fn lemma_tame_lightning(w: World, fov: Seq<Seq<bool>>)
    requires
        tame(w),
    ensures
        crate::object::spells::lightning_spell_fits(w, fov),
        ready(crate::object::spells::lightning_spell(w, fov).world),
{
    let cast = crate::object::spells::lightning_spell(w, fov).world;
    lemma_tame_ready(w);
    assert(tame_object(w.objects[0]));
    lemma_closest(w.objects, fov, crate::object::spells::LIGHTNING_RANGE as int, w.objects.len() as int);
    match crate::help::closest(w.objects, fov, crate::object::spells::LIGHTNING_RANGE as int) {
        Some(t) => {
            assert(tame_object(w.objects[t]));
            let hit = damaged(w.objects[t], crate::object::spells::LIGHTNING_DAMAGE as int);
            assert(calm_monster(hit.object));
            if crate::object::spells::mana_of(w.objects[0]) >= crate::object::spells::LIGHTNING_MANA_COST {
                assert(cast.objects[t] == hit.object);
                assert forall|j: int| 1 <= j < cast.objects.len() implies calm_monster(#[trigger] cast.objects[j]) by {
                    if j != t {
                        assert(calm_monster(w.objects[j]));
                    }
                }
            }
        },
        None => {},
    }
    assert forall|j: int| 1 <= j < cast.objects.len() implies calm_monster(#[trigger] cast.objects[j]) by {
        if cast.objects == w.objects {
            assert(calm_monster(w.objects[j]));
        }
    }
}

/// Within limits, the freezing spell leaves the state ready.
pub proof fn lemma_tame_freeze(w: World)
    requires
        tame(w),
    ensures
        ready(crate::object::spells::freeze_spell(w).world),
{
    let cast = crate::object::spells::freeze_spell(w).world;
    lemma_tame_ready(w);
    assert(tame_object(w.objects[0]));
    assert forall|j: int| 1 <= j < cast.objects.len() implies calm_monster(#[trigger] cast.objects[j]) by {
        assert(calm_monster(w.objects[j]));
    }
}

/// Within limits, a fireball computes only what can be stored and leaves the
/// state ready.
pub proof fn lemma_tame_fireball(w: World, target: Option<(int, int)>)
    requires
        tame(w),
    ensures
        crate::object::spells::fireball_spell_fits(w, target),
        ready(crate::object::spells::fireball_spell(w, target).world),
{
    let cast = crate::object::spells::fireball_spell(w, target).world;
    lemma_tame_ready(w);
    assert(tame_object(w.objects[0]));
    match target {
        Some((x, y)) => {
            let burnt = blasted(w.objects, x, y);
            lemma_tame_blast_xp(w.objects, x, y, w.objects.len() as int);
            assert(w.objects.len() * STAT_LIMIT <= STORE_LIMIT * STAT_LIMIT) by (nonlinear_arith)
                requires
                    w.objects.len() <= STORE_LIMIT,
            ;
            assert forall|i: int| 0 <= i < w.objects.len() implies (#[trigger] burnt[i]).storable() && calm_monster(
                burnt[i],
            ) by {
                assert(tame_object(w.objects[i]));
            }
            assert(tame_object(w.objects[0]));
            assert(calm_monster(burnt[0]));
            if crate::object::spells::mana_of(w.objects[0]) >= crate::object::spells::FIREBALL_MANA_COST {
                assert forall|j: int| 1 <= j < cast.objects.len() implies calm_monster(#[trigger] cast.objects[j]) by {
                    assert(cast.objects[j] == burnt[j]);
                }
            }
        },
        None => {},
    }
    assert forall|j: int| 1 <= j < cast.objects.len() implies calm_monster(#[trigger] cast.objects[j]) by {
        if cast.objects == w.objects {
            assert(calm_monster(w.objects[j]));
        }
    }
}

/// Within limits, the wall spell leaves the state ready.
pub proof fn lemma_tame_wall(w: World, target: Option<(int, int)>)
    requires
        tame(w),
        target matches Some((x, y)) ==> crate::object::fits(x) && crate::object::fits(y),
    ensures
        ready(crate::object::spells::wall_spell(w, target).world),
{
    let cast = crate::object::spells::wall_spell(w, target).world;
    lemma_tame_ready(w);
    assert(tame_object(w.objects[0]));
    assert forall|j: int| 1 <= j < cast.objects.len() implies calm_monster(#[trigger] cast.objects[j]) by {
        if j < w.objects.len() {
            assert(calm_monster(w.objects[j]));
        }
    }
}

/// Within limits, casting a spell computes only what can be stored and
/// leaves the state ready.
pub proof fn lemma_tame_spell(spell: Spells, target: Option<(int, int)>, w: World, fov: Seq<Seq<bool>>)
    requires
        tame(w),
        target matches Some((x, y)) ==> crate::object::fits(x) && crate::object::fits(y),
    ensures
        spell_cast_fits(spell, target, w, fov),
        ready(spell_cast(spell, target, w, fov).world),
{
    match spell {
        Spells::Heal => lemma_tame_heal(w),
        Spells::Lightning => lemma_tame_lightning(w, fov),
        Spells::Freeze => lemma_tame_freeze(w),
        Spells::Fireball => lemma_tame_fireball(w, target),
        Spells::Wall => lemma_tame_wall(w, target),
    }
}

/// Within limits, whatever the player intends computes only what can be
/// stored, and leaves the state ready if the world is to move.
pub proof fn lemma_tame_handled(w: World, intent: PlayerIntent, fov: Seq<Seq<bool>>)
    requires
        tame(w),
    ensures
        handled_fits(w, intent, fov),
        !descends(w, intent) && world_moves(handled(w, intent, fov)) ==> ready(handled(w, intent, fov).world),
{
    assert(tame_object(w.objects[0]));
    lemma_tame_ready(w);
    match intent {
        PlayerIntent::Move(direction) => {
            lemma_tame_move(w, direction.delta().0, direction.delta().1);
        },
        PlayerIntent::CastSpell(id, target) => {
            if 0 <= id < w.game.spells.len() {
                lemma_tame_spell(w.game.spells[id as int], crate::object::spells::tile_of(target), w, fov);
            }
        },
        PlayerIntent::UseItem(id) => {
            lemma_closest(w.objects, fov, LIGHTNING_RANGE as int, w.objects.len() as int);
            match crate::help::closest(w.objects, fov, LIGHTNING_RANGE as int) {
                Some(t) => {
                    assert(tame_object(w.objects[t]));
                },
                None => {},
            }
        },
        _ => {},
    }
}

/// Within limits, a whole turn computes only what can be stored.
pub proof fn lemma_tame_turn(w: World, intent: PlayerIntent, fov: Seq<Seq<bool>>)
    requires
        tame(w),
    ensures
        turn_fits(w, intent, fov),
{
    lemma_tame_handled(w, intent, fov);
    lemma_tame_ready(w);
    let first = player_moved(w, intent, fov);
    if !turn_descends(w, intent) && world_moves(first) {
        assert(ready(first.world));
        lemma_ready_settled(first.world);
        lemma_calm_phase(player_ticked(first.world), fov, 1, first.world.objects.len() as int);
    }
}

/// Within limits, levelling up, descending and the magic cannon compute only
/// what can be stored.
pub proof fn lemma_tame_progress(w: World, choice: int)
    requires
        tame(w),
    ensures
        leveled_fits(w, choice),
        descent_fits(w),
        crate::object::perks::magic_cannon_fits(w),
{
    assert(tame_object(w.objects[0]));
}

/// Plays one turn if the state is within limits, and says that it did not
/// if it is not; then nothing has changed.
pub fn try_turn(intent: PlayerIntent, fov: &FovMap, game: &mut Game, objects: &mut Vec<Object>) -> (action: Option<
    PlayerAction,
>)
    ensures
        action is Some <==> tame(world(*old(game), old(objects)@)),
        action is None ==> *final(game) == *old(game) && *final(objects) == *old(objects),
        action matches Some(a) ==> {
            &&& final(objects).len() > 0
            &&& turn_descends(world(*old(game), old(objects)@), intent) ==> a == PlayerAction::DidntTakeTurn
                && descended(world(*old(game), old(objects)@), world(*final(game), final(objects)@))
            &&& !turn_descends(world(*old(game), old(objects)@), intent) ==> world(*final(game), final(objects)@)
                == turn_taken(world(*old(game), old(objects)@), intent, fov@).world && a == turn_taken(
                world(*old(game), old(objects)@),
                intent,
                fov@,
            ).action
        },
{
    if !within_limits(game, objects) {
        return None;
    }
    proof {
        lemma_tame_turn(world(*game, objects@), intent, fov@);
    }
    Some(play_turn(intent, fov, game, objects))
}

/// Levels the player up with reward `choice` if the state is within limits,
/// and says that it did not try if it is not; then nothing has changed.
pub fn try_level_up(choice: usize, game: &mut Game, objects: &mut Vec<Object>) -> (done: Option<bool>)
    ensures
        done is Some <==> tame(world(*old(game), old(objects)@)),
        done is None ==> *final(game) == *old(game) && *final(objects) == *old(objects),
        done matches Some(d) ==> d == levels_up(world(*old(game), old(objects)@), choice as int) && world(
            *final(game),
            final(objects)@,
        ) == leveled(world(*old(game), old(objects)@), choice as int),
{
    if !within_limits(game, objects) {
        return None;
    }
    proof {
        lemma_tame_progress(world(*game, objects@), choice as int);
    }
    Some(level_up(choice, game, objects))
}

} // verus!
