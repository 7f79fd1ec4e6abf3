//! What a monster does when it is its turn.

use vstd::prelude::*;
use crate::fov::{FovMap, visible_at};
use crate::game::{Game, World, world};
use crate::help::mut_two;
use crate::map::{Tile, TileGrid, move_by, stepped};
use crate::object::{
    Color, Effect, Object, ObjectView, StatusEffect, StatusEffectView, attack_fits, attacked, damaged, dist_sq,
    fits, lemma_views_update, views,
};
use crate::settings::PLAYER;

verus! {

/// One coordinate of the step towards a target that lies `d` away along this
/// axis and `other` away along the other one. The vector to the target is
/// scaled to length one and each coordinate rounded to the nearest whole
/// number; a coordinate rounds away from zero exactly when `d` is at least
/// half the distance, which is when `3 * (d * d) >= other * other`.
pub open spec fn step_part(d: int, other: int) -> int {
    if 3 * (d * d) >= other * other {
        if d > 0 {
            1
        } else if d < 0 {
            -1
        } else {
            0
        }
    } else {
        0
    }
}

/// The entities after entity `id` has tried to step towards `(x, y)`.
pub open spec fn approached(objects: Seq<ObjectView>, id: int, x: int, y: int, grid: Seq<Seq<Tile>>) -> Seq<
    ObjectView,
> {
    let dx = x - objects[id].x;
    let dy = y - objects[id].y;
    stepped(objects, id, step_part(dx, dy), step_part(dy, dx), grid)
}

proof fn lemma_product_bound(a: int, b: int)
    requires
        -0x1_0000_0000 < a < 0x1_0000_0000,
        -0x1_0000_0000 < b < 0x1_0000_0000,
    ensures
        -0x1_0000_0000_0000_0000 < a * b < 0x1_0000_0000_0000_0000,
{
    assert(-0x1_0000_0000_0000_0000 < a * b < 0x1_0000_0000_0000_0000) by (nonlinear_arith)
        requires
            -0x1_0000_0000 < a < 0x1_0000_0000,
            -0x1_0000_0000 < b < 0x1_0000_0000,
    ;
}

fn step_towards(d: i64, other: i64) -> (s: i32)
    requires
        -0x1_0000_0000 < d < 0x1_0000_0000,
        -0x1_0000_0000 < other < 0x1_0000_0000,
    ensures
        s == step_part(d as int, other as int),
{
    proof {
        lemma_product_bound(d as int, d as int);
        lemma_product_bound(other as int, other as int);
    }
    let dd: i128 = (d as i128) * (d as i128);
    let oo: i128 = (other as i128) * (other as i128);
    if 3 * dd >= oo {
        if d > 0 {
            1
        } else if d < 0 {
            -1
        } else {
            0
        }
    } else {
        0
    }
}

/// Moves entity `id` one step towards `(target_x, target_y)`, unless the
/// cell that lies that way is blocked.
pub fn move_towards(id: usize, target_x: i32, target_y: i32, map: &TileGrid, objects: &mut Vec<Object>)
    requires
        id < old(objects).len(),
    ensures
        views(final(objects)@) == approached(
            views(old(objects)@),
            id as int,
            target_x as int,
            target_y as int,
            map@,
        ),
{
    let dx: i64 = target_x as i64 - objects[id].x as i64;
    let dy: i64 = target_y as i64 - objects[id].y as i64;
    let step_x = step_towards(dx, dy);
    let step_y = step_towards(dy, dx);
    move_by(id, step_x, step_y, map, objects);
}

/// What a monster does by default: it steps towards the player while the
/// player is two tiles away or further, and attacks the player otherwise.
pub open spec fn acted(w: World, id: int) -> World {
    let monster = w.objects[id];
    let player = w.objects[0];
    if dist_sq(monster.x, monster.y, player.x, player.y) >= 4 {
        w.with_objects(approached(w.objects, id, player.x, player.y, w.game.map))
    } else {
        let fight = attacked(monster, player);
        World { objects: w.objects.update(id, fight.attacker).update(0, fight.target), game: w.game.logged(fight.messages) }
    }
}

/// Whether the statistics that `acted(w, id)` computes can be stored.
pub open spec fn acted_fits(w: World, id: int) -> bool {
    let monster = w.objects[id];
    let player = w.objects[0];
    dist_sq(monster.x, monster.y, player.x, player.y) < 4 ==> attack_fits(monster, player)
}

/// Lets monster `monster_id` step towards the player or attack.
pub fn default(monster_id: usize, _fov: &FovMap, game: &mut Game, objects: &mut Vec<Object>)
    requires
        0 < monster_id < old(objects).len(),
        acted_fits(world(*old(game), old(objects)@), monster_id as int),
    ensures
        world(*final(game), final(objects)@) == acted(world(*old(game), old(objects)@), monster_id as int),
{
    if objects[monster_id].distance_sq_to(&objects[PLAYER]) >= 4 {
        let (player_x, player_y) = objects[PLAYER].pos();
        move_towards(monster_id, player_x, player_y, &game.map, objects);
    } else {
        let (monster, player) = mut_two(monster_id, PLAYER, objects);
        monster.attack(player, game);
        proof {
            let mid = old(objects)@.update(monster_id as int, *monster);
            lemma_views_update(old(objects)@, monster_id as int, *monster);
            lemma_views_update(mid, PLAYER as int, *player);
        }
    }
}

/// The entity with its status effect one turn nearer to its end.
pub open spec fn cooled(o: ObjectView) -> ObjectView {
    match o.effect {
        Some(e) => ObjectView { effect: Some(StatusEffectView { turns_left: e.turns_left - 1, ..e }), ..o },
        None => o,
    }
}

/// The turn of monster `id`. A monster that the player cannot see does
/// nothing. One without a status effect acts. An effect with no turns left
/// ends, and that is all the monster does. A frozen monster only waits. A
/// burning one takes one point of damage and then, if that left it alive,
/// acts.
pub open spec fn monster_turn(w: World, id: int, fov: Seq<Seq<bool>>) -> World {
    let monster = w.objects[id];
    if !visible_at(fov, monster.x, monster.y) {
        w
    } else {
        match monster.effect {
            None => acted(w, id),
            Some(e) => if e.turns_left == 0 {
                w.with_objects(w.objects.update(id, ObjectView { color: Color::DarkOrange, effect: None, ..monster }))
            } else {
                match e.effect {
                    Effect::Frozen => w.with_objects(
                        w.objects.update(id, cooled(ObjectView { color: Color::LightBlue, ..monster })),
                    ),
                    Effect::Burning => {
                        let burn = damaged(ObjectView { color: Color::Amber, ..monster }, 1);
                        let burnt = World {
                            objects: w.objects.update(id, cooled(burn.object)),
                            game: w.game.logged(burn.messages),
                        };
                        if burn.object.alive {
                            acted(burnt, id)
                        } else {
                            burnt
                        }
                    },
                }
            },
        }
    }
}

/// Whether the statistics that `monster_turn(w, id, fov)` computes can be stored.
pub open spec fn monster_turn_fits(w: World, id: int, fov: Seq<Seq<bool>>) -> bool {
    let monster = w.objects[id];
    visible_at(fov, monster.x, monster.y) ==> match monster.effect {
        None => acted_fits(w, id),
        Some(e) => e.turns_left != 0 ==> {
            &&& fits(e.turns_left - 1)
            &&& e.effect is Burning ==> {
                let burn = damaged(ObjectView { color: Color::Amber, ..monster }, 1);
                &&& burn.object.storable()
                &&& burn.object.alive ==> acted_fits(
                    World { objects: w.objects.update(id, cooled(burn.object)), game: w.game.logged(burn.messages) },
                    id,
                )
            }
        },
    }
}

/// Takes the turn of monster `monster_id`.
pub fn ai_take_turn(monster_id: usize, fov: &FovMap, game: &mut Game, objects: &mut Vec<Object>)
    requires
        0 < monster_id < old(objects).len(),
        monster_turn_fits(world(*old(game), old(objects)@), monster_id as int, fov@),
    ensures
        world(*final(game), final(objects)@) == monster_turn(
            world(*old(game), old(objects)@),
            monster_id as int,
            fov@,
        ),
{
    let ghost before = world(*game, objects@);
    let ghost id = monster_id as int;
    let (monster_x, monster_y) = objects[monster_id].pos();
    if !fov.is_in_fov(monster_x, monster_y) {
        return ;
    }
    match objects[monster_id].effect {
        None => {
            default(monster_id, fov, game, objects);
        },
        Some(effect) => {
            if effect.turns_left == 0 {
                objects[monster_id].color = Color::DarkOrange;
                objects[monster_id].effect = None;
                proof {
                    assert(objects@ =~= old(objects)@.update(id, objects@[id]));
                    lemma_views_update(old(objects)@, id, objects@[id]);
                    assert(world(*game, objects@) =~= monster_turn(before, id, fov@));
                }
            } else {
                match effect.effect {
                    Effect::Frozen => {
                        objects[monster_id].color = Color::LightBlue;
                        objects[monster_id].effect = Some(
                            StatusEffect { turns_left: effect.turns_left - 1, ..effect },
                        );
                        proof {
                            assert(objects@ =~= old(objects)@.update(id, objects@[id]));
                            lemma_views_update(old(objects)@, id, objects@[id]);
                            assert(world(*game, objects@) =~= monster_turn(before, id, fov@));
                        }
                    },
                    Effect::Burning => {
                        objects[monster_id].color = Color::Amber;
                        objects[monster_id].take_damage(1, game);
                        objects[monster_id].effect = Some(
                            StatusEffect { turns_left: effect.turns_left - 1, ..effect },
                        );
                        proof {
                            let burn = damaged(ObjectView { color: Color::Amber, ..before.objects[id] }, 1);
                            assert(objects@ =~= old(objects)@.update(id, objects@[id]));
                            lemma_views_update(old(objects)@, id, objects@[id]);
                            assert(objects@[id]@ == cooled(burn.object));
                            assert(world(*game, objects@) =~= World {
                                objects: before.objects.update(id, cooled(burn.object)),
                                game: before.game.logged(burn.messages),
                            });
                        }
                        if objects[monster_id].alive {
                            default(monster_id, fov, game, objects);
                        }
                    },
                }
            }
        },
    }
}

/// Acting neither adds nor removes an entity, and leaves the status effect
/// of the monster that acts as it is.
pub proof fn lemma_acted_keeps_effect(w: World, id: int)
    requires
        0 < id < w.objects.len(),
    ensures
        acted(w, id).objects.len() == w.objects.len(),
        acted(w, id).objects[id].effect == w.objects[id].effect,
{
}

/// A status effect with no turns left ends at the monster's next turn, and
/// the monster does nothing else then.
pub proof fn lemma_effect_expires(w: World, id: int, fov: Seq<Seq<bool>>)
    requires
        0 < id < w.objects.len(),
        visible_at(fov, w.objects[id].x, w.objects[id].y),
        w.objects[id].effect matches Some(e) && e.turns_left == 0,
    ensures
        monster_turn(w, id, fov).objects[id].effect is None,
        monster_turn(w, id, fov) == w.with_objects(
            w.objects.update(id, ObjectView { color: Color::DarkOrange, effect: None, ..w.objects[id] }),
        ),
{
}

/// A frozen monster does not act: its turn changes nothing but its colour
/// and the turns that its effect has left.
pub proof fn lemma_frozen_waits(w: World, id: int, fov: Seq<Seq<bool>>)
    requires
        0 < id < w.objects.len(),
        visible_at(fov, w.objects[id].x, w.objects[id].y),
        w.objects[id].effect matches Some(e) && e.effect is Frozen && e.turns_left != 0,
    ensures
        monster_turn(w, id, fov).game == w.game,
        monster_turn(w, id, fov).objects == w.objects.update(
            id,
            ObjectView {
                color: Color::LightBlue,
                effect: Some(
                    StatusEffectView { effect: Effect::Frozen, turns_left: w.objects[id].effect->0.turns_left - 1 },
                ),
                ..w.objects[id]
            },
        ),
{
}

/// A burning monster takes one point of damage and then, if it lives, acts
/// as it would without the effect. Either way its effect has one turn less
/// to go.
pub proof fn lemma_burning_acts(w: World, id: int, fov: Seq<Seq<bool>>)
    requires
        0 < id < w.objects.len(),
        visible_at(fov, w.objects[id].x, w.objects[id].y),
        w.objects[id].effect matches Some(e) && e.effect is Burning && e.turns_left != 0,
    ensures
        ({
            let burn = damaged(ObjectView { color: Color::Amber, ..w.objects[id] }, 1);
            let burnt = World { objects: w.objects.update(id, cooled(burn.object)), game: w.game.logged(burn.messages) };
            &&& monster_turn(w, id, fov) == if burn.object.alive {
                acted(burnt, id)
            } else {
                burnt
            }
            &&& w.objects[id].alive && w.objects[id].fighter is Some ==> burn.object.fighter.is_none()
                || burn.object.fighter->0.hp == w.objects[id].fighter->0.hp - 1
        }),
        monster_turn(w, id, fov).objects[id].effect == Some(
            StatusEffectView { effect: Effect::Burning, turns_left: w.objects[id].effect->0.turns_left - 1 },
        ),
{
    let burn = damaged(ObjectView { color: Color::Amber, ..w.objects[id] }, 1);
    let burnt = World { objects: w.objects.update(id, cooled(burn.object)), game: w.game.logged(burn.messages) };
    lemma_acted_keeps_effect(burnt, id);
}

/// A monster frozen for one more turn does nothing this turn, and is free of
/// the effect after its next.
pub proof fn lemma_frozen_for_one_turn(w: World, id: int, fov: Seq<Seq<bool>>)
    requires
        0 < id < w.objects.len(),
        visible_at(fov, w.objects[id].x, w.objects[id].y),
        w.objects[id].effect == Some(StatusEffectView { effect: Effect::Frozen, turns_left: 1 }),
    ensures
        monster_turn(w, id, fov).game == w.game,
        forall|j: int| 0 <= j < w.objects.len() && j != id ==> monster_turn(w, id, fov).objects[j] == w.objects[j],
        monster_turn(w, id, fov).objects[id] == (ObjectView {
            color: Color::LightBlue,
            effect: Some(StatusEffectView { effect: Effect::Frozen, turns_left: 0 }),
            ..w.objects[id]
        }),
        monster_turn(monster_turn(w, id, fov), id, fov).objects[id].effect is None,
{
    lemma_frozen_waits(w, id, fov);
    lemma_effect_expires(monster_turn(w, id, fov), id, fov);
}

/// A monster that burns for one more turn is hurt and acts this turn, and is
/// free of the effect after its next, if the player still sees it then.
pub proof fn lemma_burning_for_one_turn(w: World, id: int, fov: Seq<Seq<bool>>)
    requires
        0 < id < w.objects.len(),
        visible_at(fov, w.objects[id].x, w.objects[id].y),
        w.objects[id].effect == Some(StatusEffectView { effect: Effect::Burning, turns_left: 1 }),
    ensures
        monster_turn(w, id, fov).objects[id].effect == Some(
            StatusEffectView { effect: Effect::Burning, turns_left: 0 },
        ),
        visible_at(fov, monster_turn(w, id, fov).objects[id].x, monster_turn(w, id, fov).objects[id].y)
            ==> monster_turn(monster_turn(w, id, fov), id, fov).objects[id].effect is None,
{
    lemma_burning_acts(w, id, fov);
    let next = monster_turn(w, id, fov);
    let burn = damaged(ObjectView { color: Color::Amber, ..w.objects[id] }, 1);
    let burnt = World { objects: w.objects.update(id, cooled(burn.object)), game: w.game.logged(burn.messages) };
    lemma_acted_keeps_effect(burnt, id);
    if visible_at(fov, next.objects[id].x, next.objects[id].y) {
        lemma_effect_expires(next, id, fov);
    }
}

} // verus!
