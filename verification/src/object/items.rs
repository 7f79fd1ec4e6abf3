//! Items and what using them does.

use vstd::prelude::*;
use crate::fov::FovMap;
use crate::game::{Cast, Game, GameView, World, lemma_logged_twice, world};
use crate::help::{closest, closest_monster};
use crate::map::revealed;
use crate::object::{
    Message, MessageKind, Object, UseResult, damaged, healed, lemma_views_push, lemma_views_remove,
    lemma_views_update, note, recharged, report, views,
};
use crate::settings::PLAYER;

verus! {

/// The kinds of item.
#[derive(Clone, Copy, Debug, PartialEq, Eq, Structural)]
pub enum Item {
    Heal,
    Lightning,
    Mana,
    Vision,
}

/// The hit points that a healing potion gives back.
pub const HEAL_AMOUNT: i32 = 4;

/// The mana that a mana potion gives back.
pub const MANA_AMOUNT: i32 = 10;

/// The damage that a lightning bolt does.
pub const LIGHTNING_DAMAGE: i32 = 40;

/// The distance within which a lightning bolt finds its target.
pub const LIGHTNING_RANGE: i32 = 5;

/// A healing potion. At full health it is not used; otherwise it heals the
/// player.
pub open spec fn heal_potion(w: World) -> Cast {
    match w.objects[0].fighter {
        Some(f) => if f.hp == f.max_hp {
            Cast { world: w.logged(seq![note(MessageKind::FullHealth)]), result: UseResult::Cancelled }
        } else {
            Cast {
                world: World {
                    objects: w.objects.update(0, healed(w.objects[0], HEAL_AMOUNT as int)),
                    game: w.game.logged(seq![note(MessageKind::Healed)]),
                },
                result: UseResult::UsedUp,
            }
        },
        None => Cast { world: w, result: UseResult::Cancelled },
    }
}

/// A mana potion. At full mana it is not used; otherwise it restores the
/// player's mana.
pub open spec fn mana_potion(w: World) -> Cast {
    match w.objects[0].fighter {
        Some(f) => if f.mana == f.max_mana {
            Cast { world: w.logged(seq![note(MessageKind::FullMana)]), result: UseResult::Cancelled }
        } else {
            Cast {
                world: World {
                    objects: w.objects.update(0, recharged(w.objects[0], MANA_AMOUNT as int)),
                    game: w.game.logged(seq![note(MessageKind::ManaRestored)]),
                },
                result: UseResult::UsedUp,
            }
        },
        None => Cast { world: w, result: UseResult::Cancelled },
    }
}

/// A lightning scroll. It strikes the nearest visible monster within range;
/// without one it is not used. Nobody gains the experience of a monster it
/// kills.
pub open spec fn lightning_scroll(w: World, fov: Seq<Seq<bool>>) -> Cast {
    match closest(w.objects, fov, LIGHTNING_RANGE as int) {
        Some(t) => {
            let hit = damaged(w.objects[t], LIGHTNING_DAMAGE as int);
            Cast {
                world: World {
                    objects: w.objects.update(t, hit.object),
                    game: w.game.logged(
                        seq![report(MessageKind::LightningStrike, w.objects[t].name, LIGHTNING_DAMAGE as int)]
                            + hit.messages,
                    ),
                },
                result: UseResult::UsedUp,
            }
        },
        None => Cast { world: w.logged(seq![note(MessageKind::NoEnemyInRange)]), result: UseResult::Cancelled },
    }
}

/// Whether the statistics that `lightning_scroll(w, fov)` computes can be stored.
pub open spec fn lightning_scroll_fits(w: World, fov: Seq<Seq<bool>>) -> bool {
    closest(w.objects, fov, LIGHTNING_RANGE as int) matches Some(t) ==> damaged(
        w.objects[t],
        LIGHTNING_DAMAGE as int,
    ).object.storable()
}

/// A vision scroll. It marks the whole level as explored.
pub open spec fn vision_scroll(w: World) -> Cast {
    Cast {
        world: World { game: GameView { map: revealed(w.game.map), ..w.game }, ..w },
        result: UseResult::UsedUp,
    }
}

/// What using an item of kind `kind` comes to.
pub open spec fn item_effect(kind: Item, w: World, fov: Seq<Seq<bool>>) -> Cast {
    match kind {
        Item::Heal => heal_potion(w),
        Item::Lightning => lightning_scroll(w, fov),
        Item::Mana => mana_potion(w),
        Item::Vision => vision_scroll(w),
    }
}

/// What using entry `id` of the inventory comes to. An entry that does not
/// exist is a cancelled choice. What is not an item cannot be used. An item
/// that had its effect leaves the inventory; one that had none stays.
pub open spec fn item_used(w: World, id: int, fov: Seq<Seq<bool>>) -> World {
    if 0 <= id < w.game.inventory.len() {
        match w.game.inventory[id].item {
            Some(kind) => {
                let cast = item_effect(kind, w, fov);
                match cast.result {
                    UseResult::UsedUp => World {
                        game: GameView { inventory: cast.world.game.inventory.remove(id), ..cast.world.game },
                        ..cast.world
                    },
                    UseResult::Cancelled => cast.world.logged(seq![note(MessageKind::Cancelled)]),
                }
            },
            None => w.logged(seq![report(MessageKind::CannotUse, w.game.inventory[id].name, 0)]),
        }
    } else {
        w.logged(seq![note(MessageKind::Cancelled)])
    }
}

/// Whether the statistics that `item_used(w, id, fov)` computes can be stored.
pub open spec fn item_used_fits(w: World, id: int, fov: Seq<Seq<bool>>) -> bool {
    0 <= id < w.game.inventory.len() && w.game.inventory[id].item == Some(Item::Lightning)
        ==> lightning_scroll_fits(w, fov)
}

/// What dropping entry `id` of the inventory comes to: the item lies where
/// the player stands. An entry that does not exist is a cancelled choice.
pub open spec fn item_dropped(w: World, id: int) -> World {
    if 0 <= id < w.game.inventory.len() {
        let item = w.game.inventory[id];
        World {
            objects: w.objects.push(item.at(w.objects[0].x, w.objects[0].y)),
            game: GameView { inventory: w.game.inventory.remove(id), ..w.game }.logged(
                seq![report(MessageKind::Dropped, item.name, 0)],
            ),
        }
    } else {
        w.logged(seq![note(MessageKind::Cancelled)])
    }
}

/// Uses entry `inventory_id` of the inventory.
pub fn use_item(inventory_id: usize, fov: &FovMap, game: &mut Game, objects: &mut Vec<Object>)
    requires
        old(objects).len() > 0,
        item_used_fits(world(*old(game), old(objects)@), inventory_id as int, fov@),
    ensures
        world(*final(game), final(objects)@) == item_used(
            world(*old(game), old(objects)@),
            inventory_id as int,
            fov@,
        ),
{
    let ghost before = world(*game, objects@);
    if inventory_id >= game.inventory.len() {
        game.note(MessageKind::Cancelled);
        return ;
    }
    match game.inventory[inventory_id].item {
        Some(item) => {
            let result = match item {
                Item::Heal => cast_heal(inventory_id, fov, game, objects),
                Item::Lightning => cast_lightning(inventory_id, fov, game, objects),
                Item::Mana => cast_mana(inventory_id, fov, game, objects),
                Item::Vision => cast_vision(inventory_id, fov, game, objects),
            };
            let ghost cast = item_effect(item, before, fov@);
            assert(world(*game, objects@) == cast.world);
            match result {
                UseResult::UsedUp => {
                    proof {
                        lemma_views_remove(game.inventory@, inventory_id as int);
                    }
                    game.inventory.remove(inventory_id);
                    assert(game@ =~= GameView {
                        inventory: cast.world.game.inventory.remove(inventory_id as int),
                        ..cast.world.game
                    });
                },
                UseResult::Cancelled => {
                    game.note(MessageKind::Cancelled);
                },
            }
        },
        None => {
            let message = Message::report(MessageKind::CannotUse, &game.inventory[inventory_id].name, 0);
            game.log(message);
        },
    }
}

/// Drops entry `inventory_id` of the inventory where the player stands.
pub fn drop_item(inventory_id: usize, game: &mut Game, objects: &mut Vec<Object>)
    requires
        old(objects).len() > 0,
    ensures
        world(*final(game), final(objects)@) == item_dropped(world(*old(game), old(objects)@), inventory_id as int),
{
    if inventory_id >= game.inventory.len() {
        game.note(MessageKind::Cancelled);
        return ;
    }
    proof {
        lemma_views_remove(game.inventory@, inventory_id as int);
    }
    let mut item = game.inventory.remove(inventory_id);
    let ghost removed = game@;
    let (x, y) = objects[PLAYER].pos();
    item.set_pos(x, y);
    game.log(Message::report(MessageKind::Dropped, &item.name, 0));
    proof {
        lemma_views_push(objects@, item);
        assert(removed =~= GameView {
            inventory: old(game)@.inventory.remove(inventory_id as int),
            ..old(game)@
        });
    }
    objects.push(item);
}

/// Drinks a healing potion.
pub fn cast_heal(_inventory_id: usize, _fov: &FovMap, game: &mut Game, objects: &mut Vec<Object>) -> (result:
    UseResult)
    requires
        old(objects).len() > 0,
    ensures
        world(*final(game), final(objects)@) == heal_potion(world(*old(game), old(objects)@)).world,
        result == heal_potion(world(*old(game), old(objects)@)).result,
{
    match objects[PLAYER].fighter {
        Some(fighter) => {
            if fighter.hp == fighter.max_hp {
                game.note(MessageKind::FullHealth);
                return UseResult::Cancelled;
            }
            game.note(MessageKind::Healed);
            objects[PLAYER].heal(HEAL_AMOUNT);
            proof {
                assert(objects@ =~= old(objects)@.update(0, objects@[0]));
                lemma_views_update(old(objects)@, 0, objects@[0]);
            }
            UseResult::UsedUp
        },
        None => UseResult::Cancelled,
    }
}

/// Drinks a mana potion.
pub fn cast_mana(_inventory_id: usize, _fov: &FovMap, game: &mut Game, objects: &mut Vec<Object>) -> (result:
    UseResult)
    requires
        old(objects).len() > 0,
    ensures
        world(*final(game), final(objects)@) == mana_potion(world(*old(game), old(objects)@)).world,
        result == mana_potion(world(*old(game), old(objects)@)).result,
{
    match objects[PLAYER].fighter {
        Some(fighter) => {
            if fighter.mana == fighter.max_mana {
                game.note(MessageKind::FullMana);
                return UseResult::Cancelled;
            }
            game.note(MessageKind::ManaRestored);
            objects[PLAYER].recover_mana(MANA_AMOUNT);
            proof {
                assert(objects@ =~= old(objects)@.update(0, objects@[0]));
                lemma_views_update(old(objects)@, 0, objects@[0]);
            }
            UseResult::UsedUp
        },
        None => UseResult::Cancelled,
    }
}

/// Reads a lightning scroll.
pub fn cast_lightning(_inventory_id: usize, fov: &FovMap, game: &mut Game, objects: &mut Vec<Object>) -> (result:
    UseResult)
    requires
        old(objects).len() > 0,
        lightning_scroll_fits(world(*old(game), old(objects)@), fov@),
    ensures
        world(*final(game), final(objects)@) == lightning_scroll(world(*old(game), old(objects)@), fov@).world,
        result == lightning_scroll(world(*old(game), old(objects)@), fov@).result,
{
    match closest_monster(fov, objects, LIGHTNING_RANGE) {
        Some(monster_id) => {
            game.log(Message::report(MessageKind::LightningStrike, &objects[monster_id].name, LIGHTNING_DAMAGE));
            objects[monster_id].take_damage(LIGHTNING_DAMAGE, game);
            proof {
                let t = monster_id as int;
                let hit = damaged(views(old(objects)@)[t], LIGHTNING_DAMAGE as int);
                assert(objects@ =~= old(objects)@.update(t, objects@[t]));
                lemma_views_update(old(objects)@, t, objects@[t]);
                lemma_logged_twice(
                    old(game)@,
                    seq![report(MessageKind::LightningStrike, views(old(objects)@)[t].name, LIGHTNING_DAMAGE as int)],
                    hit.messages,
                );
            }
            UseResult::UsedUp
        },
        None => {
            game.note(MessageKind::NoEnemyInRange);
            UseResult::Cancelled
        },
    }
}

/// Reads a vision scroll.
pub fn cast_vision(_inventory_id: usize, _fov: &FovMap, game: &mut Game, _objects: &mut Vec<Object>) -> (result:
    UseResult)
    ensures
        world(*final(game), final(_objects)@) == vision_scroll(world(*old(game), old(_objects)@)).world,
        result == vision_scroll(world(*old(game), old(_objects)@)).result,
{
    game.map.reveal_all();
    assert(game@ =~= GameView { map: revealed(old(game)@.map), ..old(game)@ });
    UseResult::UsedUp
}

/// A potion drunk at the maximum is not used up and changes nothing but the
/// log.
pub proof fn lemma_potion_at_cap(w: World)
    requires
        w.objects[0].fighter is Some,
    ensures
        w.objects[0].fighter->0.hp == w.objects[0].fighter->0.max_hp ==> heal_potion(w).result
            == UseResult::Cancelled && heal_potion(w).world.objects == w.objects,
        w.objects[0].fighter->0.mana == w.objects[0].fighter->0.max_mana ==> mana_potion(w).result
            == UseResult::Cancelled && mana_potion(w).world.objects == w.objects,
{
}

/// An item that had no effect stays in the inventory.
pub proof fn lemma_unused_item_stays(w: World, id: int, fov: Seq<Seq<bool>>)
    requires
        0 <= id < w.game.inventory.len(),
        w.game.inventory[id].item matches Some(kind) && item_effect(kind, w, fov).result == UseResult::Cancelled,
    ensures
        item_used(w, id, fov).game.inventory == item_effect(w.game.inventory[id].item->0, w, fov).world.game.inventory,
{
}

} // verus!
