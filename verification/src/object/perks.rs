//! Perks and what they do when triggered.

use vstd::prelude::*;
use vstd::string::*;
use crate::game::{Game, World, world};
use crate::object::{
    Fighter, FighterView, Message, MessageKind, Object, ObjectView, healed, lemma_views_remove, lemma_views_update,
    note, report, views,
};
use crate::settings::PLAYER;

verus! {

/// The perks that can be obtained.
#[derive(Clone, Copy, Debug, PartialEq, Eq, Structural)]
pub enum Perks {
    Scavenger,
    MagicCannon,
    FireImmunity,
    FreezeImmunity,
}

/// The hit points that eating remains gives back.
pub const SCAVENGER_HEAL_AMOUNT: i32 = 5;

/// The hit points that the magic cannon leaves its owner with.
pub const MAGIC_CANNON_HP: i32 = 10;

/// The name of a perk.
pub open spec fn perk_name(perk: Perks) -> Seq<char> {
    match perk {
        Perks::Scavenger => "Scavenger"@,
        Perks::MagicCannon => "MagicCannon"@,
        Perks::FireImmunity => "FireImmunity"@,
        Perks::FreezeImmunity => "FreezeImmunity"@,
    }
}

impl Perks {
    /// The name of the perk.
    pub fn name(&self) -> (name: String)
        ensures
            name@ == perk_name(*self),
    {
        match self {
            Perks::Scavenger => String::from_str("Scavenger"),
            Perks::MagicCannon => String::from_str("MagicCannon"),
            Perks::FireImmunity => String::from_str("FireImmunity"),
            Perks::FreezeImmunity => String::from_str("FreezeImmunity"),
        }
    }
}

/// What eating entity `id` comes to: it is gone from the level, and the
/// player is healed.
pub open spec fn eaten(w: World, id: int) -> World {
    World {
        objects: w.objects.remove(id).update(0, healed(w.objects[0], SCAVENGER_HEAL_AMOUNT as int)),
        game: w.game.logged(seq![report(MessageKind::Ate, w.objects[id].name, 0)]),
    }
}

/// Lets the player eat entity `monster_id`.
pub fn trigger_scavenger(monster_id: usize, game: &mut Game, objects: &mut Vec<Object>)
    requires
        0 < monster_id < old(objects).len(),
    ensures
        world(*final(game), final(objects)@) == eaten(world(*old(game), old(objects)@), monster_id as int),
{
    game.log(Message::report(MessageKind::Ate, &objects[monster_id].name, 0));
    proof {
        lemma_views_remove(objects@, monster_id as int);
    }
    objects.remove(monster_id);
    let ghost removed = objects@;
    objects[PLAYER].heal(SCAVENGER_HEAL_AMOUNT);
    proof {
        assert(removed[0]@ == views(old(objects)@)[0]);
        assert(objects@ =~= removed.update(0, objects@[0]));
        lemma_views_update(removed, 0, objects@[0]);
    }
}

/// The fighter after the magic cannon: twice the mana, and its health cut
/// down to a fixed amount.
pub open spec fn cannoned(f: FighterView) -> FighterView {
    FighterView {
        max_mana: f.max_mana * 2,
        mana: f.mana * 2,
        hp: MAGIC_CANNON_HP as int,
        max_hp: MAGIC_CANNON_HP as int,
        ..f
    }
}

/// What the magic cannon comes to.
pub open spec fn magic_cannon(w: World) -> World {
    let player = w.objects[0];
    World {
        objects: match player.fighter {
            Some(f) => w.objects.update(0, ObjectView { fighter: Some(cannoned(f)), ..player }),
            None => w.objects,
        },
        game: w.game.logged(seq![note(MessageKind::MagicCannon)]),
    }
}

/// Whether the statistics that `magic_cannon(w)` computes can be stored.
pub open spec fn magic_cannon_fits(w: World) -> bool {
    w.objects[0].fighter matches Some(f) ==> cannoned(f).storable()
}

/// Trades the player's health for mana.
pub fn trigger_magic_cannon(game: &mut Game, objects: &mut Vec<Object>)
    requires
        old(objects).len() > 0,
        magic_cannon_fits(world(*old(game), old(objects)@)),
    ensures
        world(*final(game), final(objects)@) == magic_cannon(world(*old(game), old(objects)@)),
{
    game.note(MessageKind::MagicCannon);
    match objects[PLAYER].fighter {
        Some(f) => {
            objects[PLAYER].fighter = Some(
                Fighter {
                    max_mana: f.max_mana * 2,
                    mana: f.mana * 2,
                    hp: MAGIC_CANNON_HP,
                    max_hp: MAGIC_CANNON_HP,
                    ..f
                },
            );
            proof {
                assert(objects@ =~= old(objects)@.update(0, objects@[0]));
                lemma_views_update(old(objects)@, 0, objects@[0]);
            }
        },
        None => {},
    }
}

} // verus!
