//! Spells and what casting them does.

use vstd::prelude::*;
use vstd::string::*;
use crate::fov::FovMap;
use crate::game::{Cast, Game, World, lemma_logged_twice, world};
use crate::help::{closest, closest_monster};
use crate::object::{
    Color, DeathCallback, Effect, Fighter, FighterView, Message, MessageKind, MessageView, Object, ObjectView,
    StatusEffect, StatusEffectView, UseResult, damaged, dist_sq, fits, fresh, healed, lemma_views_push,
    lemma_views_update, note, report, rewarded, views,
};
use crate::settings::PLAYER;

verus! {

/// The spells that can be learnt.
#[derive(Clone, Copy, Debug, PartialEq, Eq, Structural)]
pub enum Spells {
    Heal,
    Lightning,
    Freeze,
    Fireball,
    Wall,
}

/// The hit points that the healing spell gives back.
pub const HEAL_AMOUNT: i32 = 4;

/// The mana that the healing spell costs.
pub const HEAL_MANA_COST: i32 = 5;

/// The damage that the lightning spell does.
pub const LIGHTNING_DAMAGE: i32 = 40;

/// The distance within which the lightning spell finds its target.
pub const LIGHTNING_RANGE: i32 = 5;

/// The mana that the lightning spell costs.
pub const LIGHTNING_MANA_COST: i32 = 10;

/// The distance from the player within which the freezing spell works.
pub const FREEZE_RADIUS: i32 = 4;

/// The number of turns that the freezing spell freezes for.
pub const FREEZE_DURATION: i32 = 3;

/// The mana that the freezing spell costs.
pub const FREEZE_MANA_COST: i32 = 5;

/// The distance from its target within which a fireball burns.
pub const FIREBALL_RADIUS: i32 = 3;

/// The damage that a fireball does.
pub const FIREBALL_DAMAGE: i32 = 12;

/// The mana that a caster of fireballs must have.
pub const FIREBALL_MANA_COST: i32 = 7;

/// The hit points of a conjured wall.
pub const WALL_HP: i32 = 1;

/// The mana that conjuring a wall costs.
pub const WALL_MANA_COST: i32 = 5;

/// The name of a spell.
pub open spec fn spell_name(spell: Spells) -> Seq<char> {
    match spell {
        Spells::Heal => "Heal"@,
        Spells::Lightning => "Lightning"@,
        Spells::Freeze => "Freeze"@,
        Spells::Fireball => "Fireball"@,
        Spells::Wall => "Wall"@,
    }
}

/// The mana that a spell asks for.
pub open spec fn spell_cost(spell: Spells) -> int {
    match spell {
        Spells::Heal => HEAL_MANA_COST as int,
        Spells::Lightning => LIGHTNING_MANA_COST as int,
        Spells::Freeze => FREEZE_MANA_COST as int,
        Spells::Fireball => FIREBALL_MANA_COST as int,
        Spells::Wall => WALL_MANA_COST as int,
    }
}

/// Whether a spell is aimed at a tile.
pub open spec fn is_aimed(spell: Spells) -> bool {
    spell is Fireball || spell is Wall
}

impl Spells {
    /// The name of the spell.
    pub fn name(&self) -> (name: String)
        ensures
            name@ == spell_name(*self),
    {
        match self {
            Spells::Heal => String::from_str("Heal"),
            Spells::Lightning => String::from_str("Lightning"),
            Spells::Freeze => String::from_str("Freeze"),
            Spells::Fireball => String::from_str("Fireball"),
            Spells::Wall => String::from_str("Wall"),
        }
    }

    /// The mana that the spell asks for.
    pub fn cost(&self) -> (cost: i32)
        ensures
            cost == spell_cost(*self),
    {
        match self {
            Spells::Heal => HEAL_MANA_COST,
            Spells::Lightning => LIGHTNING_MANA_COST,
            Spells::Freeze => FREEZE_MANA_COST,
            Spells::Fireball => FIREBALL_MANA_COST,
            Spells::Wall => WALL_MANA_COST,
        }
    }

    /// Whether the spell is aimed at a tile.
    pub fn needs_target(&self) -> (b: bool)
        ensures
            b == is_aimed(*self),
    {
        match self {
            Spells::Fireball => true,
            Spells::Wall => true,
            _ => false,
        }
    }
}

/// The mana of an entity: that of its fighter, or none.
pub open spec fn mana_of(o: ObjectView) -> int {
    match o.fighter {
        Some(f) => f.mana,
        None => 0,
    }
}

/// The entity after it has paid `cost` mana.
pub open spec fn spent(o: ObjectView, cost: int) -> ObjectView {
    match o.fighter {
        Some(f) => ObjectView { fighter: Some(FighterView { mana: f.mana - cost, ..f }), ..o },
        None => o,
    }
}

/// What the log says when the player lacks the mana for `spell`.
pub open spec fn too_costly(spell: Spells) -> MessageView {
    report(MessageKind::NotEnoughMana, spell_name(spell), spell_cost(spell))
}

/// A spell that is refused for want of mana.
pub open spec fn refused(w: World, spell: Spells) -> Cast {
    Cast { world: w.logged(seq![too_costly(spell)]), result: UseResult::Cancelled }
}

/// The healing spell. With too little mana it is refused; at full health it
/// is not cast; otherwise the player pays for it and is healed.
pub open spec fn heal_spell(w: World) -> Cast {
    let player = w.objects[0];
    if mana_of(player) >= HEAL_MANA_COST {
        if player.fighter->0.hp == player.fighter->0.max_hp {
            Cast { world: w.logged(seq![note(MessageKind::FullHealth)]), result: UseResult::Cancelled }
        } else {
            Cast {
                world: World {
                    objects: w.objects.update(0, healed(spent(player, HEAL_MANA_COST as int), HEAL_AMOUNT as int)),
                    game: w.game.logged(seq![note(MessageKind::Healed)]),
                },
                result: UseResult::UsedUp,
            }
        }
    } else {
        refused(w, Spells::Heal)
    }
}

/// The lightning spell. With too little mana it is refused; without a
/// visible monster within range it is not cast; otherwise it strikes the
/// nearest, the player gains the experience of a monster it kills, and the
/// player pays for it.
pub open spec fn lightning_spell(w: World, fov: Seq<Seq<bool>>) -> Cast {
    let player = w.objects[0];
    if mana_of(player) >= LIGHTNING_MANA_COST {
        match closest(w.objects, fov, LIGHTNING_RANGE as int) {
            Some(t) => {
                let hit = damaged(w.objects[t], LIGHTNING_DAMAGE as int);
                let winner = match hit.xp {
                    Some(xp) => rewarded(player, xp),
                    None => player,
                };
                Cast {
                    world: World {
                        objects: w.objects.update(t, hit.object).update(0, spent(winner, LIGHTNING_MANA_COST as int)),
                        game: w.game.logged(
                            seq![report(MessageKind::LightningStrike, w.objects[t].name, LIGHTNING_DAMAGE as int)]
                                + hit.messages,
                        ),
                    },
                    result: UseResult::UsedUp,
                }
            },
            None => Cast { world: w.logged(seq![note(MessageKind::NoEnemyInRange)]), result: UseResult::Cancelled },
        }
    } else {
        refused(w, Spells::Lightning)
    }
}

/// Whether the statistics that `lightning_spell(w, fov)` computes can be stored.
pub open spec fn lightning_spell_fits(w: World, fov: Seq<Seq<bool>>) -> bool {
    mana_of(w.objects[0]) >= LIGHTNING_MANA_COST ==> (closest(w.objects, fov, LIGHTNING_RANGE as int) matches Some(t)
        ==> lightning_spell(w, fov).world.objects[t].storable() && lightning_spell(w, fov).world.objects[0].storable())
}

/// Whether the freezing spell reaches the entity from `(x, y)`.
pub open spec fn chilled(o: ObjectView, x: int, y: int) -> bool {
    dist_sq(o.x, o.y, x, y) <= FREEZE_RADIUS * FREEZE_RADIUS && o.fighter is Some
}

/// The entity, frozen.
pub open spec fn frozen(o: ObjectView) -> ObjectView {
    ObjectView {
        effect: Some(StatusEffectView { effect: Effect::Frozen, turns_left: FREEZE_DURATION as int }),
        ..o
    }
}

/// What the log says of the entities before `upto` that the freezing spell
/// reaches.
pub open spec fn freeze_log(objects: Seq<ObjectView>, upto: int) -> Seq<MessageView>
    decreases upto,
{
    if upto <= 1 {
        Seq::empty()
    } else {
        let o = objects[upto - 1];
        freeze_log(objects, upto - 1) + (if chilled(o, objects[0].x, objects[0].y) {
            seq![report(MessageKind::Frozen, o.name, FREEZE_DURATION as int)]
        } else {
            Seq::empty()
        })
    }
}

/// The entities after the freezing spell: the player has paid, and every
/// other fighter within reach of the player is frozen.
pub open spec fn frozen_all(objects: Seq<ObjectView>) -> Seq<ObjectView> {
    Seq::new(
        objects.len(),
        |i: int|
            if i == 0 {
                spent(objects[0], FREEZE_MANA_COST as int)
            } else if chilled(objects[i], objects[0].x, objects[0].y) {
                frozen(objects[i])
            } else {
                objects[i]
            },
    )
}

/// The freezing spell. With too little mana it is refused; otherwise it
/// freezes every fighter near the player, and the player pays for it.
pub open spec fn freeze_spell(w: World) -> Cast {
    if mana_of(w.objects[0]) >= FREEZE_MANA_COST {
        Cast {
            world: World {
                objects: frozen_all(w.objects),
                game: w.game.logged(
                    seq![note(MessageKind::FreezeCast)] + freeze_log(w.objects, w.objects.len() as int),
                ),
            },
            result: UseResult::UsedUp,
        }
    } else {
        refused(w, Spells::Freeze)
    }
}

/// Whether a fireball that explodes on `(x, y)` burns the entity.
pub open spec fn scorched(o: ObjectView, x: int, y: int) -> bool {
    dist_sq(o.x, o.y, x, y) <= FIREBALL_RADIUS * FIREBALL_RADIUS && o.fighter is Some
}

/// What the log says of the entities before `upto` that the fireball burns.
pub open spec fn blast_log(objects: Seq<ObjectView>, x: int, y: int, upto: int) -> Seq<MessageView>
    decreases upto,
{
    if upto <= 0 {
        Seq::empty()
    } else {
        let o = objects[upto - 1];
        blast_log(objects, x, y, upto - 1) + (if scorched(o, x, y) {
            seq![report(MessageKind::Burned, o.name, FIREBALL_DAMAGE as int)] + damaged(
                o,
                FIREBALL_DAMAGE as int,
            ).messages
        } else {
            Seq::empty()
        })
    }
}

/// The experience that the entities before `upto` give up to the fireball.
pub open spec fn blast_xp(objects: Seq<ObjectView>, x: int, y: int, upto: int) -> int
    decreases upto,
{
    if upto <= 0 {
        0
    } else {
        let o = objects[upto - 1];
        blast_xp(objects, x, y, upto - 1) + (if scorched(o, x, y) {
            match damaged(o, FIREBALL_DAMAGE as int).xp {
                Some(xp) => xp,
                None => 0,
            }
        } else {
            0
        })
    }
}

/// The entities after a fireball has exploded on `(x, y)`, before anyone
/// gains experience.
pub open spec fn blasted(objects: Seq<ObjectView>, x: int, y: int) -> Seq<ObjectView> {
    Seq::new(
        objects.len(),
        |i: int|
            if scorched(objects[i], x, y) {
                damaged(objects[i], FIREBALL_DAMAGE as int).object
            } else {
                objects[i]
            },
    )
}

/// The fireball. With too little mana it is refused; without a target it is
/// not cast; otherwise it burns every fighter near the target, the player
/// among them, and the player gains the experience of all that it kills.
/// Casting it takes no mana.
pub open spec fn fireball_spell(w: World, target: Option<(int, int)>) -> Cast {
    if mana_of(w.objects[0]) >= FIREBALL_MANA_COST {
        match target {
            Some((x, y)) => {
                let burnt = blasted(w.objects, x, y);
                Cast {
                    world: World {
                        objects: burnt.update(0, rewarded(burnt[0], blast_xp(w.objects, x, y, w.objects.len() as int))),
                        game: w.game.logged(
                            seq![report(MessageKind::FireballExplodes, Seq::empty(), FIREBALL_RADIUS as int)]
                                + blast_log(w.objects, x, y, w.objects.len() as int),
                        ),
                    },
                    result: UseResult::UsedUp,
                }
            },
            None => Cast { world: w, result: UseResult::Cancelled },
        }
    } else {
        refused(w, Spells::Fireball)
    }
}

/// Whether the statistics that `fireball_spell(w, target)` computes can be stored.
pub open spec fn fireball_spell_fits(w: World, target: Option<(int, int)>) -> bool {
    mana_of(w.objects[0]) >= FIREBALL_MANA_COST ==> (target matches Some((x, y)) ==> {
        &&& forall|i: int| 0 <= i < w.objects.len() ==> (#[trigger] blasted(w.objects, x, y)[i]).storable()
        &&& fireball_spell(w, target).world.objects[0].storable()
    })
}

/// A conjured wall on `(x, y)`: something in the way that a single point of
/// damage brings down.
pub open spec fn wall(x: int, y: int) -> ObjectView {
    ObjectView {
        alive: true,
        fighter: Some(
            FighterView {
                max_hp: WALL_HP as int,
                hp: WALL_HP as int,
                max_mana: 0,
                mana: 0,
                defense: 0,
                power: 0,
                xp: 0,
                on_death: DeathCallback::Monster,
            },
        ),
        ..fresh(x, y, 'w', Color::Brass, "wall"@, true)
    }
}

/// The wall spell. With too little mana it is refused; without a target it
/// is not cast and costs nothing; otherwise a wall stands on the target and
/// the player pays for it. Mana is only ever taken for a wall that stands.
pub open spec fn wall_spell(w: World, target: Option<(int, int)>) -> Cast {
    if mana_of(w.objects[0]) >= WALL_MANA_COST {
        match target {
            Some((x, y)) => Cast {
                world: World {
                    objects: w.objects.update(0, spent(w.objects[0], WALL_MANA_COST as int)).push(wall(x, y)),
                    game: w.game.logged(seq![note(MessageKind::WallRaised)]),
                },
                result: UseResult::UsedUp,
            },
            None => Cast { world: w, result: UseResult::Cancelled },
        }
    } else {
        refused(w, Spells::Wall)
    }
}

/// What casting `spell` comes to. `target` is the tile that an aimed spell
/// is aimed at, if one was chosen.
pub open spec fn spell_cast(spell: Spells, target: Option<(int, int)>, w: World, fov: Seq<Seq<bool>>) -> Cast {
    match spell {
        Spells::Heal => heal_spell(w),
        Spells::Lightning => lightning_spell(w, fov),
        Spells::Freeze => freeze_spell(w),
        Spells::Fireball => fireball_spell(w, target),
        Spells::Wall => wall_spell(w, target),
    }
}

/// Whether the statistics that `spell_cast(spell, target, w, fov)` computes
/// can be stored.
pub open spec fn spell_cast_fits(spell: Spells, target: Option<(int, int)>, w: World, fov: Seq<Seq<bool>>) -> bool {
    match spell {
        Spells::Lightning => lightning_spell_fits(w, fov),
        Spells::Fireball => fireball_spell_fits(w, target),
        _ => true,
    }
}

/// The tile as a pair of mathematical integers.
pub open spec fn tile_of(target: Option<(i32, i32)>) -> Option<(int, int)> {
    match target {
        Some((x, y)) => Some((x as int, y as int)),
        None => None,
    }
}

/// What is to happen before a spell can be cast.
#[derive(Clone, Copy, Debug, PartialEq, Eq, Structural)]
pub enum CastRequest {
    /// The spell can be cast as it is.
    Ready,
    /// The player has to choose a target tile first.
    NeedsTarget,
    /// The player lacks the mana for a spell that needs a target.
    Refused,
}

/// What preparing `spell` comes to. A spell that is not aimed is ready and
/// nothing changes. For an aimed one the player is asked for a target, or
/// told that the mana is lacking.
pub open spec fn cast_begun(spell: Spells, w: World) -> (World, CastRequest) {
    if is_aimed(spell) {
        if mana_of(w.objects[0]) >= spell_cost(spell) {
            (
                w.logged(
                    seq![
                        note(
                            if spell is Fireball {
                                MessageKind::FireballPrompt
                            } else {
                                MessageKind::WallPrompt
                            },
                        ),
                    ],
                ),
                CastRequest::NeedsTarget,
            )
        } else {
            (w.logged(seq![too_costly(spell)]), CastRequest::Refused)
        }
    } else {
        (w, CastRequest::Ready)
    }
}

/// The mana that the player has.
fn player_mana(objects: &Vec<Object>) -> (mana: i32)
    requires
        objects@.len() > 0,
    ensures
        mana == mana_of(views(objects@)[0]),
{
    match objects[PLAYER].fighter {
        Some(f) => f.mana,
        None => 0,
    }
}

/// Tells the player that the mana for `spell` is lacking.
fn refuse(spell: Spells, game: &mut Game)
    ensures
        final(game)@ == old(game)@.logged(seq![too_costly(spell)]),
{
    let name = spell.name();
    game.log(Message::report(MessageKind::NotEnoughMana, &name, spell.cost()));
}

/// Takes `cost` mana from the player.
fn pay(cost: i32, objects: &mut Vec<Object>)
    requires
        old(objects).len() > 0,
        fits(mana_of(views(old(objects)@)[0]) - cost),
    ensures
        final(objects)@.len() == old(objects)@.len(),
        views(final(objects)@) == views(old(objects)@).update(0, spent(views(old(objects)@)[0], cost as int)),
{
    match objects[PLAYER].fighter {
        Some(f) => {
            objects[PLAYER].fighter = Some(Fighter { mana: f.mana - cost, ..f });
        },
        None => {},
    }
    proof {
        assert(objects@ =~= old(objects)@.update(0, objects@[0]));
        lemma_views_update(old(objects)@, 0, objects@[0]);
        assert(views(objects@) =~= views(old(objects)@).update(0, spent(views(old(objects)@)[0], cost as int)));
    }
}

/// Gives the player `xp` experience.
fn reward(xp: i128, objects: &mut Vec<Object>)
    requires
        old(objects).len() > 0,
        -0x1_0000_0000_0000_0000_0000_0000 < xp < 0x1_0000_0000_0000_0000_0000_0000,
        rewarded(views(old(objects)@)[0], xp as int).storable(),
    ensures
        final(objects)@.len() == old(objects)@.len(),
        views(final(objects)@) == views(old(objects)@).update(0, rewarded(views(old(objects)@)[0], xp as int)),
{
    match objects[PLAYER].fighter {
        Some(f) => {
            let total: i128 = f.xp as i128 + xp;
            objects[PLAYER].fighter = Some(Fighter { xp: total as i32, ..f });
        },
        None => {},
    }
    proof {
        assert(objects@ =~= old(objects)@.update(0, objects@[0]));
        lemma_views_update(old(objects)@, 0, objects@[0]);
        assert(views(objects@) =~= views(old(objects)@).update(0, rewarded(views(old(objects)@)[0], xp as int)));
    }
}

/// Prepares the casting of `spell`: asks for a target if the spell needs one
/// and the player has the mana for it.
pub fn begin_cast(spell: Spells, game: &mut Game, objects: &Vec<Object>) -> (request: CastRequest)
    requires
        objects@.len() > 0,
    ensures
        (world(*final(game), objects@), request) == cast_begun(spell, world(*old(game), objects@)),
{
    if spell.needs_target() {
        if player_mana(objects) >= spell.cost() {
            match spell {
                Spells::Fireball => game.note(MessageKind::FireballPrompt),
                _ => game.note(MessageKind::WallPrompt),
            }
            CastRequest::NeedsTarget
        } else {
            refuse(spell, game);
            CastRequest::Refused
        }
    } else {
        CastRequest::Ready
    }
}

/// Casts the healing spell.
fn cast_heal(_fov: &FovMap, game: &mut Game, objects: &mut Vec<Object>) -> (result: UseResult)
    requires
        old(objects).len() > 0,
    ensures
        world(*final(game), final(objects)@) == heal_spell(world(*old(game), old(objects)@)).world,
        result == heal_spell(world(*old(game), old(objects)@)).result,
{
    if player_mana(objects) >= HEAL_MANA_COST {
        let fighter = objects[PLAYER].fighter.unwrap();
        if fighter.hp == fighter.max_hp {
            game.note(MessageKind::FullHealth);
            return UseResult::Cancelled;
        }
        game.note(MessageKind::Healed);
        pay(HEAL_MANA_COST, objects);
        let ghost paid = objects@;
        objects[PLAYER].heal(HEAL_AMOUNT);
        proof {
            let player = views(old(objects)@)[0];
            assert(views(paid)[0] == spent(player, HEAL_MANA_COST as int));
            assert(paid[0]@ == views(paid)[0]);
            assert(objects@ =~= paid.update(0, objects@[0]));
            lemma_views_update(paid, 0, objects@[0]);
            assert(objects@[0]@ == healed(spent(player, HEAL_MANA_COST as int), HEAL_AMOUNT as int));
            assert(views(objects@) =~= views(old(objects)@).update(
                0,
                healed(spent(player, HEAL_MANA_COST as int), HEAL_AMOUNT as int),
            ));
        }
        return UseResult::UsedUp;
    }
    refuse(Spells::Heal, game);
    UseResult::Cancelled
}

/// Casts the lightning spell.
fn cast_lightning(fov: &FovMap, game: &mut Game, objects: &mut Vec<Object>) -> (result: UseResult)
    requires
        old(objects).len() > 0,
        lightning_spell_fits(world(*old(game), old(objects)@), fov@),
    ensures
        world(*final(game), final(objects)@) == lightning_spell(world(*old(game), old(objects)@), fov@).world,
        result == lightning_spell(world(*old(game), old(objects)@), fov@).result,
{
    let ghost before = world(*game, objects@);
    if player_mana(objects) >= LIGHTNING_MANA_COST {
        match closest_monster(fov, objects, LIGHTNING_RANGE) {
            Some(monster_id) => {
                let ghost t = monster_id as int;
                let ghost hit = damaged(before.objects[t], LIGHTNING_DAMAGE as int);
                let ghost goal = lightning_spell(before, fov@).world;
                proof {
                    assert(goal.objects[t] == hit.object);
                }
                game.log(
                    Message::report(MessageKind::LightningStrike, &objects[monster_id].name, LIGHTNING_DAMAGE),
                );
                let awarded = objects[monster_id].take_damage(LIGHTNING_DAMAGE, game);
                proof {
                    assert(objects@ =~= old(objects)@.update(t, objects@[t]));
                    lemma_views_update(old(objects)@, t, objects@[t]);
                    lemma_logged_twice(
                        old(game)@,
                        seq![report(MessageKind::LightningStrike, before.objects[t].name, LIGHTNING_DAMAGE as int)],
                        hit.messages,
                    );
                    assert(views(objects@)[0] == before.objects[0]);
                    let winner = match hit.xp {
                        Some(xp) => rewarded(before.objects[0], xp),
                        None => before.objects[0],
                    };
                    assert(goal.objects[0] == spent(winner, LIGHTNING_MANA_COST as int));
                }
                match awarded {
                    Some(xp) => {
                        reward(xp as i128, objects);
                    },
                    None => {},
                }
                pay(LIGHTNING_MANA_COST, objects);
                proof {
                    assert(views(objects@) =~= goal.objects);
                }
                return UseResult::UsedUp;
            },
            None => {
                game.note(MessageKind::NoEnemyInRange);
                return UseResult::Cancelled;
            },
        }
    }
    refuse(Spells::Lightning, game);
    UseResult::Cancelled
}

/// Casts the freezing spell.
fn cast_freeze(_fov: &FovMap, game: &mut Game, objects: &mut Vec<Object>) -> (result: UseResult)
    requires
        old(objects).len() > 0,
    ensures
        world(*final(game), final(objects)@) == freeze_spell(world(*old(game), old(objects)@)).world,
        result == freeze_spell(world(*old(game), old(objects)@)).result,
{
    let ghost before = views(objects@);
    if player_mana(objects) >= FREEZE_MANA_COST {
        game.note(MessageKind::FreezeCast);
        let (x, y) = objects[PLAYER].pos();
        let mut i: usize = 1;
        while i < objects.len()
            invariant
                1 <= i <= objects@.len(),
                objects@.len() == before.len(),
                before == views(old(objects)@),
                mana_of(before[0]) >= FREEZE_MANA_COST,
                x == before[0].x,
                y == before[0].y,
                objects@[0]@ == before[0],
                forall|j: int| 1 <= j < i ==> (#[trigger] objects@[j])@ == frozen_all(before)[j],
                forall|j: int| i <= j < before.len() ==> (#[trigger] objects@[j])@ == before[j],
                game@ == old(game)@.logged(seq![note(MessageKind::FreezeCast)] + freeze_log(before, i as int)),
            decreases objects@.len() - i,
        {
            let ghost logged = seq![note(MessageKind::FreezeCast)] + freeze_log(before, i as int);
            if objects[i].distance_sq(x, y) <= (FREEZE_RADIUS * FREEZE_RADIUS) as i128 && objects[i].fighter.is_some() {
                game.log(Message::report(MessageKind::Frozen, &objects[i].name, FREEZE_DURATION));
                objects[i].effect = Some(StatusEffect { effect: Effect::Frozen, turns_left: FREEZE_DURATION });
                proof {
                    let said = seq![report(MessageKind::Frozen, before[i as int].name, FREEZE_DURATION as int)];
                    lemma_logged_twice(old(game)@, logged, said);
                    assert(logged + said =~= seq![note(MessageKind::FreezeCast)] + freeze_log(before, i + 1));
                }
            } else {
                proof {
                    assert(logged + Seq::<MessageView>::empty() =~= logged);
                }
            }
            i += 1;
        }
        proof {
            assert(views(objects@)[0] == before[0]);
        }
        pay(FREEZE_MANA_COST, objects);
        proof {
            assert(views(objects@) =~= frozen_all(before));
        }
        return UseResult::UsedUp;
    }
    refuse(Spells::Freeze, game);
    UseResult::Cancelled
}

/// The experience that a fireball yields is no more than what every entity
/// can store.
proof fn lemma_blast_xp_bound(objects: Seq<ObjectView>, x: int, y: int, upto: int)
    requires
        0 <= upto <= objects.len(),
        forall|i: int| 0 <= i < objects.len() ==> (#[trigger] objects[i]).storable(),
    ensures
        -upto * 0x8000_0000 <= blast_xp(objects, x, y, upto) <= upto * 0x8000_0000,
    decreases upto,
{
    if upto > 0 {
        lemma_blast_xp_bound(objects, x, y, upto - 1);
        assert(objects[upto - 1].storable());
    }
}

/// Casts a fireball at `target`.
fn cast_fireball(target: Option<(i32, i32)>, game: &mut Game, objects: &mut Vec<Object>) -> (result: UseResult)
    requires
        old(objects).len() > 0,
        fireball_spell_fits(world(*old(game), old(objects)@), tile_of(target)),
    ensures
        world(*final(game), final(objects)@) == fireball_spell(world(*old(game), old(objects)@), tile_of(target)).world,
        result == fireball_spell(world(*old(game), old(objects)@), tile_of(target)).result,
{
    let ghost before = views(objects@);
    if player_mana(objects) >= FIREBALL_MANA_COST {
        let (x, y) = match target {
            Some(tile_pos) => tile_pos,
            None => {
                return UseResult::Cancelled;
            },
        };
        let nothing = String::new();
        game.log(Message::report(MessageKind::FireballExplodes, &nothing, FIREBALL_RADIUS));
        let ghost boom = seq![report(MessageKind::FireballExplodes, Seq::empty(), FIREBALL_RADIUS as int)];
        let mut xp_to_gain: i128 = 0;
        let mut i: usize = 0;
        proof {
            assert(boom + blast_log(before, x as int, y as int, 0) =~= boom);
            assert forall|j: int| 0 <= j < before.len() implies (#[trigger] before[j]).storable() by {
                assert(before[j] == old(objects)@[j]@);
            }
        }
        while i < objects.len()
            invariant
                0 <= i <= objects@.len(),
                objects@.len() == before.len(),
                before == views(old(objects)@),
                boom == seq![report(MessageKind::FireballExplodes, Seq::empty(), FIREBALL_RADIUS as int)],
                forall|j: int| 0 <= j < before.len() ==> (#[trigger] before[j]).storable(),
                forall|j: int| 0 <= j < before.len() ==> (#[trigger] blasted(before, x as int, y as int)[j]).storable(),
                forall|j: int| 0 <= j < i ==> (#[trigger] objects@[j])@ == blasted(before, x as int, y as int)[j],
                forall|j: int| i <= j < before.len() ==> (#[trigger] objects@[j])@ == before[j],
                xp_to_gain == blast_xp(before, x as int, y as int, i as int),
                game@ == old(game)@.logged(boom + blast_log(before, x as int, y as int, i as int)),
            decreases objects@.len() - i,
        {
            let ghost logged = boom + blast_log(before, x as int, y as int, i as int);
            proof {
                lemma_blast_xp_bound(before, x as int, y as int, i as int);
                lemma_blast_xp_bound(before, x as int, y as int, i + 1);
                assert(blasted(before, x as int, y as int)[i as int].storable());
            }
            if objects[i].distance_sq(x, y) <= (FIREBALL_RADIUS * FIREBALL_RADIUS) as i128
                && objects[i].fighter.is_some() {
                game.log(Message::report(MessageKind::Burned, &objects[i].name, FIREBALL_DAMAGE));
                let awarded = objects[i].take_damage(FIREBALL_DAMAGE, game);
                match awarded {
                    Some(xp) => {
                        xp_to_gain = xp_to_gain + xp as i128;
                    },
                    None => {},
                }
                proof {
                    let said = seq![report(MessageKind::Burned, before[i as int].name, FIREBALL_DAMAGE as int)];
                    let hit = damaged(before[i as int], FIREBALL_DAMAGE as int);
                    lemma_logged_twice(old(game)@, logged, said);
                    lemma_logged_twice(old(game)@, logged + said, hit.messages);
                    assert((logged + said) + hit.messages =~= boom + blast_log(before, x as int, y as int, i + 1));
                }
            } else {
                proof {
                    assert(logged + Seq::<MessageView>::empty() =~= logged);
                }
            }
            i += 1;
        }
        proof {
            lemma_blast_xp_bound(before, x as int, y as int, before.len() as int);
            assert(views(objects@) =~= blasted(before, x as int, y as int));
        }
        reward(xp_to_gain, objects);
        return UseResult::UsedUp;
    }
    refuse(Spells::Fireball, game);
    UseResult::Cancelled
}

/// Raises a wall on `target`.
fn cast_wall(target: Option<(i32, i32)>, game: &mut Game, objects: &mut Vec<Object>) -> (result: UseResult)
    requires
        old(objects).len() > 0,
    ensures
        world(*final(game), final(objects)@) == wall_spell(world(*old(game), old(objects)@), tile_of(target)).world,
        result == wall_spell(world(*old(game), old(objects)@), tile_of(target)).result,
{
    if player_mana(objects) >= WALL_MANA_COST {
        let (x, y) = match target {
            Some(tile_pos) => tile_pos,
            None => {
                return UseResult::Cancelled;
            },
        };
        let mut wall = Object::new(x, y, 'w', Color::Brass, "wall", true);
        wall.alive = true;
        wall.fighter = Some(
            Fighter {
                max_hp: WALL_HP,
                hp: WALL_HP,
                max_mana: 0,
                mana: 0,
                defense: 0,
                power: 0,
                xp: 0,
                on_death: DeathCallback::Monster,
            },
        );
        pay(WALL_MANA_COST, objects);
        proof {
            lemma_views_push(objects@, wall);
        }
        objects.push(wall);
        game.note(MessageKind::WallRaised);
        return UseResult::UsedUp;
    }
    refuse(Spells::Wall, game);
    UseResult::Cancelled
}

/// Casts `spell`. `target` is the tile that an aimed spell is aimed at, if
/// the player chose one.
pub fn cast_spell(
    spell: Spells,
    target: Option<(i32, i32)>,
    fov: &FovMap,
    game: &mut Game,
    objects: &mut Vec<Object>,
) -> (result: UseResult)
    requires
        old(objects).len() > 0,
        spell_cast_fits(spell, tile_of(target), world(*old(game), old(objects)@), fov@),
    ensures
        world(*final(game), final(objects)@) == spell_cast(
            spell,
            tile_of(target),
            world(*old(game), old(objects)@),
            fov@,
        ).world,
        result == spell_cast(spell, tile_of(target), world(*old(game), old(objects)@), fov@).result,
{
    match spell {
        Spells::Heal => cast_heal(fov, game, objects),
        Spells::Lightning => cast_lightning(fov, game, objects),
        Spells::Freeze => cast_freeze(fov, game, objects),
        Spells::Fireball => cast_fireball(target, game, objects),
        Spells::Wall => cast_wall(target, game, objects),
    }
}

/// At full health the healing spell is not cast: it costs nothing and
/// changes nothing but the log.
pub proof fn lemma_heal_spell_at_cap(w: World)
    requires
        w.objects[0].fighter is Some,
        w.objects[0].fighter->0.hp == w.objects[0].fighter->0.max_hp,
        mana_of(w.objects[0]) >= HEAL_MANA_COST,
    ensures
        heal_spell(w).result == UseResult::Cancelled,
        heal_spell(w).world.objects == w.objects,
{
}

/// A spell that the player lacks the mana for changes nothing but the log.
pub proof fn lemma_refused_for_want_of_mana(spell: Spells, target: Option<(int, int)>, w: World, fov: Seq<Seq<bool>>)
    requires
        mana_of(w.objects[0]) < spell_cost(spell),
    ensures
        spell_cast(spell, target, w, fov) == refused(w, spell),
        spell_cast(spell, target, w, fov).world.objects == w.objects,
        spell_cast(spell, target, w, fov).result == UseResult::Cancelled,
{
}

} // verus!
