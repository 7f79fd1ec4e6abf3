//! The state of a run and the rules that advance it.

use vstd::prelude::*;
use crate::dungeon::{MapConfig, generated, make_map};
use crate::map::{Rect, Tile, TileGrid, half};
use crate::object::{
    Color, DeathCallback, Effect, Fighter, FighterView, Message, MessageKind, MessageView, Messages, Object,
    ObjectView, StatusEffect, StatusEffectView, UseResult, damaged, fits, fresh, healed, lemma_views_update, note,
    recharged, report, rewarded, views,
};
use crate::settings::{LEVEL_UP_BASE, LEVEL_UP_FACTOR, PLAYER};
use crate::object::perks::Perks;
use crate::object::spells::Spells;

verus! {

/// Everything about a run that is not an entity on the current level.
#[derive(Clone, Debug, PartialEq)]
pub struct Game {
    pub map: TileGrid,
    pub messages: Messages,
    pub inventory: Vec<Object>,
    pub dungeon_level: u32,
    pub spells: Vec<Spells>,
    pub unknown_spells: Vec<Spells>,
    pub perks: Vec<Perks>,
    pub unobtained_perks: Vec<Perks>,
}

/// The mathematical value of a [`Game`].
#[verifier::ext_equal]
pub struct GameView {
    pub map: Seq<Seq<Tile>>,
    pub messages: Seq<MessageView>,
    pub inventory: Seq<ObjectView>,
    pub dungeon_level: int,
    pub spells: Seq<Spells>,
    pub unknown_spells: Seq<Spells>,
    pub perks: Seq<Perks>,
    pub unobtained_perks: Seq<Perks>,
}

impl View for Game {
    type V = GameView;

    open spec fn view(&self) -> GameView {
        GameView {
            map: self.map@,
            messages: self.messages@,
            inventory: views(self.inventory@),
            dungeon_level: self.dungeon_level as int,
            spells: self.spells@,
            unknown_spells: self.unknown_spells@,
            perks: self.perks@,
            unobtained_perks: self.unobtained_perks@,
        }
    }
}

impl GameView {
    /// The game with `messages` appended to its log.
    pub open spec fn logged(self, messages: Seq<MessageView>) -> GameView {
        GameView { messages: self.messages + messages, ..self }
    }
}

/// The whole state of a run: the entities of the current level and the game.
#[verifier::ext_equal]
pub struct World {
    pub objects: Seq<ObjectView>,
    pub game: GameView,
}

/// The state that `game` and `objects` stand for.
pub open spec fn world(game: Game, objects: Seq<Object>) -> World {
    World { objects: views(objects), game: game@ }
}

impl World {
    /// The state with `messages` appended to the log.
    pub open spec fn logged(self, messages: Seq<MessageView>) -> World {
        World { game: self.game.logged(messages), ..self }
    }

    /// The state with other entities.
    pub open spec fn with_objects(self, objects: Seq<ObjectView>) -> World {
        World { objects, ..self }
    }
}

/// What using an item or casting a spell comes to: the state afterwards, and
/// whether it had an effect.
#[verifier::ext_equal]
pub struct Cast {
    pub world: World,
    pub result: UseResult,
}

impl Game {
    /// Appends one message to the log.
    pub fn log(&mut self, message: Message)
        ensures
            final(self)@ == old(self)@.logged(seq![message@]),
            final(self).map == old(self).map,
            final(self).inventory == old(self).inventory,
    {
        self.messages.add(message);
        assert(self@ =~= old(self)@.logged(seq![message@]));
    }

    /// Appends a message that says `kind` and nothing else.
    pub fn note(&mut self, kind: MessageKind)
        ensures
            final(self)@ == old(self)@.logged(seq![crate::object::note(kind)]),
            final(self).map == old(self).map,
            final(self).inventory == old(self).inventory,
    {
        self.log(Message::note(kind));
    }
}

/// Logging in two steps is logging both at once.
pub proof fn lemma_logged_twice(game: GameView, first: Seq<MessageView>, second: Seq<MessageView>)
    ensures
        game.logged(first).logged(second) == game.logged(first + second),
        game.logged(Seq::empty()) == game,
{
    assert(game.logged(first).logged(second) =~= game.logged(first + second));
    assert(game.logged(Seq::empty()) =~= game);
}

/// The player as a new run begins.
pub open spec fn hero() -> ObjectView {
    ObjectView {
        alive: true,
        fighter: Some(
            FighterView {
                max_hp: 30,
                hp: 30,
                max_mana: 30,
                mana: 30,
                defense: 2,
                power: 5,
                xp: 0,
                on_death: DeathCallback::Player,
            },
        ),
        ..fresh(0, 0, '@', Color::White, "player"@, true)
    }
}

/// What a new run starts with, but for the level itself.
pub open spec fn fresh_game(game: GameView) -> bool {
    &&& game.messages == seq![note(MessageKind::Welcome)]
    &&& game.inventory == Seq::<ObjectView>::empty()
    &&& game.dungeon_level == 1
    &&& game.spells == seq![Spells::Heal, Spells::Lightning, Spells::Freeze]
    &&& game.unknown_spells == seq![Spells::Fireball, Spells::Wall]
    &&& game.perks == Seq::<Perks>::empty()
    &&& game.unobtained_perks == seq![Perks::MagicCannon, Perks::Scavenger]
}

/// Begins a new run: a player, a first level generated around it, and a
/// welcome.
pub fn new_game() -> (start: (Game, Vec<Object>))
    ensures
        fresh_game(start.0@),
        exists|rooms: Seq<Rect>| generated(MapConfig::ordinary(), start.0@.map, rooms, seq![hero()], views(start.1@)),
{
    let mut player = Object::new(0, 0, '@', Color::White, "player", true);
    player.alive = true;
    player.fighter = Some(
        Fighter {
            max_hp: 30,
            hp: 30,
            max_mana: 30,
            mana: 30,
            defense: 2,
            power: 5,
            xp: 0,
            on_death: DeathCallback::Player,
        },
    );
    let mut objects: Vec<Object> = Vec::new();
    objects.push(player);
    assert(views(objects@) =~= seq![hero()]);
    let map = make_map(&mut objects);
    let ghost rooms = choose|rooms: Seq<Rect>|
        generated(MapConfig::ordinary(), map@, rooms, seq![hero()], views(objects@));
    let mut spells: Vec<Spells> = Vec::new();
    spells.push(Spells::Heal);
    spells.push(Spells::Lightning);
    spells.push(Spells::Freeze);
    let mut unknown_spells: Vec<Spells> = Vec::new();
    unknown_spells.push(Spells::Fireball);
    unknown_spells.push(Spells::Wall);
    let mut unobtained_perks: Vec<Perks> = Vec::new();
    unobtained_perks.push(Perks::MagicCannon);
    unobtained_perks.push(Perks::Scavenger);
    let mut game = Game {
        map,
        messages: Messages::new(),
        inventory: Vec::new(),
        dungeon_level: 1,
        spells,
        unknown_spells,
        perks: Vec::new(),
        unobtained_perks,
    };
    game.note(MessageKind::Welcome);
    proof {
        assert(game@.messages =~= seq![note(MessageKind::Welcome)]);
        assert(game@.inventory =~= Seq::<ObjectView>::empty());
        assert(game@.spells =~= seq![Spells::Heal, Spells::Lightning, Spells::Freeze]);
        assert(game@.unknown_spells =~= seq![Spells::Fireball, Spells::Wall]);
        assert(game@.unobtained_perks =~= seq![Perks::MagicCannon, Perks::Scavenger]);
        assert(generated(MapConfig::ordinary(), game@.map, rooms, seq![hero()], views(objects@)));
    }
    let start = (game, objects);
    assert(generated(MapConfig::ordinary(), start.0@.map, rooms, seq![hero()], views(start.1@)));
    start
}

/// The experience that clearing dungeon level `level` is worth.
pub open spec fn level_bonus(level: int) -> int {
    350 * level
}

/// The player after the rest before a descent from dungeon level `level`:
/// healed by half its maximal health, recharged by half its maximal mana,
/// and richer by the bonus for the level.
pub open spec fn rested(player: ObjectView, level: int) -> ObjectView {
    match player.fighter {
        Some(f) => rewarded(recharged(healed(player, half(f.max_hp)), half(f.max_mana)), level_bonus(level)),
        None => player,
    }
}

/// Whether the statistics that a descent computes can be stored.
pub open spec fn descent_fits(w: World) -> bool {
    &&& w.game.dungeon_level < u32::MAX
    &&& w.objects[0].fighter matches Some(f) ==> {
        &&& healed(w.objects[0], half(f.max_hp)).storable()
        &&& recharged(healed(w.objects[0], half(f.max_hp)), half(f.max_mana)).storable()
        &&& rested(w.objects[0], w.game.dungeon_level).storable()
    }
}

/// What a descent comes to, whatever level is generated. The player rests and
/// is rewarded, the dungeon level counts one more, and a new level is
/// generated around the player; the inventory and what the player has learnt
/// stay.
pub open spec fn descended(before: World, after: World) -> bool {
    &&& after.game.dungeon_level == before.game.dungeon_level + 1
    &&& after.game.messages == before.game.messages + seq![note(MessageKind::Rest), note(MessageKind::Descend)]
    &&& after.game.inventory == before.game.inventory
    &&& after.game.spells == before.game.spells
    &&& after.game.unknown_spells == before.game.unknown_spells
    &&& after.game.perks == before.game.perks
    &&& after.game.unobtained_perks == before.game.unobtained_perks
    &&& exists|rooms: Seq<Rect>|
        generated(
            MapConfig::ordinary(),
            after.game.map,
            rooms,
            before.objects.update(0, rested(before.objects[0], before.game.dungeon_level)),
            after.objects,
        )
}

fn halved(n: i32) -> (h: i32)
    ensures
        h == half(n as int),
{
    if n >= 0 {
        n / 2
    } else {
        let m: i64 = -(n as i64);
        (-(m / 2)) as i32
    }
}

/// Takes the player down to the next dungeon level.
pub fn next_level(game: &mut Game, objects: &mut Vec<Object>)
    requires
        old(objects).len() > 0,
        descent_fits(world(*old(game), old(objects)@)),
    ensures
        descended(world(*old(game), old(objects)@), world(*final(game), final(objects)@)),
{
    let ghost before = world(*game, objects@);
    game.note(MessageKind::Rest);
    match objects[PLAYER].fighter {
        Some(f) => {
            objects[PLAYER].heal(halved(f.max_hp));
            objects[PLAYER].recover_mana(halved(f.max_mana));
        },
        None => {},
    }
    game.note(MessageKind::Descend);
    match objects[PLAYER].fighter {
        Some(f) => {
            let xp: i64 = f.xp as i64 + 350 * (game.dungeon_level as i64);
            objects[PLAYER].fighter = Some(Fighter { xp: xp as i32, ..f });
        },
        None => {},
    }
    proof {
        assert(objects@ =~= old(objects)@.update(0, objects@[0]));
        lemma_views_update(old(objects)@, 0, objects@[0]);
        assert(objects@[0]@ == rested(before.objects[0], before.game.dungeon_level));
        assert(game@.messages =~= before.game.messages + seq![note(MessageKind::Rest), note(MessageKind::Descend)]);
    }
    game.dungeon_level += 1;
    let ghost rested_views = views(objects@);
    proof {
        assert(rested_views =~= before.objects.update(0, rested(before.objects[0], before.game.dungeon_level)));
    }
    game.map = make_map(objects);
    proof {
        let rooms = choose|rooms: Seq<Rect>|
            generated(MapConfig::ordinary(), game.map@, rooms, rested_views, views(objects@));
        let after = world(*game, objects@);
        assert(generated(
            MapConfig::ordinary(),
            after.game.map,
            rooms,
            before.objects.update(0, rested(before.objects[0], before.game.dungeon_level)),
            after.objects,
        ));
    }
}

/// The experience of an entity: that of its fighter, or none.
pub open spec fn xp_of(o: ObjectView) -> int {
    match o.fighter {
        Some(f) => f.xp,
        None => 0,
    }
}

/// The experience at which a player of level `level` levels up.
pub open spec fn level_up_xp(level: int) -> int {
    LEVEL_UP_BASE + level * LEVEL_UP_FACTOR
}

/// Whether the player has the experience to level up.
pub open spec fn level_up_due(player: ObjectView) -> bool {
    xp_of(player) >= level_up_xp(player.level)
}

/// The number of rewards that the player can choose from on levelling up:
/// more health, more mana, or one of the spells not yet known.
pub open spec fn reward_count(game: GameView) -> int {
    2 + game.unknown_spells.len() as int
}

/// The fighter after reward `choice`: twenty more hit points for the first,
/// twenty more mana for the second. Learning a spell leaves it as it is.
pub open spec fn grown(f: FighterView, choice: int) -> FighterView {
    if choice == 0 {
        FighterView { max_hp: f.max_hp + 20, hp: f.hp + 20, ..f }
    } else if choice == 1 {
        FighterView { max_mana: f.max_mana + 20, mana: f.mana + 20, ..f }
    } else {
        f
    }
}

/// Whether a level-up with reward `choice` takes place: the player has the
/// experience for it, and the reward exists.
pub open spec fn levels_up(w: World, choice: int) -> bool {
    &&& w.objects[0].fighter is Some
    &&& level_up_due(w.objects[0])
    &&& 0 <= choice < reward_count(w.game)
}

/// What levelling up with reward `choice` comes to. Where no level-up takes
/// place nothing changes. Otherwise the player is one level higher, has paid
/// the experience that the level asked for, and has the reward.
pub open spec fn leveled(w: World, choice: int) -> World {
    if levels_up(w, choice) {
        let player = w.objects[0];
        let f = player.fighter->0;
        let paid = FighterView { xp: f.xp - level_up_xp(player.level), ..f };
        World {
            objects: w.objects.update(
                0,
                ObjectView { level: player.level + 1, fighter: Some(grown(paid, choice)), ..player },
            ),
            game: GameView {
                spells: if choice >= 2 {
                    w.game.spells.push(w.game.unknown_spells[choice - 2])
                } else {
                    w.game.spells
                },
                unknown_spells: if choice >= 2 {
                    w.game.unknown_spells.remove(choice - 2)
                } else {
                    w.game.unknown_spells
                },
                ..w.game
            }.logged(seq![report(MessageKind::LevelUp, Seq::empty(), player.level + 1)]),
        }
    } else {
        w
    }
}

/// Whether the statistics that `leveled(w, choice)` computes can be stored.
pub open spec fn leveled_fits(w: World, choice: int) -> bool {
    levels_up(w, choice) ==> leveled(w, choice).objects[0].storable()
}

/// Whether the player has the experience to level up, and so has to choose
/// a reward before anything else happens.
pub fn check_level_up(objects: &Vec<Object>) -> (due: bool)
    requires
        objects@.len() > 0,
    ensures
        due == level_up_due(views(objects@)[0]),
{
    let player = &objects[PLAYER];
    let level_up_exp: i64 = LEVEL_UP_BASE as i64 + player.level as i64 * LEVEL_UP_FACTOR as i64;
    let xp: i64 = match player.fighter {
        Some(f) => f.xp as i64,
        None => 0,
    };
    xp >= level_up_exp
}

/// Levels the player up with reward `choice`, and says whether it did. It
/// does not, and changes nothing, unless the player has the experience and
/// the reward exists.
pub fn level_up(choice: usize, game: &mut Game, objects: &mut Vec<Object>) -> (done: bool)
    requires
        old(objects).len() > 0,
        leveled_fits(world(*old(game), old(objects)@), choice as int),
    ensures
        done == levels_up(world(*old(game), old(objects)@), choice as int),
        world(*final(game), final(objects)@) == leveled(world(*old(game), old(objects)@), choice as int),
{
    let ghost before = world(*game, objects@);
    if !check_level_up(objects) {
        return false;
    }
    let fighter = match objects[PLAYER].fighter {
        Some(f) => f,
        None => {
            return false;
        },
    };
    if choice >= 2 && choice - 2 >= game.unknown_spells.len() {
        return false;
    }
    let level = objects[PLAYER].level;
    let level_up_exp: i64 = LEVEL_UP_BASE as i64 + level as i64 * LEVEL_UP_FACTOR as i64;
    let nothing = String::new();
    game.log(Message::report(MessageKind::LevelUp, &nothing, level + 1));
    let paid = Fighter { xp: (fighter.xp as i64 - level_up_exp) as i32, ..fighter };
    let reward = if choice == 0 {
        Fighter { max_hp: paid.max_hp + 20, hp: paid.hp + 20, ..paid }
    } else if choice == 1 {
        Fighter { max_mana: paid.max_mana + 20, mana: paid.mana + 20, ..paid }
    } else {
        let spell = game.unknown_spells.remove(choice - 2);
        game.spells.push(spell);
        paid
    };
    objects[PLAYER].level = level + 1;
    objects[PLAYER].fighter = Some(reward);
    proof {
        assert(objects@ =~= old(objects)@.update(0, objects@[0]));
        lemma_views_update(old(objects)@, 0, objects@[0]);
        assert(game@ =~= leveled(before, choice as int).game);
    }
    true
}

/// What a status effect does to the player when a turn has been taken. An
/// effect with no turns left ends. A burning player takes one point of
/// damage; a frozen one only waits. Either has one turn less to go.
pub open spec fn player_ticked(w: World) -> World {
    let player = w.objects[0];
    match player.effect {
        None => w,
        Some(e) => if e.turns_left == 0 {
            w.with_objects(w.objects.update(0, ObjectView { effect: None, ..player }))
        } else {
            match e.effect {
                Effect::Burning => {
                    let burn = damaged(player, 1);
                    World {
                        objects: w.objects.update(
                            0,
                            ObjectView {
                                effect: Some(StatusEffectView { turns_left: e.turns_left - 1, ..e }),
                                ..burn.object
                            },
                        ),
                        game: w.game.logged(seq![note(MessageKind::BurningDamage)] + burn.messages),
                    }
                },
                Effect::Frozen => w.with_objects(
                    w.objects.update(
                        0,
                        ObjectView { effect: Some(StatusEffectView { turns_left: e.turns_left - 1, ..e }), ..player },
                    ),
                ),
            }
        },
    }
}

/// Whether the statistics that `player_ticked(w)` computes can be stored.
pub open spec fn player_ticked_fits(w: World) -> bool {
    w.objects[0].effect matches Some(e) ==> (e.turns_left != 0 ==> {
        &&& fits(e.turns_left - 1)
        &&& e.effect is Burning ==> damaged(w.objects[0], 1).object.storable()
    })
}

/// Applies the player's status effect for one turn.
pub fn check_status_effect(game: &mut Game, objects: &mut Vec<Object>)
    requires
        old(objects).len() > 0,
        player_ticked_fits(world(*old(game), old(objects)@)),
    ensures
        world(*final(game), final(objects)@) == player_ticked(world(*old(game), old(objects)@)),
{
    let ghost before = world(*game, objects@);
    match objects[PLAYER].effect {
        None => {},
        Some(status_effect) => {
            if status_effect.turns_left == 0 {
                objects[PLAYER].effect = None;
            } else {
                match status_effect.effect {
                    Effect::Burning => {
                        game.note(MessageKind::BurningDamage);
                        objects[PLAYER].take_damage(1, game);
                        proof {
                            lemma_logged_twice(
                                old(game)@,
                                seq![note(MessageKind::BurningDamage)],
                                damaged(before.objects[0], 1).messages,
                            );
                        }
                    },
                    Effect::Frozen => {},
                }
                objects[PLAYER].effect = Some(
                    StatusEffect { turns_left: status_effect.turns_left - 1, ..status_effect },
                );
            }
            proof {
                assert(objects@ =~= old(objects)@.update(0, objects@[0]));
                lemma_views_update(old(objects)@, 0, objects@[0]);
            }
        },
    }
}

/// The player levels up at the threshold of its level and not one point of
/// experience below it.
pub proof fn lemma_level_up_gate(player: ObjectView)
    ensures
        xp_of(player) == level_up_xp(player.level) ==> level_up_due(player),
        xp_of(player) == level_up_xp(player.level) - 1 ==> !level_up_due(player),
        level_up_xp(player.level) == 200 + player.level * 150,
{
}

/// The rest before a descent gives back half of the maximal health and half
/// of the maximal mana, each up to its maximum, and adds 350 times the
/// dungeon level to the experience.
pub proof fn lemma_rest_restores_half(player: ObjectView, level: int)
    requires
        player.fighter is Some,
        player.fighter->0.max_hp >= 0,
        player.fighter->0.max_mana >= 0,
    ensures
        rested(player, level).fighter->0.hp == crate::object::restored(
            player.fighter->0.hp,
            player.fighter->0.max_hp / 2,
            player.fighter->0.max_hp,
        ),
        rested(player, level).fighter->0.mana == crate::object::restored(
            player.fighter->0.mana,
            player.fighter->0.max_mana / 2,
            player.fighter->0.max_mana,
        ),
        rested(player, level).fighter->0.xp == player.fighter->0.xp + 350 * level,
{
}

/// The player's status effect counts down by one each turn, ends once it has
/// no turns left, and hurts only while it burns.
pub proof fn lemma_player_effect_counts_down(w: World)
    requires
        w.objects.len() > 0,
        w.objects[0].effect is Some,
    ensures
        w.objects[0].effect->0.turns_left == 0 ==> player_ticked(w).objects[0].effect is None && player_ticked(w).game
            == w.game,
        w.objects[0].effect->0.turns_left != 0 ==> player_ticked(w).objects[0].effect == Some(
            StatusEffectView {
                effect: w.objects[0].effect->0.effect,
                turns_left: w.objects[0].effect->0.turns_left - 1,
            },
        ),
        w.objects[0].effect->0.turns_left != 0 && w.objects[0].effect->0.effect is Frozen ==> player_ticked(w).game
            == w.game && player_ticked(w).objects[0].fighter == w.objects[0].fighter,
        w.objects[0].effect->0.turns_left != 0 && w.objects[0].effect->0.effect is Burning
            ==> player_ticked(w).objects[0].fighter == damaged(w.objects[0], 1).object.fighter,
{
}

} // verus!
