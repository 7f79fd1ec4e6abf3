//! Entities and the rules of combat.

pub mod items;
pub mod perks;
pub mod spells;

use vstd::prelude::*;
use vstd::string::*;
use crate::game::{Game, GameView, World, world};
use crate::settings::INVENTORY_SIZE;
use crate::object::items::Item;

verus! {

/// How an entity is tinted when it is drawn. The simulation only sets it.
#[derive(Clone, Copy, Debug, PartialEq, Eq, Structural)]
pub enum Color {
    White,
    DesaturatedGreen,
    DarkerGreen,
    Violet,
    LightBlue,
    Pink,
    DarkRed,
    DarkOrange,
    Amber,
    Brass,
}

/// What happens to an entity whose hit points are used up.
#[derive(Clone, Copy, Debug, PartialEq, Eq, Structural)]
pub enum DeathCallback {
    Player,
    Monster,
}

/// How a monster decides what to do.
#[derive(Clone, Copy, Debug, PartialEq, Eq, Structural)]
pub enum Ai {
    Basic,
}

/// Whether using an item or casting a spell had an effect.
#[derive(Clone, Copy, Debug, PartialEq, Eq, Structural)]
pub enum UseResult {
    UsedUp,
    Cancelled,
}

/// What a player's input amounted to.
#[derive(Clone, Copy, Debug, PartialEq, Eq, Structural)]
pub enum PlayerAction {
    TookTurn,
    DidntTakeTurn,
    Exit,
}

/// The kinds of timed status effect.
#[derive(Clone, Copy, Debug, PartialEq, Eq, Structural)]
pub enum Effect {
    Frozen,
    Burning,
}

/// A status effect and the number of turns it still lasts.
#[derive(Clone, Copy, Debug, PartialEq, Eq)]
pub struct StatusEffect {
    pub effect: Effect,
    pub turns_left: i32,
}

/// The mathematical value of a [`StatusEffect`].
#[verifier::ext_equal]
pub struct StatusEffectView {
    pub effect: Effect,
    pub turns_left: int,
}

impl View for StatusEffect {
    type V = StatusEffectView;

    open spec fn view(&self) -> StatusEffectView {
        StatusEffectView { effect: self.effect, turns_left: self.turns_left as int }
    }
}

/// The combat statistics of an entity.
#[derive(Clone, Copy, Debug, PartialEq, Eq)]
pub struct Fighter {
    pub max_hp: i32,
    pub hp: i32,
    pub max_mana: i32,
    pub mana: i32,
    pub defense: i32,
    pub power: i32,
    pub xp: i32,
    pub on_death: DeathCallback,
}

/// The mathematical value of a [`Fighter`].
#[verifier::ext_equal]
pub struct FighterView {
    pub max_hp: int,
    pub hp: int,
    pub max_mana: int,
    pub mana: int,
    pub defense: int,
    pub power: int,
    pub xp: int,
    pub on_death: DeathCallback,
}

impl View for Fighter {
    type V = FighterView;

    open spec fn view(&self) -> FighterView {
        FighterView {
            max_hp: self.max_hp as int,
            hp: self.hp as int,
            max_mana: self.max_mana as int,
            mana: self.mana as int,
            defense: self.defense as int,
            power: self.power as int,
            xp: self.xp as int,
            on_death: self.on_death,
        }
    }
}

/// The events that the simulation reports to the player.
#[derive(Clone, Copy, Debug, PartialEq, Eq, Structural)]
pub enum MessageKind {
    /// A new run has begun.
    Welcome,
    /// `subject` hit `other` for `amount` hit points.
    Attack,
    /// `subject` hit `other` without hurting it.
    AttackNoEffect,
    /// The player died.
    PlayerDied,
    /// `subject` died and was worth `amount` experience points.
    MonsterDied,
    /// The inventory is full; `subject` stays on the floor.
    InventoryFull,
    /// `subject` went into the inventory.
    PickedUp,
    /// The item or spell was not used.
    Cancelled,
    /// `subject` is not something that can be used.
    CannotUse,
    /// `subject` was dropped.
    Dropped,
    /// No healing was needed.
    FullHealth,
    /// The player was healed.
    Healed,
    /// No mana was missing.
    FullMana,
    /// The player's mana was restored.
    ManaRestored,
    /// Lightning struck `subject` for `amount` hit points.
    LightningStrike,
    /// No monster was near enough to strike.
    NoEnemyInRange,
    /// The spell named `subject` costs more mana than the player has.
    NotEnoughMana,
    /// A freezing spell was cast.
    FreezeCast,
    /// `subject` was frozen for `amount` turns.
    Frozen,
    /// A fireball needs a target tile.
    FireballPrompt,
    /// A fireball exploded with a radius of `amount` tiles.
    FireballExplodes,
    /// The fireball burned `subject` for `amount` hit points.
    Burned,
    /// A wall needs a target tile.
    WallPrompt,
    /// A wall was raised.
    WallRaised,
    /// The player ate `subject`.
    Ate,
    /// The player traded health for mana.
    MagicCannon,
    /// The player rests before descending.
    Rest,
    /// The player descends to the next level.
    Descend,
    /// The player reached level `amount`.
    LevelUp,
    /// The player is hurt by burning.
    BurningDamage,
}

/// One entry of the message log.
#[derive(Clone, Debug, PartialEq, Eq)]
pub struct Message {
    pub kind: MessageKind,
    pub subject: String,
    pub other: String,
    pub amount: i32,
}

/// The mathematical value of a [`Message`].
#[verifier::ext_equal]
pub struct MessageView {
    pub kind: MessageKind,
    pub subject: Seq<char>,
    pub other: Seq<char>,
    pub amount: int,
}

impl View for Message {
    type V = MessageView;

    open spec fn view(&self) -> MessageView {
        MessageView {
            kind: self.kind,
            subject: self.subject@,
            other: self.other@,
            amount: self.amount as int,
        }
    }
}

/// The message that says `kind` and nothing else.
pub open spec fn note(kind: MessageKind) -> MessageView {
    MessageView { kind, subject: Seq::empty(), other: Seq::empty(), amount: 0 }
}

/// The message of `kind` about `subject`, with a number.
pub open spec fn report(kind: MessageKind, subject: Seq<char>, amount: int) -> MessageView {
    MessageView { kind, subject, other: Seq::empty(), amount }
}

impl Message {
    /// The message that says `kind` and nothing else.
    pub fn note(kind: MessageKind) -> (m: Message)
        ensures
            m@ == note(kind),
    {
        Message { kind, subject: String::new(), other: String::new(), amount: 0 }
    }

    /// The message of `kind` about `subject`, with a number.
    pub fn report(kind: MessageKind, subject: &String, amount: i32) -> (m: Message)
        ensures
            m@ == report(kind, subject@, amount as int),
    {
        Message { kind, subject: subject.clone(), other: String::new(), amount }
    }
}

/// The message log: ordered, and only ever appended to.
#[derive(Clone, Debug, PartialEq, Eq)]
pub struct Messages {
    pub entries: Vec<Message>,
}

impl View for Messages {
    type V = Seq<MessageView>;

    open spec fn view(&self) -> Seq<MessageView> {
        Seq::new(self.entries@.len(), |i: int| self.entries@[i]@)
    }
}

impl Messages {
    /// An empty log.
    pub fn new() -> (log: Messages)
        ensures
            log@ == Seq::<MessageView>::empty(),
    {
        let log = Messages { entries: Vec::new() };
        assert(log@ =~= Seq::<MessageView>::empty());
        log
    }

    /// Appends one message.
    pub fn add(&mut self, message: Message)
        ensures
            final(self)@ == old(self)@.push(message@),
    {
        self.entries.push(message);
        assert(self@ =~= old(self)@.push(message@));
    }
}

/// Anything that exists on a dungeon level: the player, a monster, an item,
/// the stairs.
#[derive(Clone, Debug, PartialEq, Eq)]
pub struct Object {
    pub x: i32,
    pub y: i32,
    pub glyph: char,
    pub color: Color,
    pub name: String,
    pub blocks: bool,
    pub alive: bool,
    pub fighter: Option<Fighter>,
    pub ai: Option<Ai>,
    pub item: Option<Item>,
    pub effect: Option<StatusEffect>,
    pub always_visible: bool,
    pub level: i32,
}

/// The mathematical value of an [`Object`].
#[verifier::ext_equal]
pub struct ObjectView {
    pub x: int,
    pub y: int,
    pub glyph: char,
    pub color: Color,
    pub name: Seq<char>,
    pub blocks: bool,
    pub alive: bool,
    pub fighter: Option<FighterView>,
    pub ai: Option<Ai>,
    pub item: Option<Item>,
    pub effect: Option<StatusEffectView>,
    pub always_visible: bool,
    pub level: int,
}

impl View for Object {
    type V = ObjectView;

    open spec fn view(&self) -> ObjectView {
        ObjectView {
            x: self.x as int,
            y: self.y as int,
            glyph: self.glyph,
            color: self.color,
            name: self.name@,
            blocks: self.blocks,
            alive: self.alive,
            fighter: match self.fighter {
                Some(f) => Some(f@),
                None => None,
            },
            ai: self.ai,
            item: self.item,
            effect: match self.effect {
                Some(e) => Some(e@),
                None => None,
            },
            always_visible: self.always_visible,
            level: self.level as int,
        }
    }
}

/// The values of a sequence of entities, in order.
pub open spec fn views(objects: Seq<Object>) -> Seq<ObjectView> {
    Seq::new(objects.len(), |i: int| objects[i]@)
}

/// The glyph of anything that has died.
pub const REMAINS_GLYPH: char = '%';

/// An entity as [`Object::new`] makes it.
pub open spec fn fresh(x: int, y: int, glyph: char, color: Color, name: Seq<char>, blocks: bool) -> ObjectView {
    ObjectView {
        x,
        y,
        glyph,
        color,
        name,
        blocks,
        alive: false,
        fighter: None,
        ai: None,
        item: None,
        effect: None,
        always_visible: false,
        level: 1,
    }
}

/// The name that a monster's remains go by.
pub open spec fn remains_name(name: Seq<char>) -> Seq<char> {
    "remains of "@ + name
}

/// What a death callback leaves of a dying entity. A monster becomes inert
/// remains; the player only changes appearance.
pub open spec fn fallen(o: ObjectView, on_death: DeathCallback) -> ObjectView {
    match on_death {
        DeathCallback::Player => ObjectView { glyph: REMAINS_GLYPH, color: Color::DarkRed, ..o },
        DeathCallback::Monster => ObjectView {
            glyph: REMAINS_GLYPH,
            color: Color::DarkRed,
            blocks: false,
            fighter: None,
            ai: None,
            name: remains_name(o.name),
            ..o
        },
    }
}

/// What the log says of a death.
pub open spec fn obituary(o: ObjectView, on_death: DeathCallback) -> MessageView {
    match on_death {
        DeathCallback::Player => note(MessageKind::PlayerDied),
        DeathCallback::Monster => report(
            MessageKind::MonsterDied,
            o.name,
            match o.fighter {
                Some(f) => f.xp,
                None => 0,
            },
        ),
    }
}

/// The result of applying damage to an entity.
#[verifier::ext_equal]
pub struct Damage {
    /// The entity afterwards.
    pub object: ObjectView,
    /// The experience that the entity gives up, if this damage killed it.
    pub xp: Option<int>,
    /// What the log gains.
    pub messages: Seq<MessageView>,
}

/// The damage rule. Only a living fighter can be hurt. Its hit points drop by
/// `damage` if that is positive; if they are then zero or less it dies: it is
/// no longer alive, its death callback runs, and it gives up its experience.
pub open spec fn damaged(o: ObjectView, damage: int) -> Damage {
    if o.alive && o.fighter is Some {
        let f = o.fighter->0;
        let hp = if damage > 0 { f.hp - damage } else { f.hp };
        let hurt = ObjectView { fighter: Some(FighterView { hp, ..f }), ..o };
        if hp <= 0 {
            Damage {
                object: fallen(ObjectView { alive: false, ..hurt }, f.on_death),
                xp: Some(f.xp),
                messages: seq![obituary(hurt, f.on_death)],
            }
        } else {
            Damage { object: hurt, xp: None, messages: Seq::empty() }
        }
    } else {
        Damage { object: o, xp: None, messages: Seq::empty() }
    }
}

/// A statistic after `amount` has been added to it, held to its maximum.
pub open spec fn restored(value: int, amount: int, max: int) -> int {
    if value + amount > max {
        max
    } else {
        value + amount
    }
}

/// The entity after healing by `amount`.
pub open spec fn healed(o: ObjectView, amount: int) -> ObjectView {
    match o.fighter {
        Some(f) => ObjectView { fighter: Some(FighterView { hp: restored(f.hp, amount, f.max_hp), ..f }), ..o },
        None => o,
    }
}

/// The entity after recovering `amount` of mana.
pub open spec fn recharged(o: ObjectView, amount: int) -> ObjectView {
    match o.fighter {
        Some(f) => ObjectView {
            fighter: Some(FighterView { mana: restored(f.mana, amount, f.max_mana), ..f }),
            ..o
        },
        None => o,
    }
}

/// The attack strength of an entity: its power, or nothing without a fighter.
pub open spec fn power_of(o: ObjectView) -> int {
    match o.fighter {
        Some(f) => f.power,
        None => 0,
    }
}

/// The protection of an entity: its defense, or nothing without a fighter.
pub open spec fn defense_of(o: ObjectView) -> int {
    match o.fighter {
        Some(f) => f.defense,
        None => 0,
    }
}

/// The entity with `xp` more experience, if it is a fighter.
pub open spec fn rewarded(o: ObjectView, xp: int) -> ObjectView {
    match o.fighter {
        Some(f) => ObjectView { fighter: Some(FighterView { xp: f.xp + xp, ..f }), ..o },
        None => o,
    }
}

/// What an attack reports.
#[derive(Clone, Copy, Debug, PartialEq, Eq)]
pub struct AttackOutcome {
    /// The attacker's power less the defender's defense; a hit only if positive.
    pub damage_dealt: i32,
    /// Whether this attack killed the defender.
    pub defender_died: bool,
    /// The experience the attacker was awarded.
    pub xp_awarded: i32,
}

/// The mathematical value of an [`AttackOutcome`].
#[verifier::ext_equal]
pub struct AttackOutcomeView {
    pub damage_dealt: int,
    pub defender_died: bool,
    pub xp_awarded: int,
}

impl View for AttackOutcome {
    type V = AttackOutcomeView;

    open spec fn view(&self) -> AttackOutcomeView {
        AttackOutcomeView {
            damage_dealt: self.damage_dealt as int,
            defender_died: self.defender_died,
            xp_awarded: self.xp_awarded as int,
        }
    }
}

/// The result of one entity attacking another.
#[verifier::ext_equal]
pub struct Attack {
    pub attacker: ObjectView,
    pub target: ObjectView,
    pub outcome: AttackOutcomeView,
    pub messages: Seq<MessageView>,
}

/// The attack rule. The damage is the attacker's power less the target's
/// defense. If that is positive the target takes it, and what experience the
/// target gives up goes to the attacker; otherwise nothing changes.
pub open spec fn attacked(attacker: ObjectView, target: ObjectView) -> Attack {
    let damage = power_of(attacker) - defense_of(target);
    if damage > 0 {
        let hit = damaged(target, damage);
        let xp = match hit.xp {
            Some(xp) => xp,
            None => 0,
        };
        Attack {
            attacker: if hit.xp is Some { rewarded(attacker, xp) } else { attacker },
            target: hit.object,
            outcome: AttackOutcomeView { damage_dealt: damage, defender_died: hit.xp is Some, xp_awarded: xp },
            messages: seq![
                MessageView { kind: MessageKind::Attack, subject: attacker.name, other: target.name, amount: damage },
            ] + hit.messages,
        }
    } else {
        Attack {
            attacker,
            target,
            outcome: AttackOutcomeView { damage_dealt: damage, defender_died: false, xp_awarded: 0 },
            messages: seq![
                MessageView { kind: MessageKind::AttackNoEffect, subject: attacker.name, other: target.name, amount: 0 },
            ],
        }
    }
}

/// Whether a number fits the integers that statistics are stored in.
pub open spec fn fits(n: int) -> bool {
    i32::MIN <= n <= i32::MAX
}

impl FighterView {
    /// Whether every statistic fits the integers that statistics are stored in.
    pub open spec fn storable(self) -> bool {
        &&& fits(self.max_hp)
        &&& fits(self.hp)
        &&& fits(self.max_mana)
        &&& fits(self.mana)
        &&& fits(self.defense)
        &&& fits(self.power)
        &&& fits(self.xp)
    }
}

/// Whether the statistics that `attacked(attacker, target)` computes can be stored.
pub open spec fn attack_fits(attacker: ObjectView, target: ObjectView) -> bool {
    &&& fits(power_of(attacker) - defense_of(target))
    &&& attacked(attacker, target).attacker.storable()
    &&& attacked(attacker, target).target.storable()
}

impl ObjectView {
    /// Whether every number of the entity fits the integers that an
    /// [`Object`] stores. The value of an `Object` always does.
    pub open spec fn storable(self) -> bool {
        &&& fits(self.x)
        &&& fits(self.y)
        &&& fits(self.level)
        &&& self.fighter matches Some(f) ==> f.storable()
        &&& self.effect matches Some(e) ==> fits(e.turns_left)
    }

    /// The entity moved to `(x, y)`.
    pub open spec fn at(self, x: int, y: int) -> ObjectView {
        ObjectView { x, y, ..self }
    }
}

/// The square of the distance between two cells.
pub open spec fn dist_sq(ax: int, ay: int, bx: int, by: int) -> int {
    (bx - ax) * (bx - ax) + (by - ay) * (by - ay)
}

/// The square of a difference of two coordinates fits 64 bits.
pub proof fn lemma_square_bound(d: int)
    requires
        -0x1_0000_0000 < d < 0x1_0000_0000,
    ensures
        0 <= d * d < 0x1_0000_0000_0000_0000,
{
    assert(0 <= d * d < 0x1_0000_0000_0000_0000) by (nonlinear_arith)
        requires
            -0x1_0000_0000 < d < 0x1_0000_0000,
    ;
}

impl Object {
    /// A new entity that is not alive and has no components.
    pub fn new(x: i32, y: i32, glyph: char, color: Color, name: &str, blocks: bool) -> (o: Object)
        ensures
            o@ == fresh(x as int, y as int, glyph, color, name@, blocks),
    {
        Object {
            x,
            y,
            glyph,
            color,
            name: String::from_str(name),
            blocks,
            alive: false,
            fighter: None,
            ai: None,
            item: None,
            effect: None,
            always_visible: false,
            level: 1,
        }
    }

    /// The cell the entity is on.
    pub fn pos(&self) -> (p: (i32, i32))
        ensures
            p == (self.x, self.y),
    {
        (self.x, self.y)
    }

    /// Moves the entity to `(x, y)`.
    pub fn set_pos(&mut self, x: i32, y: i32)
        ensures
            final(self)@ == old(self)@.at(x as int, y as int),
    {
        self.x = x;
        self.y = y;
    }

    /// The square of the distance to another entity.
    pub fn distance_sq_to(&self, other: &Object) -> (d: i128)
        ensures
            d == dist_sq(self.x as int, self.y as int, other.x as int, other.y as int),
    {
        self.distance_sq(other.x, other.y)
    }

    /// The square of the distance to the cell `(x, y)`.
    pub fn distance_sq(&self, x: i32, y: i32) -> (d: i128)
        ensures
            d == dist_sq(self.x as int, self.y as int, x as int, y as int),
    {
        let dx: i128 = x as i128 - self.x as i128;
        let dy: i128 = y as i128 - self.y as i128;
        proof {
            lemma_square_bound(dx as int);
            lemma_square_bound(dy as int);
        }
        dx * dx + dy * dy
    }

    /// Applies `damage` to the entity and returns the experience it gives up
    /// if that killed it.
    pub fn take_damage(&mut self, damage: i32, game: &mut Game) -> (xp: Option<i32>)
        requires
            damaged(old(self)@, damage as int).object.storable(),
        ensures
            final(self)@ == damaged(old(self)@, damage as int).object,
            final(game)@ == old(game)@.logged(damaged(old(self)@, damage as int).messages),
            match xp {
                Some(xp) => damaged(old(self)@, damage as int).xp == Some(xp as int),
                None => damaged(old(self)@, damage as int).xp is None,
            },
    {
        if !self.alive {
            assert(game@ =~= old(game)@.logged(Seq::empty()));
            return None;
        }
        if let Some(fighter) = self.fighter {
            let hp: i64 = if damage > 0 {
                fighter.hp as i64 - damage as i64
            } else {
                fighter.hp as i64
            };
            if hp <= 0 {
                let hurt = Fighter { hp: hp as i32, ..fighter };
                self.fighter = Some(hurt);
                self.alive = false;
                fighter.on_death.callback(self, game);
                assert(game@ =~= old(game)@.logged(damaged(old(self)@, damage as int).messages));
                Some(fighter.xp)
            } else {
                self.fighter = Some(Fighter { hp: hp as i32, ..fighter });
                assert(game@ =~= old(game)@.logged(Seq::empty()));
                None
            }
        } else {
            assert(game@ =~= old(game)@.logged(Seq::empty()));
            None
        }
    }

    /// Attacks `target` and reports what came of it.
    pub fn attack(&mut self, target: &mut Object, game: &mut Game) -> (outcome: AttackOutcome)
        requires
            attack_fits(old(self)@, old(target)@),
        ensures
            final(self)@ == attacked(old(self)@, old(target)@).attacker,
            final(target)@ == attacked(old(self)@, old(target)@).target,
            outcome@ == attacked(old(self)@, old(target)@).outcome,
            final(game)@ == old(game)@.logged(attacked(old(self)@, old(target)@).messages),
    {
        let power: i32 = match self.fighter {
            Some(f) => f.power,
            None => 0,
        };
        let defense: i32 = match target.fighter {
            Some(f) => f.defense,
            None => 0,
        };
        let damage: i32 = power - defense;
        if damage > 0 {
            game.messages.add(
                Message {
                    kind: MessageKind::Attack,
                    subject: self.name.clone(),
                    other: target.name.clone(),
                    amount: damage,
                },
            );
            let awarded = target.take_damage(damage, game);
            assert(game@ =~= old(game)@.logged(attacked(old(self)@, old(target)@).messages));
            match awarded {
                Some(xp) => {
                    match self.fighter {
                        Some(f) => {
                            self.fighter = Some(Fighter { xp: f.xp + xp, ..f });
                        },
                        None => {},
                    }
                    AttackOutcome { damage_dealt: damage, defender_died: true, xp_awarded: xp }
                },
                None => AttackOutcome { damage_dealt: damage, defender_died: false, xp_awarded: 0 },
            }
        } else {
            game.messages.add(
                Message {
                    kind: MessageKind::AttackNoEffect,
                    subject: self.name.clone(),
                    other: target.name.clone(),
                    amount: 0,
                },
            );
            assert(game@ =~= old(game)@.logged(attacked(old(self)@, old(target)@).messages));
            AttackOutcome { damage_dealt: damage, defender_died: false, xp_awarded: 0 }
        }
    }

    /// Heals the entity by `amount`, up to its maximum.
    pub fn heal(&mut self, amount: i32)
        requires
            healed(old(self)@, amount as int).storable(),
        ensures
            final(self)@ == healed(old(self)@, amount as int),
    {
        match self.fighter {
            Some(f) => {
                let sum: i64 = f.hp as i64 + amount as i64;
                let hp: i32 = if sum > f.max_hp as i64 { f.max_hp } else { sum as i32 };
                self.fighter = Some(Fighter { hp, ..f });
            },
            None => {},
        }
    }

    /// Restores `amount` of the entity's mana, up to its maximum.
    pub fn recover_mana(&mut self, amount: i32)
        requires
            recharged(old(self)@, amount as int).storable(),
        ensures
            final(self)@ == recharged(old(self)@, amount as int),
    {
        match self.fighter {
            Some(f) => {
                let sum: i64 = f.mana as i64 + amount as i64;
                let mana: i32 = if sum > f.max_mana as i64 { f.max_mana } else { sum as i32 };
                self.fighter = Some(Fighter { mana, ..f });
            },
            None => {},
        }
    }
}

impl DeathCallback {
    /// Runs the callback on an entity that has just died.
    pub fn callback(self, object: &mut Object, game: &mut Game)
        ensures
            final(object)@ == fallen(old(object)@, self),
            final(game)@ == old(game)@.logged(seq![obituary(old(object)@, self)]),
    {
        match self {
            DeathCallback::Player => player_death(object, game),
            DeathCallback::Monster => monster_death(object, game),
        }
    }
}

/// The player's death: a word in the log, and the look of remains.
fn player_death(player: &mut Object, game: &mut Game)
    ensures
        final(player)@ == fallen(old(player)@, DeathCallback::Player),
        final(game)@ == old(game)@.logged(seq![obituary(old(player)@, DeathCallback::Player)]),
{
    game.messages.add(Message::note(MessageKind::PlayerDied));
    player.glyph = REMAINS_GLYPH;
    player.color = Color::DarkRed;
    assert(game@ =~= old(game)@.logged(seq![obituary(old(player)@, DeathCallback::Player)]));
}

/// A monster's death: a word in the log, and nothing left of the monster but
/// remains that are in nobody's way.
fn monster_death(monster: &mut Object, game: &mut Game)
    ensures
        final(monster)@ == fallen(old(monster)@, DeathCallback::Monster),
        final(game)@ == old(game)@.logged(seq![obituary(old(monster)@, DeathCallback::Monster)]),
{
    let xp: i32 = match monster.fighter {
        Some(f) => f.xp,
        None => 0,
    };
    game.messages.add(Message::report(MessageKind::MonsterDied, &monster.name, xp));
    let mut name = String::from_str("remains of ");
    name.append(monster.name.as_str());
    monster.glyph = REMAINS_GLYPH;
    monster.color = Color::DarkRed;
    monster.blocks = false;
    monster.fighter = None;
    monster.ai = None;
    monster.name = name;
    assert(game@ =~= old(game)@.logged(seq![obituary(old(monster)@, DeathCallback::Monster)]));
}

/// The first index at or after `from` whose entity satisfies `p`.
pub open spec fn first_from(s: Seq<ObjectView>, p: spec_fn(ObjectView) -> bool, from: int) -> Option<int>
    decreases s.len() - from,
{
    if from < 0 || from >= s.len() {
        None
    } else if p(s[from]) {
        Some(from)
    } else {
        first_from(s, p, from + 1)
    }
}

/// A search that has found nothing from `from` up to `to` may go on from `to`.
pub proof fn lemma_first_from_skip(s: Seq<ObjectView>, p: spec_fn(ObjectView) -> bool, from: int, to: int)
    requires
        0 <= from <= to <= s.len(),
        forall|j: int| from <= j < to ==> !p(#[trigger] s[j]),
    ensures
        first_from(s, p, from) == first_from(s, p, to),
    decreases to - from,
{
    if from < to {
        lemma_first_from_skip(s, p, from + 1, to);
    }
}

/// What `first_from` finds is the first match, and it finds nothing only if
/// there is none.
pub proof fn lemma_first_from_is_first(s: Seq<ObjectView>, p: spec_fn(ObjectView) -> bool, from: int)
    requires
        0 <= from,
    ensures
        match first_from(s, p, from) {
            Some(i) => from <= i < s.len() && p(s[i]) && forall|j: int| from <= j < i ==> !p(#[trigger] s[j]),
            None => forall|j: int| from <= j < s.len() ==> !p(#[trigger] s[j]),
        },
    decreases s.len() - from,
{
    if from < s.len() && !p(s[from]) {
        lemma_first_from_is_first(s, p, from + 1);
    }
}

/// Replacing one entity replaces its value.
pub proof fn lemma_views_update(s: Seq<Object>, i: int, o: Object)
    requires
        0 <= i < s.len(),
    ensures
        views(s.update(i, o)) == views(s).update(i, o@),
{
    assert(views(s.update(i, o)) =~= views(s).update(i, o@));
}

/// Appending an entity appends its value.
pub proof fn lemma_views_push(s: Seq<Object>, o: Object)
    ensures
        views(s.push(o)) == views(s).push(o@),
{
    assert(views(s.push(o)) =~= views(s).push(o@));
}

/// Removing an entity removes its value.
pub proof fn lemma_views_remove(s: Seq<Object>, i: int)
    requires
        0 <= i < s.len(),
    ensures
        views(s.remove(i)) == views(s).remove(i),
{
    assert(views(s.remove(i)) =~= views(s).remove(i));
}

/// A range of entities has the values of that range.
pub proof fn lemma_views_subrange(s: Seq<Object>, from: int, to: int)
    requires
        0 <= from <= to <= s.len(),
    ensures
        views(s.subrange(from, to)) == views(s).subrange(from, to),
{
    assert(views(s.subrange(from, to)) =~= views(s).subrange(from, to));
}

/// Swapping an entity out of the store swaps its value out.
pub proof fn lemma_views_swap_remove(s: Seq<Object>, i: int)
    requires
        0 <= i < s.len(),
    ensures
        views(s.update(i, s.last()).drop_last()) == views(s).update(i, views(s).last()).drop_last(),
{
    assert(views(s.update(i, s.last()).drop_last()) =~= views(s).update(i, views(s).last()).drop_last());
}

/// What picking up entity `id` comes to. With a full inventory it stays
/// where it is. Otherwise it moves to the end of the inventory, and the last
/// entity of the level takes its place in the store.
pub open spec fn picked_up(w: World, id: int) -> World {
    if w.game.inventory.len() >= INVENTORY_SIZE {
        w.logged(seq![report(MessageKind::InventoryFull, w.objects[id].name, 0)])
    } else {
        World {
            objects: w.objects.update(id, w.objects.last()).drop_last(),
            game: GameView { inventory: w.game.inventory.push(w.objects[id]), ..w.game }.logged(
                seq![report(MessageKind::PickedUp, w.objects[id].name, 0)],
            ),
        }
    }
}

/// Moves entity `object_id` from the level into the inventory, if there is
/// room for it.
pub fn pick_item_up(object_id: usize, game: &mut Game, objects: &mut Vec<Object>)
    requires
        object_id < old(objects).len(),
    ensures
        world(*final(game), final(objects)@) == picked_up(world(*old(game), old(objects)@), object_id as int),
{
    if game.inventory.len() >= INVENTORY_SIZE {
        game.log(Message::report(MessageKind::InventoryFull, &objects[object_id].name, 0));
    } else {
        proof {
            lemma_views_swap_remove(objects@, object_id as int);
        }
        let item = objects.swap_remove(object_id);
        game.log(Message::report(MessageKind::PickedUp, &item.name, 0));
        proof {
            lemma_views_push(game.inventory@, item);
        }
        game.inventory.push(item);
        proof {
            let before = world(*old(game), old(objects)@);
            assert(game@ =~= GameView {
                inventory: before.game.inventory.push(before.objects[object_id as int]),
                ..before.game
            }.logged(seq![report(MessageKind::PickedUp, before.objects[object_id as int].name, 0)]));
        }
    }
}

/// Damage never heals. Hit points that were no more than the maximum stay
/// so, and damage of no more than the hit points left leaves them at zero or
/// above.
pub proof fn lemma_damage_keeps_bounds(o: ObjectView, damage: int)
    requires
        o.fighter is Some,
        o.fighter->0.hp <= o.fighter->0.max_hp,
    ensures
        damaged(o, damage).object.fighter matches Some(after) ==> {
            &&& after.max_hp == o.fighter->0.max_hp
            &&& after.hp <= after.max_hp
            &&& after.hp <= o.fighter->0.hp
            &&& 0 <= o.fighter->0.hp && damage <= o.fighter->0.hp ==> 0 <= after.hp
        },
{
}

/// An entity dies at most once. Damage gives up experience exactly when it
/// takes a living entity's life; nothing brings an entity back to life; and
/// damage to what is not alive changes nothing and gives up nothing.
pub proof fn lemma_dies_once(o: ObjectView, damage: int, later: int)
    ensures
        damaged(o, damage).xp is Some <==> o.alive && !damaged(o, damage).object.alive,
        damaged(o, damage).object.alive ==> o.alive,
        !o.alive ==> damaged(o, damage).object == o && damaged(o, damage).xp is None && damaged(o, damage).messages
            == Seq::<MessageView>::empty(),
        damaged(o, damage).xp is Some ==> damaged(damaged(o, damage).object, later).xp is None && damaged(
            damaged(o, damage).object,
            later,
        ).object == damaged(o, damage).object,
{
}

/// An attack awards the experience of its target exactly when it kills it,
/// and an attack on what it has killed awards nothing more.
pub proof fn lemma_attack_awards_once(attacker: ObjectView, target: ObjectView)
    requires
        attacker.fighter is Some,
        target.alive,
        target.fighter is Some,
        attacked(attacker, target).outcome.defender_died,
    ensures
        attacked(attacker, target).outcome.xp_awarded == target.fighter->0.xp,
        attacked(attacker, target).attacker.fighter->0.xp == attacker.fighter->0.xp + target.fighter->0.xp,
        !attacked(attacker, target).target.alive,
        !attacked(attacked(attacker, target).attacker, attacked(attacker, target).target).outcome.defender_died,
        attacked(attacked(attacker, target).attacker, attacked(attacker, target).target).outcome.xp_awarded == 0,
        attacked(attacked(attacker, target).attacker, attacked(attacker, target).target).attacker == attacked(
            attacker,
            target,
        ).attacker,
        attacked(attacked(attacker, target).attacker, attacked(attacker, target).target).target == attacked(
            attacker,
            target,
        ).target,
{
}

/// At the maximum, healing and recovering mana change nothing.
pub proof fn lemma_restoring_at_cap(o: ObjectView, amount: int)
    requires
        amount >= 0,
    ensures
        o.fighter matches Some(f) && f.hp == f.max_hp ==> healed(o, amount) == o,
        o.fighter matches Some(f) && f.mana == f.max_mana ==> recharged(o, amount) == o,
        o.fighter matches Some(f) ==> (f.hp <= f.max_hp ==> healed(o, amount).fighter->0.hp <= f.max_hp),
        o.fighter matches Some(f) ==> (f.mana <= f.max_mana ==> recharged(o, amount).fighter->0.mana <= f.max_mana),
{
    match o.fighter {
        Some(f) => {
            if f.hp == f.max_hp {
                assert(healed(o, amount) =~= o);
            }
            if f.mana == f.max_mana {
                assert(recharged(o, amount) =~= o);
            }
        },
        None => {},
    }
}

} // verus!
