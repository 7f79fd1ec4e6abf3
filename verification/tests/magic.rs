use wizard_dungeon::fov::FovMap;
use wizard_dungeon::game::Game;
use wizard_dungeon::map::{Tile, TileGrid};
use wizard_dungeon::object::items::{
    cast_heal, cast_lightning, cast_mana, cast_vision, drop_item, use_item, Item,
};
use wizard_dungeon::object::perks::{trigger_magic_cannon, trigger_scavenger, Perks};
use wizard_dungeon::object::spells::{begin_cast, cast_spell, CastRequest, Spells};
use wizard_dungeon::object::{
    Ai, Color, DeathCallback, Effect, Fighter, Message, MessageKind, Messages, Object, StatusEffect,
    UseResult,
};

fn open_game() -> Game {
    Game {
        map: TileGrid::filled(12, 12, Tile::empty()),
        messages: Messages::new(),
        inventory: vec![],
        dungeon_level: 1,
        spells: vec![Spells::Heal, Spells::Lightning, Spells::Freeze],
        unknown_spells: vec![Spells::Fireball, Spells::Wall],
        perks: vec![],
        unobtained_perks: vec![Perks::MagicCannon, Perks::Scavenger],
    }
}

fn all_seen() -> FovMap {
    FovMap { cells: vec![vec![true; 12]; 12] }
}

fn hero(x: i32, y: i32) -> Object {
    let mut player = Object::new(x, y, '@', Color::White, "player", true);
    player.alive = true;
    player.fighter = Some(Fighter {
        max_hp: 30,
        hp: 30,
        max_mana: 30,
        mana: 30,
        defense: 2,
        power: 5,
        xp: 0,
        on_death: DeathCallback::Player,
    });
    player
}

fn ork(x: i32, y: i32) -> Object {
    let mut monster = Object::new(x, y, 'o', Color::DesaturatedGreen, "ork", true);
    monster.alive = true;
    monster.fighter = Some(Fighter {
        max_hp: 10,
        hp: 10,
        max_mana: 0,
        mana: 0,
        defense: 0,
        power: 3,
        xp: 35,
        on_death: DeathCallback::Monster,
    });
    monster.ai = Some(Ai::Basic);
    monster
}

fn tough(x: i32, y: i32, hp: i32) -> Object {
    let mut monster = ork(x, y);
    monster.name = "ogre".to_string();
    monster.fighter.as_mut().unwrap().hp = hp;
    monster.fighter.as_mut().unwrap().max_hp = hp;
    monster
}

fn thing(kind: Option<Item>, name: &str) -> Object {
    let mut o = Object::new(0, 0, '!', Color::Violet, name, false);
    o.item = kind;
    o
}

fn kinds(game: &Game) -> Vec<MessageKind> {
    game.messages.entries.iter().map(|m| m.kind).collect()
}

fn set_hp(o: &mut Object, hp: i32) {
    o.fighter.as_mut().unwrap().hp = hp;
}

fn set_mana(o: &mut Object, mana: i32) {
    o.fighter.as_mut().unwrap().mana = mana;
}

#[test]
fn a_healing_potion_heals_four() {
    let mut game = open_game();
    let mut objects = vec![hero(1, 1)];
    set_hp(&mut objects[0], 10);
    assert_eq!(cast_heal(0, &all_seen(), &mut game, &mut objects), UseResult::UsedUp);
    assert_eq!(objects[0].fighter.unwrap().hp, 14);
    assert_eq!(kinds(&game), vec![MessageKind::Healed]);
    set_hp(&mut objects[0], 28);
    assert_eq!(cast_heal(0, &all_seen(), &mut game, &mut objects), UseResult::UsedUp);
    assert_eq!(objects[0].fighter.unwrap().hp, 30);
}

#[test]
fn a_healing_potion_is_kept_at_full_health() {
    let mut game = open_game();
    let mut objects = vec![hero(1, 1)];
    let before = objects.clone();
    assert_eq!(cast_heal(0, &all_seen(), &mut game, &mut objects), UseResult::Cancelled);
    assert_eq!(objects, before);
    assert_eq!(kinds(&game), vec![MessageKind::FullHealth]);
}

#[test]
fn a_mana_potion_restores_ten() {
    let mut game = open_game();
    let mut objects = vec![hero(1, 1)];
    set_mana(&mut objects[0], 5);
    assert_eq!(cast_mana(0, &all_seen(), &mut game, &mut objects), UseResult::UsedUp);
    assert_eq!(objects[0].fighter.unwrap().mana, 15);
    assert_eq!(kinds(&game), vec![MessageKind::ManaRestored]);
}

#[test]
fn a_mana_potion_is_kept_at_full_mana() {
    let mut game = open_game();
    let mut objects = vec![hero(1, 1)];
    objects[0].fighter.as_mut().unwrap().max_hp = 50;
    let before = objects.clone();
    assert_eq!(cast_mana(0, &all_seen(), &mut game, &mut objects), UseResult::Cancelled);
    assert_eq!(objects, before);
    assert_eq!(kinds(&game), vec![MessageKind::FullMana]);
}

#[test]
fn potions_pass_by_who_cannot_fight() {
    let mut game = open_game();
    let mut objects = vec![Object::new(1, 1, '@', Color::White, "ghost", true)];
    let before = objects.clone();
    assert_eq!(cast_heal(0, &all_seen(), &mut game, &mut objects), UseResult::Cancelled);
    assert_eq!(cast_mana(0, &all_seen(), &mut game, &mut objects), UseResult::Cancelled);
    assert_eq!(objects, before);
    assert!(game.messages.entries.is_empty());
}

#[test]
fn a_lightning_scroll_strikes_the_nearest_monster() {
    let mut game = open_game();
    let mut objects = vec![hero(1, 1), tough(5, 1, 50), tough(3, 1, 50), ork(1, 3)];
    assert_eq!(cast_lightning(0, &all_seen(), &mut game, &mut objects), UseResult::UsedUp);
    assert_eq!(objects[1].fighter.unwrap().hp, 50);
    assert_eq!(objects[2].fighter.unwrap().hp, 10);
    assert_eq!(objects[3].fighter.unwrap().hp, 10);
    assert_eq!(
        game.messages.entries,
        vec![Message {
            kind: MessageKind::LightningStrike,
            subject: "ogre".to_string(),
            other: String::new(),
            amount: 40,
        }]
    );
}

#[test]
fn a_lightning_scroll_gives_no_experience() {
    let mut game = open_game();
    let mut objects = vec![hero(1, 1), ork(2, 2)];
    assert_eq!(cast_lightning(0, &all_seen(), &mut game, &mut objects), UseResult::UsedUp);
    assert!(!objects[1].alive);
    assert_eq!(objects[0].fighter.unwrap().xp, 0);
    assert_eq!(kinds(&game), vec![MessageKind::LightningStrike, MessageKind::MonsterDied]);
}

#[test]
fn a_lightning_scroll_needs_a_monster_within_five() {
    let mut game = open_game();
    let mut objects = vec![hero(1, 1), ork(7, 1)];
    let before = objects.clone();
    assert_eq!(cast_lightning(0, &all_seen(), &mut game, &mut objects), UseResult::Cancelled);
    assert_eq!(objects, before);
    assert_eq!(kinds(&game), vec![MessageKind::NoEnemyInRange]);
    objects[1].set_pos(6, 1);
    assert_eq!(cast_lightning(0, &all_seen(), &mut game, &mut objects), UseResult::UsedUp);
}

#[test]
fn a_vision_scroll_reveals_the_level() {
    let mut game = open_game();
    game.map.set(3, 3, Tile::wall());
    let mut objects = vec![hero(1, 1)];
    assert_eq!(cast_vision(0, &all_seen(), &mut game, &mut objects), UseResult::UsedUp);
    for column in &game.map.tiles {
        for tile in column {
            assert!(tile.explored);
        }
    }
    assert!(game.map.tile(3, 3).blocked);
    assert!(!game.map.tile(3, 4).blocked);
}

#[test]
fn a_used_item_leaves_the_inventory() {
    let mut game = open_game();
    game.inventory = vec![thing(Some(Item::Mana), "mana potion"), thing(Some(Item::Heal), "healing potion"), thing(Some(Item::Vision), "vision scroll")];
    let mut objects = vec![hero(1, 1)];
    set_hp(&mut objects[0], 20);
    use_item(1, &all_seen(), &mut game, &mut objects);
    assert_eq!(objects[0].fighter.unwrap().hp, 24);
    assert_eq!(game.inventory.len(), 2);
    assert_eq!(game.inventory[0].name, "mana potion");
    assert_eq!(game.inventory[1].name, "vision scroll");
    assert_eq!(kinds(&game), vec![MessageKind::Healed]);
}

#[test]
fn an_item_without_effect_stays_in_the_inventory() {
    let mut game = open_game();
    game.inventory = vec![thing(Some(Item::Heal), "healing potion"), thing(Some(Item::Lightning), "lightning scroll")];
    let mut objects = vec![hero(1, 1)];
    let before = (game.inventory.clone(), objects.clone());
    use_item(0, &all_seen(), &mut game, &mut objects);
    assert_eq!(kinds(&game), vec![MessageKind::FullHealth, MessageKind::Cancelled]);
    use_item(1, &all_seen(), &mut game, &mut objects);
    assert_eq!(
        kinds(&game),
        vec![MessageKind::FullHealth, MessageKind::Cancelled, MessageKind::NoEnemyInRange, MessageKind::Cancelled]
    );
    assert_eq!((game.inventory.clone(), objects.clone()), before);
}

#[test]
fn what_is_no_item_cannot_be_used() {
    let mut game = open_game();
    game.inventory = vec![thing(None, "pebble")];
    let mut objects = vec![hero(1, 1)];
    use_item(0, &all_seen(), &mut game, &mut objects);
    assert_eq!(game.inventory.len(), 1);
    assert_eq!(
        game.messages.entries,
        vec![Message { kind: MessageKind::CannotUse, subject: "pebble".to_string(), other: String::new(), amount: 0 }]
    );
}

#[test]
fn an_entry_that_does_not_exist_is_a_cancelled_choice() {
    let mut game = open_game();
    game.inventory = vec![thing(Some(Item::Heal), "healing potion")];
    let mut objects = vec![hero(1, 1)];
    let before = (game.inventory.clone(), objects.clone());
    use_item(1, &all_seen(), &mut game, &mut objects);
    drop_item(7, &mut game, &mut objects);
    assert_eq!((game.inventory.clone(), objects.clone()), before);
    assert_eq!(kinds(&game), vec![MessageKind::Cancelled, MessageKind::Cancelled]);
}

#[test]
fn a_dropped_item_lies_under_the_player() {
    let mut game = open_game();
    game.inventory = vec![thing(Some(Item::Mana), "mana potion"), thing(Some(Item::Heal), "healing potion")];
    let mut objects = vec![hero(4, 6), ork(8, 8)];
    drop_item(0, &mut game, &mut objects);
    assert_eq!(game.inventory.len(), 1);
    assert_eq!(game.inventory[0].name, "healing potion");
    assert_eq!(objects.len(), 3);
    let mut dropped = thing(Some(Item::Mana), "mana potion");
    dropped.set_pos(4, 6);
    assert_eq!(objects[2], dropped);
    assert_eq!(
        game.messages.entries,
        vec![Message { kind: MessageKind::Dropped, subject: "mana potion".to_string(), other: String::new(), amount: 0 }]
    );
}

#[test]
fn spells_have_names_and_costs() {
    let all = [Spells::Heal, Spells::Lightning, Spells::Freeze, Spells::Fireball, Spells::Wall];
    let names: Vec<String> = all.iter().map(|s| s.name()).collect();
    assert_eq!(names, vec!["Heal", "Lightning", "Freeze", "Fireball", "Wall"]);
    let costs: Vec<i32> = all.iter().map(|s| s.cost()).collect();
    assert_eq!(costs, vec![5, 10, 5, 7, 5]);
    let aimed: Vec<bool> = all.iter().map(|s| s.needs_target()).collect();
    assert_eq!(aimed, vec![false, false, false, true, true]);
}

#[test]
fn perks_have_names() {
    let all = [Perks::Scavenger, Perks::MagicCannon, Perks::FireImmunity, Perks::FreezeImmunity];
    let names: Vec<String> = all.iter().map(|p| p.name()).collect();
    assert_eq!(names, vec!["Scavenger", "MagicCannon", "FireImmunity", "FreezeImmunity"]);
}

#[test]
fn the_healing_spell_costs_five_and_heals_four() {
    let mut game = open_game();
    let mut objects = vec![hero(1, 1)];
    set_hp(&mut objects[0], 10);
    assert_eq!(cast_spell(Spells::Heal, None, &all_seen(), &mut game, &mut objects), UseResult::UsedUp);
    assert_eq!(objects[0].fighter.unwrap().hp, 14);
    assert_eq!(objects[0].fighter.unwrap().mana, 25);
    assert_eq!(kinds(&game), vec![MessageKind::Healed]);
}

#[test]
fn the_healing_spell_is_not_cast_at_full_health() {
    let mut game = open_game();
    let mut objects = vec![hero(1, 1)];
    let before = objects.clone();
    assert_eq!(cast_spell(Spells::Heal, None, &all_seen(), &mut game, &mut objects), UseResult::Cancelled);
    assert_eq!(objects, before);
    assert_eq!(kinds(&game), vec![MessageKind::FullHealth]);
}

#[test]
fn a_spell_is_refused_for_want_of_mana() {
    for (spell, cost) in [(Spells::Heal, 5), (Spells::Lightning, 10), (Spells::Freeze, 5), (Spells::Fireball, 7), (Spells::Wall, 5)] {
        let mut game = open_game();
        let mut objects = vec![hero(1, 1), ork(2, 2)];
        set_hp(&mut objects[0], 10);
        set_mana(&mut objects[0], cost - 1);
        let before = objects.clone();
        let result = cast_spell(spell, Some((2, 2)), &all_seen(), &mut game, &mut objects);
        assert_eq!(result, UseResult::Cancelled);
        assert_eq!(objects, before);
        assert_eq!(
            game.messages.entries,
            vec![Message { kind: MessageKind::NotEnoughMana, subject: spell.name(), other: String::new(), amount: cost }]
        );
        let mut game = open_game();
        set_mana(&mut objects[0], cost);
        let result = cast_spell(spell, Some((2, 2)), &all_seen(), &mut game, &mut objects);
        assert_eq!(result, UseResult::UsedUp);
    }
}

#[test]
fn the_lightning_spell_rewards_a_kill() {
    let mut game = open_game();
    let mut objects = vec![hero(1, 1), tough(4, 1, 50), ork(1, 3)];
    assert_eq!(cast_spell(Spells::Lightning, None, &all_seen(), &mut game, &mut objects), UseResult::UsedUp);
    assert!(!objects[2].alive);
    assert_eq!(objects[1].fighter.unwrap().hp, 50);
    assert_eq!(objects[0].fighter.unwrap().xp, 35);
    assert_eq!(objects[0].fighter.unwrap().mana, 20);
    assert_eq!(kinds(&game), vec![MessageKind::LightningStrike, MessageKind::MonsterDied]);
    assert_eq!(cast_spell(Spells::Lightning, None, &all_seen(), &mut game, &mut objects), UseResult::UsedUp);
    assert_eq!(objects[1].fighter.unwrap().hp, 10);
    assert_eq!(objects[0].fighter.unwrap().xp, 35);
    assert_eq!(objects[0].fighter.unwrap().mana, 10);
}

#[test]
fn the_lightning_spell_is_free_without_a_target() {
    let mut game = open_game();
    let mut fov = all_seen();
    fov.set(2, 2, false);
    let mut objects = vec![hero(1, 1), ork(2, 2)];
    let before = objects.clone();
    assert_eq!(cast_spell(Spells::Lightning, None, &fov, &mut game, &mut objects), UseResult::Cancelled);
    assert_eq!(objects, before);
    assert_eq!(kinds(&game), vec![MessageKind::NoEnemyInRange]);
}

#[test]
fn the_freezing_spell_freezes_within_four() {
    let mut game = open_game();
    let mut potion = thing(Some(Item::Heal), "healing potion");
    potion.set_pos(2, 1);
    let mut burning = tough(1, 2, 20);
    burning.effect = Some(StatusEffect { effect: Effect::Burning, turns_left: 9 });
    let mut objects = vec![hero(1, 1), ork(5, 1), ork(6, 1), potion.clone(), ork(3, 4), ork(4, 4), burning];
    assert_eq!(cast_spell(Spells::Freeze, None, &all_seen(), &mut game, &mut objects), UseResult::UsedUp);
    let frozen = Some(StatusEffect { effect: Effect::Frozen, turns_left: 3 });
    assert_eq!(objects[0].effect, None);
    assert_eq!(objects[0].fighter.unwrap().mana, 25);
    assert_eq!(objects[1].effect, frozen);
    assert_eq!(objects[2].effect, None);
    assert_eq!(objects[3], potion);
    assert_eq!(objects[4].effect, frozen);
    assert_eq!(objects[5].effect, None);
    assert_eq!(objects[6].effect, frozen);
    assert_eq!(
        kinds(&game),
        vec![MessageKind::FreezeCast, MessageKind::Frozen, MessageKind::Frozen, MessageKind::Frozen]
    );
    assert_eq!(game.messages.entries[3].subject, "ogre");
    assert_eq!(game.messages.entries[3].amount, 3);
}

#[test]
fn the_freezing_spell_alone_still_costs() {
    let mut game = open_game();
    let mut objects = vec![hero(1, 1)];
    assert_eq!(cast_spell(Spells::Freeze, None, &all_seen(), &mut game, &mut objects), UseResult::UsedUp);
    assert_eq!(objects[0].fighter.unwrap().mana, 25);
    assert_eq!(kinds(&game), vec![MessageKind::FreezeCast]);
}

#[test]
fn a_fireball_burns_within_three_of_its_target() {
    let mut game = open_game();
    let mut objects = vec![hero(1, 1), ork(6, 6), tough(6, 9, 20), ork(6, 10), ork(8, 8), ork(9, 8)];
    let result = cast_spell(Spells::Fireball, Some((6, 6)), &all_seen(), &mut game, &mut objects);
    assert_eq!(result, UseResult::UsedUp);
    assert_eq!(objects[0].fighter.unwrap().hp, 30);
    assert_eq!(objects[0].fighter.unwrap().mana, 30);
    assert_eq!(objects[0].fighter.unwrap().xp, 70);
    assert!(!objects[1].alive);
    assert_eq!(objects[2].fighter.unwrap().hp, 8);
    assert_eq!(objects[3].fighter.unwrap().hp, 10);
    assert!(!objects[4].alive);
    assert_eq!(objects[5].fighter.unwrap().hp, 10);
    assert_eq!(
        kinds(&game),
        vec![
            MessageKind::FireballExplodes,
            MessageKind::Burned,
            MessageKind::MonsterDied,
            MessageKind::Burned,
            MessageKind::Burned,
            MessageKind::MonsterDied,
        ]
    );
    assert_eq!(game.messages.entries[0].amount, 3);
    assert_eq!(game.messages.entries[1].amount, 12);
    assert_eq!(game.messages.entries[3].subject, "ogre");
}

#[test]
fn a_fireball_burns_its_caster_too() {
    let mut game = open_game();
    let mut objects = vec![hero(1, 1), ork(2, 2)];
    let result = cast_spell(Spells::Fireball, Some((1, 2)), &all_seen(), &mut game, &mut objects);
    assert_eq!(result, UseResult::UsedUp);
    assert_eq!(objects[0].fighter.unwrap().hp, 18);
    assert_eq!(objects[0].fighter.unwrap().xp, 35);
    assert!(!objects[1].alive);
    assert_eq!(
        kinds(&game),
        vec![MessageKind::FireballExplodes, MessageKind::Burned, MessageKind::Burned, MessageKind::MonsterDied]
    );
}

#[test]
fn a_fireball_without_target_is_not_cast() {
    let mut game = open_game();
    let mut objects = vec![hero(1, 1), ork(2, 2)];
    let before = objects.clone();
    assert_eq!(cast_spell(Spells::Fireball, None, &all_seen(), &mut game, &mut objects), UseResult::Cancelled);
    assert_eq!(objects, before);
    assert!(game.messages.entries.is_empty());
}

#[test]
fn a_wall_stands_on_its_target_and_costs_five() {
    let mut game = open_game();
    let mut objects = vec![hero(1, 1), ork(2, 2)];
    let result = cast_spell(Spells::Wall, Some((4, 5)), &all_seen(), &mut game, &mut objects);
    assert_eq!(result, UseResult::UsedUp);
    assert_eq!(objects.len(), 3);
    assert_eq!(objects[0].fighter.unwrap().mana, 25);
    let mut wall = Object::new(4, 5, 'w', Color::Brass, "wall", true);
    wall.alive = true;
    wall.fighter = Some(Fighter { max_hp: 1, hp: 1, max_mana: 0, mana: 0, defense: 0, power: 0, xp: 0, on_death: DeathCallback::Monster });
    assert_eq!(objects[2], wall);
    assert_eq!(kinds(&game), vec![MessageKind::WallRaised]);
    let (attacker, target) = objects.split_at_mut(2);
    let outcome = attacker[0].attack(&mut target[0], &mut game);
    assert!(outcome.defender_died);
    assert_eq!(outcome.xp_awarded, 0);
    assert!(!objects[2].blocks);
}

#[test]
fn a_wall_without_target_costs_nothing() {
    let mut game = open_game();
    let mut objects = vec![hero(1, 1)];
    let before = objects.clone();
    assert_eq!(cast_spell(Spells::Wall, None, &all_seen(), &mut game, &mut objects), UseResult::Cancelled);
    assert_eq!(objects, before);
    assert!(game.messages.entries.is_empty());
}

#[test]
fn an_aimed_spell_asks_for_its_target() {
    let mut game = open_game();
    let mut objects = vec![hero(1, 1)];
    assert_eq!(begin_cast(Spells::Heal, &mut game, &objects), CastRequest::Ready);
    assert_eq!(begin_cast(Spells::Lightning, &mut game, &objects), CastRequest::Ready);
    assert_eq!(begin_cast(Spells::Freeze, &mut game, &objects), CastRequest::Ready);
    assert!(game.messages.entries.is_empty());
    assert_eq!(begin_cast(Spells::Fireball, &mut game, &objects), CastRequest::NeedsTarget);
    assert_eq!(begin_cast(Spells::Wall, &mut game, &objects), CastRequest::NeedsTarget);
    assert_eq!(kinds(&game), vec![MessageKind::FireballPrompt, MessageKind::WallPrompt]);
    set_mana(&mut objects[0], 6);
    assert_eq!(begin_cast(Spells::Fireball, &mut game, &objects), CastRequest::Refused);
    assert_eq!(begin_cast(Spells::Wall, &mut game, &objects), CastRequest::NeedsTarget);
    set_mana(&mut objects[0], 4);
    assert_eq!(begin_cast(Spells::Wall, &mut game, &objects), CastRequest::Refused);
    assert_eq!(begin_cast(Spells::Heal, &mut game, &objects), CastRequest::Ready);
    assert_eq!(
        kinds(&game),
        vec![
            MessageKind::FireballPrompt,
            MessageKind::WallPrompt,
            MessageKind::NotEnoughMana,
            MessageKind::WallPrompt,
            MessageKind::NotEnoughMana,
        ]
    );
    assert_eq!(game.messages.entries[2].subject, "Fireball");
    assert_eq!(game.messages.entries[4].subject, "Wall");
}

#[test]
fn the_scavenger_eats_and_heals_five() {
    let mut game = open_game();
    let mut corpse = ork(1, 1);
    corpse.name = "remains of ork".to_string();
    corpse.glyph = '%';
    let mut objects = vec![hero(1, 1), ork(4, 4), corpse, ork(5, 5)];
    set_hp(&mut objects[0], 20);
    trigger_scavenger(2, &mut game, &mut objects);
    assert_eq!(objects.len(), 3);
    assert_eq!(objects[0].fighter.unwrap().hp, 25);
    assert_eq!(objects[1].pos(), (4, 4));
    assert_eq!(objects[2].pos(), (5, 5));
    assert_eq!(
        game.messages.entries,
        vec![Message { kind: MessageKind::Ate, subject: "remains of ork".to_string(), other: String::new(), amount: 0 }]
    );
}

#[test]
fn the_magic_cannon_trades_health_for_mana() {
    let mut game = open_game();
    let mut objects = vec![hero(1, 1)];
    set_mana(&mut objects[0], 12);
    trigger_magic_cannon(&mut game, &mut objects);
    let fighter = objects[0].fighter.unwrap();
    assert_eq!((fighter.max_mana, fighter.mana, fighter.max_hp, fighter.hp), (60, 24, 10, 10));
    assert_eq!((fighter.power, fighter.defense, fighter.xp), (5, 2, 0));
    assert_eq!(kinds(&game), vec![MessageKind::MagicCannon]);
}
