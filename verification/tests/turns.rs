use wizard_dungeon::engine::{
    character_sheet, handle_keys, play_turn, player_on_stairs, run_monsters, Cheat, CharacterSheet,
    Direction, PlayerIntent,
};
use wizard_dungeon::fov::FovMap;
use wizard_dungeon::game::{check_level_up, check_status_effect, level_up, new_game, next_level, Game};
use wizard_dungeon::map::{Tile, TileGrid};
use wizard_dungeon::object::items::Item;
use wizard_dungeon::object::perks::Perks;
use wizard_dungeon::object::spells::Spells;
use wizard_dungeon::object::{
    Ai, Color, DeathCallback, Effect, Fighter, MessageKind, Messages, Object, PlayerAction, StatusEffect,
};

fn open_game() -> Game {
    Game {
        map: TileGrid::filled(12, 12, Tile::empty()),
        messages: Messages::new(),
        inventory: vec![],
        dungeon_level: 1,
        spells: vec![Spells::Heal, Spells::Lightning, Spells::Freeze],
        unknown_spells: vec![Spells::Fireball, Spells::Wall],
        perks: vec![],
        unobtained_perks: vec![Perks::MagicCannon, Perks::Scavenger],
    }
}

fn all_seen() -> FovMap {
    FovMap { cells: vec![vec![true; 12]; 12] }
}

fn hero(x: i32, y: i32) -> Object {
    let mut player = Object::new(x, y, '@', Color::White, "player", true);
    player.alive = true;
    player.fighter = Some(Fighter {
        max_hp: 30,
        hp: 30,
        max_mana: 30,
        mana: 30,
        defense: 2,
        power: 5,
        xp: 0,
        on_death: DeathCallback::Player,
    });
    player
}

fn ork(x: i32, y: i32) -> Object {
    let mut monster = Object::new(x, y, 'o', Color::DesaturatedGreen, "ork", true);
    monster.alive = true;
    monster.fighter = Some(Fighter {
        max_hp: 10,
        hp: 10,
        max_mana: 0,
        mana: 0,
        defense: 0,
        power: 3,
        xp: 35,
        on_death: DeathCallback::Monster,
    });
    monster.ai = Some(Ai::Basic);
    monster
}

fn potion(x: i32, y: i32) -> Object {
    let mut o = Object::new(x, y, '!', Color::Violet, "healing potion", false);
    o.item = Some(Item::Heal);
    o.always_visible = true;
    o
}

fn stairs(x: i32, y: i32) -> Object {
    let mut o = Object::new(x, y, '<', Color::White, "stairs", false);
    o.always_visible = true;
    o
}

fn kinds(game: &Game) -> Vec<MessageKind> {
    game.messages.entries.iter().map(|m| m.kind).collect()
}

fn set_xp(o: &mut Object, xp: i32) {
    o.fighter.as_mut().unwrap().xp = xp;
}

#[test]
fn a_new_game_starts_on_the_first_level() {
    let (game, objects) = new_game();
    assert_eq!(game.dungeon_level, 1);
    assert!(game.inventory.is_empty());
    assert_eq!(game.spells, vec![Spells::Heal, Spells::Lightning, Spells::Freeze]);
    assert_eq!(game.unknown_spells, vec![Spells::Fireball, Spells::Wall]);
    assert!(game.perks.is_empty());
    assert_eq!(game.unobtained_perks, vec![Perks::MagicCannon, Perks::Scavenger]);
    assert_eq!(kinds(&game), vec![MessageKind::Welcome]);
    assert_eq!(game.map.tiles.len(), 80);
    assert_eq!(game.map.tiles[0].len(), 43);
    let mut player = hero(0, 0);
    player.set_pos(objects[0].x, objects[0].y);
    assert_eq!(objects[0], player);
    assert!(!game.map.tile(objects[0].x, objects[0].y).blocked);
    assert_eq!(objects[objects.len() - 1].name, "stairs");
}

#[test]
fn a_descent_heals_half_and_rewards_the_level() {
    let mut game = open_game();
    let mut objects = vec![hero(3, 3), ork(5, 5), stairs(3, 3)];
    objects[0].fighter.as_mut().unwrap().hp = 10;
    objects[0].fighter.as_mut().unwrap().mana = 20;
    game.inventory.push(potion(0, 0));
    next_level(&mut game, &mut objects);
    let fighter = objects[0].fighter.unwrap();
    assert_eq!(fighter.hp, 25);
    assert_eq!(fighter.mana, 30);
    assert_eq!(fighter.xp, 350);
    assert_eq!(fighter.max_hp, 30);
    assert_eq!(game.dungeon_level, 2);
    assert_eq!(game.inventory, vec![potion(0, 0)]);
    assert_eq!(kinds(&game), vec![MessageKind::Rest, MessageKind::Descend]);
    assert_eq!(game.map.tiles.len(), 80);
    assert_eq!(objects[0].name, "player");
    assert_eq!(objects[objects.len() - 1].name, "stairs");
    assert!(objects[1..].iter().all(|o| *o != ork(5, 5)));
    next_level(&mut game, &mut objects);
    assert_eq!(objects[0].fighter.unwrap().xp, 1050);
    assert_eq!(objects[0].fighter.unwrap().hp, 30);
    assert_eq!(game.dungeon_level, 3);
}

#[test]
fn a_descent_rounds_half_an_odd_maximum_down() {
    let mut game = open_game();
    let mut objects = vec![hero(3, 3)];
    objects[0].fighter.as_mut().unwrap().max_hp = 31;
    objects[0].fighter.as_mut().unwrap().hp = 1;
    objects[0].fighter.as_mut().unwrap().max_mana = 9;
    objects[0].fighter.as_mut().unwrap().mana = 0;
    game.dungeon_level = 4;
    next_level(&mut game, &mut objects);
    let fighter = objects[0].fighter.unwrap();
    assert_eq!((fighter.hp, fighter.mana, fighter.xp), (16, 4, 1400));
    assert_eq!(game.dungeon_level, 5);
}

#[test]
fn the_level_up_gate_opens_at_the_threshold() {
    let mut objects = vec![hero(1, 1)];
    set_xp(&mut objects[0], 349);
    assert!(!check_level_up(&objects));
    set_xp(&mut objects[0], 350);
    assert!(check_level_up(&objects));
    objects[0].level = 3;
    set_xp(&mut objects[0], 649);
    assert!(!check_level_up(&objects));
    set_xp(&mut objects[0], 650);
    assert!(check_level_up(&objects));
    objects[0].level = 0;
    set_xp(&mut objects[0], 199);
    assert!(!check_level_up(&objects));
    set_xp(&mut objects[0], 200);
    assert!(check_level_up(&objects));
}

#[test]
fn levelling_up_below_the_threshold_does_nothing() {
    let mut game = open_game();
    let mut objects = vec![hero(1, 1)];
    set_xp(&mut objects[0], 349);
    let before = objects.clone();
    assert!(!level_up(0, &mut game, &mut objects));
    assert_eq!(objects, before);
    assert!(game.messages.entries.is_empty());
}

#[test]
fn more_health_is_the_first_reward() {
    let mut game = open_game();
    let mut objects = vec![hero(1, 1)];
    set_xp(&mut objects[0], 360);
    objects[0].fighter.as_mut().unwrap().hp = 12;
    assert!(level_up(0, &mut game, &mut objects));
    let fighter = objects[0].fighter.unwrap();
    assert_eq!(objects[0].level, 2);
    assert_eq!((fighter.max_hp, fighter.hp, fighter.max_mana, fighter.mana, fighter.xp), (50, 32, 30, 30, 10));
    assert_eq!(kinds(&game), vec![MessageKind::LevelUp]);
    assert_eq!(game.messages.entries[0].amount, 2);
    assert!(!level_up(0, &mut game, &mut objects));
}

#[test]
fn more_mana_is_the_second_reward() {
    let mut game = open_game();
    let mut objects = vec![hero(1, 1)];
    set_xp(&mut objects[0], 350);
    assert!(level_up(1, &mut game, &mut objects));
    let fighter = objects[0].fighter.unwrap();
    assert_eq!((fighter.max_hp, fighter.hp, fighter.max_mana, fighter.mana, fighter.xp), (30, 30, 50, 50, 0));
    assert_eq!(game.spells.len(), 3);
}

#[test]
fn a_spell_can_be_learnt_as_reward() {
    let mut game = open_game();
    let mut objects = vec![hero(1, 1)];
    set_xp(&mut objects[0], 1000);
    assert!(level_up(3, &mut game, &mut objects));
    assert_eq!(game.spells, vec![Spells::Heal, Spells::Lightning, Spells::Freeze, Spells::Wall]);
    assert_eq!(game.unknown_spells, vec![Spells::Fireball]);
    assert_eq!(objects[0].fighter.unwrap().xp, 650);
    assert_eq!(objects[0].level, 2);
    assert!(!level_up(3, &mut game, &mut objects));
    assert!(level_up(2, &mut game, &mut objects));
    assert_eq!(game.spells, vec![Spells::Heal, Spells::Lightning, Spells::Freeze, Spells::Wall, Spells::Fireball]);
    assert!(game.unknown_spells.is_empty());
    assert_eq!(objects[0].fighter.unwrap().xp, 150);
    assert_eq!(objects[0].level, 3);
}

#[test]
fn a_reward_that_does_not_exist_is_asked_for_again() {
    let mut game = open_game();
    let mut objects = vec![hero(1, 1)];
    set_xp(&mut objects[0], 350);
    let before = objects.clone();
    assert!(!level_up(4, &mut game, &mut objects));
    assert!(!level_up(usize::MAX, &mut game, &mut objects));
    assert_eq!(objects, before);
    assert!(check_level_up(&objects));
    assert!(game.messages.entries.is_empty());
}

#[test]
fn the_player_burns_down_turn_by_turn() {
    let mut game = open_game();
    let mut objects = vec![hero(1, 1)];
    objects[0].effect = Some(StatusEffect { effect: Effect::Burning, turns_left: 1 });
    check_status_effect(&mut game, &mut objects);
    assert_eq!(objects[0].effect, Some(StatusEffect { effect: Effect::Burning, turns_left: 0 }));
    assert_eq!(objects[0].fighter.unwrap().hp, 29);
    assert_eq!(kinds(&game), vec![MessageKind::BurningDamage]);
    check_status_effect(&mut game, &mut objects);
    assert_eq!(objects[0].effect, None);
    assert_eq!(objects[0].fighter.unwrap().hp, 29);
    assert_eq!(kinds(&game), vec![MessageKind::BurningDamage]);
    check_status_effect(&mut game, &mut objects);
    assert_eq!(objects[0].fighter.unwrap().hp, 29);
}

#[test]
fn the_player_can_burn_to_death() {
    let mut game = open_game();
    let mut objects = vec![hero(1, 1)];
    objects[0].fighter.as_mut().unwrap().hp = 1;
    objects[0].effect = Some(StatusEffect { effect: Effect::Burning, turns_left: 5 });
    check_status_effect(&mut game, &mut objects);
    assert!(!objects[0].alive);
    assert_eq!(objects[0].effect.unwrap().turns_left, 4);
    assert_eq!(kinds(&game), vec![MessageKind::BurningDamage, MessageKind::PlayerDied]);
}

#[test]
fn the_player_thaws_turn_by_turn() {
    let mut game = open_game();
    let mut objects = vec![hero(1, 1)];
    objects[0].effect = Some(StatusEffect { effect: Effect::Frozen, turns_left: 1 });
    check_status_effect(&mut game, &mut objects);
    assert_eq!(objects[0].effect, Some(StatusEffect { effect: Effect::Frozen, turns_left: 0 }));
    check_status_effect(&mut game, &mut objects);
    assert_eq!(objects[0].effect, None);
    assert_eq!(objects[0].fighter.unwrap().hp, 30);
    assert!(game.messages.entries.is_empty());
}

#[test]
fn moving_takes_the_turn() {
    let mut game = open_game();
    let mut objects = vec![hero(5, 5)];
    for (direction, place) in [
        (Direction::Up, (5, 4)),
        (Direction::Left, (4, 4)),
        (Direction::Down, (4, 5)),
        (Direction::Right, (5, 5)),
    ] {
        assert_eq!(direction.step(), (place.0 - objects[0].x, place.1 - objects[0].y));
        let action = handle_keys(PlayerIntent::Move(direction), &all_seen(), &mut game, &mut objects);
        assert_eq!(action, PlayerAction::TookTurn);
        assert_eq!(objects[0].pos(), place);
    }
}

#[test]
fn moving_into_a_monster_attacks_it() {
    let mut game = open_game();
    let mut objects = vec![hero(5, 5), ork(6, 5)];
    let action = handle_keys(PlayerIntent::Move(Direction::Right), &all_seen(), &mut game, &mut objects);
    assert_eq!(action, PlayerAction::TookTurn);
    assert_eq!(objects[0].pos(), (5, 5));
    assert_eq!(objects[1].fighter.unwrap().hp, 5);
}

#[test]
fn waiting_takes_the_turn_and_changes_nothing() {
    let mut game = open_game();
    let mut objects = vec![hero(5, 5), ork(9, 9)];
    let before = objects.clone();
    assert_eq!(handle_keys(PlayerIntent::Wait, &all_seen(), &mut game, &mut objects), PlayerAction::TookTurn);
    assert_eq!(objects, before);
}

#[test]
fn leaving_always_works() {
    let mut game = open_game();
    let mut objects = vec![hero(5, 5)];
    assert_eq!(handle_keys(PlayerIntent::Exit, &all_seen(), &mut game, &mut objects), PlayerAction::Exit);
    objects[0].alive = false;
    assert_eq!(handle_keys(PlayerIntent::Exit, &all_seen(), &mut game, &mut objects), PlayerAction::Exit);
    assert_eq!(play_turn(PlayerIntent::Exit, &all_seen(), &mut game, &mut objects), PlayerAction::Exit);
}

#[test]
fn the_dead_do_nothing() {
    let mut game = open_game();
    game.inventory.push(potion(0, 0));
    let mut objects = vec![hero(5, 5), ork(6, 5), potion(5, 5), stairs(5, 5)];
    objects[0].alive = false;
    let before = (objects.clone(), game.inventory.clone());
    for intent in [
        PlayerIntent::Move(Direction::Right),
        PlayerIntent::UseItem(0),
        PlayerIntent::DropItem(0),
        PlayerIntent::CastSpell(2, None),
        PlayerIntent::PickUp,
        PlayerIntent::Descend,
        PlayerIntent::Wait,
        PlayerIntent::OpenCheat(Cheat::GainExperience),
    ] {
        assert_eq!(handle_keys(intent, &all_seen(), &mut game, &mut objects), PlayerAction::DidntTakeTurn);
        assert_eq!((objects.clone(), game.inventory.clone()), before);
    }
    assert!(game.messages.entries.is_empty());
    assert_eq!(game.dungeon_level, 1);
}

#[test]
fn the_whole_level_can_be_revealed_even_when_dead() {
    let mut game = open_game();
    let mut objects = vec![hero(5, 5)];
    objects[0].alive = false;
    let action = handle_keys(PlayerIntent::OpenCheat(Cheat::RevealMap), &all_seen(), &mut game, &mut objects);
    assert_eq!(action, PlayerAction::DidntTakeTurn);
    assert!(game.map.tiles.iter().flatten().all(|t| t.explored));
}

#[test]
fn the_cheat_gives_a_hundred_experience() {
    let mut game = open_game();
    let mut objects = vec![hero(5, 5)];
    let action = handle_keys(PlayerIntent::OpenCheat(Cheat::GainExperience), &all_seen(), &mut game, &mut objects);
    assert_eq!(action, PlayerAction::DidntTakeTurn);
    assert_eq!(objects[0].fighter.unwrap().xp, 100);
}

#[test]
fn picking_up_takes_the_first_item_underfoot() {
    let mut game = open_game();
    let mut scroll = potion(5, 5);
    scroll.name = "vision scroll".to_string();
    scroll.item = Some(Item::Vision);
    let mut objects = vec![hero(5, 5), potion(4, 5), scroll.clone(), potion(5, 5), ork(8, 8)];
    let action = handle_keys(PlayerIntent::PickUp, &all_seen(), &mut game, &mut objects);
    assert_eq!(action, PlayerAction::DidntTakeTurn);
    assert_eq!(game.inventory, vec![scroll]);
    assert_eq!(objects, vec![hero(5, 5), potion(4, 5), ork(8, 8), potion(5, 5)]);
    handle_keys(PlayerIntent::PickUp, &all_seen(), &mut game, &mut objects);
    assert_eq!(game.inventory.len(), 2);
    assert_eq!(objects, vec![hero(5, 5), potion(4, 5), ork(8, 8)]);
    handle_keys(PlayerIntent::PickUp, &all_seen(), &mut game, &mut objects);
    assert_eq!(game.inventory.len(), 2);
    assert_eq!(objects.len(), 3);
}

#[test]
fn using_and_dropping_do_not_take_the_turn() {
    let mut game = open_game();
    game.inventory = vec![potion(0, 0), potion(0, 0)];
    let mut objects = vec![hero(5, 5)];
    objects[0].fighter.as_mut().unwrap().hp = 3;
    assert_eq!(handle_keys(PlayerIntent::UseItem(0), &all_seen(), &mut game, &mut objects), PlayerAction::DidntTakeTurn);
    assert_eq!(objects[0].fighter.unwrap().hp, 7);
    assert_eq!(game.inventory.len(), 1);
    assert_eq!(handle_keys(PlayerIntent::DropItem(0), &all_seen(), &mut game, &mut objects), PlayerAction::DidntTakeTurn);
    assert!(game.inventory.is_empty());
    assert_eq!(objects[1], potion(5, 5));
}

#[test]
fn a_spell_takes_the_turn_only_when_cast() {
    let mut game = open_game();
    let mut objects = vec![hero(5, 5), ork(6, 6)];
    let fov = all_seen();
    assert_eq!(handle_keys(PlayerIntent::CastSpell(0, None), &fov, &mut game, &mut objects), PlayerAction::DidntTakeTurn);
    assert_eq!(handle_keys(PlayerIntent::CastSpell(2, None), &fov, &mut game, &mut objects), PlayerAction::TookTurn);
    assert_eq!(objects[1].effect.unwrap().turns_left, 3);
    assert_eq!(handle_keys(PlayerIntent::CastSpell(1, None), &fov, &mut game, &mut objects), PlayerAction::TookTurn);
    assert!(!objects[1].alive);
    assert_eq!(handle_keys(PlayerIntent::CastSpell(3, None), &fov, &mut game, &mut objects), PlayerAction::DidntTakeTurn);
    assert_eq!(objects[0].fighter.unwrap().mana, 15);
    assert_eq!(*kinds(&game).last().unwrap(), MessageKind::Cancelled);
    game.spells.push(Spells::Fireball);
    assert_eq!(handle_keys(PlayerIntent::CastSpell(3, None), &fov, &mut game, &mut objects), PlayerAction::DidntTakeTurn);
    assert_eq!(handle_keys(PlayerIntent::CastSpell(3, Some((9, 9))), &fov, &mut game, &mut objects), PlayerAction::TookTurn);
}

#[test]
fn the_stairs_lead_down() {
    let mut game = open_game();
    let mut objects = vec![hero(5, 5), ork(6, 6), stairs(5, 5)];
    assert!(player_on_stairs(&objects));
    objects[0].fighter.as_mut().unwrap().hp = 10;
    let action = handle_keys(PlayerIntent::Descend, &all_seen(), &mut game, &mut objects);
    assert_eq!(action, PlayerAction::DidntTakeTurn);
    assert_eq!(game.dungeon_level, 2);
    assert_eq!(objects[0].fighter.unwrap().hp, 25);
    assert_eq!(objects[0].fighter.unwrap().xp, 350);
    assert_eq!(game.map.tiles.len(), 80);
}

#[test]
fn away_from_the_stairs_nothing_leads_down() {
    let mut game = open_game();
    let mut objects = vec![hero(5, 5), stairs(5, 6)];
    assert!(!player_on_stairs(&objects));
    let before = objects.clone();
    let action = handle_keys(PlayerIntent::Descend, &all_seen(), &mut game, &mut objects);
    assert_eq!(action, PlayerAction::DidntTakeTurn);
    assert_eq!(objects, before);
    assert_eq!(game.dungeon_level, 1);
}

#[test]
fn only_a_scavenger_eats_remains() {
    let mut game = open_game();
    let mut corpse = ork(5, 5);
    corpse.glyph = '%';
    corpse.blocks = false;
    let mut objects = vec![hero(5, 5), ork(8, 8), corpse];
    objects[0].fighter.as_mut().unwrap().hp = 10;
    let before = objects.clone();
    handle_keys(PlayerIntent::Descend, &all_seen(), &mut game, &mut objects);
    assert_eq!(objects, before);
    game.perks.push(Perks::Scavenger);
    let action = handle_keys(PlayerIntent::Descend, &all_seen(), &mut game, &mut objects);
    assert_eq!(action, PlayerAction::DidntTakeTurn);
    assert_eq!(objects.len(), 2);
    assert_eq!(objects[0].fighter.unwrap().hp, 15);
    assert_eq!(kinds(&game), vec![MessageKind::Ate]);
    handle_keys(PlayerIntent::Descend, &all_seen(), &mut game, &mut objects);
    assert_eq!(objects.len(), 2);
    assert_eq!(objects[0].fighter.unwrap().hp, 15);
}

#[test]
fn monsters_take_their_turns_in_order() {
    let mut game = open_game();
    let mut sleeper = ork(9, 9);
    sleeper.ai = None;
    let mut objects = vec![hero(5, 5), ork(5, 7), ork(5, 8), sleeper.clone(), ork(6, 6)];
    run_monsters(&all_seen(), &mut game, &mut objects);
    assert_eq!(objects[1].pos(), (5, 6));
    assert_eq!(objects[2].pos(), (5, 7));
    assert_eq!(objects[3], sleeper);
    assert_eq!(objects[4].pos(), (6, 6));
    assert_eq!(objects[0].fighter.unwrap().hp, 29);
    run_monsters(&all_seen(), &mut game, &mut objects);
    assert_eq!(objects[1].pos(), (5, 6));
    assert_eq!(objects[2].pos(), (5, 7));
    assert_eq!(objects[0].fighter.unwrap().hp, 27);
}

#[test]
fn a_monster_behind_another_waits_its_turn() {
    let mut game = open_game();
    let mut objects = vec![hero(5, 5), ork(5, 8), ork(5, 7)];
    run_monsters(&all_seen(), &mut game, &mut objects);
    assert_eq!(objects[1].pos(), (5, 8));
    assert_eq!(objects[2].pos(), (5, 6));
}

#[test]
fn a_turn_lets_the_world_move() {
    let mut game = open_game();
    let mut objects = vec![hero(5, 5), ork(5, 8)];
    objects[0].effect = Some(StatusEffect { effect: Effect::Burning, turns_left: 2 });
    let action = play_turn(PlayerIntent::Move(Direction::Up), &all_seen(), &mut game, &mut objects);
    assert_eq!(action, PlayerAction::TookTurn);
    assert_eq!(objects[0].pos(), (5, 4));
    assert_eq!(objects[0].fighter.unwrap().hp, 29);
    assert_eq!(objects[0].effect.unwrap().turns_left, 1);
    assert_eq!(objects[1].pos(), (5, 7));
}

#[test]
fn without_a_turn_the_world_stands_still() {
    let mut game = open_game();
    let mut objects = vec![hero(5, 5), ork(5, 8), potion(5, 5)];
    objects[0].effect = Some(StatusEffect { effect: Effect::Burning, turns_left: 2 });
    let action = play_turn(PlayerIntent::PickUp, &all_seen(), &mut game, &mut objects);
    assert_eq!(action, PlayerAction::DidntTakeTurn);
    assert_eq!(game.inventory.len(), 1);
    assert_eq!(objects[1].pos(), (5, 8));
    assert_eq!(objects[0].fighter.unwrap().hp, 30);
    assert_eq!(objects[0].effect.unwrap().turns_left, 2);
}

#[test]
fn monsters_stand_still_once_the_player_is_dead() {
    let mut game = open_game();
    let mut objects = vec![hero(5, 5), ork(5, 8)];
    objects[0].fighter.as_mut().unwrap().hp = 1;
    objects[0].effect = Some(StatusEffect { effect: Effect::Burning, turns_left: 2 });
    let action = play_turn(PlayerIntent::Wait, &all_seen(), &mut game, &mut objects);
    assert_eq!(action, PlayerAction::TookTurn);
    assert!(!objects[0].alive);
    assert_eq!(objects[1].pos(), (5, 7));
    let action = play_turn(PlayerIntent::Wait, &all_seen(), &mut game, &mut objects);
    assert_eq!(action, PlayerAction::DidntTakeTurn);
    assert_eq!(objects[1].pos(), (5, 7));
}

#[test]
fn a_reward_has_to_be_chosen_before_anything_else() {
    let mut game = open_game();
    let mut objects = vec![hero(5, 5), ork(5, 8)];
    set_xp(&mut objects[0], 350);
    let before = objects.clone();
    for intent in [PlayerIntent::Move(Direction::Up), PlayerIntent::Wait, PlayerIntent::Exit] {
        let action = play_turn(intent, &all_seen(), &mut game, &mut objects);
        assert_eq!(action, PlayerAction::DidntTakeTurn);
        assert_eq!(objects, before);
    }
    assert!(level_up(0, &mut game, &mut objects));
    let action = play_turn(PlayerIntent::Move(Direction::Up), &all_seen(), &mut game, &mut objects);
    assert_eq!(action, PlayerAction::TookTurn);
    assert_eq!(objects[0].pos(), (5, 4));
}

#[test]
fn one_point_below_the_threshold_play_goes_on() {
    let mut game = open_game();
    let mut objects = vec![hero(5, 5)];
    set_xp(&mut objects[0], 349);
    let action = play_turn(PlayerIntent::Move(Direction::Up), &all_seen(), &mut game, &mut objects);
    assert_eq!(action, PlayerAction::TookTurn);
    assert_eq!(objects[0].pos(), (5, 4));
}

#[test]
fn a_frozen_player_loses_its_action() {
    let mut game = open_game();
    let mut objects = vec![hero(5, 5), ork(5, 8)];
    objects[0].effect = Some(StatusEffect { effect: Effect::Frozen, turns_left: 1 });
    let action = play_turn(PlayerIntent::Move(Direction::Up), &all_seen(), &mut game, &mut objects);
    assert_eq!(action, PlayerAction::TookTurn);
    assert_eq!(objects[0].pos(), (5, 5));
    assert_eq!(objects[0].effect.unwrap().turns_left, 0);
    assert_eq!(objects[1].pos(), (5, 7));
    let action = play_turn(PlayerIntent::Move(Direction::Up), &all_seen(), &mut game, &mut objects);
    assert_eq!(action, PlayerAction::TookTurn);
    assert_eq!(objects[0].pos(), (5, 4));
    assert_eq!(objects[0].effect, None);
}

#[test]
fn a_descent_within_a_turn_does_not_move_the_world() {
    let mut game = open_game();
    let mut objects = vec![hero(5, 5), stairs(5, 5)];
    let action = play_turn(PlayerIntent::Descend, &all_seen(), &mut game, &mut objects);
    assert_eq!(action, PlayerAction::DidntTakeTurn);
    assert_eq!(game.dungeon_level, 2);
    assert_eq!(objects[0].fighter.unwrap().xp, 350);
}

#[test]
fn the_character_sheet_shows_the_player() {
    let game = open_game();
    let mut objects = vec![hero(5, 5)];
    objects[0].level = 2;
    set_xp(&mut objects[0], 120);
    assert_eq!(
        character_sheet(&game, &objects),
        Some(CharacterSheet { level: 2, xp: 120, level_up_xp: 500, max_hp: 30, power: 5, defense: 2, spells_known: 3 })
    );
    objects[0].fighter = None;
    assert_eq!(character_sheet(&game, &objects), None);
}

#[test]
fn a_turn_keeps_the_player_the_log_and_the_tiles() {
    let mut game = open_game();
    game.map.set(3, 3, Tile::wall());
    game.map.reveal_all();
    game.messages.add(wizard_dungeon::object::Message::note(MessageKind::Welcome));
    game.spells.push(Spells::Fireball);
    let mut objects = vec![hero(5, 5), ork(6, 5), ork(5, 7), potion(5, 5)];
    let intents = [
        PlayerIntent::Move(Direction::Right),
        PlayerIntent::PickUp,
        PlayerIntent::CastSpell(3, Some((6, 6))),
        PlayerIntent::UseItem(0),
        PlayerIntent::CastSpell(2, None),
        PlayerIntent::Move(Direction::Right),
        PlayerIntent::DropItem(0),
        PlayerIntent::Wait,
        PlayerIntent::Descend,
        PlayerIntent::OpenCheat(Cheat::RevealMap),
    ];
    for intent in intents {
        let log_before = game.messages.entries.clone();
        let map_before = game.map.clone();
        let name_before = objects[0].name.clone();
        play_turn(intent, &all_seen(), &mut game, &mut objects);
        assert!(!objects.is_empty());
        assert_eq!(objects[0].name, name_before);
        assert!(objects[0].fighter.is_some());
        assert!(game.inventory.len() <= 26);
        assert!(game.messages.entries.len() >= log_before.len());
        assert_eq!(game.messages.entries[..log_before.len()], log_before[..]);
        assert_eq!(game.map, map_before);
        assert_eq!(game.dungeon_level, 1);
    }
}
