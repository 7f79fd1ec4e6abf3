use wizard_dungeon::game::Game;
use wizard_dungeon::map::{
    create_h_tunnel, create_room, create_v_tunnel, find_fighter_at, is_blocked, move_by,
    player_move_or_attack, Rect, Tile, TileGrid,
};
use wizard_dungeon::object::perks::Perks;
use wizard_dungeon::object::spells::Spells;
use wizard_dungeon::object::{Ai, Color, DeathCallback, Fighter, MessageKind, Messages, Object};

fn game_with(map: TileGrid) -> Game {
    Game {
        map,
        messages: Messages::new(),
        inventory: vec![],
        dungeon_level: 1,
        spells: vec![Spells::Heal, Spells::Lightning, Spells::Freeze],
        unknown_spells: vec![Spells::Fireball, Spells::Wall],
        perks: vec![],
        unobtained_perks: vec![Perks::MagicCannon, Perks::Scavenger],
    }
}

fn hero(x: i32, y: i32) -> Object {
    let mut player = Object::new(x, y, '@', Color::White, "player", true);
    player.alive = true;
    player.fighter = Some(Fighter {
        max_hp: 30,
        hp: 30,
        max_mana: 30,
        mana: 30,
        defense: 2,
        power: 5,
        xp: 0,
        on_death: DeathCallback::Player,
    });
    player
}

fn ork(x: i32, y: i32) -> Object {
    let mut monster = Object::new(x, y, 'o', Color::DesaturatedGreen, "ork", true);
    monster.alive = true;
    monster.fighter = Some(Fighter {
        max_hp: 10,
        hp: 10,
        max_mana: 0,
        mana: 0,
        defense: 0,
        power: 3,
        xp: 35,
        on_death: DeathCallback::Monster,
    });
    monster.ai = Some(Ai::Basic);
    monster
}

fn floors(map: &TileGrid) -> Vec<(usize, usize)> {
    let mut cells = vec![];
    for x in 0..map.tiles.len() {
        for y in 0..map.tiles[x].len() {
            if !map.tiles[x][y].blocked {
                cells.push((x, y));
            }
        }
    }
    cells
}

#[test]
fn tiles_are_floor_or_wall() {
    assert_eq!(Tile::empty(), Tile { blocked: false, explored: false, block_sight: false });
    assert_eq!(Tile::wall(), Tile { blocked: true, explored: false, block_sight: true });
}

#[test]
fn a_filled_grid_is_a_rectangle() {
    let map = TileGrid::filled(4, 3, Tile::wall());
    assert_eq!(map.tiles.len(), 4);
    for column in &map.tiles {
        assert_eq!(column.len(), 3);
        for tile in column {
            assert_eq!(*tile, Tile::wall());
        }
    }
    assert_eq!(TileGrid::filled(0, 5, Tile::wall()).tiles.len(), 0);
}

#[test]
fn bounds_are_those_of_the_grid() {
    let map = TileGrid::filled(4, 3, Tile::wall());
    assert!(map.in_bounds(0, 0));
    assert!(map.in_bounds(3, 2));
    assert!(!map.in_bounds(4, 2));
    assert!(!map.in_bounds(3, 3));
    assert!(!map.in_bounds(-1, 0));
    assert!(!map.in_bounds(0, -1));
    assert!(!map.in_bounds(i32::MAX, i32::MIN));
}

#[test]
fn set_replaces_one_tile() {
    let mut map = TileGrid::filled(4, 3, Tile::wall());
    map.set(2, 1, Tile::empty());
    assert_eq!(map.tile(2, 1), Tile::empty());
    assert_eq!(floors(&map), vec![(2, 1)]);
}

#[test]
fn reveal_marks_every_tile() {
    let mut map = TileGrid::filled(3, 2, Tile::wall());
    map.set(1, 1, Tile::empty());
    map.reveal_all();
    for x in 0..3 {
        for y in 0..2 {
            let tile = map.tile(x, y);
            assert!(tile.explored);
            assert_eq!(tile.blocked, !(x == 1 && y == 1));
            assert_eq!(tile.block_sight, !(x == 1 && y == 1));
        }
    }
}

#[test]
fn rect_spans_from_corner() {
    let r = Rect::new(3, 4, 6, 8);
    assert_eq!(r, Rect { x1: 3, y1: 4, x2: 9, y2: 12 });
    assert_eq!(r.center(), (6, 8));
    assert_eq!(Rect::new(0, 0, 7, 9).center(), (3, 4));
}

#[test]
fn rect_center_rounds_towards_zero() {
    assert_eq!(Rect { x1: -4, y1: -3, x2: 1, y2: 0 }.center(), (-1, -1));
    assert_eq!(Rect { x1: i32::MAX - 1, y1: i32::MIN, x2: i32::MAX, y2: i32::MIN + 1 }.center(), (i32::MAX - 1, i32::MIN + 1));
}

#[test]
fn a_room_is_turned_down_only_when_it_covers_another() {
    let outer = Rect::new(0, 0, 10, 10);
    let inner = Rect::new(2, 2, 4, 4);
    let aside = Rect::new(5, 5, 10, 10);
    assert!(outer.intersects_with(&inner));
    assert!(!inner.intersects_with(&outer));
    assert!(outer.intersects_with(&outer));
    assert!(!outer.intersects_with(&aside));
    assert!(!aside.intersects_with(&outer));
}

#[test]
fn a_room_is_carved_inside_its_walls() {
    let mut map = TileGrid::filled(8, 7, Tile::wall());
    create_room(Rect::new(1, 2, 4, 3), &mut map);
    assert_eq!(floors(&map), vec![(2, 3), (2, 4), (3, 3), (3, 4), (4, 3), (4, 4)]);
}

#[test]
fn carving_forgets_that_a_tile_was_explored() {
    let mut map = TileGrid::filled(8, 7, Tile::wall());
    map.reveal_all();
    create_room(Rect::new(1, 2, 4, 3), &mut map);
    assert_eq!(map.tile(2, 3), Tile::empty());
    assert!(map.tile(1, 2).explored);
}

#[test]
fn a_room_without_interior_carves_nothing() {
    let mut map = TileGrid::filled(8, 7, Tile::wall());
    create_room(Rect::new(1, 2, 1, 5), &mut map);
    create_room(Rect::new(3, 3, 0, 0), &mut map);
    assert!(floors(&map).is_empty());
}

#[test]
fn tunnels_run_between_their_ends_in_either_order() {
    let mut map = TileGrid::filled(8, 7, Tile::wall());
    create_h_tunnel(5, 2, 3, &mut map);
    assert_eq!(floors(&map), vec![(2, 3), (3, 3), (4, 3), (5, 3)]);
    let mut map = TileGrid::filled(8, 7, Tile::wall());
    create_v_tunnel(1, 4, 6, &mut map);
    assert_eq!(floors(&map), vec![(6, 1), (6, 2), (6, 3), (6, 4)]);
    let mut other = TileGrid::filled(8, 7, Tile::wall());
    create_v_tunnel(4, 1, 6, &mut other);
    assert_eq!(other, map);
    create_h_tunnel(3, 3, 0, &mut other);
    assert_eq!(floors(&other).len(), 5);
}

#[test]
fn walls_entities_and_the_outside_block() {
    let mut map = TileGrid::filled(5, 5, Tile::empty());
    map.set(2, 2, Tile::wall());
    let mut potion = Object::new(3, 3, '!', Color::Violet, "healing potion", false);
    potion.always_visible = true;
    let objects = vec![hero(1, 1), ork(4, 4), potion];
    assert!(is_blocked(2, 2, &map, &objects));
    assert!(is_blocked(1, 1, &map, &objects));
    assert!(is_blocked(4, 4, &map, &objects));
    assert!(!is_blocked(3, 3, &map, &objects));
    assert!(!is_blocked(0, 0, &map, &objects));
    assert!(is_blocked(-1, 0, &map, &objects));
    assert!(is_blocked(5, 0, &map, &objects));
    assert!(is_blocked(0, 5, &map, &objects));
}

#[test]
fn a_step_onto_a_free_cell_moves() {
    let map = TileGrid::filled(5, 5, Tile::empty());
    let mut objects = vec![hero(1, 1), ork(3, 3)];
    move_by(1, -1, 1, &map, &mut objects);
    assert_eq!(objects[1].pos(), (2, 4));
    assert_eq!(objects[0].pos(), (1, 1));
}

#[test]
fn a_step_onto_a_blocked_cell_does_not_move() {
    let mut map = TileGrid::filled(5, 5, Tile::empty());
    map.set(3, 2, Tile::wall());
    let mut objects = vec![hero(2, 3), ork(3, 3)];
    let before = objects.clone();
    move_by(1, 0, -1, &map, &mut objects);
    assert_eq!(objects, before);
    move_by(1, -1, 0, &map, &mut objects);
    assert_eq!(objects, before);
    move_by(1, 0, 2, &map, &mut objects);
    assert_eq!(objects, before);
    move_by(1, i32::MAX, i32::MAX, &map, &mut objects);
    assert_eq!(objects, before);
}

#[test]
fn the_first_fighter_on_a_cell_is_found() {
    let mut corpse = ork(2, 2);
    corpse.fighter = None;
    let objects = vec![hero(2, 2), corpse, ork(2, 2), ork(2, 2)];
    assert_eq!(find_fighter_at(&objects, 2, 2, 1), Some(2));
    assert_eq!(find_fighter_at(&objects, 2, 2, 0), Some(0));
    assert_eq!(find_fighter_at(&objects, 2, 2, 3), Some(3));
    assert_eq!(find_fighter_at(&objects, 2, 2, 4), None);
    assert_eq!(find_fighter_at(&objects, 9, 9, 1), None);
}

#[test]
fn the_player_moves_where_nobody_stands() {
    let mut game = game_with(TileGrid::filled(5, 5, Tile::empty()));
    let mut objects = vec![hero(1, 1), ork(3, 3)];
    player_move_or_attack(1, 0, &mut game, &mut objects);
    assert_eq!(objects[0].pos(), (2, 1));
    assert!(game.messages.entries.is_empty());
}

#[test]
fn the_player_attacks_who_stands_in_the_way() {
    let mut game = game_with(TileGrid::filled(5, 5, Tile::empty()));
    let mut objects = vec![hero(1, 1), ork(3, 3), ork(2, 1)];
    player_move_or_attack(1, 0, &mut game, &mut objects);
    assert_eq!(objects[0].pos(), (1, 1));
    assert_eq!(objects[2].fighter.unwrap().hp, 5);
    assert_eq!(objects[1].fighter.unwrap().hp, 10);
    assert_eq!(game.messages.entries.len(), 1);
    assert_eq!(game.messages.entries[0].kind, MessageKind::Attack);
    assert_eq!(game.messages.entries[0].amount, 5);
    player_move_or_attack(1, 0, &mut game, &mut objects);
    assert_eq!(objects[2].name, "remains of ork");
    assert_eq!(objects[0].fighter.unwrap().xp, 35);
    player_move_or_attack(1, 0, &mut game, &mut objects);
    assert_eq!(objects[0].pos(), (2, 1));
}

#[test]
fn the_player_does_not_walk_through_walls() {
    let mut map = TileGrid::filled(5, 5, Tile::empty());
    map.set(1, 0, Tile::wall());
    let mut game = game_with(map);
    let mut objects = vec![hero(1, 1)];
    player_move_or_attack(0, -1, &mut game, &mut objects);
    assert_eq!(objects[0].pos(), (1, 1));
    player_move_or_attack(0, 0, &mut game, &mut objects);
    assert_eq!(objects[0].pos(), (1, 1));
    assert!(game.messages.entries.is_empty());
}
