use wizard_dungeon::fov::{fov_recompute, initialise_fov, mark_explored, FovMap, Sight};
use wizard_dungeon::help::{
    closest_monster, get_names_under_mouse, mut_two, targer_monster, target_tile, Pointer, Targeting,
};
use wizard_dungeon::map::{Tile, TileGrid};
use wizard_dungeon::menu::{inventory_menu, inventory_options, menu, spell_menu};
use wizard_dungeon::object::{Ai, Color, DeathCallback, Fighter, Object};
use wizard_dungeon::settings::{
    FOV_LIGHT_WALLS, INVENTORY_SIZE, LEVEL_UP_BASE, LEVEL_UP_FACTOR, TORCH_RADIUS,
};

fn all_seen() -> FovMap {
    FovMap { cells: vec![vec![true; 12]; 12] }
}

fn hero(x: i32, y: i32) -> Object {
    let mut player = Object::new(x, y, '@', Color::White, "player", true);
    player.alive = true;
    player.fighter = Some(Fighter {
        max_hp: 30,
        hp: 30,
        max_mana: 30,
        mana: 30,
        defense: 2,
        power: 5,
        xp: 0,
        on_death: DeathCallback::Player,
    });
    player
}

fn ork(x: i32, y: i32) -> Object {
    let mut monster = Object::new(x, y, 'o', Color::DesaturatedGreen, "ork", true);
    monster.alive = true;
    monster.fighter = Some(Fighter {
        max_hp: 10,
        hp: 10,
        max_mana: 0,
        mana: 0,
        defense: 0,
        power: 3,
        xp: 35,
        on_death: DeathCallback::Monster,
    });
    monster.ai = Some(Ai::Basic);
    monster
}

#[test]
fn the_settings_are_the_documented_ones() {
    assert_eq!((LEVEL_UP_BASE, LEVEL_UP_FACTOR), (200, 150));
    assert_eq!(INVENTORY_SIZE, 26);
    assert_eq!(TORCH_RADIUS, 10);
    assert!(FOV_LIGHT_WALLS);
}

#[test]
fn two_elements_are_borrowed_at_once() {
    let mut items = vec![10, 20, 30, 40];
    {
        let (a, b) = mut_two(1, 3, &mut items);
        assert_eq!((*a, *b), (20, 40));
        *a += 1;
        *b += 2;
    }
    assert_eq!(items, vec![10, 21, 30, 42]);
    {
        let (a, b) = mut_two(3, 0, &mut items);
        assert_eq!((*a, *b), (42, 10));
        std::mem::swap(a, b);
    }
    assert_eq!(items, vec![42, 21, 30, 10]);
}

#[test]
fn the_nearest_seen_monster_is_the_closest() {
    let mut corpse = ork(2, 1);
    corpse.fighter = None;
    corpse.ai = None;
    let mut statue = ork(1, 2);
    statue.ai = None;
    let objects = vec![hero(1, 1), ork(5, 1), corpse, statue, ork(1, 4), ork(4, 1), ork(3, 3)];
    assert_eq!(closest_monster(&all_seen(), &objects, 5), Some(6));
    assert_eq!(closest_monster(&all_seen(), &objects, 2), Some(6));
    assert_eq!(closest_monster(&all_seen(), &objects, 1), None);
    let mut fov = all_seen();
    fov.set(3, 3, false);
    assert_eq!(closest_monster(&fov, &objects, 5), Some(4));
    fov.set(1, 4, false);
    assert_eq!(closest_monster(&fov, &objects, 5), Some(5));
}

#[test]
fn the_range_of_the_nearest_monster_is_open_at_its_end() {
    let objects = vec![hero(1, 1), ork(6, 1)];
    assert_eq!(closest_monster(&all_seen(), &objects, 5), Some(1));
    assert_eq!(closest_monster(&all_seen(), &objects, 4), None);
    let objects = vec![hero(1, 1), ork(5, 5)];
    assert_eq!(closest_monster(&all_seen(), &objects, 4), None);
    assert_eq!(closest_monster(&all_seen(), &objects, 5), Some(1));
    assert_eq!(closest_monster(&all_seen(), &objects, -1), None);
    assert_eq!(closest_monster(&all_seen(), &objects, -7), None);
    assert_eq!(closest_monster(&all_seen(), &objects, i32::MAX), Some(1));
    assert_eq!(closest_monster(&all_seen(), &vec![hero(1, 1)], 5), None);
}

#[test]
fn a_tile_is_chosen_when_it_is_seen_and_in_range() {
    let objects = vec![hero(1, 1)];
    let mut fov = all_seen();
    fov.set(7, 7, false);
    let click = |x, y| Pointer { x, y, accept: true, cancel: false };
    assert_eq!(target_tile(click(4, 5), &fov, &objects, None), Targeting::Chosen(4, 5));
    assert_eq!(target_tile(click(7, 7), &fov, &objects, None), Targeting::Waiting);
    assert_eq!(target_tile(click(20, 1), &fov, &objects, None), Targeting::Waiting);
    assert_eq!(target_tile(click(-1, 1), &fov, &objects, None), Targeting::Waiting);
    assert_eq!(target_tile(click(4, 5), &fov, &objects, Some(5)), Targeting::Chosen(4, 5));
    assert_eq!(target_tile(click(4, 5), &fov, &objects, Some(4)), Targeting::Waiting);
    assert_eq!(target_tile(click(1, 1), &fov, &objects, Some(0)), Targeting::Chosen(1, 1));
    assert_eq!(target_tile(click(1, 1), &fov, &objects, Some(-1)), Targeting::Waiting);
}

#[test]
fn choosing_a_tile_can_be_given_up() {
    let objects = vec![hero(1, 1)];
    let fov = all_seen();
    let idle = Pointer { x: 4, y: 5, accept: false, cancel: false };
    assert_eq!(target_tile(idle, &fov, &objects, None), Targeting::Waiting);
    assert_eq!(target_tile(Pointer { cancel: true, ..idle }, &fov, &objects, None), Targeting::Cancelled);
    assert_eq!(target_tile(Pointer { accept: true, cancel: true, ..idle }, &fov, &objects, None), Targeting::Chosen(4, 5));
    assert_eq!(target_tile(Pointer { accept: true, cancel: true, ..idle }, &fov, &objects, Some(1)), Targeting::Cancelled);
}

#[test]
fn the_monster_on_a_tile_is_counted_after_the_player() {
    let mut corpse = ork(4, 4);
    corpse.fighter = None;
    let objects = vec![hero(4, 4), ork(2, 2), corpse, ork(4, 4), ork(4, 4)];
    assert_eq!(targer_monster(Some((4, 4)), &objects), Some(2));
    assert_eq!(targer_monster(Some((2, 2)), &objects), Some(0));
    assert_eq!(targer_monster(Some((9, 9)), &objects), None);
    assert_eq!(targer_monster(None, &objects), None);
    assert_eq!(targer_monster(Some((4, 4)), &vec![hero(4, 4)]), None);
}

#[test]
fn names_under_the_pointer_are_joined() {
    let mut potion = Object::new(3, 3, '!', Color::Violet, "healing potion", false);
    potion.always_visible = true;
    let objects = vec![hero(1, 1), ork(3, 3), ork(4, 4), potion];
    let fov = all_seen();
    assert_eq!(get_names_under_mouse(3, 3, &objects, &fov), "ork, healing potion");
    assert_eq!(get_names_under_mouse(1, 1, &objects, &fov), "player");
    assert_eq!(get_names_under_mouse(2, 2, &objects, &fov), "");
    let mut dark = all_seen();
    dark.set(3, 3, false);
    assert_eq!(get_names_under_mouse(3, 3, &objects, &dark), "");
    assert_eq!(get_names_under_mouse(4, 4, &objects, &dark), "ork");
}

#[test]
fn nameless_entities_still_count_under_the_pointer() {
    let objects = vec![Object::new(3, 3, 'a', Color::White, "", false), Object::new(3, 3, 'b', Color::White, "b", false), Object::new(3, 3, 'c', Color::White, "", false)];
    assert_eq!(get_names_under_mouse(3, 3, &objects, &all_seen()), ", b, ");
}

#[test]
fn a_letter_selects_its_option() {
    assert_eq!(menu('a', 3), Some(0));
    assert_eq!(menu('c', 3), Some(2));
    assert_eq!(menu('d', 3), None);
    assert_eq!(menu('B', 3), Some(1));
    assert_eq!(menu('z', 26), Some(25));
    assert_eq!(menu('Z', 26), Some(25));
    assert_eq!(menu('z', 25), None);
    assert_eq!(menu('a', 0), None);
    for key in ['1', ' ', '\n', '@', '[', '`', '{', '\u{e9}', '\u{0}', '\u{10ffff}'] {
        assert_eq!(menu(key, 26), None);
    }
}

#[test]
fn the_inventory_menu_offers_the_names() {
    let inventory = vec![ork(0, 0), hero(0, 0)];
    assert_eq!(inventory_options(&inventory), vec!["ork", "player"]);
    assert_eq!(inventory_menu(&inventory, 'b'), Some(1));
    assert_eq!(inventory_menu(&inventory, 'c'), None);
    assert!(inventory_options(&vec![]).is_empty());
    assert_eq!(inventory_menu(&vec![], 'a'), None);
}

#[test]
fn the_spell_menu_offers_three_spells() {
    assert_eq!(spell_menu('a'), Some(0));
    assert_eq!(spell_menu('C'), Some(2));
    assert_eq!(spell_menu('d'), None);
    assert_eq!(spell_menu('?'), None);
}

#[test]
fn a_new_field_of_view_sees_nothing() {
    let fov = FovMap::new(4, 3);
    assert_eq!(fov.cells, vec![vec![false; 3]; 4]);
    assert!(!fov.is_in_fov(0, 0));
    assert!(!fov.sees(3, 2));
}

#[test]
fn seeing_is_asked_cell_by_cell() {
    let mut fov = FovMap::new(4, 3);
    fov.set(2, 1, true);
    assert!(fov.is_in_fov(2, 1));
    assert!(fov.sees(2, 1));
    assert!(!fov.is_in_fov(1, 2));
    assert!(!fov.is_in_fov(-1, 1));
    assert!(!fov.is_in_fov(2, -1));
    assert!(!fov.is_in_fov(4, 1));
    assert!(!fov.is_in_fov(2, 3));
    assert!(!fov.sees(usize::MAX, 0));
    fov.set(2, 1, false);
    assert!(!fov.is_in_fov(2, 1));
}

#[test]
fn what_is_seen_is_explored_for_good() {
    let mut map = TileGrid::filled(4, 3, Tile::wall());
    map.set(1, 1, Tile::empty());
    let mut fov = FovMap::new(4, 3);
    fov.set(1, 1, true);
    fov.set(0, 2, true);
    mark_explored(&fov, &mut map);
    for x in 0..4 {
        for y in 0..3 {
            let tile = map.tile(x, y);
            assert_eq!(tile.explored, (x, y) == (1, 1) || (x, y) == (0, 2));
            assert_eq!(tile.blocked, (x, y) != (1, 1));
        }
    }
    mark_explored(&FovMap::new(4, 3), &mut map);
    assert!(map.tile(1, 1).explored);
    assert!(map.tile(0, 2).explored);
    mark_explored(&FovMap::new(2, 9), &mut map);
    assert!(!map.tile(3, 0).explored);
}

#[test]
fn the_view_is_computed_anew_only_after_a_move() {
    let objects = vec![hero(3, 4)];
    assert!(fov_recompute((-1, -1), &objects));
    assert!(!fov_recompute((3, 4), &objects));
    assert!(fov_recompute((3, 5), &objects));
    assert!(fov_recompute((4, 4), &objects));
}

#[test]
fn sight_follows_the_tiles() {
    let mut map = TileGrid::filled(3, 2, Tile::wall());
    map.set(1, 0, Tile::empty());
    map.set(2, 1, Tile { blocked: true, explored: true, block_sight: false });
    let cells = initialise_fov(&map);
    assert_eq!(cells.len(), 3);
    let wall = Sight { transparent: false, walkable: false };
    assert_eq!(cells[0], vec![wall, wall]);
    assert_eq!(cells[1], vec![Sight { transparent: true, walkable: true }, wall]);
    assert_eq!(cells[2], vec![wall, Sight { transparent: true, walkable: false }]);
}
