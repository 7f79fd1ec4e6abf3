//! What a key pressed in a menu selects.

use vstd::prelude::*;
use crate::object::{Object, views, ObjectView};
use crate::settings::INVENTORY_SIZE;

verus! {

/// The most options that a menu can offer: one for each letter.
pub const MENU_LIMIT: usize = 26;

/// The place in the alphabet of a letter, counted from zero, whether it is
/// written small or large; nothing for any other character.
pub open spec fn letter_index(key: char) -> Option<int> {
    if 'a' <= key <= 'z' {
        Some(key as int - 'a' as int)
    } else if 'A' <= key <= 'Z' {
        Some(key as int - 'A' as int)
    } else {
        None
    }
}

/// The option that `key` selects in a menu of `option_count` options: the
/// one that its letter stands for, if there is such an option.
pub open spec fn selected(key: char, option_count: int) -> Option<int> {
    match letter_index(key) {
        Some(index) => if index < option_count {
            Some(index)
        } else {
            None
        },
        None => None,
    }
}

/// The option as a mathematical integer.
pub open spec fn option_of(choice: Option<usize>) -> Option<int> {
    match choice {
        Some(i) => Some(i as int),
        None => None,
    }
}

/// The option that `key` selects in a menu of `option_count` options.
pub fn menu(key: char, option_count: usize) -> (choice: Option<usize>)
    requires
        option_count <= MENU_LIMIT,
    ensures
        option_of(choice) == selected(key, option_count as int),
{
    let code: u32 = key as u32;
    let index: u32 = if 'a' as u32 <= code && code <= 'z' as u32 {
        code - 'a' as u32
    } else if 'A' as u32 <= code && code <= 'Z' as u32 {
        code - 'A' as u32
    } else {
        return None;
    };
    if (index as usize) < option_count {
        Some(index as usize)
    } else {
        None
    }
}

/// The names of the entities, in order: the options of an inventory menu.
pub open spec fn names_of(inventory: Seq<ObjectView>) -> Seq<Seq<char>> {
    Seq::new(inventory.len(), |i: int| inventory[i].name)
}

/// The text of each string, in order.
pub open spec fn texts(strings: Seq<String>) -> Seq<Seq<char>> {
    Seq::new(strings.len(), |i: int| strings[i]@)
}

/// The options that an inventory menu shows: the name of each entry.
pub fn inventory_options(inventory: &Vec<Object>) -> (options: Vec<String>)
    ensures
        texts(options@) == names_of(views(inventory@)),
{
    let mut options: Vec<String> = Vec::new();
    let mut i: usize = 0;
    while i < inventory.len()
        invariant
            i <= inventory@.len(),
            options@.len() == i,
            forall|j: int| 0 <= j < i ==> (#[trigger] options@[j])@ == inventory@[j].name@,
        decreases inventory@.len() - i,
    {
        options.push(inventory[i].name.clone());
        i += 1;
    }
    assert(texts(options@) =~= names_of(views(inventory@)));
    options
}

/// The entry of the inventory that `key` selects. An empty inventory offers
/// nothing to select.
pub fn inventory_menu(inventory: &Vec<Object>, key: char) -> (choice: Option<usize>)
    requires
        inventory@.len() <= INVENTORY_SIZE,
    ensures
        option_of(choice) == selected(key, inventory@.len() as int),
        choice matches Some(i) ==> i < inventory@.len(),
{
    if inventory.len() > 0 {
        menu(key, inventory.len())
    } else {
        None
    }
}

/// The number of spells that the spell menu offers.
pub const SPELL_MENU_SIZE: usize = 3;

/// The spell that `key` selects in the spell menu.
pub fn spell_menu(key: char) -> (choice: Option<usize>)
    ensures
        option_of(choice) == selected(key, SPELL_MENU_SIZE as int),
{
    menu(key, SPELL_MENU_SIZE)
}

} // verus!
