use dicecore::model::{PlayerHook, RollHook, ItemMeta};
use dicecore::registry::Registry;

#[test]
fn catalog_holds_the_known_templates() {
    let reg = Registry::new();
    assert_eq!(reg.effects.len(), 2);
    assert_eq!(reg.items.len(), 1);
    let poison = &reg.effects[0];
    assert_eq!(poison.id, "poison");
    assert_eq!(poison.name, "Poison");
    assert_eq!(poison.duration, 2);
    assert_eq!(poison.modifier, 1);
    assert_eq!(poison.on_turn, PlayerHook::NoOp);
    assert_eq!(poison.on_roll, RollHook::AddModifier(-1));
    let curse = &reg.effects[1];
    assert_eq!(curse.id, "curse_of_ra");
    assert_eq!(curse.name, "Curse of Ra");
    assert_eq!(curse.duration, 6);
    assert_eq!(curse.on_turn, PlayerHook::ReplaceRandomItemWith(0));
    let sand = &reg.items[0];
    assert_eq!(sand.id, "item_sand");
    assert_eq!(sand.name, "Sand");
    assert_eq!(sand.description, "A handful of sand, seems useless...");
    assert!(sand.on_turn.is_none() && sand.on_roll.is_none() && sand.on_use.is_none());
}

#[test]
fn lookup_by_identifier_is_exact() {
    let reg = Registry::new();
    assert_eq!(reg.effect_by_id("poison"), Some(0));
    assert_eq!(reg.effect_by_id("curse_of_ra"), Some(1));
    assert_eq!(reg.effect_by_id("Poison"), None);
    assert_eq!(reg.effect_by_id("frenzy"), None);
    assert_eq!(reg.item_by_id("item_sand"), Some(0));
    assert_eq!(reg.item_by_id("sand"), None);
}

#[test]
fn lookup_by_display_name_serves_legacy_data() {
    let reg = Registry::new();
    let name: Vec<char> = "Poison".chars().collect();
    assert_eq!(reg.effect_by_name(&name), Some(0));
    let name: Vec<char> = "Curse of Ra".chars().collect();
    assert_eq!(reg.effect_by_name(&name), Some(1));
    let name: Vec<char> = "poison".chars().collect();
    assert_eq!(reg.effect_by_name(&name), None);
    let name: Vec<char> = "Sand".chars().collect();
    assert_eq!(reg.item_by_name(&name), Some(0));
}

#[test]
fn templates_are_cloned_not_shared() {
    let reg = Registry::new();
    let mut mine = reg.effects[0].duplicate();
    mine.duration = 1;
    assert_eq!(reg.effects[0].duration, 2);
    assert_eq!(mine.name, "Poison");
}

#[test]
fn item_meta_default_is_unattached() {
    let m = ItemMeta::default();
    assert_eq!(m.attachment, 0);
    assert_eq!(m.last_used, 0);
}
