use dicecore::model::{Player, PlayerHook, RollHook, Effect, Item, ItemMeta};
use dicecore::registry::Registry;
use dicecore::store::GameState;

fn poison_with_duration(reg: &Registry, duration: i32) -> Effect {
    let mut e = reg.effects[0].duplicate();
    e.duration = duration;
    e
}

#[test]
fn get_player_twice_returns_the_same_player() {
    let mut g = GameState::new();
    let a = g.get_player("1001");
    let stats_first = g.players[a].stats;
    let b = g.get_player("1001");
    assert_eq!(a, b);
    assert_eq!(g.players.len(), 1);
    let stats_second = g.players[b].stats;
    assert_eq!(stats_first, stats_second);
}

#[test]
fn get_player_creates_lazily() {
    let mut g = GameState::new();
    assert_eq!(g.players.len(), 0);
    let a = g.get_player("1001");
    let b = g.get_player("1002");
    assert_eq!(g.players.len(), 2);
    assert_ne!(a, b);
    assert_eq!(g.players[a].id, "1001");
    assert_eq!(g.players[b].id, "1002");
    assert!(g.players[a].effects.is_empty());
    assert!(g.players[a].inventory.is_empty());
}

#[test]
fn fresh_player_stats_are_in_stat_roll_range() {
    let p = Player::new("77".to_string());
    for v in [
        p.stats.strength,
        p.stats.dexterity,
        p.stats.constitution,
        p.stats.intelligence,
        p.stats.wisdom,
        p.stats.charisma,
    ] {
        assert!((3..=18).contains(&v));
    }
}

#[test]
fn advance_turn_removes_effect_with_one_turn_left() {
    let reg = Registry::new();
    let mut g = GameState::new();
    let i = g.get_player("42");
    g.players[i].effects.push(poison_with_duration(&reg, 1));
    g.advance_turn("42", &reg);
    assert_eq!(g.players[i].effects.len(), 0);
}

#[test]
fn advance_turn_counts_longer_effects_down() {
    let reg = Registry::new();
    let mut g = GameState::new();
    let i = g.get_player("42");
    g.players[i].effects.push(poison_with_duration(&reg, 2));
    g.advance_turn("42", &reg);
    assert_eq!(g.players[i].effects.len(), 1);
    assert_eq!(g.players[i].effects[0].duration, 1);
    g.advance_turn("42", &reg);
    assert_eq!(g.players[i].effects.len(), 0);
}

#[test]
fn advance_turn_for_unknown_player_changes_nothing() {
    let reg = Registry::new();
    let mut g = GameState::new();
    g.get_player("42");
    g.advance_turn("otherwise", &reg);
    assert_eq!(g.players.len(), 1);
    assert_eq!(g.players[0].id, "42");
}

#[test]
fn curse_of_ra_turns_an_item_to_sand() {
    let reg = Registry::new();
    let mut g = GameState::new();
    let i = g.get_player("9");
    let odd_item = Item {
        id: "item_mirror".to_string(),
        meta: ItemMeta { attachment: 0, last_used: 0 },
        name: "Mirror".to_string(),
        description: "Shiny.".to_string(),
        on_turn: None,
        on_roll: None,
        on_use: None,
    };
    g.players[i].collect(odd_item);
    let curse = reg.effects[1].duplicate();
    assert_eq!(curse.on_turn, PlayerHook::ReplaceRandomItemWith(0));
    assert_eq!(curse.on_roll, RollHook::NoOp);
    g.players[i].effects.push(curse);
    g.advance_turn("9", &reg);
    assert_eq!(g.players[i].inventory.len(), 1);
    assert_eq!(g.players[i].inventory[0].item.name, "Sand");
    assert_eq!(g.players[i].inventory[0].item.meta.attachment, g.players[i].inventory[0].slot);
}

#[test]
fn collect_assigns_fresh_slots() {
    let reg = Registry::new();
    let mut p = Player::new("5".to_string());
    p.collect(reg.items[0].duplicate());
    p.collect(reg.items[0].duplicate());
    assert_eq!(p.inventory.len(), 2);
    assert_eq!(p.inventory[0].slot, 0);
    assert_eq!(p.inventory[1].slot, 1);
    assert_eq!(p.inventory[0].item.meta.attachment, 0);
    assert_eq!(p.inventory[1].item.meta.attachment, 1);
    assert_eq!(p.next_slot, 2);
}

#[test]
fn using_an_item_marks_it_and_runs_its_hook() {
    let reg = Registry::new();
    let mut p = Player::new("6".to_string());
    let mut trick = reg.items[0].duplicate();
    trick.name = "Trick sand".to_string();
    trick.on_use = Some(PlayerHook::ReplaceRandomItemWith(0));
    p.collect(trick);
    let used = dicecore::store::use_item(&mut p, 0, 7, &reg);
    assert!(used);
    // The only inventory entry was replaced by the sand template.
    assert_eq!(p.inventory.len(), 1);
    assert_eq!(p.inventory[0].item.name, "Sand");
}

#[test]
fn using_an_inert_item_changes_nothing() {
    let reg = Registry::new();
    let mut p = Player::new("6".to_string());
    p.collect(reg.items[0].duplicate());
    let used = dicecore::store::use_item(&mut p, 0, 7, &reg);
    assert!(!used);
    assert_eq!(p.inventory[0].item.meta.last_used, 0);
    assert!(!dicecore::store::use_item(&mut p, 99, 7, &reg));
}
