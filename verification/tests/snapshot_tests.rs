use dicecore::registry::Registry;
use dicecore::snapshot::{save_string, load_string};
use dicecore::store::GameState;

fn sample_state(reg: &Registry) -> GameState {
    let mut g = GameState::new();
    let i = g.get_player("279145098426580992");
    g.players[i].effects.push(reg.effects[0].duplicate());
    g.players[i].collect(reg.items[0].duplicate());
    let j = g.get_player("205811939861856257");
    g.players[j].effects.push(reg.effects[1].duplicate());
    g
}

#[test]
fn empty_state_round_trips() {
    let reg = Registry::new();
    let g = GameState::new();
    let s = save_string(&g);
    assert_eq!(s, "{\"players\":{}}");
    let g2 = load_string(&s, &reg).unwrap();
    assert_eq!(g2.players.len(), 0);
    assert_eq!(save_string(&g2), s);
}

#[test]
fn populated_state_round_trips() {
    let reg = Registry::new();
    let g = sample_state(&reg);
    let s = save_string(&g);
    let g2 = load_string(&s, &reg).unwrap();
    assert_eq!(g2.players.len(), 2);
    let p = &g2.players[0];
    assert_eq!(p.id, "279145098426580992");
    assert_eq!(p.stats, g.players[0].stats);
    assert_eq!(p.effects.len(), 1);
    assert_eq!(p.effects[0].name, "Poison");
    assert_eq!(p.effects[0].duration, 2);
    assert_eq!(p.inventory.len(), 1);
    assert_eq!(p.inventory[0].slot, 0);
    assert_eq!(p.inventory[0].item.name, "Sand");
    assert_eq!(p.inventory[0].item.meta.attachment, 0);
    assert_eq!(p.next_slot, g.players[0].next_slot);
    let q = &g2.players[1];
    assert_eq!(q.effects[0].name, "Curse of Ra");
    // Re-emitting the loaded state reproduces the snapshot exactly.
    assert_eq!(save_string(&g2), s);
}

#[test]
fn snapshot_text_is_canonical() {
    let reg = Registry::new();
    let mut g = GameState::new();
    let i = g.get_player("9");
    g.players[i].stats.strength = 10;
    g.players[i].stats.dexterity = 11;
    g.players[i].stats.constitution = 12;
    g.players[i].stats.intelligence = 13;
    g.players[i].stats.wisdom = 14;
    g.players[i].stats.charisma = 15;
    g.players[i].effects.push(reg.effects[0].duplicate());
    g.players[i].collect(reg.items[0].duplicate());
    let s = save_string(&g);
    assert_eq!(
        s,
        "{\"players\":{\"9\":{\"id\":\"9\",\"stats\":{\"strength\":10,\"dexterity\":11,\
         \"constitution\":12,\"intelligence\":13,\"wisdom\":14,\"charisma\":15},\
         \"effects\":[\"Poison\"],\"inventory\":{\"0\":\"Sand\"}}}}"
    );
    let g2 = load_string(&s, &reg).unwrap();
    assert_eq!(save_string(&g2), s);
}

#[test]
fn malformed_snapshots_are_rejected() {
    let reg = Registry::new();
    assert!(load_string("", &reg).is_err());
    assert!(load_string("{}", &reg).is_err());
    assert!(load_string("{\"players\":{}", &reg).is_err());
    assert!(load_string("{\"players\":{}}x", &reg).is_err());
    assert!(load_string("{\"players\":{\"9\":{}}}", &reg).is_err());
}

#[test]
fn unknown_display_names_are_fatal() {
    let reg = Registry::new();
    let s = "{\"players\":{\"9\":{\"id\":\"9\",\"stats\":{\"strength\":10,\"dexterity\":11,\
             \"constitution\":12,\"intelligence\":13,\"wisdom\":14,\"charisma\":15},\
             \"effects\":[\"Hiccups\"],\"inventory\":{}}}}";
    assert!(load_string(s, &reg).is_err());
    let s = "{\"players\":{\"9\":{\"id\":\"9\",\"stats\":{\"strength\":10,\"dexterity\":11,\
             \"constitution\":12,\"intelligence\":13,\"wisdom\":14,\"charisma\":15},\
             \"effects\":[],\"inventory\":{\"0\":\"Slime\"}}}}";
    assert!(load_string(s, &reg).is_err());
}

#[test]
fn mismatched_record_id_is_rejected() {
    let reg = Registry::new();
    let s = "{\"players\":{\"9\":{\"id\":\"8\",\"stats\":{\"strength\":10,\"dexterity\":11,\
             \"constitution\":12,\"intelligence\":13,\"wisdom\":14,\"charisma\":15},\
             \"effects\":[],\"inventory\":{}}}}";
    assert!(load_string(s, &reg).is_err());
}

#[test]
fn duplicate_player_identifiers_are_rejected() {
    let reg = Registry::new();
    let one = "\"9\":{\"id\":\"9\",\"stats\":{\"strength\":10,\"dexterity\":11,\
               \"constitution\":12,\"intelligence\":13,\"wisdom\":14,\"charisma\":15},\
               \"effects\":[],\"inventory\":{}}";
    let s = format!("{{\"players\":{{{},{}}}}}", one, one);
    assert!(load_string(&s, &reg).is_err());
}

#[test]
fn effects_and_items_keep_their_hook_bindings_through_a_round_trip() {
    let reg = Registry::new();
    let g = sample_state(&reg);
    let s = save_string(&g);
    let g2 = load_string(&s, &reg).unwrap();
    // The poison instance resolved from its display name carries the
    // template's hooks, so roll resolution behaves identically.
    assert_eq!(g2.players[0].effects[0].on_roll, reg.effects[0].on_roll);
    assert_eq!(g2.players[1].effects[0].on_turn, reg.effects[1].on_turn);
}

#[test]
fn plainness_check_matches_the_snapshot_alphabet() {
    assert!(dicecore::text::str_is_plain("279145098426580992"));
    assert!(dicecore::text::str_is_plain("alice bob!"));
    assert!(!dicecore::text::str_is_plain("a\"b"));
    assert!(!dicecore::text::str_is_plain("a\\b"));
    assert!(!dicecore::text::str_is_plain("a\nb"));
}
