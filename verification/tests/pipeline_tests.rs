use dicecore::model::{Effect, Player, PlayerHook, RollHook, RollType, StatType};
use dicecore::pipeline::{build_context, classify, resolve_with, OutcomeClass, Threshold};
use dicecore::registry::Registry;

fn effect_with_roll_hook(name: &str, hook: RollHook) -> Effect {
    Effect {
        id: name.to_lowercase(),
        name: name.to_string(),
        duration: 3,
        modifier: 0,
        on_turn: PlayerHook::NoOp,
        on_roll: hook,
    }
}

fn bare_player(id: &str) -> Player {
    let mut p = Player::new(id.to_string());
    p.effects.clear();
    p
}

fn threshold() -> Threshold {
    Threshold { success_min: 10, crit_success_min: 20, crit_failure_max: 1 }
}

#[test]
fn effect_hooks_accumulate_in_storage_order() {
    let mut p = bare_player("1");
    p.effects.push(effect_with_roll_hook("Sharpen", RollHook::AddModifier(2)));
    p.effects.push(effect_with_roll_hook("Frenzy", RollHook::ScaleModifier(3)));
    let c = build_context(&p, RollType::Ability(StatType::Strength), 1);
    assert_eq!(c.modifier, (1 + 2) * 3);
}

#[test]
fn reversed_hook_order_changes_the_modifier() {
    let mut a = bare_player("1");
    a.effects.push(effect_with_roll_hook("Sharpen", RollHook::AddModifier(2)));
    a.effects.push(effect_with_roll_hook("Frenzy", RollHook::ScaleModifier(3)));
    let mut b = bare_player("1");
    b.effects.push(effect_with_roll_hook("Frenzy", RollHook::ScaleModifier(3)));
    b.effects.push(effect_with_roll_hook("Sharpen", RollHook::AddModifier(2)));
    let intent_a = RollType::Ability(StatType::Strength);
    let intent_b = RollType::Ability(StatType::Strength);
    let ca = build_context(&a, intent_a, 1);
    let cb = build_context(&b, intent_b, 1);
    assert_eq!(ca.modifier, 9);
    assert_eq!(cb.modifier, 5);
    assert_ne!(ca.modifier, cb.modifier);
}

#[test]
fn poison_subtracts_one_from_rolls() {
    let reg = Registry::new();
    let mut p = bare_player("1");
    p.effects.push(reg.effects[0].duplicate());
    let c = build_context(&p, RollType::Ability(StatType::Dexterity), 4);
    assert_eq!(c.modifier, 3);
}

#[test]
fn resolution_is_deterministic_for_a_fixed_draw() {
    let reg = Registry::new();
    let mut p = bare_player("7");
    p.effects.push(effect_with_roll_hook("Sharpen", RollHook::AddModifier(2)));
    let p2 = p.clone();
    let (o1, q1) = resolve_with(p, RollType::Ability(StatType::Wisdom), 1, 7, 0, threshold(), &reg);
    let (o2, q2) =
        resolve_with(p2, RollType::Ability(StatType::Wisdom), 1, 7, 0, threshold(), &reg);
    assert_eq!(o1, 10);
    assert_eq!(o1, o2);
    assert_eq!(q1.id, q2.id);
    assert_eq!(q1.stats, q2.stats);
    assert_eq!(q1.inventory.len(), q2.inventory.len());
}

#[test]
fn outcome_is_clamped_to_one() {
    let reg = Registry::new();
    let mut p = bare_player("7");
    p.effects.push(effect_with_roll_hook("Hex", RollHook::AddModifier(-50)));
    let (o, _) = resolve_with(p, RollType::Ability(StatType::Charisma), 0, 6, 0, threshold(), &reg);
    assert_eq!(o, 1);
}

#[test]
fn classify_follows_the_thresholds() {
    let t = threshold();
    assert_eq!(classify(1, t), OutcomeClass::CritFailure);
    assert_eq!(classify(2, t), OutcomeClass::Failure);
    assert_eq!(classify(9, t), OutcomeClass::Failure);
    assert_eq!(classify(10, t), OutcomeClass::Success);
    assert_eq!(classify(19, t), OutcomeClass::Success);
    assert_eq!(classify(20, t), OutcomeClass::CritSuccess);
}

#[test]
fn success_continuation_applies_to_the_player() {
    let reg = Registry::new();
    let mut p = bare_player("3");
    let mut strange = reg.items[0].duplicate();
    strange.name = "Mirror".to_string();
    p.collect(strange);
    p.effects.push(effect_with_roll_hook(
        "Trap",
        RollHook::SetOnSuccess(PlayerHook::ReplaceRandomItemWith(0)),
    ));
    // Draw 15 with no modifier: a plain success, so the continuation runs
    // and the only inventory item turns to sand.
    let (o, q) = resolve_with(p, RollType::Ability(StatType::Strength), 0, 15, 0, threshold(), &reg);
    assert_eq!(o, 15);
    assert_eq!(q.inventory.len(), 1);
    assert_eq!(q.inventory[0].item.name, "Sand");
}

#[test]
fn failure_without_continuation_leaves_the_player_alone() {
    let reg = Registry::new();
    let mut p = bare_player("3");
    let mut strange = reg.items[0].duplicate();
    strange.name = "Mirror".to_string();
    p.collect(strange);
    let (o, q) = resolve_with(p, RollType::Ability(StatType::Strength), 0, 5, 0, threshold(), &reg);
    assert_eq!(o, 5);
    assert_eq!(q.inventory[0].item.name, "Mirror");
}
