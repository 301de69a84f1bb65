//! Roll resolution: folds the hooks of a player's active effects (and of the
//! item used, for an attack) over a roll context, evaluates the outcome, and
//! applies the continuation hook matching the outcome class.

use vstd::prelude::*;
use crate::model::{
    Player, PlayerV, EffectV, ItemV, InvSlot, InvSlotV, ItemMeta, PlayerHook, RollHook, RollType,
    RollTypeV, RollContext, RollContextV,
};
use crate::registry::{Registry, RegistryV};
use crate::dice::clamp_u32;
use crate::rng::{draw_die, draw_index};

verus! {

/// How an outcome compares to the caller's thresholds.
#[derive(Clone, Copy, PartialEq, Eq, Structural, Debug)]
pub enum OutcomeClass {
    CritFailure,
    Failure,
    Success,
    CritSuccess,
}

/// The caller-defined threshold policy for classifying an outcome.
#[derive(Clone, Copy, PartialEq, Eq, Structural, Debug)]
pub struct Threshold {
    pub success_min: u32,
    pub crit_success_min: u32,
    pub crit_failure_max: u32,
}

/// An `i32` sum saturated at the type's bounds.
pub open spec fn sat_i32(v: int) -> int {
    if v < i32::MIN {
        i32::MIN as int
    } else if v > i32::MAX {
        i32::MAX as int
    } else {
        v
    }
}

/// One roll hook applied to the context: adjusts the modifier (saturating)
/// or installs a continuation hook.
pub open spec fn apply_roll_hook_spec(c: RollContextV, h: RollHook) -> RollContextV {
    match h {
        RollHook::NoOp => c,
        RollHook::AddModifier(a) => RollContextV {
            modifier: sat_i32(c.modifier + a) as i32,
            ..c
        },
        RollHook::ScaleModifier(k) => RollContextV {
            modifier: sat_i32(c.modifier * k) as i32,
            ..c
        },
        RollHook::SetOnSuccess(p) => RollContextV { on_success: Some(p), ..c },
        RollHook::SetOnFailure(p) => RollContextV { on_failure: Some(p), ..c },
        RollHook::SetOnCritSuccess(p) => RollContextV { on_c_success: Some(p), ..c },
        RollHook::SetOnCritFailure(p) => RollContextV { on_c_failure: Some(p), ..c },
    }
}

/// The hooks applied to the context in order.
pub open spec fn fold_roll_hooks(c: RollContextV, hs: Seq<RollHook>) -> RollContextV
    decreases hs.len(),
{
    if hs.len() == 0 {
        c
    } else {
        apply_roll_hook_spec(fold_roll_hooks(c, hs.drop_last()), hs.last())
    }
}

/// The roll hooks a player's active effects contribute, in storage order.
pub open spec fn effect_roll_hooks(p: PlayerV) -> Seq<RollHook> {
    p.effects.map_values(|e: EffectV| e.on_roll)
}

/// The context a roll starts from: the intent and the base modifier, with no
/// continuation hooks installed.
pub open spec fn initial_context(intent: RollTypeV, base: i32) -> RollContextV {
    RollContextV {
        roll_type: intent,
        modifier: base,
        on_success: None,
        on_failure: None,
        on_c_success: None,
        on_c_failure: None,
    }
}

/// The context after all applicable hooks: every active effect's roll hook
/// in storage order, then the used item's, if the intent is an attack with
/// an item that has one.
pub open spec fn build_context_spec(p: PlayerV, intent: RollTypeV, base: i32) -> RollContextV {
    let c = fold_roll_hooks(initial_context(intent, base), effect_roll_hooks(p));
    match intent {
        RollTypeV::Attack(Some(it)) => match it.on_roll {
            Some(h) => apply_roll_hook_spec(c, h),
            None => c,
        },
        _ => c,
    }
}

/// Outcome classification against the caller's thresholds.
pub open spec fn classify_spec(outcome: u32, t: Threshold) -> OutcomeClass {
    if outcome <= t.crit_failure_max {
        OutcomeClass::CritFailure
    } else if outcome >= t.crit_success_min {
        OutcomeClass::CritSuccess
    } else if outcome >= t.success_min {
        OutcomeClass::Success
    } else {
        OutcomeClass::Failure
    }
}

/// The continuation hook the context holds for an outcome class, if any.
pub open spec fn continuation_for(c: RollContextV, k: OutcomeClass) -> Option<PlayerHook> {
    match k {
        OutcomeClass::Success => c.on_success,
        OutcomeClass::Failure => c.on_failure,
        OutcomeClass::CritSuccess => c.on_c_success,
        OutcomeClass::CritFailure => c.on_c_failure,
    }
}

/// One player hook applied: replaces the item in the picked inventory entry
/// with the named catalog template (re-attached to that slot), or changes
/// nothing when the pick or the catalog index is out of range.
pub open spec fn apply_player_hook_spec(p: PlayerV, h: PlayerHook, reg: RegistryV, pick: int) -> PlayerV {
    match h {
        PlayerHook::NoOp => p,
        PlayerHook::ReplaceRandomItemWith(ci) => {
            if 0 <= pick < p.inventory.len() && ci < reg.items.len() {
                let slot = p.inventory[pick].slot;
                let tpl = reg.items[ci as int];
                PlayerV {
                    inventory: p.inventory.update(
                        pick,
                        InvSlotV {
                            slot,
                            item: ItemV {
                                meta: ItemMeta { attachment: slot, last_used: tpl.meta.last_used },
                                ..tpl
                            },
                        },
                    ),
                    ..p
                }
            } else {
                p
            }
        },
    }
}

/// The outcome and updated player for one resolution, as a function of the
/// die draw and the random inventory pick.
pub open spec fn resolve_spec(
    p: PlayerV,
    intent: RollTypeV,
    base: i32,
    draw: u32,
    pick: int,
    t: Threshold,
    reg: RegistryV,
) -> (int, PlayerV) {
    let c = build_context_spec(p, intent, base);
    let outcome = clamp_u32(draw + c.modifier);
    match continuation_for(c, classify_spec(outcome as u32, t)) {
        Some(h) => (outcome, apply_player_hook_spec(p, h, reg, pick)),
        None => (outcome, p),
    }
}

/// One roll hook applied to the context.
pub fn apply_roll_hook(c: RollContext, h: RollHook) -> (r: RollContext)
    ensures
        r@ == apply_roll_hook_spec(c@, h),
{
    let mut r = c;
    match h {
        RollHook::NoOp => {},
        RollHook::AddModifier(a) => {
            let v: i64 = r.modifier as i64 + a as i64;
            r.modifier = if v < i32::MIN as i64 {
                i32::MIN
            } else if v > i32::MAX as i64 {
                i32::MAX
            } else {
                v as i32
            };
        },
        RollHook::ScaleModifier(k) => {
            proof {
                let m = r.modifier as int;
                let kk = k as int;
                assert(m * kk <= 0x4000000000000000 && m * kk >= -0x4000000000000000)
                    by (nonlinear_arith)
                    requires
                        -0x80000000 <= m <= 0x7fffffff,
                        -0x80000000 <= kk <= 0x7fffffff,
                ;
            }
            let v: i64 = r.modifier as i64 * k as i64;
            r.modifier = if v < i32::MIN as i64 {
                i32::MIN
            } else if v > i32::MAX as i64 {
                i32::MAX
            } else {
                v as i32
            };
        },
        RollHook::SetOnSuccess(p) => {
            r.on_success = Some(p);
        },
        RollHook::SetOnFailure(p) => {
            r.on_failure = Some(p);
        },
        RollHook::SetOnCritSuccess(p) => {
            r.on_c_success = Some(p);
        },
        RollHook::SetOnCritFailure(p) => {
            r.on_c_failure = Some(p);
        },
    }
    r
}

/// One player hook applied in place.
pub fn apply_player_hook(p: &mut Player, h: PlayerHook, reg: &Registry, pick: usize)
    ensures
        final(p)@ == apply_player_hook_spec(old(p)@, h, reg@, pick as int),
{
    match h {
        PlayerHook::NoOp => {},
        PlayerHook::ReplaceRandomItemWith(ci) => {
            if pick < p.inventory.len() && (ci as usize) < reg.items.len() {
                let slot = p.inventory[pick].slot;
                let mut it = reg.items[ci as usize].duplicate();
                it.meta.attachment = slot;
                p.inventory.set(pick, InvSlot { slot, item: it });
                proof {
                    assert(final(p)@.inventory =~= apply_player_hook_spec(
                        old(p)@,
                        h,
                        reg@,
                        pick as int,
                    ).inventory);
                }
            }
        },
    }
}

/// Builds the roll context for a player and intent: the initial context with
/// every applicable hook folded over it.
pub fn build_context(p: &Player, intent: RollType, base: i32) -> (c: RollContext)
    ensures
        c@ == build_context_spec(p@, intent@, base),
{
    let ghost iv = intent@;
    let item_hook: Option<RollHook> = match &intent {
        RollType::Attack(Some(it)) => it.on_roll,
        _ => None,
    };
    let mut c = RollContext {
        roll_type: intent,
        modifier: base,
        on_success: None,
        on_failure: None,
        on_c_success: None,
        on_c_failure: None,
    };
    proof {
        assert(c@ == initial_context(iv, base));
    }
    let ghost c0 = c@;
    let ghost hooks = effect_roll_hooks(p@);
    let mut i: usize = 0;
    while i < p.effects.len()
        invariant
            i <= p.effects@.len(),
            hooks == effect_roll_hooks(p@),
            hooks.len() == p.effects@.len(),
            forall|j: int| 0 <= j < hooks.len() ==> hooks[j] == p.effects@[j].on_roll,
            c@ == fold_roll_hooks(c0, hooks.subrange(0, i as int)),
        decreases p.effects@.len() - i,
    {
        let h = p.effects[i].on_roll;
        proof {
            assert(hooks.subrange(0, i + 1).drop_last() =~= hooks.subrange(0, i as int));
            assert(hooks.subrange(0, i + 1).last() == hooks[i as int]);
        }
        c = apply_roll_hook(c, h);
        i = i + 1;
    }
    proof {
        assert(hooks.subrange(0, p.effects@.len() as int) =~= hooks);
    }
    match item_hook {
        Some(h) => apply_roll_hook(c, h),
        None => c,
    }
}

/// Outcome classification against the caller's thresholds.
pub fn classify(outcome: u32, t: Threshold) -> (k: OutcomeClass)
    ensures
        k == classify_spec(outcome, t),
{
    if outcome <= t.crit_failure_max {
        OutcomeClass::CritFailure
    } else if outcome >= t.crit_success_min {
        OutcomeClass::CritSuccess
    } else if outcome >= t.success_min {
        OutcomeClass::Success
    } else {
        OutcomeClass::Failure
    }
}

/// Deterministic core of roll resolution, as a function of the die draw and
/// the random inventory pick: exactly `resolve_spec`.
pub fn resolve_with(
    p: Player,
    intent: RollType,
    base: i32,
    draw: u32,
    pick: usize,
    t: Threshold,
    reg: &Registry,
) -> (r: (u32, Player))
    ensures
        r.0 as int == resolve_spec(p@, intent@, base, draw, pick as int, t, reg@).0,
        r.1@ == resolve_spec(p@, intent@, base, draw, pick as int, t, reg@).1,
        r.0 >= 1,
{
    let ghost pv = p@;
    let c = build_context(&p, intent, base);
    let v: i64 = draw as i64 + c.modifier as i64;
    let outcome: u32 = if v < 1 {
        1
    } else if v > u32::MAX as i64 {
        u32::MAX
    } else {
        v as u32
    };
    let k = classify(outcome, t);
    let hook: Option<PlayerHook> = match k {
        OutcomeClass::Success => c.on_success,
        OutcomeClass::Failure => c.on_failure,
        OutcomeClass::CritSuccess => c.on_c_success,
        OutcomeClass::CritFailure => c.on_c_failure,
    };
    let mut q = p;
    match hook {
        Some(h) => {
            apply_player_hook(&mut q, h, reg, pick);
        },
        None => {},
    }
    (outcome, q)
}

/// Resolves a roll for the player: draws one die of `sides` sides, folds the
/// applicable hooks, and applies the matching continuation; the result is
/// `resolve_spec` at some draw in `[1, sides]` and some in-range pick.
pub fn resolve(
    p: Player,
    intent: RollType,
    base: i32,
    sides: u32,
    t: Threshold,
    reg: &Registry,
) -> (r: (u32, Player))
    requires
        1 <= sides,
    ensures
        exists|draw: u32, pick: int|
            1 <= draw <= sides && 0 <= pick && (p@.inventory.len() > 0 ==> pick
                < p@.inventory.len()) && (r.0 as int, r.1@) == #[trigger] resolve_spec(
                p@,
                intent@,
                base,
                draw,
                pick,
                t,
                reg@,
            ),
        r.0 >= 1,
{
    let draw = draw_die(sides);
    let pick: usize = if p.inventory.len() > 0 {
        draw_index(p.inventory.len())
    } else {
        0
    };
    let ghost pv = p@;
    let ghost iv = intent@;
    let r = resolve_with(p, intent, base, draw, pick, t, reg);
    proof {
        assert((r.0 as int, r.1@) == resolve_spec(pv, iv, base, draw, pick as int, t, reg@));
    }
    r
}

/// Applying two modifier-mutating hooks in reversed order changes the
/// accumulated modifier: adding then scaling differs from scaling then
/// adding whenever the addition is nonzero and the scale is not the
/// identity (bounds keep the arithmetic away from saturation).
pub proof fn lemma_hook_order_sensitive(c: RollContextV, a: i32, k: i32)
    requires
        -1000 <= c.modifier <= 1000,
        -1000 <= a <= 1000,
        -1000 <= k <= 1000,
        a != 0,
        k != 1,
    ensures
        fold_roll_hooks(c, seq![RollHook::AddModifier(a), RollHook::ScaleModifier(k)]).modifier
            != fold_roll_hooks(
            c,
            seq![RollHook::ScaleModifier(k), RollHook::AddModifier(a)],
        ).modifier,
{
    let s1 = seq![RollHook::AddModifier(a), RollHook::ScaleModifier(k)];
    let s2 = seq![RollHook::ScaleModifier(k), RollHook::AddModifier(a)];
    assert(s1.drop_last() =~= seq![RollHook::AddModifier(a)]);
    assert(s2.drop_last() =~= seq![RollHook::ScaleModifier(k)]);
    assert(seq![RollHook::AddModifier(a)].drop_last() =~= Seq::<RollHook>::empty());
    assert(seq![RollHook::ScaleModifier(k)].drop_last() =~= Seq::<RollHook>::empty());
    let m = c.modifier as int;
    let c1a = apply_roll_hook_spec(c, RollHook::AddModifier(a));
    let c1b = apply_roll_hook_spec(c1a, RollHook::ScaleModifier(k));
    let c2a = apply_roll_hook_spec(c, RollHook::ScaleModifier(k));
    let c2b = apply_roll_hook_spec(c2a, RollHook::AddModifier(a));
    assert(fold_roll_hooks(c, Seq::<RollHook>::empty()) == c);
    assert(fold_roll_hooks(c, seq![RollHook::AddModifier(a)]) == c1a);
    assert(fold_roll_hooks(c, seq![RollHook::ScaleModifier(k)]) == c2a);
    assert(fold_roll_hooks(c, s1) == c1b);
    assert(fold_roll_hooks(c, s2) == c2b);
    assert(c1a.modifier == m + a);
    let v1 = fold_roll_hooks(c, s1).modifier as int;
    let v2 = fold_roll_hooks(c, s2).modifier as int;
    assert((m + a) * k <= 2000 * 1000 && (m + a) * k >= -(2000 * 1000)) by (nonlinear_arith)
        requires
            -1000 <= m <= 1000,
            -1000 <= a <= 1000,
            -1000 <= k <= 1000,
    ;
    assert(m * k <= 1000 * 1000 && m * k >= -(1000 * 1000)) by (nonlinear_arith)
        requires
            -1000 <= m <= 1000,
            -1000 <= k <= 1000,
    ;
    assert(v1 == (m + a) * k);
    assert(v2 == m * k + a);
    assert((m + a) * k == m * k + a * k) by (nonlinear_arith);
    assert(a * k - a == a * (k - 1)) by (nonlinear_arith);
    assert(a * (k - 1) != 0) by (nonlinear_arith)
        requires
            a != 0,
            k != 1,
    ;
}

} // verus!
