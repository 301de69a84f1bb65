//! The game state store: owns the players, provides get-or-create and the
//! per-turn effect countdown with its hooks.

use vstd::prelude::*;
use crate::model::{
    Player, PlayerV, Effect, EffectV, InvSlot, wf_player_v, wf_player, wf_stats, spec_slot_index,
    marked_used,
};
use crate::pipeline::{apply_player_hook, apply_player_hook_spec};
use crate::registry::{Registry, RegistryV, wf_registry_v};
use crate::rng::draw_index;
use crate::text::{str_eq, plain_str};

verus! {

/// The whole game world: every known player.  The sole unit of persistence.
#[derive(Clone, Debug)]
pub struct GameState {
    pub players: Vec<Player>,
}

/// Mathematical image of a `GameState`.
pub ghost struct GameStateV {
    pub players: Seq<PlayerV>,
}

impl View for GameState {
    type V = GameStateV;

    open spec fn view(&self) -> GameStateV {
        GameStateV { players: self.players@.map_values(|p: Player| p@) }
    }
}

/// Player identifiers are unique and every player is well formed.
pub open spec fn wf_state_v(g: GameStateV) -> bool {
    &&& forall|i: int, j: int|
        0 <= i < j < g.players.len() ==> g.players[i].id != g.players[j].id
    &&& forall|i: int| 0 <= i < g.players.len() ==> wf_player_v(#[trigger] g.players[i])
}

/// Index of the first player at or after `from` with the given identifier.
pub open spec fn spec_player_by_id(g: GameStateV, id: Seq<char>, from: int) -> Option<int>
    decreases g.players.len() - from when 0 <= from <= g.players.len()
{
    if from < 0 || from >= g.players.len() {
        None
    } else if g.players[from].id == id {
        Some(from)
    } else {
        spec_player_by_id(g, id, from + 1)
    }
}

/// A found player index is in range and carries the sought identifier.
pub proof fn lemma_player_by_id_found(g: GameStateV, id: Seq<char>, from: int, i: int)
    requires
        0 <= from <= g.players.len(),
        spec_player_by_id(g, id, from) == Some(i),
    ensures
        from <= i < g.players.len(),
        g.players[i].id == id,
    decreases g.players.len() - from,
{
    if from >= g.players.len() {
        assert(spec_player_by_id(g, id, from) is None);
    } else if g.players[from].id == id {
        assert(spec_player_by_id(g, id, from) == Some(from));
    } else {
        assert(spec_player_by_id(g, id, from) == spec_player_by_id(g, id, from + 1));
        lemma_player_by_id_found(g, id, from + 1, i);
    }
}

/// When no player is found, no player from `from` on carries the identifier.
pub proof fn lemma_player_by_id_none(g: GameStateV, id: Seq<char>, from: int)
    requires
        0 <= from <= g.players.len(),
        spec_player_by_id(g, id, from) is None,
    ensures
        forall|j: int| from <= j < g.players.len() ==> (#[trigger] g.players[j]).id != id,
    decreases g.players.len() - from,
{
    if from < g.players.len() {
        assert(spec_player_by_id(g, id, from) == spec_player_by_id(g, id, from + 1));
        lemma_player_by_id_none(g, id, from + 1);
    }
}

/// The player after `n` turn hooks: hook `k` is the `on_turn` of `effs[k]`,
/// applied with random pick `picks[k]`.
pub open spec fn apply_turn_hooks(
    p: PlayerV,
    effs: Seq<EffectV>,
    reg: RegistryV,
    picks: Seq<int>,
    n: int,
) -> PlayerV
    decreases n,
{
    if n <= 0 {
        p
    } else {
        apply_player_hook_spec(
            apply_turn_hooks(p, effs, reg, picks, n - 1),
            effs[n - 1].on_turn,
            reg,
            picks[n - 1],
        )
    }
}

/// Turn hooks never touch picks beyond the first `n`.
proof fn lemma_turn_hooks_extend(
    p: PlayerV,
    effs: Seq<EffectV>,
    reg: RegistryV,
    picks: Seq<int>,
    x: int,
    n: int,
)
    requires
        0 <= n <= picks.len(),
    ensures
        apply_turn_hooks(p, effs, reg, picks.push(x), n) == apply_turn_hooks(p, effs, reg, picks, n),
    decreases n,
{
    if n > 0 {
        lemma_turn_hooks_extend(p, effs, reg, picks, x, n - 1);
        assert(picks.push(x)[n - 1] == picks[n - 1]);
    }
}

/// A player hook changes at most the inventory's items, preserving its
/// length, the slot ids, the attachment tags, and every other field.
pub proof fn lemma_apply_hook_frame(p: PlayerV, h: crate::model::PlayerHook, reg: RegistryV, pick: int)
    ensures
        apply_player_hook_spec(p, h, reg, pick).id == p.id,
        apply_player_hook_spec(p, h, reg, pick).stats == p.stats,
        apply_player_hook_spec(p, h, reg, pick).effects == p.effects,
        apply_player_hook_spec(p, h, reg, pick).next_slot == p.next_slot,
        apply_player_hook_spec(p, h, reg, pick).inventory.len() == p.inventory.len(),
        forall|i: int|
            0 <= i < p.inventory.len() ==> (#[trigger] apply_player_hook_spec(
                p,
                h,
                reg,
                pick,
            ).inventory[i]).slot == p.inventory[i].slot,
        wf_player_v(p) ==> wf_player_v(apply_player_hook_spec(p, h, reg, pick)),
{
}

/// The frame facts of `lemma_apply_hook_frame`, extended over a whole fold
/// of turn hooks.
pub proof fn lemma_turn_hooks_frame(
    p: PlayerV,
    effs: Seq<EffectV>,
    reg: RegistryV,
    picks: Seq<int>,
    n: int,
)
    ensures
        apply_turn_hooks(p, effs, reg, picks, n).id == p.id,
        apply_turn_hooks(p, effs, reg, picks, n).stats == p.stats,
        apply_turn_hooks(p, effs, reg, picks, n).effects == p.effects,
        apply_turn_hooks(p, effs, reg, picks, n).next_slot == p.next_slot,
        apply_turn_hooks(p, effs, reg, picks, n).inventory.len() == p.inventory.len(),
        wf_player_v(p) ==> wf_player_v(apply_turn_hooks(p, effs, reg, picks, n)),
    decreases n,
{
    if n > 0 {
        lemma_turn_hooks_frame(p, effs, reg, picks, n - 1);
        lemma_apply_hook_frame(
            apply_turn_hooks(p, effs, reg, picks, n - 1),
            effs[n - 1].on_turn,
            reg,
            picks[n - 1],
        );
    }
}

/// Effects after one turn: every duration decremented, entries that reach
/// zero or below removed, order preserved.
pub open spec fn tick_effects(effs: Seq<EffectV>) -> Seq<EffectV>
    decreases effs.len(),
{
    if effs.len() == 0 {
        Seq::<EffectV>::empty()
    } else {
        let rest = tick_effects(effs.drop_last());
        let e = effs.last();
        if e.duration - 1 >= 1 {
            rest.push(EffectV { duration: (e.duration - 1) as i32, ..e })
        } else {
            rest
        }
    }
}

/// Every effect that survives a tick has at least one turn left.
pub proof fn lemma_tick_alive(effs: Seq<EffectV>)
    ensures
        forall|i: int|
            0 <= i < tick_effects(effs).len() ==> (#[trigger] tick_effects(effs)[i]).duration >= 1,
    decreases effs.len(),
{
    if effs.len() > 0 {
        lemma_tick_alive(effs.drop_last());
    }
}

/// Every pick is one the random source can return: nonnegative, and below
/// the inventory length (constant across a hook fold) whenever the
/// inventory is non-empty.
pub open spec fn valid_picks(picks: Seq<int>, inv_len: nat) -> bool {
    forall|k: int|
        0 <= k < picks.len() ==> 0 <= #[trigger] picks[k] && (inv_len > 0 ==> picks[k] < inv_len)
}

/// The player after a full turn advance: all turn hooks applied in storage
/// order, then the effect durations counted down and expired effects
/// removed.
pub open spec fn advance_player_spec(p: PlayerV, reg: RegistryV, picks: Seq<int>) -> PlayerV {
    PlayerV {
        effects: tick_effects(p.effects),
        ..apply_turn_hooks(p, p.effects, reg, picks, p.effects.len() as int)
    }
}

/// A player whose single active effect is on its last turn has no active
/// effects after a turn advance.
pub proof fn lemma_advance_removes_expiring_effect(p: PlayerV, reg: RegistryV, picks: Seq<int>)
    requires
        p.effects.len() == 1,
        p.effects[0].duration == 1,
    ensures
        advance_player_spec(p, reg, picks).effects.len() == 0,
{
    assert(p.effects.drop_last() =~= Seq::<EffectV>::empty());
    assert(tick_effects(p.effects.drop_last()) =~= Seq::<EffectV>::empty());
}

/// Applies one turn to a player: every active effect's `on_turn` hook in
/// storage order (each with a fresh random pick), then the countdown.
pub fn advance_player(p: &mut Player, reg: &Registry)
    requires
        wf_player(*old(p)),
        wf_registry_v(reg@),
    ensures
        wf_player(*final(p)),
        final(p)@.id == old(p)@.id,
        final(p)@.stats == old(p)@.stats,
        final(p)@.next_slot == old(p)@.next_slot,
        exists|picks: Seq<int>|
            picks.len() == old(p)@.effects.len() && valid_picks(picks, old(p)@.inventory.len())
                && final(p)@ == #[trigger] advance_player_spec(old(p)@, reg@, picks),
{
    let ghost pv = p@;
    let ghost mut picks: Seq<int> = Seq::empty();
    let n = p.effects.len();
    let mut i: usize = 0;
    while i < n
        invariant
            i <= n,
            n == pv.effects.len(),
            wf_registry_v(reg@),
            picks.len() == i,
            valid_picks(picks, pv.inventory.len()),
            p@.effects == pv.effects,
            p@.inventory.len() == pv.inventory.len(),
            p@ == apply_turn_hooks(pv, pv.effects, reg@, picks, i as int),
            wf_player_v(p@),
            wf_player_v(pv),
        decreases n - i,
    {
        let h = p.effects[i].on_turn;
        let len = p.inventory.len();
        let pick: usize = if len > 0 {
            draw_index(len)
        } else {
            0
        };
        proof {
            lemma_turn_hooks_extend(pv, pv.effects, reg@, picks, pick as int, i as int);
        }
        let ghost before = p@;
        apply_player_hook(p, h, reg, pick);
        proof {
            picks = picks.push(pick as int);
            assert(pv.effects[i as int].on_turn == h);
            assert(p@ == apply_turn_hooks(pv, pv.effects, reg@, picks, i + 1));
            lemma_apply_hook_frame(before, h, reg@, pick as int);
        }
        i = i + 1;
    }
    let mut out: Vec<Effect> = Vec::new();
    let mut j: usize = 0;
    while j < p.effects.len()
        invariant
            j <= p.effects@.len(),
            p@.effects == pv.effects,
            p@.effects.len() == p.effects@.len(),
            out@.map_values(|e: Effect| e@) == tick_effects(pv.effects.subrange(0, j as int)),
        decreases p.effects@.len() - j,
    {
        proof {
            assert(pv.effects.subrange(0, j + 1).drop_last() =~= pv.effects.subrange(0, j as int));
            assert(pv.effects.subrange(0, j + 1).last() == pv.effects[j as int]);
        }
        let e = &p.effects[j];
        if e.duration >= 2 {
            let mut e2 = e.duplicate();
            e2.duration = e2.duration - 1;
            out.push(e2);
            proof {
                assert(out@.map_values(|e: Effect| e@) =~= tick_effects(
                    pv.effects.subrange(0, j + 1),
                ));
            }
        }
        j = j + 1;
    }
    proof {
        assert(pv.effects.subrange(0, pv.effects.len() as int) =~= pv.effects);
    }
    p.effects = out;
    proof {
        lemma_turn_hooks_frame(pv, pv.effects, reg@, picks, n as int);
        lemma_tick_alive(pv.effects);
        assert(p@ == advance_player_spec(pv, reg@, picks));
        assert(picks.len() == pv.effects.len() && valid_picks(picks, pv.inventory.len()) && p@
            == advance_player_spec(pv, reg@, picks));
    }
}

/// Uses the item in the named inventory slot: marks it used at `now`, then
/// applies its `on_use` hook (with a fresh random pick) to the player.
/// Returns whether anything happened: false when the slot is unknown or the
/// item has no use hook.
pub fn use_item(p: &mut Player, slot: u32, now: u32, reg: &Registry) -> (used: bool)
    requires
        wf_player(*old(p)),
        wf_registry_v(reg@),
    ensures
        wf_player(*final(p)),
        spec_slot_index(old(p)@.inventory, slot, 0) is None ==> final(p)@ == old(p)@ && !used,
        spec_slot_index(old(p)@.inventory, slot, 0) matches Some(k) ==> {
            &&& old(p)@.inventory[k].item.on_use is None ==> final(p)@ == old(p)@ && !used
            &&& old(p)@.inventory[k].item.on_use matches Some(h) ==> used && exists|pick: int|
                0 <= pick < old(p)@.inventory.len() && final(p)@
                    == #[trigger] apply_player_hook_spec(marked_used(old(p)@, k, now), h, reg@, pick)
        },
{
    let ghost pv = p@;
    let mut i: usize = 0;
    while i < p.inventory.len()
        invariant
            i <= p.inventory@.len(),
            p@ == pv,
            pv == old(p)@,
            wf_player_v(pv),
            wf_registry_v(reg@),
            spec_slot_index(pv.inventory, slot, 0) == spec_slot_index(pv.inventory, slot, i as int),
        decreases p.inventory@.len() - i,
    {
        if p.inventory[i].slot == slot {
            proof {
                assert(spec_slot_index(pv.inventory, slot, i as int) == Some(i as int));
            }
            let h = match p.inventory[i].item.on_use {
                None => {
                    return false;
                },
                Some(h) => h,
            };
            let mut it = p.inventory[i].item.duplicate();
            it.meta.last_used = now;
            let entry = InvSlot { slot: p.inventory[i].slot, item: it };
            p.inventory.set(i, entry);
            proof {
                assert(p@.inventory =~= marked_used(pv, i as int, now).inventory);
                assert(p@ == marked_used(pv, i as int, now));
                assert(wf_player_v(p@));
            }
            let len = p.inventory.len();
            let pick: usize = if len > 0 {
                draw_index(len)
            } else {
                0
            };
            let ghost mv = p@;
            apply_player_hook(p, h, reg, pick);
            proof {
                lemma_apply_hook_frame(mv, h, reg@, pick as int);
                assert(final(p)@ == apply_player_hook_spec(
                    marked_used(pv, i as int, now),
                    h,
                    reg@,
                    pick as int,
                ));
            }
            return true;
        }
        proof {
            assert(spec_slot_index(pv.inventory, slot, i as int) == spec_slot_index(
                pv.inventory,
                slot,
                i + 1,
            ));
        }
        i = i + 1;
    }
    proof {
        assert(spec_slot_index(pv.inventory, slot, pv.inventory.len() as int) is None);
    }
    false
}

impl GameState {
    /// A world with no players yet.
    pub fn new() -> (g: GameState)
        ensures
            g@.players.len() == 0,
            wf_state_v(g@),
    {
        let g = GameState { players: Vec::new() };
        proof {
            assert(g@.players =~= Seq::<PlayerV>::empty());
        }
        g
    }

    /// Returns the position of the player with the given identifier,
    /// creating the player first — with freshly rolled stats, no effects,
    /// and an empty inventory — if the identifier is unseen.  Asking twice
    /// for the same identifier returns the same player, not a fresh one.
    /// The identifier must be storable in a snapshot, which holds only
    /// plain characters.
    pub fn get_player(&mut self, id: &str) -> (idx: usize)
        requires
            wf_state_v(old(self)@),
            plain_str(id@),
        ensures
            wf_state_v(final(self)@),
            idx < final(self)@.players.len(),
            final(self)@.players[idx as int].id == id@,
            spec_player_by_id(old(self)@, id@, 0) matches Some(i) ==> final(self)@ == old(self)@
                && idx as int == i,
            spec_player_by_id(old(self)@, id@, 0) is None ==> {
                &&& final(self)@.players.len() == old(self)@.players.len() + 1
                &&& final(self)@.players.subrange(0, old(self)@.players.len() as int) == old(
                    self,
                )@.players
                &&& idx as int == old(self)@.players.len()
                &&& final(self)@.players[idx as int].effects.len() == 0
                &&& final(self)@.players[idx as int].inventory.len() == 0
                &&& wf_stats(final(self)@.players[idx as int].stats)
            },
    {
        let ghost g0 = self@;
        let mut i: usize = 0;
        while i < self.players.len()
            invariant
                i <= self.players@.len(),
                self@ == g0,
                wf_state_v(g0),
                spec_player_by_id(g0, id@, 0) == spec_player_by_id(g0, id@, i as int),
            decreases self.players@.len() - i,
        {
            if str_eq(self.players[i].id.as_str(), id) {
                proof {
                    assert(spec_player_by_id(g0, id@, i as int) == Some(i as int));
                }
                return i;
            }
            proof {
                assert(spec_player_by_id(g0, id@, i as int) == spec_player_by_id(
                    g0,
                    id@,
                    i + 1,
                ));
            }
            i = i + 1;
        }
        proof {
            assert(spec_player_by_id(g0, id@, g0.players.len() as int) is None);
            lemma_player_by_id_none(g0, id@, 0);
        }
        let p = Player::new(id.to_owned());
        let idx = self.players.len();
        self.players.push(p);
        proof {
            assert(self@.players =~= g0.players.push(self.players@[idx as int]@));
            assert(self@.players.subrange(0, g0.players.len() as int) =~= g0.players);
            assert forall|a: int| 0 <= a < self@.players.len() implies wf_player_v(
                #[trigger] self@.players[a],
            ) by {
                if a < g0.players.len() {
                    assert(self@.players[a] == g0.players[a]);
                }
            }
            assert forall|a: int, b: int| 0 <= a < b < self@.players.len() implies self@.players[a].id
                != self@.players[b].id by {
                if b < g0.players.len() {
                    assert(self@.players[a] == g0.players[a]);
                    assert(self@.players[b] == g0.players[b]);
                } else {
                    assert(self@.players[a] == g0.players[a]);
                    assert(self@.players[b].id == id@);
                }
            }
        }
        idx
    }

    /// Advances one turn for the named player: each active effect's
    /// `on_turn` hook runs in storage order, durations count down by one,
    /// and effects that reach zero are removed.  Unknown identifiers change
    /// nothing.
    pub fn advance_turn(&mut self, id: &str, reg: &Registry)
        requires
            wf_state_v(old(self)@),
            wf_registry_v(reg@),
        ensures
            wf_state_v(final(self)@),
            spec_player_by_id(old(self)@, id@, 0) is None ==> final(self)@ == old(self)@,
            spec_player_by_id(old(self)@, id@, 0) is Some ==> exists|i: int, picks: Seq<int>|
                spec_player_by_id(old(self)@, id@, 0) == Some(i) && picks.len() == old(
                    self,
                )@.players[i].effects.len() && valid_picks(
                    picks,
                    old(self)@.players[i].inventory.len(),
                ) && final(self)@.players == old(self)@.players.update(
                    i,
                    #[trigger] advance_player_spec(old(self)@.players[i], reg@, picks),
                ),
    {
        let ghost g0 = self@;
        let mut i: usize = 0;
        while i < self.players.len()
            invariant
                i <= self.players@.len(),
                self@ == g0,
                g0 == old(self)@,
                wf_state_v(g0),
                wf_registry_v(reg@),
                spec_player_by_id(g0, id@, 0) == spec_player_by_id(g0, id@, i as int),
            decreases self.players@.len() - i,
        {
            if str_eq(self.players[i].id.as_str(), id) {
                proof {
                    assert(spec_player_by_id(g0, id@, i as int) == Some(i as int));
                }
                proof {
                    lemma_player_by_id_found(g0, id@, 0, i as int);
                }
                let mut pl = self.players.remove(i);
                proof {
                    assert(pl@ == g0.players[i as int]);
                    assert(wf_player_v(pl@));
                }
                advance_player(&mut pl, reg);
                let ghost plv = pl@;
                self.players.insert(i, pl);
                proof {
                    let picks = choose|picks: Seq<int>|
                        picks.len() == g0.players[i as int].effects.len() && valid_picks(
                            picks,
                            g0.players[i as int].inventory.len(),
                        ) && plv == #[trigger] advance_player_spec(
                            g0.players[i as int],
                            reg@,
                            picks,
                        );
                    assert(plv == advance_player_spec(g0.players[i as int], reg@, picks));
                    assert(valid_picks(picks, g0.players[i as int].inventory.len()));
                    assert(self@.players =~= g0.players.update(
                        i as int,
                        advance_player_spec(g0.players[i as int], reg@, picks),
                    ));
                    assert(picks.len() == old(self)@.players[i as int].effects.len());
                    assert(self@.players == old(self)@.players.update(
                        i as int,
                        advance_player_spec(old(self)@.players[i as int], reg@, picks),
                    ));
                    assert(spec_player_by_id(old(self)@, id@, 0) == Some(i as int));
                    assert(valid_picks(picks, old(self)@.players[i as int].inventory.len()));
                    assert(exists|ii: int, picks2: Seq<int>|
                        spec_player_by_id(old(self)@, id@, 0) == Some(ii) && picks2.len() == old(
                            self,
                        )@.players[ii].effects.len() && valid_picks(
                            picks2,
                            old(self)@.players[ii].inventory.len(),
                        ) && self@.players == old(self)@.players.update(
                            ii,
                            #[trigger] advance_player_spec(old(self)@.players[ii], reg@, picks2),
                        ));
                    assert forall|a: int| 0 <= a < self@.players.len() implies wf_player_v(
                        #[trigger] self@.players[a],
                    ) by {
                        if a == i as int {
                            assert(self@.players[a] == plv);
                        } else {
                            assert(self@.players[a] == g0.players[a]);
                        }
                    }
                    assert forall|a: int, b: int|
                        0 <= a < b < self@.players.len() implies self@.players[a].id
                        != self@.players[b].id by {
                        assert(plv.id == g0.players[i as int].id);
                        if a != i as int {
                            assert(self@.players[a] == g0.players[a]);
                        }
                        if b != i as int {
                            assert(self@.players[b] == g0.players[b]);
                        }
                    }
                }
                return ;
            }
            proof {
                assert(spec_player_by_id(g0, id@, i as int) == spec_player_by_id(
                    g0,
                    id@,
                    i + 1,
                ));
            }
            i = i + 1;
        }
        proof {
            assert(spec_player_by_id(g0, id@, g0.players.len() as int) is None);
        }
    }
}

} // verus!
