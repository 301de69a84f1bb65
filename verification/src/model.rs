//! Entity model: players, ability scores, timed effects, inventory items,
//! and the roll context threaded through roll resolution.
//!
//! Behaviour hooks are a closed tagged union rather than function values, so
//! the pipeline can be checked exhaustively and instances can be persisted by
//! identifier.

use vstd::prelude::*;
use crate::dice::Dice;
use crate::text::plain_str;

verus! {

/// Which ability score a roll is testing.
#[derive(Clone, Copy, PartialEq, Eq, Structural, Debug)]
pub enum StatType {
    Strength,
    Dexterity,
    Constitution,
    Intelligence,
    Wisdom,
    Charisma,
}

/// The six ability scores of a player.
#[derive(Clone, Copy, PartialEq, Eq, Structural, Debug)]
pub struct Stats {
    pub strength: u32,
    pub dexterity: u32,
    pub constitution: u32,
    pub intelligence: u32,
    pub wisdom: u32,
    pub charisma: u32,
}

/// Every ability score lies in the range a stat roll can produce.
pub open spec fn wf_stats(s: Stats) -> bool {
    &&& 3 <= s.strength <= 18
    &&& 3 <= s.dexterity <= 18
    &&& 3 <= s.constitution <= 18
    &&& 3 <= s.intelligence <= 18
    &&& 3 <= s.wisdom <= 18
    &&& 3 <= s.charisma <= 18
}

impl Stats {
    pub open spec fn spec_get(&self, which: StatType) -> u32 {
        match which {
            StatType::Strength => self.strength,
            StatType::Dexterity => self.dexterity,
            StatType::Constitution => self.constitution,
            StatType::Intelligence => self.intelligence,
            StatType::Wisdom => self.wisdom,
            StatType::Charisma => self.charisma,
        }
    }

    /// The score for the named ability.
    pub fn get(&self, which: StatType) -> (r: u32)
        ensures
            r == self.spec_get(which),
    {
        match which {
            StatType::Strength => self.strength,
            StatType::Dexterity => self.dexterity,
            StatType::Constitution => self.constitution,
            StatType::Intelligence => self.intelligence,
            StatType::Wisdom => self.wisdom,
            StatType::Charisma => self.charisma,
        }
    }
}

/// A hook of shape player-to-player, applied on turn advance, item use, or
/// as a roll continuation.  `ReplaceRandomItemWith(ci)` replaces a randomly
/// chosen inventory entry's item with the catalog item at index `ci`.
#[derive(Clone, Copy, PartialEq, Eq, Structural, Debug)]
pub enum PlayerHook {
    NoOp,
    ReplaceRandomItemWith(u32),
}

/// A hook applied to the roll context during roll resolution: it may adjust
/// the accumulating modifier or install a continuation hook for one outcome
/// class.
#[derive(Clone, Copy, PartialEq, Eq, Structural, Debug)]
pub enum RollHook {
    NoOp,
    AddModifier(i32),
    ScaleModifier(i32),
    SetOnSuccess(PlayerHook),
    SetOnFailure(PlayerHook),
    SetOnCritSuccess(PlayerHook),
    SetOnCritFailure(PlayerHook),
}

/// Per-instance item bookkeeping: the inventory slot the item is attached
/// to, and a last-used marker.
#[derive(Clone, Copy, PartialEq, Eq, Structural, Debug)]
pub struct ItemMeta {
    pub attachment: u32,
    pub last_used: u32,
}

impl Default for ItemMeta {
    /// Unattached and never used.
    fn default() -> (r: Self)
        ensures
            r.attachment == 0,
            r.last_used == 0,
    {
        ItemMeta { attachment: 0, last_used: 0 }
    }
}

/// A timed status effect: catalog templates are immutable; a player holds a
/// copy whose duration counts down per turn.
#[derive(Clone, Debug)]
pub struct Effect {
    pub id: String,
    pub name: String,
    pub duration: i32,
    pub modifier: i32,
    pub on_turn: PlayerHook,
    pub on_roll: RollHook,
}

/// Mathematical image of an `Effect`.
pub ghost struct EffectV {
    pub id: Seq<char>,
    pub name: Seq<char>,
    pub duration: i32,
    pub modifier: i32,
    pub on_turn: PlayerHook,
    pub on_roll: RollHook,
}

impl View for Effect {
    type V = EffectV;

    open spec fn view(&self) -> EffectV {
        EffectV {
            id: self.id@,
            name: self.name@,
            duration: self.duration,
            modifier: self.modifier,
            on_turn: self.on_turn,
            on_roll: self.on_roll,
        }
    }
}

impl Effect {
    /// An exact copy, as when a catalog template is attached to a player.
    pub fn duplicate(&self) -> (r: Effect)
        ensures
            r@ == self@,
    {
        Effect {
            id: self.id.clone(),
            name: self.name.clone(),
            duration: self.duration,
            modifier: self.modifier,
            on_turn: self.on_turn,
            on_roll: self.on_roll,
        }
    }
}

/// An inventory object: catalog templates are cloned into a player's
/// inventory; each of the three hooks is optional.
#[derive(Clone, Debug)]
pub struct Item {
    pub id: String,
    pub meta: ItemMeta,
    pub name: String,
    pub description: String,
    pub on_turn: Option<PlayerHook>,
    pub on_roll: Option<RollHook>,
    pub on_use: Option<PlayerHook>,
}

/// Mathematical image of an `Item`.
pub ghost struct ItemV {
    pub id: Seq<char>,
    pub meta: ItemMeta,
    pub name: Seq<char>,
    pub description: Seq<char>,
    pub on_turn: Option<PlayerHook>,
    pub on_roll: Option<RollHook>,
    pub on_use: Option<PlayerHook>,
}

impl View for Item {
    type V = ItemV;

    open spec fn view(&self) -> ItemV {
        ItemV {
            id: self.id@,
            meta: self.meta,
            name: self.name@,
            description: self.description@,
            on_turn: self.on_turn,
            on_roll: self.on_roll,
            on_use: self.on_use,
        }
    }
}

impl Item {
    /// An exact copy, as when a catalog template is acquired.
    pub fn duplicate(&self) -> (r: Item)
        ensures
            r@ == self@,
    {
        Item {
            id: self.id.clone(),
            meta: self.meta,
            name: self.name.clone(),
            description: self.description.clone(),
            on_turn: self.on_turn,
            on_roll: self.on_roll,
            on_use: self.on_use,
        }
    }
}

/// One inventory entry: a generated slot id and the owned item instance.
#[derive(Clone, Debug)]
pub struct InvSlot {
    pub slot: u32,
    pub item: Item,
}

/// Mathematical image of an `InvSlot`.
pub ghost struct InvSlotV {
    pub slot: u32,
    pub item: ItemV,
}

impl View for InvSlot {
    type V = InvSlotV;

    open spec fn view(&self) -> InvSlotV {
        InvSlotV { slot: self.slot, item: self.item@ }
    }
}

/// A player: stable identifier, ability scores, active effects in
/// application order, and an inventory keyed by generated slot ids.
#[derive(Clone, Debug)]
pub struct Player {
    pub id: String,
    pub stats: Stats,
    pub effects: Vec<Effect>,
    pub inventory: Vec<InvSlot>,
    pub next_slot: u32,
}

/// Mathematical image of a `Player`.
pub ghost struct PlayerV {
    pub id: Seq<char>,
    pub stats: Stats,
    pub effects: Seq<EffectV>,
    pub inventory: Seq<InvSlotV>,
    pub next_slot: u32,
}

impl View for Player {
    type V = PlayerV;

    open spec fn view(&self) -> PlayerV {
        PlayerV {
            id: self.id@,
            stats: self.stats,
            effects: self.effects@.map_values(|e: Effect| e@),
            inventory: self.inventory@.map_values(|s: InvSlot| s@),
            next_slot: self.next_slot,
        }
    }
}

/// The identifier survives a snapshot round trip (only plain characters);
/// active effects carry at least one remaining turn; inventory slot ids are
/// strictly increasing and below the allocation counter; each item records
/// the slot it is attached to.
pub open spec fn wf_player_v(p: PlayerV) -> bool {
    &&& plain_str(p.id)
    &&& forall|i: int| 0 <= i < p.effects.len() ==> (#[trigger] p.effects[i]).duration >= 1
    &&& forall|i: int, j: int|
        0 <= i < j < p.inventory.len() ==> p.inventory[i].slot < p.inventory[j].slot
    &&& forall|i: int| 0 <= i < p.inventory.len() ==> (#[trigger] p.inventory[i]).slot
        < p.next_slot
    &&& forall|i: int| 0 <= i < p.inventory.len() ==> (#[trigger] p.inventory[i]).item.meta.attachment
        == p.inventory[i].slot
}

pub open spec fn wf_player(p: Player) -> bool {
    wf_player_v(p@)
}

impl Player {
    /// A fresh player: stats rolled once via four-dice stat rolls, no
    /// effects, an empty inventory.  The identifier must be storable in a
    /// snapshot, which holds only plain characters.
    pub fn new(id: String) -> (p: Player)
        requires
            plain_str(id@),
        ensures
            p@.id == id@,
            p@.effects.len() == 0,
            p@.inventory.len() == 0,
            p@.next_slot == 0,
            wf_stats(p.stats),
            wf_player(p),
    {
        let stats = Stats {
            strength: Dice::stat_roll(),
            dexterity: Dice::stat_roll(),
            constitution: Dice::stat_roll(),
            intelligence: Dice::stat_roll(),
            wisdom: Dice::stat_roll(),
            charisma: Dice::stat_roll(),
        };
        let p = Player { id, stats, effects: Vec::new(), inventory: Vec::new(), next_slot: 0 };
        proof {
            assert(p@.effects =~= Seq::<EffectV>::empty());
            assert(p@.inventory =~= Seq::<InvSlotV>::empty());
        }
        p
    }

    /// Acquire an item: it is stored under a freshly generated slot id, with
    /// its attachment tag set to that slot; nothing else changes.
    pub fn collect(&mut self, item: Item)
        requires
            old(self).next_slot < u32::MAX,
            wf_player(*old(self)),
        ensures
            wf_player(*final(self)),
            final(self)@.id == old(self)@.id,
            final(self)@.stats == old(self)@.stats,
            final(self)@.effects == old(self)@.effects,
            final(self)@.next_slot == old(self)@.next_slot + 1,
            final(self)@.inventory == old(self)@.inventory.push(
                InvSlotV {
                    slot: old(self).next_slot,
                    item: ItemV {
                        meta: ItemMeta {
                            attachment: old(self).next_slot,
                            last_used: item@.meta.last_used,
                        },
                        ..item@
                    },
                },
            ),
    {
        let slot = self.next_slot;
        let mut it = item;
        it.meta.attachment = slot;
        self.inventory.push(InvSlot { slot, item: it });
        self.next_slot = slot + 1;
        proof {
            assert(final(self)@.inventory =~= old(self)@.inventory.push(
                InvSlotV {
                    slot: old(self).next_slot,
                    item: ItemV {
                        meta: ItemMeta {
                            attachment: old(self).next_slot,
                            last_used: item@.meta.last_used,
                        },
                        ..item@
                    },
                },
            ));
            assert(final(self)@.effects =~= old(self)@.effects);
        }
    }
}

/// Index of the first inventory entry with the given slot id.
pub open spec fn spec_slot_index(inv: Seq<InvSlotV>, slot: u32, from: int) -> Option<int>
    decreases inv.len() - from when 0 <= from <= inv.len()
{
    if from < 0 || from >= inv.len() {
        None
    } else if inv[from].slot == slot {
        Some(from)
    } else {
        spec_slot_index(inv, slot, from + 1)
    }
}

/// A found slot index is in range and carries the sought slot id.
pub proof fn lemma_slot_index_found(inv: Seq<InvSlotV>, slot: u32, from: int, i: int)
    requires
        0 <= from <= inv.len(),
        spec_slot_index(inv, slot, from) == Some(i),
    ensures
        from <= i < inv.len(),
        inv[i].slot == slot,
    decreases inv.len() - from,
{
    if from >= inv.len() {
        assert(spec_slot_index(inv, slot, from) is None);
    } else if inv[from].slot == slot {
        assert(spec_slot_index(inv, slot, from) == Some(from));
    } else {
        assert(spec_slot_index(inv, slot, from) == spec_slot_index(inv, slot, from + 1));
        lemma_slot_index_found(inv, slot, from + 1, i);
    }
}

/// The player with the item in inventory entry `k` marked as used at `now`.
pub open spec fn marked_used(p: PlayerV, k: int, now: u32) -> PlayerV {
    PlayerV {
        inventory: p.inventory.update(
            k,
            InvSlotV {
                slot: p.inventory[k].slot,
                item: ItemV {
                    meta: ItemMeta {
                        attachment: p.inventory[k].item.meta.attachment,
                        last_used: now,
                    },
                    ..p.inventory[k].item
                },
            },
        ),
        ..p
    }
}

/// The caller's declared purpose for a roll: an attack, optionally with the
/// item used, or a check against one ability.
#[derive(Clone, Debug)]
pub enum RollType {
    Attack(Option<Item>),
    Ability(StatType),
}

/// Mathematical image of a `RollType`.
pub ghost enum RollTypeV {
    Attack(Option<ItemV>),
    Ability(StatType),
}

impl View for RollType {
    type V = RollTypeV;

    open spec fn view(&self) -> RollTypeV {
        match self {
            RollType::Attack(Some(it)) => RollTypeV::Attack(Some(it@)),
            RollType::Attack(None) => RollTypeV::Attack(None),
            RollType::Ability(st) => RollTypeV::Ability(*st),
        }
    }
}

/// The accumulator threaded through roll resolution: the roll's purpose, the
/// accumulating modifier, and optional continuation hooks per outcome class.
/// It is never persisted.
#[derive(Clone, Debug)]
pub struct RollContext {
    pub roll_type: RollType,
    pub modifier: i32,
    pub on_success: Option<PlayerHook>,
    pub on_failure: Option<PlayerHook>,
    pub on_c_success: Option<PlayerHook>,
    pub on_c_failure: Option<PlayerHook>,
}

/// Mathematical image of a `RollContext`.
pub ghost struct RollContextV {
    pub roll_type: RollTypeV,
    pub modifier: i32,
    pub on_success: Option<PlayerHook>,
    pub on_failure: Option<PlayerHook>,
    pub on_c_success: Option<PlayerHook>,
    pub on_c_failure: Option<PlayerHook>,
}

impl View for RollContext {
    type V = RollContextV;

    open spec fn view(&self) -> RollContextV {
        RollContextV {
            roll_type: self.roll_type@,
            modifier: self.modifier,
            on_success: self.on_success,
            on_failure: self.on_failure,
            on_c_success: self.on_c_success,
            on_c_failure: self.on_c_failure,
        }
    }
}

} // verus!
