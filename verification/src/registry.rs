//! The fixed effect/item catalog: stable identifiers mapped to canonical
//! templates, built once at startup and shared read-only.
//!
//! Lookup by identifier is the primary path; lookup by display name exists
//! for reading back persisted snapshots, which store display names.

use vstd::prelude::*;
use vstd::string::StringExecFns;
use crate::model::{Effect, EffectV, Item, ItemV, PlayerHook, RollHook, ItemMeta};
use crate::text::{str_eq, chars_eq_str};

verus! {

/// The catalog of known effect and item templates.
pub struct Registry {
    pub effects: Vec<Effect>,
    pub items: Vec<Item>,
}

/// Mathematical image of a `Registry`.
pub ghost struct RegistryV {
    pub effects: Seq<EffectV>,
    pub items: Seq<ItemV>,
}

impl View for Registry {
    type V = RegistryV;

    open spec fn view(&self) -> RegistryV {
        RegistryV {
            effects: self.effects@.map_values(|e: Effect| e@),
            items: self.items@.map_values(|i: Item| i@),
        }
    }
}

/// Identifiers and display names are unique per kind, effect templates carry
/// at least one turn of duration, and every hook that names a catalog item
/// names an existing one.
pub open spec fn wf_registry_v(r: RegistryV) -> bool {
    &&& forall|i: int, j: int|
        0 <= i < j < r.effects.len() ==> r.effects[i].id != r.effects[j].id && r.effects[i].name
            != r.effects[j].name
    &&& forall|i: int, j: int|
        0 <= i < j < r.items.len() ==> r.items[i].id != r.items[j].id && r.items[i].name
            != r.items[j].name
    &&& forall|i: int| 0 <= i < r.effects.len() ==> (#[trigger] r.effects[i]).duration >= 1
    &&& forall|i: int|
        0 <= i < r.effects.len() ==> valid_hook((#[trigger] r.effects[i]).on_turn, r.items.len())
}

/// A player hook only replaces with items the catalog has.
pub open spec fn valid_hook(h: PlayerHook, n_items: nat) -> bool {
    match h {
        PlayerHook::NoOp => true,
        PlayerHook::ReplaceRandomItemWith(ci) => ci < n_items,
    }
}

/// The poison template: one point off every roll for two turns.
pub open spec fn is_poison(e: EffectV) -> bool {
    &&& e.id == "poison"@
    &&& e.name == "Poison"@
    &&& e.duration == 2
    &&& e.modifier == 1
    &&& e.on_turn == PlayerHook::NoOp
    &&& e.on_roll == RollHook::AddModifier(-1i32)
}

/// The curse-of-ra template: each turn, one randomly chosen inventory item
/// turns to sand, for six turns.
pub open spec fn is_curse_of_ra(e: EffectV) -> bool {
    &&& e.id == "curse_of_ra"@
    &&& e.name == "Curse of Ra"@
    &&& e.duration == 6
    &&& e.modifier == 1
    &&& e.on_turn == PlayerHook::ReplaceRandomItemWith(0)
    &&& e.on_roll == RollHook::NoOp
}

/// The sand template: an inert item with no hooks.
pub open spec fn is_sand(it: ItemV) -> bool {
    &&& it.id == "item_sand"@
    &&& it.name == "Sand"@
    &&& it.description == "A handful of sand, seems useless..."@
    &&& it.meta == (ItemMeta { attachment: 0, last_used: 0 })
    &&& it.on_turn is None
    &&& it.on_roll is None
    &&& it.on_use is None
}

impl Registry {
    /// Builds the catalog: the poison and curse-of-ra effects and the sand
    /// item.  Adding an entry is purely additive; no other component needs
    /// to change.
    pub fn new() -> (r: Registry)
        ensures
            wf_registry_v(r@),
            r@.effects.len() == 2,
            is_poison(r@.effects[0]),
            is_curse_of_ra(r@.effects[1]),
            r@.items.len() == 1,
            is_sand(r@.items[0]),
    {
        let poison = Effect {
            id: String::from_str("poison"),
            name: String::from_str("Poison"),
            duration: 2,
            modifier: 1,
            on_turn: PlayerHook::NoOp,
            on_roll: RollHook::AddModifier(-1),
        };
        let curse = Effect {
            id: String::from_str("curse_of_ra"),
            name: String::from_str("Curse of Ra"),
            duration: 6,
            modifier: 1,
            on_turn: PlayerHook::ReplaceRandomItemWith(0),
            on_roll: RollHook::NoOp,
        };
        let sand = Item {
            id: String::from_str("item_sand"),
            meta: ItemMeta { attachment: 0, last_used: 0 },
            name: String::from_str("Sand"),
            description: String::from_str("A handful of sand, seems useless..."),
            on_turn: None,
            on_roll: None,
            on_use: None,
        };
        let mut effects: Vec<Effect> = Vec::new();
        effects.push(poison);
        effects.push(curse);
        let mut items: Vec<Item> = Vec::new();
        items.push(sand);
        let r = Registry { effects, items };
        proof {
            reveal_strlit("poison");
            reveal_strlit("curse_of_ra");
            reveal_strlit("Poison");
            reveal_strlit("Curse of Ra");
            assert("poison"@.len() == 6);
            assert("curse_of_ra"@.len() == 11);
            assert("Poison"@.len() == 6);
            assert("Curse of Ra"@.len() == 11);
            assert(r@.effects[0].id != r@.effects[1].id);
            assert(r@.effects[0].name != r@.effects[1].name);
        }
        r
    }

    /// The position of the effect with the given stable identifier, if any.
    pub fn effect_by_id(&self, id: &str) -> (r: Option<usize>)
        ensures
            r matches Some(i) ==> i < self@.effects.len() && self@.effects[i as int].id == id@,
            r is None ==> forall|j: int|
                0 <= j < self@.effects.len() ==> (#[trigger] self@.effects[j]).id != id@,
    {
        let mut i: usize = 0;
        while i < self.effects.len()
            invariant
                i <= self.effects@.len(),
                forall|j: int| 0 <= j < i ==> (#[trigger] self@.effects[j]).id != id@,
            decreases self.effects@.len() - i,
        {
            if str_eq(self.effects[i].id.as_str(), id) {
                return Some(i);
            }
            i = i + 1;
        }
        None
    }

    /// The position of the item with the given stable identifier, if any.
    pub fn item_by_id(&self, id: &str) -> (r: Option<usize>)
        ensures
            r matches Some(i) ==> i < self@.items.len() && self@.items[i as int].id == id@,
            r is None ==> forall|j: int|
                0 <= j < self@.items.len() ==> (#[trigger] self@.items[j]).id != id@,
    {
        let mut i: usize = 0;
        while i < self.items.len()
            invariant
                i <= self.items@.len(),
                forall|j: int| 0 <= j < i ==> (#[trigger] self@.items[j]).id != id@,
            decreases self.items@.len() - i,
        {
            if str_eq(self.items[i].id.as_str(), id) {
                return Some(i);
            }
            i = i + 1;
        }
        None
    }

    /// The position of the first effect with the given display name: the
    /// legacy key under which snapshots persist effects.
    pub fn effect_by_name(&self, name: &Vec<char>) -> (r: Option<usize>)
        ensures
            (r is Some) == (spec_effect_by_name(self@, name@, 0) is Some),
            r matches Some(i) ==> spec_effect_by_name(self@, name@, 0) == Some(i as int),
    {
        let mut i: usize = 0;
        while i < self.effects.len()
            invariant
                i <= self.effects@.len(),
                spec_effect_by_name(self@, name@, 0) == spec_effect_by_name(self@, name@, i as int),
            decreases self.effects@.len() - i,
        {
            if chars_eq_str(name, self.effects[i].name.as_str()) {
                proof {
                    assert(spec_effect_by_name(self@, name@, i as int) == Some(i as int));
                }
                return Some(i);
            }
            proof {
                assert(spec_effect_by_name(self@, name@, i as int) == spec_effect_by_name(
                    self@,
                    name@,
                    i + 1,
                ));
            }
            i = i + 1;
        }
        proof {
            assert(spec_effect_by_name(self@, name@, self.effects@.len() as int) is None);
        }
        None
    }

    /// The position of the first item with the given display name: the
    /// legacy key under which snapshots persist items.
    pub fn item_by_name(&self, name: &Vec<char>) -> (r: Option<usize>)
        ensures
            (r is Some) == (spec_item_by_name(self@, name@, 0) is Some),
            r matches Some(i) ==> spec_item_by_name(self@, name@, 0) == Some(i as int),
    {
        let mut i: usize = 0;
        while i < self.items.len()
            invariant
                i <= self.items@.len(),
                spec_item_by_name(self@, name@, 0) == spec_item_by_name(self@, name@, i as int),
            decreases self.items@.len() - i,
        {
            if chars_eq_str(name, self.items[i].name.as_str()) {
                proof {
                    assert(spec_item_by_name(self@, name@, i as int) == Some(i as int));
                }
                return Some(i);
            }
            proof {
                assert(spec_item_by_name(self@, name@, i as int) == spec_item_by_name(
                    self@,
                    name@,
                    i + 1,
                ));
            }
            i = i + 1;
        }
        proof {
            assert(spec_item_by_name(self@, name@, self.items@.len() as int) is None);
        }
        None
    }
}

/// Index of the first effect at or after `from` whose display name is `name`.
pub open spec fn spec_effect_by_name(r: RegistryV, name: Seq<char>, from: int) -> Option<int>
    decreases r.effects.len() - from when 0 <= from <= r.effects.len()
{
    if from < 0 || from >= r.effects.len() {
        None
    } else if r.effects[from].name == name {
        Some(from)
    } else {
        spec_effect_by_name(r, name, from + 1)
    }
}

/// Index of the first item at or after `from` whose display name is `name`.
pub open spec fn spec_item_by_name(r: RegistryV, name: Seq<char>, from: int) -> Option<int>
    decreases r.items.len() - from when 0 <= from <= r.items.len()
{
    if from < 0 || from >= r.items.len() {
        None
    } else if r.items[from].name == name {
        Some(from)
    } else {
        spec_item_by_name(r, name, from + 1)
    }
}

/// A found effect index is in range and names the sought name.
pub proof fn lemma_effect_by_name_found(r: RegistryV, name: Seq<char>, from: int, i: int)
    requires
        0 <= from <= r.effects.len(),
        spec_effect_by_name(r, name, from) == Some(i),
    ensures
        from <= i < r.effects.len(),
        r.effects[i].name == name,
    decreases r.effects.len() - from,
{
    if from >= r.effects.len() {
        assert(spec_effect_by_name(r, name, from) is None);
    } else if r.effects[from].name == name {
        assert(spec_effect_by_name(r, name, from) == Some(from));
    } else {
        assert(spec_effect_by_name(r, name, from) == spec_effect_by_name(r, name, from + 1));
        lemma_effect_by_name_found(r, name, from + 1, i);
    }
}

/// A found item index is in range and names the sought name.
pub proof fn lemma_item_by_name_found(r: RegistryV, name: Seq<char>, from: int, i: int)
    requires
        0 <= from <= r.items.len(),
        spec_item_by_name(r, name, from) == Some(i),
    ensures
        from <= i < r.items.len(),
        r.items[i].name == name,
    decreases r.items.len() - from,
{
    if from >= r.items.len() {
        assert(spec_item_by_name(r, name, from) is None);
    } else if r.items[from].name == name {
        assert(spec_item_by_name(r, name, from) == Some(from));
    } else {
        assert(spec_item_by_name(r, name, from) == spec_item_by_name(r, name, from + 1));
        lemma_item_by_name_found(r, name, from + 1, i);
    }
}

} // verus!
