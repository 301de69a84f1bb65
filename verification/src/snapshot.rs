//! Durable snapshot codec.
//!
//! The snapshot is one JSON object: a top-level `players` map from
//! player-identifier to a player record holding the identifier, the six
//! stats, the active effects as display names, and the inventory as a map
//! from slot id to item display name.  Effects and items are persisted by
//! display name and re-resolved against the registry on load; an
//! unresolvable name is a load error.  The writer is canonical (no
//! whitespace, keys in a fixed order) and the reader accepts exactly the
//! canonical form.

use vstd::prelude::*;
use vstd::string::StrSliceExecFns;
use crate::dice::{is_digit, digit_val, all_digits, digits_val};
use crate::model::{
    Stats, Effect, EffectV, Item, ItemV, InvSlot, InvSlotV, ItemMeta, Player, PlayerV,
};
use crate::registry::{
    Registry, RegistryV, spec_effect_by_name, spec_item_by_name, lemma_effect_by_name_found,
    lemma_item_by_name_found,
};
use crate::store::{GameState, GameStateV};
use crate::text::{chars_of, string_from_chars, plain_char, plain_str};

verus! {

/// Error for a snapshot that is not in canonical form, names an effect or
/// item the registry does not know, or repeats a player identifier.
#[derive(Clone, Copy, PartialEq, Eq, Structural, Debug)]
pub struct SnapshotError;

/// The character for one decimal digit.
pub open spec fn digit_char(d: int) -> char {
    ((48 + d) as u8) as char
}

/// Canonical decimal representation, no leading zeros.
pub open spec fn dec_rep(n: int) -> Seq<char>
    decreases n when n >= 0
{
    if n < 10 {
        seq![digit_char(n)]
    } else {
        dec_rep(n / 10).push(digit_char(n % 10))
    }
}

pub open spec fn quoted(s: Seq<char>) -> Seq<char> {
    seq!['"'] + s + seq!['"']
}

pub open spec fn emit_stats(st: Stats) -> Seq<char> {
    "{\"strength\":"@ + dec_rep(st.strength as int) + ",\"dexterity\":"@ + dec_rep(
        st.dexterity as int,
    ) + ",\"constitution\":"@ + dec_rep(st.constitution as int) + ",\"intelligence\":"@ + dec_rep(
        st.intelligence as int,
    ) + ",\"wisdom\":"@ + dec_rep(st.wisdom as int) + ",\"charisma\":"@ + dec_rep(
        st.charisma as int,
    ) + "}"@
}

/// The comma-separated quoted display names of the effects, in order.
pub open spec fn emit_effect_entries(effs: Seq<EffectV>) -> Seq<char>
    decreases effs.len(),
{
    if effs.len() == 0 {
        Seq::<char>::empty()
    } else if effs.len() == 1 {
        quoted(effs[0].name)
    } else {
        emit_effect_entries(effs.drop_last()) + ","@ + quoted(effs.last().name)
    }
}

/// The comma-separated `"slot":"item name"` pairs of the inventory, in
/// order.
pub open spec fn emit_inventory_entries(inv: Seq<InvSlotV>) -> Seq<char>
    decreases inv.len(),
{
    if inv.len() == 0 {
        Seq::<char>::empty()
    } else if inv.len() == 1 {
        quoted(dec_rep(inv[0].slot as int)) + ":"@ + quoted(inv[0].item.name)
    } else {
        emit_inventory_entries(inv.drop_last()) + ","@ + quoted(dec_rep(inv.last().slot as int))
            + ":"@ + quoted(inv.last().item.name)
    }
}

/// One player record.
pub open spec fn emit_player_record(p: PlayerV) -> Seq<char> {
    "{\"id\":"@ + quoted(p.id) + ",\"stats\":"@ + emit_stats(p.stats) + ",\"effects\":["@
        + emit_effect_entries(p.effects) + "],\"inventory\":{"@ + emit_inventory_entries(
        p.inventory,
    ) + "}}"@
}

/// One `"id":record` entry of the players map.
pub open spec fn emit_player_entry(p: PlayerV) -> Seq<char> {
    quoted(p.id) + ":"@ + emit_player_record(p)
}

/// The comma-separated player entries, in order.
pub open spec fn emit_player_entries(ps: Seq<PlayerV>) -> Seq<char>
    decreases ps.len(),
{
    if ps.len() == 0 {
        Seq::<char>::empty()
    } else if ps.len() == 1 {
        emit_player_entry(ps[0])
    } else {
        emit_player_entries(ps.drop_last()) + ","@ + emit_player_entry(ps.last())
    }
}

/// The whole snapshot.
pub open spec fn emit_state(g: GameStateV) -> Seq<char> {
    "{\"players\":{"@ + emit_player_entries(g.players) + "}}"@
}

/// Appends the characters of `s`.
fn push_str_chars(out: &mut Vec<char>, s: &str)
    ensures
        final(out)@ == old(out)@ + s@,
{
    let n = s.unicode_len();
    let mut i: usize = 0;
    while i < n
        invariant
            i <= n,
            n == s@.len(),
            out@ == old(out)@ + s@.subrange(0, i as int),
        decreases n - i,
    {
        let c = s.get_char(i);
        out.push(c);
        proof {
            assert(s@.subrange(0, (i + 1) as int) =~= s@.subrange(0, i as int).push(s@[i as int]));
            assert(old(out)@ + s@.subrange(0, i as int).push(s@[i as int]) =~= (old(out)@
                + s@.subrange(0, i as int)).push(s@[i as int]));
        }
        i = i + 1;
    }
    proof {
        assert(s@.subrange(0, n as int) =~= s@);
    }
}

/// Appends the canonical decimal digits of `n`.
fn push_num(out: &mut Vec<char>, n: u32)
    ensures
        final(out)@ == old(out)@ + dec_rep(n as int),
    decreases n,
{
    if n < 10 {
        let c: char = ((48u8 + (n as u8)) as char);
        out.push(c);
        proof {
            assert(old(out)@ + dec_rep(n as int) =~= old(out)@.push(digit_char(n as int)));
        }
    } else {
        push_num(out, n / 10);
        let d: u8 = (n % 10) as u8;
        let c: char = ((48u8 + d) as char);
        out.push(c);
        proof {
            assert(old(out)@ + dec_rep(n as int) =~= (old(out)@ + dec_rep(n as int / 10)).push(
                digit_char(n as int % 10),
            ));
        }
    }
}

/// Appends `"` + the characters of `s` + `"`.
fn push_quoted_str(out: &mut Vec<char>, s: &str)
    ensures
        final(out)@ == old(out)@ + quoted(s@),
{
    out.push('"');
    push_str_chars(out, s);
    out.push('"');
    proof {
        assert(final(out)@ =~= old(out)@ + quoted(s@));
    }
}

/// Appends `"` + the canonical decimal digits of `n` + `"`.
fn push_quoted_num(out: &mut Vec<char>, n: u32)
    ensures
        final(out)@ == old(out)@ + quoted(dec_rep(n as int)),
{
    out.push('"');
    push_num(out, n);
    out.push('"');
    proof {
        assert(final(out)@ =~= old(out)@ + quoted(dec_rep(n as int)));
    }
}

/// Appends the stats object.
fn push_stats(out: &mut Vec<char>, st: &Stats)
    ensures
        final(out)@ == old(out)@ + emit_stats(*st),
{
    push_str_chars(out, "{\"strength\":");
    push_num(out, st.strength);
    push_str_chars(out, ",\"dexterity\":");
    push_num(out, st.dexterity);
    push_str_chars(out, ",\"constitution\":");
    push_num(out, st.constitution);
    push_str_chars(out, ",\"intelligence\":");
    push_num(out, st.intelligence);
    push_str_chars(out, ",\"wisdom\":");
    push_num(out, st.wisdom);
    push_str_chars(out, ",\"charisma\":");
    push_num(out, st.charisma);
    push_str_chars(out, "}");
    proof {
        assert(final(out)@ =~= old(out)@ + emit_stats(*st));
    }
}

/// Appends the effect name list entries.
fn push_effect_entries(out: &mut Vec<char>, effs: &Vec<Effect>)
    ensures
        final(out)@ == old(out)@ + emit_effect_entries(effs@.map_values(|e: Effect| e@)),
{
    let ghost evs = effs@.map_values(|e: Effect| e@);
    let mut i: usize = 0;
    while i < effs.len()
        invariant
            i <= effs@.len(),
            evs == effs@.map_values(|e: Effect| e@),
            evs.len() == effs@.len(),
            out@ == old(out)@ + emit_effect_entries(evs.subrange(0, i as int)),
        decreases effs@.len() - i,
    {
        if i > 0 {
            push_str_chars(out, ",");
        }
        push_quoted_str(out, effs[i].name.as_str());
        proof {
            let pre = evs.subrange(0, i as int);
            let cur = evs.subrange(0, i + 1);
            assert(cur.drop_last() =~= pre);
            assert(cur.last() == evs[i as int]);
            if i == 0 {
                assert(cur.len() == 1);
                assert(cur[0] == evs[0]);
                assert(out@ =~= old(out)@ + emit_effect_entries(cur));
            } else {
                assert(out@ =~= old(out)@ + emit_effect_entries(cur));
            }
        }
        i = i + 1;
    }
    proof {
        assert(evs.subrange(0, effs@.len() as int) =~= evs);
    }
}

/// Appends the inventory map entries.
fn push_inventory_entries(out: &mut Vec<char>, inv: &Vec<InvSlot>)
    ensures
        final(out)@ == old(out)@ + emit_inventory_entries(inv@.map_values(|s: InvSlot| s@)),
{
    let ghost ivs = inv@.map_values(|s: InvSlot| s@);
    let mut i: usize = 0;
    while i < inv.len()
        invariant
            i <= inv@.len(),
            ivs == inv@.map_values(|s: InvSlot| s@),
            ivs.len() == inv@.len(),
            out@ == old(out)@ + emit_inventory_entries(ivs.subrange(0, i as int)),
        decreases inv@.len() - i,
    {
        if i > 0 {
            push_str_chars(out, ",");
        }
        push_quoted_num(out, inv[i].slot);
        push_str_chars(out, ":");
        push_quoted_str(out, inv[i].item.name.as_str());
        proof {
            let pre = ivs.subrange(0, i as int);
            let cur = ivs.subrange(0, i + 1);
            assert(cur.drop_last() =~= pre);
            assert(cur.last() == ivs[i as int]);
            if i == 0 {
                assert(cur.len() == 1);
                assert(cur[0] == ivs[0]);
                assert(out@ =~= old(out)@ + emit_inventory_entries(cur));
            } else {
                assert(out@ =~= old(out)@ + emit_inventory_entries(cur));
            }
        }
        i = i + 1;
    }
    proof {
        assert(ivs.subrange(0, inv@.len() as int) =~= ivs);
    }
}

/// Appends one `"id":record` player entry.
fn push_player_entry(out: &mut Vec<char>, p: &Player)
    ensures
        final(out)@ == old(out)@ + emit_player_entry(p@),
{
    push_quoted_str(out, p.id.as_str());
    push_str_chars(out, ":{\"id\":");
    push_quoted_str(out, p.id.as_str());
    push_str_chars(out, ",\"stats\":");
    push_stats(out, &p.stats);
    push_str_chars(out, ",\"effects\":[");
    push_effect_entries(out, &p.effects);
    push_str_chars(out, "],\"inventory\":{");
    push_inventory_entries(out, &p.inventory);
    push_str_chars(out, "}}");
    proof {
        reveal_strlit(":{\"id\":");
        reveal_strlit(":");
        reveal_strlit("{\"id\":");
        assert(":{\"id\":"@ =~= ":"@ + "{\"id\":"@);
        assert(final(out)@ =~= old(out)@ + emit_player_entry(p@));
    }
}

/// Serialises the whole game state into its canonical snapshot text.
pub fn save_string(g: &GameState) -> (r: String)
    ensures
        r@ == emit_state(g@),
{
    let mut out: Vec<char> = Vec::new();
    push_str_chars(&mut out, "{\"players\":{");
    let ghost pvs = g@.players;
    let mut i: usize = 0;
    while i < g.players.len()
        invariant
            i <= g.players@.len(),
            pvs == g@.players,
            pvs.len() == g.players@.len(),
            out@ == "{\"players\":{"@ + emit_player_entries(pvs.subrange(0, i as int)),
        decreases g.players@.len() - i,
    {
        if i > 0 {
            push_str_chars(&mut out, ",");
        }
        push_player_entry(&mut out, &g.players[i]);
        proof {
            let pre = pvs.subrange(0, i as int);
            let cur = pvs.subrange(0, i + 1);
            assert(cur.drop_last() =~= pre);
            assert(cur.last() == pvs[i as int]);
            if i == 0 {
                assert(cur.len() == 1);
                assert(cur[0] == pvs[0]);
                assert(out@ =~= "{\"players\":{"@ + emit_player_entries(cur));
            } else {
                assert(out@ =~= "{\"players\":{"@ + emit_player_entries(cur));
            }
        }
        i = i + 1;
    }
    push_str_chars(&mut out, "}}");
    proof {
        assert(pvs.subrange(0, g.players@.len() as int) =~= pvs);
        assert(out@ =~= emit_state(g@));
    }
    string_from_chars(&out)
}

// ---------------------------------------------------------------------------
// Reading a snapshot back: a strict parser for the canonical form.
// ---------------------------------------------------------------------------

/// End of the digit run starting at `i`.
pub open spec fn digits_end(s: Seq<char>, i: int) -> int
    decreases s.len() - i when 0 <= i <= s.len()
{
    if i < s.len() && is_digit(s[i]) {
        digits_end(s, i + 1)
    } else {
        i
    }
}

/// Parses a decimal number: the digit run starting at `i`, rejected when
/// empty or beyond `u32::MAX`.
pub open spec fn p_num(s: Seq<char>, i: int) -> Option<(u32, int)> {
    if 0 <= i <= s.len() {
        let e = digits_end(s, i);
        if i < e && digits_val(s.subrange(i, e)) <= u32::MAX {
            Some((digits_val(s.subrange(i, e)) as u32, e))
        } else {
            None
        }
    } else {
        None
    }
}

/// End of the plain-character run starting at `i`.
pub open spec fn str_end(s: Seq<char>, i: int) -> int
    decreases s.len() - i when 0 <= i <= s.len()
{
    if i < s.len() && plain_char(s[i]) {
        str_end(s, i + 1)
    } else {
        i
    }
}

/// Parses a quoted string of plain characters.
pub open spec fn p_qstring(s: Seq<char>, i: int) -> Option<(Seq<char>, int)> {
    if 0 <= i && i < s.len() && s[i] == '"' {
        let e = str_end(s, i + 1);
        if e < s.len() && s[e] == '"' {
            Some((s.subrange(i + 1, e), e + 1))
        } else {
            None
        }
    } else {
        None
    }
}

/// Consumes the exact literal at `i`.
pub open spec fn p_lit(s: Seq<char>, i: int, lit: Seq<char>) -> Option<int> {
    if 0 <= i && i + lit.len() <= s.len() && s.subrange(i, i + lit.len() as int) == lit {
        Some(i + lit.len())
    } else {
        None
    }
}

/// One `"key":number` stats field.
pub open spec fn p_field(s: Seq<char>, i: int, key: Seq<char>) -> Option<(u32, int)> {
    match p_lit(s, i, key) {
        Some(j) => p_num(s, j),
        None => None,
    }
}

/// The stats object, all six fields in canonical order.
pub open spec fn p_stats(s: Seq<char>, i: int) -> Option<(Stats, int)> {
    match p_field(s, i, "{\"strength\":"@) {
        None => None,
        Some((st, j)) => match p_field(s, j, ",\"dexterity\":"@) {
            None => None,
            Some((dx, j)) => match p_field(s, j, ",\"constitution\":"@) {
                None => None,
                Some((cn, j)) => match p_field(s, j, ",\"intelligence\":"@) {
                    None => None,
                    Some((iq, j)) => match p_field(s, j, ",\"wisdom\":"@) {
                        None => None,
                        Some((ws, j)) => match p_field(s, j, ",\"charisma\":"@) {
                            None => None,
                            Some((ch, j)) => match p_lit(s, j, "}"@) {
                                None => None,
                                Some(j) => Some(
                                    (
                                        Stats {
                                            strength: st,
                                            dexterity: dx,
                                            constitution: cn,
                                            intelligence: iq,
                                            wisdom: ws,
                                            charisma: ch,
                                        },
                                        j,
                                    ),
                                ),
                            },
                        },
                    },
                },
            },
        },
    }
}

/// Effect list entries up to and including the closing `]`: each entry is a
/// display name resolved against the registry to its template.
pub open spec fn p_effect_entries(s: Seq<char>, i: int, reg: RegistryV) -> Option<
    (Seq<EffectV>, int),
>
    decreases s.len() - i when 0 <= i <= s.len()
{
    if i < s.len() && s[i] == ']' {
        Some((Seq::<EffectV>::empty(), i + 1))
    } else {
        match p_qstring(s, i) {
            None => None,
            Some((name, j0)) => {
                let j = if j0 < i + 1 {
                    i + 1
                } else {
                    j0
                };
                match spec_effect_by_name(reg, name, 0) {
                    None => None,
                    Some(k) => {
                        let e = reg.effects[k];
                        if j < s.len() && s[j] == ',' {
                            match p_effect_entries(s, j + 1, reg) {
                                None => None,
                                Some((rest, j2)) => Some((seq![e] + rest, j2)),
                            }
                        } else if j < s.len() && s[j] == ']' {
                            Some((seq![e], j + 1))
                        } else {
                            None
                        }
                    },
                }
            },
        }
    }
}

/// Inventory entries up to and including the closing `}`: each entry is a
/// slot key (strictly increasing, starting at `min_slot`) and an item
/// display name resolved against the registry; the template is re-attached
/// to the slot.
pub open spec fn p_inventory_entries(s: Seq<char>, i: int, reg: RegistryV, min_slot: int) -> Option<
    (Seq<InvSlotV>, int),
>
    decreases s.len() - i when 0 <= i <= s.len()
{
    if i < s.len() && s[i] == '}' {
        Some((Seq::<InvSlotV>::empty(), i + 1))
    } else {
        match p_qstring(s, i) {
            None => None,
            Some((ds, j0)) => {
                let j1 = if j0 < i + 1 {
                    i + 1
                } else {
                    j0
                };
                if ds.len() > 0 && all_digits(ds) && digits_val(ds) < u32::MAX && digits_val(ds)
                    >= min_slot {
                    let slot = digits_val(ds) as u32;
                    match p_lit(s, j1, ":"@) {
                        None => None,
                        Some(j2) => match p_qstring(s, j2) {
                            None => None,
                            Some((name, j3)) => {
                                let j = if j3 < j1 + 1 {
                                    j1 + 1
                                } else {
                                    j3
                                };
                                match spec_item_by_name(reg, name, 0) {
                                    None => None,
                                    Some(k) => {
                                        let tpl = reg.items[k];
                                        let sl = InvSlotV {
                                            slot,
                                            item: ItemV {
                                                meta: ItemMeta {
                                                    attachment: slot,
                                                    last_used: tpl.meta.last_used,
                                                },
                                                ..tpl
                                            },
                                        };
                                        if j < s.len() && s[j] == ',' {
                                            match p_inventory_entries(s, j + 1, reg, slot + 1) {
                                                None => None,
                                                Some((rest, j4)) => Some((seq![sl] + rest, j4)),
                                            }
                                        } else if j < s.len() && s[j] == '}' {
                                            Some((seq![sl], j + 1))
                                        } else {
                                            None
                                        }
                                    },
                                }
                            },
                        },
                    }
                } else {
                    None
                }
            },
        }
    }
}

/// The allocation counter a loaded inventory implies: one past the last
/// slot, or zero for an empty inventory.
pub open spec fn derived_next_slot(inv: Seq<InvSlotV>) -> u32 {
    if inv.len() == 0 {
        0u32
    } else {
        (inv.last().slot + 1) as u32
    }
}

/// One player record, canonical key order; the `id` field must match `key`.
pub open spec fn p_player_record(s: Seq<char>, i: int, key: Seq<char>, reg: RegistryV) -> Option<
    (PlayerV, int),
> {
    match p_lit(s, i, "{\"id\":"@) {
        None => None,
        Some(j) => match p_qstring(s, j) {
            None => None,
            Some((id, j)) => {
                if id == key {
                    match p_lit(s, j, ",\"stats\":"@) {
                        None => None,
                        Some(j) => match p_stats(s, j) {
                            None => None,
                            Some((st, j)) => match p_lit(s, j, ",\"effects\":["@) {
                                None => None,
                                Some(j) => match p_effect_entries(s, j, reg) {
                                    None => None,
                                    Some((effs, j)) => match p_lit(s, j, ",\"inventory\":{"@) {
                                        None => None,
                                        Some(j) => match p_inventory_entries(s, j, reg, 0) {
                                            None => None,
                                            Some((inv, j)) => match p_lit(s, j, "}"@) {
                                                None => None,
                                                Some(j) => Some(
                                                    (
                                                        PlayerV {
                                                            id,
                                                            stats: st,
                                                            effects: effs,
                                                            inventory: inv,
                                                            next_slot: derived_next_slot(inv),
                                                        },
                                                        j,
                                                    ),
                                                ),
                                            },
                                        },
                                    },
                                },
                            },
                        },
                    }
                } else {
                    None
                }
            },
        },
    }
}

/// Player map entries up to and including the closing `}`.
pub open spec fn p_player_entries(s: Seq<char>, i: int, reg: RegistryV) -> Option<
    (Seq<PlayerV>, int),
>
    decreases s.len() - i when 0 <= i <= s.len()
{
    if i < s.len() && s[i] == '}' {
        Some((Seq::<PlayerV>::empty(), i + 1))
    } else {
        match p_qstring(s, i) {
            None => None,
            Some((key, j0)) => {
                let j1 = if j0 < i + 1 {
                    i + 1
                } else {
                    j0
                };
                match p_lit(s, j1, ":"@) {
                    None => None,
                    Some(j2) => match p_player_record(s, j2, key, reg) {
                        None => None,
                        Some((p, j3)) => {
                            let j = if j3 < j1 + 1 {
                                j1 + 1
                            } else {
                                j3
                            };
                            if j < s.len() && s[j] == ',' {
                                match p_player_entries(s, j + 1, reg) {
                                    None => None,
                                    Some((rest, j4)) => Some((seq![p] + rest, j4)),
                                }
                            } else if j < s.len() && s[j] == '}' {
                                Some((seq![p], j + 1))
                            } else {
                                None
                            }
                        },
                    },
                }
            },
        }
    }
}

/// The whole snapshot: the `players` map and nothing after it.
pub open spec fn p_state(s: Seq<char>, reg: RegistryV) -> Option<GameStateV> {
    match p_lit(s, 0, "{\"players\":{"@) {
        None => None,
        Some(j) => match p_player_entries(s, j, reg) {
            None => None,
            Some((ps, j)) => match p_lit(s, j, "}"@) {
                None => None,
                Some(j) => if j == s.len() {
                    Some(GameStateV { players: ps })
                } else {
                    None
                },
            },
        },
    }
}

// ---------------------------------------------------------------------------
// The executable parser, each function exactly its specification.
// ---------------------------------------------------------------------------

/// The digit run `[i, j)` with a stop at `j` pins down `digits_end`.
proof fn lemma_digits_end_of(s: Seq<char>, i: int, j: int)
    requires
        0 <= i <= j <= s.len(),
        forall|k: int| i <= k < j ==> is_digit(#[trigger] s[k]),
        j == s.len() || !is_digit(s[j]),
    ensures
        digits_end(s, i) == j,
    decreases j - i,
{
    if i < j {
        lemma_digits_end_of(s, i + 1, j);
    }
}

/// The plain run `[i, j)` with a stop at `j` pins down `str_end`.
proof fn lemma_str_end_of(s: Seq<char>, i: int, j: int)
    requires
        0 <= i <= j <= s.len(),
        forall|k: int| i <= k < j ==> plain_char(#[trigger] s[k]),
        j == s.len() || !plain_char(s[j]),
    ensures
        str_end(s, i) == j,
    decreases j - i,
{
    if i < j {
        lemma_str_end_of(s, i + 1, j);
    }
}

/// True exactly when the character may stand unescaped in a stored string.
fn is_plain(c: char) -> (b: bool)
    ensures
        b == plain_char(c),
{
    c != '"' && c != '\\' && (c as u32) >= 32
}

/// Parses the digit run at `i` as a number.
fn x_num(v: &Vec<char>, i: usize) -> (r: Option<(u32, usize)>)
    requires
        i <= v@.len(),
    ensures
        (r is Some) == (p_num(v@, i as int) is Some),
        r matches Some((n, j)) ==> p_num(v@, i as int) == Some((n, j as int)) && i < j <= v@.len(),
{
    let mut j: usize = i;
    while j < v.len() && v[j] >= '0' && v[j] <= '9'
        invariant
            i <= j <= v@.len(),
            forall|k: int| i <= k < j ==> is_digit(#[trigger] v@[k]),
        decreases v@.len() - j,
    {
        j = j + 1;
    }
    proof {
        lemma_digits_end_of(v@, i as int, j as int);
    }
    if j == i {
        return None;
    }
    match crate::dice::parse_num(v, i, j, u32::MAX) {
        Some(n) => Some((n, j)),
        None => None,
    }
}

/// Parses the quoted plain string at `i`.
fn x_qstring(v: &Vec<char>, i: usize) -> (r: Option<(Vec<char>, usize)>)
    requires
        i <= v@.len(),
    ensures
        (r is Some) == (p_qstring(v@, i as int) is Some),
        r matches Some((c, j)) ==> p_qstring(v@, i as int) == Some((c@, j as int)) && i < j
            <= v@.len() && plain_str(c@),
{
    if !(i < v.len() && v[i] == '"') {
        return None;
    }
    let mut j: usize = i + 1;
    let mut content: Vec<char> = Vec::new();
    while j < v.len() && is_plain(v[j])
        invariant
            i + 1 <= j <= v@.len(),
            forall|k: int| i + 1 <= k < j ==> plain_char(#[trigger] v@[k]),
            content@ == v@.subrange(i + 1, j as int),
        decreases v@.len() - j,
    {
        content.push(v[j]);
        proof {
            assert(v@.subrange(i + 1, j + 1) =~= v@.subrange(i + 1, j as int).push(v@[j as int]));
        }
        j = j + 1;
    }
    proof {
        lemma_str_end_of(v@, i + 1, j as int);
    }
    if j < v.len() && v[j] == '"' {
        proof {
            assert forall|k: int| 0 <= k < content@.len() implies plain_char(
                #[trigger] content@[k],
            ) by {
                assert(content@[k] == v@[i + 1 + k]);
            }
        }
        Some((content, j + 1))
    } else {
        None
    }
}

/// Consumes the literal at `i`.
fn x_lit(v: &Vec<char>, i: usize, lit: &str) -> (r: Option<usize>)
    requires
        i <= v@.len(),
    ensures
        (r is Some) == (p_lit(v@, i as int, lit@) is Some),
        r matches Some(j) ==> p_lit(v@, i as int, lit@) == Some(j as int) && i <= j <= v@.len()
            && j as int == i + lit@.len(),
{
    let n = lit.unicode_len();
    let vlen = v.len();
    if n > vlen - i {
        return None;
    }
    let mut k: usize = 0;
    while k < n
        invariant
            k <= n,
            n == lit@.len(),
            vlen == v@.len(),
            i + n <= vlen,
            forall|m: int| 0 <= m < k ==> v@[i + m] == lit@[m],
        decreases n - k,
    {
        if v[i + k] != lit.get_char(k) {
            proof {
                assert(v@.subrange(i as int, i + lit@.len()) != lit@) by {
                    assert(v@.subrange(i as int, i + lit@.len())[k as int] == v@[i + k]);
                }
            }
            return None;
        }
        k = k + 1;
    }
    proof {
        assert(v@.subrange(i as int, i + lit@.len()) =~= lit@);
    }
    Some(i + n)
}

/// One `"key":number` stats field.
fn x_field(v: &Vec<char>, i: usize, key: &str) -> (r: Option<(u32, usize)>)
    requires
        i <= v@.len(),
    ensures
        (r is Some) == (p_field(v@, i as int, key@) is Some),
        r matches Some((n, j)) ==> p_field(v@, i as int, key@) == Some((n, j as int)) && i < j
            <= v@.len(),
{
    match x_lit(v, i, key) {
        None => None,
        Some(j) => match x_num(v, j) {
            None => None,
            Some((n, j2)) => Some((n, j2)),
        },
    }
}

/// Parses the canonical stats object at `i`.
fn x_stats(v: &Vec<char>, i: usize) -> (r: Option<(Stats, usize)>)
    requires
        i <= v@.len(),
    ensures
        (r is Some) == (p_stats(v@, i as int) is Some),
        r matches Some((st, j)) ==> p_stats(v@, i as int) == Some((st, j as int)) && i < j
            <= v@.len(),
{
    let (st, j) = match x_field(v, i, "{\"strength\":") {
        None => {
            return None;
        },
        Some(x) => x,
    };
    let (dx, j) = match x_field(v, j, ",\"dexterity\":") {
        None => {
            return None;
        },
        Some(x) => x,
    };
    let (cn, j) = match x_field(v, j, ",\"constitution\":") {
        None => {
            return None;
        },
        Some(x) => x,
    };
    let (iq, j) = match x_field(v, j, ",\"intelligence\":") {
        None => {
            return None;
        },
        Some(x) => x,
    };
    let (ws, j) = match x_field(v, j, ",\"wisdom\":") {
        None => {
            return None;
        },
        Some(x) => x,
    };
    let (ch, j) = match x_field(v, j, ",\"charisma\":") {
        None => {
            return None;
        },
        Some(x) => x,
    };
    let j = match x_lit(v, j, "}") {
        None => {
            return None;
        },
        Some(x) => x,
    };
    Some(
        (
            Stats {
                strength: st,
                dexterity: dx,
                constitution: cn,
                intelligence: iq,
                wisdom: ws,
                charisma: ch,
            },
            j,
        ),
    )
}

/// Parses effect list entries at `i`, resolving each display name against
/// the registry; every resolved effect is a well-formed catalog template.
fn x_effect_entries(v: &Vec<char>, i: usize, reg: &Registry) -> (r: Option<(Vec<Effect>, usize)>)
    requires
        i <= v@.len(),
    ensures
        (r is Some) == (p_effect_entries(v@, i as int, reg@) is Some),
        r matches Some((es, j)) ==> p_effect_entries(v@, i as int, reg@) == Some(
            (es@.map_values(|e: Effect| e@), j as int),
        ) && i < j <= v@.len(),
    decreases v@.len() - i,
{
    if i < v.len() && v[i] == ']' {
        let out: Vec<Effect> = Vec::new();
        proof {
            assert(out@.map_values(|e: Effect| e@) =~= Seq::<EffectV>::empty());
        }
        return Some((out, i + 1));
    }
    let (name, j) = match x_qstring(v, i) {
        None => {
            return None;
        },
        Some(x) => x,
    };
    let k = match reg.effect_by_name(&name) {
        None => {
            return None;
        },
        Some(k) => k,
    };
    proof {
        lemma_effect_by_name_found(reg@, name@, 0, k as int);
    }
    let e = reg.effects[k].duplicate();
    if j < v.len() && v[j] == ',' {
        match x_effect_entries(v, j + 1, reg) {
            None => None,
            Some((rest, j2)) => {
                let mut out: Vec<Effect> = rest;
                out.insert(0, e);
                proof {
                    assert(out@.map_values(|x: Effect| x@) =~= seq![e@] + out@.subrange(
                        1,
                        out@.len() as int,
                    ).map_values(|x: Effect| x@));
                    assert(out@.subrange(1, out@.len() as int) =~= out@.remove(0));
                }
                Some((out, j2))
            },
        }
    } else if j < v.len() && v[j] == ']' {
        let mut out: Vec<Effect> = Vec::new();
        out.push(e);
        proof {
            assert(out@.map_values(|x: Effect| x@) =~= seq![e@]);
        }
        Some((out, j + 1))
    } else {
        None
    }
}

/// Parses inventory entries at `i`: strictly increasing slot keys starting
/// at `min_slot`, item names resolved against the registry and re-attached.
fn x_inventory_entries(v: &Vec<char>, i: usize, reg: &Registry, min_slot: u32) -> (r: Option<
    (Vec<InvSlot>, usize),
>)
    requires
        i <= v@.len(),
    ensures
        (r is Some) == (p_inventory_entries(v@, i as int, reg@, min_slot as int) is Some),
        r matches Some((inv, j)) ==> p_inventory_entries(v@, i as int, reg@, min_slot as int)
            == Some((inv@.map_values(|s: InvSlot| s@), j as int)) && i < j <= v@.len(),
    decreases v@.len() - i,
{
    if i < v.len() && v[i] == '}' {
        let out: Vec<InvSlot> = Vec::new();
        proof {
            assert(out@.map_values(|s: InvSlot| s@) =~= Seq::<InvSlotV>::empty());
        }
        return Some((out, i + 1));
    }
    let (ds, j1) = match x_qstring(v, i) {
        None => {
            return None;
        },
        Some(x) => x,
    };
    proof {
        assert(ds@.subrange(0, ds@.len() as int) =~= ds@);
    }
    let slot = match crate::dice::parse_num(&ds, 0, ds.len(), u32::MAX - 1) {
        None => {
            return None;
        },
        Some(n) => n,
    };
    if slot < min_slot {
        return None;
    }
    let j2 = match x_lit(v, j1, ":") {
        None => {
            return None;
        },
        Some(x) => x,
    };
    let (name, j3) = match x_qstring(v, j2) {
        None => {
            return None;
        },
        Some(x) => x,
    };
    let k = match reg.item_by_name(&name) {
        None => {
            return None;
        },
        Some(k) => k,
    };
    proof {
        lemma_item_by_name_found(reg@, name@, 0, k as int);
    }
    let mut it = reg.items[k].duplicate();
    it.meta.attachment = slot;
    let sl = InvSlot { slot, item: it };
    if j3 < v.len() && v[j3] == ',' {
        match x_inventory_entries(v, j3 + 1, reg, slot + 1) {
            None => None,
            Some((rest, j4)) => {
                let mut out: Vec<InvSlot> = rest;
                out.insert(0, sl);
                proof {
                    assert(out@.subrange(1, out@.len() as int) =~= out@.remove(0));
                    assert(out@.map_values(|x: InvSlot| x@) =~= seq![sl@] + out@.subrange(
                        1,
                        out@.len() as int,
                    ).map_values(|x: InvSlot| x@));
                }
                Some((out, j4))
            },
        }
    } else if j3 < v.len() && v[j3] == '}' {
        let mut out: Vec<InvSlot> = Vec::new();
        out.push(sl);
        proof {
            assert(out@.map_values(|x: InvSlot| x@) =~= seq![sl@]);
        }
        Some((out, j3 + 1))
    } else {
        None
    }
}

/// Every effect a parse resolves is a catalog template: with a well-formed
/// registry, its remaining duration is at least one turn.
proof fn lemma_effect_entries_wf(s: Seq<char>, i: int, reg: RegistryV)
    requires
        0 <= i <= s.len(),
        crate::registry::wf_registry_v(reg),
        p_effect_entries(s, i, reg) is Some,
    ensures
        forall|a: int|
            0 <= a < p_effect_entries(s, i, reg)->Some_0.0.len() ==> (
            #[trigger] p_effect_entries(s, i, reg)->Some_0.0[a]).duration >= 1,
    decreases s.len() - i,
{
    if i < s.len() && s[i] == ']' {
    } else {
        match p_qstring(s, i) {
            None => {},
            Some((name, j0)) => {
                let j = if j0 < i + 1 {
                    i + 1
                } else {
                    j0
                };
                match spec_effect_by_name(reg, name, 0) {
                    None => {},
                    Some(k) => {
                        lemma_effect_by_name_found(reg, name, 0, k);
                        if j < s.len() && s[j] == ',' {
                            if p_effect_entries(s, j + 1, reg) is Some {
                                lemma_effect_entries_wf(s, j + 1, reg);
                            }
                        }
                    },
                }
            },
        }
    }
}

/// Every inventory entry a parse accepts keeps its slot at or above
/// `min_slot`, records the slot as the item's attachment, and the slots are
/// strictly increasing.
proof fn lemma_inventory_entries_wf(s: Seq<char>, i: int, reg: RegistryV, min_slot: int)
    requires
        0 <= i <= s.len(),
        p_inventory_entries(s, i, reg, min_slot) is Some,
    ensures
        forall|a: int|
            0 <= a < p_inventory_entries(s, i, reg, min_slot)->Some_0.0.len() ==> (
            #[trigger] p_inventory_entries(s, i, reg, min_slot)->Some_0.0[a]).slot >= min_slot,
        forall|a: int|
            0 <= a < p_inventory_entries(s, i, reg, min_slot)->Some_0.0.len() ==> (
            #[trigger] p_inventory_entries(s, i, reg, min_slot)->Some_0.0[a]).item.meta.attachment
                == p_inventory_entries(s, i, reg, min_slot)->Some_0.0[a].slot,
        forall|a: int, b: int|
            0 <= a < b < p_inventory_entries(s, i, reg, min_slot)->Some_0.0.len()
                ==> p_inventory_entries(s, i, reg, min_slot)->Some_0.0[a].slot
                < p_inventory_entries(s, i, reg, min_slot)->Some_0.0[b].slot,
        forall|a: int|
            0 <= a < p_inventory_entries(s, i, reg, min_slot)->Some_0.0.len() ==> (
            #[trigger] p_inventory_entries(s, i, reg, min_slot)->Some_0.0[a]).slot < u32::MAX,
    decreases s.len() - i,
{
    if i < s.len() && s[i] == '}' {
    } else {
        match p_qstring(s, i) {
            None => {},
            Some((ds, j0)) => {
                let j1 = if j0 < i + 1 {
                    i + 1
                } else {
                    j0
                };
                if ds.len() > 0 && all_digits(ds) && digits_val(ds) < u32::MAX && digits_val(ds)
                    >= min_slot {
                    crate::dice::lemma_digits_val_nonneg(ds);
                    let slot = digits_val(ds) as u32;
                    match p_lit(s, j1, ":"@) {
                        None => {},
                        Some(j2) => match p_qstring(s, j2) {
                            None => {},
                            Some((name, j3)) => {
                                let j = if j3 < j1 + 1 {
                                    j1 + 1
                                } else {
                                    j3
                                };
                                match spec_item_by_name(reg, name, 0) {
                                    None => {},
                                    Some(k) => {
                                        if j < s.len() && s[j] == ',' {
                                            if p_inventory_entries(s, j + 1, reg, slot + 1)
                                                is Some {
                                                lemma_inventory_entries_wf(
                                                    s,
                                                    j + 1,
                                                    reg,
                                                    slot + 1,
                                                );
                                            }
                                        }
                                    },
                                }
                            },
                        },
                    }
                }
            },
        }
    }
}

/// Parses one player record at `i` whose map key was `key`: the result is a
/// well-formed player.
fn x_player_record(v: &Vec<char>, i: usize, key: &Vec<char>, reg: &Registry) -> (r: Option<
    (Player, usize),
>)
    requires
        i <= v@.len(),
        crate::registry::wf_registry_v(reg@),
    ensures
        (r is Some) == (p_player_record(v@, i as int, key@, reg@) is Some),
        r matches Some((p, j)) ==> p_player_record(v@, i as int, key@, reg@) == Some(
            (p@, j as int),
        ) && i < j <= v@.len() && crate::model::wf_player_v(p@),
{
    let j = match x_lit(v, i, "{\"id\":") {
        None => {
            return None;
        },
        Some(x) => x,
    };
    let (id, j) = match x_qstring(v, j) {
        None => {
            return None;
        },
        Some(x) => x,
    };
    if !crate::text::vec_chars_eq(&id, key) {
        return None;
    }
    let j = match x_lit(v, j, ",\"stats\":") {
        None => {
            return None;
        },
        Some(x) => x,
    };
    let (st, j) = match x_stats(v, j) {
        None => {
            return None;
        },
        Some(x) => x,
    };
    let j = match x_lit(v, j, ",\"effects\":[") {
        None => {
            return None;
        },
        Some(x) => x,
    };
    let ghost eff_pos = j as int;
    let (effs, j) = match x_effect_entries(v, j, reg) {
        None => {
            return None;
        },
        Some(x) => x,
    };
    let j = match x_lit(v, j, ",\"inventory\":{") {
        None => {
            return None;
        },
        Some(x) => x,
    };
    let ghost inv_pos = j as int;
    let (inv, j) = match x_inventory_entries(v, j, reg, 0) {
        None => {
            return None;
        },
        Some(x) => x,
    };
    let j = match x_lit(v, j, "}") {
        None => {
            return None;
        },
        Some(x) => x,
    };
    proof {
        lemma_inventory_entries_wf(v@, inv_pos, reg@, 0);
        assert(inv@.map_values(|x: InvSlot| x@) == p_inventory_entries(
            v@,
            inv_pos,
            reg@,
            0,
        )->Some_0.0);
        if inv@.len() > 0 {
            assert(inv@.map_values(|x: InvSlot| x@)[inv@.len() - 1].slot < u32::MAX);
            assert(inv@[inv@.len() - 1]@.slot < u32::MAX);
        }
    }
    let next_slot: u32 = if inv.len() == 0 {
        0
    } else {
        inv[inv.len() - 1].slot + 1
    };
    let p = Player { id: string_from_chars(&id), stats: st, effects: effs, inventory: inv, next_slot };
    proof {
        lemma_effect_entries_wf(v@, eff_pos, reg@);
        assert(crate::model::wf_player_v(p@)) by {
            assert(plain_str(p@.id));
            let iv = p_inventory_entries(v@, inv_pos, reg@, 0)->Some_0.0;
            assert(p@.inventory == iv);
            assert(p@.effects == p_effect_entries(v@, eff_pos, reg@)->Some_0.0);
            assert(forall|a: int|
                0 <= a < p@.effects.len() ==> (#[trigger] p@.effects[a]).duration >= 1);
            if iv.len() > 0 {
                assert(forall|a: int|
                    0 <= a < iv.len() - 1 ==> (#[trigger] iv[a]).slot < iv[iv.len() - 1].slot);
            }
        }
    }
    Some((p, j))
}

/// Parses player map entries at `i`.
fn x_player_entries(v: &Vec<char>, i: usize, reg: &Registry) -> (r: Option<(Vec<Player>, usize)>)
    requires
        i <= v@.len(),
        crate::registry::wf_registry_v(reg@),
    ensures
        (r is Some) == (p_player_entries(v@, i as int, reg@) is Some),
        r matches Some((ps, j)) ==> p_player_entries(v@, i as int, reg@) == Some(
            (ps@.map_values(|p: Player| p@), j as int),
        ) && i < j <= v@.len() && (forall|a: int|
            0 <= a < ps@.len() ==> crate::model::wf_player_v((#[trigger] ps@[a])@)),
    decreases v@.len() - i,
{
    if i < v.len() && v[i] == '}' {
        let out: Vec<Player> = Vec::new();
        proof {
            assert(out@.map_values(|p: Player| p@) =~= Seq::<PlayerV>::empty());
        }
        return Some((out, i + 1));
    }
    let (key, j1) = match x_qstring(v, i) {
        None => {
            return None;
        },
        Some(x) => x,
    };
    let j2 = match x_lit(v, j1, ":") {
        None => {
            return None;
        },
        Some(x) => x,
    };
    let (p, j3) = match x_player_record(v, j2, &key, reg) {
        None => {
            return None;
        },
        Some(x) => x,
    };
    if j3 < v.len() && v[j3] == ',' {
        match x_player_entries(v, j3 + 1, reg) {
            None => None,
            Some((rest, j4)) => {
                let mut out: Vec<Player> = rest;
                out.insert(0, p);
                proof {
                    assert(out@.subrange(1, out@.len() as int) =~= out@.remove(0));
                    assert(out@.map_values(|x: Player| x@) =~= seq![p@] + out@.subrange(
                        1,
                        out@.len() as int,
                    ).map_values(|x: Player| x@));
                }
                Some((out, j4))
            },
        }
    } else if j3 < v.len() && v[j3] == '}' {
        let mut out: Vec<Player> = Vec::new();
        out.push(p);
        proof {
            assert(out@.map_values(|x: Player| x@) =~= seq![p@]);
        }
        Some((out, j3 + 1))
    } else {
        None
    }
}

/// Player identifiers are pairwise distinct.
pub open spec fn unique_ids(g: GameStateV) -> bool {
    forall|i: int, j: int| 0 <= i < j < g.players.len() ==> g.players[i].id != g.players[j].id
}

/// True exactly when the players carry pairwise distinct identifiers.
fn ids_unique(ps: &Vec<Player>) -> (b: bool)
    ensures
        b == unique_ids(GameStateV { players: ps@.map_values(|p: Player| p@) }),
{
    let ghost pvs = ps@.map_values(|p: Player| p@);
    let mut i: usize = 0;
    while i < ps.len()
        invariant
            i <= ps@.len(),
            pvs == ps@.map_values(|p: Player| p@),
            pvs.len() == ps@.len(),
            forall|a: int, b: int| 0 <= a < b < i ==> pvs[a].id != pvs[b].id,
        decreases ps@.len() - i,
    {
        let mut j: usize = 0;
        while j < i
            invariant
                j <= i < ps@.len(),
                pvs == ps@.map_values(|p: Player| p@),
                pvs.len() == ps@.len(),
                forall|a: int| 0 <= a < j ==> pvs[a].id != pvs[i as int].id,
            decreases i - j,
        {
            if crate::text::str_eq(ps[j].id.as_str(), ps[i].id.as_str()) {
                proof {
                    assert(pvs[j as int].id == pvs[i as int].id);
                    assert(!unique_ids(GameStateV { players: pvs })) by {
                        let g = GameStateV { players: pvs };
                        assert(g.players[j as int].id == g.players[i as int].id);
                        assert(!(g.players[j as int].id != g.players[i as int].id));
                    }
                }
                return false;
            }
            j = j + 1;
        }
        i = i + 1;
    }
    true
}

/// Reads a snapshot back: accepts exactly the canonical form, resolves every
/// persisted display name against the registry, and rejects duplicate player
/// identifiers; the result is a well-formed state.
pub fn load_string(s: &str, reg: &Registry) -> (r: Result<GameState, SnapshotError>)
    requires
        crate::registry::wf_registry_v(reg@),
    ensures
        r matches Ok(g) ==> p_state(s@, reg@) == Some(g@) && crate::store::wf_state_v(g@),
        r is Err ==> p_state(s@, reg@) is None || !unique_ids(p_state(s@, reg@)->Some_0),
        (p_state(s@, reg@) matches Some(gv) && unique_ids(gv)) ==> r is Ok,
{
    let v = chars_of(s);
    let j = match x_lit(&v, 0, "{\"players\":{") {
        None => {
            return Err(SnapshotError);
        },
        Some(x) => x,
    };
    let (ps, j) = match x_player_entries(&v, j, reg) {
        None => {
            return Err(SnapshotError);
        },
        Some(x) => x,
    };
    let j = match x_lit(&v, j, "}") {
        None => {
            return Err(SnapshotError);
        },
        Some(x) => x,
    };
    if j != v.len() {
        return Err(SnapshotError);
    }
    if !ids_unique(&ps) {
        return Err(SnapshotError);
    }
    let g = GameState { players: ps };
    Ok(g)
}

// ---------------------------------------------------------------------------
// Round trip: parsing a canonical emission yields the emitted state back.
// ---------------------------------------------------------------------------

/// Splits a matched concatenation into its two matched halves.
proof fn lemma_concat_split(s: Seq<char>, i: int, e1: Seq<char>, e2: Seq<char>)
    requires
        0 <= i,
        i + e1.len() + e2.len() <= s.len(),
        s.subrange(i, i + e1.len() + e2.len()) == e1 + e2,
    ensures
        s.subrange(i, i + e1.len()) == e1,
        s.subrange(i + e1.len(), i + e1.len() + e2.len()) == e2,
{
    let whole = s.subrange(i, i + e1.len() + e2.len());
    assert forall|k: int| 0 <= k < e1.len() implies s.subrange(i, i + e1.len())[k] == e1[k] by {
        assert(whole[k] == (e1 + e2)[k]);
    }
    assert(s.subrange(i, i + e1.len()) =~= e1);
    assert forall|k: int|
        0 <= k < e2.len() implies s.subrange(i + e1.len(), i + e1.len() + e2.len())[k] == e2[k] by {
        assert(whole[e1.len() + k] == (e1 + e2)[e1.len() + k]);
    }
    assert(s.subrange(i + e1.len(), i + e1.len() + e2.len()) =~= e2);
}

/// The canonical decimal digits of `n`: nonempty, all digits, reading back
/// to `n`.
proof fn lemma_dec_rep(n: int)
    requires
        n >= 0,
    ensures
        dec_rep(n).len() >= 1,
        all_digits(dec_rep(n)),
        digits_val(dec_rep(n)) == n,
    decreases n,
{
    vstd::arithmetic::div_mod::lemma_fundamental_div_mod(n, 10);
    if n < 10 {
        assert(digit_val(digit_char(n)) == n);
        assert(is_digit(digit_char(n)));
        assert(dec_rep(n) == seq![digit_char(n)]);
        let d = dec_rep(n);
        assert(d.len() == 1);
        assert(d.drop_last() =~= Seq::<char>::empty());
        assert(digits_val(d.drop_last()) == 0);
        assert(digits_val(d) == digits_val(d.drop_last()) * 10 + digit_val(d.last()));
        assert(d.last() == digit_char(n));
    } else {
        lemma_dec_rep(n / 10);
        assert(0 <= n % 10 < 10) by {
            vstd::arithmetic::div_mod::lemma_mod_bound(n, 10);
        }
        assert(is_digit(digit_char(n % 10)));
        assert(digit_val(digit_char(n % 10)) == n % 10);
        let d = dec_rep(n);
        assert(d == dec_rep(n / 10).push(digit_char(n % 10)));
        assert(d.drop_last() =~= dec_rep(n / 10));
        assert(forall|k: int| 0 <= k < d.len() - 1 ==> d[k] == dec_rep(n / 10)[k]);
        assert(all_digits(d)) by {
            assert(forall|k: int|
                0 <= k < d.len() ==> is_digit(#[trigger] d[k]) == if k < d.len() - 1 {
                    is_digit(dec_rep(n / 10)[k])
                } else {
                    is_digit(digit_char(n % 10))
                });
        }
        assert(digits_val(d) == digits_val(dec_rep(n / 10)) * 10 + digit_val(digit_char(n % 10)));
    }
}

/// Parsing right where the digits of `n` were written yields `n`.
proof fn lemma_p_num_of_emit(s: Seq<char>, i: int, n: int)
    requires
        0 <= n <= u32::MAX,
        0 <= i,
        i + dec_rep(n).len() <= s.len(),
        s.subrange(i, i + dec_rep(n).len()) == dec_rep(n),
        i + dec_rep(n).len() == s.len() || !is_digit(s[i + dec_rep(n).len()]),
    ensures
        p_num(s, i) == Some((n as u32, i + dec_rep(n).len())),
{
    lemma_dec_rep(n);
    let e = i + dec_rep(n).len();
    assert forall|k: int| i <= k < e implies is_digit(#[trigger] s[k]) by {
        assert(s.subrange(i, e)[k - i] == s[k]);
        assert(is_digit(dec_rep(n)[k - i]));
    }
    lemma_digits_end_of(s, i, e);
    assert(digits_val(s.subrange(i, e)) == n);
}

/// Parsing right where a quoted plain string was written yields it back.
proof fn lemma_p_qstring_of_emit(s: Seq<char>, i: int, c: Seq<char>)
    requires
        plain_str(c),
        0 <= i,
        i + c.len() + 2 <= s.len(),
        s.subrange(i, i + c.len() + 2) == quoted(c),
    ensures
        p_qstring(s, i) == Some((c, i + c.len() + 2)),
{
    let q = quoted(c);
    assert(q.len() == c.len() + 2);
    assert(s[i] == q[0]);
    assert(q[0] == '"');
    assert forall|k: int| i + 1 <= k < i + 1 + c.len() implies plain_char(#[trigger] s[k]) by {
        assert(s.subrange(i, i + c.len() + 2)[k - i] == s[k]);
        assert(q[k - i] == c[k - i - 1]);
    }
    assert(s[i + 1 + c.len()] == q[c.len() + 1int]);
    assert(q[c.len() + 1int] == '"');
    assert(!plain_char('"'));
    lemma_str_end_of(s, i + 1, i + 1 + c.len());
    assert(p_qstring(s, i) == Some((s.subrange(i + 1, i + 1 + c.len()), i + c.len() + 2)));
    assert forall|k: int| 0 <= k < c.len() implies s.subrange(i + 1, i + 1 + c.len())[k]
        == c[k] by {
        assert(s.subrange(i, i + c.len() + 2)[k + 1] == s[i + 1 + k]);
        assert(q[k + 1] == c[k]);
    }
    assert(s.subrange(i + 1, i + 1 + c.len()) =~= c);
}

/// Parsing right where a literal was written consumes it.
proof fn lemma_p_lit_of_emit(s: Seq<char>, i: int, lit: Seq<char>)
    requires
        0 <= i,
        i + lit.len() <= s.len(),
        s.subrange(i, i + lit.len()) == lit,
    ensures
        p_lit(s, i, lit) == Some(i + lit.len()),
{
}

/// Parsing right where `key` + digits were written yields the number.
proof fn lemma_p_field_of_emit(s: Seq<char>, i: int, key: Seq<char>, n: int)
    requires
        0 <= n <= u32::MAX,
        0 <= i,
        i + key.len() + dec_rep(n).len() <= s.len(),
        s.subrange(i, i + key.len() + dec_rep(n).len()) == key + dec_rep(n),
        i + key.len() + dec_rep(n).len() == s.len() || !is_digit(
            s[i + key.len() + dec_rep(n).len()],
        ),
    ensures
        p_field(s, i, key) == Some((n as u32, i + key.len() + dec_rep(n).len())),
{
    lemma_concat_split(s, i, key, dec_rep(n));
    lemma_p_lit_of_emit(s, i, key);
    lemma_p_num_of_emit(s, i + key.len(), n);
}

/// One `key:number` field peeled off the front of a matched emission.
proof fn lemma_field_step(s: Seq<char>, i: int, key: Seq<char>, n: int, rest: Seq<char>)
    requires
        0 <= n <= u32::MAX,
        0 <= i,
        i + key.len() + dec_rep(n).len() + rest.len() <= s.len(),
        s.subrange(i, i + key.len() + dec_rep(n).len() + rest.len()) == key + dec_rep(n) + rest,
        rest.len() >= 1,
        !is_digit(rest[0]),
    ensures
        p_field(s, i, key) == Some((n as u32, i + key.len() + dec_rep(n).len())),
        s.subrange(
            i + key.len() + dec_rep(n).len(),
            i + key.len() + dec_rep(n).len() + rest.len(),
        ) == rest,
{
    lemma_dec_rep(n);
    assert(key + dec_rep(n) + rest =~= (key + dec_rep(n)) + rest);
    lemma_concat_split(s, i, key + dec_rep(n), rest);
    lemma_concat_split(s, i, key, dec_rep(n));
    let t = i + key.len() + dec_rep(n).len();
    assert(s[t] == rest[0]) by {
        assert(s.subrange(t, t + rest.len())[0] == s[t]);
    }
    lemma_p_lit_of_emit(s, i, key);
    lemma_p_num_of_emit(s, i + key.len(), n);
}

/// Parsing right where a stats object was written yields it back.
proof fn lemma_p_stats_of_emit(s: Seq<char>, i: int, st: Stats)
    requires
        0 <= i,
        i + emit_stats(st).len() <= s.len(),
        s.subrange(i, i + emit_stats(st).len()) == emit_stats(st),
    ensures
        p_stats(s, i) == Some((st, i + emit_stats(st).len())),
{
    reveal_strlit("{\"strength\":");
    reveal_strlit(",\"dexterity\":");
    reveal_strlit(",\"constitution\":");
    reveal_strlit(",\"intelligence\":");
    reveal_strlit(",\"wisdom\":");
    reveal_strlit(",\"charisma\":");
    reveal_strlit("}");
    let k1 = "{\"strength\":"@;
    let k2 = ",\"dexterity\":"@;
    let k3 = ",\"constitution\":"@;
    let k4 = ",\"intelligence\":"@;
    let k5 = ",\"wisdom\":"@;
    let k6 = ",\"charisma\":"@;
    let k7 = "}"@;
    let d1 = dec_rep(st.strength as int);
    let d2 = dec_rep(st.dexterity as int);
    let d3 = dec_rep(st.constitution as int);
    let d4 = dec_rep(st.intelligence as int);
    let d5 = dec_rep(st.wisdom as int);
    let d6 = dec_rep(st.charisma as int);
    let t6 = k6 + d6 + k7;
    let t5 = k5 + d5 + t6;
    let t4 = k4 + d4 + t5;
    let t3 = k3 + d3 + t4;
    let t2 = k2 + d2 + t3;
    let t1 = k1 + d1 + t2;
    assert(emit_stats(st) =~= t1);
    assert(t1 =~= (k1 + d1) + t2);
    assert(s.subrange(i, i + t1.len()) == t1);
    lemma_field_step(s, i, k1, st.strength as int, t2);
    let i2 = i + k1.len() + d1.len();
    assert(t2 =~= (k2 + d2) + t3);
    lemma_field_step(s, i2, k2, st.dexterity as int, t3);
    let i3 = i2 + k2.len() + d2.len();
    assert(t3 =~= (k3 + d3) + t4);
    lemma_field_step(s, i3, k3, st.constitution as int, t4);
    let i4 = i3 + k3.len() + d3.len();
    assert(t4 =~= (k4 + d4) + t5);
    lemma_field_step(s, i4, k4, st.intelligence as int, t5);
    let i5 = i4 + k4.len() + d4.len();
    assert(t5 =~= (k5 + d5) + t6);
    lemma_field_step(s, i5, k5, st.wisdom as int, t6);
    let i6 = i5 + k5.len() + d5.len();
    assert(t6 =~= (k6 + d6) + k7);
    lemma_field_step(s, i6, k6, st.charisma as int, k7);
    let i7 = i6 + k6.len() + d6.len();
    lemma_p_lit_of_emit(s, i7, k7);
}

/// An effect (or item) persisted canonically: its display name is plain and
/// resolves in the registry to the stored value itself.
pub open spec fn canonical_effect(e: EffectV, reg: RegistryV) -> bool {
    &&& plain_str(e.name)
    &&& spec_effect_by_name(reg, e.name, 0) is Some
    &&& reg.effects[spec_effect_by_name(reg, e.name, 0)->Some_0] == e
}

pub open spec fn canonical_slot(sl: InvSlotV, reg: RegistryV) -> bool {
    &&& plain_str(sl.item.name)
    &&& sl.slot < u32::MAX
    &&& spec_item_by_name(reg, sl.item.name, 0) is Some
    &&& sl.item == (ItemV {
        meta: ItemMeta {
            attachment: sl.slot,
            last_used: reg.items[spec_item_by_name(reg, sl.item.name, 0)->Some_0].meta.last_used,
        },
        ..reg.items[spec_item_by_name(reg, sl.item.name, 0)->Some_0]
    })
}

/// A player whose persisted image reads back identically: plain identifier,
/// canonical effects and inventory, strictly increasing slots, and the
/// allocation counter exactly one past the last slot.
pub open spec fn canonical_player(p: PlayerV, reg: RegistryV) -> bool {
    &&& plain_str(p.id)
    &&& forall|a: int| 0 <= a < p.effects.len() ==> canonical_effect(#[trigger] p.effects[a], reg)
    &&& forall|a: int| 0 <= a < p.inventory.len() ==> canonical_slot(#[trigger] p.inventory[a], reg)
    &&& forall|a: int, b: int|
        0 <= a < b < p.inventory.len() ==> p.inventory[a].slot < p.inventory[b].slot
    &&& p.next_slot == derived_next_slot(p.inventory)
}

/// A state whose snapshot reads back identically.
pub open spec fn canonical_state(g: GameStateV, reg: RegistryV) -> bool {
    &&& forall|a: int| 0 <= a < g.players.len() ==> canonical_player(#[trigger] g.players[a], reg)
    &&& unique_ids(g)
}

/// Digit characters are plain.
proof fn lemma_digits_plain(d: Seq<char>)
    requires
        all_digits(d),
    ensures
        plain_str(d),
{
    assert forall|k: int| 0 <= k < d.len() implies plain_char(#[trigger] d[k]) by {
        assert(is_digit(d[k]));
    }
}

/// Head form of the effect-entry emission.
proof fn lemma_emit_effects_head(effs: Seq<EffectV>)
    requires
        effs.len() >= 2,
    ensures
        emit_effect_entries(effs) == quoted(effs[0].name) + ","@ + emit_effect_entries(
            effs.drop_first(),
        ),
    decreases effs.len(),
{
    if effs.len() == 2 {
        assert(effs.drop_last() =~= seq![effs[0]]);
        assert(effs.drop_first() =~= seq![effs[1]]);
        assert(emit_effect_entries(seq![effs[0]]) == quoted(seq![effs[0]][0].name));
        assert(emit_effect_entries(seq![effs[1]]) == quoted(seq![effs[1]][0].name));
        assert(emit_effect_entries(effs) =~= quoted(effs[0].name) + ","@ + emit_effect_entries(
            effs.drop_first(),
        ));
    } else {
        lemma_emit_effects_head(effs.drop_last());
        assert(effs.drop_last().len() >= 2);
        assert(effs.drop_last()[0] == effs[0]);
        assert(effs.drop_first().drop_last() =~= effs.drop_last().drop_first());
        assert(effs.drop_first().len() >= 2);
        assert(emit_effect_entries(effs.drop_first()) == emit_effect_entries(
            effs.drop_first().drop_last(),
        ) + ","@ + quoted(effs.drop_first().last().name));
        assert(effs.drop_first().last() == effs.last());
        assert(emit_effect_entries(effs) == emit_effect_entries(effs.drop_last()) + ","@ + quoted(
            effs.last().name,
        ));
        assert(emit_effect_entries(effs) =~= quoted(effs[0].name) + ","@ + emit_effect_entries(
            effs.drop_first(),
        ));
    }
}

/// Parsing right where canonical effect entries were written, with their
/// closing bracket, yields them back.
proof fn lemma_p_effects_of_emit(s: Seq<char>, i: int, effs: Seq<EffectV>, reg: RegistryV)
    requires
        0 <= i,
        i + emit_effect_entries(effs).len() + 1 <= s.len(),
        s.subrange(i, i + emit_effect_entries(effs).len() + 1) == emit_effect_entries(effs)
            + seq![']'],
        forall|a: int| 0 <= a < effs.len() ==> canonical_effect(#[trigger] effs[a], reg),
    ensures
        p_effect_entries(s, i, reg) == Some((effs, i + emit_effect_entries(effs).len() + 1)),
    decreases effs.len(),
{
    let e = emit_effect_entries(effs);
    if effs.len() == 0 {
        assert(s[i] == (e + seq![']'])[0]) by {
            assert(s.subrange(i, i + 1)[0] == s[i]);
        }
        assert(s[i] == ']');
        assert(p_effect_entries(s, i, reg) == Some((Seq::<EffectV>::empty(), i + 1)));
        assert(effs =~= Seq::<EffectV>::empty());
    } else {
        let name = effs[0].name;
        let q = quoted(name);
        let tail: Seq<char> = if effs.len() == 1 {
            seq![']']
        } else {
            ","@ + emit_effect_entries(effs.drop_first()) + seq![']']
        };
        assert(e + seq![']'] =~= q + tail) by {
            if effs.len() == 1 {
                assert(e == quoted(effs[0].name));
            } else {
                lemma_emit_effects_head(effs);
                assert(e == q + ","@ + emit_effect_entries(effs.drop_first()));
            }
        }
        lemma_concat_split(s, i, q, tail);
        lemma_p_qstring_of_emit(s, i, name);
        let j = i + name.len() + 2;
        assert(s[i] == q[0]) by {
            assert(s.subrange(i, i + q.len())[0] == s[i]);
        }
        assert(s[i] == '"');
        assert(s[i] != ']');
        let k = spec_effect_by_name(reg, name, 0)->Some_0;
        assert(reg.effects[k] == effs[0]);
        assert(s[j] == tail[0]) by {
            assert(s.subrange(j, j + tail.len())[0] == s[j]);
        }
        if effs.len() == 1 {
            assert(s[j] == ']');
            reveal_strlit(",");
            assert(s[j] != ',');
            assert(p_effect_entries(s, i, reg) == Some((seq![effs[0]], j + 1)));
            assert(seq![effs[0]] =~= effs);
        } else {
            reveal_strlit(",");
            assert(tail[0] == ',') by {
                assert(tail[0] == ","@[0]);
            }
            assert(s[j] == ',');
            assert(s[j] != ']');
            let rest_e = emit_effect_entries(effs.drop_first());
            assert(tail =~= ","@ + (rest_e + seq![']']));
            lemma_concat_split(s, j, ","@, rest_e + seq![']']);
            assert(","@.len() == 1);
            lemma_p_effects_of_emit(s, j + 1, effs.drop_first(), reg);
            assert(forall|a: int|
                0 <= a < effs.drop_first().len() ==> canonical_effect(
                    #[trigger] effs.drop_first()[a],
                    reg,
                ));
            assert(p_effect_entries(s, i, reg) == Some(
                (seq![effs[0]] + effs.drop_first(), j + 1 + rest_e.len() + 1),
            ));
            assert(seq![effs[0]] + effs.drop_first() =~= effs);
        }
    }
}

/// Head form of the inventory-entry emission.
proof fn lemma_emit_inventory_head(inv: Seq<InvSlotV>)
    requires
        inv.len() >= 2,
    ensures
        emit_inventory_entries(inv) == quoted(dec_rep(inv[0].slot as int)) + ":"@ + quoted(
            inv[0].item.name,
        ) + ","@ + emit_inventory_entries(inv.drop_first()),
    decreases inv.len(),
{
    if inv.len() == 2 {
        assert(inv.drop_last() =~= seq![inv[0]]);
        assert(inv.drop_first() =~= seq![inv[1]]);
        assert(emit_inventory_entries(seq![inv[0]]) == quoted(
            dec_rep(seq![inv[0]][0].slot as int),
        ) + ":"@ + quoted(seq![inv[0]][0].item.name));
        assert(emit_inventory_entries(seq![inv[1]]) == quoted(
            dec_rep(seq![inv[1]][0].slot as int),
        ) + ":"@ + quoted(seq![inv[1]][0].item.name));
        assert(emit_inventory_entries(inv) =~= quoted(dec_rep(inv[0].slot as int)) + ":"@ + quoted(
            inv[0].item.name,
        ) + ","@ + emit_inventory_entries(inv.drop_first()));
    } else {
        lemma_emit_inventory_head(inv.drop_last());
        assert(inv.drop_last()[0] == inv[0]);
        assert(inv.drop_first().drop_last() =~= inv.drop_last().drop_first());
        assert(inv.drop_first().len() >= 2);
        assert(emit_inventory_entries(inv.drop_first()) == emit_inventory_entries(
            inv.drop_first().drop_last(),
        ) + ","@ + quoted(dec_rep(inv.drop_first().last().slot as int)) + ":"@ + quoted(
            inv.drop_first().last().item.name,
        ));
        assert(inv.drop_first().last() == inv.last());
        assert(emit_inventory_entries(inv) =~= quoted(dec_rep(inv[0].slot as int)) + ":"@ + quoted(
            inv[0].item.name,
        ) + ","@ + emit_inventory_entries(inv.drop_first()));
    }
}

/// Parsing right where canonical inventory entries were written, with their
/// closing brace, yields them back.
proof fn lemma_p_inventory_of_emit(
    s: Seq<char>,
    i: int,
    inv: Seq<InvSlotV>,
    reg: RegistryV,
    min_slot: int,
)
    requires
        0 <= i,
        0 <= min_slot,
        i + emit_inventory_entries(inv).len() + 1 <= s.len(),
        s.subrange(i, i + emit_inventory_entries(inv).len() + 1) == emit_inventory_entries(inv)
            + seq!['}'],
        forall|a: int| 0 <= a < inv.len() ==> canonical_slot(#[trigger] inv[a], reg),
        forall|a: int, b: int| 0 <= a < b < inv.len() ==> inv[a].slot < inv[b].slot,
        inv.len() > 0 ==> min_slot <= inv[0].slot,
    ensures
        p_inventory_entries(s, i, reg, min_slot) == Some(
            (inv, i + emit_inventory_entries(inv).len() + 1),
        ),
    decreases inv.len(),
{
    let e = emit_inventory_entries(inv);
    if inv.len() == 0 {
        assert(s[i] == (e + seq!['}'])[0]) by {
            assert(s.subrange(i, i + 1)[0] == s[i]);
        }
        assert(s[i] == '}');
        assert(inv =~= Seq::<InvSlotV>::empty());
    } else {
        let sl = inv[0];
        let ds = dec_rep(sl.slot as int);
        let q1 = quoted(ds);
        let q2 = quoted(sl.item.name);
        let tail: Seq<char> = if inv.len() == 1 {
            seq!['}']
        } else {
            ","@ + emit_inventory_entries(inv.drop_first()) + seq!['}']
        };
        assert(e + seq!['}'] =~= q1 + (":"@ + (q2 + tail))) by {
            if inv.len() == 1 {
                assert(e == q1 + ":"@ + q2);
            } else {
                lemma_emit_inventory_head(inv);
            }
        }
        lemma_dec_rep(sl.slot as int);
        lemma_digits_plain(ds);
        lemma_concat_split(s, i, q1, ":"@ + (q2 + tail));
        lemma_p_qstring_of_emit(s, i, ds);
        let j1 = i + ds.len() + 2;
        assert(s[i] == q1[0]) by {
            assert(s.subrange(i, i + q1.len())[0] == s[i]);
        }
        assert(s[i] == '"');
        assert(s[i] != '}');
        reveal_strlit(":");
        assert(":"@.len() == 1);
        lemma_concat_split(s, j1, ":"@, q2 + tail);
        lemma_p_lit_of_emit(s, j1, ":"@);
        let j2 = j1 + 1;
        lemma_concat_split(s, j2, q2, tail);
        lemma_p_qstring_of_emit(s, j2, sl.item.name);
        let j3 = j2 + sl.item.name.len() + 2;
        let k = spec_item_by_name(reg, sl.item.name, 0)->Some_0;
        assert(s[j3] == tail[0]) by {
            assert(s.subrange(j3, j3 + tail.len())[0] == s[j3]);
        }
        assert(digits_val(ds) == sl.slot as int);
        assert(digits_val(ds) < u32::MAX);
        assert(digits_val(ds) >= min_slot);
        let built = InvSlotV {
            slot: sl.slot,
            item: ItemV {
                meta: ItemMeta { attachment: sl.slot, last_used: reg.items[k].meta.last_used },
                ..reg.items[k]
            },
        };
        assert(built == sl);
        if inv.len() == 1 {
            assert(s[j3] == '}');
            reveal_strlit(",");
            assert(s[j3] != ',');
            assert(p_inventory_entries(s, i, reg, min_slot) == Some((seq![sl], j3 + 1)));
            assert(seq![sl] =~= inv);
        } else {
            reveal_strlit(",");
            assert(tail[0] == ',') by {
                assert(tail[0] == ","@[0]);
            }
            assert(s[j3] == ',');
            assert(s[j3] != '}');
            let rest_e = emit_inventory_entries(inv.drop_first());
            assert(tail =~= ","@ + (rest_e + seq!['}']));
            lemma_concat_split(s, j3, ","@, rest_e + seq!['}']);
            assert(inv.drop_first().len() > 0 ==> sl.slot as int + 1 <= inv.drop_first()[0].slot)
                by {
                assert(inv.drop_first()[0] == inv[1]);
            }
            lemma_p_inventory_of_emit(s, j3 + 1, inv.drop_first(), reg, sl.slot as int + 1);
            assert(p_inventory_entries(s, i, reg, min_slot) == Some(
                (seq![sl] + inv.drop_first(), j3 + 1 + rest_e.len() + 1),
            ));
            assert(seq![sl] + inv.drop_first() =~= inv);
        }
    }
}

/// Parsing right where a canonical player record was written yields the
/// player back.
#[verifier::rlimit(100)]
#[verifier::spinoff_prover]
proof fn lemma_p_record_of_emit(s: Seq<char>, i: int, p: PlayerV, reg: RegistryV)
    requires
        0 <= i,
        i + emit_player_record(p).len() <= s.len(),
        s.subrange(i, i + emit_player_record(p).len()) == emit_player_record(p),
        canonical_player(p, reg),
    ensures
        p_player_record(s, i, p.id, reg) == Some((p, i + emit_player_record(p).len())),
{
    reveal_strlit("{\"id\":");
    reveal_strlit(",\"stats\":");
    reveal_strlit(",\"effects\":[");
    reveal_strlit("],\"inventory\":{");
    reveal_strlit(",\"inventory\":{");
    reveal_strlit("}}");
    reveal_strlit("}");
    let l1 = "{\"id\":"@;
    let l2 = ",\"stats\":"@;
    let l3 = ",\"effects\":["@;
    let lb = "],\"inventory\":{"@;
    let lb2 = ",\"inventory\":{"@;
    let l4 = "}}"@;
    let q = quoted(p.id);
    let es = emit_stats(p.stats);
    let ee = emit_effect_entries(p.effects);
    let ei = emit_inventory_entries(p.inventory);
    assert(lb =~= seq![']'] + lb2);
    assert(l4 =~= seq!['}'] + "}"@);
    let t5 = ei + l4;
    let t4 = ee + lb + ei + l4;
    let rec = emit_player_record(p);
    assert(rec =~= l1 + (q + (l2 + (es + (l3 + t4)))));
    lemma_concat_split(s, i, l1, q + (l2 + (es + (l3 + t4))));
    lemma_p_lit_of_emit(s, i, l1);
    let i1 = i + l1.len();
    lemma_concat_split(s, i1, q, l2 + (es + (l3 + t4)));
    lemma_p_qstring_of_emit(s, i1, p.id);
    let i2 = i1 + p.id.len() + 2;
    lemma_concat_split(s, i2, l2, es + (l3 + t4));
    lemma_p_lit_of_emit(s, i2, l2);
    let i3 = i2 + l2.len();
    lemma_concat_split(s, i3, es, l3 + t4);
    lemma_p_stats_of_emit(s, i3, p.stats);
    let i4 = i3 + es.len();
    lemma_concat_split(s, i4, l3, t4);
    lemma_p_lit_of_emit(s, i4, l3);
    let i5 = i4 + l3.len();
    assert(t4 =~= (ee + seq![']']) + (lb2 + t5));
    lemma_concat_split(s, i5, ee + seq![']'], lb2 + t5);
    lemma_p_effects_of_emit(s, i5, p.effects, reg);
    let i6 = i5 + ee.len() + 1;
    lemma_concat_split(s, i6, lb2, t5);
    lemma_p_lit_of_emit(s, i6, lb2);
    let i7 = i6 + lb2.len();
    assert(t5 =~= (ei + seq!['}']) + "}"@);
    lemma_concat_split(s, i7, ei + seq!['}'], "}"@);
    lemma_p_inventory_of_emit(s, i7, p.inventory, reg, 0);
    let i8 = i7 + ei.len() + 1;
    lemma_p_lit_of_emit(s, i8, "}"@);
    let i9 = i8 + 1;
    assert(i9 == i + rec.len());
    let built = PlayerV {
        id: p.id,
        stats: p.stats,
        effects: p.effects,
        inventory: p.inventory,
        next_slot: derived_next_slot(p.inventory),
    };
    assert(built == p);
}

/// Head form of the player-entry emission.
proof fn lemma_emit_players_head(ps: Seq<PlayerV>)
    requires
        ps.len() >= 2,
    ensures
        emit_player_entries(ps) == emit_player_entry(ps[0]) + ","@ + emit_player_entries(
            ps.drop_first(),
        ),
    decreases ps.len(),
{
    if ps.len() == 2 {
        assert(ps.drop_last() =~= seq![ps[0]]);
        assert(ps.drop_first() =~= seq![ps[1]]);
        assert(emit_player_entries(seq![ps[0]]) == emit_player_entry(seq![ps[0]][0]));
        assert(emit_player_entries(seq![ps[1]]) == emit_player_entry(seq![ps[1]][0]));
        assert(emit_player_entries(ps) =~= emit_player_entry(ps[0]) + ","@ + emit_player_entries(
            ps.drop_first(),
        ));
    } else {
        lemma_emit_players_head(ps.drop_last());
        assert(ps.drop_last()[0] == ps[0]);
        assert(ps.drop_first().drop_last() =~= ps.drop_last().drop_first());
        assert(ps.drop_first().len() >= 2);
        assert(emit_player_entries(ps.drop_first()) == emit_player_entries(
            ps.drop_first().drop_last(),
        ) + ","@ + emit_player_entry(ps.drop_first().last()));
        assert(ps.drop_first().last() == ps.last());
        assert(emit_player_entries(ps) =~= emit_player_entry(ps[0]) + ","@ + emit_player_entries(
            ps.drop_first(),
        ));
    }
}

/// One canonical `"id":record` entry peeled off the front of a matched
/// emission.
#[verifier::rlimit(100)]
#[verifier::spinoff_prover]
proof fn lemma_p_entry_parts(s: Seq<char>, i: int, p: PlayerV, rest: Seq<char>, reg: RegistryV)
    requires
        0 <= i,
        i + emit_player_entry(p).len() + rest.len() <= s.len(),
        s.subrange(i, i + emit_player_entry(p).len() + rest.len()) == emit_player_entry(p) + rest,
        canonical_player(p, reg),
    ensures
        s[i] == '"',
        p_qstring(s, i) == Some((p.id, i + p.id.len() + 2)),
        p_lit(s, i + p.id.len() + 2, ":"@) == Some(i + p.id.len() + 3),
        p_player_record(s, i + p.id.len() + 3, p.id, reg) == Some(
            (p, i + emit_player_entry(p).len()),
        ),
        s.subrange(i + emit_player_entry(p).len(), i + emit_player_entry(p).len() + rest.len())
            == rest,
{
    let q = quoted(p.id);
    let rec = emit_player_record(p);
    reveal_strlit(":");
    assert(":"@.len() == 1);
    assert(emit_player_entry(p) + rest =~= q + (":"@ + (rec + rest)));
    lemma_concat_split(s, i, q, ":"@ + (rec + rest));
    lemma_p_qstring_of_emit(s, i, p.id);
    let j1 = i + p.id.len() + 2;
    assert(s[i] == q[0]) by {
        assert(s.subrange(i, i + q.len())[0] == s[i]);
    }
    lemma_concat_split(s, j1, ":"@, rec + rest);
    lemma_p_lit_of_emit(s, j1, ":"@);
    let j2 = j1 + 1;
    lemma_concat_split(s, j2, rec, rest);
    lemma_p_record_of_emit(s, j2, p, reg);
}

/// Unfolds one step of `p_player_entries` from facts about its parts.
#[verifier::rlimit(100)]
#[verifier::spinoff_prover]
proof fn lemma_p_entries_step(s: Seq<char>, i: int, p0: PlayerV, j3: int, reg: RegistryV)
    requires
        0 <= i < s.len(),
        s[i] == '"',
        p_qstring(s, i) == Some((p0.id, i + p0.id.len() + 2)),
        p_lit(s, i + p0.id.len() + 2, ":"@) == Some(i + p0.id.len() + 3),
        p_player_record(s, i + p0.id.len() + 3, p0.id, reg) == Some((p0, j3)),
        i + p0.id.len() + 3 < j3 <= s.len(),
        j3 < s.len(),
        s[j3] == ',' || s[j3] == '}',
    ensures
        s[j3] == '}' ==> p_player_entries(s, i, reg) == Some((seq![p0], j3 + 1)),
        s[j3] == ',' && p_player_entries(s, j3 + 1, reg) is Some ==> p_player_entries(s, i, reg)
            == Some(
            (
                seq![p0] + p_player_entries(s, j3 + 1, reg)->Some_0.0,
                p_player_entries(s, j3 + 1, reg)->Some_0.1,
            ),
        ),
{
    assert(s[i] != '}');
}

/// Parsing right where canonical player entries were written, with their
/// closing brace, yields them back.
#[verifier::rlimit(100)]
#[verifier::spinoff_prover]
proof fn lemma_p_players_of_emit(s: Seq<char>, i: int, ps: Seq<PlayerV>, reg: RegistryV)
    requires
        0 <= i,
        i + emit_player_entries(ps).len() + 1 <= s.len(),
        s.subrange(i, i + emit_player_entries(ps).len() + 1) == emit_player_entries(ps)
            + seq!['}'],
        forall|a: int| 0 <= a < ps.len() ==> canonical_player(#[trigger] ps[a], reg),
    ensures
        p_player_entries(s, i, reg) == Some((ps, i + emit_player_entries(ps).len() + 1)),
    decreases ps.len(),
{
    let e = emit_player_entries(ps);
    if ps.len() == 0 {
        assert(s[i] == (e + seq!['}'])[0]) by {
            assert(s.subrange(i, i + 1)[0] == s[i]);
        }
        assert(s[i] == '}');
        assert(ps =~= Seq::<PlayerV>::empty());
    } else {
        let p0 = ps[0];
        let tail: Seq<char> = if ps.len() == 1 {
            seq!['}']
        } else {
            ","@ + emit_player_entries(ps.drop_first()) + seq!['}']
        };
        assert(e + seq!['}'] =~= emit_player_entry(p0) + tail) by {
            if ps.len() == 1 {
                assert(e == emit_player_entry(ps[0]));
            } else {
                lemma_emit_players_head(ps);
            }
        }
        lemma_p_entry_parts(s, i, p0, tail, reg);
        let j3 = i + emit_player_entry(p0).len();
        assert(s[j3] == tail[0]) by {
            assert(s.subrange(j3, j3 + tail.len())[0] == s[j3]);
        }
        assert(emit_player_entry(p0).len() > p0.id.len() + 3) by {
            reveal_strlit("{\"id\":");
            assert(emit_player_entry(p0) == quoted(p0.id) + ":"@ + emit_player_record(p0));
            reveal_strlit(":");
        }
        if ps.len() == 1 {
            assert(s[j3] == '}');
            lemma_p_entries_step(s, i, p0, j3, reg);
            assert(p_player_entries(s, i, reg) == Some((seq![p0], j3 + 1)));
            assert(seq![p0] =~= ps);
        } else {
            reveal_strlit(",");
            assert(tail[0] == ',') by {
                assert(tail[0] == ","@[0]);
            }
            assert(s[j3] == ',');
            let rest_e = emit_player_entries(ps.drop_first());
            assert(tail =~= ","@ + (rest_e + seq!['}']));
            lemma_concat_split(s, j3, ","@, rest_e + seq!['}']);
            lemma_p_players_of_emit(s, j3 + 1, ps.drop_first(), reg);
            lemma_p_entries_step(s, i, p0, j3, reg);
            assert(p_player_entries(s, i, reg) == Some(
                (seq![p0] + ps.drop_first(), j3 + 1 + rest_e.len() + 1),
            ));
            assert(seq![p0] + ps.drop_first() =~= ps);
        }
    }
}

/// Round trip: reading a canonically persisted state back through the
/// registry restores it exactly.  Every state the store builds from catalog
/// templates is canonical; an instance whose copied template data has
/// drifted from the catalog is restored from the catalog instead, since the
/// snapshot stores display names only.
pub proof fn lemma_snapshot_round_trip(g: GameStateV, reg: RegistryV)
    requires
        canonical_state(g, reg),
    ensures
        p_state(emit_state(g), reg) == Some(g),
{
    let s = emit_state(g);
    reveal_strlit("{\"players\":{");
    reveal_strlit("}}");
    reveal_strlit("}");
    let l1 = "{\"players\":{"@;
    let ee = emit_player_entries(g.players);
    assert("}}"@ =~= seq!['}'] + "}"@);
    assert(s =~= l1 + ((ee + seq!['}']) + "}"@));
    assert(s.subrange(0, s.len() as int) =~= s);
    lemma_concat_split(s, 0, l1, (ee + seq!['}']) + "}"@);
    lemma_p_lit_of_emit(s, 0, l1);
    let i1 = l1.len() as int;
    lemma_concat_split(s, i1, ee + seq!['}'], "}"@);
    lemma_p_players_of_emit(s, i1, g.players, reg);
    let i2 = i1 + ee.len() + 1;
    lemma_p_lit_of_emit(s, i2, "}"@);
    assert(i2 + 1 == s.len());
    assert(GameStateV { players: g.players } == g);
}

} // verus!
