//! Dice engine: parsing and evaluation of dice expressions.
//!
//! Expressions have the canonical form `{count}d{sides}[+{modifier}]`;
//! `count` and `sides` are required positive integers, the modifier is
//! optional (default 0) and may be negative.  Every reported outcome is
//! clamped to a minimum of 1.

use vstd::prelude::*;
use crate::rng::draw_die;
use crate::text::chars_of;

verus! {

/// Error returned when a dice expression does not match
/// `{count}d{sides}[+{modifier}]`.
#[derive(Clone, Copy, PartialEq, Eq, Structural, Debug)]
pub struct ParseError;

/// A parsed dice expression: roll `count` dice of `sides` sides and add
/// `modifier` once to the total.
#[derive(Clone, Copy, PartialEq, Eq, Structural, Debug)]
pub struct DiceExpr {
    pub count: u32,
    pub sides: u32,
    pub modifier: i32,
}

/// Namespace for the dice engine's operations.
pub struct Dice();

pub open spec fn is_digit(c: char) -> bool {
    '0' <= c && c <= '9'
}

pub open spec fn digit_val(c: char) -> int {
    c as int - '0' as int
}

pub open spec fn all_digits(s: Seq<char>) -> bool {
    forall|i: int| 0 <= i < s.len() ==> is_digit(s[i])
}

/// The value of a digit string read in base 10.
pub open spec fn digits_val(s: Seq<char>) -> int
    decreases s.len(),
{
    if s.len() == 0 {
        0
    } else {
        digits_val(s.drop_last()) * 10 + digit_val(s.last())
    }
}

/// Clamp an outcome into the reportable range: at least 1, at most `u32::MAX`.
pub open spec fn clamp_u32(v: int) -> int {
    if v < 1 {
        1
    } else if v > u32::MAX {
        u32::MAX as int
    } else {
        v
    }
}

/// The reported outcome of one draw plus a modifier: clamped to at least 1.
pub open spec fn outcome_of(draw: u32, modifier: i32) -> int {
    clamp_u32(draw + modifier)
}

/// Sum of a sequence of dice draws.
pub open spec fn sum_draws(s: Seq<u32>) -> int
    decreases s.len(),
{
    if s.len() == 0 {
        0
    } else {
        sum_draws(s.drop_last()) + s.last()
    }
}

/// The reported total for a sequence of draws plus a single modifier.
pub open spec fn total_spec(draws: Seq<u32>, modifier: i32) -> int {
    clamp_u32(sum_draws(draws) + modifier)
}

pub open spec fn min4(a: int, b: int, c: int, d: int) -> int {
    let m1 = if a <= b { a } else { b };
    let m2 = if c <= d { c } else { d };
    if m1 <= m2 { m1 } else { m2 }
}

/// Sum of the three highest of four dice: the total minus the single lowest.
pub open spec fn stat_of(a: int, b: int, c: int, d: int) -> int {
    a + b + c + d - min4(a, b, c, d)
}

/// `c` is at position `i` in `s` and nowhere earlier.
pub open spec fn is_first_at(s: Seq<char>, c: char, i: int) -> bool {
    &&& 0 <= i < s.len()
    &&& s[i] == c
    &&& forall|j: int| 0 <= j < i ==> s[j] != c
}

pub open spec fn parse_u32_spec(s: Seq<char>) -> Option<u32> {
    if s.len() > 0 && all_digits(s) && digits_val(s) <= u32::MAX {
        Some(digits_val(s) as u32)
    } else {
        None
    }
}

pub open spec fn parse_i32_spec(s: Seq<char>) -> Option<i32> {
    if s.len() > 0 && s[0] == '-' {
        let d = s.subrange(1, s.len() as int);
        if d.len() > 0 && all_digits(d) && digits_val(d) <= -(i32::MIN as int) {
            Some((-digits_val(d)) as i32)
        } else {
            None
        }
    } else if s.len() > 0 && all_digits(s) && digits_val(s) <= i32::MAX {
        Some(digits_val(s) as i32)
    } else {
        None
    }
}

/// What a dice expression string denotes, if anything: count and sides are
/// the digit runs around the single `d`, the optional segment after `+` is
/// the modifier.
pub open spec fn parse_dice_spec(s: Seq<char>) -> Option<DiceExpr> {
    if exists|i: int| is_first_at(s, 'd', i) {
        let di = choose|i: int| is_first_at(s, 'd', i);
        let head = s.subrange(0, di);
        let tail = s.subrange(di + 1, s.len() as int);
        if tail.contains('d') {
            None
        } else {
            let num = if exists|j: int| is_first_at(tail, '+', j) {
                tail.subrange(0, choose|j: int| is_first_at(tail, '+', j))
            } else {
                tail
            };
            let modifier = if exists|j: int| is_first_at(tail, '+', j) {
                parse_i32_spec(
                    tail.subrange(1 + choose|j: int| is_first_at(tail, '+', j), tail.len() as int),
                )
            } else {
                Some(0i32)
            };
            match (parse_u32_spec(head), parse_u32_spec(num), modifier) {
                (Some(c), Some(sd), Some(m)) => {
                    if c >= 1 && sd >= 1 {
                        Some(DiceExpr { count: c, sides: sd, modifier: m })
                    } else {
                        None
                    }
                },
                _ => None,
            }
        }
    } else {
        None
    }
}

/// A nonempty all-digit string has a nonnegative value.
pub proof fn lemma_digits_val_nonneg(s: Seq<char>)
    requires
        all_digits(s),
    ensures
        digits_val(s) >= 0,
    decreases s.len(),
{
    if s.len() > 0 {
        assert(all_digits(s.drop_last()));
        lemma_digits_val_nonneg(s.drop_last());
    }
}

/// Extending an all-digit string never lowers its value.
proof fn lemma_digits_val_prefix(s: Seq<char>, i: int)
    requires
        all_digits(s),
        0 <= i <= s.len(),
    ensures
        digits_val(s) >= digits_val(s.subrange(0, i)),
    decreases s.len() - i,
{
    if i < s.len() {
        lemma_digits_val_prefix(s, i + 1);
        let p = s.subrange(0, i + 1);
        assert(p.drop_last() =~= s.subrange(0, i));
        assert(all_digits(s.subrange(0, i)));
        lemma_digits_val_nonneg(s.subrange(0, i));
        assert(digits_val(p) == digits_val(s.subrange(0, i)) * 10 + digit_val(s[i]));
        assert(digit_val(s[i]) >= 0);
    } else {
        assert(s.subrange(0, i) =~= s);
    }
}

/// Parse a base-10 number from `v[from..to]`, rejecting values above `max`.
pub(crate) fn parse_num(v: &Vec<char>, from: usize, to: usize, max: u32) -> (r: Option<u32>)
    requires
        from <= to <= v@.len(),
    ensures
        r is Some <==> (to - from > 0 && all_digits(v@.subrange(from as int, to as int))
            && digits_val(v@.subrange(from as int, to as int)) <= max),
        r matches Some(n) ==> n == digits_val(v@.subrange(from as int, to as int)) && n <= max,
{
    let ghost whole = v@.subrange(from as int, to as int);
    if from == to {
        return None;
    }
    let mut acc: u64 = 0;
    let mut i: usize = from;
    while i < to
        invariant
            from <= i <= to <= v@.len(),
            whole == v@.subrange(from as int, to as int),
            all_digits(whole.subrange(0, i - from)),
            acc == digits_val(whole.subrange(0, i - from)),
            acc <= max,
            max <= u32::MAX,
        decreases to - i,
    {
        let c = v[i];
        if !(c >= '0' && c <= '9') {
            proof {
                assert(whole[i - from] == c);
                assert(!is_digit(whole[i - from]));
            }
            return None;
        }
        let d: u64 = (c as u32 as u64) - ('0' as u32 as u64);
        proof {
            assert(whole.subrange(0, i + 1 - from).drop_last() =~= whole.subrange(0, i - from));
            assert(whole.subrange(0, i + 1 - from).last() == whole[i - from]);
            assert(whole[i - from] == c);
        }
        let next: u64 = acc * 10 + d;
        if next > max as u64 {
            proof {
                assert(digits_val(whole.subrange(0, i + 1 - from)) == next);
                if all_digits(whole) && digits_val(whole) <= max {
                    lemma_digits_val_prefix(whole, i + 1 - from);
                }
            }
            return None;
        }
        acc = next;
        i = i + 1;
    }
    proof {
        assert(whole.subrange(0, to - from) =~= whole);
    }
    Some(acc as u32)
}

/// Index of the first occurrence of `c` in `v` at or after `from`.
fn find_char(v: &Vec<char>, from: usize, c: char) -> (r: Option<usize>)
    requires
        from <= v@.len(),
    ensures
        r matches Some(i) ==> from <= i < v@.len() && v@[i as int] == c && (forall|j: int|
            from <= j < i ==> v@[j] != c),
        r is None ==> forall|j: int| from <= j < v@.len() ==> v@[j] != c,
{
    let mut i: usize = from;
    while i < v.len()
        invariant
            from <= i <= v@.len(),
            forall|j: int| from <= j < i ==> v@[j] != c,
        decreases v@.len() - i,
    {
        if v[i] == c {
            return Some(i);
        }
        i = i + 1;
    }
    None
}

impl Dice {
    /// Deterministic core of a single roll: the draw plus the modifier,
    /// clamped to a minimum of 1 (and into the result type from above).
    pub fn roll_with(draw: u32, modifier: i32) -> (r: u32)
        ensures
            r == clamp_u32(draw + modifier),
            r >= 1,
    {
        let v: i64 = draw as i64 + modifier as i64;
        if v < 1 {
            1
        } else if v > u32::MAX as i64 {
            u32::MAX
        } else {
            v as u32
        }
    }

    /// One roll of a die with `sides` sides, plus `modifier`, clamped to a
    /// minimum of 1: never zero or negative, and exactly 1 whenever even the
    /// highest draw cannot exceed 1.
    pub fn roll(sides: u32, modifier: i32) -> (r: u32)
        requires
            1 <= sides,
        ensures
            1 <= r,
            r <= clamp_u32(sides + modifier),
            exists|d: u32| 1 <= d <= sides && r == #[trigger] outcome_of(d, modifier),
            sides + modifier <= 1 ==> r == 1,
    {
        let d = draw_die(sides);
        let r = Self::roll_with(d, modifier);
        proof {
            assert(1 <= d <= sides && r == outcome_of(d, modifier));
        }
        r
    }

    /// Deterministic core of a stat roll: the sum of the three highest of the
    /// four given dice.
    pub fn stat_roll_with(a: u32, b: u32, c: u32, d: u32) -> (r: u32)
        requires
            1 <= a <= 6,
            1 <= b <= 6,
            1 <= c <= 6,
            1 <= d <= 6,
        ensures
            r == stat_of(a as int, b as int, c as int, d as int),
            3 <= r <= 18,
    {
        let m1 = if a <= b { a } else { b };
        let m2 = if c <= d { c } else { d };
        let m = if m1 <= m2 { m1 } else { m2 };
        a + b + c + d - m
    }

    /// Rolls four six-sided dice, drops the lowest, and sums the remaining
    /// three; the result always lies in [3, 18].
    pub fn stat_roll() -> (r: u32)
        ensures
            3 <= r <= 18,
            exists|a: u32, b: u32, c: u32, d: u32|
                1 <= a <= 6 && 1 <= b <= 6 && 1 <= c <= 6 && 1 <= d <= 6 && r == stat_of(
                    a as int,
                    b as int,
                    c as int,
                    d as int,
                ),
    {
        let a = draw_die(6);
        let b = draw_die(6);
        let c = draw_die(6);
        let d = draw_die(6);
        let r = Self::stat_roll_with(a, b, c, d);
        proof {
            assert(1 <= a <= 6 && 1 <= b <= 6 && 1 <= c <= 6 && 1 <= d <= 6 && r == stat_of(
                a as int,
                b as int,
                c as int,
                d as int,
            ));
        }
        r
    }

    /// Parses the canonical form `{count}d{sides}[+{modifier}]`, returning
    /// exactly what the expression denotes and an error otherwise.
    pub fn parse(s: &str) -> (r: Result<DiceExpr, ParseError>)
        ensures
            (r is Ok) == (parse_dice_spec(s@) is Some),
            r matches Ok(e) ==> parse_dice_spec(s@) == Some(e) && e.count >= 1 && e.sides >= 1,
    {
        let v = chars_of(s);
        let di = match find_char(&v, 0, 'd') {
            Some(i) => i,
            None => {
                proof {
                    assert(forall|i: int| !is_first_at(s@, 'd', i));
                }
                return Err(ParseError);
            },
        };
        proof {
            assert(is_first_at(s@, 'd', di as int));
        }
        if find_char(&v, di + 1, 'd').is_some() {
            proof {
                let tail = s@.subrange(di + 1, s@.len() as int);
                let k = choose|j: int| di + 1 <= j < s@.len() && s@[j] == 'd';
                assert(tail[k - di - 1] == 'd');
                assert(tail.contains('d'));
            }
            return Err(ParseError);
        }
        let ghost tail = s@.subrange(di + 1, s@.len() as int);
        proof {
            assert(forall|j: int| 0 <= j < tail.len() ==> tail[j] == s@[di + 1 + j]);
            assert(!tail.contains('d')) by {
                if tail.contains('d') {
                    let k = choose|k: int| 0 <= k < tail.len() && tail[k] == 'd';
                    assert(s@[di + 1 + k] == 'd');
                }
            }
        }
        let count = match parse_num(&v, 0, di, u32::MAX) {
            Some(n) => n,
            None => {
                proof {
                    assert(s@.subrange(0, di as int) =~= v@.subrange(0, di as int));
                }
                return Err(ParseError);
            },
        };
        proof {
            assert(s@.subrange(0, di as int) =~= v@.subrange(0, di as int));
        }
        let plus = find_char(&v, di + 1, '+');
        let num_to = match plus {
            Some(p) => p,
            None => v.len(),
        };
        proof {
            match plus {
                Some(p) => {
                    assert(is_first_at(tail, '+', p - di - 1)) by {
                        assert(tail[p - di - 1] == s@[p as int]);
                        assert(forall|j: int| 0 <= j < p - di - 1 ==> tail[j] == s@[di + 1 + j]);
                    }
                },
                None => {
                    assert(forall|j: int| !is_first_at(tail, '+', j)) by {
                        assert(forall|j: int| 0 <= j < tail.len() ==> tail[j] == s@[di + 1 + j]);
                    }
                },
            }
        }
        let sides = match parse_num(&v, di + 1, num_to, u32::MAX) {
            Some(n) => n,
            None => {
                proof {
                    lemma_tail_slices(s@, di as int, num_to as int);
                }
                return Err(ParseError);
            },
        };
        proof {
            lemma_tail_slices(s@, di as int, num_to as int);
        }
        let modifier: i32 = match plus {
            None => 0,
            Some(p) => {
                match Self::parse_mod(&v, p + 1) {
                    Some(m) => m,
                    None => {
                        proof {
                            lemma_mod_slice(s@, di as int, p as int);
                        }
                        return Err(ParseError);
                    },
                }
            },
        };
        proof {
            if let Some(p) = plus {
                lemma_mod_slice(s@, di as int, p as int);
            }
        }
        if count == 0 || sides == 0 {
            return Err(ParseError);
        }
        Ok(DiceExpr { count, sides, modifier })
    }

    /// Parses an optionally negated base-10 modifier from `v[from..]`.
    fn parse_mod(v: &Vec<char>, from: usize) -> (r: Option<i32>)
        requires
            from <= v@.len(),
        ensures
            r == parse_i32_spec(v@.subrange(from as int, v@.len() as int)),
    {
        let ghost seg = v@.subrange(from as int, v@.len() as int);
        if from < v.len() && v[from] == '-' {
            proof {
                assert(seg[0] == '-');
                assert(seg.subrange(1, seg.len() as int) =~= v@.subrange(
                    from + 1,
                    v@.len() as int,
                ));
            }
            match parse_num(v, from + 1, v.len(), 2147483648u32) {
                Some(n) => {
                    if n == 2147483648u32 {
                        Some(i32::MIN)
                    } else {
                        Some(-(n as i32))
                    }
                },
                None => None,
            }
        } else {
            proof {
                if seg.len() > 0 {
                    assert(seg[0] == v@[from as int]);
                }
            }
            match parse_num(v, from, v.len(), 2147483647u32) {
                Some(n) => Some(n as i32),
                None => None,
            }
        }
    }

    /// Deterministic core of expression evaluation: sums the draws, adds the
    /// modifier once, and clamps the total to a minimum of 1.
    pub fn total_with_draws(draws: &Vec<u32>, modifier: i32) -> (r: u32)
        requires
            draws@.len() <= u32::MAX,
        ensures
            r == total_spec(draws@, modifier),
            r >= 1,
    {
        let mut acc: u64 = 0;
        let mut i: usize = 0;
        while i < draws.len()
            invariant
                i <= draws@.len() <= u32::MAX,
                acc == sum_draws(draws@.subrange(0, i as int)),
                acc <= i * (u32::MAX as u64),
            decreases draws@.len() - i,
        {
            proof {
                assert(draws@.subrange(0, i + 1).drop_last() =~= draws@.subrange(0, i as int));
                assert(draws@.subrange(0, i + 1).last() == draws@[i as int]);
            }
            acc = acc + draws[i] as u64;
            i = i + 1;
        }
        proof {
            assert(draws@.subrange(0, draws@.len() as int) =~= draws@);
        }
        let v: i128 = acc as i128 + modifier as i128;
        if v < 1 {
            1
        } else if v > u32::MAX as i128 {
            u32::MAX
        } else {
            v as u32
        }
    }

    /// Evaluates a dice expression: fails exactly on strings that denote no
    /// expression; on success, sums `count` independent draws in
    /// `[1, sides]`, adds the modifier once, and clamps the total to a
    /// minimum of 1.
    pub fn from_string(s: &str) -> (r: Result<u32, ParseError>)
        ensures
            (r is Ok) == (parse_dice_spec(s@) is Some),
            r matches Ok(v) ==> 1 <= v,
            r matches Ok(v) ==> (parse_dice_spec(s@) matches Some(e) && exists|draws: Seq<u32>|
                draws.len() == e.count && (forall|i: int|
                    0 <= i < draws.len() ==> 1 <= #[trigger] draws[i] <= e.sides) && v
                    == total_spec(draws, e.modifier)),
    {
        let e = match Self::parse(s) {
            Ok(e) => e,
            Err(p) => {
                return Err(p);
            },
        };
        let mut draws: Vec<u32> = Vec::new();
        let mut i: u32 = 0;
        while i < e.count
            invariant
                i <= e.count,
                e.sides >= 1,
                draws@.len() == i,
                forall|j: int| 0 <= j < draws@.len() ==> 1 <= #[trigger] draws@[j] <= e.sides,
            decreases e.count - i,
        {
            let d = draw_die(e.sides);
            draws.push(d);
            i = i + 1;
        }
        let total = Self::total_with_draws(&draws, e.modifier);
        proof {
            assert(draws@.len() == e.count && (forall|i: int|
                0 <= i < draws@.len() ==> 1 <= #[trigger] draws@[i] <= e.sides) && total
                == total_spec(draws@, e.modifier));
        }
        Ok(total)
    }
}

/// Relates the character slices of the whole string to those of its tail
/// after the first `d`.
proof fn lemma_tail_slices(s: Seq<char>, di: int, num_to: int)
    requires
        0 <= di < s.len(),
        di + 1 <= num_to <= s.len(),
    ensures
        s.subrange(di + 1, num_to) == s.subrange(di + 1, s.len() as int).subrange(
            0,
            num_to - di - 1,
        ),
{
    assert(s.subrange(di + 1, num_to) =~= s.subrange(di + 1, s.len() as int).subrange(
        0,
        num_to - di - 1,
    ));
}

/// Relates the modifier slice of the whole string to the slice after the
/// first `+` of the tail.
proof fn lemma_mod_slice(s: Seq<char>, di: int, p: int)
    requires
        0 <= di < p < s.len(),
    ensures
        s.subrange(p + 1, s.len() as int) == s.subrange(di + 1, s.len() as int).subrange(
            p - di,
            s.len() - di - 1,
        ),
{
    assert(s.subrange(p + 1, s.len() as int) =~= s.subrange(di + 1, s.len() as int).subrange(
        p - di,
        s.len() - di - 1,
    ));
}

} // verus!
