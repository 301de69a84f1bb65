use dicecore::dice::{Dice, DiceExpr, ParseError};

#[test]
fn roll_with_adds_modifier() {
    assert_eq!(Dice::roll_with(3, 2), 5);
    assert_eq!(Dice::roll_with(6, 0), 6);
}

#[test]
fn roll_with_clamps_to_one() {
    assert_eq!(Dice::roll_with(1, -5), 1);
    assert_eq!(Dice::roll_with(4, -4), 1);
    assert_eq!(Dice::roll_with(2, -1), 1);
}

#[test]
fn roll_is_at_least_one() {
    for _ in 0..50 {
        let r = Dice::roll(6, 0);
        assert!((1..=6).contains(&r));
    }
}

#[test]
fn roll_with_hopeless_modifier_is_exactly_one() {
    for _ in 0..20 {
        assert_eq!(Dice::roll(6, -10), 1);
        assert_eq!(Dice::roll(1, 0), 1);
    }
}

#[test]
fn stat_roll_stays_in_range() {
    for _ in 0..100 {
        let r = Dice::stat_roll();
        assert!((3..=18).contains(&r));
    }
}

#[test]
fn stat_roll_with_drops_the_lowest() {
    assert_eq!(Dice::stat_roll_with(3, 4, 5, 6), 15);
    assert_eq!(Dice::stat_roll_with(1, 1, 1, 1), 3);
    assert_eq!(Dice::stat_roll_with(6, 6, 6, 6), 18);
    assert_eq!(Dice::stat_roll_with(6, 1, 6, 6), 18);
    assert_eq!(Dice::stat_roll_with(2, 2, 1, 5), 9);
}

#[test]
fn parse_reads_count_sides_modifier() {
    assert_eq!(Dice::parse("2d6+1"), Ok(DiceExpr { count: 2, sides: 6, modifier: 1 }));
    assert_eq!(Dice::parse("1d20"), Ok(DiceExpr { count: 1, sides: 20, modifier: 0 }));
    assert_eq!(Dice::parse("3d4+-2"), Ok(DiceExpr { count: 3, sides: 4, modifier: -2 }));
}

#[test]
fn fixed_draws_for_2d6_plus_1_total_eight() {
    let e = Dice::parse("2d6+1").unwrap();
    assert_eq!(e.count, 2);
    assert_eq!(e.sides, 6);
    let total = Dice::total_with_draws(&vec![3, 4], e.modifier);
    assert_eq!(total, 8);
}

#[test]
fn total_clamps_to_one() {
    assert_eq!(Dice::total_with_draws(&vec![1, 1], -10), 1);
    assert_eq!(Dice::total_with_draws(&vec![], 0), 1);
    assert_eq!(Dice::total_with_draws(&vec![2, 3, 4], 5), 14);
}

#[test]
fn malformed_expressions_fail_to_parse() {
    assert_eq!(Dice::from_string("XdY"), Err(ParseError));
    assert_eq!(Dice::from_string("2d"), Err(ParseError));
    assert_eq!(Dice::from_string("d6"), Err(ParseError));
    assert_eq!(Dice::from_string("26"), Err(ParseError));
    assert_eq!(Dice::from_string("2d6d7"), Err(ParseError));
    assert_eq!(Dice::from_string("0d6"), Err(ParseError));
    assert_eq!(Dice::from_string("2d0"), Err(ParseError));
    assert_eq!(Dice::from_string("2d6+"), Err(ParseError));
    assert_eq!(Dice::from_string("2d6+x"), Err(ParseError));
    assert_eq!(Dice::from_string(""), Err(ParseError));
}

#[test]
fn well_formed_expression_evaluates() {
    let r = Dice::from_string("2d6").unwrap();
    assert!((2..=12).contains(&r));
    let r = Dice::from_string("3d6+2").unwrap();
    assert!((5..=20).contains(&r));
    for _ in 0..30 {
        assert!(Dice::from_string("2d6-why").is_err());
        assert!(Dice::from_string("1d1").unwrap() == 1);
    }
}
