//! Reading dice expressions.

use wan_party_bot::dice::{read_dice, read_group, DiceGroup, DiceOp};
use wan_party_bot::discord_util::raw_mentions;
use wan_party_bot::numbers::{parse_i64, parse_u64};

fn group(count: i64, faces: i64, op: Option<(DiceOp, i64)>) -> DiceGroup {
    DiceGroup { count, faces, op }
}

#[test]
fn integers_as_std_parses_them() {
    assert_eq!(parse_i64("42"), Some(42));
    assert_eq!(parse_i64("+5"), Some(5));
    assert_eq!(parse_i64("-17"), Some(-17));
    assert_eq!(parse_i64("007"), Some(7));
    assert_eq!(parse_i64("9223372036854775807"), Some(i64::MAX));
    assert_eq!(parse_i64("-9223372036854775808"), Some(i64::MIN));
    assert_eq!(parse_i64("9223372036854775808"), None);
    assert_eq!(parse_i64("-9223372036854775809"), None);
    assert_eq!(parse_i64("99999999999999999999999"), None);
    assert_eq!(parse_i64(""), None);
    assert_eq!(parse_i64("-"), None);
    assert_eq!(parse_i64("12a"), None);
    assert_eq!(parse_i64(" 1"), None);
    assert_eq!(parse_i64("٣"), None);
}

#[test]
fn groups_of_an_expression() {
    assert_eq!(read_dice("2d6 + 3"), Ok(vec![group(2, 6, Some((DiceOp::Add, 3)))]));
    assert_eq!(
        read_dice("roll 3d4^2 and 1 d 2 ‽ 5, then 4d8"),
        Ok(vec![
            group(3, 4, Some((DiceOp::Pow, 2))),
            group(1, 2, Some((DiceOp::Answer, 5))),
            group(4, 8, None)
        ])
    );
    assert_eq!(read_dice("1d20-1 2d4*3 1d6/2"), Ok(vec![
        group(1, 20, Some((DiceOp::Sub, 1))),
        group(2, 4, Some((DiceOp::Mul, 3))),
        group(1, 6, Some((DiceOp::Div, 2)))
    ]));
    assert_eq!(read_dice("0d0"), Ok(vec![group(0, 0, None)]));
    assert_eq!(read_dice("d6"), Ok(vec![]));
}

#[test]
fn expressions_that_cannot_be_rolled() {
    assert_eq!(read_dice("1d0"), Err(()));
    assert_eq!(read_dice("2d6/0"), Err(()));
    assert_eq!(read_dice("1d6 2d0"), Err(()));
    assert_eq!(read_dice("1d6+99999999999999999999"), Err(()));
    assert_eq!(read_group("1", "6", "+ 2"), Some(group(1, 6, Some((DiceOp::Add, 2)))));
    assert_eq!(read_group("1", "6", "%2"), Some(group(1, 6, Some((DiceOp::Keep, 2)))));
    assert_eq!(read_group("99999999999999999999", "0", ""), Some(group(0, 0, None)));
}

#[test]
fn unsigned_integers_as_std_parses_them() {
    assert_eq!(parse_u64("18446744073709551615"), Some(u64::MAX));
    assert_eq!(parse_u64("18446744073709551616"), None);
    assert_eq!(parse_u64("+7"), Some(7));
    assert_eq!(parse_u64("-7"), None);
    assert_eq!(parse_u64("-0"), None);
    assert_eq!(parse_u64(""), None);
    assert_eq!(parse_u64("+"), None);
}

#[test]
fn mentions_in_order() {
    assert_eq!(raw_mentions("<@1><@!2> <@ 3> <@99999999999999999999> <@4>"), vec![1, 2, 4]);
    assert_eq!(raw_mentions("no mentions"), Vec::<u64>::new());
}
