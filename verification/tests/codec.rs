//! Enchantment storage encoding: `"<name>,<level>"`.

use vault_store::codec::{decode_enchantment, encode_enchantment, parse_i32};
use vault_store::item::Enchantment;

fn ench(name: &str, level: i32) -> Enchantment {
    Enchantment { name: String::from(name), level }
}

#[test]
fn encode_is_name_comma_level() {
    assert_eq!(encode_enchantment(&ench("sharpness", 3)), "sharpness,3");
    assert_eq!(encode_enchantment(&ench("unbreaking", 1)), "unbreaking,1");
    assert_eq!(encode_enchantment(&ench("curse", -7)), "curse,-7");
    assert_eq!(encode_enchantment(&ench("", 0)), ",0");
    assert_eq!(encode_enchantment(&ench("big", 2147483647)), "big,2147483647");
    assert_eq!(encode_enchantment(&ench("small", -2147483648)), "small,-2147483648");
}

#[test]
fn decode_reads_back_name_and_level() {
    let e = decode_enchantment("sharpness,3").expect("well formed");
    assert_eq!(e.name, "sharpness");
    assert_eq!(e.level, 3);
    let e = decode_enchantment(",0").expect("well formed");
    assert_eq!(e.name, "");
    assert_eq!(e.level, 0);
    let e = decode_enchantment("curse,-7").expect("well formed");
    assert_eq!(e.name, "curse");
    assert_eq!(e.level, -7);
}

#[test]
fn decode_splits_on_the_first_comma() {
    // A name holding a comma is not representable: the split happens at the
    // first comma, so the remainder fails to read as a level.
    assert!(decode_enchantment("a,b,3").is_none());
    // But a first comma followed by a level wins, whatever came before.
    let e = decode_enchantment("power,10").expect("well formed");
    assert_eq!(e.name, "power");
    assert_eq!(e.level, 10);
}

#[test]
fn decode_rejects_malformed_strings() {
    assert!(decode_enchantment("").is_none());
    assert!(decode_enchantment("sharpness").is_none());
    assert!(decode_enchantment("sharpness,").is_none());
    assert!(decode_enchantment("sharpness,three").is_none());
    assert!(decode_enchantment("sharpness,3x").is_none());
    assert!(decode_enchantment("sharpness,2147483648").is_none());
}

#[test]
fn round_trip_keeps_every_value() {
    for &level in &[0, 1, -1, 9, 10, 42, -99, 1000000, 2147483647, -2147483648] {
        let e = ench("aqua_affinity", level);
        let back = decode_enchantment(&encode_enchantment(&e)).expect("round trip");
        assert_eq!(back.name, e.name);
        assert_eq!(back.level, e.level);
    }
}

#[test]
fn parse_accepts_signs_and_leading_zeros() {
    assert_eq!(parse_i32("0"), Some(0));
    assert_eq!(parse_i32("007"), Some(7));
    assert_eq!(parse_i32("+5"), Some(5));
    assert_eq!(parse_i32("-5"), Some(-5));
    assert_eq!(parse_i32("2147483647"), Some(2147483647));
    assert_eq!(parse_i32("-2147483648"), Some(-2147483648));
}

#[test]
fn parse_rejects_what_is_not_a_level() {
    assert_eq!(parse_i32(""), None);
    assert_eq!(parse_i32("-"), None);
    assert_eq!(parse_i32("+"), None);
    assert_eq!(parse_i32(" 5"), None);
    assert_eq!(parse_i32("5 "), None);
    assert_eq!(parse_i32("12a"), None);
    assert_eq!(parse_i32("2147483648"), None);
    assert_eq!(parse_i32("-2147483649"), None);
    assert_eq!(parse_i32("99999999999999999999"), None);
}
