use entremets::arith::{add16, count16, div16, mul16, rem16, sub16, wrap};
use entremets::format::{count, integer, intersperse, natural};

#[test]
fn sums_and_differences_wrap_around() {
    assert_eq!(add16(100, 10), 110);
    assert_eq!(add16(32767, 1), -32768);
    assert_eq!(sub16(-32768, 1), 32767);
    assert_eq!(sub16(5, 7), -2);
}

#[test]
fn products_wrap_around() {
    assert_eq!(mul16(6, 7), 42);
    assert_eq!(mul16(256, 256), 0);
    assert_eq!(mul16(-32768, -1), -32768);
    assert_eq!(mul16(200, 200), -25536);
}

#[test]
fn quotients_round_towards_zero() {
    assert_eq!(div16(7, 2), 3);
    assert_eq!(div16(-7, 2), -3);
    assert_eq!(div16(7, -2), -3);
    assert_eq!(div16(-7, -2), 3);
    assert_eq!(div16(-32768, -1), -32768);
}

#[test]
fn remainders_take_the_sign_of_the_dividend() {
    assert_eq!(rem16(7, 2), 1);
    assert_eq!(rem16(-7, 2), -1);
    assert_eq!(rem16(7, -2), 1);
    assert_eq!(rem16(-7, -2), -1);
    assert_eq!(rem16(30, 4), 2);
}

#[test]
fn numbers_are_brought_back_into_sixteen_bits() {
    assert_eq!(wrap(0), 0);
    assert_eq!(wrap(32768), -32768);
    assert_eq!(wrap(65536), 0);
    assert_eq!(wrap(-32769), 32767);
    assert_eq!(count16(3), 3);
    assert_eq!(count16(65537), 1);
}

#[test]
fn numbers_are_written_in_decimal() {
    assert_eq!(natural(0), "0");
    assert_eq!(natural(907), "907");
    assert_eq!(count(31), "31");
    assert_eq!(integer(-32768), "-32768");
    assert_eq!(integer(120), "120");
    assert_eq!(integer(0), "0");
}

#[test]
fn texts_are_joined_with_the_separator_and_a_space() {
    let mut out = String::from("(");
    intersperse(
        &mut out,
        &vec!["a".to_string(), "b".to_string(), "c".to_string()],
        ",",
    );
    assert_eq!(out, "(a, b, c");
    let mut single = String::new();
    intersperse(&mut single, &vec!["a".to_string()], ",");
    assert_eq!(single, "a");
    let mut none = String::from("x");
    intersperse(&mut none, &vec![], ",");
    assert_eq!(none, "x");
}
