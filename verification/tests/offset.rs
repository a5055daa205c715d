use subshift::error::{Error, OffsetRole};
use subshift::offset::OffsetPair;
use subshift::time::Time;

fn ms(milliseconds: i32) -> Option<Time> {
    Some(Time { milliseconds })
}

#[test]
fn whole_seconds() {
    assert_eq!(Time::parse_seconds(b"0"), ms(0));
    assert_eq!(Time::parse_seconds(b"1"), ms(1_000));
    assert_eq!(Time::parse_seconds(b"12"), ms(12_000));
    assert_eq!(Time::parse_seconds(b"007"), ms(7_000));
    assert_eq!(Time::parse_seconds(b"3600"), ms(3_600_000));
}

#[test]
fn signs() {
    assert_eq!(Time::parse_seconds(b"+1"), ms(1_000));
    assert_eq!(Time::parse_seconds(b"-1"), ms(-1_000));
    assert_eq!(Time::parse_seconds(b"-0"), ms(0));
    assert_eq!(Time::parse_seconds(b"-12.5"), ms(-12_500));
    assert_eq!(Time::parse_seconds(b"+12.5"), ms(12_500));
    assert_eq!(Time::parse_seconds(b"-0.25"), ms(-250));
    assert_eq!(Time::parse_seconds(b"-.5"), ms(-500));
    assert_eq!(Time::parse_seconds(b"+.5"), ms(500));
}

#[test]
fn fractions_are_filled_to_three_digits() {
    assert_eq!(Time::parse_seconds(b"1.5"), ms(1_500));
    assert_eq!(Time::parse_seconds(b"1.05"), ms(1_050));
    assert_eq!(Time::parse_seconds(b"1.005"), ms(1_005));
    assert_eq!(Time::parse_seconds(b"1.50"), ms(1_500));
    assert_eq!(Time::parse_seconds(b"1.500"), ms(1_500));
    assert_eq!(Time::parse_seconds(b"12.345"), ms(12_345));
    assert_eq!(Time::parse_seconds(b"0.001"), ms(1));
    assert_eq!(Time::parse_seconds(b".5"), ms(500));
    assert_eq!(Time::parse_seconds(b".05"), ms(50));
    assert_eq!(Time::parse_seconds(b".999"), ms(999));
}

#[test]
fn a_fourth_fraction_digit_is_refused() {
    assert_eq!(Time::parse_seconds(b"1.2345"), None);
    assert_eq!(Time::parse_seconds(b"1.5000"), None);
    assert_eq!(Time::parse_seconds(b".0000"), None);
    assert_eq!(Time::parse_seconds(b"-1.23456"), None);
}

#[test]
fn what_is_no_offset() {
    assert_eq!(Time::parse_seconds(b""), None);
    assert_eq!(Time::parse_seconds(b"."), None);
    assert_eq!(Time::parse_seconds(b"+"), None);
    assert_eq!(Time::parse_seconds(b"-"), None);
    assert_eq!(Time::parse_seconds(b"+."), None);
    assert_eq!(Time::parse_seconds(b"-."), None);
    assert_eq!(Time::parse_seconds(b"1."), None);
    assert_eq!(Time::parse_seconds(b"12."), None);
    assert_eq!(Time::parse_seconds(b"1.2.3"), None);
    assert_eq!(Time::parse_seconds(b"1..2"), None);
    assert_eq!(Time::parse_seconds(b"..5"), None);
    assert_eq!(Time::parse_seconds(b"+-1"), None);
    assert_eq!(Time::parse_seconds(b"--1"), None);
    assert_eq!(Time::parse_seconds(b"1-"), None);
    assert_eq!(Time::parse_seconds(b"1+1"), None);
    assert_eq!(Time::parse_seconds(b"1.5-"), None);
    assert_eq!(Time::parse_seconds(b" 1"), None);
    assert_eq!(Time::parse_seconds(b"1 "), None);
    assert_eq!(Time::parse_seconds(b"1e3"), None);
    assert_eq!(Time::parse_seconds(b"1,5"), None);
    assert_eq!(Time::parse_seconds(b"abc"), None);
    assert_eq!(Time::parse_seconds(b"1.a"), None);
    assert_eq!(Time::parse_seconds(b"1.2a"), None);
    assert_eq!(Time::parse_seconds(b"1.23a"), None);
    assert_eq!(Time::parse_seconds(b"1.234a"), None);
    assert_eq!(Time::parse_seconds(&[0xff]), None);
}

#[test]
fn the_ends_of_the_range() {
    assert_eq!(Time::parse_seconds(b"2147483.647"), ms(i32::MAX));
    assert_eq!(Time::parse_seconds(b"+2147483.647"), ms(i32::MAX));
    assert_eq!(Time::parse_seconds(b"-2147483.648"), ms(i32::MIN));
    assert_eq!(Time::parse_seconds(b"-2147483.647"), ms(-i32::MAX));
    assert_eq!(Time::parse_seconds(b"0002147483.647"), ms(i32::MAX));
}

#[test]
fn beyond_the_range() {
    assert_eq!(Time::parse_seconds(b"2147483.648"), None);
    assert_eq!(Time::parse_seconds(b"-2147483.649"), None);
    assert_eq!(Time::parse_seconds(b"2147484"), None);
    assert_eq!(Time::parse_seconds(b"-2147484"), None);
    assert_eq!(Time::parse_seconds(b"3000000"), None);
    assert_eq!(Time::parse_seconds(b"99999999999999999999999999"), None);
    assert_eq!(Time::parse_seconds(b"-99999999999999999999999999.5"), None);
}

#[test]
fn seconds_point_fraction_for_many_values() {
    for seconds in [0u32, 1, 9, 10, 59, 60, 999, 3600, 86_400, 2_147_482] {
        for fraction in ["0", "5", "9", "00", "05", "50", "99", "000", "005", "050", "500", "647"] {
            let mut padded = String::from(fraction);
            while padded.len() < 3 {
                padded.push('0');
            }
            let millis: i32 = padded.parse().unwrap();
            let input = format!("{seconds}.{fraction}");
            let expected = seconds as i32 * 1000 + millis;
            assert_eq!(Time::parse_seconds(input.as_bytes()), ms(expected), "{input}");
            let longer = format!("{seconds}.{padded}0");
            assert_eq!(Time::parse_seconds(longer.as_bytes()), None, "{longer}");
        }
    }
}

#[test]
fn no_arguments_leave_both_offsets_at_zero() {
    let pair = OffsetPair::from_arguments(&vec![]);
    let zero = Time { milliseconds: 0 };
    assert_eq!(pair, Ok(OffsetPair { begin: zero, end: zero }));
}

#[test]
fn one_argument_sets_both_offsets() {
    let pair = OffsetPair::from_arguments(&vec![b"+1".to_vec()]);
    let one = Time { milliseconds: 1_000 };
    assert_eq!(pair, Ok(OffsetPair { begin: one, end: one }));
}

#[test]
fn two_arguments_set_begin_and_end() {
    let pair = OffsetPair::from_arguments(&vec![b".5".to_vec(), b"-0.25".to_vec()]);
    let begin = Time { milliseconds: 500 };
    let end = Time { milliseconds: -250 };
    assert_eq!(pair, Ok(OffsetPair { begin, end }));
}

#[test]
fn a_bad_argument_is_named_by_its_role() {
    let both = OffsetPair::from_arguments(&vec![b"x".to_vec()]);
    assert_eq!(both, Err(Error::InvalidOffsetArgument { role: OffsetRole::Both }));
    let begin = OffsetPair::from_arguments(&vec![b"1.".to_vec(), b"1".to_vec()]);
    assert_eq!(begin, Err(Error::InvalidOffsetArgument { role: OffsetRole::Begin }));
    let end = OffsetPair::from_arguments(&vec![b"1".to_vec(), b"1.2345".to_vec()]);
    assert_eq!(end, Err(Error::InvalidOffsetArgument { role: OffsetRole::End }));
    let first = OffsetPair::from_arguments(&vec![b"".to_vec(), b"".to_vec()]);
    assert_eq!(first, Err(Error::InvalidOffsetArgument { role: OffsetRole::Begin }));
}
