use num2words::digits::{digits_to_u64, increment, scaled_floor};
use num2words::group::{decompose, Group};
use num2words::error::ConversionError;
use num2words::notation::{
    append_range, find_mark, read_integer, read_mantissa, shift_point, text_to_i64, zeros_of,
};
use num2words::number::{copy_digits, digits_of_u64, has_nonzero, without_leading_zeros, Number, Sign};
use num2words::scale::ScaleTable;

fn table(count: usize) -> ScaleTable {
    ScaleTable { words: (0..count).map(|i| format!("scale{}", i + 1)).collect() }
}

fn groups(text: &str, count: usize) -> Result<Vec<(u16, usize)>, ConversionError> {
    let n = Number::from_text(text).expect("a number");
    decompose(&n, &table(count)).map(|gs| gs.iter().map(|g: &Group| (g.value, g.scale_index)).collect())
}

#[test]
fn text_that_writes_a_number() {
    for text in [
        "0", "42", "+42", "-42", "007", "1.5", "5.", ".5", "-.5", "+0.0",
        "12345678901234567890123", "1e5", "1E5", "2.5E10", "1.5e-3", "1.e5", ".5e1", "+1e+0",
        "-1E-0", "0e999", "1e0005", "5.e-2", "9223372036854775808", "1e400", "1e-400",
    ] {
        assert!(Number::from_text(text).is_some(), "{}", text);
    }
}

#[test]
fn text_that_writes_no_number() {
    for text in [
        "", "+", "-", ".", "-.", "1a", "a1", "1.2.3", "--1", "+-1", "inf", "NaN", "infinity",
        "-inf", "+nan", " 1", "1 ", "1,5", "٣", "e5", "E5", ".e5", "-e5", "1e", "1E", "1e+",
        "1e-", "1e+-5", "1e5.5", "1e5e5", "1ee5", "1e 5", "1e5x", "1x5", "e", "1.5.e3", "0x10",
        "1_000", "1e٣",
    ] {
        assert!(Number::from_text(text).is_none(), "{:?}", text);
    }
}

#[test]
fn parsed_parts() {
    let n = Number::from_text("-0012.340").unwrap();
    assert_eq!(n.sign(), Sign::Negative);
    assert!(n.is_negative());
    assert_eq!(n.integer_digits(), &vec![1u8, 2]);
    assert_eq!(n.fraction_digits(), &vec![3u8, 4, 0]);
    assert!(n.is_fractional());
    assert_eq!(n.small_magnitude(), Some(12));
}

fn parts(text: &str) -> (Sign, String, String) {
    let n = Number::from_text(text).expect("a number");
    let show = |d: &Vec<u8>| d.iter().map(|d| char::from(b'0' + d)).collect::<String>();
    (n.sign(), show(n.integer_digits()), show(n.fraction_digits()))
}

fn plus(integer: &str, fraction: &str) -> (Sign, String, String) {
    (Sign::Positive, integer.to_string(), fraction.to_string())
}

#[test]
fn exponent_moves_the_point_to_the_right() {
    assert_eq!(parts("1e5"), plus("100000", ""));
    assert_eq!(parts("1E5"), plus("100000", ""));
    assert_eq!(parts("1e+5"), plus("100000", ""));
    assert_eq!(parts("1e0"), plus("1", ""));
    assert_eq!(parts("2.5E10"), plus("25000000000", ""));
    assert_eq!(parts("12.345e0"), plus("12", "345"));
    assert_eq!(parts("12.345e1"), plus("123", "45"));
    assert_eq!(parts("12.345e2"), plus("1234", "5"));
    assert_eq!(parts("12.345e3"), plus("12345", ""));
    assert_eq!(parts("12.345e5"), plus("1234500", ""));
    assert_eq!(parts("0.001e2"), plus("", "1"));
    assert_eq!(parts("0.001e3"), plus("1", ""));
    assert_eq!(parts(".5e1"), plus("5", ""));
    assert_eq!(parts("5.e2"), plus("500", ""));
    assert_eq!(parts("1.50e1"), plus("15", "0"));
    assert_eq!(parts("1e0012"), plus("1000000000000", ""));
    assert_eq!(parts("0e7"), plus("", ""));
    assert_eq!(parts("000e7"), plus("", ""));
}

#[test]
fn exponent_moves_the_point_to_the_left() {
    assert_eq!(parts("1.5e-3"), plus("", "0015"));
    assert_eq!(parts("1.5E-3"), plus("", "0015"));
    assert_eq!(parts("12.345e-1"), plus("1", "2345"));
    assert_eq!(parts("12.345e-2"), plus("", "12345"));
    assert_eq!(parts("12.345e-4"), plus("", "0012345"));
    assert_eq!(parts("1e-1"), plus("", "1"));
    assert_eq!(parts("100e-2"), plus("1", "00"));
    assert_eq!(parts("100e-3"), plus("", "100"));
    assert_eq!(parts("1e-0"), plus("1", ""));
    assert_eq!(parts("12.5e-0"), plus("12", "5"));
    assert_eq!(parts("0012e-1"), plus("1", "2"));
    assert_eq!(parts("0012e-4"), plus("", "0012"));
    assert_eq!(parts("0012e-6"), plus("", "000012"));
}

#[test]
fn exponent_and_sign() {
    assert_eq!(parts("-1e2"), (Sign::Negative, "100".to_string(), "".to_string()));
    assert_eq!(parts("-1e-2"), (Sign::Negative, "".to_string(), "01".to_string()));
    assert_eq!(parts("-0e5"), plus("", ""));
    assert_eq!(parts("-0.0e-5"), plus("", "000000"));
    assert_eq!(parts("+1.5e+1"), plus("15", ""));
    assert!(!Number::from_text("-0.0e-5").unwrap().is_fractional());
}

#[test]
fn exponent_keeps_every_digit() {
    let n = Number::from_text("1e400").unwrap();
    assert_eq!(n.integer_digits().len(), 401);
    assert_eq!(n.integer_digits()[0], 1);
    assert!(n.integer_digits()[1..].iter().all(|d| *d == 0));
    let n = Number::from_text("1e-400").unwrap();
    assert_eq!(n.integer_digits().len(), 0);
    assert_eq!(n.fraction_digits().len(), 400);
    assert_eq!(n.fraction_digits()[399], 1);
    assert!(n.fraction_digits()[..399].iter().all(|d| *d == 0));
    let n = Number::from_text("123456789012345678901234567890.5e-10").unwrap();
    assert_eq!(parts("123456789012345678901234567890.5e-10"), plus("12345678901234567890", "12345678905"));
    assert!(n.is_fractional());
}

#[test]
fn integers_of_sixty_four_bits() {
    assert_eq!(text_to_i64("0"), Some(0));
    assert_eq!(text_to_i64("-0"), Some(0));
    assert_eq!(text_to_i64("+7"), Some(7));
    assert_eq!(text_to_i64("-7"), Some(-7));
    assert_eq!(text_to_i64("007"), Some(7));
    assert_eq!(text_to_i64("9223372036854775807"), Some(i64::MAX));
    assert_eq!(text_to_i64("+9223372036854775807"), Some(i64::MAX));
    assert_eq!(text_to_i64("9223372036854775808"), None);
    assert_eq!(text_to_i64("-9223372036854775808"), Some(i64::MIN));
    assert_eq!(text_to_i64("-9223372036854775809"), None);
    assert_eq!(text_to_i64("00000000000000000000009223372036854775807"), Some(i64::MAX));
    assert_eq!(text_to_i64("10000000000000000000"), None);
    assert_eq!(text_to_i64("99999999999999999999999999"), None);
    for text in ["", "+", "-", "1.", "1.0", ".5", "1e2", "1 ", " 1", "a", "1a", "--1", "٣"] {
        assert_eq!(text_to_i64(text), None, "{:?}", text);
    }
    for text in ["0", "-1", "42", "+42", "-0042", "9223372036854775808", "1e2", "x", ""] {
        assert_eq!(text_to_i64(text), text.parse::<i64>().ok(), "{:?}", text);
    }
}

#[test]
fn number_text_is_integer_or_float_text() {
    for text in [
        "0", "-0", "+1", "1.", ".1", "1.1", "1e1", "1E1", "1e+1", "1e-1", "1.e1", ".1e1", "+.1e-1",
        "", ".", "+", "-", "e", "e1", ".e1", "1e", "1e+", "1.1.1", "1e1.1", "1e1e1", " 1", "1 ",
        "1_0", "0x1", "1f", "--1", "+-1", "1e--1", "٣", "1٣", "9223372036854775808",
        "123456789012345678901234567890", "1e400", "1e-400", "00.00e00",
    ] {
        let expected = text.parse::<i64>().is_ok() || text.parse::<f64>().is_ok();
        assert_eq!(Number::from_text(text).is_some(), expected, "{:?}", text);
    }
}

#[test]
fn zeros_and_shifts() {
    assert_eq!(zeros_of(&vec![]), Vec::<u8>::new());
    assert_eq!(zeros_of(&vec![0]), Vec::<u8>::new());
    assert_eq!(zeros_of(&vec![7]), vec![0u8; 7]);
    assert_eq!(zeros_of(&vec![1, 2]), vec![0u8; 12]);
    assert_eq!(zeros_of(&vec![0, 3, 0, 5]), vec![0u8; 305]);
    assert_eq!(shift_point(&vec![1, 2], &vec![3, 4], false, &vec![1]), (vec![1, 2, 3], vec![4]));
    assert_eq!(shift_point(&vec![1, 2], &vec![3, 4], false, &vec![3]), (vec![1, 2, 3, 4, 0], vec![]));
    assert_eq!(shift_point(&vec![1, 2], &vec![3, 4], true, &vec![1]), (vec![1], vec![2, 3, 4]));
    assert_eq!(shift_point(&vec![1, 2], &vec![3, 4], true, &vec![3]), (vec![], vec![0, 1, 2, 3, 4]));
    assert_eq!(shift_point(&vec![1, 2], &vec![3, 4], true, &vec![0]), (vec![1, 2], vec![3, 4]));
    assert_eq!(shift_point(&vec![1, 2], &vec![3, 4], false, &vec![]), (vec![1, 2], vec![3, 4]));
    let mut out = vec![9u8];
    append_range(&mut out, &vec![1, 2, 3, 4], 1, 3);
    assert_eq!(out, vec![9, 2, 3]);
    assert_eq!(find_mark(&"12e5E".chars().collect()), 2);
    assert_eq!(find_mark(&"12E5e".chars().collect()), 2);
    assert_eq!(find_mark(&"125".chars().collect()), 3);
    assert_eq!(read_mantissa(&"12.50".chars().collect()), Some((vec![1, 2], vec![5, 0])));
    assert_eq!(read_mantissa(&".".chars().collect()), None);
    assert_eq!(read_mantissa(&"1e5".chars().collect()), None);
    assert_eq!(read_integer(&"-012".chars().collect()), Some((true, vec![0, 1, 2])));
    assert_eq!(read_integer(&"+5".chars().collect()), Some((false, vec![5])));
    assert_eq!(read_integer(&"5.".chars().collect()), None);
    assert_eq!(read_integer(&"-".chars().collect()), None);
}

#[test]
fn zero_is_never_negative() {
    for text in ["-0", "-0.0", "-000.000", "-.0"] {
        let n = Number::from_text(text).unwrap();
        assert_eq!(n.sign(), Sign::Positive, "{}", text);
        assert!(!n.is_fractional());
        assert_eq!(n.integer_digits().len(), 0);
    }
    assert_eq!(Number::from_text("-0.001").unwrap().sign(), Sign::Negative);
}

#[test]
fn zero_fraction_is_no_fraction() {
    assert!(!Number::from_text("42.000").unwrap().is_fractional());
    assert!(!Number::from_text("42.").unwrap().is_fractional());
    assert!(Number::from_text("42.0001").unwrap().is_fractional());
}

#[test]
fn from_integers() {
    let n = Number::from_i64(i64::MIN);
    assert_eq!(n.sign(), Sign::Negative);
    assert_eq!(
        n.integer_digits(),
        &vec![9u8, 2, 2, 3, 3, 7, 2, 0, 3, 6, 8, 5, 4, 7, 7, 5, 8, 0, 8]
    );
    let n = Number::from_i64(i64::MAX);
    assert_eq!(n.sign(), Sign::Positive);
    assert_eq!(
        n.integer_digits(),
        &vec![9u8, 2, 2, 3, 3, 7, 2, 0, 3, 6, 8, 5, 4, 7, 7, 5, 8, 0, 7]
    );
    assert_eq!(Number::from_i64(0).integer_digits().len(), 0);
    assert_eq!(Number::from_i64(0).sign(), Sign::Positive);
    assert_eq!(Number::from_u64(u64::MAX).small_magnitude(), None);
    assert_eq!(Number::from_u64(9999).small_magnitude(), Some(9999));
    assert_eq!(Number::from_u64(10000).small_magnitude(), None);
}

#[test]
fn digit_helpers() {
    assert_eq!(digits_of_u64(0), Vec::<u8>::new());
    assert_eq!(digits_of_u64(1905), vec![1, 9, 0, 5]);
    assert_eq!(without_leading_zeros(&vec![0, 0, 1, 0]), vec![1, 0]);
    assert_eq!(without_leading_zeros(&vec![0, 0]), Vec::<u8>::new());
    assert_eq!(copy_digits(&vec![0, 1, 2]), vec![0, 1, 2]);
    assert!(has_nonzero(&vec![0, 0, 3]));
    assert!(!has_nonzero(&vec![0, 0]));
    assert!(!has_nonzero(&vec![]));
    assert_eq!(digits_to_u64(&vec![1, 2, 3, 4, 5], 1, 4), 234);
    assert_eq!(digits_to_u64(&vec![1, 2, 3, 4, 5], 2, 2), 0);
    assert_eq!(digits_to_u64(&vec![9; 9], 0, 9), 999_999_999);
    assert_eq!(digits_to_u64(&vec![9; 19], 0, 19), 9_999_999_999_999_999_999);
}

#[test]
fn next_number() {
    assert_eq!(increment(&vec![]), vec![1]);
    assert_eq!(increment(&vec![9]), vec![1, 0]);
    assert_eq!(increment(&vec![1, 9, 9]), vec![2, 0, 0]);
    assert_eq!(increment(&vec![9, 9, 9]), vec![1, 0, 0, 0]);
    assert_eq!(increment(&vec![1, 2, 3]), vec![1, 2, 4]);
    assert_eq!(increment(&vec![8, 9]), vec![9, 0]);
}

#[test]
fn floor_of_a_scaled_fraction() {
    // 200 * 0.005 = 1, 200 * 0.0049 = 0.98, 200 * 0.995 = 199
    assert_eq!(scaled_floor(&vec![0, 0, 5], 200), 1);
    assert_eq!(scaled_floor(&vec![0, 0, 4, 9], 200), 0);
    assert_eq!(scaled_floor(&vec![9, 9, 5], 200), 199);
    assert_eq!(scaled_floor(&vec![], 200), 0);
    assert_eq!(scaled_floor(&vec![3, 3, 3], 3), 0);
    assert_eq!(scaled_floor(&vec![5], 7), 3);
}

#[test]
fn units_of_an_amount() {
    let split = |text: &str, scale: u32| -> (String, u32) {
        let (whole, minor) = Number::from_text(text).unwrap().split_units(scale);
        let digits: String = whole.integer_digits().iter().map(|d| char::from(b'0' + d)).collect();
        assert_eq!(whole.fraction_digits().len(), 0);
        (digits, minor)
    };
    assert_eq!(split("42.01", 100), ("42".to_string(), 1));
    assert_eq!(split("42", 100), ("42".to_string(), 0));
    assert_eq!(split("42.5", 100), ("42".to_string(), 50));
    assert_eq!(split("0.005", 100), ("".to_string(), 1));
    assert_eq!(split("0.0049999", 100), ("".to_string(), 0));
    assert_eq!(split("0.015", 100), ("".to_string(), 2));
    assert_eq!(split("42.995", 100), ("43".to_string(), 0));
    assert_eq!(split("42.994", 100), ("42".to_string(), 99));
    assert_eq!(split("999.999", 100), ("1000".to_string(), 0));
    assert_eq!(split("1.5", 1), ("2".to_string(), 0));
    assert_eq!(split("1.4", 1), ("1".to_string(), 0));
    assert_eq!(split("1.25", 1000), ("1".to_string(), 250));
    assert_eq!(split("1.3", 5), ("1".to_string(), 2));
    assert_eq!(split("1.29", 5), ("1".to_string(), 1));
    assert_eq!(split("7.9", 5), ("8".to_string(), 0));
    assert_eq!(split("-2.999", 100).0, "3");
    assert_eq!(
        Number::from_text("-2.999").unwrap().split_units(100).0.sign(),
        Sign::Negative
    );
}

#[test]
fn groups_of_zero() {
    assert_eq!(groups("0", 0), Ok(vec![(0, 0)]));
    assert_eq!(groups("000", 3), Ok(vec![(0, 0)]));
}

#[test]
fn groups_in_order() {
    assert_eq!(groups("7", 2), Ok(vec![(7, 0)]));
    assert_eq!(groups("999", 0), Ok(vec![(999, 0)]));
    assert_eq!(groups("1000", 1), Ok(vec![(1, 1), (0, 0)]));
    assert_eq!(groups("1000001", 2), Ok(vec![(1, 2), (0, 1), (1, 0)]));
    assert_eq!(groups("12345678", 2), Ok(vec![(12, 2), (345, 1), (678, 0)]));
    assert_eq!(groups("-12345678.9", 5), Ok(vec![(12, 2), (345, 1), (678, 0)]));
}

#[test]
fn groups_add_up_to_the_magnitude() {
    for n in [0u64, 1, 999, 1000, 1001, 123_456_789, 1_000_000_000_000, u64::MAX] {
        let gs = decompose(&Number::from_u64(n), &table(7)).unwrap();
        let mut sum: u128 = 0;
        for g in gs.iter() {
            assert!(g.value <= 999);
            sum += (g.value as u128) * 1000u128.pow(g.scale_index as u32);
        }
        assert_eq!(sum, n as u128);
        for (j, g) in gs.iter().enumerate() {
            assert_eq!(g.scale_index, gs.len() - 1 - j);
        }
    }
}

#[test]
fn groups_beyond_the_table() {
    assert_eq!(groups("999", 0), Ok(vec![(999, 0)]));
    assert_eq!(groups("1000", 0), Err(ConversionError::OutOfRange));
    assert_eq!(groups("999999", 1), Ok(vec![(999, 1), (999, 0)]));
    assert_eq!(groups("1000000", 1), Err(ConversionError::OutOfRange));
    assert_eq!(groups("0001000", 1), Ok(vec![(1, 1), (0, 0)]));
}

#[test]
fn scale_words_by_index() {
    let t = table(3);
    assert_eq!(t.len(), 3);
    assert_eq!(t.word(1), "scale1");
    assert_eq!(t.word(3), "scale3");
}
