use num2words::engine::{convert, num2words, ConversionRequest};
use num2words::error::ConversionError;
use num2words::number::Number;

fn request(text: &str) -> ConversionRequest {
    num2words(String::from(text)).expect("a number")
}

fn words(r: ConversionRequest) -> String {
    convert(&r).expect("words")
}

#[test]
fn zero_is_zero() {
    assert_eq!(words(request("0")), "zero");
}

#[test]
fn forty_two_cardinal() {
    assert_eq!(words(request("42")), "forty-two");
    assert_eq!(words(ConversionRequest::new(Number::from_i64(42))), "forty-two");
}

#[test]
fn forty_two_ordinal() {
    assert_eq!(words(request("42").ordinal()), "forty-second");
}

#[test]
fn forty_two_ordinal_numeral() {
    assert_eq!(words(request("42").ordinal_num()), "42nd");
}

#[test]
fn year_1901() {
    assert_eq!(words(request("1901").year()), "nineteen oh-one");
}

#[test]
fn currency_usd() {
    assert_eq!(
        words(request("42.01").currency("USD")),
        "forty-two US dollars and one cent"
    );
}

#[test]
fn same_request_same_words() {
    let r = request("-1234567.089").prefer("oh");
    let first = convert(&r);
    let second = convert(&r);
    assert_eq!(first, second);
    assert_eq!(r.to_words(), first);
    let other = request("-1234567.089").prefer("oh");
    assert_eq!(convert(&other), first);
}

#[test]
fn largest_scale_word_is_the_boundary() {
    let vigintillion = format!("1{}", "0".repeat(63));
    assert_eq!(words(request(&vigintillion)), "one vigintillion");
    let largest = "9".repeat(66);
    let said = words(request(&largest));
    assert!(said.starts_with("nine hundred ninety-nine vigintillion nine hundred"));
    assert!(said.ends_with("thousand nine hundred and ninety-nine"));
    let beyond = format!("1{}", "0".repeat(66));
    assert_eq!(convert(&request(&beyond)), Err(ConversionError::OutOfRange));
    assert_eq!(
        convert(&request(&beyond).ordinal()),
        Err(ConversionError::OutOfRange)
    );
    assert_eq!(
        convert(&request(&beyond).year()),
        Err(ConversionError::OutOfRange)
    );
    assert_eq!(
        convert(&request(&beyond).currency("EUR")),
        Err(ConversionError::OutOfRange)
    );
}

#[test]
fn negative_five() {
    assert_eq!(words(request("-5")), "minus five");
    assert_eq!(words(request("-5")).matches("minus").count(), 1);
    assert_eq!(
        convert(&request("-5").year()),
        Err(ConversionError::InvalidInputForMode)
    );
}

#[test]
fn unknown_locale_and_currency() {
    assert_eq!(
        convert(&request("7").lang("xx")),
        Err(ConversionError::UnsupportedLocale)
    );
    assert_eq!(
        convert(&request("7").currency("ZZZ")),
        Err(ConversionError::UnknownCurrency)
    );
    assert_eq!(
        convert(&request("7").mode(num2words::mode::Mode::Currency)),
        Err(ConversionError::UnknownCurrency)
    );
    assert_eq!(
        convert(&request("7").currency("usd")),
        Err(ConversionError::UnknownCurrency)
    );
    assert_eq!(words(request("7").lang("en")), "seven");
}

#[test]
fn validation_comes_before_the_locale() {
    assert_eq!(
        convert(&request("1.5").ordinal().lang("xx")),
        Err(ConversionError::InvalidInputForMode)
    );
    assert_eq!(
        convert(&request("1.5").lang("xx")),
        Err(ConversionError::UnsupportedLocale)
    );
    assert_eq!(
        convert(&request("1").currency("ZZZ").lang("xx")),
        Err(ConversionError::UnsupportedLocale)
    );
}

#[test]
fn error_messages() {
    assert_eq!(ConversionError::OutOfRange.message(), "number is out of range");
    assert_eq!(ConversionError::UnsupportedLocale.message(), "unsupported locale");
    assert_eq!(
        ConversionError::UnsupportedOrdinal.message(),
        "no ordinal form for this number"
    );
    assert_eq!(ConversionError::UnknownCurrency.message(), "unknown currency");
    assert_eq!(
        ConversionError::InvalidInputForMode.message(),
        "invalid input for this mode"
    );
}

#[test]
fn numbers_with_an_exponent() {
    assert_eq!(words(request("1e5")), "one hundred thousand");
    assert_eq!(words(request("2.5E10")), "twenty-five billion");
    assert_eq!(words(request("1.5e-3")), "zero point zero zero one five");
    assert_eq!(words(request("-1.5e1")), "minus fifteen");
    assert_eq!(words(request("1e3").ordinal()), "one thousandth");
    assert_eq!(words(request("1e2").ordinal_num()), "100th");
    assert_eq!(words(request("19.01e2").year()), "nineteen oh-one");
    assert_eq!(
        words(request("4201e-2").currency("USD")),
        "forty-two US dollars and one cent"
    );
    assert_eq!(
        convert(&request("15e-1").ordinal()),
        Err(ConversionError::InvalidInputForMode)
    );
    assert_eq!(words(request("150e-1").ordinal()), "fifteenth");
    assert_eq!(words(request("1e63")), "one vigintillion");
    assert_eq!(convert(&request("1e66")), Err(ConversionError::OutOfRange));
    assert_eq!(convert(&request("1e400")), Err(ConversionError::OutOfRange));
    assert!(num2words(String::from("1e")).is_none());
    assert!(num2words(String::from("inf")).is_none());
    assert!(num2words(String::from("NaN")).is_none());
}
