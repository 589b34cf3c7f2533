use num2words::cli::{apply_target, get_version, handle_cmd, run, split, take_arg, CmdOutcome, Step};
use num2words::engine::{num2words, ConversionRequest};
use num2words::mode::Mode;
use num2words::number::Number;

fn cmd(n: &str, args: &[&str]) -> CmdOutcome {
    handle_cmd(n.to_string(), args.iter().map(|a| a.to_string()).collect())
}

fn output(n: &str, args: &[&str]) -> String {
    match cmd(n, args) {
        CmdOutcome::Output(s) => s,
        other => panic!("no output: {:?}", other),
    }
}

fn failure(n: &str, args: &[&str]) -> String {
    match cmd(n, args) {
        CmdOutcome::Failure(s) => s,
        other => panic!("no failure: {:?}", other),
    }
}

#[test]
fn plain_number() {
    assert_eq!(output("42", &[]), "forty-two");
    assert_eq!(output("42.01", &[]), "forty-two point zero one");
}

#[test]
fn number_that_is_none() {
    assert_eq!(failure("forty", &[]), "cannot parse number");
    assert_eq!(failure("1e", &[]), "cannot parse number");
    assert_eq!(failure("inf", &[]), "cannot parse number");
    assert_eq!(output("1e5", &[]), "one hundred thousand");
    assert_eq!(output("1.5e-3", &["-t", "cardinal"]), "zero point zero zero one five");
    assert_eq!(output("1E3", &["-t", "ordinal"]), "one thousandth");
    assert_eq!(failure("forty", &["--lang"]), "cannot parse number");
    assert_eq!(failure("", &["-t", "bogus"]), "cannot parse number");
}

#[test]
fn outputs_by_token() {
    assert_eq!(output("42", &["--to", "cardinal"]), "forty-two");
    assert_eq!(output("42", &["-t", "ordinal"]), "forty-second");
    assert_eq!(output("42", &["-t", "ordinal_num"]), "42nd");
    assert_eq!(output("1901", &["--to", "year"]), "nineteen oh-one");
    assert_eq!(output("42.01", &["-t", "USD"]), "forty-two US dollars and one cent");
    assert_eq!(output("42.01", &["-t", "DOLLAR"]), "forty-two dollars and one cent");
    assert_eq!(failure("42", &["-t", "currency"]), "invalid to tag");
    assert_eq!(failure("42", &["-t", "usd"]), "invalid to tag");
    assert_eq!(failure("42", &["-t", ""]), "invalid to tag");
}

#[test]
fn the_last_output_counts() {
    assert_eq!(output("42", &["-t", "USD", "-t", "ordinal"]), "forty-second");
    assert_eq!(
        output("42", &["-t", "ordinal", "-t", "EUR"]),
        "forty-two euros and zero cents"
    );
}

#[test]
fn languages() {
    assert_eq!(output("42", &["--lang", "en"]), "forty-two");
    assert_eq!(output("42", &["-l", "en", "-t", "ordinal"]), "forty-second");
    assert_eq!(failure("42", &["-l", "xx"]), "invalid language");
    assert_eq!(failure("42", &["-l", "xx", "-t", "bogus"]), "invalid language");
    assert_eq!(failure("42", &["-t", "bogus", "-l", "xx"]), "invalid to tag");
}

#[test]
fn preferences_on_the_command_line() {
    assert_eq!(output("0", &["--prefer", "oh"]), "oh");
    assert_eq!(output("0", &["-p", "zero_digit_style=oh"]), "oh");
    assert_eq!(output("101", &["-p", "conjunction=omit"]), "one hundred one");
    assert_eq!(output("5", &["-t", "USD", "-p", "zero_minor=hide"]), "five US dollars");
    assert_eq!(output("0", &["-p", "whatever"]), "zero");
}

#[test]
fn option_without_a_value() {
    assert!(matches!(cmd("42", &["--lang"]), CmdOutcome::Help));
    assert!(matches!(cmd("42", &["-l"]), CmdOutcome::Help));
    assert!(matches!(cmd("42", &["--prefer"]), CmdOutcome::Help));
    assert!(matches!(cmd("42", &["-p"]), CmdOutcome::Help));
    assert!(matches!(cmd("42", &["--to"]), CmdOutcome::Help));
    assert!(matches!(cmd("42", &["-t", "ordinal", "-t"]), CmdOutcome::Help));
}

#[test]
fn an_option_takes_the_next_argument_whatever_it_is() {
    assert_eq!(failure("42", &["-t", "-l", "en"]), "invalid to tag");
    assert_eq!(output("42", &["-p", "-t", "ordinal"]), "forty-two");
    assert_eq!(failure("42", &["-l", "-t", "ordinal"]), "invalid language");
}

#[test]
fn other_arguments_are_passed_over() {
    assert_eq!(output("42", &["x", "-t", "ordinal", "y"]), "forty-second");
    assert_eq!(output("42", &["--help", "-v", "ordinal"]), "forty-two");
    assert_eq!(output("42", &["-T", "ordinal"]), "forty-two");
}

#[test]
fn errors_of_the_conversion() {
    assert_eq!(failure("-5", &["-t", "year"]), "invalid input for this mode");
    assert_eq!(failure("1.5", &["-t", "ordinal"]), "invalid input for this mode");
    let beyond = format!("1{}", "0".repeat(66));
    assert_eq!(failure(&beyond, &[]), "number is out of range");
}

#[test]
fn steps() {
    let args: Vec<String> = ["x", "-t", "year", "-l"].iter().map(|a| a.to_string()).collect();
    let r = ConversionRequest::new(Number::from_i64(1901));
    let r = match take_arg(r, &args, 0) {
        Step::Next(r, j) => {
            assert_eq!(j, 1);
            assert_eq!(r.mode, Mode::Cardinal);
            r
        }
        Step::Done(o) => panic!("{:?}", o),
    };
    let r = match take_arg(r, &args, 1) {
        Step::Next(r, j) => {
            assert_eq!(j, 3);
            assert_eq!(r.mode, Mode::Year);
            r
        }
        Step::Done(o) => panic!("{:?}", o),
    };
    assert!(matches!(take_arg(r, &args, 3), Step::Done(CmdOutcome::Help)));
    let r = ConversionRequest::new(Number::from_i64(1901));
    assert!(matches!(run(r, &args), CmdOutcome::Help));
    let r = ConversionRequest::new(Number::from_i64(1901));
    match run(r, &args[..3].to_vec()) {
        CmdOutcome::Output(s) => assert_eq!(s, "nineteen oh-one"),
        other => panic!("{:?}", other),
    }
}

#[test]
fn targets() {
    let r = || num2words("3".to_string()).unwrap();
    let next = apply_target(r(), "GBP").ok().unwrap();
    assert_eq!(next.mode, Mode::Currency);
    assert_eq!(next.currency.as_deref(), Some("GBP"));
    assert_eq!(apply_target(r(), "ordinal").ok().unwrap().mode, Mode::Ordinal);
    assert_eq!(apply_target(r(), "ordinal_num").ok().unwrap().mode, Mode::OrdinalNumeral);
    assert_eq!(apply_target(r(), "year").ok().unwrap().mode, Mode::Year);
    assert_eq!(apply_target(r().year(), "cardinal").ok().unwrap().mode, Mode::Cardinal);
    let same = apply_target(r().year(), "bogus").err().unwrap();
    assert_eq!(same.mode, Mode::Year);
}

#[test]
fn request_builders() {
    let r = num2words("3".to_string()).unwrap();
    assert_eq!(r.mode, Mode::Cardinal);
    assert_eq!(r.locale, "en");
    assert_eq!(r.currency, None);
    assert!(r.preferences.entries.is_empty());
    let r = r.lang("fr").currency("EUR").prefer("a=b");
    assert_eq!(r.locale, "fr");
    assert_eq!(r.mode, Mode::Currency);
    assert_eq!(r.currency.as_deref(), Some("EUR"));
    assert_eq!(r.preferences.choice("a"), Some("b"));
    let r = r.cardinal();
    assert_eq!(r.mode, Mode::Cardinal);
    assert_eq!(r.currency.as_deref(), Some("EUR"));
    assert!(num2words("three".to_string()).is_none());
}

#[test]
fn parts_of_a_text() {
    assert_eq!(split("1.2.3", '.'), vec!["1", "2", "3"]);
    assert_eq!(split("", '.'), vec![""]);
    assert_eq!(split(".", '.'), vec!["", ""]);
    assert_eq!(split("a..b.", '.'), vec!["a", "", "b", ""]);
    assert_eq!(split("abc", '.'), vec!["abc"]);
}

#[test]
fn versions() {
    assert_eq!(get_version("1.0.3"), "v1.0.3 (version one point oh point three)");
    assert_eq!(get_version("0.4.1"), "v0.4.1 (version oh point four point one)");
    assert_eq!(get_version("12.30"), "v12.30 (version twelve point thirty)");
    assert_eq!(get_version("1.2.0-beta"), "v1.2.0-beta (version one point two)");
    assert_eq!(get_version("x"), "vx (version )");
    assert_eq!(get_version("1..2"), "v1..2 (version one point two)");
    assert_eq!(get_version("+1.-2.007"), "v+1.-2.007 (version one point minus two point seven)");
    assert_eq!(get_version("1e2.3"), "v1e2.3 (version three)");
    assert_eq!(
        get_version("9223372036854775808.0.0"),
        "v9223372036854775808.0.0 (version oh point oh)"
    );
    assert_eq!(
        get_version("-9223372036854775809.1"),
        "v-9223372036854775809.1 (version one)"
    );
    assert_eq!(
        get_version("9223372036854775807.1"),
        "v9223372036854775807.1 (version nine quintillion two hundred twenty-three quadrillion \
         three hundred seventy-two trillion thirty-six billion eight hundred fifty-four million \
         seven hundred seventy-five thousand eight hundred and seven point one)"
    );
    assert_eq!(
        get_version("-9223372036854775808"),
        "v-9223372036854775808 (version minus nine quintillion two hundred twenty-three \
         quadrillion three hundred seventy-two trillion thirty-six billion eight hundred \
         fifty-four million seven hundred seventy-five thousand eight hundred and eight)"
    );
    assert_eq!(get_version(""), "v (version )");
}
