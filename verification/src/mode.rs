//! The five renderings of a number: cardinal, ordinal, ordinal numeral,
//! spoken year and currency amount.
use vstd::prelude::*;
use vstd::string::*;
use crate::currency::{CurrencyEntry, CurrencyView};
use crate::digits::{
    all_digits, all_zero, canonical, digits_value, lemma_canonical_lower_bound,
    lemma_pow10_positive,
};
use crate::error::ConversionError;
use crate::lexicon::{LexiconPack, LexiconView};
use crate::number::{amount_units, Number, NumberView};
use crate::ordinal::{ordinal_form, ordinal_of};
use crate::render::{magnitude_tokens, remainder, remainder_token, render_magnitude};
use crate::scale::in_scale_range;
use crate::text::{digit_char, digit_text, texts};
use crate::token::{all_fit, token_word, token_words, words_of, Choices, Token};

verus! {

/// How a number is to be rendered.
#[derive(Clone, Copy, Debug, PartialEq, Eq, Structural)]
pub enum Mode {
    Cardinal,
    Ordinal,
    OrdinalNumeral,
    Year,
    Currency,
}

/// The texts of the words, or the failure.
pub open spec fn words_view(r: Result<Vec<String>, ConversionError>) -> Result<
    Seq<Seq<char>>,
    ConversionError,
> {
    match r {
        Ok(v) => Ok(texts(v@)),
        Err(e) => Err(e),
    }
}

/// The sign word of a negative number, and nothing else.
pub open spec fn sign_tokens(n: NumberView) -> Seq<Token> {
    if n.is_negative() {
        seq![Token::Sign]
    } else {
        Seq::empty()
    }
}

/// The token of one digit said alone.
pub open spec fn digit_token(d: u8) -> Token {
    if d == 0 {
        Token::Zero
    } else {
        Token::Unit(d)
    }
}

/// The tokens of the part after the decimal point: none where it is zero,
/// else the word for the point and each digit as it was written.
pub open spec fn fraction_tokens(f: Seq<u8>) -> Seq<Token> {
    if all_zero(f) {
        Seq::empty()
    } else {
        seq![Token::Point] + Seq::new(f.len(), |i: int| digit_token(f[i]))
    }
}

/// The tokens of the sign and the integer part.
pub open spec fn integer_tokens(n: NumberView, c: Choices) -> Seq<Token> {
    sign_tokens(n) + magnitude_tokens(n.magnitude, c)
}

/// The cardinal tokens: sign, integer part, and the digits after the
/// point.
pub open spec fn cardinal_tokens(n: NumberView, c: Choices) -> Seq<Token> {
    integer_tokens(n, c) + fraction_tokens(n.fraction)
}

/// The cardinal words of a number.
pub open spec fn cardinal_words(n: NumberView, lex: LexiconView, c: Choices) -> Result<
    Seq<Seq<char>>,
    ConversionError,
> {
    if !in_scale_range(n.magnitude, lex.scales.len()) {
        Err(ConversionError::OutOfRange)
    } else {
        Ok(token_words(lex, c, cardinal_tokens(n, c)))
    }
}

/// The ordinal form of the word of a token. Of a compound, the unit alone
/// takes the ordinal form.
pub open spec fn ordinal_word(lex: LexiconView, c: Choices, t: Token) -> Option<Seq<char>> {
    match t {
        Token::Compound(tens, unit) => match ordinal_form(lex, lex.digits[unit as int]) {
            Some(w) => Some(lex.tens[tens - 2] + lex.joiner + w),
            None => None,
        },
        _ => ordinal_form(lex, token_word(lex, c, t)),
    }
}

/// The ordinal words of a number: its cardinal words with the last one in
/// its ordinal form.
pub open spec fn ordinal_words(n: NumberView, lex: LexiconView, c: Choices) -> Result<
    Seq<Seq<char>>,
    ConversionError,
> {
    if n.is_fractional() {
        Err(ConversionError::InvalidInputForMode)
    } else if !in_scale_range(n.magnitude, lex.scales.len()) {
        Err(ConversionError::OutOfRange)
    } else {
        let ts = integer_tokens(n, c);
        match ordinal_word(lex, c, ts.last()) {
            Some(w) => Ok(token_words(lex, c, ts).drop_last().push(w)),
            None => Err(ConversionError::UnsupportedOrdinal),
        }
    }
}

/// The decimal writing of `n`.
pub open spec fn decimal_text(n: nat) -> Seq<char>
    decreases n,
{
    if n < 10 {
        seq![digit_char(n as u8)]
    } else {
        decimal_text(n / 10).push(digit_char((n % 10) as u8))
    }
}

/// The ordinal suffix of the numeral `n`: that of the teens where the tens
/// digit is one, else that of the last digit.
pub open spec fn numeral_suffix(lex: LexiconView, n: nat) -> Seq<char> {
    if (n / 10) % 10 == 1 {
        lex.numeral_teen_suffix
    } else {
        lex.numeral_suffixes[(n % 10) as int]
    }
}

/// The ordinal numeral of a number: a minus sign where it is negative, its
/// decimal digits, and the ordinal suffix, in one word.
pub open spec fn ordinal_numeral_words(n: NumberView, lex: LexiconView) -> Result<
    Seq<Seq<char>>,
    ConversionError,
> {
    if n.is_fractional() {
        Err(ConversionError::InvalidInputForMode)
    } else {
        let sign = if n.is_negative() {
            seq!['-']
        } else {
            Seq::empty()
        };
        Ok(seq![sign + decimal_text(n.magnitude) + numeral_suffix(lex, n.magnitude)])
    }
}

/// Whether a year is said as two pairs of digits: from 100 to 9999, but for
/// the years whose hundreds end in zero and whose last pair is below ten.
pub open spec fn year_in_pairs(n: nat) -> bool {
    let high = n / 100;
    let low = n % 100;
    1 <= high <= 99 && !(high % 10 == 0 && low < 10)
}

/// The token of the last pair of a year: the word for one hundred for a
/// pair of zeros, the short zero joined to the unit below ten, else the
/// pair as a number.
pub open spec fn pair_tail_token(low: nat) -> Token {
    if low == 0 {
        Token::Hundred
    } else if low < 10 {
        Token::Filled(low as u8)
    } else {
        remainder_token(low)
    }
}

/// The tokens of a year said in pairs.
pub open spec fn year_pair_tokens(n: nat) -> Seq<Token> {
    seq![remainder_token(n / 100), pair_tail_token(n % 100)]
}

/// The words of a year: in pairs where the year is said so, else as a
/// cardinal. A year is a non-negative integer.
pub open spec fn year_words(n: NumberView, lex: LexiconView, c: Choices) -> Result<
    Seq<Seq<char>>,
    ConversionError,
> {
    if n.is_fractional() || n.is_negative() {
        Err(ConversionError::InvalidInputForMode)
    } else if year_in_pairs(n.magnitude) {
        Ok(token_words(lex, c, year_pair_tokens(n.magnitude)))
    } else if !in_scale_range(n.magnitude, lex.scales.len()) {
        Err(ConversionError::OutOfRange)
    } else {
        Ok(token_words(lex, c, magnitude_tokens(n.magnitude, c)))
    }
}

/// The words of an amount of money: the count of major units as a
/// cardinal with the name of the major unit, then the conjunction, the
/// count of minor units as a cardinal, and the name of the minor unit. The
/// amount is rounded to the minor unit, a half away from zero. A name is in
/// the singular for a count of one alone. A count of zero minor units is
/// said unless the choices leave it out.
pub open spec fn currency_words(
    n: NumberView,
    lex: LexiconView,
    c: Choices,
    cur: CurrencyView,
) -> Result<Seq<Seq<char>>, ConversionError> {
    let units = amount_units(n, cur.minor_scale);
    let major = units / cur.minor_scale;
    let minor = units % cur.minor_scale;
    let shown = minor > 0 || c.zero_minor;
    if !in_scale_range(major, lex.scales.len()) || (shown && !in_scale_range(
        minor,
        lex.scales.len(),
    )) {
        Err(ConversionError::OutOfRange)
    } else {
        let head = token_words(lex, c, sign_tokens(n) + magnitude_tokens(major, c)).push(
            cur.major_name(major),
        );
        if shown {
            Ok(
                head.push(lex.conjunction) + token_words(lex, c, magnitude_tokens(minor, c)).push(
                    cur.minor_name(minor),
                ),
            )
        } else {
            Ok(head)
        }
    }
}

/// Tokens that fit, one sequence after the other, fit.
pub proof fn lemma_fit_concat(a: Seq<Token>, b: Seq<Token>, lex: LexiconView)
    requires
        all_fit(a, lex),
        all_fit(b, lex),
    ensures
        all_fit(a + b, lex),
{
    assert forall|i: int| 0 <= i < (a + b).len() implies (#[trigger] (a + b)[i]).fits(lex) by {
        if i < a.len() {
            assert((a + b)[i] == a[i]);
        } else {
            assert((a + b)[i] == b[i - a.len()]);
        }
    }
}

/// The lexicon has a word for each token of a fraction.
pub proof fn lemma_fraction_tokens_fit(f: Seq<u8>, lex: LexiconView)
    requires
        all_digits(f),
    ensures
        all_fit(fraction_tokens(f), lex),
{
    let ts = fraction_tokens(f);
    assert forall|i: int| 0 <= i < ts.len() implies (#[trigger] ts[i]).fits(lex) by {
        if i > 0 {
            assert(ts[i] == digit_token(f[i - 1]));
            assert(f[i - 1] < 10);
        }
    }
}

/// The decimal writing of a number is its digits, each as its character.
pub proof fn lemma_decimal_text(d: Seq<u8>)
    requires
        canonical(d),
        d.len() > 0,
    ensures
        decimal_text(digits_value(d)) == Seq::new(d.len(), |k: int| digit_char(d[k])),
    decreases d.len(),
{
    let p = d.drop_last();
    let x = d.last();
    assert(x < 10);
    let want = Seq::new(d.len(), |k: int| digit_char(d[k]));
    if p.len() == 0 {
        assert(digits_value(p) == 0);
        assert(decimal_text(digits_value(d)) =~= want);
    } else {
        assert(p[0] == d[0]);
        lemma_canonical_lower_bound(p);
        lemma_pow10_positive((p.len() - 1) as nat);
        lemma_decimal_text(p);
        let v = digits_value(d);
        assert(v == digits_value(p) * 10 + x);
        assert(v / 10 == digits_value(p));
        assert(v % 10 == x as nat);
        assert(decimal_text(v) =~= want);
    }
}

/// The tokens of the sign and the integer part of `number`.
pub fn integer_to_tokens(number: &Number, lex: &LexiconPack, c: Choices) -> (r: Result<
    Vec<Token>,
    ConversionError,
>)
    ensures
        r is Ok <==> in_scale_range(number@.magnitude, lex@.scales.len()),
        r matches Ok(ts) ==> ts@ == integer_tokens(number@, c) && all_fit(ts@, lex@) && ts@.len()
            > 0,
        r matches Err(e) ==> e == ConversionError::OutOfRange,
{
    let mut tokens: Vec<Token> = Vec::new();
    if number.is_negative() {
        tokens.push(Token::Sign);
    }
    match render_magnitude(number, lex, c) {
        Ok(mut ts) => {
            proof {
                lemma_fit_concat(tokens@, ts@, lex@);
                assert(tokens@ =~= sign_tokens(number@));
            }
            tokens.append(&mut ts);
            Ok(tokens)
        },
        Err(e) => Err(e),
    }
}

/// The tokens of the part after the decimal point.
pub fn fraction_to_tokens(number: &Number) -> (r: Vec<Token>)
    ensures
        r@ == fraction_tokens(number@.fraction),
{
    let mut out: Vec<Token> = Vec::new();
    if number.is_fractional() {
        let f = number.fraction_digits();
        out.push(Token::Point);
        let mut i: usize = 0;
        while i < f.len()
            invariant
                i <= f@.len(),
                out@ =~= seq![Token::Point] + Seq::new(i as nat, |k: int| digit_token(f@[k])),
            decreases f@.len() - i,
        {
            let d = f[i];
            if d == 0 {
                out.push(Token::Zero);
            } else {
                out.push(Token::Unit(d));
            }
            i += 1;
        }
    }
    out
}

/// Renders a number as a cardinal.
pub fn render_cardinal(number: &Number, lex: &LexiconPack, c: Choices) -> (r: Result<
    Vec<String>,
    ConversionError,
>)
    requires
        lex@.wf(),
    ensures
        words_view(r) == cardinal_words(number@, lex@, c),
{
    let mut tokens = match integer_to_tokens(number, lex, c) {
        Ok(ts) => ts,
        Err(e) => {
            return Err(e);
        },
    };
    let mut tail = fraction_to_tokens(number);
    let _ = number.fraction_digits();
    proof {
        lemma_fraction_tokens_fit(number@.fraction, lex@);
        lemma_fit_concat(tokens@, tail@, lex@);
    }
    tokens.append(&mut tail);
    Ok(words_of(lex, c, &tokens))
}

/// Renders a number as an ordinal.
pub fn render_ordinal(number: &Number, lex: &LexiconPack, c: Choices) -> (r: Result<
    Vec<String>,
    ConversionError,
>)
    requires
        lex@.wf(),
    ensures
        words_view(r) == ordinal_words(number@, lex@, c),
{
    if number.is_fractional() {
        return Err(ConversionError::InvalidInputForMode);
    }
    let tokens = match integer_to_tokens(number, lex, c) {
        Ok(ts) => ts,
        Err(e) => {
            return Err(e);
        },
    };
    let mut words = words_of(lex, c, &tokens);
    let last = tokens[tokens.len() - 1];
    assert(last.fits(lex@));
    assert(texts(words@)[words@.len() - 1] == token_word(lex@, c, last));
    let ordinal: Option<String> = match last {
        Token::Compound(tens, unit) => {
            match ordinal_of(lex, lex.digits[unit as usize].as_str()) {
                Some(w) => {
                    let mut s = lex.tens[(tens - 2) as usize].clone();
                    s.append(lex.joiner.as_str());
                    s.append(w.as_str());
                    Some(s)
                },
                None => None,
            }
        },
        _ => ordinal_of(lex, words[words.len() - 1].as_str()),
    };
    match ordinal {
        Some(w) => {
            let ghost before = words@;
            words.pop();
            words.push(w);
            proof {
                assert(texts(words@) =~= texts(before).drop_last().push(w@));
            }
            Ok(words)
        },
        None => Err(ConversionError::UnsupportedOrdinal),
    }
}

/// The decimal writing of the number that the digits write.
pub fn digits_text(d: &Vec<u8>) -> (r: String)
    requires
        canonical(d@),
    ensures
        r@ == decimal_text(digits_value(d@)),
{
    if d.len() == 0 {
        return String::from_str(digit_text(0));
    }
    let mut out = String::new();
    let mut i: usize = 0;
    while i < d.len()
        invariant
            i <= d@.len(),
            all_digits(d@),
            out@ =~= Seq::new(i as nat, |k: int| digit_char(d@[k])),
        decreases d@.len() - i,
    {
        assert(d@[i as int] < 10);
        out.append(digit_text(d[i]));
        i += 1;
    }
    proof {
        lemma_decimal_text(d@);
    }
    out
}

/// Renders a number as an ordinal numeral.
pub fn render_ordinal_numeral(number: &Number, lex: &LexiconPack) -> (r: Result<
    Vec<String>,
    ConversionError,
>)
    requires
        lex@.wf(),
    ensures
        words_view(r) == ordinal_numeral_words(number@, lex@),
{
    if number.is_fractional() {
        return Err(ConversionError::InvalidInputForMode);
    }
    let d = number.integer_digits();
    let n = d.len();
    let mut out = String::new();
    if number.is_negative() {
        proof {
            reveal_strlit("-");
        }
        out.append("-");
        assert(out@ =~= seq!['-']);
    }
    let ghost sign = out@;
    out.append(digits_text(d).as_str());
    let last: u8 = if n >= 1 {
        d[n - 1]
    } else {
        0
    };
    let before: u8 = if n >= 2 {
        d[n - 2]
    } else {
        0
    };
    proof {
        let v = digits_value(d@);
        if n >= 1 {
            let p = d@.drop_last();
            assert(d@.last() < 10);
            assert(v == digits_value(p) * 10 + d@.last());
            if n >= 2 {
                assert(p.last() == d@[n - 2]);
                assert(p.last() < 10);
                assert(digits_value(p) == digits_value(p.drop_last()) * 10 + p.last());
            } else {
                assert(digits_value(p) == 0);
            }
        }
        assert(v % 10 == last as nat);
        assert((v / 10) % 10 == before as nat);
    }
    if before == 1 {
        out.append(lex.numeral_teen_suffix.as_str());
    } else {
        out.append(lex.numeral_suffixes[last as usize].as_str());
    }
    let mut words: Vec<String> = Vec::new();
    words.push(out);
    proof {
        assert(texts(words@) =~= seq![
            sign + decimal_text(number@.magnitude) + numeral_suffix(lex@, number@.magnitude),
        ]);
    }
    Ok(words)
}

/// Renders a number as a spoken year.
pub fn render_year(number: &Number, lex: &LexiconPack, c: Choices) -> (r: Result<
    Vec<String>,
    ConversionError,
>)
    requires
        lex@.wf(),
    ensures
        words_view(r) == year_words(number@, lex@, c),
{
    if number.is_fractional() || number.is_negative() {
        return Err(ConversionError::InvalidInputForMode);
    }
    match number.small_magnitude() {
        Some(v) => {
            let high = v / 100;
            let low = v % 100;
            if 1 <= high && !(high % 10 == 0 && low < 10) {
                let mut tokens: Vec<Token> = Vec::new();
                tokens.push(remainder(high));
                if low == 0 {
                    tokens.push(Token::Hundred);
                } else if low < 10 {
                    tokens.push(Token::Filled(low as u8));
                } else {
                    tokens.push(remainder(low));
                }
                proof {
                    assert(tokens@ =~= year_pair_tokens(number@.magnitude));
                    assert(remainder_token(high as nat).fits(lex@));
                    assert(pair_tail_token(low as nat).fits(lex@));
                }
                return Ok(words_of(lex, c, &tokens));
            }
        },
        None => {},
    }
    match render_magnitude(number, lex, c) {
        Ok(tokens) => Ok(words_of(lex, c, &tokens)),
        Err(e) => Err(e),
    }
}

/// Renders a number as an amount of the currency.
pub fn render_currency(
    number: &Number,
    lex: &LexiconPack,
    c: Choices,
    currency: &CurrencyEntry,
) -> (r: Result<Vec<String>, ConversionError>)
    requires
        lex@.wf(),
        currency@.wf(),
    ensures
        words_view(r) == currency_words(number@, lex@, c, currency@),
{
    let (whole, minor) = number.split_units(currency.minor_scale);
    let ghost major = whole@.magnitude;
    let shown = minor > 0 || c.zero_minor;
    let tokens = match integer_to_tokens(&whole, lex, c) {
        Ok(ts) => ts,
        Err(e) => {
            return Err(e);
        },
    };
    proof {
        assert(sign_tokens(whole@) == sign_tokens(number@));
    }
    let mut words = words_of(lex, c, &tokens);
    let one_major = match whole.small_magnitude() {
        Some(v) => v == 1,
        None => false,
    };
    let ghost plain = words@;
    words.push(String::from_str(currency.major_name(one_major)));
    proof {
        assert(texts(words@) =~= texts(plain).push(currency@.major_name(major)));
    }
    if shown {
        let small = Number::from_u64(minor as u64);
        let minor_tokens = match render_magnitude(&small, lex, c) {
            Ok(ts) => ts,
            Err(e) => {
                return Err(e);
            },
        };
        let mut minor_words = words_of(lex, c, &minor_tokens);
        let ghost head = words@;
        let ghost plain_minor = minor_words@;
        words.push(lex.conjunction.clone());
        minor_words.push(String::from_str(currency.minor_name(minor == 1)));
        proof {
            assert(texts(words@) =~= texts(head).push(lex@.conjunction));
            assert(texts(minor_words@) =~= texts(plain_minor).push(
                currency@.minor_name(minor as nat),
            ));
        }
        let ghost first = words@;
        let ghost second = minor_words@;
        words.append(&mut minor_words);
        proof {
            assert(texts(words@) =~= texts(first) + texts(second));
        }
    }
    Ok(words)
}

} // verus!
