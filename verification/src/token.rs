//! Word tokens: the classes of word that a composition is made of, before
//! a lexicon gives each its word.
use vstd::prelude::*;
use vstd::string::*;
use crate::lexicon::{LexiconPack, LexiconView};
use crate::preference::{choice_of, RenderPreference};
use crate::text::texts;

verus! {

/// One word of a composition, by its class.
#[derive(Clone, Copy, Debug, PartialEq, Eq, Structural)]
pub enum Token {
    /// The word for a negative sign.
    Sign,
    /// A zero that stands alone.
    Zero,
    /// One of one to nine.
    Unit(u8),
    /// Ten plus the digit: ten to nineteen.
    Teen(u8),
    /// The digit times ten: twenty to ninety.
    Tens(u8),
    /// A multiple of ten and a unit in one compound word.
    Compound(u8, u8),
    /// The word for one hundred.
    Hundred,
    /// The scale word for one thousand to this power.
    Scale(usize),
    /// The conjunction.
    Conjunction,
    /// The word for the decimal point.
    Point,
    /// The short word for zero and a unit in one compound word.
    Filled(u8),
}

/// The choices made at the choice points of a composition.
#[derive(Clone, Copy, Debug, PartialEq, Eq, Structural)]
pub struct Choices {
    /// A lone zero is said with the short word.
    pub short_zero: bool,
    /// The conjunction stands before the last part below one hundred.
    pub conjunction: bool,
    /// A count of zero minor units is said.
    pub zero_minor: bool,
}

/// The choices that the preferences make, and the locale's own where they
/// make none: `zero_digit_style` is `oh` or `zero`, `conjunction` is
/// `insert` or `omit`, `zero_minor` is `show` or `hide`. Any other choice
/// leaves the default.
pub open spec fn resolve_choices(p: Map<Seq<char>, Seq<char>>, lex: LexiconView) -> Choices {
    Choices {
        short_zero: choice_of(p, "zero_digit_style"@) == Some("oh"@),
        conjunction: if choice_of(p, "conjunction"@) == Some("insert"@) {
            true
        } else if choice_of(p, "conjunction"@) == Some("omit"@) {
            false
        } else {
            lex.inserts_conjunction
        },
        zero_minor: !(choice_of(p, "zero_minor"@) == Some("hide"@)),
    }
}

/// Resolves the preferences against the defaults of the lexicon.
pub fn resolve(prefs: &RenderPreference, lex: &LexiconPack) -> (c: Choices)
    ensures
        c == resolve_choices(prefs@, lex@),
{
    let short_zero = prefs.chose("zero_digit_style", "oh");
    let conjunction = if prefs.chose("conjunction", "insert") {
        true
    } else if prefs.chose("conjunction", "omit") {
        false
    } else {
        lex.inserts_conjunction
    };
    let zero_minor = !prefs.chose("zero_minor", "hide");
    Choices { short_zero, conjunction, zero_minor }
}

impl Token {
    /// Whether the lexicon has a word for the token.
    pub open spec fn fits(self, lex: LexiconView) -> bool {
        match self {
            Token::Unit(d) => 1 <= d <= 9,
            Token::Teen(d) => d <= 9,
            Token::Tens(t) => 2 <= t <= 9,
            Token::Compound(t, u) => 2 <= t <= 9 && 1 <= u <= 9,
            Token::Scale(i) => 1 <= i <= lex.scales.len(),
            Token::Filled(u) => 1 <= u <= 9,
            _ => true,
        }
    }
}

/// Whether the lexicon has a word for each token.
pub open spec fn all_fit(ts: Seq<Token>, lex: LexiconView) -> bool {
    forall|i: int| 0 <= i < ts.len() ==> (#[trigger] ts[i]).fits(lex)
}

/// The word of a token.
pub open spec fn token_word(lex: LexiconView, c: Choices, t: Token) -> Seq<char> {
    match t {
        Token::Sign => lex.sign,
        Token::Zero => if c.short_zero {
            lex.filler
        } else {
            lex.digits[0]
        },
        Token::Unit(d) => lex.digits[d as int],
        Token::Teen(d) => lex.teens[d as int],
        Token::Tens(t) => lex.tens[t - 2],
        Token::Compound(t, u) => lex.tens[t - 2] + lex.joiner + lex.digits[u as int],
        Token::Hundred => lex.hundred,
        Token::Scale(i) => lex.scales[i - 1],
        Token::Conjunction => lex.conjunction,
        Token::Point => lex.point,
        Token::Filled(u) => lex.filler + lex.joiner + lex.digits[u as int],
    }
}

/// The words of the tokens, in order.
pub open spec fn token_words(lex: LexiconView, c: Choices, ts: Seq<Token>) -> Seq<Seq<char>> {
    Seq::new(ts.len(), |i: int| token_word(lex, c, ts[i]))
}

/// The word of a token.
pub fn word_of(lex: &LexiconPack, c: Choices, t: Token) -> (r: String)
    requires
        lex@.wf(),
        t.fits(lex@),
    ensures
        r@ == token_word(lex@, c, t),
{
    match t {
        Token::Sign => lex.sign.clone(),
        Token::Zero => if c.short_zero {
            lex.filler.clone()
        } else {
            lex.digits[0].clone()
        },
        Token::Unit(d) => lex.digits[d as usize].clone(),
        Token::Teen(d) => lex.teens[d as usize].clone(),
        Token::Tens(t) => lex.tens[(t - 2) as usize].clone(),
        Token::Compound(t, u) => {
            let mut w = lex.tens[(t - 2) as usize].clone();
            w.append(lex.joiner.as_str());
            w.append(lex.digits[u as usize].as_str());
            w
        },
        Token::Hundred => lex.hundred.clone(),
        Token::Scale(i) => String::from_str(lex.scales.word(i)),
        Token::Conjunction => lex.conjunction.clone(),
        Token::Point => lex.point.clone(),
        Token::Filled(u) => {
            let mut w = lex.filler.clone();
            w.append(lex.joiner.as_str());
            w.append(lex.digits[u as usize].as_str());
            w
        },
    }
}

/// The words of the tokens, in order.
pub fn words_of(lex: &LexiconPack, c: Choices, tokens: &Vec<Token>) -> (r: Vec<String>)
    requires
        lex@.wf(),
        all_fit(tokens@, lex@),
    ensures
        texts(r@) == token_words(lex@, c, tokens@),
{
    let mut out: Vec<String> = Vec::new();
    let mut i: usize = 0;
    while i < tokens.len()
        invariant
            i <= tokens@.len(),
            lex@.wf(),
            all_fit(tokens@, lex@),
            out@.len() == i,
            forall|j: int| 0 <= j < i ==> (#[trigger] out@[j])@ == token_word(lex@, c, tokens@[j]),
        decreases tokens@.len() - i,
    {
        out.push(word_of(lex, c, tokens[i]));
        i += 1;
    }
    proof {
        assert(texts(out@) =~= token_words(lex@, c, tokens@));
    }
    out
}

} // verus!
