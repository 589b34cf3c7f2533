//! The words and the grammar rules of a locale, as data.
use vstd::prelude::*;
use vstd::string::*;
use crate::scale::ScaleTable;
use crate::text::{same_text, texts};

verus! {

/// A rule that gives an ordinal form: for a whole word, `from` is the
/// cardinal word and `to` its ordinal; for an ending, `from` is the ending
/// of the cardinal word and `to` what replaces it.
#[derive(Debug)]
pub struct OrdinalRule {
    pub from: String,
    pub to: String,
}

/// What an `OrdinalRule` stands for.
pub struct RuleView {
    pub from: Seq<char>,
    pub to: Seq<char>,
}

impl View for OrdinalRule {
    type V = RuleView;

    open spec fn view(&self) -> RuleView {
        RuleView { from: self.from@, to: self.to@ }
    }
}

/// What the rules stand for, in order.
pub open spec fn rule_views(rules: Seq<OrdinalRule>) -> Seq<RuleView> {
    Seq::new(rules.len(), |i: int| rules[i]@)
}

/// The words and rules of one locale. All that differs between locales
/// stands here; the composition reads it and holds no word of its own.
#[derive(Debug)]
pub struct LexiconPack {
    /// The words for zero to nine.
    pub digits: Vec<String>,
    /// The words for ten to nineteen.
    pub teens: Vec<String>,
    /// The words for twenty, thirty, and so on to ninety.
    pub tens: Vec<String>,
    /// The word for one hundred.
    pub hundred: String,
    /// The scale words.
    pub scales: ScaleTable,
    /// The conjunction.
    pub conjunction: String,
    /// Whether the locale puts the conjunction before the last part below
    /// one hundred, unless a preference says otherwise.
    pub inserts_conjunction: bool,
    /// The word for a negative sign.
    pub sign: String,
    /// The word for the decimal point.
    pub point: String,
    /// What joins the two words of a compound.
    pub joiner: String,
    /// The short word for zero.
    pub filler: String,
    /// Ordinal forms of whole words, which come before the endings.
    pub ordinal_overrides: Vec<OrdinalRule>,
    /// Ordinal forms by ending; the first ending that fits is taken.
    pub ordinal_endings: Vec<OrdinalRule>,
    /// The ordinal suffix of a numeral by its last digit.
    pub numeral_suffixes: Vec<String>,
    /// The ordinal suffix of a numeral whose last two digits are ten to
    /// nineteen.
    pub numeral_teen_suffix: String,
}

/// What a `LexiconPack` stands for.
pub struct LexiconView {
    pub digits: Seq<Seq<char>>,
    pub teens: Seq<Seq<char>>,
    pub tens: Seq<Seq<char>>,
    pub hundred: Seq<char>,
    pub scales: Seq<Seq<char>>,
    pub conjunction: Seq<char>,
    pub inserts_conjunction: bool,
    pub sign: Seq<char>,
    pub point: Seq<char>,
    pub joiner: Seq<char>,
    pub filler: Seq<char>,
    pub ordinal_overrides: Seq<RuleView>,
    pub ordinal_endings: Seq<RuleView>,
    pub numeral_suffixes: Seq<Seq<char>>,
    pub numeral_teen_suffix: Seq<char>,
}

impl LexiconView {
    /// The tables have a word for each digit, each teen, each multiple of
    /// ten, and a suffix for each last digit.
    pub open spec fn wf(self) -> bool {
        &&& self.digits.len() == 10
        &&& self.teens.len() == 10
        &&& self.tens.len() == 8
        &&& self.numeral_suffixes.len() == 10
    }
}

impl View for LexiconPack {
    type V = LexiconView;

    open spec fn view(&self) -> LexiconView {
        LexiconView {
            digits: texts(self.digits@),
            teens: texts(self.teens@),
            tens: texts(self.tens@),
            hundred: self.hundred@,
            scales: self.scales@,
            conjunction: self.conjunction@,
            inserts_conjunction: self.inserts_conjunction,
            sign: self.sign@,
            point: self.point@,
            joiner: self.joiner@,
            filler: self.filler@,
            ordinal_overrides: rule_views(self.ordinal_overrides@),
            ordinal_endings: rule_views(self.ordinal_endings@),
            numeral_suffixes: texts(self.numeral_suffixes@),
            numeral_teen_suffix: self.numeral_teen_suffix@,
        }
    }
}

/// The English lexicon.
pub open spec fn english_lexicon() -> LexiconView {
    LexiconView {
        digits: seq![
            "zero"@,
            "one"@,
            "two"@,
            "three"@,
            "four"@,
            "five"@,
            "six"@,
            "seven"@,
            "eight"@,
            "nine"@,
        ],
        teens: seq![
            "ten"@,
            "eleven"@,
            "twelve"@,
            "thirteen"@,
            "fourteen"@,
            "fifteen"@,
            "sixteen"@,
            "seventeen"@,
            "eighteen"@,
            "nineteen"@,
        ],
        tens: seq![
            "twenty"@,
            "thirty"@,
            "forty"@,
            "fifty"@,
            "sixty"@,
            "seventy"@,
            "eighty"@,
            "ninety"@,
        ],
        hundred: "hundred"@,
        scales: seq![
            "thousand"@,
            "million"@,
            "billion"@,
            "trillion"@,
            "quadrillion"@,
            "quintillion"@,
            "sextillion"@,
            "septillion"@,
            "octillion"@,
            "nonillion"@,
            "decillion"@,
            "undecillion"@,
            "duodecillion"@,
            "tredecillion"@,
            "quattuordecillion"@,
            "quindecillion"@,
            "sexdecillion"@,
            "septendecillion"@,
            "octodecillion"@,
            "novemdecillion"@,
            "vigintillion"@,
        ],
        conjunction: "and"@,
        inserts_conjunction: true,
        sign: "minus"@,
        point: "point"@,
        joiner: "-"@,
        filler: "oh"@,
        ordinal_overrides: seq![
            RuleView { from: "one"@, to: "first"@ },
            RuleView { from: "two"@, to: "second"@ },
            RuleView { from: "three"@, to: "third"@ },
            RuleView { from: "five"@, to: "fifth"@ },
            RuleView { from: "eight"@, to: "eighth"@ },
            RuleView { from: "nine"@, to: "ninth"@ },
            RuleView { from: "twelve"@, to: "twelfth"@ },
        ],
        ordinal_endings: seq![
            RuleView { from: "y"@, to: "ieth"@ },
            RuleView { from: ""@, to: "th"@ },
        ],
        numeral_suffixes: seq![
            "th"@,
            "st"@,
            "nd"@,
            "rd"@,
            "th"@,
            "th"@,
            "th"@,
            "th"@,
            "th"@,
            "th"@,
        ],
        numeral_teen_suffix: "th"@,
    }
}

/// The lexicon of a locale, where the library has one.
pub open spec fn lexicon_of(locale: Seq<char>) -> Option<LexiconView> {
    if locale == "en"@ {
        Some(english_lexicon())
    } else {
        None
    }
}

/// The view of a lexicon that may be absent.
pub open spec fn lexicon_option_view(l: Option<LexiconPack>) -> Option<LexiconView> {
    match l {
        Some(l) => Some(l@),
        None => None,
    }
}

/// Whether the library has a lexicon for the locale.
pub fn is_supported(locale: &str) -> (r: bool)
    ensures
        r == lexicon_of(locale@) is Some,
{
    same_text(locale, "en")
}

/// One rule.
fn rule(from: &str, to: &str) -> (r: OrdinalRule)
    ensures
        r@ == (RuleView { from: from@, to: to@ }),
{
    OrdinalRule { from: String::from_str(from), to: String::from_str(to) }
}

/// The words as strings of their own.
fn owned(words: Vec<&str>) -> (r: Vec<String>)
    ensures
        r@.len() == words@.len(),
        forall|i: int| 0 <= i < words@.len() ==> (#[trigger] r@[i])@ == words@[i]@,
{
    let mut out: Vec<String> = Vec::new();
    let mut i: usize = 0;
    while i < words.len()
        invariant
            i <= words@.len(),
            out@.len() == i,
            forall|j: int| 0 <= j < i ==> (#[trigger] out@[j])@ == words@[j]@,
        decreases words@.len() - i,
    {
        out.push(String::from_str(words[i]));
        i += 1;
    }
    out
}

impl LexiconPack {
    /// The English lexicon.
    pub fn english() -> (r: LexiconPack)
        ensures
            r@ == english_lexicon(),
            r@.wf(),
    {
        let digits = owned(
            vec!["zero", "one", "two", "three", "four", "five", "six", "seven", "eight", "nine"],
        );
        let teens = owned(
            vec![
                "ten",
                "eleven",
                "twelve",
                "thirteen",
                "fourteen",
                "fifteen",
                "sixteen",
                "seventeen",
                "eighteen",
                "nineteen",
            ],
        );
        let tens = owned(
            vec!["twenty", "thirty", "forty", "fifty", "sixty", "seventy", "eighty", "ninety"],
        );
        let scales = owned(
            vec![
                "thousand",
                "million",
                "billion",
                "trillion",
                "quadrillion",
                "quintillion",
                "sextillion",
                "septillion",
                "octillion",
                "nonillion",
                "decillion",
                "undecillion",
                "duodecillion",
                "tredecillion",
                "quattuordecillion",
                "quindecillion",
                "sexdecillion",
                "septendecillion",
                "octodecillion",
                "novemdecillion",
                "vigintillion",
            ],
        );
        let mut ordinal_overrides: Vec<OrdinalRule> = Vec::new();
        ordinal_overrides.push(rule("one", "first"));
        ordinal_overrides.push(rule("two", "second"));
        ordinal_overrides.push(rule("three", "third"));
        ordinal_overrides.push(rule("five", "fifth"));
        ordinal_overrides.push(rule("eight", "eighth"));
        ordinal_overrides.push(rule("nine", "ninth"));
        ordinal_overrides.push(rule("twelve", "twelfth"));
        let mut ordinal_endings: Vec<OrdinalRule> = Vec::new();
        ordinal_endings.push(rule("y", "ieth"));
        ordinal_endings.push(rule("", "th"));
        let numeral_suffixes = owned(
            vec!["th", "st", "nd", "rd", "th", "th", "th", "th", "th", "th"],
        );
        let r = LexiconPack {
            digits,
            teens,
            tens,
            hundred: String::from_str("hundred"),
            scales: ScaleTable { words: scales },
            conjunction: String::from_str("and"),
            inserts_conjunction: true,
            sign: String::from_str("minus"),
            point: String::from_str("point"),
            joiner: String::from_str("-"),
            filler: String::from_str("oh"),
            ordinal_overrides,
            ordinal_endings,
            numeral_suffixes,
            numeral_teen_suffix: String::from_str("th"),
        };
        proof {
            let v = english_lexicon();
            assert(r@.digits =~= v.digits);
            assert(r@.teens =~= v.teens);
            assert(r@.tens =~= v.tens);
            assert(r@.scales =~= v.scales);
            assert(r@.ordinal_overrides =~= v.ordinal_overrides);
            assert(r@.ordinal_endings =~= v.ordinal_endings);
            assert(r@.numeral_suffixes =~= v.numeral_suffixes);
        }
        r
    }

    /// The lexicon of the locale, where the library has one.
    pub fn for_locale(locale: &str) -> (r: Option<LexiconPack>)
        ensures
            lexicon_option_view(r) == lexicon_of(locale@),
            r matches Some(l) ==> l@.wf(),
    {
        if same_text(locale, "en") {
            Some(LexiconPack::english())
        } else {
            None
        }
    }
}

} // verus!
