//! The conversion engine: a request, and the words it asks for.
use vstd::prelude::*;
use vstd::string::*;
use crate::currency::{currency_of, lookup};
use crate::error::ConversionError;
use crate::lexicon::{lexicon_of, LexiconPack, LexiconView};
use crate::mode::{
    cardinal_words, currency_words, ordinal_numeral_words, ordinal_words, render_cardinal,
    render_currency, render_ordinal, render_ordinal_numeral, render_year, words_view,
    year_words, Mode,
};
use crate::number::{parse_number, Number, NumberView};
use crate::preference::{preference_pair, RenderPreference};
use crate::text::{join, join_words};
use crate::token::{resolve, resolve_choices};

verus! {

/// One conversion: the number, how to render it, in which locale, in which
/// currency where the mode is `Currency`, and with which preferences.
#[derive(Debug)]
pub struct ConversionRequest {
    pub number: Number,
    pub mode: Mode,
    pub locale: String,
    pub currency: Option<String>,
    pub preferences: RenderPreference,
}

/// What a `ConversionRequest` stands for.
pub struct RequestView {
    pub number: NumberView,
    pub mode: Mode,
    pub locale: Seq<char>,
    pub currency: Option<Seq<char>>,
    pub preferences: Map<Seq<char>, Seq<char>>,
}

impl View for ConversionRequest {
    type V = RequestView;

    open spec fn view(&self) -> RequestView {
        RequestView {
            number: self.number@,
            mode: self.mode,
            locale: self.locale@,
            currency: match self.currency {
                Some(code) => Some(code@),
                None => None,
            },
            preferences: self.preferences@,
        }
    }
}

/// The request for the cardinal of a number in English, with no
/// preference.
pub open spec fn plain_request(n: NumberView) -> RequestView {
    RequestView {
        number: n,
        mode: Mode::Cardinal,
        locale: "en"@,
        currency: None,
        preferences: Map::empty(),
    }
}

/// Whether the mode takes the number: the ordinal modes and the year take
/// integers only, and the year no negative number.
pub open spec fn mode_accepts(mode: Mode, n: NumberView) -> bool {
    match mode {
        Mode::Cardinal => true,
        Mode::Currency => true,
        Mode::Ordinal => !n.is_fractional(),
        Mode::OrdinalNumeral => !n.is_fractional(),
        Mode::Year => !n.is_fractional() && !n.is_negative(),
    }
}

/// The words of a request in a lexicon, by its mode.
pub open spec fn mode_words(req: RequestView, lex: LexiconView) -> Result<
    Seq<Seq<char>>,
    ConversionError,
> {
    let c = resolve_choices(req.preferences, lex);
    match req.mode {
        Mode::Cardinal => cardinal_words(req.number, lex, c),
        Mode::Ordinal => ordinal_words(req.number, lex, c),
        Mode::OrdinalNumeral => ordinal_numeral_words(req.number, lex),
        Mode::Year => year_words(req.number, lex, c),
        Mode::Currency => match req.currency {
            None => Err(ConversionError::UnknownCurrency),
            Some(code) => match currency_of(code) {
                None => Err(ConversionError::UnknownCurrency),
                Some(cur) => currency_words(req.number, lex, c, cur),
            },
        },
    }
}

/// What a request converts to: the words of its mode joined by single
/// spaces, or the failure. The number is held against the mode first, then
/// the locale is resolved, then the mode renders.
pub open spec fn convert_result(req: RequestView) -> Result<Seq<char>, ConversionError> {
    if !mode_accepts(req.mode, req.number) {
        Err(ConversionError::InvalidInputForMode)
    } else {
        match lexicon_of(req.locale) {
            None => Err(ConversionError::UnsupportedLocale),
            Some(lex) => match mode_words(req, lex) {
                Ok(words) => Ok(join_words(words, seq![' '])),
                Err(e) => Err(e),
            },
        }
    }
}

/// The text of a result.
pub open spec fn text_view(r: Result<String, ConversionError>) -> Result<
    Seq<char>,
    ConversionError,
> {
    match r {
        Ok(s) => Ok(s@),
        Err(e) => Err(e),
    }
}

/// The view of a request that may be absent.
pub open spec fn request_option_view(r: Option<ConversionRequest>) -> Option<RequestView> {
    match r {
        Some(r) => Some(r@),
        None => None,
    }
}

/// The plain request for the number that a text writes, if it writes one.
pub open spec fn parse_request(text: Seq<char>) -> Option<RequestView> {
    match parse_number(text) {
        Some(n) => Some(plain_request(n)),
        None => None,
    }
}

/// Renders the request in its mode, with the choices that its preferences
/// make in the lexicon.
fn render_mode(request: &ConversionRequest, lex: &LexiconPack) -> (r: Result<
    Vec<String>,
    ConversionError,
>)
    requires
        lex@.wf(),
    ensures
        words_view(r) == mode_words(request@, lex@),
{
    let c = resolve(&request.preferences, lex);
    match request.mode {
        Mode::Cardinal => render_cardinal(&request.number, lex, c),
        Mode::Ordinal => render_ordinal(&request.number, lex, c),
        Mode::OrdinalNumeral => render_ordinal_numeral(&request.number, lex),
        Mode::Year => render_year(&request.number, lex, c),
        Mode::Currency => match &request.currency {
            None => Err(ConversionError::UnknownCurrency),
            Some(code) => match lookup(code.as_str()) {
                None => Err(ConversionError::UnknownCurrency),
                Some(entry) => render_currency(&request.number, lex, c, &entry),
            },
        },
    }
}

/// Converts the number of the request into words.
pub fn convert(request: &ConversionRequest) -> (r: Result<String, ConversionError>)
    ensures
        text_view(r) == convert_result(request@),
{
    let fractional = request.number.is_fractional();
    let negative = request.number.is_negative();
    let accepted = match request.mode {
        Mode::Cardinal => true,
        Mode::Currency => true,
        Mode::Ordinal => !fractional,
        Mode::OrdinalNumeral => !fractional,
        Mode::Year => !fractional && !negative,
    };
    if !accepted {
        return Err(ConversionError::InvalidInputForMode);
    }
    let lex = match LexiconPack::for_locale(request.locale.as_str()) {
        Some(lex) => lex,
        None => {
            return Err(ConversionError::UnsupportedLocale);
        },
    };
    match render_mode(request, &lex) {
        Ok(words) => {
            proof {
                reveal_strlit(" ");
                assert(" "@ =~= seq![' ']);
            }
            Ok(join(&words, " "))
        },
        Err(e) => Err(e),
    }
}

impl ConversionRequest {
    /// The request for the cardinal of `number` in English, with no
    /// preference.
    pub fn new(number: Number) -> (r: ConversionRequest)
        ensures
            r@ == plain_request(number@),
    {
        ConversionRequest {
            number,
            mode: Mode::Cardinal,
            locale: String::from_str("en"),
            currency: None,
            preferences: RenderPreference::new(),
        }
    }

    /// The same request in another locale.
    pub fn lang(self, locale: &str) -> (r: ConversionRequest)
        ensures
            r@ == (RequestView { locale: locale@, ..self@ }),
    {
        ConversionRequest {
            number: self.number,
            mode: self.mode,
            locale: String::from_str(locale),
            currency: self.currency,
            preferences: self.preferences,
        }
    }

    /// The same request in another mode.
    pub fn mode(self, mode: Mode) -> (r: ConversionRequest)
        ensures
            r@ == (RequestView { mode: mode, ..self@ }),
    {
        ConversionRequest {
            number: self.number,
            mode,
            locale: self.locale,
            currency: self.currency,
            preferences: self.preferences,
        }
    }

    /// The same request for the cardinal.
    pub fn cardinal(self) -> (r: ConversionRequest)
        ensures
            r@ == (RequestView { mode: Mode::Cardinal, ..self@ }),
    {
        self.mode(Mode::Cardinal)
    }

    /// The same request for the ordinal.
    pub fn ordinal(self) -> (r: ConversionRequest)
        ensures
            r@ == (RequestView { mode: Mode::Ordinal, ..self@ }),
    {
        self.mode(Mode::Ordinal)
    }

    /// The same request for the ordinal numeral.
    pub fn ordinal_num(self) -> (r: ConversionRequest)
        ensures
            r@ == (RequestView { mode: Mode::OrdinalNumeral, ..self@ }),
    {
        self.mode(Mode::OrdinalNumeral)
    }

    /// The same request for the spoken year.
    pub fn year(self) -> (r: ConversionRequest)
        ensures
            r@ == (RequestView { mode: Mode::Year, ..self@ }),
    {
        self.mode(Mode::Year)
    }

    /// The same request for an amount of the currency of the code.
    pub fn currency(self, code: &str) -> (r: ConversionRequest)
        ensures
            r@ == (RequestView { mode: Mode::Currency, currency: Some(code@), ..self@ }),
    {
        ConversionRequest {
            number: self.number,
            mode: Mode::Currency,
            locale: self.locale,
            currency: Some(String::from_str(code)),
            preferences: self.preferences,
        }
    }

    /// The same request with the preference that `text` names.
    pub fn prefer(self, text: &str) -> (r: ConversionRequest)
        ensures
            r@ == (RequestView {
                preferences: self@.preferences.insert(
                    preference_pair(text@).0,
                    preference_pair(text@).1,
                ),
                ..self@
            }),
    {
        let mut preferences = self.preferences;
        preferences.set_from_text(text);
        ConversionRequest {
            number: self.number,
            mode: self.mode,
            locale: self.locale,
            currency: self.currency,
            preferences,
        }
    }

    /// The words of the request.
    pub fn to_words(&self) -> (r: Result<String, ConversionError>)
        ensures
            text_view(r) == convert_result(self@),
    {
        convert(self)
    }
}

/// The plain request for the number that `num` writes, if it writes one.
pub fn num2words(num: String) -> (r: Option<ConversionRequest>)
    ensures
        request_option_view(r) == parse_request(num@),
{
    match Number::from_text(num.as_str()) {
        Some(n) => Some(ConversionRequest::new(n)),
        None => None,
    }
}

} // verus!
