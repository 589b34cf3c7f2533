//! The registry of currencies.
use vstd::prelude::*;
use vstd::string::*;
use crate::text::same_text;

verus! {

/// A currency: its code, the names of its major and minor unit, and how
/// many minor units make one major unit.
#[derive(Debug)]
pub struct CurrencyEntry {
    pub code: String,
    pub major_name_singular: String,
    pub major_name_plural: String,
    pub minor_name_singular: String,
    pub minor_name_plural: String,
    pub minor_scale: u32,
}

/// What a `CurrencyEntry` stands for.
pub struct CurrencyView {
    pub code: Seq<char>,
    pub major_name_singular: Seq<char>,
    pub major_name_plural: Seq<char>,
    pub minor_name_singular: Seq<char>,
    pub minor_name_plural: Seq<char>,
    pub minor_scale: nat,
}

impl CurrencyView {
    /// At least one minor unit makes a major unit.
    pub open spec fn wf(self) -> bool {
        1 <= self.minor_scale <= u32::MAX
    }

    /// The name for `count` major units: singular for one alone.
    pub open spec fn major_name(self, count: nat) -> Seq<char> {
        if count == 1 {
            self.major_name_singular
        } else {
            self.major_name_plural
        }
    }

    /// The name for `count` minor units: singular for one alone.
    pub open spec fn minor_name(self, count: nat) -> Seq<char> {
        if count == 1 {
            self.minor_name_singular
        } else {
            self.minor_name_plural
        }
    }
}

impl View for CurrencyEntry {
    type V = CurrencyView;

    open spec fn view(&self) -> CurrencyView {
        CurrencyView {
            code: self.code@,
            major_name_singular: self.major_name_singular@,
            major_name_plural: self.major_name_plural@,
            minor_name_singular: self.minor_name_singular@,
            minor_name_plural: self.minor_name_plural@,
            minor_scale: self.minor_scale as nat,
        }
    }
}

/// A currency of one hundred minor units.
pub open spec fn centesimal(
    code: Seq<char>,
    major_singular: Seq<char>,
    major_plural: Seq<char>,
    minor_singular: Seq<char>,
    minor_plural: Seq<char>,
) -> CurrencyView {
    CurrencyView {
        code,
        major_name_singular: major_singular,
        major_name_plural: major_plural,
        minor_name_singular: minor_singular,
        minor_name_plural: minor_plural,
        minor_scale: 100,
    }
}

/// The registered currency of a code. Codes are told apart by case.
pub open spec fn currency_of(code: Seq<char>) -> Option<CurrencyView> {
    if code == "AUD"@ {
        Some(centesimal(code, "australian dollar"@, "australian dollars"@, "cent"@, "cents"@))
    } else if code == "CAD"@ {
        Some(centesimal(code, "canadian dollar"@, "canadian dollars"@, "cent"@, "cents"@))
    } else if code == "DOLLAR"@ {
        Some(centesimal(code, "dollar"@, "dollars"@, "cent"@, "cents"@))
    } else if code == "EUR"@ {
        Some(centesimal(code, "euro"@, "euros"@, "cent"@, "cents"@))
    } else if code == "GBP"@ {
        Some(centesimal(code, "pound"@, "pounds"@, "penny"@, "pence"@))
    } else if code == "USD"@ {
        Some(centesimal(code, "US dollar"@, "US dollars"@, "cent"@, "cents"@))
    } else {
        None
    }
}

/// The view of a currency that may be absent.
pub open spec fn currency_option_view(c: Option<CurrencyEntry>) -> Option<CurrencyView> {
    match c {
        Some(c) => Some(c@),
        None => None,
    }
}

/// An entry of one hundred minor units.
fn entry(
    code: &str,
    major_singular: &str,
    major_plural: &str,
    minor_singular: &str,
    minor_plural: &str,
) -> (r: CurrencyEntry)
    ensures
        r@ == centesimal(code@, major_singular@, major_plural@, minor_singular@, minor_plural@),
{
    CurrencyEntry {
        code: String::from_str(code),
        major_name_singular: String::from_str(major_singular),
        major_name_plural: String::from_str(major_plural),
        minor_name_singular: String::from_str(minor_singular),
        minor_name_plural: String::from_str(minor_plural),
        minor_scale: 100,
    }
}

impl CurrencyEntry {
    /// The name for `count` major units.
    pub fn major_name(&self, count_is_one: bool) -> (r: &str)
        ensures
            r@ == (if count_is_one {
                self@.major_name_singular
            } else {
                self@.major_name_plural
            }),
    {
        if count_is_one {
            self.major_name_singular.as_str()
        } else {
            self.major_name_plural.as_str()
        }
    }

    /// The name for `count` minor units.
    pub fn minor_name(&self, count_is_one: bool) -> (r: &str)
        ensures
            r@ == (if count_is_one {
                self@.minor_name_singular
            } else {
                self@.minor_name_plural
            }),
    {
        if count_is_one {
            self.minor_name_singular.as_str()
        } else {
            self.minor_name_plural.as_str()
        }
    }
}

/// Looks a currency up by its code.
pub fn lookup(code: &str) -> (r: Option<CurrencyEntry>)
    ensures
        currency_option_view(r) == currency_of(code@),
        r matches Some(c) ==> c@.wf(),
{
    if same_text(code, "AUD") {
        Some(entry(code, "australian dollar", "australian dollars", "cent", "cents"))
    } else if same_text(code, "CAD") {
        Some(entry(code, "canadian dollar", "canadian dollars", "cent", "cents"))
    } else if same_text(code, "DOLLAR") {
        Some(entry(code, "dollar", "dollars", "cent", "cents"))
    } else if same_text(code, "EUR") {
        Some(entry(code, "euro", "euros", "cent", "cents"))
    } else if same_text(code, "GBP") {
        Some(entry(code, "pound", "pounds", "penny", "pence"))
    } else if same_text(code, "USD") {
        Some(entry(code, "US dollar", "US dollars", "cent", "cents"))
    } else {
        None
    }
}

} // verus!
