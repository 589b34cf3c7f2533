//! The failures of a conversion.
use vstd::prelude::*;
use vstd::string::*;

verus! {

/// Why a conversion gave no words.
#[derive(Clone, Copy, Debug, PartialEq, Eq, Structural)]
pub enum ConversionError {
    /// The magnitude needs a scale word beyond the locale's scale table.
    OutOfRange,
    /// No lexicon is known for the locale.
    UnsupportedLocale,
    /// The lexicon has no ordinal form for the word that needs one.
    UnsupportedOrdinal,
    /// The currency code is not registered.
    UnknownCurrency,
    /// The number does not fit the mode: a fraction where the mode takes
    /// integers only, or a negative year.
    InvalidInputForMode,
}

/// The message of each failure.
pub open spec fn error_message(e: ConversionError) -> Seq<char> {
    match e {
        ConversionError::OutOfRange => "number is out of range"@,
        ConversionError::UnsupportedLocale => "unsupported locale"@,
        ConversionError::UnsupportedOrdinal => "no ordinal form for this number"@,
        ConversionError::UnknownCurrency => "unknown currency"@,
        ConversionError::InvalidInputForMode => "invalid input for this mode"@,
    }
}

impl ConversionError {
    /// The message shown for this failure.
    pub fn message(&self) -> (r: String)
        ensures
            r@ == error_message(*self),
    {
        match self {
            ConversionError::OutOfRange => String::from_str("number is out of range"),
            ConversionError::UnsupportedLocale => String::from_str("unsupported locale"),
            ConversionError::UnsupportedOrdinal => String::from_str(
                "no ordinal form for this number",
            ),
            ConversionError::UnknownCurrency => String::from_str("unknown currency"),
            ConversionError::InvalidInputForMode => String::from_str("invalid input for this mode"),
        }
    }
}

} // verus!
