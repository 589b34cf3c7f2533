//! Numbers into words: cardinal, ordinal, ordinal numeral, spoken year and
//! currency amount, by locale.
pub mod error;
pub mod text;
pub mod digits;
pub mod number;
pub mod notation;
pub mod scale;
pub mod group;
pub mod preference;
pub mod lexicon;
pub mod token;
pub mod render;
pub mod currency;
pub mod ordinal;
pub mod mode;
pub mod engine;
pub mod cli;
pub mod laws;

pub use crate::engine::{convert, num2words, ConversionRequest};
pub use crate::error::ConversionError;
pub use crate::mode::Mode;
pub use crate::number::Number;
