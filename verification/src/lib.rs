//! Culture-aware parsing of numeric text.
//!
//! Free-form numeric text written under the English, French or Italian
//! separator conventions is matched against a registry of anchored patterns
//! and converted into a normalized number: a sign, a string of integer
//! digits and an optional string of fractional digits.

pub mod text;
pub mod errors;
pub mod separator;
pub mod culture;
pub mod matcher;
pub mod pattern;
pub mod matching;
pub mod conversion;
pub mod laws;

pub use culture::Culture;
pub use culture::NumberCultureSettings;
pub use errors::ConversionError;
pub use separator::NumberType;
pub use separator::Separator;
pub use pattern::CulturePattern;
pub use pattern::NumberPatterns;
pub use pattern::ParsingPattern;
pub use matcher::RegexPattern;
pub use matcher::PatternBody;
pub use matching::MatchResult;
pub use matching::NoMatchError;
pub use conversion::NormalizedNumber;
pub use conversion::Sign;
pub use conversion::to_number;
pub use conversion::format_number;
