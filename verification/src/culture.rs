//! Cultures and the separator pair each one implies.

use vstd::prelude::*;
use crate::separator::Separator;
use crate::separator::is_glyph_text;
use crate::errors::ConversionError;

verus! {

/// A named numeric-formatting convention.
#[derive(Debug, Clone, Copy, PartialEq, Eq, Structural)]
pub enum Culture {
    English,
    French,
    Italian,
}

/// The view of a `NumberCultureSettings`: the two separator texts.
#[verifier::ext_equal]
pub struct SettingsView {
    pub thousand_separator: Seq<char>,
    pub decimal_separator: Seq<char>,
}

impl SettingsView {
    /// Both separator texts name one of the three glyphs.
    pub open spec fn wf(self) -> bool {
        Separator::spec_of_text(self.thousand_separator) is Some
            && Separator::spec_of_text(self.decimal_separator) is Some
    }

    /// The thousand separator character (meaningful when `wf`).
    pub open spec fn thousand_char(self) -> char {
        self.thousand_separator[0]
    }

    /// The decimal separator character (meaningful when `wf`).
    pub open spec fn decimal_char(self) -> char {
        self.decimal_separator[0]
    }
}

/// The separator texts of the English convention: comma grouping, dot decimal.
pub open spec fn spec_english_settings() -> SettingsView {
    SettingsView { thousand_separator: seq![','], decimal_separator: seq!['.'] }
}

/// The separator texts of the French convention: space grouping, comma decimal.
pub open spec fn spec_french_settings() -> SettingsView {
    SettingsView { thousand_separator: seq![' '], decimal_separator: seq![','] }
}

/// The separator texts of the Italian convention: dot grouping, comma decimal.
pub open spec fn spec_italian_settings() -> SettingsView {
    SettingsView { thousand_separator: seq!['.'], decimal_separator: seq![','] }
}

/// The settings of a built-in culture.
pub open spec fn spec_settings_of(culture: Culture) -> SettingsView {
    match culture {
        Culture::English => spec_english_settings(),
        Culture::French => spec_french_settings(),
        Culture::Italian => spec_italian_settings(),
    }
}

/// The thousand and decimal separator of one convention, each held as its
/// literal text.
#[derive(Debug)]
pub struct NumberCultureSettings {
    pub thousand_separator: String,
    pub decimal_separator: String,
}

impl View for NumberCultureSettings {
    type V = SettingsView;

    open spec fn view(&self) -> SettingsView {
        SettingsView {
            thousand_separator: self.thousand_separator@,
            decimal_separator: self.decimal_separator@,
        }
    }
}

impl Clone for NumberCultureSettings {
    fn clone(&self) -> (r: Self)
        ensures
            r@ == self@,
    {
        NumberCultureSettings {
            thousand_separator: self.thousand_separator.clone(),
            decimal_separator: self.decimal_separator.clone(),
        }
    }
}

impl NumberCultureSettings {
    /// Pairs two separator texts. The texts are kept as given; whether they
    /// name known glyphs is checked only when a `Separator` is asked for.
    pub fn new(thousand_separator: &str, decimal_separator: &str) -> (r: NumberCultureSettings)
        ensures
            r@.thousand_separator == thousand_separator@,
            r@.decimal_separator == decimal_separator@,
    {
        NumberCultureSettings {
            thousand_separator: thousand_separator.to_owned(),
            decimal_separator: decimal_separator.to_owned(),
        }
    }

    /// The English convention: comma grouping, dot decimal.
    pub fn english_culture() -> (r: NumberCultureSettings)
        ensures
            r@ == spec_english_settings(),
    {
        let r = NumberCultureSettings::new(
            Separator::COMMA.as_text(),
            Separator::DOT.as_text(),
        );
        proof {
            assert(r@ =~= spec_english_settings());
        }
        r
    }

    /// The French convention: space grouping, comma decimal.
    pub fn french_culture() -> (r: NumberCultureSettings)
        ensures
            r@ == spec_french_settings(),
    {
        let r = NumberCultureSettings::new(
            Separator::SPACE.as_text(),
            Separator::COMMA.as_text(),
        );
        proof {
            assert(r@ =~= spec_french_settings());
        }
        r
    }

    /// The Italian convention: dot grouping, comma decimal.
    pub fn italian_culture() -> (r: NumberCultureSettings)
        ensures
            r@ == spec_italian_settings(),
    {
        let r = NumberCultureSettings::new(
            Separator::DOT.as_text(),
            Separator::COMMA.as_text(),
        );
        proof {
            assert(r@ =~= spec_italian_settings());
        }
        r
    }

    /// The settings of a built-in culture.
    pub fn from_culture(culture: Culture) -> (r: NumberCultureSettings)
        ensures
            r@ == spec_settings_of(culture),
    {
        match culture {
            Culture::English => NumberCultureSettings::english_culture(),
            Culture::French => NumberCultureSettings::french_culture(),
            Culture::Italian => NumberCultureSettings::italian_culture(),
        }
    }

    /// The thousand separator as a `Separator` value. The settings must name
    /// a known glyph.
    pub fn to_thousand_separator(&self) -> (r: Separator)
        requires
            Separator::spec_of_text(self@.thousand_separator) is Some,
        ensures
            Separator::spec_of_text(self@.thousand_separator) == Some(r),
    {
        match Separator::from_text(self.thousand_separator.as_str()) {
            Ok(sep) => sep,
            Err(_) => {
                proof {
                    assert(false);
                }
                Separator::SPACE
            },
        }
    }

    /// The decimal separator as a `Separator` value. The settings must name
    /// a known glyph.
    pub fn to_decimal_separator(&self) -> (r: Separator)
        requires
            Separator::spec_of_text(self@.decimal_separator) is Some,
        ensures
            Separator::spec_of_text(self@.decimal_separator) == Some(r),
    {
        match Separator::from_text(self.decimal_separator.as_str()) {
            Ok(sep) => sep,
            Err(_) => {
                proof {
                    assert(false);
                }
                Separator::SPACE
            },
        }
    }

    /// Recognizes both separator texts, failing with `SeparatorNotFound`
    /// when either is not a known glyph.
    pub fn to_separator_pair(&self) -> (r: Result<(Separator, Separator), ConversionError>)
        ensures
            match r {
                Ok(pair) => Separator::spec_of_text(self@.thousand_separator) == Some(pair.0)
                    && Separator::spec_of_text(self@.decimal_separator) == Some(pair.1),
                Err(e) => e == ConversionError::SeparatorNotFound && !self@.wf(),
            },
    {
        let thousand = Separator::from_text(self.thousand_separator.as_str());
        let decimal = Separator::from_text(self.decimal_separator.as_str());
        match (thousand, decimal) {
            (Ok(t), Ok(d)) => Ok((t, d)),
            _ => Err(ConversionError::SeparatorNotFound),
        }
    }
}

} // verus!
