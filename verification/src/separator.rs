//! The separator glyphs and the number classification attached to patterns.

use vstd::prelude::*;
use crate::errors::ConversionError;
use crate::text::chars_of;

verus! {

/// Whether a successful match denotes an integer or a value with a
/// fractional part.
#[derive(Debug, Clone, Copy, PartialEq, Eq, Structural)]
pub enum NumberType {
    WHOLE,
    DECIMAL,
}

/// One of the three glyphs a convention can use as a thousand or decimal
/// marker: a space, a dot or a comma.
#[derive(Debug, Clone, Copy, PartialEq, Eq, Structural)]
pub enum Separator {
    SPACE,
    DOT,
    COMMA,
}

/// `s` is the one-character text of separator glyph `c`.
pub open spec fn is_glyph_text(s: Seq<char>, c: char) -> bool {
    s.len() == 1 && s[0] == c
}

impl Separator {
    /// The literal character of this separator.
    pub open spec fn spec_char(self) -> char {
        match self {
            Separator::SPACE => ' ',
            Separator::DOT => '.',
            Separator::COMMA => ',',
        }
    }

    /// The separator whose literal text is `s`, if any.
    pub open spec fn spec_of_text(s: Seq<char>) -> Option<Separator> {
        if s.len() != 1 {
            None
        } else if s[0] == ' ' {
            Some(Separator::SPACE)
        } else if s[0] == '.' {
            Some(Separator::DOT)
        } else if s[0] == ',' {
            Some(Separator::COMMA)
        } else {
            None
        }
    }

    /// The literal character of this separator.
    pub fn to_char(&self) -> (r: char)
        ensures
            r == self.spec_char(),
    {
        match self {
            Separator::SPACE => ' ',
            Separator::DOT => '.',
            Separator::COMMA => ',',
        }
    }

    /// The literal text of this separator.
    pub fn as_text(&self) -> (r: &'static str)
        ensures
            is_glyph_text(r@, self.spec_char()),
    {
        proof {
            reveal_strlit(" ");
            reveal_strlit(".");
            reveal_strlit(",");
        }
        match self {
            Separator::SPACE => " ",
            Separator::DOT => ".",
            Separator::COMMA => ",",
        }
    }

    /// Recognizes a separator from its literal text; any other text is
    /// rejected with `SeparatorNotFound`.
    pub fn from_text(s: &str) -> (r: Result<Separator, ConversionError>)
        ensures
            match r {
                Ok(sep) => Separator::spec_of_text(s@) == Some(sep),
                Err(e) => Separator::spec_of_text(s@) is None && e
                    == ConversionError::SeparatorNotFound,
            },
    {
        let v = chars_of(s);
        if v.len() == 1 {
            let c = v[0];
            if c == ' ' {
                Ok(Separator::SPACE)
            } else if c == '.' {
                Ok(Separator::DOT)
            } else if c == ',' {
                Ok(Separator::COMMA)
            } else {
                Err(ConversionError::SeparatorNotFound)
            }
        } else {
            Err(ConversionError::SeparatorNotFound)
        }
    }
}

} // verus!
