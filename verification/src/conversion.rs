//! The conversion engine: turns matched text into a normalized number, and
//! formats a normalized number back under a culture's conventions.

use vstd::prelude::*;
use crate::culture::Culture;
use crate::culture::NumberCultureSettings;
use crate::culture::SettingsView;
use crate::culture::spec_settings_of;
use crate::errors::ConversionError;
use crate::matcher::all_digits;
use crate::matcher::check_all_digits;
use crate::matcher::find_first_char;
use crate::matcher::first_index_of;
use crate::matcher::remove_char;
use crate::matcher::sign_offset;
use crate::matcher::unsigned_part;
use crate::matcher::without_char;
use crate::matching::MatchResult;
use crate::separator::NumberType;
use crate::text::chars_of;

verus! {

/// The sign of a normalized number. Text without a leading sign is positive.
#[derive(Debug, Clone, Copy, PartialEq, Eq, Structural)]
pub enum Sign {
    Positive,
    Negative,
}

/// The view of a normalized number.
#[verifier::ext_equal]
pub struct NormalizedNumberView {
    pub sign: Sign,
    pub integer_digits: Seq<char>,
    pub fractional_digits: Option<Seq<char>>,
}

impl NormalizedNumberView {
    /// A well-formed normalized number: a non-empty integer digit string and,
    /// if present, a fractional digit string.
    pub open spec fn wf(self) -> bool {
        &&& self.integer_digits.len() > 0
        &&& all_digits(self.integer_digits)
        &&& match self.fractional_digits {
            Some(f) => all_digits(f),
            None => true,
        }
    }
}

/// A normalized number: sign, integer digits, and optional fractional
/// digits, ready for a numeric-representation collaborator.
#[derive(Debug)]
pub struct NormalizedNumber {
    pub sign: Sign,
    pub integer_digits: Vec<char>,
    pub fractional_digits: Option<Vec<char>>,
}

impl View for NormalizedNumber {
    type V = NormalizedNumberView;

    open spec fn view(&self) -> NormalizedNumberView {
        NormalizedNumberView {
            sign: self.sign,
            integer_digits: self.integer_digits@,
            fractional_digits: match self.fractional_digits {
                Some(ref f) => Some(f@),
                None => None,
            },
        }
    }
}

/// The sign of `s`: negative exactly under a leading `'-'`.
pub open spec fn spec_sign_of(s: Seq<char>) -> Sign {
    if s.len() > 0 && s[0] == '-' {
        Sign::Negative
    } else {
        Sign::Positive
    }
}

/// `s` after removing the leading sign and, when settings are given, every
/// occurrence of the thousand separator.
pub open spec fn spec_stripped(s: Seq<char>, settings: Option<SettingsView>) -> Seq<char> {
    match settings {
        Some(cs) => without_char(unsigned_part(s), cs.thousand_char()),
        None => unsigned_part(s),
    }
}

/// The conversion of `s` under the resolved settings and number type;
/// absence stands for a malformed number. A whole number is the stripped
/// text, which must be non-empty digits. A decimal splits at the first
/// decimal separator; an empty whole part becomes the literal `"0"`, and
/// both parts must be digit-only.
pub open spec fn spec_convert(
    s: Seq<char>,
    settings: Option<SettingsView>,
    number_type: NumberType,
) -> Option<NormalizedNumberView> {
    let t = spec_stripped(s, settings);
    match number_type {
        NumberType::WHOLE => if t.len() > 0 && all_digits(t) {
            Some(
                NormalizedNumberView {
                    sign: spec_sign_of(s),
                    integer_digits: t,
                    fractional_digits: None,
                },
            )
        } else {
            None
        },
        NumberType::DECIMAL => match settings {
            None => None,
            Some(cs) => match first_index_of(t, cs.decimal_char()) {
                None => None,
                Some(i) => {
                    let int_part = t.take(i);
                    let frac = t.skip(i + 1);
                    if all_digits(int_part) && all_digits(frac) {
                        Some(
                            NormalizedNumberView {
                                sign: spec_sign_of(s),
                                integer_digits: if i == 0 {
                                    seq!['0']
                                } else {
                                    int_part
                                },
                                fractional_digits: Some(frac),
                            },
                        )
                    } else {
                        None
                    }
                },
            },
        },
    }
}

/// The elements `v[from..to]` as their own vector.
fn subvec(v: &Vec<char>, from: usize, to: usize) -> (r: Vec<char>)
    requires
        from <= to <= v.len(),
    ensures
        r@ == v@.subrange(from as int, to as int),
{
    let mut r: Vec<char> = Vec::new();
    let mut i = from;
    while i < to
        invariant
            from <= i <= to <= v.len(),
            r@ == v@.subrange(from as int, i as int),
        decreases to - i,
    {
        r.push(v[i]);
        i = i + 1;
        proof {
            assert(r@ =~= v@.subrange(from as int, i as int));
        }
    }
    r
}

/// Converts matched text into a normalized number: extracts the sign, strips
/// the thousand separator, and — for a decimal — splits at the decimal
/// separator, an empty whole part becoming `"0"`. Any remaining non-digit
/// yields `MalformedNumber`.
pub fn to_number(text: &str, matched: &MatchResult) -> (r: Result<
    NormalizedNumber,
    ConversionError,
>)
    requires
        match matched@.culture_settings {
            Some(cs) => cs.wf(),
            None => true,
        },
    ensures
        match r {
            Ok(n) => spec_convert(text@, matched@.culture_settings, matched@.number_type) == Some(
                n@,
            ),
            Err(e) => spec_convert(text@, matched@.culture_settings, matched@.number_type) is None
                && e == ConversionError::MalformedNumber,
        },
{
    let v = chars_of(text);
    let sign = if v.len() > 0 && v[0] == '-' {
        Sign::Negative
    } else {
        Sign::Positive
    };
    let off = sign_offset(&v);
    let stripped: Vec<char> = match &matched.culture_settings {
        Some(cs) => {
            let tsep = cs.to_thousand_separator();
            proof {
                assert(tsep.spec_char() == cs@.thousand_char());
            }
            remove_char(&v, off, tsep.to_char())
        },
        None => {
            let r = subvec(&v, off, v.len());
            proof {
                assert(v@.subrange(off as int, v@.len() as int) =~= v@.skip(off as int));
            }
            r
        },
    };
    let ghost t = spec_stripped(text@, matched@.culture_settings);
    proof {
        assert(stripped@ == t);
    }
    match matched.number_type {
        NumberType::WHOLE => {
            if stripped.len() > 0 && check_all_digits(&stripped, 0, stripped.len()) {
                proof {
                    assert(stripped@.subrange(0, stripped@.len() as int) =~= stripped@);
                }
                Ok(
                    NormalizedNumber {
                        sign,
                        integer_digits: stripped,
                        fractional_digits: None,
                    },
                )
            } else {
                proof {
                    assert(stripped@.subrange(0, stripped@.len() as int) =~= stripped@);
                }
                Err(ConversionError::MalformedNumber)
            }
        },
        NumberType::DECIMAL => {
            match &matched.culture_settings {
                None => Err(ConversionError::MalformedNumber),
                Some(cs) => {
                    let dsep = cs.to_decimal_separator();
                    proof {
                        assert(dsep.spec_char() == cs@.decimal_char());
                        assert(stripped@.skip(0) =~= stripped@);
                    }
                    let d = dsep.to_char();
                    match find_first_char(&stripped, 0, d) {
                        None => Err(ConversionError::MalformedNumber),
                        Some(i) => {
                            proof {
                                assert(stripped@.subrange(0, i as int) =~= stripped@.take(i as int));
                                assert(stripped@.subrange(i as int + 1, stripped@.len() as int)
                                    =~= stripped@.skip(i as int + 1));
                            }
                            let int_ok = check_all_digits(&stripped, 0, i);
                            let frac_ok = check_all_digits(&stripped, i + 1, stripped.len());
                            if int_ok && frac_ok {
                                let integer_digits: Vec<char> = if i == 0 {
                                    let mut z: Vec<char> = Vec::new();
                                    z.push('0');
                                    proof {
                                        assert(z@ =~= seq!['0']);
                                    }
                                    z
                                } else {
                                    subvec(&stripped, 0, i)
                                };
                                let frac = subvec(&stripped, i + 1, stripped.len());
                                Ok(
                                    NormalizedNumber {
                                        sign,
                                        integer_digits,
                                        fractional_digits: Some(frac),
                                    },
                                )
                            } else {
                                Err(ConversionError::MalformedNumber)
                            }
                        },
                    }
                },
            }
        },
    }
}

/// `digits` with a grouping character before each block of three digits,
/// counted from the right; runs of three or fewer stay as they are.
pub open spec fn spec_grouped(digits: Seq<char>, g: char) -> Seq<char>
    decreases digits.len(),
{
    if digits.len() <= 3 {
        digits
    } else {
        spec_grouped(digits.take(digits.len() - 3), g) + seq![g] + digits.skip(digits.len() - 3)
    }
}

/// The text of `n` under settings `cs`: the sign (only a negative one is
/// written), the grouped integer digits, then — if there is a fractional
/// part — the decimal separator and the fractional digits.
pub open spec fn spec_format(n: NormalizedNumberView, cs: SettingsView) -> Seq<char> {
    let sign_text = if n.sign == Sign::Negative {
        seq!['-']
    } else {
        Seq::<char>::empty()
    };
    let frac_text = match n.fractional_digits {
        Some(f) => seq![cs.decimal_char()] + f,
        None => Seq::<char>::empty(),
    };
    sign_text + spec_grouped(n.integer_digits, cs.thousand_char()) + frac_text
}

/// The first `end` digits of `d`, grouped from the right under `g`.
fn grouped_prefix(d: &Vec<char>, end: usize, g: char) -> (r: Vec<char>)
    requires
        end <= d.len(),
    ensures
        r@ == spec_grouped(d@.take(end as int), g),
    decreases end,
{
    if end <= 3 {
        let r = subvec(d, 0, end);
        proof {
            assert(d@.subrange(0, end as int) =~= d@.take(end as int));
        }
        r
    } else {
        let mut r = grouped_prefix(d, end - 3, g);
        proof {
            assert(d@.take(end as int).take(end as int - 3) =~= d@.take(end as int - 3));
        }
        r.push(g);
        r.push(d[end - 3]);
        r.push(d[end - 2]);
        r.push(d[end - 1]);
        proof {
            let whole = d@.take(end as int);
            assert(r@ =~= spec_grouped(whole.take(end as int - 3), g) + seq![g] + whole.skip(
                end as int - 3,
            ));
        }
        r
    }
}

/// Formats a normalized number under a built-in culture's conventions:
/// grouping blocks of three digits from the right and that culture's
/// separators.
pub fn format_number(n: &NormalizedNumber, culture: Culture) -> (r: Vec<char>)
    ensures
        r@ == spec_format(n@, spec_settings_of(culture)),
{
    let settings = NumberCultureSettings::from_culture(culture);
    let g = settings.to_thousand_separator().to_char();
    let d = settings.to_decimal_separator().to_char();
    proof {
        assert(g == spec_settings_of(culture).thousand_char());
        assert(d == spec_settings_of(culture).decimal_char());
    }
    let mut r: Vec<char> = Vec::new();
    match n.sign {
        Sign::Negative => {
            r.push('-');
        },
        Sign::Positive => {},
    }
    let ghost sign_text = r@;
    let mut grouped = grouped_prefix(&n.integer_digits, n.integer_digits.len(), g);
    proof {
        assert(n.integer_digits@.take(n.integer_digits@.len() as int) =~= n.integer_digits@);
    }
    r.append(&mut grouped);
    match &n.fractional_digits {
        Some(f) => {
            r.push(d);
            let mut i: usize = 0;
            let ghost before = r@;
            while i < f.len()
                invariant
                    i <= f.len(),
                    r@ == before + f@.take(i as int),
                decreases f.len() - i,
            {
                r.push(f[i]);
                i = i + 1;
                proof {
                    assert(r@ =~= before + f@.take(i as int));
                }
            }
            proof {
                assert(f@.take(f@.len() as int) =~= f@);
                assert(r@ =~= spec_format(n@, spec_settings_of(culture)));
            }
        },
        None => {
            proof {
                assert(r@ =~= spec_format(n@, spec_settings_of(culture)));
            }
        },
    }
    r
}

} // verus!
