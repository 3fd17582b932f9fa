//! The pattern registry: named anchored patterns, per-culture groups, and
//! the built-in table for the English, French and Italian conventions.

use vstd::prelude::*;
use crate::culture::Culture;
use crate::culture::NumberCultureSettings;
use crate::culture::SettingsView;
use crate::culture::spec_english_settings;
use crate::culture::spec_french_settings;
use crate::culture::spec_italian_settings;
use crate::matcher::PatternBody;
use crate::matcher::RegexPattern;
use crate::separator::NumberType;
use crate::separator::Separator;

verus! {

/// The view of a named pattern.
#[verifier::ext_equal]
pub struct ParsingPatternView {
    pub name: Seq<char>,
    pub culture_settings: Option<SettingsView>,
    pub regex: RegexPattern,
    pub number_type: NumberType,
    pub additional_pattern: Option<Seq<char>>,
}

/// A pattern view with the given name, body shape, number type and settings,
/// and no reserved extension text.
pub open spec fn spec_pattern(
    name: Seq<char>,
    body: PatternBody,
    number_type: NumberType,
    culture_settings: Option<SettingsView>,
) -> ParsingPatternView {
    ParsingPatternView {
        name,
        culture_settings,
        regex: RegexPattern { body },
        number_type,
        additional_pattern: None,
    }
}

/// The view of an optional settings value.
pub open spec fn opt_settings_view(o: Option<NumberCultureSettings>) -> Option<SettingsView> {
    match o {
        Some(s) => Some(s@),
        None => None,
    }
}

/// A named anchored pattern: its matcher, the number type a match implies,
/// and the culture settings it resolves to (absent for culture-agnostic
/// patterns). `additional_pattern` is a reserved extension field.
#[derive(Debug)]
pub struct ParsingPattern {
    name: String,
    culture_settings: Option<NumberCultureSettings>,
    regex: RegexPattern,
    number_type: NumberType,
    additional_pattern: Option<String>,
}

impl View for ParsingPattern {
    type V = ParsingPatternView;

    closed spec fn view(&self) -> ParsingPatternView {
        ParsingPatternView {
            name: self.name@,
            culture_settings: opt_settings_view(self.culture_settings),
            regex: self.regex,
            number_type: self.number_type,
            additional_pattern: match self.additional_pattern {
                Some(ref s) => Some(s@),
                None => None,
            },
        }
    }
}

impl Clone for ParsingPattern {
    fn clone(&self) -> (r: Self)
        ensures
            r@ == self@,
    {
        let r = ParsingPattern {
            name: self.name.clone(),
            culture_settings: match &self.culture_settings {
                Some(cs) => Some(cs.clone()),
                None => None,
            },
            regex: self.regex,
            number_type: self.number_type,
            additional_pattern: match &self.additional_pattern {
                Some(s) => Some(s.clone()),
                None => None,
            },
        };
        proof {
            assert(r@ =~= self@);
        }
        r
    }
}

impl ParsingPattern {
    /// A pattern with the given name, matcher, number type and settings.
    pub fn new(
        name: &str,
        regex: RegexPattern,
        number_type: NumberType,
        culture_settings: Option<NumberCultureSettings>,
    ) -> (r: ParsingPattern)
        ensures
            r@ == spec_pattern(name@, regex.body, number_type, opt_settings_view(culture_settings)),
    {
        let r = ParsingPattern {
            name: name.to_owned(),
            culture_settings,
            regex,
            number_type,
            additional_pattern: None,
        };
        proof {
            assert(r@ =~= spec_pattern(
                name@,
                regex.body,
                number_type,
                opt_settings_view(r.culture_settings),
            ));
        }
        r
    }

    /// The diagnostic name of this pattern.
    pub fn get_name(&self) -> (r: &str)
        ensures
            r@ == self@.name,
    {
        self.name.as_str()
    }

    /// The anchored matcher of this pattern.
    pub fn get_regex(&self) -> (r: &RegexPattern)
        ensures
            *r == self@.regex,
    {
        &self.regex
    }

    /// The number type a match of this pattern implies.
    pub fn get_number_type(&self) -> (r: &NumberType)
        ensures
            *r == self@.number_type,
    {
        &self.number_type
    }

    /// The culture settings this pattern resolves to, if any.
    pub fn get_culture_settings(&self) -> (r: &Option<NumberCultureSettings>)
        ensures
            opt_settings_view(*r) == self@.culture_settings,
    {
        &self.culture_settings
    }
}

/// The view of a culture pattern group.
#[verifier::ext_equal]
pub struct CulturePatternView {
    pub name: Seq<char>,
    pub cultures: Seq<Culture>,
    pub patterns: Seq<ParsingPatternView>,
}

/// A named, ordered group of patterns serving one or more cultures.
#[derive(Debug)]
pub struct CulturePattern {
    name: String,
    value: Vec<Culture>,
    patterns: Vec<ParsingPattern>,
}

impl View for CulturePattern {
    type V = CulturePatternView;

    closed spec fn view(&self) -> CulturePatternView {
        CulturePatternView {
            name: self.name@,
            cultures: self.value@,
            patterns: self.patterns@.map_values(|p: ParsingPattern| p@),
        }
    }
}

/// A copy of a culture list.
fn clone_cultures(v: &Vec<Culture>) -> (r: Vec<Culture>)
    ensures
        r@ == v@,
{
    let mut r: Vec<Culture> = Vec::new();
    let mut i: usize = 0;
    while i < v.len()
        invariant
            i <= v.len(),
            r@ == v@.take(i as int),
        decreases v.len() - i,
    {
        r.push(v[i]);
        i = i + 1;
        proof {
            assert(r@ =~= v@.take(i as int));
        }
    }
    proof {
        assert(v@.take(v@.len() as int) =~= v@);
    }
    r
}

/// A copy of a pattern list, element by element.
fn clone_patterns(v: &Vec<ParsingPattern>) -> (r: Vec<ParsingPattern>)
    ensures
        r@.map_values(|p: ParsingPattern| p@) == v@.map_values(|p: ParsingPattern| p@),
{
    let mut r: Vec<ParsingPattern> = Vec::new();
    let mut i: usize = 0;
    while i < v.len()
        invariant
            i <= v.len(),
            r@.len() == i,
            forall|k: int| 0 <= k < i ==> #[trigger] r@[k]@ == v@[k]@,
        decreases v.len() - i,
    {
        r.push(v[i].clone());
        i = i + 1;
    }
    proof {
        assert(r@.map_values(|p: ParsingPattern| p@) =~= v@.map_values(|p: ParsingPattern| p@));
    }
    r
}

impl Clone for CulturePattern {
    fn clone(&self) -> (r: Self)
        ensures
            r@ == self@,
    {
        let r = CulturePattern {
            name: self.name.clone(),
            value: clone_cultures(&self.value),
            patterns: clone_patterns(&self.patterns),
        };
        proof {
            assert(r@ =~= self@);
        }
        r
    }
}

impl CulturePattern {
    /// A group with the given name, cultures and ordered patterns.
    pub fn new(name: &str, cultures: Vec<Culture>, patterns: Vec<ParsingPattern>) -> (r:
        CulturePattern)
        ensures
            r@.name == name@,
            r@.cultures == cultures@,
            r@.patterns == patterns@.map_values(|p: ParsingPattern| p@),
    {
        CulturePattern { name: name.to_owned(), value: cultures, patterns }
    }

    /// The short code of this group, such as `"fr"`.
    pub fn get_name(&self) -> (r: &str)
        ensures
            r@ == self@.name,
    {
        self.name.as_str()
    }

    /// The cultures this group serves.
    pub fn get_cultures(&self) -> (r: &Vec<Culture>)
        ensures
            r@ == self@.cultures,
    {
        &self.value
    }

    /// The ordered patterns of this group; the first match wins.
    pub fn get_patterns(&self) -> (r: &Vec<ParsingPattern>)
        ensures
            r@.map_values(|p: ParsingPattern| p@) == self@.patterns,
    {
        &self.patterns
    }
}

/// The view of the whole registry.
#[verifier::ext_equal]
pub struct NumberPatternsView {
    pub common: Seq<ParsingPatternView>,
    pub cultures: Seq<CulturePatternView>,
    pub math: Seq<ParsingPatternView>,
}

/// The first group in `groups` that serves `culture`, if any.
pub open spec fn spec_first_culture_group(groups: Seq<CulturePatternView>, culture: Culture) ->
    Option<CulturePatternView>
    decreases groups.len(),
{
    if groups.len() == 0 {
        None
    } else if groups[0].cultures.contains(culture) {
        Some(groups[0])
    } else {
        spec_first_culture_group(groups.drop_first(), culture)
    }
}

/// The registry of all patterns: culture-agnostic common patterns, the
/// per-culture groups, and the reserved (empty) math patterns.
pub struct NumberPatterns {
    common_pattern: Vec<ParsingPattern>,
    culture_pattern: Vec<CulturePattern>,
    math_pattern: Vec<ParsingPattern>,
}

impl View for NumberPatterns {
    type V = NumberPatternsView;

    closed spec fn view(&self) -> NumberPatternsView {
        NumberPatternsView {
            common: self.common_pattern@.map_values(|p: ParsingPattern| p@),
            cultures: self.culture_pattern@.map_values(|g: CulturePattern| g@),
            math: self.math_pattern@.map_values(|p: ParsingPattern| p@),
        }
    }
}

/// Whether `v@` holds `culture`.
fn cultures_contain(v: &Vec<Culture>, culture: Culture) -> (r: bool)
    ensures
        r == v@.contains(culture),
{
    let mut i: usize = 0;
    while i < v.len()
        invariant
            i <= v.len(),
            forall|k: int| 0 <= k < i ==> v@[k] != culture,
        decreases v.len() - i,
    {
        if v[i] == culture {
            return true;
        }
        i = i + 1;
    }
    proof {
        assert(forall|k: int| 0 <= k < v@.len() ==> v@[k] != culture);
    }
    false
}

impl NumberPatterns {
    /// The registry with the built-in table; same as `default`.
    pub fn new() -> (r: NumberPatterns)
        ensures
            r@ == spec_default_registry(),
    {
        NumberPatterns::default()
    }

    /// Every registered culture group, in registration order.
    pub fn get_all_culture_pattern(&self) -> (r: Vec<CulturePattern>)
        ensures
            r@.map_values(|g: CulturePattern| g@) == self@.cultures,
    {
        let mut r: Vec<CulturePattern> = Vec::new();
        let mut i: usize = 0;
        while i < self.culture_pattern.len()
            invariant
                i <= self.culture_pattern.len(),
                r@.len() == i,
                forall|k: int| 0 <= k < i ==> #[trigger] r@[k]@ == self.culture_pattern@[k]@,
            decreases self.culture_pattern.len() - i,
        {
            r.push(self.culture_pattern[i].clone());
            i = i + 1;
        }
        proof {
            assert(r@.map_values(|g: CulturePattern| g@) =~= self@.cultures);
        }
        r
    }

    /// The first registered group serving `culture`, or absence if none does.
    pub fn get_culture_pattern(&self, culture: &Culture) -> (r: Option<CulturePattern>)
        ensures
            match r {
                Some(g) => spec_first_culture_group(self@.cultures, *culture) == Some(g@),
                None => spec_first_culture_group(self@.cultures, *culture) is None,
            },
    {
        let ghost groups = self@.cultures;
        proof {
            assert(groups.skip(0) =~= groups);
        }
        let mut i: usize = 0;
        while i < self.culture_pattern.len()
            invariant
                i <= self.culture_pattern.len(),
                groups == self@.cultures,
                spec_first_culture_group(groups.skip(i as int), *culture)
                    == spec_first_culture_group(groups, *culture),
            decreases self.culture_pattern.len() - i,
        {
            proof {
                assert(groups.skip(i as int)[0] == groups[i as int]);
                assert(groups.skip(i as int).drop_first() =~= groups.skip(i as int + 1));
            }
            if cultures_contain(self.culture_pattern[i].get_cultures(), *culture) {
                return Some(self.culture_pattern[i].clone());
            }
            i = i + 1;
        }
        proof {
            assert(groups.skip(groups.len() as int) =~= Seq::<CulturePatternView>::empty());
        }
        None
    }

    /// Appends a culture group; later lookups see it after the existing ones.
    pub fn add_culture_pattern(&mut self, pattern: CulturePattern)
        ensures
            final(self)@.cultures == old(self)@.cultures.push(pattern@),
            final(self)@.common == old(self)@.common,
            final(self)@.math == old(self)@.math,
    {
        self.culture_pattern.push(pattern);
        proof {
            assert(final(self)@.cultures =~= old(self)@.cultures.push(pattern@));
        }
    }

    /// The culture-agnostic patterns, in order.
    pub fn get_common_pattern(&self) -> (r: Vec<ParsingPattern>)
        ensures
            r@.map_values(|p: ParsingPattern| p@) == self@.common,
    {
        clone_patterns(&self.common_pattern)
    }

    /// Appends a culture-agnostic pattern after the existing ones.
    pub fn add_common_pattern(&mut self, pattern: ParsingPattern)
        ensures
            final(self)@.common == old(self)@.common.push(pattern@),
            final(self)@.cultures == old(self)@.cultures,
            final(self)@.math == old(self)@.math,
    {
        self.common_pattern.push(pattern);
        proof {
            assert(final(self)@.common =~= old(self)@.common.push(pattern@));
        }
    }

    /// The reserved math patterns; empty in the default configuration.
    pub fn get_math_pattern(&self) -> (r: Vec<ParsingPattern>)
        ensures
            r@.map_values(|p: ParsingPattern| p@) == self@.math,
    {
        clone_patterns(&self.math_pattern)
    }

    /// Appends a math pattern after the existing ones.
    pub fn add_math_pattern(&mut self, pattern: ParsingPattern)
        ensures
            final(self)@.math == old(self)@.math.push(pattern@),
            final(self)@.common == old(self)@.common,
            final(self)@.cultures == old(self)@.cultures,
    {
        self.math_pattern.push(pattern);
        proof {
            assert(final(self)@.math =~= old(self)@.math.push(pattern@));
        }
    }
}

/// The one common pattern: an optionally signed run of digits.
pub open spec fn spec_common_simple_whole() -> ParsingPatternView {
    spec_pattern("Common_Simple_Whole"@, PatternBody::SimpleWhole, NumberType::WHOLE, None)
}

/// The four French patterns, most specific decimal shapes first.
pub open spec fn spec_fr_patterns() -> Seq<ParsingPatternView> {
    seq![
        spec_pattern(
            "FR_Decimal_Simple"@,
            PatternBody::DecimalSimple { dec: Separator::COMMA },
            NumberType::DECIMAL,
            Some(spec_french_settings()),
        ),
        spec_pattern(
            "FR_Decimal_Without_Whole_Part"@,
            PatternBody::DecimalNoWhole { dec: Separator::COMMA },
            NumberType::DECIMAL,
            Some(spec_french_settings()),
        ),
        spec_pattern(
            "FR_Thousand_Separator"@,
            PatternBody::GroupedWhole { group: Separator::SPACE },
            NumberType::WHOLE,
            Some(spec_french_settings()),
        ),
        spec_pattern(
            "FR_Thousand_Separator_Decimal"@,
            PatternBody::GroupedDecimal { group: Separator::SPACE, dec: Separator::COMMA },
            NumberType::DECIMAL,
            Some(spec_french_settings()),
        ),
    ]
}

/// The four English patterns, most specific decimal shapes first.
pub open spec fn spec_en_patterns() -> Seq<ParsingPatternView> {
    seq![
        spec_pattern(
            "EN_Decimal_Simple"@,
            PatternBody::DecimalSimple { dec: Separator::DOT },
            NumberType::DECIMAL,
            Some(spec_english_settings()),
        ),
        spec_pattern(
            "EN_Decimal_Without_Whole_Part"@,
            PatternBody::DecimalNoWhole { dec: Separator::DOT },
            NumberType::DECIMAL,
            Some(spec_english_settings()),
        ),
        spec_pattern(
            "EN_Thousand_Separator"@,
            PatternBody::GroupedWhole { group: Separator::COMMA },
            NumberType::WHOLE,
            Some(spec_english_settings()),
        ),
        spec_pattern(
            "EN_Thousand_Separator_Decimal"@,
            PatternBody::GroupedDecimal { group: Separator::COMMA, dec: Separator::DOT },
            NumberType::DECIMAL,
            Some(spec_english_settings()),
        ),
    ]
}

/// The four Italian patterns, most specific decimal shapes first.
pub open spec fn spec_it_patterns() -> Seq<ParsingPatternView> {
    seq![
        spec_pattern(
            "IT_Decimal_Simple"@,
            PatternBody::DecimalSimple { dec: Separator::COMMA },
            NumberType::DECIMAL,
            Some(spec_italian_settings()),
        ),
        spec_pattern(
            "IT_Decimal_Without_Whole_Part"@,
            PatternBody::DecimalNoWhole { dec: Separator::COMMA },
            NumberType::DECIMAL,
            Some(spec_italian_settings()),
        ),
        spec_pattern(
            "IT_Thousand_Separator"@,
            PatternBody::GroupedWhole { group: Separator::DOT },
            NumberType::WHOLE,
            Some(spec_italian_settings()),
        ),
        spec_pattern(
            "IT_Thousand_Separator_Decimal"@,
            PatternBody::GroupedDecimal { group: Separator::DOT, dec: Separator::COMMA },
            NumberType::DECIMAL,
            Some(spec_italian_settings()),
        ),
    ]
}

/// The French group view.
pub open spec fn spec_fr_group() -> CulturePatternView {
    CulturePatternView {
        name: "fr"@,
        cultures: seq![Culture::French],
        patterns: spec_fr_patterns(),
    }
}

/// The English group view.
pub open spec fn spec_en_group() -> CulturePatternView {
    CulturePatternView {
        name: "en"@,
        cultures: seq![Culture::English],
        patterns: spec_en_patterns(),
    }
}

/// The Italian group view.
pub open spec fn spec_it_group() -> CulturePatternView {
    CulturePatternView {
        name: "it"@,
        cultures: seq![Culture::Italian],
        patterns: spec_it_patterns(),
    }
}

/// The built-in registry: the common pattern, then the French, English and
/// Italian groups in that registration order, and no math patterns.
pub open spec fn spec_default_registry() -> NumberPatternsView {
    NumberPatternsView {
        common: seq![spec_common_simple_whole()],
        cultures: seq![spec_fr_group(), spec_en_group(), spec_it_group()],
        math: Seq::empty(),
    }
}

/// The French group with its four patterns.
fn french_group() -> (r: CulturePattern)
    ensures
        r@ == spec_fr_group(),
{
    let mut patterns: Vec<ParsingPattern> = Vec::new();
    patterns.push(ParsingPattern::new(
        "FR_Decimal_Simple",
        RegexPattern::new(PatternBody::DecimalSimple { dec: Separator::COMMA }),
        NumberType::DECIMAL,
        Some(NumberCultureSettings::french_culture()),
    ));
    patterns.push(ParsingPattern::new(
        "FR_Decimal_Without_Whole_Part",
        RegexPattern::new(PatternBody::DecimalNoWhole { dec: Separator::COMMA }),
        NumberType::DECIMAL,
        Some(NumberCultureSettings::french_culture()),
    ));
    patterns.push(ParsingPattern::new(
        "FR_Thousand_Separator",
        RegexPattern::new(PatternBody::GroupedWhole { group: Separator::SPACE }),
        NumberType::WHOLE,
        Some(NumberCultureSettings::french_culture()),
    ));
    patterns.push(ParsingPattern::new(
        "FR_Thousand_Separator_Decimal",
        RegexPattern::new(
            PatternBody::GroupedDecimal { group: Separator::SPACE, dec: Separator::COMMA },
        ),
        NumberType::DECIMAL,
        Some(NumberCultureSettings::french_culture()),
    ));
    let mut cultures: Vec<Culture> = Vec::new();
    cultures.push(Culture::French);
    let r = CulturePattern::new("fr", cultures, patterns);
    proof {
        assert(r@.patterns =~= spec_fr_patterns());
        assert(r@.cultures =~= seq![Culture::French]);
        assert(r@ =~= spec_fr_group());
    }
    r
}

/// The English group with its four patterns.
fn english_group() -> (r: CulturePattern)
    ensures
        r@ == spec_en_group(),
{
    let mut patterns: Vec<ParsingPattern> = Vec::new();
    patterns.push(ParsingPattern::new(
        "EN_Decimal_Simple",
        RegexPattern::new(PatternBody::DecimalSimple { dec: Separator::DOT }),
        NumberType::DECIMAL,
        Some(NumberCultureSettings::english_culture()),
    ));
    patterns.push(ParsingPattern::new(
        "EN_Decimal_Without_Whole_Part",
        RegexPattern::new(PatternBody::DecimalNoWhole { dec: Separator::DOT }),
        NumberType::DECIMAL,
        Some(NumberCultureSettings::english_culture()),
    ));
    patterns.push(ParsingPattern::new(
        "EN_Thousand_Separator",
        RegexPattern::new(PatternBody::GroupedWhole { group: Separator::COMMA }),
        NumberType::WHOLE,
        Some(NumberCultureSettings::english_culture()),
    ));
    patterns.push(ParsingPattern::new(
        "EN_Thousand_Separator_Decimal",
        RegexPattern::new(
            PatternBody::GroupedDecimal { group: Separator::COMMA, dec: Separator::DOT },
        ),
        NumberType::DECIMAL,
        Some(NumberCultureSettings::english_culture()),
    ));
    let mut cultures: Vec<Culture> = Vec::new();
    cultures.push(Culture::English);
    let r = CulturePattern::new("en", cultures, patterns);
    proof {
        assert(r@.patterns =~= spec_en_patterns());
        assert(r@.cultures =~= seq![Culture::English]);
        assert(r@ =~= spec_en_group());
    }
    r
}

/// The Italian group with its four patterns.
fn italian_group() -> (r: CulturePattern)
    ensures
        r@ == spec_it_group(),
{
    let mut patterns: Vec<ParsingPattern> = Vec::new();
    patterns.push(ParsingPattern::new(
        "IT_Decimal_Simple",
        RegexPattern::new(PatternBody::DecimalSimple { dec: Separator::COMMA }),
        NumberType::DECIMAL,
        Some(NumberCultureSettings::italian_culture()),
    ));
    patterns.push(ParsingPattern::new(
        "IT_Decimal_Without_Whole_Part",
        RegexPattern::new(PatternBody::DecimalNoWhole { dec: Separator::COMMA }),
        NumberType::DECIMAL,
        Some(NumberCultureSettings::italian_culture()),
    ));
    patterns.push(ParsingPattern::new(
        "IT_Thousand_Separator",
        RegexPattern::new(PatternBody::GroupedWhole { group: Separator::DOT }),
        NumberType::WHOLE,
        Some(NumberCultureSettings::italian_culture()),
    ));
    patterns.push(ParsingPattern::new(
        "IT_Thousand_Separator_Decimal",
        RegexPattern::new(
            PatternBody::GroupedDecimal { group: Separator::DOT, dec: Separator::COMMA },
        ),
        NumberType::DECIMAL,
        Some(NumberCultureSettings::italian_culture()),
    ));
    let mut cultures: Vec<Culture> = Vec::new();
    cultures.push(Culture::Italian);
    let r = CulturePattern::new("it", cultures, patterns);
    proof {
        assert(r@.patterns =~= spec_it_patterns());
        assert(r@.cultures =~= seq![Culture::Italian]);
        assert(r@ =~= spec_it_group());
    }
    r
}

impl Default for NumberPatterns {
    /// Builds the built-in table described by `spec_default_registry`.
    fn default() -> (r: NumberPatterns)
        ensures
            r@ == spec_default_registry(),
    {
        let mut common: Vec<ParsingPattern> = Vec::new();
        common.push(ParsingPattern::new(
            "Common_Simple_Whole",
            RegexPattern::new(PatternBody::SimpleWhole),
            NumberType::WHOLE,
            None,
        ));
        let mut groups: Vec<CulturePattern> = Vec::new();
        groups.push(french_group());
        groups.push(english_group());
        groups.push(italian_group());
        let r = NumberPatterns {
            common_pattern: common,
            culture_pattern: groups,
            math_pattern: Vec::new(),
        };
        proof {
            assert(r@.common =~= seq![spec_common_simple_whole()]);
            assert(r@.cultures =~= seq![spec_fr_group(), spec_en_group(), spec_it_group()]);
            assert(r@.math =~= Seq::<ParsingPatternView>::empty());
            assert(r@ =~= spec_default_registry());
        }
        r
    }
}

} // verus!
