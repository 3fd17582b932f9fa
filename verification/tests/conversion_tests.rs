use number_patterns::ConversionError;
use number_patterns::Culture;
use number_patterns::MatchResult;
use number_patterns::NumberCultureSettings;
use number_patterns::NumberPatterns;
use number_patterns::NumberType;
use number_patterns::ParsingPattern;
use number_patterns::PatternBody;
use number_patterns::RegexPattern;
use number_patterns::Separator;
use number_patterns::Sign;
use number_patterns::conversion::NormalizedNumber;
use number_patterns::conversion::format_number;
use number_patterns::conversion::to_number;

fn chars(s: &str) -> Vec<char> {
    s.chars().collect()
}

fn text_of(v: &[char]) -> String {
    v.iter().collect()
}

#[test]
fn test_format_number_under_each_culture() {
    let n = NormalizedNumber {
        sign: Sign::Negative,
        integer_digits: chars("1234567"),
        fractional_digits: Some(chars("89")),
    };
    assert_eq!(text_of(&format_number(&n, Culture::English)), "-1,234,567.89");
    assert_eq!(text_of(&format_number(&n, Culture::French)), "-1 234 567,89");
    assert_eq!(text_of(&format_number(&n, Culture::Italian)), "-1.234.567,89");
}

#[test]
fn test_round_trip_each_culture() {
    let registry = NumberPatterns::default();
    let samples = [
        (Sign::Positive, "1", None),
        (Sign::Negative, "42", None),
        (Sign::Positive, "1000", None),
        (Sign::Negative, "1234567", Some("5")),
        (Sign::Positive, "120", Some("00123")),
        (Sign::Positive, "987654", None),
    ];
    for culture in [Culture::English, Culture::French, Culture::Italian] {
        for (sign, int_digits, frac) in &samples {
            let n = NormalizedNumber {
                sign: *sign,
                integer_digits: chars(int_digits),
                fractional_digits: frac.map(chars),
            };
            let formatted = text_of(&format_number(&n, culture));
            let m = registry.match_text(&formatted, Some(culture)).unwrap();
            let back = to_number(&formatted, &m).unwrap();
            assert_eq!(back.sign, *sign, "{}", formatted);
            assert_eq!(back.integer_digits, chars(int_digits), "{}", formatted);
            assert_eq!(back.fractional_digits, frac.map(chars), "{}", formatted);
        }
    }
}

#[test]
fn test_to_number_malformed() {
    let pattern = ParsingPattern::new(
        "Claimed_Decimal",
        RegexPattern::new(PatternBody::DecimalSimple { dec: Separator::DOT }),
        NumberType::DECIMAL,
        Some(NumberCultureSettings::english_culture()),
    );
    let m = MatchResult {
        pattern,
        culture_settings: Some(NumberCultureSettings::english_culture()),
        number_type: NumberType::DECIMAL,
    };
    // no decimal separator is present, so the conversion is refused
    assert_eq!(to_number("abc", &m).unwrap_err(), ConversionError::MalformedNumber);
    // a non-digit remains after the split, so the conversion is refused
    assert_eq!(to_number("1.2x", &m).unwrap_err(), ConversionError::MalformedNumber);
}

#[test]
fn test_separator_text_round_trip() {
    assert_eq!(Separator::SPACE.as_text(), " ");
    assert_eq!(Separator::DOT.as_text(), ".");
    assert_eq!(Separator::COMMA.as_text(), ",");
    assert_eq!(Separator::from_text(" ").unwrap(), Separator::SPACE);
    assert_eq!(Separator::from_text(".").unwrap(), Separator::DOT);
    assert_eq!(Separator::from_text(",").unwrap(), Separator::COMMA);
    assert_eq!(Separator::SPACE.to_char(), ' ');
    assert_eq!(Separator::DOT.to_char(), '.');
    assert_eq!(Separator::COMMA.to_char(), ',');
}

#[test]
fn test_separator_not_found() {
    assert_eq!(
        Separator::from_text(";").unwrap_err(),
        ConversionError::SeparatorNotFound
    );
    assert_eq!(
        Separator::from_text("").unwrap_err(),
        ConversionError::SeparatorNotFound
    );
    assert_eq!(
        Separator::from_text(", ").unwrap_err(),
        ConversionError::SeparatorNotFound
    );
    let odd = NumberCultureSettings::new("~", "!");
    assert_eq!(
        odd.to_separator_pair().unwrap_err(),
        ConversionError::SeparatorNotFound
    );
}

#[test]
fn test_culture_settings() {
    let en = NumberCultureSettings::english_culture();
    assert_eq!(en.thousand_separator, ",");
    assert_eq!(en.decimal_separator, ".");
    assert_eq!(en.to_thousand_separator(), Separator::COMMA);
    assert_eq!(en.to_decimal_separator(), Separator::DOT);
    let fr = NumberCultureSettings::french_culture();
    assert_eq!(fr.thousand_separator, " ");
    assert_eq!(fr.decimal_separator, ",");
    let it = NumberCultureSettings::italian_culture();
    assert_eq!(it.thousand_separator, ".");
    assert_eq!(it.decimal_separator, ",");
    let custom = NumberCultureSettings::new(".", ",");
    assert_eq!(custom.to_thousand_separator(), Separator::DOT);
    assert_eq!(custom.to_decimal_separator(), Separator::COMMA);
    assert_eq!(
        NumberCultureSettings::from_culture(Culture::French).thousand_separator,
        " "
    );
}

#[test]
fn test_empty_fraction_is_kept() {
    // the grouped decimal shape tolerates an empty fractional part
    let registry = NumberPatterns::default();
    let m = registry.match_text("1,000.", Some(Culture::English)).unwrap();
    assert_eq!(m.pattern.get_name(), "EN_Thousand_Separator_Decimal");
    let n = to_number("1,000.", &m).unwrap();
    assert_eq!(n.integer_digits, chars("1000"));
    assert_eq!(n.fractional_digits, Some(chars("")));
}
