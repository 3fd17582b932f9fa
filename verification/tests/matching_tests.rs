use number_patterns::Culture;
use number_patterns::NumberPatterns;
use number_patterns::NumberType;
use number_patterns::Sign;
use number_patterns::conversion::to_number;

fn chars(s: &str) -> Vec<char> {
    s.chars().collect()
}

#[test]
fn test_common_whole_all_cultures() {
    let registry = NumberPatterns::default();
    for text in ["1000", "-42", "+7"] {
        for hint in [
            None,
            Some(Culture::English),
            Some(Culture::French),
            Some(Culture::Italian),
        ] {
            let m = registry.match_text(text, hint).unwrap();
            assert_eq!(m.pattern.get_name(), "Common_Simple_Whole");
            assert_eq!(m.number_type, NumberType::WHOLE);
            let n = to_number(text, &m).unwrap();
            let unsigned = text.trim_start_matches(['+', '-']);
            assert_eq!(n.integer_digits, chars(unsigned));
            assert_eq!(n.fractional_digits, None);
            let expected_sign = if text.starts_with('-') {
                Sign::Negative
            } else {
                Sign::Positive
            };
            assert_eq!(n.sign, expected_sign);
        }
    }
}

#[test]
fn test_english_thousand_separator_decimal() {
    let registry = NumberPatterns::default();
    let m = registry.match_text("1,000.50", Some(Culture::English)).unwrap();
    assert_eq!(m.pattern.get_name(), "EN_Thousand_Separator_Decimal");
    assert_eq!(m.number_type, NumberType::DECIMAL);
    let n = to_number("1,000.50", &m).unwrap();
    assert_eq!(n.sign, Sign::Positive);
    assert_eq!(n.integer_digits, chars("1000"));
    assert_eq!(n.fractional_digits, Some(chars("50")));
}

#[test]
fn test_english_thousand_separator_whole() {
    let registry = NumberPatterns::default();
    let m = registry.match_text("1,000", Some(Culture::English)).unwrap();
    assert_eq!(m.pattern.get_name(), "EN_Thousand_Separator");
    assert_eq!(m.number_type, NumberType::WHOLE);
    let n = to_number("1,000", &m).unwrap();
    assert_eq!(n.integer_digits, chars("1000"));
    assert_eq!(n.fractional_digits, None);
}

#[test]
fn test_english_decimal_without_whole_part() {
    let registry = NumberPatterns::default();
    let m = registry.match_text(".25", Some(Culture::English)).unwrap();
    assert_eq!(m.pattern.get_name(), "EN_Decimal_Without_Whole_Part");
    let n = to_number(".25", &m).unwrap();
    assert_eq!(n.integer_digits, chars("0"));
    assert_eq!(n.fractional_digits, Some(chars("25")));
}

#[test]
fn test_french_thousand_separator_decimal() {
    let registry = NumberPatterns::default();
    let m = registry.match_text("1 000,50", Some(Culture::French)).unwrap();
    assert_eq!(m.pattern.get_name(), "FR_Thousand_Separator_Decimal");
    let n = to_number("1 000,50", &m).unwrap();
    // the same quantity as the English "1,000.50"
    assert_eq!(n.sign, Sign::Positive);
    assert_eq!(n.integer_digits, chars("1000"));
    assert_eq!(n.fractional_digits, Some(chars("50")));
}

#[test]
fn test_french_invalid_grouping_fails() {
    let registry = NumberPatterns::default();
    let err = registry.match_text("1 00", Some(Culture::French)).unwrap_err();
    assert_eq!(err.text, "1 00");
    assert_eq!(err.cultures, vec![Culture::French]);
}

#[test]
fn test_italian_thousand_separator_decimal() {
    let registry = NumberPatterns::default();
    let m = registry.match_text("1.000.000,23", Some(Culture::Italian)).unwrap();
    assert_eq!(m.pattern.get_name(), "IT_Thousand_Separator_Decimal");
    let n = to_number("1.000.000,23", &m).unwrap();
    assert_eq!(n.integer_digits, chars("1000000"));
    assert_eq!(n.fractional_digits, Some(chars("23")));
}

#[test]
fn test_ambiguous_dot_grouped_token() {
    let registry = NumberPatterns::default();
    // without a hint the first matching group in registration order wins:
    // no French pattern accepts "1.234", so the English simple decimal does
    let m = registry.match_text("1.234", None).unwrap();
    assert_eq!(m.pattern.get_name(), "EN_Decimal_Simple");
    let n = to_number("1.234", &m).unwrap();
    assert_eq!(n.integer_digits, chars("1"));
    assert_eq!(n.fractional_digits, Some(chars("234")));
    // an explicit Italian hint deterministically reads it as a grouped whole
    let m_it = registry.match_text("1.234", Some(Culture::Italian)).unwrap();
    assert_eq!(m_it.pattern.get_name(), "IT_Thousand_Separator");
    let n_it = to_number("1.234", &m_it).unwrap();
    assert_eq!(n_it.integer_digits, chars("1234"));
    assert_eq!(n_it.fractional_digits, None);
    // a French hint matches nothing: French groups by space
    assert!(registry.match_text("1.234", Some(Culture::French)).is_err());
}

#[test]
fn test_malformed_inputs_fail_everywhere() {
    let registry = NumberPatterns::default();
    for text in ["12,,34", "abc", ""] {
        for hint in [
            None,
            Some(Culture::English),
            Some(Culture::French),
            Some(Culture::Italian),
        ] {
            let r = registry.match_text(text, hint);
            assert!(r.is_err(), "{} should not match", text);
            let err = r.unwrap_err();
            assert_eq!(err.text, text);
        }
    }
}

#[test]
fn test_no_match_reports_all_cultures_without_hint() {
    let registry = NumberPatterns::default();
    let err = registry.match_text("abc", None).unwrap_err();
    assert_eq!(
        err.cultures,
        vec![Culture::French, Culture::English, Culture::Italian]
    );
}

#[test]
fn test_grouping_requires_blocks_of_three() {
    let registry = NumberPatterns::default();
    assert!(registry.match_text("1 000 000", Some(Culture::French)).is_ok());
    assert!(registry.match_text("1 000 00", Some(Culture::French)).is_err());
    assert!(registry.match_text("1,00", Some(Culture::English)).is_err());
    assert!(registry.match_text("1.0000", Some(Culture::Italian)).is_err());
}
