use number_patterns::Culture;
use number_patterns::CulturePattern;
use number_patterns::NumberPatterns;
use number_patterns::NumberType;
use number_patterns::ParsingPattern;
use number_patterns::PatternBody;
use number_patterns::RegexPattern;
use number_patterns::Separator;

#[test]
fn test_parsing_pattern_fr() {
    let optionnal_fr_pattern = NumberPatterns::default().get_culture_pattern(&Culture::French);

    //We need to have an fr pattern
    assert!(optionnal_fr_pattern.is_some());
    let fr_pattern = optionnal_fr_pattern.unwrap();
    assert_eq!(fr_pattern.get_name(), "fr");
    assert!(fr_pattern.get_patterns().len() > 0);
}

#[test]
fn test_parsing_pattern_en() {
    let optionnal_en_pattern = NumberPatterns::default().get_culture_pattern(&Culture::English);

    //We need to have an en pattern
    assert!(optionnal_en_pattern.is_some());
    let en_pattern = optionnal_en_pattern.unwrap();
    assert_eq!(en_pattern.get_name(), "en");
    assert!(en_pattern.get_patterns().len() > 0);
}

#[test]
fn test_parsing_pattern_it() {
    let optionnal_en_pattern = NumberPatterns::default().get_culture_pattern(&Culture::Italian);

    //We need to have an it pattern
    assert!(optionnal_en_pattern.is_some());
    let en_pattern = optionnal_en_pattern.unwrap();
    assert_eq!(en_pattern.get_name(), "it");
    assert!(en_pattern.get_patterns().len() > 0);
}

#[test]
fn test_all_culture_patterns_registered() {
    let registry = NumberPatterns::new();
    let groups = registry.get_all_culture_pattern();
    assert_eq!(groups.len(), 3);
    assert_eq!(groups[0].get_name(), "fr");
    assert_eq!(groups[1].get_name(), "en");
    assert_eq!(groups[2].get_name(), "it");
    for group in &groups {
        assert_eq!(group.get_patterns().len(), 4);
        assert_eq!(group.get_cultures().len(), 1);
    }
}

#[test]
fn test_common_and_math_patterns() {
    let registry = NumberPatterns::default();
    let common = registry.get_common_pattern();
    assert_eq!(common.len(), 1);
    assert_eq!(common[0].get_name(), "Common_Simple_Whole");
    assert_eq!(*common[0].get_number_type(), NumberType::WHOLE);
    assert!(registry.get_math_pattern().is_empty());
}

#[test]
fn test_add_patterns() {
    let mut registry = NumberPatterns::default();
    let extra = ParsingPattern::new(
        "Custom_Whole",
        RegexPattern::new(PatternBody::SimpleWhole),
        NumberType::WHOLE,
        None,
    );
    registry.add_common_pattern(extra.clone());
    assert_eq!(registry.get_common_pattern().len(), 2);
    registry.add_math_pattern(extra);
    assert_eq!(registry.get_math_pattern().len(), 1);

    let group = CulturePattern::new(
        "custom",
        vec![Culture::English],
        vec![ParsingPattern::new(
            "Custom_Grouped",
            RegexPattern::new(PatternBody::GroupedWhole { group: Separator::SPACE }),
            NumberType::WHOLE,
            None,
        )],
    );
    registry.add_culture_pattern(group);
    assert_eq!(registry.get_all_culture_pattern().len(), 4);
    // lookup still finds the first registered group claiming English
    let found = registry.get_culture_pattern(&Culture::English).unwrap();
    assert_eq!(found.get_name(), "en");
}

#[test]
fn test_regex_pattern_is_anchored() {
    let pattern = RegexPattern::new(PatternBody::SimpleWhole);
    assert!(pattern.is_match("1000"));
    assert!(pattern.is_match("-42"));
    assert!(pattern.is_match("+7"));
    // a partial digit run must not match: the matcher covers the whole input
    assert!(!pattern.is_match("10,2"));
    assert!(!pattern.is_match("10 abc"));
}
