use writer::nlp::{
    builtin_patterns, is_word_char, scan_style_matches, PatternCategory, PatternMatcher,
    StyleCategorySettings, StylePattern, StylePatternInput, StyleScanInput, TextIndex,
};

fn matcher(patterns: &[(&str, PatternCategory)]) -> PatternMatcher {
    PatternMatcher::new(
        patterns
            .iter()
            .map(|(text, category)| StylePattern {
                text: (*text).to_string(),
                category: *category,
                replacement: None,
            })
            .collect(),
    )
}

#[test]
fn scans_single_word_patterns() {
    let matcher = matcher(&[
        ("basically", PatternCategory::Filler),
        ("actually", PatternCategory::Filler),
    ]);

    let matches = matcher.scan("This is basically just a test actually");

    assert_eq!(matches.len(), 2);
    assert_eq!(matches[0].from, 8);
    assert_eq!(matches[0].to, 17);
    assert_eq!(matches[1].from, 30);
    assert_eq!(matches[1].to, 38);
}

#[test]
fn scans_multi_word_patterns() {
    let matcher = matcher(&[
        ("in order to", PatternCategory::Redundancy),
        ("at this point in time", PatternCategory::Redundancy),
    ]);

    let matches = matcher.scan("We need to act in order to succeed. At this point in time, we are ready.");

    assert_eq!(matches.len(), 2);
    assert_eq!(matches[0].from, 15);
    assert_eq!(matches[1].from, 36);
}

#[test]
fn respects_word_boundaries() {
    let matcher = matcher(&[("just", PatternCategory::Filler)]);

    let matches = matcher.scan("This is just a test. Justice is important. Adjusting takes time.");

    assert_eq!(matches.len(), 1);
    assert_eq!(matches[0].from, 8);
    assert_eq!(matches[0].to, 12);
}

#[test]
fn respects_unicode_word_boundaries() {
    let matcher = matcher(&[("just", PatternCategory::Filler)]);

    let text = "\u{e9}just should not match, but just should.";
    let matches = matcher.scan(text);
    let expected_start = text
        .split_once("just should.")
        .map(|(prefix, _)| prefix.encode_utf16().count())
        .unwrap_or(0);

    assert_eq!(matches.len(), 1);
    assert_eq!(matches[0].from, expected_start);
}

#[test]
fn is_case_insensitive() {
    let matcher = matcher(&[("basically", PatternCategory::Filler)]);

    let matches = matcher.scan("This is BASICALLY a test. Basically speaking.");

    assert_eq!(matches.len(), 2);
}

#[test]
fn supports_overlapping_patterns() {
    let matcher = matcher(&[
        ("at the", PatternCategory::Filler),
        ("at the end of the day", PatternCategory::Cliche),
    ]);

    let matches = matcher.scan("At the end of the day, we won.");

    assert_eq!(matches.len(), 2);
    assert_eq!(matches[0].from, 0);
    assert_eq!(matches[1].from, 0);
}

#[test]
fn deduplicates_identical_matches() {
    let matcher = PatternMatcher::new(vec![
        StylePattern { text: "actually".to_string(), category: PatternCategory::Filler, replacement: None },
        StylePattern { text: "actually".to_string(), category: PatternCategory::Filler, replacement: None },
    ]);

    let matches = matcher.scan("actually");

    assert_eq!(matches.len(), 1);
    assert_eq!(matches[0].from, 0);
    assert_eq!(matches[0].to, 8);
}

#[test]
fn reports_utf16_ranges_for_multibyte_characters() {
    let matcher = matcher(&[("just", PatternCategory::Filler)]);

    let matches = matcher.scan("a\u{1f642}just");

    assert_eq!(matches.len(), 1);
    assert_eq!(matches[0].from, 3);
    assert_eq!(matches[0].to, 7);
}

#[test]
fn style_scan_uses_builtins_and_custom_patterns() {
    let matches = scan_style_matches(&StyleScanInput {
        text: "Basically we act in order to ship, and we may beat around the bush.".to_string(),
        categories: StyleCategorySettings { filler: true, redundancy: true, cliche: true },
        custom_patterns: vec![],
    });

    assert!(matches.iter().any(|m| m.category == PatternCategory::Filler));
    assert!(matches.iter().any(|m| m.category == PatternCategory::Redundancy));
    assert!(matches.iter().any(|m| m.category == PatternCategory::Cliche));
}

#[test]
fn style_scan_ignores_invalid_custom_categories() {
    let matches = scan_style_matches(&StyleScanInput {
        text: "A unique phrase.".to_string(),
        categories: StyleCategorySettings::default(),
        custom_patterns: vec![StylePatternInput {
            text: "unique phrase".to_string(),
            category: "unknown".to_string(),
            replacement: None,
        }],
    });

    assert!(matches.is_empty());
}

#[test]
fn style_scan_applies_custom_patterns_even_when_builtin_category_disabled() {
    let matches = scan_style_matches(&StyleScanInput {
        text: "Actually we can proceed.".to_string(),
        categories: StyleCategorySettings { filler: false, redundancy: false, cliche: false },
        custom_patterns: vec![StylePatternInput {
            text: "actually".to_string(),
            category: "filler".to_string(),
            replacement: Some("".to_string()),
        }],
    });

    assert_eq!(matches.len(), 1);
    assert_eq!(matches[0].category, PatternCategory::Filler);
}

#[test]
fn style_scan_reports_replacements_and_exact_ranges() {
    let matches = scan_style_matches(&StyleScanInput {
        text: "We met in order to talk.".to_string(),
        categories: StyleCategorySettings { filler: false, redundancy: true, cliche: false },
        custom_patterns: vec![StylePatternInput {
            text: "  Talk ".to_string(),
            category: " Cliche ".to_string(),
            replacement: None,
        }],
    });
    assert_eq!(matches.len(), 2);
    assert_eq!((matches[0].from, matches[0].to), (7, 18));
    assert_eq!(matches[0].category, PatternCategory::Redundancy);
    assert_eq!(matches[0].replacement, Some("to".to_string()));
    assert_eq!((matches[1].from, matches[1].to), (19, 23));
    assert_eq!(matches[1].category, PatternCategory::Cliche);
}

#[test]
fn matches_with_equal_ranges_are_sorted_by_category_name() {
    let matcher = PatternMatcher::new(vec![
        StylePattern { text: "word".to_string(), category: PatternCategory::Redundancy, replacement: None },
        StylePattern { text: "word".to_string(), category: PatternCategory::Cliche, replacement: None },
        StylePattern { text: "word".to_string(), category: PatternCategory::Filler, replacement: None },
    ]);
    let matches = matcher.scan("word");
    let categories: Vec<PatternCategory> = matches.iter().map(|m| m.category).collect();
    assert_eq!(
        categories,
        vec![PatternCategory::Cliche, PatternCategory::Filler, PatternCategory::Redundancy]
    );
}

#[test]
fn empty_patterns_and_empty_text_give_nothing() {
    let blank = matcher(&[("   ", PatternCategory::Filler)]);
    assert!(blank.patterns.is_empty());
    assert!(blank.scan("anything").is_empty());
    let one = matcher(&[("x", PatternCategory::Filler)]);
    assert!(one.scan("").is_empty());
}

#[test]
fn pattern_category_names() {
    assert_eq!(PatternCategory::Filler.as_str(), "filler");
    assert_eq!(PatternCategory::Redundancy.as_str(), "redundancy");
    assert_eq!(PatternCategory::Cliche.as_str(), "cliche");
    assert_eq!(PatternCategory::from_raw("cliche"), Some(PatternCategory::Cliche));
    assert_eq!(PatternCategory::from_raw("Cliche"), None);
    let settings = StyleCategorySettings { filler: true, redundancy: false, cliche: true };
    assert!(settings.allows(PatternCategory::Filler));
    assert!(!settings.allows(PatternCategory::Redundancy));
}

#[test]
fn builtin_patterns_come_in_three_groups() {
    let all = builtin_patterns();
    assert_eq!(all.len(), 36);
    assert!(all[..12].iter().all(|p| p.category == PatternCategory::Filler));
    assert!(all[12..24].iter().all(|p| p.category == PatternCategory::Redundancy));
    assert!(all[24..].iter().all(|p| p.category == PatternCategory::Cliche));
    assert_eq!(all[12].replacement, Some("to".to_string()));
}

#[test]
fn text_index_maps_byte_offsets() {
    let index = TextIndex::build("a\u{e9}\u{1f642}z");
    assert_eq!(index.utf16_offset(0), Some(0));
    assert_eq!(index.utf16_offset(1), Some(1));
    assert_eq!(index.utf16_offset(2), None);
    assert_eq!(index.utf16_offset(3), Some(2));
    assert_eq!(index.utf16_offset(7), Some(4));
    assert_eq!(index.utf16_offset(8), Some(5));
    assert_eq!(index.utf16_offset(9), None);
    assert_eq!(index.prev_char(0), None);
    assert_eq!(index.prev_char(1), Some('a'));
    assert_eq!(index.next_char(1), Some('\u{e9}'));
    assert_eq!(index.next_char(8), None);
    assert_eq!(index.next_char(2), None);
    assert!(is_word_char('a') && is_word_char('7') && is_word_char('\u{e9}'));
    assert!(!is_word_char(' ') && !is_word_char('-'));
}
