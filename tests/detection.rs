use piicleaner::patterns::{
    self, category_list, str_equal, EMAIL_PATTERN, POSTCODE_PATTERN, TELEPHONE_PATTERN,
};
use piicleaner::{
    check_catalog, clean_pii, clean_pii_core, clean_pii_with_cleaners_core, clean_with_patterns,
    detect_pii, detect_pii_core, detect_pii_with_cleaners, detect_pii_with_cleaners_core,
    detect_with_patterns, get_all_patterns, get_available_cleaners, get_patterns_by_name,
    matches_of_spans, redact_spans, CatalogError, Cleaning, REPLACEMENT_NOTICE,
};

// The shipped catalog holds email, postcode and telephone patterns only. The National
// Insurance number (NINO) and cash-amount scenarios below run against an extended
// pattern list built here, in place of the catalog.
const NINO_PATTERN: &str = r"\b[A-CEGHJ-PR-TW-Z]{2}\d{6}[A-D]\b";
const CASH_AMOUNT_PATTERN: &str = r"£\d+(?:,\d{3})*(?:\.\d{2})?";

fn extended_catalog() -> Vec<&'static str> {
    vec![EMAIL_PATTERN, POSTCODE_PATTERN, TELEPHONE_PATTERN, NINO_PATTERN, CASH_AMOUNT_PATTERN]
}

fn detect_extended(text: &str) -> Vec<(usize, usize, String)> {
    detect_with_patterns(text, &extended_catalog()).unwrap()
}

fn clean_extended(text: &str, cleaning: &str) -> String {
    clean_with_patterns(text, cleaning, &extended_catalog()).unwrap()
}

#[test]
fn test_detect_pii_nino() {
    let text = "My NINO is AB123456C";
    let result = detect_extended(text);
    assert!(result.len() >= 1);
    let nino_match = result.iter().find(|&&(_, _, ref s)| s == "AB123456C");
    assert!(nino_match.is_some(), "NINO AB123456C should be detected");
    let (start, end, matched) = nino_match.unwrap();
    assert_eq!(*matched, "AB123456C");
    assert_eq!(*start, 11);
    assert_eq!(*end, 20);
}

#[test]
fn test_detect_pii_email() {
    let text = "Contact john@example.com for details";
    let result = detect_pii_core(text);
    assert!(result.len() >= 1);
    let email_match = result
        .iter()
        .find(|&&(_, _, ref s)| s == "john@example.com");
    assert!(
        email_match.is_some(),
        "Email john@example.com should be detected"
    );
}

#[test]
fn test_clean_pii_redact_mode() {
    let text = "My NINO is AB123456C";
    let result = clean_extended(text, "redact");
    println!("Redacted result: '{}'", result);
    assert!(!result.contains("AB123456C"));
    assert!(result.contains("-"));
    assert!(result.starts_with("My NINO is"));
}

#[test]
fn test_clean_pii_replace_mode() {
    let text = "My NINO is AB123456C";
    let result = clean_extended(text, "replace");
    assert_eq!(result, "[PII detected, comment redacted]");
}

#[test]
fn test_clean_pii_no_pii_found() {
    let text = "No sensitive data here at all";
    let redacted = clean_pii_core(text, "redact");
    let replaced = clean_pii_core(text, "replace");
    assert_eq!(redacted, text);
    assert_eq!(replaced, text);
}

#[test]
fn test_multiple_pii_types() {
    let text = "NINO AB123456C, email test@example.com, amount £1,500";
    let result = detect_extended(text);
    assert!(result.len() >= 3);
    let replaced = clean_extended(text, "replace");
    assert_eq!(replaced, "[PII detected, comment redacted]");
}

#[test]
fn test_specific_cleaners() {
    let text = "NINO AB123456C, email test@example.com";
    let email_only = detect_pii_with_cleaners_core(text, &["email"]);
    assert!(email_only.len() >= 1);
    let email_match = email_only
        .iter()
        .find(|&&(_, _, ref s)| s == "test@example.com");
    assert!(
        email_match.is_some(),
        "Email should be detected with email cleaner"
    );
    let nino_only = detect_with_patterns(text, &vec![NINO_PATTERN]).unwrap();
    assert_eq!(nino_only.len(), 1);
    assert_eq!(nino_only[0].2, "AB123456C");
}

#[test]
fn test_get_available_cleaners() {
    let registry = patterns::get_registry();
    let cleaners = registry.get_available_cleaners();
    assert!(cleaners.len() > 0);
}

#[test]
fn shipped_catalog_has_no_nino_pattern() {
    let text = "My NINO is AB123456C";
    assert!(detect_pii_core(text).is_empty());
    assert_eq!(clean_pii_core(text, "replace"), text);
    assert_eq!(clean_pii_core(text, "redact"), text);
}

#[test]
fn clean_text_is_left_alone_and_reports_nothing() {
    let text = "No sensitive data here";
    assert_eq!(clean_pii_core(text, "redact"), text);
    assert_eq!(clean_pii_core(text, "replace"), text);
    assert!(detect_pii_core(text).is_empty());
}

#[test]
fn replace_gives_text_or_notice() {
    for text in ["plain words", "mail me at a.b@example.org", ""] {
        let r = clean_pii_core(text, "replace");
        assert!(r == text || r == REPLACEMENT_NOTICE);
    }
    assert_eq!(clean_pii_core("mail me at a.b@example.org", "replace"), REPLACEMENT_NOTICE);
}

#[test]
fn redaction_keeps_span_lengths() {
    assert_eq!(clean_pii_core("Call 555-123-4567 now", "redact"), "Call ------------ now");
    assert_eq!(
        clean_pii_core("Write to ann@mail.co.uk today", "redact"),
        "Write to -------------- today"
    );
    let text = "NINO AB123456C, email test@example.com, amount £1,500";
    let r = clean_extended(text, "redact");
    assert_eq!(r.chars().count(), text.chars().count());
    assert_eq!(r, "NINO ---------, email ----------------, amount ------");
}

#[test]
fn redacting_twice_changes_nothing_more() {
    let text = "mail x@y.org, call 555.123.4567, post SW1A 1AA";
    let once = clean_pii_core(text, "redact");
    let twice = clean_pii_core(&once, "redact");
    assert_eq!(once, twice);
    assert_eq!(once, "mail -------, call ------------, post --------");
}

#[test]
fn one_category_reports_a_subset_of_all() {
    let text = "post SW1A 1AA, email test@example.com, call 555-123-4567";
    let all = detect_pii_core(text);
    let all_again = detect_pii_with_cleaners_core(text, &["all"]);
    assert_eq!(all, all_again);
    for name in ["email", "postcode", "telephone"] {
        let some = detect_pii_with_cleaners_core(text, &[name]);
        for m in &some {
            assert!(all.contains(m));
        }
    }
    let phones = detect_pii_with_cleaners_core(text, &["telephone"]);
    assert_eq!(phones, vec![(44, 56, "555-123-4567".to_string())]);
    assert_eq!(
        detect_pii_with_cleaners_core(text, &["email", "postcode", "telephone"]),
        all
    );
}

#[test]
fn scenario_replace_id() {
    assert_eq!(clean_extended("My ID is AB123456C", "replace"), "[PII detected, comment redacted]");
}

#[test]
fn scenario_redact_id() {
    let r = clean_extended("My ID is AB123456C", "redact");
    assert!(r.starts_with("My ID is "));
    assert!(!r.contains("AB123456C"));
    assert_eq!(r, "My ID is ---------");
}

#[test]
fn categories_are_stable() {
    let a = get_available_cleaners();
    let b = get_available_cleaners();
    assert!(!a.is_empty());
    assert_eq!(a, b);
    assert_eq!(a, vec!["email", "postcode", "telephone"]);
    assert_eq!(category_list(), a);
}

#[test]
fn matches_are_sorted_by_start_and_kept_per_category() {
    let text = "555-123-4567@mail.com and SW1A 1AA";
    let r = detect_pii_core(text);
    assert_eq!(
        r,
        vec![
            (0, 21, "555-123-4567@mail.com".to_string()),
            (0, 12, "555-123-4567".to_string()),
            (26, 34, "SW1A 1AA".to_string()),
        ]
    );
}

#[test]
fn earlier_patterns_take_priority_when_redacting() {
    let text = "id 555-123-4567@mail.com";
    assert_eq!(clean_pii_core(text, "redact"), "id ---------------------");
    let phone_only = clean_pii_with_cleaners_core(text, "redact", &["telephone"]);
    assert_eq!(phone_only, "id ------------@mail.com");
}

#[test]
fn offsets_count_characters() {
    let text = "é john@example.com";
    let r = detect_pii_core(text);
    assert_eq!(r, vec![(2, 18, "john@example.com".to_string())]);
    assert_eq!(clean_pii_core("café 555-123-4567", "redact"), "café ------------");
}

#[test]
fn unknown_policy_redacts() {
    assert_eq!(clean_pii_core("Call 555-123-4567", "scrub"), "Call ------------");
    assert_eq!(Cleaning::from_name("replace"), Cleaning::Replace);
    assert_eq!(Cleaning::from_name("redact"), Cleaning::Redact);
    assert_eq!(Cleaning::from_name("REPLACE"), Cleaning::Redact);
}

#[test]
fn pattern_selection_follows_catalog_order() {
    assert_eq!(get_patterns_by_name(&["telephone", "email"]), vec![EMAIL_PATTERN, TELEPHONE_PATTERN]);
    assert_eq!(get_patterns_by_name(&["bogus", "postcode"]), vec![POSTCODE_PATTERN]);
    assert!(get_patterns_by_name(&[]).is_empty());
    assert!(get_patterns_by_name(&["bogus"]).is_empty());
    assert_eq!(get_patterns_by_name(&["all"]), get_all_patterns());
    assert_eq!(get_patterns_by_name(&["all", "postcode"]), vec![POSTCODE_PATTERN]);
    assert_eq!(get_all_patterns(), vec![EMAIL_PATTERN, POSTCODE_PATTERN, TELEPHONE_PATTERN]);
    assert_eq!(
        get_all_patterns(),
        vec![
            r"\b[A-Za-z0-9._%+-]+@[A-Za-z0-9.-]+\.[A-Z|a-z]{2,}\b",
            r"\b[A-Z]{1,2}\d[A-Z\d]? ?\d[A-Z]{2}\b",
            r"\b\d{3}[-.]?\d{3}[-.]?\d{4}\b",
        ]
    );
}

#[test]
fn unknown_categories_select_nothing() {
    let text = "test@example.com";
    assert!(detect_pii_with_cleaners_core(text, &["nope"]).is_empty());
    assert_eq!(clean_pii_with_cleaners_core(text, "replace", &["nope"]), text);
    assert_eq!(clean_pii_with_cleaners_core(text, "redact", &[]), text);
}

#[test]
fn checked_entry_points_succeed_on_the_catalog() {
    assert_eq!(check_catalog(), Ok(()));
    let text = "Post to SW1A 1AA";
    assert_eq!(detect_pii(text).unwrap(), vec![(8, 16, "SW1A 1AA".to_string())]);
    assert_eq!(clean_pii(text, "redact").unwrap(), "Post to --------");
    assert_eq!(
        detect_pii_with_cleaners(text, &["email"]).unwrap(),
        Vec::<(usize, usize, String)>::new()
    );
}

#[test]
fn refused_pattern_is_reported_by_position() {
    let patterns = vec![EMAIL_PATTERN, "(unclosed", TELEPHONE_PATTERN];
    assert_eq!(detect_with_patterns("x", &patterns), Err(CatalogError::InvalidPattern(1)));
    assert_eq!(
        clean_with_patterns("x", "redact", &patterns),
        Err(CatalogError::InvalidPattern(1))
    );
}

#[test]
fn spans_become_matches() {
    let text = "Contact john@example.com for details";
    assert_eq!(
        matches_of_spans(text, &vec![(8, 24)]),
        vec![(8, 24, "john@example.com".to_string())]
    );
    let text = "é AB123456C";
    assert_eq!(matches_of_spans(text, &vec![(3, 12)]), vec![(2, 11, "AB123456C".to_string())]);
    assert!(matches_of_spans(text, &vec![]).is_empty());
}

#[test]
fn spans_are_redacted_in_place() {
    assert_eq!(redact_spans("My ID is AB123456C", &vec![(9, 18)]), "My ID is ---------");
    assert_eq!(redact_spans("ab cd ef", &vec![(0, 2), (6, 8)]), "-- cd --");
    assert_eq!(redact_spans("é é", &vec![(0, 2)]), "- é");
    assert_eq!(redact_spans("unchanged", &vec![]), "unchanged");
}

#[test]
fn string_comparison() {
    assert!(str_equal("all", "all"));
    assert!(!str_equal("all", "al"));
    assert!(!str_equal("é", "e"));
    assert!(str_equal("", ""));
}
