//! The text, structural, commit and code scanners, exercised through the
//! public scan functions.

use unai::rules::code::{apply_code_rules, CodeRule};
use unai::rules::structural::apply_structural_rules;
use unai::rules::text::apply_text_rules;
use unai::rules::{apply_case, clean, Severity};

#[test]
fn text_finds_utilize() {
let findings = apply_text_rules("We should utilize this approach.");
assert!(findings.iter().any(|f| f.matched.to_lowercase() == "utilize"));
}

#[test]
fn text_finds_sycophantic_opener() {
let findings = apply_text_rules("Certainly! Here is the answer.");
assert!(findings.iter().any(|f| f.matched.to_lowercase() == "certainly!"));
}

#[test]
fn text_apply_case_preserves_capital() {
assert_eq!(apply_case("Utilize", "use"), "Use");
assert_eq!(apply_case("utilize", "use"), "use");
}

#[test]
fn text_severity_critical_for_sycophantic() {
let findings = apply_text_rules("Certainly! Here is the answer.");
let f = findings.iter().find(|f| f.matched.to_lowercase() == "certainly!").unwrap();
assert_eq!(f.severity, Severity::Critical);
}

#[test]
fn text_severity_high_for_buzzword() {
let findings = apply_text_rules("We are leveraging new tech.");
let f = findings.iter().find(|f| f.matched.to_lowercase() == "leveraging").unwrap();
assert_eq!(f.severity, Severity::High);
}

#[test]
fn text_severity_low_for_filler_connector() {
let findings = apply_text_rules("Moreover, this is good.");
let f = findings.iter().find(|f| f.matched.to_lowercase() == "moreover").unwrap();
assert_eq!(f.severity, Severity::Low);
}

#[test]
fn text_severity_low_for_filler_phrase() {
let findings = apply_text_rules("In order to proceed, do this.");
let f = findings.iter().find(|f| f.matched.to_lowercase() == "in order to").unwrap();
assert_eq!(f.severity, Severity::Low);
}

#[test]
fn text_code_block_not_flagged() {
let input = "Some prose.\n```\nutilize this approach.\n```\nEnd.\n";
let findings = apply_text_rules(input);
assert!(
    findings.iter().all(|f| f.matched.to_lowercase() != "utilize"),
    "utilize inside fenced block should not be flagged"
);
}

#[test]
fn text_url_line_not_flagged() {
let input = "https://example.com/utilize-this-comprehensive-guide";
let findings = apply_text_rules(input);
assert!(findings.is_empty(), "bare URL line should produce no findings");
}

#[test]
fn text_inline_code_not_flagged() {
let input = "Call `utilize` to proceed.";
let findings = apply_text_rules(input);
assert!(
    findings.iter().all(|f| f.matched.to_lowercase() != "utilize"),
    "utilize inside backtick span should not be flagged"
);
}

#[test]
fn text_pivotale_unchanged() {
let f = apply_text_rules("C'est une d\u{e9}cision pivotale.");
assert!(
    f.is_empty(),
    "pivotale should not be flagged, got: {:?}",
    f.iter().map(|x| &x.matched).collect::<Vec<_>>()
);
}

#[test]
fn text_delves_fires() {
let f = apply_text_rules("She delves into the topic.");
assert!(!f.is_empty(), "delves should be flagged as LLM tell");
assert!(f.iter().any(|x| x.matched.to_lowercase().contains("delve")));
}

#[test]
fn text_utilization_unchanged() {
let f = apply_text_rules("Memory utilization is 80%.");
assert!(f.is_empty(), "utilization should not be flagged");
}

#[test]
fn text_notably_in_notable_unchanged() {
let f = apply_text_rules("The notable result stands.");
assert!(f.is_empty(), "notable should not be flagged");
}

#[test]
fn text_spanish_notable_unchanged() {
let input = "El resultado es notable.";
let f = apply_text_rules(input);
assert!(f.is_empty(), "Spanish 'notable' should not be flagged");
}

#[test]
fn text_french_passthrough() {
let input = "Le r\u{e9}sultat est remarquable.";
let f = apply_text_rules(input);
assert!(f.is_empty());
}

#[test]
fn text_fenced_with_info_string_unchanged() {
let input = "```python\nutilize this\n```";
let f = apply_text_rules(input);
assert!(
    f.iter().all(|x| x.matched.to_lowercase() != "utilize"),
    "utilize inside ```python block should not be flagged"
);
}

#[test]
fn text_empty_input() {
assert!(apply_text_rules("").is_empty());
}

#[test]
fn text_severity_rank_strictly_ordered() {
assert!(Severity::Critical.rank() > Severity::High.rank());
assert!(Severity::High.rank() > Severity::Medium.rank());
assert!(Severity::Medium.rank() > Severity::Low.rank());
}

#[test]
fn text_min_severity_critical_excludes_high() {
let findings = apply_text_rules("Certainly! We are leveraging new tech.");
let min_rank = Severity::Critical.rank();
let filtered: Vec<_> = findings.iter().filter(|f| f.severity.rank() >= min_rank).collect();
assert!(filtered.iter().any(|f| f.matched.to_lowercase() == "certainly!"));
assert!(!filtered.iter().any(|f| f.matched.to_lowercase() == "leveraging"));
}

#[test]
fn text_unicode_prefix_blocks_match() {
let f = apply_text_rules("Cette d\u{e9}cision \u{e9}pivotale est importante.");
assert!(
    f.iter().all(|x| x.matched.to_lowercase() != "pivotal"),
    "pivotal inside unicode-prefixed word should not fire"
);
}

#[test]
fn text_unclosed_backtick_span_not_flagged() {
let input = "Call `utilize to proceed.";
let f = apply_text_rules(input);
assert!(
    f.iter().all(|x| x.matched.to_lowercase() != "utilize"),
    "unclosed backtick: conservative \u{2014} utilize should not be flagged"
);
}

#[test]
fn text_finds_showcasing() {
let findings = apply_text_rules("This work showcasing the results.");
assert!(findings.iter().any(|f| f.matched.to_lowercase() == "showcasing"));
let f = findings.iter().find(|f| f.matched.to_lowercase() == "showcasing").unwrap();
assert_eq!(f.severity, Severity::High);
}

#[test]
fn text_finds_meticulous() {
let findings = apply_text_rules("The meticulous analysis was thorough.");
assert!(findings.iter().any(|f| f.matched.to_lowercase() == "meticulous"));
let f = findings.iter().find(|f| f.matched.to_lowercase() == "meticulous").unwrap();
assert_eq!(f.severity, Severity::High);
}

#[test]
fn text_finds_realm() {
let findings = apply_text_rules("In the realm of computing.");
assert!(findings.iter().any(|f| f.matched.to_lowercase() == "realm"));
}

#[test]
fn text_finds_intricate() {
let findings = apply_text_rules("The intricate details matter.");
assert!(findings.iter().any(|f| f.matched.to_lowercase() == "intricate"));
}

#[test]
fn text_finds_happy_to_help() {
let findings = apply_text_rules("I'd be happy to help you with that.");
assert!(findings.iter().any(|f| f.message.contains("Sycophantic")));
}

#[test]
fn text_applies_fix_utilize() {
let content = "We should utilize this.";
let findings = apply_text_rules(content);
let cleaned = clean(content, &findings);
assert!(cleaned.contains("use"), "Expected 'use', got: {}", cleaned);
assert!(!cleaned.contains("utilize"));
}

#[test]
fn text_clean_two_replacements_same_line() {
let input = "utilize and facilitate this.";
let findings = apply_text_rules(input);
let cleaned = clean(input, &findings);
assert_eq!(cleaned, "use and help this.", "both replacements must be applied correctly, got: {}", cleaned);
}

#[test]
fn text_preserves_trailing_newline() {
let content = "utilize this.\n";
let findings = apply_text_rules(content);
let cleaned = clean(content, &findings);
assert!(cleaned.ends_with('\n'));
}

#[test]
fn text_commencement_unchanged() {
let input = "The commencement ceremony starts now.";
let f = apply_text_rules(input);
let cleaned = clean(input, &f);
assert_eq!(cleaned, input, "commencement should not be mangled");
}

#[test]
fn text_banned_outside_backtick_fixed() {
let input = "Use `foo` and utilize bar.";
let f = apply_text_rules(input);
let cleaned = clean(input, &f);
assert!(cleaned.contains("use bar"), "prose utilize should be fixed, got: {}", cleaned);
assert!(cleaned.contains("`foo`"), "backtick span preserved, got: {}", cleaned);
}

#[test]
fn text_all_caps_utilize_known_behaviour() {
let input = "UTILIZE this.";
let f = apply_text_rules(input);
let cleaned = clean(input, &f);
assert_eq!(cleaned, "Use this.", "all-caps: first char uppercased, rest from replacement");
}

#[test]
fn text_multiple_banned_words() {
let input = "utilize and leveraging this.";
let f = apply_text_rules(input);
let cleaned = clean(input, &f);
assert!(cleaned.contains("use") && cleaned.contains("using"), "got: {}", cleaned);
}

#[test]
fn text_double_backtick_span_not_flagged() {
let input = "Call ``utilize`` to proceed.";
let f = apply_text_rules(input);
let _ = clean(input, &f);
}
