//! The code scanner's categories and the commit-subject rules.

use unai::rules::code::{apply_code_rules, CodeRule};
use unai::rules::Severity;

#[test]
fn code_section_header_detected() {
let findings = apply_code_rules("# --- Setup ---\nfn main() {}", &[CodeRule::Comments]);
assert!(findings.iter().any(|f| f.message.contains("Section header")));
}

#[test]
fn code_bare_todo_detected() {
let findings = apply_code_rules("# TODO: add error handling", &[CodeRule::Comments]);
assert!(findings.iter().any(|f| f.message.contains("Bare TODO")));
}

#[test]
fn code_naming_suffix_detected() {
let findings = apply_code_rules("let userManager = ...", &[CodeRule::Naming]);
assert!(findings.iter().any(|f| f.matched == "Manager"));
}

#[test]
fn code_severity_critical_for_bare_todo() {
let findings = apply_code_rules("# TODO: fix this", &[CodeRule::Comments]);
let f = findings.iter().find(|f| f.message.contains("Bare TODO")).unwrap();
assert_eq!(f.severity, Severity::Critical);
}

#[test]
fn code_severity_high_for_section_header() {
let findings = apply_code_rules("# --- Setup ---\nfn main() {}", &[CodeRule::Comments]);
let f = findings.iter().find(|f| f.message.contains("Section header")).unwrap();
assert_eq!(f.severity, Severity::High);
}

#[test]
fn code_severity_high_for_anemic_suffix() {
let findings = apply_code_rules("let userManager = ...", &[CodeRule::Naming]);
let f = findings.iter().find(|f| f.matched == "Manager").unwrap();
assert_eq!(f.severity, Severity::High);
}

#[test]
fn code_severity_medium_for_type_in_name() {
let findings = apply_code_rules("let userDataObject = ...", &[CodeRule::Naming]);
let f = findings.iter().find(|f| f.message.contains("Type-in-name")).unwrap();
assert_eq!(f.severity, Severity::Medium);
}

#[test]
fn commit_commit_past_tense_fires() {
let findings = apply_code_rules("Added authentication logic", &[CodeRule::Commits]);
assert!(
    findings.iter().any(|f| f.message.contains("imperative mood")),
    "past tense should fire, got: {:?}",
    findings.iter().map(|f| &f.message).collect::<Vec<_>>()
);
let f = findings.iter().find(|f| f.message.contains("imperative")).unwrap();
assert_eq!(f.severity, Severity::High);
}

#[test]
fn commit_commit_imperative_no_fire() {
let findings = apply_code_rules("Add authentication logic", &[CodeRule::Commits]);
assert!(
    !findings.iter().any(|f| f.message.contains("imperative mood")),
    "imperative mood should not fire for 'Add'"
);
}

#[test]
fn commit_commit_conventional_prefix_past_tense_fires() {
let findings = apply_code_rules("feat: added authentication logic", &[CodeRule::Commits]);
assert!(
    findings.iter().any(|f| f.message.contains("imperative mood")),
    "past tense should fire even with conventional commit prefix, got: {:?}",
    findings.iter().map(|f| &f.message).collect::<Vec<_>>()
);
}

#[test]
fn commit_commit_vague_scope_fires() {
let findings = apply_code_rules("Updated several files for release", &[CodeRule::Commits]);
assert!(
    findings.iter().any(|f| f.message.contains("Vague scope")),
    "vague scope should fire, got: {:?}",
    findings.iter().map(|f| &f.message).collect::<Vec<_>>()
);
}
