//! The gathering pipeline and the plain argument values the driver maps its
//! command line onto.

use unai::detector::Mode;
use unai::engine::{
    count_by_severity, gather_findings, parse_code_rules, resolve_mode, FormatArg, Formatter,
    MinSeverityArg, ModeArg,
};
use unai::rules::code::CodeRule;
use unai::rules::text::apply_text_rules;
use unai::rules::{Finding, Severity};

fn make_finding(severity: Severity) -> Finding {
    Finding {
        line: 1,
        col: 0,
        matched: "x".to_string(),
        message: "test".to_string(),
        replacement: None,
        severity,
    }
}

use unai::rules::clean;

#[test]
fn main_resolve_mode_explicit_text() {
assert_eq!(resolve_mode(&ModeArg::Text, None, "fn main() {}"), Mode::Text);
}

#[test]
fn main_resolve_mode_explicit_code() {
assert_eq!(resolve_mode(&ModeArg::Code, None, "hello world"), Mode::Code);
}

#[test]
fn main_resolve_mode_auto_code_by_filename() {
assert_eq!(resolve_mode(&ModeArg::Auto, Some("main.rs"), "hello"), Mode::Code);
}

#[test]
fn main_resolve_mode_auto_text_by_content() {
assert_eq!(resolve_mode(&ModeArg::Auto, None, "just prose here, nothing to see"), Mode::Text);
}

#[test]
fn main_parse_valid_rules() {
let rules = parse_code_rules(&["comments".to_string(), "naming".to_string()]).unwrap();
assert!(rules.contains(&CodeRule::Comments));
assert!(rules.contains(&CodeRule::Naming));
}

#[test]
fn main_parse_invalid_rule_errors() {
let result = parse_code_rules(&["bogus".to_string()]);
assert!(result.is_err());
}

#[test]
fn main_gather_findings_commit_msg_fires_commit_rules() {
let findings = gather_findings("wip", &Mode::CommitMsg, &[], None);
assert!(
    findings.iter().any(|f| f.message.contains("Vague commit")),
    "commit rules should fire for CommitMsg mode"
);
}

#[test]
fn main_gather_findings_commit_msg_fires_both_text_and_commit_rules() {
let findings = gather_findings("Added utilize to the codebase", &Mode::CommitMsg, &[], None);
assert!(
    findings.iter().any(|f| f.matched.to_lowercase().contains("utilize")),
    "text rules should fire in CommitMsg mode"
);
assert!(
    findings.iter().any(|f| f.message.contains("imperative mood")),
    "commit past-tense rule should fire in CommitMsg mode"
);
}

#[test]
fn main_min_severity_filters_low() {
let findings = apply_text_rules("Certainly! In order to proceed.");
let min_rank = Severity::High.rank();
let filtered: Vec<_> = findings.into_iter().filter(|f| f.severity.rank() >= min_rank).collect();
assert!(filtered.iter().any(|f| f.matched.to_lowercase() == "certainly!"));
assert!(!filtered.iter().any(|f| f.matched.to_lowercase() == "in order to"));
}

#[test]
fn main_min_severity_arg_converts_correctly() {
assert_eq!(MinSeverityArg::Critical.as_severity().rank(), 3);
assert_eq!(MinSeverityArg::High.as_severity().rank(), 2);
assert_eq!(MinSeverityArg::Medium.as_severity().rank(), 1);
assert_eq!(MinSeverityArg::Low.as_severity().rank(), 0);
}

#[test]
fn main_count_by_severity_counts_correctly() {
let findings = vec![
    make_finding(Severity::Critical),
    make_finding(Severity::Critical),
    make_finding(Severity::High),
];
assert_eq!(count_by_severity(&findings, Severity::Critical), 2);
assert_eq!(count_by_severity(&findings, Severity::High), 1);
assert_eq!(count_by_severity(&findings, Severity::Low), 0);
}

#[test]
fn main_formatter_from_args_selects_json() {
assert!(
    matches!(Formatter::from_args(&FormatArg::Json), Formatter::Json),
    "FormatArg::Json must map to Formatter::Json"
);
}

#[test]
fn main_formatter_from_args_selects_text() {
assert!(
    matches!(Formatter::from_args(&FormatArg::Text), Formatter::Text),
    "FormatArg::Text must map to Formatter::Text"
);
}

#[test]
fn main_end_to_end_text_clean() {
let input = "We should utilize this to facilitate growth.\n";
let findings = apply_text_rules(input);
let cleaned = clean(input, &findings);
assert!(!cleaned.contains("utilize"), "utilize should be replaced");
assert!(!cleaned.contains("facilitate"), "facilitate should be replaced");
assert!(cleaned.ends_with('\n'));
}

#[test]
fn tests_resolve_mode_explicit_text() {
assert_eq!(resolve_mode(&ModeArg::Text, None, "fn main() {}"), Mode::Text);
}

#[test]
fn tests_resolve_mode_explicit_code() {
assert_eq!(resolve_mode(&ModeArg::Code, None, "hello world"), Mode::Code);
}

#[test]
fn tests_resolve_mode_auto_code_by_filename() {
assert_eq!(resolve_mode(&ModeArg::Auto, Some("main.rs"), "hello"), Mode::Code);
}

#[test]
fn tests_resolve_mode_auto_text_by_content() {
assert_eq!(resolve_mode(&ModeArg::Auto, None, "just prose here, nothing to see"), Mode::Text);
}

#[test]
fn tests_parse_valid_rules() {
let rules = parse_code_rules(&["comments".to_string(), "naming".to_string()]).unwrap();
assert!(rules.contains(&CodeRule::Comments));
assert!(rules.contains(&CodeRule::Naming));
}

#[test]
fn tests_parse_invalid_rule_errors() {
let result = parse_code_rules(&["bogus".to_string()]);
assert!(result.is_err());
}

#[test]
fn tests_gather_findings_commit_msg_fires_commit_rules() {
let findings = gather_findings("wip", &Mode::CommitMsg, &[], None);
assert!(
    findings.iter().any(|f| f.message.contains("Vague commit")),
    "commit rules should fire for CommitMsg mode"
);
}

#[test]
fn tests_gather_findings_commit_msg_fires_both_text_and_commit_rules() {
let findings = gather_findings("Added utilize to the codebase", &Mode::CommitMsg, &[], None);
assert!(
    findings.iter().any(|f| f.matched.to_lowercase().contains("utilize")),
    "text rules should fire in CommitMsg mode"
);
assert!(
    findings.iter().any(|f| f.message.contains("imperative mood")),
    "commit past-tense rule should fire in CommitMsg mode"
);
}

#[test]
fn tests_min_severity_filters_low() {
let findings = apply_text_rules("Certainly! In order to proceed.");
let min_rank = Severity::High.rank();
let filtered: Vec<_> = findings.into_iter().filter(|f| f.severity.rank() >= min_rank).collect();
assert!(filtered.iter().any(|f| f.matched.to_lowercase() == "certainly!"));
assert!(!filtered.iter().any(|f| f.matched.to_lowercase() == "in order to"));
}

#[test]
fn tests_min_severity_arg_converts_correctly() {
assert_eq!(MinSeverityArg::Critical.as_severity().rank(), 3);
assert_eq!(MinSeverityArg::High.as_severity().rank(), 2);
assert_eq!(MinSeverityArg::Medium.as_severity().rank(), 1);
assert_eq!(MinSeverityArg::Low.as_severity().rank(), 0);
}

#[test]
fn tests_count_by_severity_counts_correctly() {
let findings = vec![
    make_finding(Severity::Critical),
    make_finding(Severity::Critical),
    make_finding(Severity::High),
];
assert_eq!(count_by_severity(&findings, Severity::Critical), 2);
assert_eq!(count_by_severity(&findings, Severity::High), 1);
assert_eq!(count_by_severity(&findings, Severity::Low), 0);
}

#[test]
fn tests_formatter_from_args_selects_json() {
assert!(
    matches!(Formatter::from_args(&FormatArg::Json), Formatter::Json),
    "FormatArg::Json must map to Formatter::Json"
);
}

#[test]
fn tests_formatter_from_args_selects_text() {
assert!(
    matches!(Formatter::from_args(&FormatArg::Text), Formatter::Text),
    "FormatArg::Text must map to Formatter::Text"
);
}

#[test]
fn tests_end_to_end_text_clean() {
let input = "We should utilize this to facilitate growth.\n";
let findings = apply_text_rules(input);
let cleaned = clean(input, &findings);
assert!(!cleaned.contains("utilize"), "utilize should be replaced");
assert!(!cleaned.contains("facilitate"), "facilitate should be replaced");
assert!(cleaned.ends_with('\n'));
}
