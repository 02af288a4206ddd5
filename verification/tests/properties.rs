//! End-to-end scenarios: exact findings and cleaned buffers, the curated rule
//! table, filtering, and the configuration validation errors.

use std::collections::HashSet;
use unai::config::{Config, IgnoreConfig, UserRule};
use unai::detector::Mode;
use unai::engine::{gather_findings, parse_code_rules};
use unai::rules::code::{apply_code_rules, CodeRule};
use unai::rules::ignore::collect_ignored_lines;
use unai::rules::structural::apply_structural_rules;
use unai::rules::text::{apply_text_rules, text_rules};
use unai::rules::{apply_case, clean, filter_findings, Finding, Severity};

// --- auto-fix replacement, exactly one finding with exact fields ---
#[test]
fn autofix_utilize_exact_finding() {
    let input = "We should utilize this approach.\n";
    let findings = gather_findings(input, &Mode::Text, &[], None);
    assert_eq!(findings.len(), 1);
    let f = &findings[0];
    assert_eq!(f.line, 1);
    assert_eq!(f.col, 10);
    assert_eq!(f.matched, "utilize");
    assert_eq!(f.replacement.as_deref(), Some("use"));
    assert_eq!(f.severity, Severity::High);
    let cleaned = clean(input, &findings);
    assert_eq!(cleaned, "We should use this approach.\n");
}

// --- casing preservation ---
#[test]
fn casing_preserved_on_fix() {
    let input = "Utilize this.\n";
    let findings = apply_text_rules(input);
    let f = findings.iter().find(|f| f.matched.to_lowercase() == "utilize").unwrap();
    assert_eq!(f.matched, "Utilize");
    let cleaned = clean(input, &findings);
    assert_eq!(cleaned, "Use this.\n");
}

// --- backtick guard: only the prose occurrence fires and is fixed ---
#[test]
fn backtick_guard_exact() {
    let input = "Use `utilize` and utilize bar.\n";
    let findings = apply_text_rules(input);
    assert_eq!(findings.len(), 1);
    assert_eq!(findings[0].col, 18);
    let cleaned = clean(input, &findings);
    assert_eq!(cleaned, "Use `utilize` and use bar.\n");
}

// --- fenced block suppresses everything ---
#[test]
fn fenced_block_suppresses_all() {
    let input = "Pre.\n```\nutilize this\n```\nPost.\n";
    let findings = gather_findings(input, &Mode::Text, &[], None);
    assert!(findings.is_empty());
}

// --- commit past tense with conventional-commit prefix ---
#[test]
fn commit_prefix_past_tense() {
    let findings = apply_code_rules("feat: added authentication\n", &[CodeRule::Commits]);
    let f = findings.iter().find(|f| f.message.contains("imperative mood")).unwrap();
    assert_eq!(f.line, 1);
    assert_eq!(f.severity, Severity::High);
    assert_eq!(f.matched, "added");
}

// --- connector density carries the count ---
#[test]
fn connector_density_count_in_matched() {
    let para = "Moreover, X. Furthermore, Y. Additionally, Z.";
    let findings = apply_structural_rules(para);
    let f = findings.iter().find(|f| f.message.contains("connector density")).unwrap();
    assert_eq!(f.severity, Severity::High);
    assert!(f.matched.contains("3"), "matched should carry the count, got: {}", f.matched);
    assert_eq!(f.matched, "3 discourse connectors");
}

// --- sentence-length uniformity: exact standard deviation rendering ---
#[test]
fn uniform_sentences_exact_stddev() {
    let para = "one two three four five six. one two three four five six. \
                one two three four five six. one two three four five six.";
    let findings = apply_structural_rules(para);
    let f = findings.iter().find(|f| f.message.contains("Uniform sentence length")).unwrap();
    assert_eq!(f.severity, Severity::Medium);
    assert_eq!(f.matched, "stddev=0.0");
}

// --- ignore block: nothing survives the filter ---
#[test]
fn ignore_block_filters_everything() {
    let input = "<!-- unai-ignore -->\nCertainly!\n<!-- /unai-ignore -->\n";
    let findings = gather_findings(input, &Mode::Text, &[], None);
    let ignored = collect_ignored_lines(input);
    let words: Vec<String> = Vec::new();
    let surviving = filter_findings(findings, &words, &ignored, Severity::Low);
    assert!(surviving.is_empty());
}

// --- hand-crafted finding with line 0 leaves the input alone ---
#[test]
fn line_zero_finding_is_ignored() {
    let f = Finding {
        line: 0,
        col: 0,
        matched: "whatever".to_string(),
        message: "crafted".to_string(),
        replacement: Some("boom".to_string()),
        severity: Severity::Low,
    };
    let input = "The sky is blue.\n";
    assert_eq!(clean(input, &[f]), input);
}

// --- the rule table is curated: no replacement re-introduces a match ---
#[test]
fn replacements_introduce_no_new_matches() {
    for rule in text_rules() {
        if let Some(rep) = &rule.replacement {
            let refound = apply_text_rules(rep);
            assert!(
                refound.is_empty(),
                "replacement {:?} for needle {:?} matches the table again",
                rep,
                rule.needle
            );
        }
    }
}

// --- cleaning is idempotent on ordinary prose ---
#[test]
fn clean_is_idempotent_on_samples() {
    let samples = [
        "We should utilize this approach.\n",
        "Utilize and facilitate this, then delve deeper.\n",
        "Moreover, we could potentially streamline it.\n",
        "plain text with nothing to flag\n",
    ];
    for input in samples {
        let once = clean(input, &apply_text_rules(input));
        let twice = clean(&once, &apply_text_rules(&once));
        assert_eq!(twice, once, "cleaning must settle after one pass for {:?}", input);
    }
}

// --- trailing newline preserved both ways ---
#[test]
fn trailing_newline_faithful() {
    let with_nl = "delve into utilize.\n";
    let without_nl = "delve into utilize.";
    assert!(clean(with_nl, &apply_text_rules(with_nl)).ends_with('\n'));
    assert!(!clean(without_nl, &apply_text_rules(without_nl)).ends_with('\n'));
}

// --- min-severity filter keeps exactly the high-ranking findings ---
#[test]
fn min_severity_filter_exact() {
    let input = "Certainly! In order to proceed, utilize it.\n";
    let findings = apply_text_rules(input);
    let words: Vec<String> = Vec::new();
    let ignored: HashSet<usize> = HashSet::new();
    let kept = filter_findings(findings.clone(), &words, &ignored, Severity::High);
    let expect: Vec<&Finding> = findings
        .iter()
        .filter(|f| f.severity.rank() >= Severity::High.rank())
        .collect();
    assert_eq!(kept.len(), expect.len());
    for (a, b) in kept.iter().zip(expect.iter()) {
        assert_eq!(a.matched, b.matched);
        assert_eq!(a.line, b.line);
        assert_eq!(a.col, b.col);
    }
}

// --- ignored words are compared lowercased ---
#[test]
fn ignored_words_filter_matches() {
    let input = "Utilize this robust tool.\n";
    let findings = apply_text_rules(input);
    let words = vec!["utilize".to_string()];
    let ignored: HashSet<usize> = HashSet::new();
    let kept = filter_findings(findings, &words, &ignored, Severity::Low);
    assert!(kept.iter().all(|f| f.matched.to_lowercase() != "utilize"));
    assert!(kept.iter().any(|f| f.matched.to_lowercase() == "robust"));
}

// --- multi-byte prefixes shift byte columns, not character semantics ---
#[test]
fn multibyte_prefix_byte_column() {
    let input = "\u{e9} utilize.\n";
    let findings = apply_text_rules(input);
    assert_eq!(findings.len(), 1);
    assert_eq!(findings[0].col, 3);
    assert_eq!(findings[0].matched, "utilize");
    assert_eq!(clean(input, &findings), "\u{e9} use.\n");
}

// --- configuration validation errors ---
#[test]
fn validate_rejects_bad_version() {
    let cfg = Config { version: 99, rules: vec![], ignore: IgnoreConfig::default() };
    let err = cfg.validate().unwrap_err();
    assert_eq!(err, "unsupported version 99");
}

#[test]
fn validate_rejects_empty_pattern() {
    let cfg = Config {
        version: 1,
        rules: vec![UserRule {
            pattern: "   ".to_string(),
            replacement: None,
            severity: None,
            message: None,
            enabled: true,
        }],
        ignore: IgnoreConfig::default(),
    };
    let err = cfg.validate().unwrap_err();
    assert!(err.contains("empty"), "got: {err}");
}

#[test]
fn validate_rejects_unknown_severity() {
    let cfg = Config {
        version: 1,
        rules: vec![UserRule {
            pattern: "synergize".to_string(),
            replacement: None,
            severity: Some("ultra".to_string()),
            message: None,
            enabled: true,
        }],
        ignore: IgnoreConfig::default(),
    };
    let err = cfg.validate().unwrap_err();
    assert!(err.contains("unknown severity"), "got: {err}");
    assert_eq!(err, "unknown severity 'ultra'; valid: critical, high, medium, low");
}

#[test]
fn validate_accepts_good_config() {
    let cfg = Config {
        version: 1,
        rules: vec![UserRule {
            pattern: "synergize".to_string(),
            replacement: Some("work together".to_string()),
            severity: Some("high".to_string()),
            message: Some("Corporate jargon".to_string()),
            enabled: true,
        }],
        ignore: IgnoreConfig::default(),
    };
    assert!(cfg.validate().is_ok());
}

#[test]
fn parse_code_rules_error_names_the_rule() {
    let err = parse_code_rules(&["bogus".to_string()]).unwrap_err();
    assert_eq!(
        err,
        "unknown rule 'bogus'. Valid: comments, naming, commits, docstrings, tests, errors, api"
    );
}

// --- user rules carry their declared severity and default message ---
#[test]
fn user_rule_severity_and_message() {
    let cfg = Config {
        version: 1,
        rules: vec![UserRule {
            pattern: "Synergize".to_string(),
            replacement: Some("cooperate".to_string()),
            severity: Some("critical".to_string()),
            message: None,
            enabled: true,
        }],
        ignore: IgnoreConfig::default(),
    };
    let findings = unai::rules::apply_user_rules("We synergize daily.\n", Some(&cfg));
    assert_eq!(findings.len(), 1);
    assert_eq!(findings[0].severity, Severity::Critical);
    assert_eq!(findings[0].message, "User rule: 'Synergize'");
    assert_eq!(findings[0].matched, "synergize");
}

// --- disabled user rules stay silent ---
#[test]
fn disabled_user_rule_is_silent() {
    let cfg = Config {
        version: 1,
        rules: vec![UserRule {
            pattern: "synergize".to_string(),
            replacement: None,
            severity: None,
            message: None,
            enabled: false,
        }],
        ignore: IgnoreConfig::default(),
    };
    let findings = unai::rules::apply_user_rules("We synergize daily.\n", Some(&cfg));
    assert!(findings.is_empty());
}

// --- the docstring category flags boilerplate with its column ---
#[test]
fn docstring_boilerplate_flagged() {
    let findings = apply_code_rules(
        "# This function serves as a helper.",
        &[CodeRule::Docstrings],
    );
    assert_eq!(findings.len(), 1);
    assert_eq!(findings[0].matched, "this function serves as");
    assert_eq!(findings[0].severity, Severity::High);
    assert_eq!(findings[0].col, 2);
}

// --- empty category list runs every category ---
#[test]
fn empty_category_list_runs_all() {
    let findings = apply_code_rules("# TODO: fix this", &[]);
    assert!(findings.iter().any(|f| f.message.contains("Bare TODO")));
}

// --- case folding really lowers the haystack ---
#[test]
fn uppercase_text_still_matches() {
    let findings = apply_text_rules("UTILIZE THE TAPESTRY.");
    assert!(findings.iter().any(|f| f.matched == "UTILIZE"));
    assert!(findings.iter().any(|f| f.matched == "TAPESTRY"));
}

// --- apply_case falls back to the replacement as-is ---
#[test]
fn apply_case_plain_cases() {
    assert_eq!(apply_case("", "use"), "use");
    assert_eq!(apply_case("Utilize", ""), "");
    assert_eq!(apply_case("utilize", "use"), "use");
}

// --- a character with no uppercase mapping survives apply_case unchanged ---
#[test]
fn apply_case_unmapped_first_char() {
    assert_eq!(apply_case("X", "\nabc"), "\nabc");
    assert_eq!(apply_case("X", "1abc"), "1abc");
}

// --- a final line with no newline keeps its bare carriage return ---
#[test]
fn final_bare_carriage_return_preserved() {
    assert_eq!(clean("abc\r", &[]), "abc\r");
    let input = "x\n\r";
    let cleaned = clean(input, &apply_text_rules(input));
    assert_eq!(cleaned, "x\n\r");
    assert!(!cleaned.ends_with('\n'));
    let fixed = clean("we utilize x\r", &apply_text_rules("we utilize x\r"));
    assert_eq!(fixed, "we use x\r");
}

// --- a carriage return is stripped only as part of a newline terminator ---
#[test]
fn crlf_terminator_normalised() {
    assert_eq!(clean("a\r\nb\r\n", &[]), "a\nb\n");
}

// --- caps labels are counted in characters, not bytes ---
#[test]
fn caps_label_counts_characters() {
    let single = apply_code_rules("# \u{416}", &[CodeRule::Comments]);
    assert!(
        !single.iter().any(|f| f.message.contains("Section header")),
        "a one-letter label is not a section header"
    );
    let double = apply_code_rules("# \u{416}\u{416}", &[CodeRule::Comments]);
    assert!(double.iter().any(|f| f.message.contains("Section header")));
    let ascii = apply_code_rules("# SETUP", &[CodeRule::Comments]);
    assert!(ascii.iter().any(|f| f.message.contains("Section header")));
}
