//! Ignore directives, user-rule binding, and the rewriter's defensive skips.

use unai::config::{Config, IgnoreConfig, UserRule};
use unai::rules::ignore::collect_ignored_lines;
use unai::rules::{apply_user_rules, clean, Finding, Severity};

#[test]
fn html_block_ignore() {
    let content = "line 1\n<!-- unai-ignore -->\nline 3\nline 4\n<!-- /unai-ignore -->\nline 6\n";
    let ignored = collect_ignored_lines(content);
    assert!(!ignored.contains(&1));
    assert!(ignored.contains(&3));
    assert!(ignored.contains(&4));
    assert!(!ignored.contains(&6));
}

#[test]
fn next_line_ignore() {
    let content = "line 1\n# unai-ignore-next-line\nline 3\nline 4\n";
    let ignored = collect_ignored_lines(content);
    assert!(!ignored.contains(&1));
    assert!(!ignored.contains(&2));
    assert!(ignored.contains(&3));
    assert!(!ignored.contains(&4));
}

#[test]
fn start_end_block() {
    let content = "line 1\n// unai-ignore-start\nline 3\nline 4\n// unai-ignore-end\nline 6\n";
    let ignored = collect_ignored_lines(content);
    assert!(!ignored.contains(&1));
    assert!(ignored.contains(&3));
    assert!(ignored.contains(&4));
    assert!(!ignored.contains(&6));
}

#[test]
fn hash_start_end_block() {
    let content = "line 1\n# unai-ignore-start\nline 3\nline 4\n# unai-ignore-end\nline 6\n";
    let ignored = collect_ignored_lines(content);
    assert!(!ignored.contains(&1));
    assert!(ignored.contains(&3));
    assert!(ignored.contains(&4));
    assert!(!ignored.contains(&6));
}

#[test]
fn slash_next_line_ignore() {
    let content = "line 1\n// unai-ignore-next-line\nline 3\nline 4\n";
    let ignored = collect_ignored_lines(content);
    assert!(!ignored.contains(&1));
    assert!(!ignored.contains(&2));
    assert!(ignored.contains(&3));
    assert!(!ignored.contains(&4));
}

#[test]
fn empty_content() {
    assert!(collect_ignored_lines("").is_empty());
}

#[test]
fn directive_lines_not_ignored() {
    let content = "<!-- unai-ignore -->\nline 2\n<!-- /unai-ignore -->\n";
    let ignored = collect_ignored_lines(content);
    assert!(!ignored.contains(&1));
    assert!(ignored.contains(&2));
    assert!(!ignored.contains(&3));
}

#[test]
fn next_line_at_end_of_file() {
    let content = "line 1\n# unai-ignore-next-line\n";
    let ignored = collect_ignored_lines(content);
    assert!(ignored.is_empty() || !ignored.contains(&1));
}

fn make_finding(line: usize, col: usize, matched: &str, replacement: Option<&str>) -> Finding {
    Finding {
        line,
        col,
        matched: matched.to_string(),
        message: "test".to_string(),
        replacement: replacement.map(str::to_string),
        severity: Severity::Low,
    }
}

#[test]
fn clean_skips_finding_with_line_zero() {
    let f = make_finding(0, 0, "x", Some("y"));
    let result = clean("hello\n", &[f]);
    assert_eq!(result, "hello\n", "line-zero finding must be skipped, not panic");
}

#[test]
fn clean_skips_finding_with_out_of_bounds_col() {
    let f = make_finding(1, 100, "x", Some("y"));
    let result = clean("hello\n", &[f]);
    assert_eq!(result, "hello\n", "out-of-bounds col must be skipped, not panic");
}

#[test]
fn apply_user_rules_finds_multiple_matches_same_line() {
    let cfg = Config {
        version: 1,
        rules: vec![UserRule {
            pattern: "ab".to_string(),
            replacement: None,
            severity: None,
            message: None,
            enabled: true,
        }],
        ignore: IgnoreConfig::default(),
    };
    let findings = apply_user_rules("ab ab ab", Some(&cfg));
    assert_eq!(
        findings.len(),
        3,
        "three non-overlapping 'ab' matches expected, got {}",
        findings.len()
    );
}

#[test]
fn apply_user_rules_terminates_on_repeated_pattern() {
    let cfg = Config {
        version: 1,
        rules: vec![UserRule {
            pattern: "x".to_string(),
            replacement: None,
            severity: None,
            message: None,
            enabled: true,
        }],
        ignore: IgnoreConfig::default(),
    };
    let line = "x ".repeat(1000);
    let findings = apply_user_rules(&line, Some(&cfg));
    assert_eq!(findings.len(), 1000);
}
