//! Mode detection and the unified line diff.

use unai::detector::{detect_mode, Mode};
use unai::diff::unified_diff;

#[test]
fn detects_code_by_extension() {
    assert_eq!(detect_mode(Some("main.rs"), "hello world"), Mode::Code);
    assert_eq!(detect_mode(Some("script.py"), "hello world"), Mode::Code);
    assert_eq!(detect_mode(Some("app.ts"), "hello world"), Mode::Code);
}

#[test]
fn detects_text_by_extension_absence() {
    assert_eq!(detect_mode(Some("README.md"), "hello world"), Mode::Text);
    assert_eq!(detect_mode(Some("notes.txt"), "hello world"), Mode::Text);
}

#[test]
fn detects_code_by_content_signals() {
    let python = "def foo():\n    import os\n    return True";
    assert_eq!(detect_mode(None, python), Mode::Code);
}

#[test]
fn detects_text_without_signals() {
    let prose = "This is a blog post about dogs. Dogs are great.";
    assert_eq!(detect_mode(None, prose), Mode::Text);
}

#[test]
fn commit_msg_file_is_commit_msg() {
    assert_eq!(detect_mode(Some("COMMIT_EDITMSG"), "feat: add thing"), Mode::CommitMsg);
    assert_eq!(detect_mode(Some("MERGE_MSG"), "Merge branch foo"), Mode::CommitMsg);
}

#[test]
fn never_infer_commit_mode_from_content() {
    assert_eq!(detect_mode(None, "Of course!"), Mode::Text);
    assert_eq!(detect_mode(None, "Of course! Let me help you."), Mode::Text);
    assert_eq!(detect_mode(None, "wip"), Mode::Text);
}

#[test]
fn commit_mode_only_by_filename() {
    assert_eq!(detect_mode(Some("COMMIT_EDITMSG"), "anything"), Mode::CommitMsg);
    assert_eq!(detect_mode(Some("MERGE_MSG"), "anything"), Mode::CommitMsg);
    assert_eq!(detect_mode(Some("SQUASH_MSG"), "anything"), Mode::CommitMsg);
}

#[test]
fn diff_no_change() {
    let content = "line one\nline two\nline three\n";
    assert_eq!(unified_diff(content, content, "original", "cleaned"), "");
}

#[test]
fn diff_simple_replacement() {
    let orig = "We should utilize this approach.\n";
    let modified = "We should use this approach.\n";
    let diff = unified_diff(orig, modified, "original", "cleaned");
    assert!(!diff.is_empty(), "diff should not be empty");
    assert!(diff.contains("-We should utilize"), "should show removed line");
    assert!(diff.contains("+We should use"), "should show added line");
    assert!(diff.contains("--- original"), "should have orig header");
    assert!(diff.contains("+++ cleaned"), "should have mod header");
}

#[test]
fn diff_preserves_context() {
    let orig = "line 1\nline 2\nline 3\nWe should utilize this.\nline 5\nline 6\nline 7\n";
    let modified = "line 1\nline 2\nline 3\nWe should use this.\nline 5\nline 6\nline 7\n";
    let diff = unified_diff(orig, modified, "original", "cleaned");
    assert!(diff.contains(" line 1") || diff.contains(" line 3"), "should show context lines");
}

#[test]
fn diff_empty_inputs() {
    assert_eq!(unified_diff("", "", "a", "b"), "");
}
