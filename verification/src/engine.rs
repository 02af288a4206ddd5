//! The finding pipeline's pure pieces: gathering findings for a mode,
//! counting by severity, and the plain argument enums the driver maps its
//! command line onto.

use vstd::prelude::*;

use crate::detector::{detect_mode, detect_mode_spec, Mode};
use crate::rules::code::{code_findings, CodeRule};
use crate::rules::structural::{structural_findings, MAX_BUFFER_CHARS};
use crate::rules::text::{spec_text_rules, text_findings};
use crate::rules::{finding_models, Finding, FindingModel, Severity};
use crate::strutil::{chars_to_string, push_all, push_str_chars, str_to_chars};

verus! {

/// The category set used in code mode when the caller names no categories and
/// the file is not a commit message: everything but the commit rules.
pub open spec fn default_code_rules() -> Seq<CodeRule> {
    seq![
        CodeRule::Comments,
        CodeRule::Naming,
        CodeRule::Docstrings,
        CodeRule::Tests,
        CodeRule::Errors,
        CodeRule::Api,
    ]
}

/// The findings gathered for a buffer under a mode: text mode runs the text
/// and structural scanners; commit mode adds the commit rules; code mode runs
/// the code scanner, excluding commit rules by default on non-commit files
/// and always including them for commit files.
pub open spec fn gather_spec(
    content: Seq<char>,
    mode: Mode,
    code_rules: Seq<CodeRule>,
    filename: Option<Seq<char>>,
) -> Seq<FindingModel> {
    match mode {
        Mode::Text => text_findings(content, spec_text_rules()) + structural_findings(content),
        Mode::CommitMsg => text_findings(content, spec_text_rules()) + code_findings(
            content,
            seq![CodeRule::Commits],
        ) + structural_findings(content),
        Mode::Code => {
            let is_commit_file = match filename {
                Option::Some(n) => crate::detector::is_commit_msg_name(n),
                Option::None => false,
            };
            let effective = if code_rules.len() == 0 && !is_commit_file {
                default_code_rules()
            } else {
                code_rules
            };
            code_findings(content, effective) + if is_commit_file && code_rules.len() != 0
                && !code_rules.contains(CodeRule::Commits) {
                code_findings(content, seq![CodeRule::Commits])
            } else {
                Seq::empty()
            }
        },
    }
}

fn rules_contain(rules: &[CodeRule], r: CodeRule) -> (b: bool)
    ensures
        b == rules@.contains(r),
{
    let mut i: usize = 0;
    while i < rules.len()
        invariant
            i <= rules@.len(),
            forall|j: int| 0 <= j < i ==> rules@[j] != r,
        decreases rules@.len() - i,
    {
        if rules[i] == r {
            return true;
        }
        i += 1;
    }
    false
}

/// Gather the findings of `content` under `mode`, with the given code-rule
/// categories and optional file name.
pub fn gather_findings(
    content: &str,
    mode: &Mode,
    code_rules: &[CodeRule],
    filename: Option<&str>,
) -> (findings: Vec<Finding>)
    requires
        content@.len() <= MAX_BUFFER_CHARS,
    ensures
        finding_models(findings@) == gather_spec(
            content@,
            *mode,
            code_rules@,
            match filename {
                Option::Some(n) => Option::Some(n@),
                Option::None => Option::None,
            },
        ),
{
    match mode {
        Mode::Text => {
            let mut findings = crate::rules::text::apply_text_rules(content);
            let mut extra = crate::rules::structural::apply_structural_rules(content);
            let ghost a = findings@;
            let ghost b = extra@;
            findings.append(&mut extra);
            proof {
                assert(finding_models(findings@) =~= finding_models(a) + finding_models(b));
            }
            findings
        },
        Mode::CommitMsg => {
            let mut findings = crate::rules::text::apply_text_rules(content);
            let commits: Vec<CodeRule> = vec![CodeRule::Commits];
            proof {
                assert(commits@ =~= seq![CodeRule::Commits]);
            }
            let mut extra = crate::rules::code::apply_code_rules(content, commits.as_slice());
            let ghost a = findings@;
            let ghost b = extra@;
            findings.append(&mut extra);
            let mut extra2 = crate::rules::structural::apply_structural_rules(content);
            let ghost c = extra2@;
            findings.append(&mut extra2);
            proof {
                assert(finding_models(findings@) =~= (finding_models(a) + finding_models(b))
                    + finding_models(c));
            }
            findings
        },
        Mode::Code => {
            let is_commit_file = match filename {
                Option::Some(name) => crate::detector::is_commit_msg_file(name),
                Option::None => false,
            };
            let mut findings: Vec<Finding>;
            if code_rules.len() == 0 && !is_commit_file {
                let defaults: Vec<CodeRule> = vec![
                    CodeRule::Comments,
                    CodeRule::Naming,
                    CodeRule::Docstrings,
                    CodeRule::Tests,
                    CodeRule::Errors,
                    CodeRule::Api,
                ];
                proof {
                    assert(defaults@ =~= default_code_rules());
                }
                findings = crate::rules::code::apply_code_rules(content, defaults.as_slice());
            } else {
                findings = crate::rules::code::apply_code_rules(content, code_rules);
            }
            if is_commit_file && code_rules.len() != 0 && !rules_contain(
                code_rules,
                CodeRule::Commits,
            ) {
                let commits: Vec<CodeRule> = vec![CodeRule::Commits];
                proof {
                    assert(commits@ =~= seq![CodeRule::Commits]);
                }
                let mut extra = crate::rules::code::apply_code_rules(content, commits.as_slice());
                let ghost a = findings@;
                let ghost b = extra@;
                findings.append(&mut extra);
                proof {
                    assert(finding_models(findings@) =~= finding_models(a) + finding_models(b));
                }
            } else {
                proof {
                    assert(finding_models(findings@) =~= finding_models(findings@)
                        + Seq::<FindingModel>::empty());
                }
            }
            findings
        },
    }
}

/// The buffer cleaned with its own text-mode findings ends with a newline
/// exactly when the buffer does, provided the uppercase mapping is well
/// formed (as the real one is): the built-in replacements are curated to be
/// non-empty and newline-free, and structural findings never rewrite.
pub proof fn lemma_text_mode_clean_trailing_newline(content: Seq<char>)
    requires
        crate::rules::upper_of_wf(),
    ensures
        ({
            let fs = gather_spec(content, Mode::Text, Seq::empty(), Option::None);
            crate::rules::ends_nl(crate::rules::clean_spec(content, fs)) == crate::rules::ends_nl(
                content,
            )
        }),
{
    let tf = text_findings(content, spec_text_rules());
    let sf = structural_findings(content);
    let fs = gather_spec(content, Mode::Text, Seq::empty(), Option::None);
    crate::rules::text::lemma_spec_text_rules_good();
    crate::rules::text::lemma_text_findings_replacements(content, spec_text_rules());
    crate::rules::structural::lemma_structural_scan_no_replacement(
        crate::rules::structural::paras_spec(content),
        0,
        1,
    );
    assert(forall|k: int|
        0 <= k < fs.len() ==> crate::rules::good_replacement(#[trigger] fs[k])) by {
        assert(forall|k: int|
            0 <= k < fs.len() ==> fs[k] == (if k < tf.len() {
                tf[k]
            } else {
                sf[k - tf.len()]
            }));
    }
    crate::rules::lemma_clean_trailing_newline(content, fs);
}

// ---------------------------------------------------------------------------
// Counting and labels
// ---------------------------------------------------------------------------

/// How many of `fs[i..]` have severity `sev`.
pub open spec fn count_sev(fs: Seq<FindingModel>, sev: Severity, i: int) -> int
    decreases fs.len() - i,
{
    if i < 0 || i >= fs.len() {
        0
    } else {
        (if fs[i].severity == sev {
            1int
        } else {
            0int
        }) + count_sev(fs, sev, i + 1)
    }
}

/// Count the findings of one severity.
pub fn count_by_severity(findings: &[Finding], sev: Severity) -> (r: usize)
    ensures
        r as int == count_sev(finding_models(findings@), sev, 0),
{
    let ghost fsm = finding_models(findings@);
    let mut count: usize = 0;
    let mut i: usize = 0;
    while i < findings.len()
        invariant
            fsm == finding_models(findings@),
            i <= findings@.len(),
            count <= i,
            count as int + count_sev(fsm, sev, i as int) == count_sev(fsm, sev, 0),
        decreases findings@.len() - i,
    {
        if findings[i].severity == sev {
            count += 1;
        }
        i += 1;
    }
    count
}

/// The label a mode reports as the finding source.
pub open spec fn mode_label_spec(mode: Mode) -> Seq<char> {
    match mode {
        Mode::Text => "text"@,
        Mode::Code => "code"@,
        Mode::CommitMsg => "commit"@,
    }
}

/// The mode's label, for reports.
pub fn mode_label(mode: &Mode) -> (r: &'static str)
    ensures
        r@ == mode_label_spec(*mode),
{
    match mode {
        Mode::Text => "text",
        Mode::Code => "code",
        Mode::CommitMsg => "commit",
    }
}

// ---------------------------------------------------------------------------
// Plain argument values
// ---------------------------------------------------------------------------

/// The processing mode the caller requests.
#[derive(Debug, Clone, PartialEq, Eq, Structural)]
pub enum ModeArg {
    Auto,
    Text,
    Code,
}

/// The minimum severity the caller requests.
#[derive(Debug, Clone, PartialEq, Eq, Structural)]
pub enum MinSeverityArg {
    Critical,
    High,
    Medium,
    Low,
}

impl MinSeverityArg {
    /// The severity this argument selects.
    pub fn as_severity(&self) -> (r: Severity)
        ensures
            r == match self {
                MinSeverityArg::Critical => Severity::Critical,
                MinSeverityArg::High => Severity::High,
                MinSeverityArg::Medium => Severity::Medium,
                MinSeverityArg::Low => Severity::Low,
            },
    {
        match self {
            MinSeverityArg::Critical => Severity::Critical,
            MinSeverityArg::High => Severity::High,
            MinSeverityArg::Medium => Severity::Medium,
            MinSeverityArg::Low => Severity::Low,
        }
    }
}

/// The output format the caller requests.
#[derive(Debug, Clone, PartialEq, Eq, Structural)]
pub enum FormatArg {
    Text,
    Json,
}

/// The output renderer a format selects.
#[derive(Debug, Clone, PartialEq, Eq, Structural)]
pub enum Formatter {
    Text,
    Json,
}

impl Formatter {
    /// The renderer the requested format maps to.
    pub fn from_args(format: &FormatArg) -> (r: Formatter)
        ensures
            r == match format {
                FormatArg::Json => Formatter::Json,
                FormatArg::Text => Formatter::Text,
            },
    {
        match format {
            FormatArg::Json => Formatter::Json,
            FormatArg::Text => Formatter::Text,
        }
    }
}

/// The mode a request resolves to: explicit text or code as asked, and
/// automatic detection otherwise.
pub fn resolve_mode(mode_arg: &ModeArg, filename: Option<&str>, content: &str) -> (r: Mode)
    ensures
        r == match mode_arg {
            ModeArg::Text => Mode::Text,
            ModeArg::Code => Mode::Code,
            ModeArg::Auto => detect_mode_spec(
                match filename {
                    Option::Some(n) => Option::Some(n@),
                    Option::None => Option::None,
                },
                content@,
            ),
        },
{
    match mode_arg {
        ModeArg::Text => Mode::Text,
        ModeArg::Code => Mode::Code,
        ModeArg::Auto => detect_mode(filename, content),
    }
}

/// The categories named by a list of rule names, or the message naming the
/// first unknown one.
pub open spec fn parse_rules_spec(raw: Seq<String>, i: int) -> Result<Seq<CodeRule>, Seq<char>>
    decreases raw.len() - i,
{
    if i < 0 || i >= raw.len() {
        Result::Ok(Seq::empty())
    } else {
        match crate::rules::code::rule_of_name(raw[i]@) {
            Option::Some(r) => match parse_rules_spec(raw, i + 1) {
                Result::Ok(rest) => Result::Ok(seq![r] + rest),
                Result::Err(m) => Result::Err(m),
            },
            Option::None => Result::Err(
                "unknown rule '"@ + raw[i]@
                    + "'. Valid: comments, naming, commits, docstrings, tests, errors, api"@,
            ),
        }
    }
}

/// Parse a list of code-rule names. An unknown name yields an error naming
/// it and the valid spellings.
pub fn parse_code_rules(raw: &[String]) -> (r: Result<Vec<CodeRule>, String>)
    ensures
        match r {
            Result::Ok(rules) => parse_rules_spec(raw@, 0) == Result::<Seq<CodeRule>, Seq<char>>::Ok(
                rules@,
            ),
            Result::Err(m) => parse_rules_spec(raw@, 0) == Result::<
                Seq<CodeRule>,
                Seq<char>,
            >::Err(m@),
        },
{
    let mut rules: Vec<CodeRule> = Vec::new();
    let mut i: usize = 0;
    while i < raw.len()
        invariant
            i <= raw@.len(),
            match parse_rules_spec(raw@, 0) {
                Result::Ok(all) => parse_rules_spec(raw@, i as int) matches Result::Ok(rest)
                    && all == rules@ + rest,
                Result::Err(m) => parse_rules_spec(raw@, i as int) matches Result::Err(m2) && m
                    == m2,
            },
        decreases raw@.len() - i,
    {
        match CodeRule::from_str(raw[i].as_str()) {
            Option::Some(rule) => {
                let ghost old_rules = rules@;
                rules.push(rule);
                proof {
                    match parse_rules_spec(raw@, 0) {
                        Result::Ok(all) => {
                            assert(parse_rules_spec(raw@, i as int) matches Result::Ok(rest)
                                && rest == seq![rule] + parse_rules_spec(
                                raw@,
                                i + 1,
                            )->Ok_0);
                            assert(rules@ =~= old_rules.push(rule));
                            assert(all =~= rules@ + parse_rules_spec(raw@, i + 1)->Ok_0);
                        },
                        Result::Err(m) => {},
                    }
                }
                i += 1;
            },
            Option::None => {
                let mut msg: Vec<char> = Vec::new();
                push_str_chars("unknown rule '", &mut msg);
                let rv = str_to_chars(raw[i].as_str());
                push_all(&rv, &mut msg);
                push_str_chars(
                    "'. Valid: comments, naming, commits, docstrings, tests, errors, api",
                    &mut msg,
                );
                proof {
                    assert(msg@ =~= "unknown rule '"@ + raw@[i as int]@
                        + "'. Valid: comments, naming, commits, docstrings, tests, errors, api"@);
                }
                return Result::Err(chars_to_string(&msg));
            },
        }
    }
    proof {
        assert(parse_rules_spec(raw@, raw@.len() as int) == Result::<
            Seq<CodeRule>,
            Seq<char>,
        >::Ok(Seq::empty()));
        match parse_rules_spec(raw@, 0) {
            Result::Ok(all) => {
                assert(all =~= rules@);
            },
            Result::Err(m) => {},
        }
    }
    Result::Ok(rules)
}

} // verus!
