//! Commit-message rules: line-position-dependent checks on a version-control
//! message. Vague phrases fire on any line; past-tense, vague-scope and
//! title-case checks fire on the subject (line 1); an over-explanation check
//! fires on line 3.

use vstd::prelude::*;

use crate::rules::{finding_models, Finding, FindingModel, Severity};
use crate::rules::text::boundary_ok;
use crate::strutil::{
    byte_len, byte_off, byte_offset_of, chars_eq_str, chars_to_string, find_from, first_match,
    is_upper, is_upper_char, lemma_first_match_props, lower_chars, lower_of, split_words,
    str_to_chars, subvec, trim_chars, trim_spec, views_of, words_spec,
};

verus! {

/// A finding that spans nothing in particular: column 0 and a matched text
/// chosen by the rule.
pub open spec fn mark_finding(
    lineno: int,
    col: int,
    matched: Seq<char>,
    message: Seq<char>,
    severity: Severity,
) -> FindingModel {
    FindingModel {
        line: lineno,
        col: col,
        matched: matched,
        message: message,
        replacement: Option::None,
        severity: severity,
    }
}

// ---------------------------------------------------------------------------
// Vague phrases (any line)
// ---------------------------------------------------------------------------

/// The finding for one vague phrase, if it occurs in the lowercased line.
pub open spec fn vague_one(
    low: Seq<char>,
    phrase: Seq<char>,
    message: Seq<char>,
    lineno: int,
) -> Seq<FindingModel> {
    match first_match(low, phrase, 0) {
        Option::Some(c) => seq![
            mark_finding(lineno, byte_off(low, c), phrase, message, Severity::Low),
        ],
        Option::None => Seq::empty(),
    }
}

pub open spec fn vague_findings(low: Seq<char>, lineno: int) -> Seq<FindingModel> {
    vague_one(low, "update stuff"@, "Vague commit message: 'update stuff'"@, lineno) + vague_one(
        low,
        "fix things"@,
        "Vague commit message: 'fix things'"@,
        lineno,
    ) + vague_one(low, "wip"@, "Vague commit message: 'wip'"@, lineno) + vague_one(
        low,
        "misc changes"@,
        "Vague commit message: 'misc changes'"@,
        lineno,
    ) + vague_one(low, "minor fixes"@, "Vague commit message: 'minor fixes'"@, lineno)
}

// ---------------------------------------------------------------------------
// Past tense in the subject line
// ---------------------------------------------------------------------------

/// Is `w` one of the past-tense verbs that flag a non-imperative subject?
pub open spec fn is_past_tense(w: Seq<char>) -> bool {
    ||| w == "added"@
    ||| w == "fixed"@
    ||| w == "updated"@
    ||| w == "changed"@
    ||| w == "removed"@
    ||| w == "modified"@
    ||| w == "implemented"@
    ||| w == "refactored"@
    ||| w == "created"@
    ||| w == "deleted"@
    ||| w == "moved"@
    ||| w == "improved"@
    ||| w == "enhanced"@
    ||| w == "cleaned"@
    ||| w == "bumped"@
    ||| w == "dropped"@
    ||| w == "replaced"@
    ||| w == "resolved"@
    ||| w == "addressed"@
    ||| w == "reverted"@
}

/// The first whitespace token of `low`, after a conventional-commit prefix
/// (a first token ending in `:`) has been stripped; empty if there is none.
pub open spec fn effective_first_word(low: Seq<char>) -> Seq<char> {
    let ws = words_spec(low);
    if ws.len() == 0 {
        Seq::empty()
    } else if ws[0].len() > 0 && ws[0].last() == ':' {
        if ws.len() >= 2 {
            ws[1]
        } else {
            Seq::empty()
        }
    } else {
        ws[0]
    }
}

/// Where the past-tense finding points: the first occurrence of the token in
/// the lowercased line (the token is a word of that line, so the search
/// succeeds; 0 is a defensive fallback).
pub open spec fn past_tense_col(low: Seq<char>, w: Seq<char>) -> int {
    match first_match(low, w, 0) {
        Option::Some(c) => byte_off(low, c),
        Option::None => 0,
    }
}

pub open spec fn past_tense_findings(low: Seq<char>, lineno: int) -> Seq<FindingModel> {
    let w = effective_first_word(low);
    if is_past_tense(w) {
        seq![
            mark_finding(
                lineno,
                past_tense_col(low, w),
                w,
                "Past tense in commit subject: use imperative mood ('add' not 'added')"@,
                Severity::High,
            ),
        ]
    } else {
        Seq::empty()
    }
}

// ---------------------------------------------------------------------------
// Vague scope words in the subject line
// ---------------------------------------------------------------------------

/// The first word-boundary occurrence of `w` in `low` at or after `from`.
pub open spec fn scope_hit(low: Seq<char>, w: Seq<char>, from: int) -> Option<int>
    decreases low.len() - from,
    via scope_hit_decreases
{
    if w.len() == 0 {
        Option::None
    } else {
        match first_match(low, w, from) {
            Option::None => Option::None,
            Option::Some(i) => if boundary_ok(low, i, i + w.len() as int) {
                Option::Some(i)
            } else {
                scope_hit(low, w, i + w.len() as int)
            },
        }
    }
}

#[via_fn]
proof fn scope_hit_decreases(low: Seq<char>, w: Seq<char>, from: int) {
    if w.len() > 0 && from >= 0 {
        lemma_first_match_props(low, w, from);
    }
}

pub open spec fn scope_one(low: Seq<char>, w: Seq<char>, lineno: int) -> Seq<FindingModel> {
    match scope_hit(low, w, 0) {
        Option::Some(i) => seq![
            mark_finding(
                lineno,
                byte_off(low, i),
                w,
                "Vague scope in commit subject: name the specific change"@,
                Severity::High,
            ),
        ],
        Option::None => Seq::empty(),
    }
}

pub open spec fn scope_findings(low: Seq<char>, lineno: int) -> Seq<FindingModel> {
    scope_one(low, "various"@, lineno) + scope_one(low, "several"@, lineno) + scope_one(
        low,
        "multiple"@,
        lineno,
    ) + scope_one(low, "many"@, lineno)
}

// ---------------------------------------------------------------------------
// Title-case subject line
// ---------------------------------------------------------------------------

/// Index of the first word that does not end in `:` (conventional-commit
/// prefixes are skipped).
pub open spec fn first_content_word(ws: Seq<Seq<char>>, k: int) -> int
    decreases ws.len() - k,
{
    if k < 0 || k >= ws.len() {
        ws.len() as int
    } else if ws[k].len() > 0 && ws[k].last() == ':' {
        first_content_word(ws, k + 1)
    } else {
        k
    }
}

/// How many of the words start with an uppercase character.
pub open spec fn capitalized_count(ws: Seq<Seq<char>>, k: int) -> int
    decreases ws.len() - k,
{
    if k < 0 || k >= ws.len() {
        0
    } else {
        (if ws[k].len() > 0 && is_upper_char(ws[k][0]) {
            1int
        } else {
            0int
        }) + capitalized_count(ws, k + 1)
    }
}

pub open spec fn title_case_findings(line: Seq<char>, lineno: int) -> Seq<FindingModel> {
    let ws = words_spec(line);
    let k = first_content_word(ws, 0);
    if ws.len() - k >= 3 && capitalized_count(ws, k) >= 3 {
        seq![
            mark_finding(
                lineno,
                0,
                line,
                "Title-case commit subject: use sentence case"@,
                Severity::Medium,
            ),
        ]
    } else {
        Seq::empty()
    }
}

// ---------------------------------------------------------------------------
// Over-explanation on line 3
// ---------------------------------------------------------------------------

pub open spec fn body_findings(line: Seq<char>, lineno: int) -> Seq<FindingModel> {
    if lineno == 3 && trim_spec(line).len() > 0 {
        seq![
            mark_finding(
                lineno,
                0,
                line,
                "Commit body on single-purpose change may over-explain (arxiv:2601.17406)"@,
                Severity::Low,
            ),
        ]
    } else {
        Seq::empty()
    }
}

/// All commit findings of one (trimmed) line.
pub open spec fn commit_findings(line: Seq<char>, lineno: int) -> Seq<FindingModel> {
    let low = lower_of(line);
    vague_findings(low, lineno) + (if lineno == 1 {
        subject_findings(line, low, lineno)
    } else {
        Seq::empty()
    }) + body_findings(line, lineno)
}

// ---------------------------------------------------------------------------
// Executable scan
// ---------------------------------------------------------------------------

fn vague_scan(
    low: &Vec<char>,
    phrase: &str,
    message: &str,
    lineno: usize,
    out: &mut Vec<Finding>,
)
    requires
        byte_len(low@) <= usize::MAX,
    ensures
        finding_models(final(out)@) == finding_models(old(out)@) + vague_one(
            low@,
            phrase@,
            message@,
            lineno as int,
        ),
{
    let pv = str_to_chars(phrase);
    match find_from(low, &pv, 0) {
        Option::Some(c) => {
            proof {
                lemma_first_match_props(low@, pv@, 0);
            }
            let col = byte_offset_of(low, c);
            let f = Finding {
                line: lineno,
                col,
                matched: chars_to_string(&pv),
                message: message.to_owned(),
                replacement: Option::None,
                severity: Severity::Low,
            };
            let ghost pre = out@;
            out.push(f);
            proof {
                assert(finding_models(out@) =~= finding_models(pre) + vague_one(
                    low@,
                    phrase@,
                    message@,
                    lineno as int,
                ));
            }
        },
        Option::None => {
            proof {
                assert(finding_models(out@) =~= finding_models(old(out)@) + vague_one(
                    low@,
                    phrase@,
                    message@,
                    lineno as int,
                ));
            }
        },
    }
}

/// The first word-boundary occurrence of `w` in `low`, as `scope_hit` finds.
fn scope_scan(low: &Vec<char>, w: &Vec<char>, out_lineno: usize, out: &mut Vec<Finding>)
    requires
        byte_len(low@) <= usize::MAX,
    ensures
        finding_models(final(out)@) == finding_models(old(out)@) + scope_one(
            low@,
            w@,
            out_lineno as int,
        ),
{
    if w.len() == 0 {
        proof {
            assert(finding_models(out@) =~= finding_models(old(out)@) + scope_one(
                low@,
                w@,
                out_lineno as int,
            ));
        }
        return ;
    }
    let ll: usize = low.len();
    let mut from: usize = 0;
    loop
        invariant
            w@.len() >= 1,
            ll == low@.len(),
            byte_len(low@) <= usize::MAX,
            from <= low@.len() + 1,
            out@ == old(out)@,
            scope_hit(low@, w@, 0) == scope_hit(low@, w@, from as int),
        decreases low@.len() + 1 - from,
    {
        match find_from(low, w, from) {
            Option::None => {
                proof {
                    assert(scope_hit(low@, w@, from as int) is None);
                    assert(finding_models(out@) =~= finding_models(old(out)@) + scope_one(
                        low@,
                        w@,
                        out_lineno as int,
                    ));
                }
                return ;
            },
            Option::Some(i) => {
                proof {
                    lemma_first_match_props(low@, w@, from as int);
                }
                let e: usize = i + w.len();
                if crate::rules::text::is_word_boundary(low, i, e) {
                    let col = byte_offset_of(low, i);
                    let f = Finding {
                        line: out_lineno,
                        col,
                        matched: chars_to_string(w),
                        message: "Vague scope in commit subject: name the specific change"
                            .to_owned(),
                        replacement: Option::None,
                        severity: Severity::High,
                    };
                    let ghost pre = out@;
                    out.push(f);
                    proof {
                        assert(scope_hit(low@, w@, from as int) == Option::Some(i as int));
                        assert(finding_models(out@) =~= finding_models(old(out)@) + scope_one(
                            low@,
                            w@,
                            out_lineno as int,
                        ));
                    }
                    return ;
                }
                from = e;
            },
        }
    }
}


/// Append the title-case finding of the subject line to `out`, if it fires.
fn title_case_scan(line: &Vec<char>, lineno: usize, out: &mut Vec<Finding>)
    ensures
        finding_models(final(out)@) == finding_models(old(out)@) + title_case_findings(
            line@,
            lineno as int,
        ),
{
    let lws = split_words(line);
    let mut k: usize = 0;
    while k < lws.len() && lws[k].len() > 0 && lws[k][lws[k].len() - 1] == ':'
        invariant
            views_of(lws@) == words_spec(line@),
            k <= lws@.len(),
            first_content_word(words_spec(line@), 0) == first_content_word(
                words_spec(line@),
                k as int,
            ),
        decreases lws@.len() - k,
    {
        proof {
            assert(lws@[k as int]@ == words_spec(line@)[k as int]);
        }
        k += 1;
    }
    proof {
        assert(lws@[k as int]@ == words_spec(line@)[k as int] || k == lws@.len());
        assert(first_content_word(words_spec(line@), k as int) == k as int);
    }
    let mut caps: usize = 0;
    let mut t: usize = k;
    while t < lws.len()
        invariant
            views_of(lws@) == words_spec(line@),
            k <= t <= lws@.len(),
            caps <= t,
            caps as int + capitalized_count(words_spec(line@), t as int) == capitalized_count(
                words_spec(line@),
                k as int,
            ),
        decreases lws@.len() - t,
    {
        let w = &lws[t];
        proof {
            assert(w@ == words_spec(line@)[t as int]);
        }
        if w.len() > 0 && is_upper(w[0]) {
            caps += 1;
        }
        t += 1;
    }
    proof {
        assert(capitalized_count(words_spec(line@), lws@.len() as int) == 0);
    }
    if lws.len() - k >= 3 && caps >= 3 {
        let ghost pre = out@;
        let f = Finding {
            line: lineno,
            col: 0,
            matched: chars_to_string(line),
            message: "Title-case commit subject: use sentence case".to_owned(),
            replacement: Option::None,
            severity: Severity::Medium,
        };
        out.push(f);
        proof {
            assert(finding_models(out@) =~= finding_models(pre) + title_case_findings(
                line@,
                lineno as int,
            ));
        }
    } else {
        proof {
            assert(title_case_findings(line@, lineno as int) =~= Seq::<FindingModel>::empty());
        }
    }
}

/// Append the past-tense finding of the subject line to `out`, if it fires.
fn past_tense_scan(low: &Vec<char>, lineno: usize, out: &mut Vec<Finding>)
    requires
        byte_len(low@) <= usize::MAX,
    ensures
        finding_models(final(out)@) == finding_models(old(out)@) + past_tense_findings(
            low@,
            lineno as int,
        ),
{
    let words = split_words(low);
    let ghost ws = words_spec(low@);
    let mut effective: Vec<char> = Vec::new();
    if words.len() > 0 {
        let w0 = &words[0];
        proof {
            assert(w0@ == ws[0]);
        }
        if w0.len() > 0 && w0[w0.len() - 1] == ':' {
            if words.len() >= 2 {
                proof {
                    assert(words@[1]@ == ws[1]);
                }
                effective = subvec(&words[1], 0, words[1].len());
                proof {
                    assert(effective@ =~= ws[1]);
                }
            }
        } else {
            effective = subvec(w0, 0, w0.len());
            proof {
                assert(effective@ =~= ws[0]);
            }
        }
    }
    proof {
        assert(effective@ == effective_first_word(low@));
    }
    let past = chars_eq_str(&effective, "added") || chars_eq_str(&effective, "fixed")
        || chars_eq_str(&effective, "updated") || chars_eq_str(&effective, "changed")
        || chars_eq_str(&effective, "removed") || chars_eq_str(&effective, "modified")
        || chars_eq_str(&effective, "implemented") || chars_eq_str(&effective, "refactored")
        || chars_eq_str(&effective, "created") || chars_eq_str(&effective, "deleted")
        || chars_eq_str(&effective, "moved") || chars_eq_str(&effective, "improved")
        || chars_eq_str(&effective, "enhanced") || chars_eq_str(&effective, "cleaned")
        || chars_eq_str(&effective, "bumped") || chars_eq_str(&effective, "dropped")
        || chars_eq_str(&effective, "replaced") || chars_eq_str(&effective, "resolved")
        || chars_eq_str(&effective, "addressed") || chars_eq_str(&effective, "reverted");
    proof {
        assert(past == is_past_tense(effective@));
    }
    if past {
        let col: usize = match find_from(low, &effective, 0) {
            Option::Some(c) => {
                proof {
                    lemma_first_match_props(low@, effective@, 0);
                }
                byte_offset_of(low, c)
            },
            Option::None => 0,
        };
        proof {
            assert(col as int == past_tense_col(low@, effective@));
        }
        let f = Finding {
            line: lineno,
            col,
            matched: chars_to_string(&effective),
            message: "Past tense in commit subject: use imperative mood ('add' not 'added')"
                .to_owned(),
            replacement: Option::None,
            severity: Severity::High,
        };
        let ghost pre = out@;
        out.push(f);
        proof {
            assert(finding_models(out@) =~= finding_models(pre) + past_tense_findings(
                low@,
                lineno as int,
            ));
        }
    } else {
        proof {
            assert(past_tense_findings(low@, lineno as int) =~= Seq::<FindingModel>::empty());
        }
    }
}

/// Append the line-3 over-explanation finding to `out`, if it fires.
fn body_scan(line: &Vec<char>, lineno: usize, out: &mut Vec<Finding>)
    ensures
        finding_models(final(out)@) == finding_models(old(out)@) + body_findings(
            line@,
            lineno as int,
        ),
{
    let ghost pre = out@;
    if lineno == 3 {
        let tr = trim_chars(line);
        if tr.len() > 0 {
            let f = Finding {
                line: lineno,
                col: 0,
                matched: chars_to_string(line),
                message: "Commit body on single-purpose change may over-explain (arxiv:2601.17406)"
                    .to_owned(),
                replacement: Option::None,
                severity: Severity::Low,
            };
            out.push(f);
        }
    }
    proof {
        assert(finding_models(out@) =~= finding_models(pre) + body_findings(
            line@,
            lineno as int,
        ));
    }
}

/// The subject-line findings: past tense, vague scope, title case.
pub open spec fn subject_findings(line: Seq<char>, low: Seq<char>, lineno: int) -> Seq<
    FindingModel,
> {
    past_tense_findings(low, lineno) + scope_findings(low, lineno) + title_case_findings(
        line,
        lineno,
    )
}

/// Append the subject-line findings to `out`.
#[verifier::rlimit(100)]
fn subject_scan(line: &Vec<char>, low: &Vec<char>, lineno: usize, out: &mut Vec<Finding>)
    requires
        byte_len(low@) <= usize::MAX,
    ensures
        finding_models(final(out)@) == finding_models(old(out)@) + subject_findings(
            line@,
            low@,
            lineno as int,
        ),
{
    past_tense_scan(low, lineno, out);
    let w1 = str_to_chars("various");
    scope_scan(low, &w1, lineno, out);
    let w2 = str_to_chars("several");
    scope_scan(low, &w2, lineno, out);
    let w3 = str_to_chars("multiple");
    scope_scan(low, &w3, lineno, out);
    let w4 = str_to_chars("many");
    scope_scan(low, &w4, lineno, out);
    title_case_scan(line, lineno, out);
    proof {
        assert(finding_models(out@) =~= finding_models(old(out)@) + subject_findings(
            line@,
            low@,
            lineno as int,
        ));
    }
}

/// Append the five vague-phrase findings to `out`.
fn vague_all_scan(low: &Vec<char>, lineno: usize, out: &mut Vec<Finding>)
    requires
        byte_len(low@) <= usize::MAX,
    ensures
        finding_models(final(out)@) == finding_models(old(out)@) + vague_findings(
            low@,
            lineno as int,
        ),
{
    vague_scan(low, "update stuff", "Vague commit message: 'update stuff'", lineno, out);
    vague_scan(low, "fix things", "Vague commit message: 'fix things'", lineno, out);
    vague_scan(low, "wip", "Vague commit message: 'wip'", lineno, out);
    vague_scan(low, "misc changes", "Vague commit message: 'misc changes'", lineno, out);
    vague_scan(low, "minor fixes", "Vague commit message: 'minor fixes'", lineno, out);
    proof {
        assert(finding_models(out@) =~= finding_models(old(out)@) + vague_findings(
            low@,
            lineno as int,
        ));
    }
}

/// Append the commit findings of one (trimmed) line to `out`.
pub fn check_commit_patterns(line: &Vec<char>, lineno: usize, out: &mut Vec<Finding>)
    requires
        byte_len(line@) <= usize::MAX,
    ensures
        finding_models(final(out)@) == finding_models(old(out)@) + commit_findings(
            line@,
            lineno as int,
        ),
{
    let low = lower_chars(line);
    vague_all_scan(&low, lineno, out);
    let ghost after_vague = finding_models(out@);
    if lineno == 1 {
        subject_scan(line, &low, lineno, out);
    }
    body_scan(line, lineno, out);
    proof {
        assert(finding_models(out@) =~= finding_models(old(out)@) + commit_findings(
            line@,
            lineno as int,
        ));
    }
}

} // verus!
