//! The code scanner: category-driven checks on source lines. Comments checks
//! flag section-header dividers and bare TODOs; docstring checks flag
//! boilerplate phrases; naming checks flag anemic suffixes and redundant
//! type-in-name identifiers; the commits category applies the commit rules.

use vstd::prelude::*;

use crate::rules::commit::{check_commit_patterns, commit_findings};
use crate::rules::{finding_models, Finding, FindingModel, Severity};
use crate::strutil::{
    byte_len, byte_off, byte_offset_of, chars_eq_str, chars_to_string, find_from, first_match,
    has_prefix, is_alnum, is_alnum_char, is_upper, is_upper_char, lemma_byte_len_subrange,
    lemma_first_match_props, lines_spec, lower_chars, lower_of, split_lines, split_words,
    starts_with_chars, str_to_chars, subvec, trim_chars, trim_spec, trim_start_idx,
    trim_start_pos, views_of, words_from, words_spec,
};

verus! {

/// Which code rule categories to apply.
#[derive(Debug, Clone, PartialEq, Eq, Structural)]
pub enum CodeRule {
    Comments,
    Naming,
    Commits,
    Docstrings,
    Tests,
    Errors,
    Api,
}

/// The category a name selects, if any.
pub open spec fn rule_of_name(s: Seq<char>) -> Option<CodeRule> {
    if s == "comments"@ {
        Option::Some(CodeRule::Comments)
    } else if s == "naming"@ {
        Option::Some(CodeRule::Naming)
    } else if s == "commits"@ {
        Option::Some(CodeRule::Commits)
    } else if s == "docstrings"@ {
        Option::Some(CodeRule::Docstrings)
    } else if s == "tests"@ {
        Option::Some(CodeRule::Tests)
    } else if s == "errors"@ {
        Option::Some(CodeRule::Errors)
    } else if s == "api"@ {
        Option::Some(CodeRule::Api)
    } else {
        Option::None
    }
}

impl CodeRule {
    /// Parse a category name; `None` for an unknown name.
    pub fn from_str(s: &str) -> (r: Option<CodeRule>)
        ensures
            r == rule_of_name(s@),
    {
        let v = str_to_chars(s);
        if chars_eq_str(&v, "comments") {
            Option::Some(CodeRule::Comments)
        } else if chars_eq_str(&v, "naming") {
            Option::Some(CodeRule::Naming)
        } else if chars_eq_str(&v, "commits") {
            Option::Some(CodeRule::Commits)
        } else if chars_eq_str(&v, "docstrings") {
            Option::Some(CodeRule::Docstrings)
        } else if chars_eq_str(&v, "tests") {
            Option::Some(CodeRule::Tests)
        } else if chars_eq_str(&v, "errors") {
            Option::Some(CodeRule::Errors)
        } else if chars_eq_str(&v, "api") {
            Option::Some(CodeRule::Api)
        } else {
            Option::None
        }
    }
}

// ---------------------------------------------------------------------------
// Section header comments
// ---------------------------------------------------------------------------

/// First index at or after `from` whose character differs from `c`.
pub open spec fn skip_char_idx(s: Seq<char>, from: int, c: char) -> int
    decreases s.len() - from,
{
    if from < 0 || from >= s.len() {
        s.len() as int
    } else if s[from] == c {
        skip_char_idx(s, from + 1, c)
    } else {
        from
    }
}

/// First index of `v` at or after `from` whose character differs from `c`.
pub fn skip_char_pos(v: &Vec<char>, from: usize, c: char) -> (r: usize)
    requires
        from <= v@.len(),
    ensures
        r == skip_char_idx(v@, from as int, c),
        from <= r <= v@.len(),
{
    let mut i: usize = from;
    while i < v.len()
        invariant
            from <= i <= v@.len(),
            skip_char_idx(v@, from as int, c) == skip_char_idx(v@, i as int, c),
        decreases v@.len() - i,
    {
        if v[i] != c {
            return i;
        }
        i += 1;
    }
    i
}

/// Does `s` end with `p`?
pub open spec fn has_suffix(s: Seq<char>, p: Seq<char>) -> bool {
    p.len() <= s.len() && s.skip(s.len() - p.len()) == p
}

/// Does `v` end with the characters of `p`?
pub fn ends_with_chars(v: &Vec<char>, p: &Vec<char>) -> (r: bool)
    ensures
        r == has_suffix(v@, p@),
{
    if p.len() > v.len() {
        return false;
    }
    let at: usize = v.len() - p.len();
    let m = crate::strutil::matches_at(v, p, at);
    proof {
        assert(v@.subrange(at as int, at as int + p@.len()) =~= v@.skip(v@.len() - p@.len()));
    }
    m
}

/// The remainder of a comment line after its marker: leading `#`s, then
/// leading `/`s, then leading whitespace are stripped.
pub open spec fn after_marker(t: Seq<char>) -> Seq<char> {
    let a1 = skip_char_idx(t, 0, '#');
    let a2 = skip_char_idx(t, a1, '/');
    let a3 = trim_start_idx(t, a2);
    t.subrange(a3, t.len() as int)
}

/// A pure divider: three or more characters, all dashes, equals or spaces.
pub open spec fn is_divider(am: Seq<char>) -> bool {
    am.len() >= 3 && forall|k: int| 0 <= k < am.len() ==> am[k] == '-' || am[k] == '=' || am[k] == ' '
}

/// A word counts as an all-caps label once trailing colons are stripped: it
/// keeps at least two characters and holds only uppercase letters or
/// underscores.
pub open spec fn caps_word(w: Seq<char>) -> bool {
    let wt = w.take(skip_colon_end(w, w.len() as int));
    wt.len() >= 2 && forall|k: int| 0 <= k < wt.len() ==> is_upper_char(wt[k]) || wt[k] == '_'
}

/// One past the last character before `from` that is not a colon.
pub open spec fn skip_colon_end(s: Seq<char>, from: int) -> int
    decreases from,
{
    if from <= 0 || from > s.len() {
        0
    } else if s[from - 1] == ':' {
        skip_colon_end(s, from - 1)
    } else {
        from
    }
}

/// All words are all-caps labels (and there is at least one).
pub open spec fn is_caps_words(am: Seq<char>) -> bool {
    let ws = words_spec(am);
    ws.len() > 0 && forall|k: int| 0 <= k < ws.len() ==> caps_word(#[trigger] ws[k])
}

/// A section-header comment: a comment marker followed by a divider, a run of
/// dashes or equals at either end, or an all-caps label.
pub open spec fn is_section_header_spec(t: Seq<char>) -> bool {
    &&& (has_prefix(t, seq!['#']) || has_prefix(t, seq!['/', '/']) || has_prefix(
        t,
        seq!['-', '-'],
    ))
    &&& {
        let am = after_marker(t);
        ||| is_divider(am)
        ||| has_prefix(am, seq!['-', '-', '-'])
        ||| has_prefix(am, seq!['=', '=', '='])
        ||| has_suffix(am, seq!['-', '-', '-'])
        ||| has_suffix(am, seq!['=', '=', '='])
        ||| is_caps_words(am)
    }
}

/// Is the trimmed line a section-header comment?
pub fn is_section_header(t: &Vec<char>) -> (r: bool)
    requires
        byte_len(t@) <= usize::MAX,
    ensures
        r == is_section_header_spec(t@),
{
    let hash = vec!['#'];
    let slashes = vec!['/', '/'];
    let dashes2 = vec!['-', '-'];
    let dashes3 = vec!['-', '-', '-'];
    let equals3 = vec!['=', '=', '='];
    proof {
        assert(hash@ =~= seq!['#']);
        assert(slashes@ =~= seq!['/', '/']);
        assert(dashes2@ =~= seq!['-', '-']);
        assert(dashes3@ =~= seq!['-', '-', '-']);
        assert(equals3@ =~= seq!['=', '=', '=']);
    }
    if !(starts_with_chars(t, &hash) || starts_with_chars(t, &slashes) || starts_with_chars(
        t,
        &dashes2,
    )) {
        return false;
    }
    let a1 = skip_char_pos(t, 0, '#');
    let a2 = skip_char_pos(t, a1, '/');
    let a3 = trim_start_pos(t, a2);
    let am = subvec(t, a3, t.len());
    proof {
        assert(am@ == after_marker(t@));
        lemma_byte_len_subrange(t@, a3 as int, t@.len() as int);
    }
    // divider check
    let mut all_div: bool = true;
    let mut k: usize = 0;
    while k < am.len()
        invariant
            k <= am@.len(),
            all_div == (forall|j: int|
                0 <= j < k ==> am@[j] == '-' || am@[j] == '=' || am@[j] == ' '),
        decreases am@.len() - k,
    {
        if !(am[k] == '-' || am[k] == '=' || am[k] == ' ') {
            all_div = false;
        }
        k += 1;
    }
    if all_div && am.len() >= 3 {
        return true;
    }
    if starts_with_chars(&am, &dashes3) || starts_with_chars(&am, &equals3) {
        return true;
    }
    if ends_with_chars(&am, &dashes3) || ends_with_chars(&am, &equals3) {
        return true;
    }
    // all-caps label words
    let ws = split_words(&am);
    let mut all_caps: bool = true;
    let mut i: usize = 0;
    while i < ws.len()
        invariant
            views_of(ws@) == words_spec(am@),
            i <= ws@.len(),
            all_caps == (forall|j: int| 0 <= j < i ==> caps_word(#[trigger] words_spec(am@)[j])),
        decreases ws@.len() - i,
    {
        let w = &ws[i];
        proof {
            assert(w@ == words_spec(am@)[i as int]);
        }
        if !caps_word_exec(w) {
            all_caps = false;
        }
        i += 1;
    }
    if ws.len() > 0 && all_caps {
        proof {
            assert(is_caps_words(am@));
        }
        return true;
    }
    proof {
        assert(!is_caps_words(am@));
    }
    false
}

fn caps_word_exec(w: &Vec<char>) -> (r: bool)
    ensures
        r == caps_word(w@),
{
    let mut e: usize = w.len();
    while e > 0 && w[e - 1] == ':'
        invariant
            e <= w@.len(),
            skip_colon_end(w@, w@.len() as int) == skip_colon_end(w@, e as int),
        decreases e,
    {
        e -= 1;
    }
    proof {
        assert(skip_colon_end(w@, e as int) == e as int);
    }
    if e < 2 {
        proof {
            assert(w@.take(skip_colon_end(w@, w@.len() as int)).len() < 2);
        }
        return false;
    }
    let mut k: usize = 0;
    while k < e
        invariant
            2 <= e <= w@.len(),
            e == skip_colon_end(w@, w@.len() as int),
            k <= e,
            forall|j: int| 0 <= j < k ==> is_upper_char(w@[j]) || w@[j] == '_',
        decreases e - k,
    {
        let c = w[k];
        if !(is_upper(c) || c == '_') {
            proof {
                let wt = w@.take(skip_colon_end(w@, w@.len() as int));
                assert(wt[k as int] == w@[k as int]);
            }
            return false;
        }
        k += 1;
    }
    proof {
        let wt = w@.take(skip_colon_end(w@, w@.len() as int));
        assert(forall|j: int| 0 <= j < wt.len() ==> wt[j] == w@[j]);
    }
    true
}

// ---------------------------------------------------------------------------
// Bare TODOs
// ---------------------------------------------------------------------------

/// Is the remainder after a TODO marker one of the generic fillers?
pub open spec fn bare_message(r: Seq<char>) -> bool {
    ||| r.len() == 0
    ||| r == "add error handling"@
    ||| r == "fix this"@
    ||| r == "handle this"@
    ||| r == "implement"@
    ||| r == "add tests"@
    ||| r == "clean up"@
    ||| r == "refactor"@
}

/// Does the lowercased line carry a bare TODO behind the given marker?
pub open spec fn todo_with(low: Seq<char>, p: Seq<char>) -> bool {
    has_prefix(low, p) && bare_message(trim_spec(low.skip(p.len() as int)))
}

/// A TODO comment with no context: one of the four comment markers followed
/// by an empty or generic message.
pub open spec fn is_bare_todo_spec(t: Seq<char>) -> bool {
    let low = lower_of(t);
    ||| todo_with(low, "# todo:"@)
    ||| todo_with(low, "// todo:"@)
    ||| todo_with(low, "-- todo:"@)
    ||| todo_with(low, "/* todo:"@)
}

fn todo_with_exec(low: &Vec<char>, p: &str) -> (r: bool)
    ensures
        r == todo_with(low@, p@),
{
    let pv = str_to_chars(p);
    if !starts_with_chars(low, &pv) {
        return false;
    }
    let rest = subvec(low, pv.len(), low.len());
    proof {
        assert(rest@ =~= low@.skip(p@.len() as int));
    }
    let rt = trim_chars(&rest);
    let bare = rt.len() == 0 || chars_eq_str(&rt, "add error handling") || chars_eq_str(
        &rt,
        "fix this",
    ) || chars_eq_str(&rt, "handle this") || chars_eq_str(&rt, "implement") || chars_eq_str(
        &rt,
        "add tests",
    ) || chars_eq_str(&rt, "clean up") || chars_eq_str(&rt, "refactor");
    bare
}

/// Is the trimmed line a bare TODO?
pub fn is_bare_todo(t: &Vec<char>) -> (r: bool)
    ensures
        r == is_bare_todo_spec(t@),
{
    let low = lower_chars(t);
    todo_with_exec(&low, "# todo:") || todo_with_exec(&low, "// todo:") || todo_with_exec(
        &low,
        "-- todo:",
    ) || todo_with_exec(&low, "/* todo:")
}

// ---------------------------------------------------------------------------
// Naming checks
// ---------------------------------------------------------------------------

/// The first occurrence of `sfx` at or after `from` that ends an identifier:
/// preceded by an alphanumeric or underscore, followed by neither.
pub open spec fn suffix_hit(line: Seq<char>, sfx: Seq<char>, from: int) -> Option<int>
    decreases line.len() - from,
    via suffix_hit_decreases
{
    if sfx.len() == 0 {
        Option::None
    } else {
        match first_match(line, sfx, from) {
            Option::None => Option::None,
            Option::Some(i) => {
                let e = i + sfx.len() as int;
                let after_ok = e >= line.len() || (!is_alnum_char(line[e]) && line[e] != '_');
                let before_ok = i > 0 && (is_alnum_char(line[i - 1]) || line[i - 1] == '_');
                if after_ok && before_ok {
                    Option::Some(i)
                } else {
                    suffix_hit(line, sfx, e)
                }
            },
        }
    }
}

#[via_fn]
proof fn suffix_hit_decreases(line: Seq<char>, sfx: Seq<char>, from: int) {
    if sfx.len() > 0 && from >= 0 {
        lemma_first_match_props(line, sfx, from);
    }
}

/// The finding for one anemic suffix, if the line has it ending an identifier.
pub open spec fn suffix_one(
    line: Seq<char>,
    sfx: Seq<char>,
    message: Seq<char>,
    lineno: int,
) -> Seq<FindingModel> {
    match suffix_hit(line, sfx, 0) {
        Option::Some(i) => seq![
            FindingModel {
                line: lineno,
                col: byte_off(line, i),
                matched: sfx,
                message: message,
                replacement: Option::None,
                severity: Severity::High,
            },
        ],
        Option::None => Seq::empty(),
    }
}

/// The finding for one redundant type-in-name pattern, matched
/// case-insensitively anywhere in the line.
pub open spec fn red_one(
    low: Seq<char>,
    bad: Seq<char>,
    message: Seq<char>,
    lineno: int,
) -> Seq<FindingModel> {
    match first_match(low, lower_of(bad), 0) {
        Option::Some(c) => seq![
            FindingModel {
                line: lineno,
                col: byte_off(low, c),
                matched: bad,
                message: message,
                replacement: Option::None,
                severity: Severity::Medium,
            },
        ],
        Option::None => Seq::empty(),
    }
}

/// The anemic-suffix findings of one (untrimmed) line.
pub open spec fn suffixes_findings(line: Seq<char>, lineno: int) -> Seq<FindingModel> {
    suffix_one(
        line,
        "Manager"@,
        "Anemic type suffix 'Manager': name the responsibility, not the role"@,
        lineno,
    ) + suffix_one(
        line,
        "Handler"@,
        "Anemic type suffix 'Handler': name the responsibility, not the role"@,
        lineno,
    ) + suffix_one(
        line,
        "Helper"@,
        "Anemic type suffix 'Helper': name the responsibility, not the role"@,
        lineno,
    ) + suffix_one(
        line,
        "Util"@,
        "Anemic type suffix 'Util': name the responsibility, not the role"@,
        lineno,
    ) + suffix_one(
        line,
        "Utility"@,
        "Anemic type suffix 'Utility': name the responsibility, not the role"@,
        lineno,
    ) + suffix_one(
        line,
        "Service"@,
        "Anemic type suffix 'Service': name the responsibility, not the role"@,
        lineno,
    )
}

/// The redundant type-in-name findings of one line.
pub open spec fn reds_findings(low: Seq<char>, lineno: int) -> Seq<FindingModel> {
    red_one(
        low,
        "userDataObject"@,
        "Type-in-name anti-pattern: use 'user' instead"@,
        lineno,
    ) + red_one(
        low,
        "configurationSettings"@,
        "Type-in-name anti-pattern: use 'config' instead"@,
        lineno,
    ) + red_one(
        low,
        "errorMessageString"@,
        "Type-in-name anti-pattern: use 'message' instead"@,
        lineno,
    ) + red_one(low, "listOfUsers"@, "Type-in-name anti-pattern: use 'users' instead"@, lineno)
}

/// All naming findings of one (untrimmed) line.
pub open spec fn naming_findings(line: Seq<char>, lineno: int) -> Seq<FindingModel> {
    suffixes_findings(line, lineno) + reds_findings(lower_of(line), lineno)
}

fn suffix_scan(line: &Vec<char>, sfx: &str, message: &str, lineno: usize, out: &mut Vec<Finding>)
    requires
        byte_len(line@) <= usize::MAX,
    ensures
        finding_models(final(out)@) == finding_models(old(out)@) + suffix_one(
            line@,
            sfx@,
            message@,
            lineno as int,
        ),
{
    let sv = str_to_chars(sfx);
    if sv.len() == 0 {
        proof {
            assert(finding_models(out@) =~= finding_models(old(out)@) + suffix_one(
                line@,
                sfx@,
                message@,
                lineno as int,
            ));
        }
        return ;
    }
    let ll: usize = line.len();
    let mut from: usize = 0;
    loop
        invariant
            sv@ == sfx@,
            sv@.len() >= 1,
            ll == line@.len(),
            byte_len(line@) <= usize::MAX,
            from <= line@.len() + 1,
            out@ == old(out)@,
            suffix_hit(line@, sfx@, 0) == suffix_hit(line@, sfx@, from as int),
        decreases line@.len() + 1 - from,
    {
        match find_from(line, &sv, from) {
            Option::None => {
                proof {
                    assert(finding_models(out@) =~= finding_models(old(out)@) + suffix_one(
                        line@,
                        sfx@,
                        message@,
                        lineno as int,
                    ));
                }
                return ;
            },
            Option::Some(i) => {
                proof {
                    lemma_first_match_props(line@, sv@, from as int);
                }
                let e: usize = i + sv.len();
                let after_ok = if e >= line.len() {
                    true
                } else {
                    !is_alnum(line[e]) && line[e] != '_'
                };
                let before_ok = i > 0 && {
                    let c = line[i - 1];
                    is_alnum(c) || c == '_'
                };
                if after_ok && before_ok {
                    let col = byte_offset_of(line, i);
                    let f = Finding {
                        line: lineno,
                        col,
                        matched: chars_to_string(&sv),
                        message: message.to_owned(),
                        replacement: Option::None,
                        severity: Severity::High,
                    };
                    let ghost pre = out@;
                    out.push(f);
                    proof {
                        assert(suffix_hit(line@, sfx@, from as int) == Option::Some(i as int));
                        assert(finding_models(out@) =~= finding_models(old(out)@) + suffix_one(
                            line@,
                            sfx@,
                            message@,
                            lineno as int,
                        ));
                    }
                    return ;
                }
                from = e;
            },
        }
    }
}

fn red_scan(low: &Vec<char>, bad: &str, message: &str, lineno: usize, out: &mut Vec<Finding>)
    requires
        byte_len(low@) <= usize::MAX,
    ensures
        finding_models(final(out)@) == finding_models(old(out)@) + red_one(
            low@,
            bad@,
            message@,
            lineno as int,
        ),
{
    let bv = str_to_chars(bad);
    let needle = lower_chars(&bv);
    match find_from(low, &needle, 0) {
        Option::Some(c) => {
            proof {
                lemma_first_match_props(low@, needle@, 0);
            }
            let col = byte_offset_of(low, c);
            let f = Finding {
                line: lineno,
                col,
                matched: chars_to_string(&bv),
                message: message.to_owned(),
                replacement: Option::None,
                severity: Severity::Medium,
            };
            let ghost pre = out@;
            out.push(f);
            proof {
                assert(finding_models(out@) =~= finding_models(pre) + red_one(
                    low@,
                    bad@,
                    message@,
                    lineno as int,
                ));
            }
        },
        Option::None => {
            proof {
                assert(finding_models(out@) =~= finding_models(old(out)@) + red_one(
                    low@,
                    bad@,
                    message@,
                    lineno as int,
                ));
            }
        },
    }
}

#[verifier::rlimit(100)]
fn suffixes_scan(line: &Vec<char>, lineno: usize, out: &mut Vec<Finding>)
    requires
        byte_len(line@) <= usize::MAX,
    ensures
        finding_models(final(out)@) == finding_models(old(out)@) + suffixes_findings(
            line@,
            lineno as int,
        ),
{
    suffix_scan(
        line,
        "Manager",
        "Anemic type suffix 'Manager': name the responsibility, not the role",
        lineno,
        out,
    );
    suffix_scan(
        line,
        "Handler",
        "Anemic type suffix 'Handler': name the responsibility, not the role",
        lineno,
        out,
    );
    suffix_scan(
        line,
        "Helper",
        "Anemic type suffix 'Helper': name the responsibility, not the role",
        lineno,
        out,
    );
    suffix_scan(
        line,
        "Util",
        "Anemic type suffix 'Util': name the responsibility, not the role",
        lineno,
        out,
    );
    suffix_scan(
        line,
        "Utility",
        "Anemic type suffix 'Utility': name the responsibility, not the role",
        lineno,
        out,
    );
    suffix_scan(
        line,
        "Service",
        "Anemic type suffix 'Service': name the responsibility, not the role",
        lineno,
        out,
    );
    proof {
        assert(finding_models(out@) =~= finding_models(old(out)@) + suffixes_findings(
            line@,
            lineno as int,
        ));
    }
}

fn reds_scan(low: &Vec<char>, lineno: usize, out: &mut Vec<Finding>)
    requires
        byte_len(low@) <= usize::MAX,
    ensures
        finding_models(final(out)@) == finding_models(old(out)@) + reds_findings(
            low@,
            lineno as int,
        ),
{
    red_scan(low, "userDataObject", "Type-in-name anti-pattern: use 'user' instead", lineno, out);
    red_scan(
        low,
        "configurationSettings",
        "Type-in-name anti-pattern: use 'config' instead",
        lineno,
        out,
    );
    red_scan(
        low,
        "errorMessageString",
        "Type-in-name anti-pattern: use 'message' instead",
        lineno,
        out,
    );
    red_scan(low, "listOfUsers", "Type-in-name anti-pattern: use 'users' instead", lineno, out);
    proof {
        assert(finding_models(out@) =~= finding_models(old(out)@) + reds_findings(
            low@,
            lineno as int,
        ));
    }
}

/// Append the naming findings of one (untrimmed) line to `out`.
pub fn check_naming(line: &Vec<char>, lineno: usize, out: &mut Vec<Finding>)
    requires
        byte_len(line@) <= usize::MAX,
    ensures
        finding_models(final(out)@) == finding_models(old(out)@) + naming_findings(
            line@,
            lineno as int,
        ),
{
    suffixes_scan(line, lineno, out);
    let low = lower_chars(line);
    reds_scan(&low, lineno, out);
    proof {
        assert(finding_models(out@) =~= finding_models(old(out)@) + naming_findings(
            line@,
            lineno as int,
        ));
    }
}

// ---------------------------------------------------------------------------
// Docstring boilerplate
// ---------------------------------------------------------------------------

/// The finding for one docstring phrase, if the lowercased trimmed line holds
/// it.
pub open spec fn doc_one(
    lowt: Seq<char>,
    phrase: Seq<char>,
    message: Seq<char>,
    lineno: int,
) -> Seq<FindingModel> {
    match first_match(lowt, phrase, 0) {
        Option::Some(c) => seq![
            FindingModel {
                line: lineno,
                col: byte_off(lowt, c),
                matched: phrase,
                message: message,
                replacement: Option::None,
                severity: Severity::High,
            },
        ],
        Option::None => Seq::empty(),
    }
}

/// All docstring findings of one trimmed line.
pub open spec fn docstring_findings(t: Seq<char>, lineno: int) -> Seq<FindingModel> {
    let lowt = lower_of(t);
    doc_one(
        lowt,
        "this function serves as"@,
        "LLM docstring boilerplate: 'this function serves as'"@,
        lineno,
    ) + doc_one(
        lowt,
        "this class represents"@,
        "LLM docstring boilerplate: 'this class represents'"@,
        lineno,
    ) + doc_one(
        lowt,
        "this method handles"@,
        "LLM docstring boilerplate: 'this method handles'"@,
        lineno,
    ) + doc_one(
        lowt,
        "this module provides"@,
        "LLM docstring boilerplate: 'this module provides'"@,
        lineno,
    )
}

fn doc_scan(lowt: &Vec<char>, phrase: &str, message: &str, lineno: usize, out: &mut Vec<Finding>)
    requires
        byte_len(lowt@) <= usize::MAX,
    ensures
        finding_models(final(out)@) == finding_models(old(out)@) + doc_one(
            lowt@,
            phrase@,
            message@,
            lineno as int,
        ),
{
    let pv = str_to_chars(phrase);
    match find_from(lowt, &pv, 0) {
        Option::Some(c) => {
            proof {
                lemma_first_match_props(lowt@, pv@, 0);
            }
            let col = byte_offset_of(lowt, c);
            let f = Finding {
                line: lineno,
                col,
                matched: chars_to_string(&pv),
                message: message.to_owned(),
                replacement: Option::None,
                severity: Severity::High,
            };
            let ghost pre = out@;
            out.push(f);
            proof {
                assert(finding_models(out@) =~= finding_models(pre) + doc_one(
                    lowt@,
                    phrase@,
                    message@,
                    lineno as int,
                ));
            }
        },
        Option::None => {
            proof {
                assert(finding_models(out@) =~= finding_models(old(out)@) + doc_one(
                    lowt@,
                    phrase@,
                    message@,
                    lineno as int,
                ));
            }
        },
    }
}

fn docstring_scan(t: &Vec<char>, lineno: usize, out: &mut Vec<Finding>)
    ensures
        finding_models(final(out)@) == finding_models(old(out)@) + docstring_findings(
            t@,
            lineno as int,
        ),
{
    let lowt = lower_chars(t);
    doc_scan(
        &lowt,
        "this function serves as",
        "LLM docstring boilerplate: 'this function serves as'",
        lineno,
        out,
    );
    doc_scan(
        &lowt,
        "this class represents",
        "LLM docstring boilerplate: 'this class represents'",
        lineno,
        out,
    );
    doc_scan(
        &lowt,
        "this method handles",
        "LLM docstring boilerplate: 'this method handles'",
        lineno,
        out,
    );
    doc_scan(
        &lowt,
        "this module provides",
        "LLM docstring boilerplate: 'this module provides'",
        lineno,
        out,
    );
    proof {
        assert(finding_models(out@) =~= finding_models(old(out)@) + docstring_findings(
            t@,
            lineno as int,
        ));
    }
}

// ---------------------------------------------------------------------------
// The code scan over a buffer
// ---------------------------------------------------------------------------

/// The comments-category findings of one trimmed line.
pub open spec fn comments_findings(t: Seq<char>, lineno: int) -> Seq<FindingModel> {
    (if is_section_header_spec(t) {
        seq![
            FindingModel {
                line: lineno,
                col: 0,
                matched: t,
                message: "Section header comment: dividers add noise without value"@,
                replacement: Option::None,
                severity: Severity::High,
            },
        ]
    } else {
        Seq::<FindingModel>::empty()
    }) + (if is_bare_todo_spec(t) {
        seq![
            FindingModel {
                line: lineno,
                col: 0,
                matched: t,
                message: "Bare TODO without context or ticket reference"@,
                replacement: Option::None,
                severity: Severity::Critical,
            },
        ]
    } else {
        Seq::<FindingModel>::empty()
    })
}

/// All code findings of one (untrimmed) line under the enabled categories.
/// An empty category list enables all categories.
#[verifier::opaque]
pub open spec fn code_line_findings(
    line: Seq<char>,
    enabled: Seq<CodeRule>,
    lineno: int,
) -> Seq<FindingModel> {
    let t = trim_spec(line);
    let all = enabled.len() == 0;
    (if all || enabled.contains(CodeRule::Comments) {
        comments_findings(t, lineno)
    } else {
        Seq::<FindingModel>::empty()
    }) + (if all || enabled.contains(CodeRule::Docstrings) {
        docstring_findings(t, lineno)
    } else {
        Seq::<FindingModel>::empty()
    }) + (if all || enabled.contains(CodeRule::Naming) {
        naming_findings(line, lineno)
    } else {
        Seq::<FindingModel>::empty()
    }) + (if all || enabled.contains(CodeRule::Commits) {
        commit_findings(t, lineno)
    } else {
        Seq::<FindingModel>::empty()
    })
}

/// The code findings of the lines `lines[li..]`.
pub open spec fn code_scan_lines(
    lines: Seq<Seq<char>>,
    enabled: Seq<CodeRule>,
    li: int,
) -> Seq<FindingModel>
    decreases lines.len() - li,
{
    if li < 0 || li >= lines.len() {
        Seq::empty()
    } else {
        code_line_findings(lines[li], enabled, li + 1) + code_scan_lines(lines, enabled, li + 1)
    }
}

/// The code findings of a buffer under the enabled categories.
pub open spec fn code_findings(content: Seq<char>, enabled: Seq<CodeRule>) -> Seq<FindingModel> {
    code_scan_lines(lines_spec(content), enabled, 0)
}

/// Does the list contain the category?
fn contains_rule(enabled: &[CodeRule], r: CodeRule) -> (b: bool)
    ensures
        b == enabled@.contains(r),
{
    let mut i: usize = 0;
    while i < enabled.len()
        invariant
            i <= enabled@.len(),
            forall|j: int| 0 <= j < i ==> enabled@[j] != r,
        decreases enabled@.len() - i,
    {
        if enabled[i] == r {
            return true;
        }
        i += 1;
    }
    false
}

/// Append the comments-category findings of one trimmed line to `out`.
fn comments_scan(t: &Vec<char>, lineno: usize, out: &mut Vec<Finding>)
    requires
        byte_len(t@) <= usize::MAX,
    ensures
        finding_models(final(out)@) == finding_models(old(out)@) + comments_findings(
            t@,
            lineno as int,
        ),
{
    if is_section_header(t) {
        let f = Finding {
            line: lineno,
            col: 0,
            matched: chars_to_string(t),
            message: "Section header comment: dividers add noise without value".to_owned(),
            replacement: Option::None,
            severity: Severity::High,
        };
        out.push(f);
    }
    if is_bare_todo(t) {
        let f = Finding {
            line: lineno,
            col: 0,
            matched: chars_to_string(t),
            message: "Bare TODO without context or ticket reference".to_owned(),
            replacement: Option::None,
            severity: Severity::Critical,
        };
        out.push(f);
    }
    proof {
        assert(finding_models(out@) =~= finding_models(old(out)@) + comments_findings(
            t@,
            lineno as int,
        ));
    }
}

/// The comments- and docstrings-category findings of one line.
#[verifier::opaque]
pub open spec fn code_line_head(line: Seq<char>, enabled: Seq<CodeRule>, lineno: int) -> Seq<
    FindingModel,
> {
    let t = trim_spec(line);
    let all = enabled.len() == 0;
    (if all || enabled.contains(CodeRule::Comments) {
        comments_findings(t, lineno)
    } else {
        Seq::<FindingModel>::empty()
    }) + (if all || enabled.contains(CodeRule::Docstrings) {
        docstring_findings(t, lineno)
    } else {
        Seq::<FindingModel>::empty()
    })
}

/// The naming- and commits-category findings of one line.
#[verifier::opaque]
pub open spec fn code_line_tail(line: Seq<char>, enabled: Seq<CodeRule>, lineno: int) -> Seq<
    FindingModel,
> {
    let t = trim_spec(line);
    let all = enabled.len() == 0;
    (if all || enabled.contains(CodeRule::Naming) {
        naming_findings(line, lineno)
    } else {
        Seq::<FindingModel>::empty()
    }) + (if all || enabled.contains(CodeRule::Commits) {
        commit_findings(t, lineno)
    } else {
        Seq::<FindingModel>::empty()
    })
}

#[verifier::rlimit(100)]
proof fn lemma_code_line_split(line: Seq<char>, enabled: Seq<CodeRule>, lineno: int)
    ensures
        code_line_findings(line, enabled, lineno) == code_line_head(line, enabled, lineno)
            + code_line_tail(line, enabled, lineno),
{
    reveal(code_line_findings);
    reveal(code_line_head);
    reveal(code_line_tail);
    assert(code_line_findings(line, enabled, lineno) =~= code_line_head(line, enabled, lineno)
        + code_line_tail(line, enabled, lineno));
}

fn code_line_scan_head(
    t: &Vec<char>,
    line: &Vec<char>,
    enabled: &[CodeRule],
    lineno: usize,
    out: &mut Vec<Finding>,
)
    requires
        t@ == trim_spec(line@),
        byte_len(t@) <= usize::MAX,
    ensures
        finding_models(final(out)@) == finding_models(old(out)@) + code_line_head(
            line@,
            enabled@,
            lineno as int,
        ),
{
    proof {
        reveal(code_line_head);
    }
    let all = enabled.len() == 0;
    if all || contains_rule(enabled, CodeRule::Comments) {
        comments_scan(t, lineno, out);
    }
    if all || contains_rule(enabled, CodeRule::Docstrings) {
        docstring_scan(t, lineno, out);
    }
    proof {
        assert(finding_models(out@) =~= finding_models(old(out)@) + code_line_head(
            line@,
            enabled@,
            lineno as int,
        ));
    }
}

fn code_line_scan_tail(
    t: &Vec<char>,
    line: &Vec<char>,
    enabled: &[CodeRule],
    lineno: usize,
    out: &mut Vec<Finding>,
)
    requires
        t@ == trim_spec(line@),
        byte_len(t@) <= usize::MAX,
        byte_len(line@) <= usize::MAX,
    ensures
        finding_models(final(out)@) == finding_models(old(out)@) + code_line_tail(
            line@,
            enabled@,
            lineno as int,
        ),
{
    proof {
        reveal(code_line_tail);
    }
    let all = enabled.len() == 0;
    if all || contains_rule(enabled, CodeRule::Naming) {
        check_naming(line, lineno, out);
    }
    if all || contains_rule(enabled, CodeRule::Commits) {
        check_commit_patterns(t, lineno, out);
    }
    proof {
        assert(finding_models(out@) =~= finding_models(old(out)@) + code_line_tail(
            line@,
            enabled@,
            lineno as int,
        ));
    }
}

/// Append the code findings of one line to `out`.
fn code_line_scan(line: &Vec<char>, enabled: &[CodeRule], lineno: usize, out: &mut Vec<Finding>)
    requires
        byte_len(line@) <= usize::MAX,
    ensures
        finding_models(final(out)@) == finding_models(old(out)@) + code_line_findings(
            line@,
            enabled@,
            lineno as int,
        ),
{
    let t = trim_chars(line);
    proof {
        crate::strutil::lemma_trim_byte_len(line@);
    }
    code_line_scan_head(&t, line, enabled, lineno, out);
    code_line_scan_tail(&t, line, enabled, lineno, out);
    proof {
        lemma_code_line_split(line@, enabled@, lineno as int);
        assert(finding_models(out@) =~= finding_models(old(out)@) + code_line_findings(
            line@,
            enabled@,
            lineno as int,
        ));
    }
}

/// Apply the enabled code-rule categories to `content`, line by line. An
/// empty `enabled` list applies every category.
pub fn apply_code_rules(content: &str, enabled: &[CodeRule]) -> (findings: Vec<Finding>)
    ensures
        finding_models(findings@) == code_findings(content@, enabled@),
{
    let cv = str_to_chars(content);
    let lines = split_lines(&cv);
    let ghost lv = lines_spec(cv@);
    let mut out: Vec<Finding> = Vec::new();
    let mut li: usize = 0;
    while li < lines.len()
        invariant
            lv == lines_spec(content@),
            cv@ == content@,
            views_of(lines@) == lv,
            byte_len(cv@) <= usize::MAX,
            forall|k: int| 0 <= k < lv.len() ==> byte_len(#[trigger] lv[k]) <= byte_len(cv@),
            li <= lines@.len(),
            finding_models(out@) + code_scan_lines(lv, enabled@, li as int) =~= code_findings(
                content@,
                enabled@,
            ),
        decreases lines@.len() - li,
    {
        let line = &lines[li];
        proof {
            assert(line@ == lv[li as int]);
        }
        code_line_scan(line, enabled, li + 1, &mut out);
        li += 1;
        proof {
            assert(code_scan_lines(lv, enabled@, li - 1) == code_line_findings(
                lv[li - 1],
                enabled@,
                li as int,
            ) + code_scan_lines(lv, enabled@, li as int));
            assert(finding_models(out@) + code_scan_lines(lv, enabled@, li as int)
                =~= code_findings(content@, enabled@));
        }
    }
    proof {
        assert(code_scan_lines(lv, enabled@, lines@.len() as int)
            =~= Seq::<FindingModel>::empty());
        assert(finding_models(out@) =~= code_findings(content@, enabled@));
    }
    out
}

} // verus!
