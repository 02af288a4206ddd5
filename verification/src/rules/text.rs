//! The text scanner: applies the built-in text rules line by line, with
//! fenced-code-block and bare-URL suppression, Unicode-aware case-insensitive
//! matching, word boundaries, and an inline-backtick guard.

use vstd::prelude::*;

use crate::rules::{clone_opt_string, clone_string, finding_models, Finding, FindingModel, Severity};
use crate::strutil::{
    byte_len, byte_off, byte_offset_of, chars_to_string, find_from, first_match, has_prefix,
    is_alnum, is_alnum_char, lemma_byte_len_subrange, lemma_first_match_props, lines_spec,
    lower_chars, lower_of, split_lines, starts_with_chars, str_to_chars, subvec,
    trim_chars, trim_spec, views_of,
};

verus! {

/// The mathematical content of a text rule.
pub struct TextRuleModel {
    pub needle: Seq<char>,
    pub message: Seq<char>,
    pub replacement: Option<Seq<char>>,
    pub severity: Severity,
}

/// A built-in or user-supplied text rule. The needle must be lowercase:
/// matching runs against the lowercased line, so a mixed-case needle never
/// matches.
pub struct TextRule {
    pub needle: String,
    pub message: String,
    pub replacement: Option<String>,
    pub severity: Severity,
}

impl View for TextRule {
    type V = TextRuleModel;

    open spec fn view(&self) -> TextRuleModel {
        TextRuleModel {
            needle: self.needle@,
            message: self.message@,
            replacement: match self.replacement {
                Option::Some(s) => Option::Some(s@),
                Option::None => Option::None,
            },
            severity: self.severity,
        }
    }
}

/// The models of a rule list.
pub open spec fn rule_models(rs: Seq<TextRule>) -> Seq<TextRuleModel> {
    rs.map_values(|r: TextRule| r@)
}

// ---------------------------------------------------------------------------
// Word boundaries and backtick spans
// ---------------------------------------------------------------------------

/// A match over `[p, e)` of `line` (character indices) is delimited by
/// non-alphanumeric characters, or the line's ends, on both sides.
pub open spec fn boundary_ok(line: Seq<char>, p: int, e: int) -> bool {
    &&& (p == 0 || !is_alnum_char(line[p - 1]))
    &&& (e >= line.len() || !is_alnum_char(line[e]))
}

/// Returns whether the match at `[start, end)` (character indices) is
/// delimited by non-alphanumeric characters on both sides. Multi-byte safe.
pub fn is_word_boundary(line: &Vec<char>, start: usize, end: usize) -> (r: bool)
    requires
        start <= line@.len(),
    ensures
        r == boundary_ok(line@, start as int, end as int),
{
    let before_ok = if start == 0 {
        true
    } else {
        !is_alnum(line[start - 1])
    };
    let after_ok = if end >= line.len() {
        true
    } else {
        !is_alnum(line[end])
    };
    before_ok && after_ok
}

/// The number of backtick characters among the first `i` characters.
pub open spec fn tick_count(s: Seq<char>, i: int) -> int
    decreases i,
{
    if i <= 0 {
        0
    } else {
        tick_count(s, i - 1) + if 0 <= i - 1 < s.len() && s[i - 1] == '`' {
            1int
        } else {
            0int
        }
    }
}

/// The range `[p, e)` lies strictly inside a single inline backtick span: an
/// odd number of backticks precede `p`, the character at `p` is not itself a
/// backtick, and no closing backtick falls inside the range.
pub open spec fn in_backtick(line: Seq<char>, p: int, e: int) -> bool {
    &&& p < line.len()
    &&& tick_count(line, p) % 2 == 1
    &&& line[p] != '`'
    &&& forall|j: int| p < j < e && j < line.len() ==> line[j] != '`'
}

/// Returns whether the entire character range `[start, end)` falls inside a
/// single inline backtick span. An unclosed backtick conservatively leaves
/// the rest of the line inside a span.
pub fn is_in_backtick_span(line: &Vec<char>, start: usize, end: usize) -> (r: bool)
    ensures
        r == in_backtick(line@, start as int, end as int),
{
    if start >= line.len() {
        return false;
    }
    if line[start] == '`' {
        return false;
    }
    // parity of backticks before `start`
    let mut i: usize = 0;
    let mut odd: bool = false;
    while i < start
        invariant
            start < line@.len(),
            i <= start,
            odd == (tick_count(line@, i as int) % 2 == 1),
        decreases start - i,
    {
        if line[i] == '`' {
            odd = !odd;
        }
        i += 1;
    }
    if !odd {
        return false;
    }
    // no closing backtick strictly inside the range
    let stop: usize = if end > line.len() {
        line.len()
    } else {
        end
    };
    let mut j: usize = start + 1;
    while j < stop
        invariant
            start < line@.len(),
            stop <= line@.len(),
            stop <= end,
            start + 1 <= j <= stop || j == start + 1,
            forall|k: int| start < k < j && k < line@.len() ==> line@[k] != '`',
            end > line@.len() ==> stop == line@.len(),
            end <= line@.len() ==> stop == end,
        decreases stop - j,
    {
        if line[j] == '`' {
            return false;
        }
        j += 1;
    }
    true
}

// ---------------------------------------------------------------------------
// The scan, one rule on one line
// ---------------------------------------------------------------------------

/// The view of an optional replacement string.
pub open spec fn opt_view(s: Option<String>) -> Option<Seq<char>> {
    match s {
        Option::Some(x) => Option::Some(x@),
        Option::None => Option::None,
    }
}

/// The finding emitted for a match of `rule` whose lowercased-line character
/// range is `[p, e)`: the column and the matched text are taken from the
/// original line at the same character indices.
pub open spec fn match_finding(
    orig: Seq<char>,
    rule: TextRuleModel,
    lineno: int,
    p: int,
    e: int,
) -> FindingModel {
    FindingModel {
        line: lineno,
        col: byte_off(orig, p),
        matched: orig.subrange(p, e),
        message: rule.message,
        replacement: rule.replacement,
        severity: rule.severity,
    }
}

/// Is the match at `[p, e)` of the lowercased line emitted? It must pass the
/// word-boundary test on the lowercased line, its character range must exist
/// in the original line, and (when `guard_ticks` is set) it must not lie
/// inside a backtick span of the original line.
pub open spec fn match_emitted(
    low: Seq<char>,
    orig: Seq<char>,
    p: int,
    e: int,
    guard_ticks: bool,
) -> bool {
    &&& boundary_ok(low, p, e)
    &&& e <= orig.len()
    &&& !(guard_ticks && in_backtick(orig, p, e))
}

/// The findings of one rule on one line, scanning the lowercased line from
/// character position `from` with a non-overlapping forward search.
pub open spec fn rule_scan(
    low: Seq<char>,
    orig: Seq<char>,
    rule: TextRuleModel,
    lineno: int,
    from: int,
    guard_ticks: bool,
) -> Seq<FindingModel>
    decreases low.len() - from,
    via rule_scan_decreases
{
    if rule.needle.len() == 0 {
        Seq::empty()
    } else {
        match first_match(low, rule.needle, from) {
            Option::None => Seq::empty(),
            Option::Some(i) => {
                let e = i + rule.needle.len() as int;
                (if match_emitted(low, orig, i, e, guard_ticks) {
                    seq![match_finding(orig, rule, lineno, i, e)]
                } else {
                    Seq::empty()
                }) + rule_scan(low, orig, rule, lineno, e, guard_ticks)
            },
        }
    }
}

#[via_fn]
proof fn rule_scan_decreases(
    low: Seq<char>,
    orig: Seq<char>,
    rule: TextRuleModel,
    lineno: int,
    from: int,
    guard_ticks: bool,
) {
    if rule.needle.len() > 0 {
        if from >= 0 {
            lemma_first_match_props(low, rule.needle, from);
        }
    }
}

/// Scan one rule over one line, appending the findings to `out`.
pub(crate) fn scan_rule_on_line(
    low: &Vec<char>,
    orig: &Vec<char>,
    needle: &Vec<char>,
    message: &String,
    replacement: &Option<String>,
    severity: Severity,
    lineno: usize,
    guard_ticks: bool,
    out: &mut Vec<Finding>,
)
    requires
        byte_len(orig@) <= usize::MAX,
    ensures
        finding_models(final(out)@) == finding_models(old(out)@) + rule_scan(
            low@,
            orig@,
            (TextRuleModel {
                needle: needle@,
                message: message@,
                replacement: opt_view(*replacement),
                severity,
            }),
            lineno as int,
            0,
            guard_ticks,
        ),
{
    let ghost rm = TextRuleModel {
        needle: needle@,
        message: message@,
        replacement: opt_view(*replacement),
        severity,
    };
    let ll: usize = low.len();
    if needle.len() == 0 {
        proof {
            assert(finding_models(out@) =~= finding_models(old(out)@) + rule_scan(
                low@,
                orig@,
                rm,
                lineno as int,
                0,
                guard_ticks,
            ));
        }
        return ;
    }
    let mut from: usize = 0;
    loop
        invariant
            rm == (TextRuleModel {
                needle: needle@,
                message: message@,
                replacement: opt_view(*replacement),
                severity,
            }),
            needle@.len() >= 1,
            ll == low@.len(),
            byte_len(orig@) <= usize::MAX,
            from <= low@.len() + 1,
            finding_models(out@) + rule_scan(low@, orig@, rm, lineno as int, from as int, guard_ticks)
                =~= finding_models(old(out)@) + rule_scan(
                low@,
                orig@,
                rm,
                lineno as int,
                0,
                guard_ticks,
            ),
        decreases low@.len() + 1 - from,
    {
        match find_from(low, needle, from) {
            Option::None => {
                proof {
                    assert(rule_scan(low@, orig@, rm, lineno as int, from as int, guard_ticks)
                        =~= Seq::<FindingModel>::empty());
                    assert(finding_models(out@) =~= finding_models(old(out)@) + rule_scan(
                        low@,
                        orig@,
                        rm,
                        lineno as int,
                        0,
                        guard_ticks,
                    ));
                }
                return ;
            },
            Option::Some(i) => {
                proof {
                    lemma_first_match_props(low@, needle@, from as int);
                }
                let e: usize = i + needle.len();
                let b_ok = is_word_boundary(low, i, e);
                let map_ok = e <= orig.len();
                let ticked = if guard_ticks && map_ok {
                    is_in_backtick_span(orig, i, e)
                } else {
                    false
                };
                let ghost pre = out@;
                if b_ok && map_ok && !ticked {
                    let matched = subvec(orig, i, e);
                    proof {
                        lemma_byte_len_subrange(orig@, 0, i as int);
                    }
                    let col = byte_offset_of(orig, i);
                    let f = Finding {
                        line: lineno,
                        col,
                        matched: chars_to_string(&matched),
                        message: clone_string(message),
                        replacement: clone_opt_string(replacement),
                        severity,
                    };
                    proof {
                        assert(f@ == match_finding(orig@, rm, lineno as int, i as int, e as int));
                    }
                    out.push(f);
                    proof {
                        assert(finding_models(out@) =~= finding_models(pre).push(
                            match_finding(orig@, rm, lineno as int, i as int, e as int),
                        ));
                    }
                }
                proof {
                    assert(rule_scan(low@, orig@, rm, lineno as int, from as int, guard_ticks)
                        == (if match_emitted(low@, orig@, i as int, e as int, guard_ticks) {
                        seq![match_finding(orig@, rm, lineno as int, i as int, e as int)]
                    } else {
                        Seq::<FindingModel>::empty()
                    }) + rule_scan(low@, orig@, rm, lineno as int, e as int, guard_ticks));
                    if b_ok && map_ok && !ticked {
                        assert(match_emitted(low@, orig@, i as int, e as int, guard_ticks));
                    } else {
                        assert(!match_emitted(low@, orig@, i as int, e as int, guard_ticks));
                    }
                    assert(finding_models(out@) + rule_scan(
                        low@,
                        orig@,
                        rm,
                        lineno as int,
                        e as int,
                        guard_ticks,
                    ) =~= finding_models(old(out)@) + rule_scan(
                        low@,
                        orig@,
                        rm,
                        lineno as int,
                        0,
                        guard_ticks,
                    ));
                }
                from = e;
            },
        }
    }
}

// ---------------------------------------------------------------------------
// The scan, all rules over all lines
// ---------------------------------------------------------------------------

/// The findings of the rules `rules[ri..]` on one line.
pub open spec fn rules_scan(
    low: Seq<char>,
    orig: Seq<char>,
    rules: Seq<TextRuleModel>,
    lineno: int,
    ri: int,
) -> Seq<FindingModel>
    decreases rules.len() - ri,
{
    if ri < 0 || ri >= rules.len() {
        Seq::empty()
    } else {
        rule_scan(low, orig, rules[ri], lineno, 0, true) + rules_scan(
            low,
            orig,
            rules,
            lineno,
            ri + 1,
        )
    }
}

/// A line whose trimmed content opens or closes a fenced code block.
pub open spec fn is_fence_line(line: Seq<char>) -> bool {
    has_prefix(trim_spec(line), seq!['`', '`', '`'])
}

/// A line whose trimmed content is a bare URL.
pub open spec fn is_url_line(line: Seq<char>) -> bool {
    has_prefix(trim_spec(line), "http://"@) || has_prefix(trim_spec(line), "https://"@)
}

/// The text findings of the lines `lines[li..]`, entering with fenced-block
/// state `fence`. Fence lines toggle the state and are themselves skipped;
/// lines inside a fence and bare URL lines are skipped.
pub open spec fn text_scan_lines(
    lines: Seq<Seq<char>>,
    rules: Seq<TextRuleModel>,
    li: int,
    fence: bool,
) -> Seq<FindingModel>
    decreases lines.len() - li,
{
    if li < 0 || li >= lines.len() {
        Seq::empty()
    } else if is_fence_line(lines[li]) {
        text_scan_lines(lines, rules, li + 1, !fence)
    } else if fence {
        text_scan_lines(lines, rules, li + 1, fence)
    } else if is_url_line(lines[li]) {
        text_scan_lines(lines, rules, li + 1, fence)
    } else {
        rules_scan(lower_of(lines[li]), lines[li], rules, li + 1, 0) + text_scan_lines(
            lines,
            rules,
            li + 1,
            fence,
        )
    }
}

/// The text findings of a buffer under a rule table.
pub open spec fn text_findings(content: Seq<char>, rules: Seq<TextRuleModel>) -> Seq<
    FindingModel,
> {
    text_scan_lines(lines_spec(content), rules, 0, false)
}

/// Scan all `rules` over the lines of `content`, appending findings to `out`.
/// Shared by the built-in text scanner and the user-rule binding (which skips
/// no lines but searches line by line in the same way).
pub fn scan_rules_over_line(
    low: &Vec<char>,
    orig: &Vec<char>,
    rules: &Vec<TextRule>,
    lineno: usize,
    out: &mut Vec<Finding>,
)
    requires
        byte_len(orig@) <= usize::MAX,
    ensures
        finding_models(final(out)@) == finding_models(old(out)@) + rules_scan(
            low@,
            orig@,
            rule_models(rules@),
            lineno as int,
            0,
        ),
{
    let ghost rm = rule_models(rules@);
    let mut ri: usize = 0;
    while ri < rules.len()
        invariant
            rm == rule_models(rules@),
            byte_len(orig@) <= usize::MAX,
            ri <= rules@.len(),
            finding_models(out@) + rules_scan(low@, orig@, rm, lineno as int, ri as int)
                =~= finding_models(old(out)@) + rules_scan(low@, orig@, rm, lineno as int, 0),
        decreases rules@.len() - ri,
    {
        let r = &rules[ri];
        let needle = str_to_chars(r.needle.as_str());
        proof {
            assert(rm[ri as int] == (TextRuleModel {
                needle: needle@,
                message: r.message@,
                replacement: opt_view(r.replacement),
                severity: r.severity,
            }));
        }
        scan_rule_on_line(
            low,
            orig,
            &needle,
            &r.message,
            &r.replacement,
            r.severity,
            lineno,
            true,
            out,
        );
        ri += 1;
        proof {
            assert(rules_scan(low@, orig@, rm, lineno as int, ri - 1) == rule_scan(
                low@,
                orig@,
                rm[ri - 1],
                lineno as int,
                0,
                true,
            ) + rules_scan(low@, orig@, rm, lineno as int, ri as int));
            assert(finding_models(out@) + rules_scan(low@, orig@, rm, lineno as int, ri as int)
                =~= finding_models(old(out)@) + rules_scan(low@, orig@, rm, lineno as int, 0));
        }
    }
    proof {
        assert(rules_scan(low@, orig@, rm, lineno as int, rules@.len() as int)
            =~= Seq::<FindingModel>::empty());
        assert(finding_models(out@) =~= finding_models(old(out)@) + rules_scan(
            low@,
            orig@,
            rm,
            lineno as int,
            0,
        ));
    }
}

/// Apply the built-in text rules to `content`, producing findings in buffer
/// order: by line, then in rule-table order, then left to right.
pub fn apply_text_rules(content: &str) -> (findings: Vec<Finding>)
    ensures
        finding_models(findings@) == text_findings(content@, spec_text_rules()),
{
    let rules = text_rules();
    let cv = str_to_chars(content);
    let lines = split_lines(&cv);
    let ghost lv = lines_spec(cv@);
    let ghost rm = spec_text_rules();
    let fence_mark = str_to_chars("```");
    let http_mark = str_to_chars("http://");
    let https_mark = str_to_chars("https://");
    proof {
        reveal_strlit("```");
        assert(fence_mark@ =~= seq!['`', '`', '`']);
    }
    let mut out: Vec<Finding> = Vec::new();
    let mut fence: bool = false;
    let mut li: usize = 0;
    while li < lines.len()
        invariant
            rm == spec_text_rules(),
            rule_models(rules@) == rm,
            lv == lines_spec(cv@),
            cv@ == content@,
            views_of(lines@) == lv,
            fence_mark@ == seq!['`', '`', '`'],
            http_mark@ == "http://"@,
            https_mark@ == "https://"@,
            byte_len(cv@) <= usize::MAX,
            forall|k: int| 0 <= k < lv.len() ==> byte_len(#[trigger] lv[k]) <= byte_len(cv@),
            li <= lines@.len(),
            finding_models(out@) + text_scan_lines(lv, rm, li as int, fence) =~= text_findings(
                content@,
                rm,
            ),
        decreases lines@.len() - li,
    {
        let line = &lines[li];
        proof {
            assert(line@ == lv[li as int]);
        }
        let trimmed = trim_chars(line);
        if starts_with_chars(&trimmed, &fence_mark) {
            proof {
                assert(is_fence_line(lv[li as int]));
            }
            fence = !fence;
        } else {
            proof {
                assert(!is_fence_line(lv[li as int]));
            }
            if fence {
                proof {
                    assert(text_scan_lines(lv, rm, li as int, fence) == text_scan_lines(
                        lv,
                        rm,
                        li + 1,
                        fence,
                    ));
                }
            } else {
                let url1 = starts_with_chars(&trimmed, &http_mark);
                let url2 = starts_with_chars(&trimmed, &https_mark);
                proof {
                    assert((url1 || url2) == is_url_line(lv[li as int]));
                }
                if url1 || url2 {
                } else {
                    let low = lower_chars(line);
                    scan_rules_over_line(&low, line, &rules, li + 1, &mut out);
                    proof {
                        assert(text_scan_lines(lv, rm, li as int, fence) == rules_scan(
                            lower_of(lv[li as int]),
                            lv[li as int],
                            rm,
                            li + 1,
                            0,
                        ) + text_scan_lines(lv, rm, li + 1, fence));
                    }
                }
            }
        }
        li += 1;
        proof {
            assert(finding_models(out@) + text_scan_lines(lv, rm, li as int, fence)
                =~= text_findings(content@, rm));
        }
    }
    proof {
        assert(text_scan_lines(lv, rm, lines@.len() as int, fence)
            =~= Seq::<FindingModel>::empty());
        assert(finding_models(out@) =~= text_findings(content@, rm));
    }
    out
}

// ---------------------------------------------------------------------------
// Laws of the text scan
// ---------------------------------------------------------------------------

/// The finding `f` names a real match site of the original line: its column
/// is the byte offset of a character index `p`, its matched text is exactly
/// the line's characters from `p` to some `e`, both ends are character (and
/// therefore UTF-8) boundaries, the site respects word boundaries on the
/// lowercased line, and (when the backtick guard is active) it does not sit
/// inside a backtick span.
pub open spec fn match_site_ok_with(
    low: Seq<char>,
    orig: Seq<char>,
    f: FindingModel,
    guard_ticks: bool,
) -> bool {
    exists|p: int, e: int|
        #![auto]
        0 <= p <= e <= orig.len() && f.col == byte_off(orig, p) && f.matched == orig.subrange(
            p,
            e,
        ) && boundary_ok(low, p, e) && !(guard_ticks && in_backtick(orig, p, e))
}

/// `match_site_ok_with` under the text scanner's backtick guard.
pub open spec fn match_site_ok(low: Seq<char>, orig: Seq<char>, f: FindingModel) -> bool {
    match_site_ok_with(low, orig, f, true)
}

pub proof fn lemma_rule_scan_located(
    low: Seq<char>,
    orig: Seq<char>,
    rule: TextRuleModel,
    lineno: int,
    from: int,
    guard_ticks: bool,
)
    requires
        from >= 0,
    ensures
        forall|k: int|
            0 <= k < rule_scan(low, orig, rule, lineno, from, guard_ticks).len() ==> {
                let f = #[trigger] rule_scan(low, orig, rule, lineno, from, guard_ticks)[k];
                f.line == lineno && match_site_ok_with(low, orig, f, guard_ticks)
            },
    decreases low.len() - from,
{
    if rule.needle.len() == 0 {
    } else {
        lemma_first_match_props(low, rule.needle, from);
        match first_match(low, rule.needle, from) {
            Option::None => {},
            Option::Some(i) => {
                let e = i + rule.needle.len() as int;
                lemma_rule_scan_located(low, orig, rule, lineno, e, guard_ticks);
                let w = rule_scan(low, orig, rule, lineno, from, guard_ticks);
                let rest = rule_scan(low, orig, rule, lineno, e, guard_ticks);
                if match_emitted(low, orig, i, e, guard_ticks) {
                    let f0 = match_finding(orig, rule, lineno, i, e);
                    assert(match_site_ok_with(low, orig, f0, guard_ticks)) by {
                        assert(0 <= i <= e <= orig.len() && f0.col == byte_off(orig, i)
                            && f0.matched == orig.subrange(i, e) && boundary_ok(low, i, e)
                            && !(guard_ticks && in_backtick(orig, i, e)));
                    }
                    assert(forall|k: int| 1 <= k < w.len() ==> w[k] == rest[k - 1]);
                } else {
                    assert(forall|k: int| 0 <= k < w.len() ==> w[k] == rest[k]);
                }
            },
        }
    }
}

proof fn lemma_rules_scan_located(
    low: Seq<char>,
    orig: Seq<char>,
    rules: Seq<TextRuleModel>,
    lineno: int,
    ri: int,
)
    ensures
        forall|k: int|
            0 <= k < rules_scan(low, orig, rules, lineno, ri).len() ==> {
                let f = #[trigger] rules_scan(low, orig, rules, lineno, ri)[k];
                f.line == lineno && match_site_ok(low, orig, f)
            },
    decreases rules.len() - ri,
{
    if 0 <= ri < rules.len() {
        lemma_rule_scan_located(low, orig, rules[ri], lineno, 0, true);
        lemma_rules_scan_located(low, orig, rules, lineno, ri + 1);
        let w = rules_scan(low, orig, rules, lineno, ri);
        let head = rule_scan(low, orig, rules[ri], lineno, 0, true);
        let rest = rules_scan(low, orig, rules, lineno, ri + 1);
        assert(forall|k: int|
            0 <= k < w.len() ==> w[k] == (if k < head.len() {
                head[k]
            } else {
                rest[k - head.len()]
            }));
    }
}

/// The fenced-block state just before line `k`, entering line `li` with
/// state `fence`.
pub open spec fn fence_before(lines: Seq<Seq<char>>, k: int, li: int, fence: bool) -> bool
    decreases k - li,
{
    if k <= li {
        fence
    } else {
        let prev = fence_before(lines, k - 1, li, fence);
        if 0 <= k - 1 < lines.len() && is_fence_line(lines[k - 1]) {
            !prev
        } else {
            prev
        }
    }
}

proof fn lemma_fence_before_shift(lines: Seq<Seq<char>>, k: int, li: int, fence: bool)
    requires
        li + 1 <= k,
        0 <= li,
    ensures
        fence_before(lines, k, li, fence) == fence_before(
            lines,
            k,
            li + 1,
            if li < lines.len() && is_fence_line(lines[li]) {
                !fence
            } else {
                fence
            },
        ),
    decreases k - li,
{
    if k == li + 1 {
        assert(fence_before(lines, li, li, fence) == fence);
        assert(fence_before(
            lines,
            li + 1,
            li + 1,
            if li < lines.len() && is_fence_line(lines[li]) {
                !fence
            } else {
                fence
            },
        ) == (if li < lines.len() && is_fence_line(lines[li]) {
            !fence
        } else {
            fence
        }));
    } else {
        lemma_fence_before_shift(lines, k - 1, li, fence);
    }
}

proof fn lemma_text_scan_located(
    lines: Seq<Seq<char>>,
    rules: Seq<TextRuleModel>,
    li: int,
    fence: bool,
)
    requires
        0 <= li,
    ensures
        forall|k: int|
            0 <= k < text_scan_lines(lines, rules, li, fence).len() ==> {
                let f = #[trigger] text_scan_lines(lines, rules, li, fence)[k];
                &&& li + 1 <= f.line <= lines.len()
                &&& match_site_ok(lower_of(lines[f.line - 1]), lines[f.line - 1], f)
                &&& !is_fence_line(lines[f.line - 1])
                &&& !is_url_line(lines[f.line - 1])
                &&& !fence_before(lines, f.line - 1, li, fence)
            },
    decreases lines.len() - li,
{
    if li >= lines.len() {
    } else if is_fence_line(lines[li]) {
        lemma_text_scan_located(lines, rules, li + 1, !fence);
        assert forall|k: int|
            0 <= k < text_scan_lines(lines, rules, li, fence).len() implies {
            let f = #[trigger] text_scan_lines(lines, rules, li, fence)[k];
            !fence_before(lines, f.line - 1, li, fence) && li + 1 <= f.line
        } by {
            let f = text_scan_lines(lines, rules, li, fence)[k];
            lemma_fence_before_shift(lines, f.line - 1, li, fence);
        }
    } else if fence {
        lemma_text_scan_located(lines, rules, li + 1, fence);
        assert forall|k: int|
            0 <= k < text_scan_lines(lines, rules, li, fence).len() implies {
            let f = #[trigger] text_scan_lines(lines, rules, li, fence)[k];
            !fence_before(lines, f.line - 1, li, fence)
        } by {
            let f = text_scan_lines(lines, rules, li, fence)[k];
            lemma_fence_before_shift(lines, f.line - 1, li, fence);
        }
    } else if is_url_line(lines[li]) {
        lemma_text_scan_located(lines, rules, li + 1, fence);
        assert forall|k: int|
            0 <= k < text_scan_lines(lines, rules, li, fence).len() implies {
            let f = #[trigger] text_scan_lines(lines, rules, li, fence)[k];
            !fence_before(lines, f.line - 1, li, fence)
        } by {
            let f = text_scan_lines(lines, rules, li, fence)[k];
            lemma_fence_before_shift(lines, f.line - 1, li, fence);
        }
    } else {
        lemma_rules_scan_located(lower_of(lines[li]), lines[li], rules, li + 1, 0);
        lemma_text_scan_located(lines, rules, li + 1, fence);
        let w = text_scan_lines(lines, rules, li, fence);
        let head = rules_scan(lower_of(lines[li]), lines[li], rules, li + 1, 0);
        let rest = text_scan_lines(lines, rules, li + 1, fence);
        assert forall|k: int| 0 <= k < w.len() implies {
            let f = #[trigger] w[k];
            &&& li + 1 <= f.line <= lines.len()
            &&& match_site_ok(lower_of(lines[f.line - 1]), lines[f.line - 1], f)
            &&& !is_fence_line(lines[f.line - 1])
            &&& !is_url_line(lines[f.line - 1])
            &&& !fence_before(lines, f.line - 1, li, fence)
        } by {
            if k < head.len() {
                assert(w[k] == head[k]);
                assert(w[k].line == li + 1);
                assert(fence_before(lines, li, li, fence) == fence);
            } else {
                assert(w[k] == rest[k - head.len()]);
                lemma_fence_before_shift(lines, w[k].line - 1, li, fence);
            }
        }
    }
}

/// Every finding of the text scan points at a real span of the line it names:
/// the matched text is the very slice of that line at the reported byte
/// column, both endpoints lie on character boundaries, the match respects
/// word boundaries on the lowercased line and lies in no backtick span; and
/// no finding names a fence line, a line inside a fenced block, or a bare URL
/// line.
pub proof fn lemma_text_findings_located(content: Seq<char>, rules: Seq<TextRuleModel>)
    ensures
        forall|k: int|
            0 <= k < text_findings(content, rules).len() ==> {
                let f = #[trigger] text_findings(content, rules)[k];
                let lines = lines_spec(content);
                &&& 1 <= f.line <= lines.len()
                &&& match_site_ok(lower_of(lines[f.line - 1]), lines[f.line - 1], f)
                &&& !is_fence_line(lines[f.line - 1])
                &&& !is_url_line(lines[f.line - 1])
                &&& !fence_before(lines, f.line - 1, 0, false)
            },
{
    lemma_text_scan_located(lines_spec(content), rules, 0, false);
}

/// The rule's replacement, if any, is non-empty and newline-free.
pub open spec fn rule_replacement_good(r: TextRuleModel) -> bool {
    match r.replacement {
        Option::Some(x) => x.len() > 0 && (forall|i: int| 0 <= i < x.len() ==> x[i] != '\n'),
        Option::None => true,
    }
}

proof fn lemma_rule_scan_replacements(
    low: Seq<char>,
    orig: Seq<char>,
    rule: TextRuleModel,
    lineno: int,
    from: int,
)
    requires
        from >= 0,
        rule_replacement_good(rule),
    ensures
        forall|k: int|
            0 <= k < rule_scan(low, orig, rule, lineno, from, true).len()
                ==> crate::rules::good_replacement(
                #[trigger] rule_scan(low, orig, rule, lineno, from, true)[k],
            ),
    decreases low.len() - from,
{
    if rule.needle.len() > 0 {
        lemma_first_match_props(low, rule.needle, from);
        match first_match(low, rule.needle, from) {
            Option::None => {},
            Option::Some(i) => {
                let e = i + rule.needle.len() as int;
                lemma_rule_scan_replacements(low, orig, rule, lineno, e);
                let w = rule_scan(low, orig, rule, lineno, from, true);
                let rest = rule_scan(low, orig, rule, lineno, e, true);
                if match_emitted(low, orig, i, e, true) {
                    assert(forall|k: int| 1 <= k < w.len() ==> w[k] == rest[k - 1]);
                } else {
                    assert(forall|k: int| 0 <= k < w.len() ==> w[k] == rest[k]);
                }
            },
        }
    }
}

proof fn lemma_rules_scan_replacements(
    low: Seq<char>,
    orig: Seq<char>,
    rules: Seq<TextRuleModel>,
    lineno: int,
    ri: int,
)
    requires
        forall|t: int| 0 <= t < rules.len() ==> rule_replacement_good(#[trigger] rules[t]),
    ensures
        forall|k: int|
            0 <= k < rules_scan(low, orig, rules, lineno, ri).len()
                ==> crate::rules::good_replacement(
                #[trigger] rules_scan(low, orig, rules, lineno, ri)[k],
            ),
    decreases rules.len() - ri,
{
    if 0 <= ri < rules.len() {
        lemma_rule_scan_replacements(low, orig, rules[ri], lineno, 0);
        lemma_rules_scan_replacements(low, orig, rules, lineno, ri + 1);
        let w = rules_scan(low, orig, rules, lineno, ri);
        let head = rule_scan(low, orig, rules[ri], lineno, 0, true);
        let rest = rules_scan(low, orig, rules, lineno, ri + 1);
        assert(forall|k: int|
            0 <= k < w.len() ==> w[k] == (if k < head.len() {
                head[k]
            } else {
                rest[k - head.len()]
            }));
    }
}

proof fn lemma_text_scan_replacements(
    lines: Seq<Seq<char>>,
    rules: Seq<TextRuleModel>,
    li: int,
    fence: bool,
)
    requires
        forall|t: int| 0 <= t < rules.len() ==> rule_replacement_good(#[trigger] rules[t]),
    ensures
        forall|k: int|
            0 <= k < text_scan_lines(lines, rules, li, fence).len()
                ==> crate::rules::good_replacement(
                #[trigger] text_scan_lines(lines, rules, li, fence)[k],
            ),
    decreases lines.len() - li,
{
    if li < 0 || li >= lines.len() {
    } else if is_fence_line(lines[li]) {
        lemma_text_scan_replacements(lines, rules, li + 1, !fence);
        assert(text_scan_lines(lines, rules, li, fence) == text_scan_lines(
            lines,
            rules,
            li + 1,
            !fence,
        ));
    } else if fence || is_url_line(lines[li]) {
        lemma_text_scan_replacements(lines, rules, li + 1, fence);
        assert(text_scan_lines(lines, rules, li, fence) == text_scan_lines(
            lines,
            rules,
            li + 1,
            fence,
        ));
    } else {
        lemma_rules_scan_replacements(lower_of(lines[li]), lines[li], rules, li + 1, 0);
        lemma_text_scan_replacements(lines, rules, li + 1, fence);
        let w = text_scan_lines(lines, rules, li, fence);
        let head = rules_scan(lower_of(lines[li]), lines[li], rules, li + 1, 0);
        let rest = text_scan_lines(lines, rules, li + 1, fence);
        assert(forall|k: int|
            0 <= k < w.len() ==> w[k] == (if k < head.len() {
                head[k]
            } else {
                rest[k - head.len()]
            }));
    }
}

/// Every finding of the text scan inherits its rule's replacement, so under a
/// well-curated table every replacement is non-empty and newline-free.
pub proof fn lemma_text_findings_replacements(content: Seq<char>, rules: Seq<TextRuleModel>)
    requires
        forall|t: int| 0 <= t < rules.len() ==> rule_replacement_good(#[trigger] rules[t]),
    ensures
        forall|k: int|
            0 <= k < text_findings(content, rules).len() ==> crate::rules::good_replacement(
                #[trigger] text_findings(content, rules)[k],
            ),
{
    lemma_text_scan_replacements(lines_spec(content), rules, 0, false);
}

/// A fenced three-line buffer silences its middle line: whatever the middle
/// line holds (anything without a newline), the scan emits no finding naming
/// line 2 — the opening fence puts line 2 inside a fenced block. The one
/// Unicode fact taken as a hypothesis is that the backtick is not whitespace,
/// which the trusted character classes leave uninterpreted.
pub proof fn lemma_fenced_buffer_silences_line_two(mid: Seq<char>, rules: Seq<TextRuleModel>)
    requires
        !crate::strutil::is_wspace_char('`'),
        forall|i: int| 0 <= i < mid.len() ==> mid[i] != '\n',
    ensures
        ({
            let fence = seq!['`', '`', '`'];
            let content = fence + seq!['\n'] + mid + seq!['\n'] + fence + seq!['\n'];
            forall|k: int|
                0 <= k < text_findings(content, rules).len() ==> (#[trigger] text_findings(
                    content,
                    rules,
                )[k]).line != 2
        }),
{
    let fence = seq!['`', '`', '`'];
    let content = fence + seq!['\n'] + mid + seq!['\n'] + fence + seq!['\n'];
    assert(content.subrange(0, 3) =~= fence);
    assert(content[3] == '\n');
    crate::strutil::lemma_line_at(content, 0, fence);
    let lines = lines_spec(content);
    assert(lines == seq![fence] + crate::strutil::lines_from(content, 4));
    assert(lines[0] == fence);
    assert(trim_spec(fence) == fence) by {
        assert(crate::strutil::trim_start_idx(fence, 0) == 0);
        assert(crate::strutil::trim_end_idx(fence, 0, 3) == 3);
        assert(fence.subrange(0, 3) =~= fence);
    }
    assert(is_fence_line(fence)) by {
        assert(trim_spec(fence).take(3) =~= fence);
    }
    assert(fence_before(lines, 1, 0, false)) by {
        assert(fence_before(lines, 0, 0, false) == false);
    }
    lemma_text_findings_located(content, rules);
    assert forall|k: int|
        0 <= k < text_findings(content, rules).len() implies (#[trigger] text_findings(
        content,
        rules,
    )[k]).line != 2 by {
        let f = text_findings(content, rules)[k];
        if f.line == 2 {
            assert(!fence_before(lines, 1, 0, false));
        }
    }
}

/// Every replacement in the built-in table is non-empty and newline-free.
pub proof fn lemma_spec_text_rules_good()
    ensures
        forall|t: int|
            0 <= t < spec_text_rules().len() ==> rule_replacement_good(
                #[trigger] spec_text_rules()[t],
            ),
{
    reveal_strlit("explore");
    reveal_strlit("explores");
    reveal_strlit("key");
    reveal_strlit("using");
    reveal_strlit("use");
    reveal_strlit("help");
    reveal_strlit("try");
    reveal_strlit("start");
    reveal_strlit("thorough");
    reveal_strlit("important");
    reveal_strlit("then");
    reveal_strlit("could");
    reveal_strlit("might");
    reveal_strlit("to");
    reveal_strlit("because");
    assert forall|t: int| 0 <= t < spec_text_rules().len() implies rule_replacement_good(
        #[trigger] spec_text_rules()[t],
    ) by {
        let a = text_rules_tells();
        let b = text_rules_fillers();
        let c = text_rules_chat();
        let d = text_rules_hedges();
        if t < a.len() {
            assert(spec_text_rules()[t] == a[t]);
        } else if t < a.len() + b.len() {
            assert(spec_text_rules()[t] == b[t - a.len()]);
        } else if t < a.len() + b.len() + c.len() {
            assert(spec_text_rules()[t] == c[t - a.len() - b.len()]);
        } else {
            assert(spec_text_rules()[t] == d[t - a.len() - b.len() - c.len()]);
        }
    }
}

// ---------------------------------------------------------------------------
// The built-in rule table
// ---------------------------------------------------------------------------

pub open spec fn text_rules_tells() -> Seq<TextRuleModel> {
    seq![
        TextRuleModel {
            needle: "delve"@,
            message: "LLM tell: 'delve' (25× excess frequency, Kobak 2025)"@,
            replacement: Option::Some("explore"@),
            severity: Severity::Critical,
        },
        TextRuleModel {
            needle: "delves"@,
            message: "LLM tell: 'delves' (25× excess frequency, Kobak 2025)"@,
            replacement: Option::Some("explores"@),
            severity: Severity::Critical,
        },
        TextRuleModel {
            needle: "showcasing"@,
            message: "LLM tell: 'showcasing' (9.2× excess frequency, Kobak 2025)"@,
            replacement: Option::None,
            severity: Severity::High,
        },
        TextRuleModel {
            needle: "underscore"@,
            message: "LLM tell: 'underscore/underscores' (9.1× excess frequency, Kobak 2025)"@,
            replacement: Option::None,
            severity: Severity::High,
        },
        TextRuleModel {
            needle: "meticulous"@,
            message: "LLM tell: 'meticulous' (Kobak 2025, Neri 2024)"@,
            replacement: Option::None,
            severity: Severity::High,
        },
        TextRuleModel {
            needle: "meticulously"@,
            message: "LLM tell: 'meticulously' (Kobak 2025, Neri 2024)"@,
            replacement: Option::None,
            severity: Severity::High,
        },
        TextRuleModel {
            needle: "intricate"@,
            message: "LLM tell: 'intricate' (Kobak 2025, Liang 2024)"@,
            replacement: Option::None,
            severity: Severity::High,
        },
        TextRuleModel {
            needle: "realm"@,
            message: "LLM tell: 'realm' (Liang 2024, Neri 2024)"@,
            replacement: Option::None,
            severity: Severity::High,
        },
        TextRuleModel {
            needle: "pivotal"@,
            message: "LLM tell: 'pivotal' (Kobak 2025, Liang 2024)"@,
            replacement: Option::Some("key"@),
            severity: Severity::High,
        },
        TextRuleModel {
            needle: "notably"@,
            message: "LLM tell: 'notably' (Kobak 2025)"@,
            replacement: Option::None,
            severity: Severity::High,
        },
        TextRuleModel {
            needle: "leveraging"@,
            message: "LLM filler: 'leveraging' (Kobak 2025)"@,
            replacement: Option::Some("using"@),
            severity: Severity::High,
        },
        TextRuleModel {
            needle: "leverage"@,
            message: "LLM filler: 'leverage' when used as verb (Kobak 2025)"@,
            replacement: Option::Some("use"@),
            severity: Severity::High,
        },
        TextRuleModel {
            needle: "streamline"@,
            message: "LLM filler: 'streamline' (Kobak 2025)"@,
            replacement: Option::None,
            severity: Severity::High,
        },
        TextRuleModel {
            needle: "utilize"@,
            message: "LLM filler: 'utilize' (Kobak 2025)"@,
            replacement: Option::Some("use"@),
            severity: Severity::High,
        },
        TextRuleModel {
            needle: "facilitate"@,
            message: "LLM filler: 'facilitate' (Kobak 2025)"@,
            replacement: Option::Some("help"@),
            severity: Severity::High,
        },
        TextRuleModel {
            needle: "endeavor"@,
            message: "LLM filler: 'endeavor' (Kobak 2025)"@,
            replacement: Option::Some("try"@),
            severity: Severity::High,
        },
        TextRuleModel {
            needle: "commence"@,
            message: "LLM filler: 'commence' (Kobak 2025)"@,
            replacement: Option::Some("start"@),
            severity: Severity::High,
        },
        TextRuleModel {
            needle: "tapestry"@,
            message: "LLM filler: 'tapestry' (Neri 2024)"@,
            replacement: Option::None,
            severity: Severity::High,
        },
        TextRuleModel {
            needle: "testament"@,
            message: "LLM filler: 'testament' (Neri 2024)"@,
            replacement: Option::None,
            severity: Severity::High,
        },
        TextRuleModel {
            needle: "stands as a testament"@,
            message: "LLM cliché: 'stands as a testament' (Neri 2024)"@,
            replacement: Option::None,
            severity: Severity::High,
        },
    ]
}

pub open spec fn text_rules_fillers() -> Seq<TextRuleModel> {
    seq![
        TextRuleModel {
            needle: "comprehensive"@,
            message: "LLM filler: 'comprehensive' (Kobak 2025 δ=high)"@,
            replacement: Option::Some("thorough"@),
            severity: Severity::Medium,
        },
        TextRuleModel {
            needle: "crucial"@,
            message: "LLM filler: 'crucial' (Kobak 2025 δ=0.026)"@,
            replacement: Option::Some("important"@),
            severity: Severity::Medium,
        },
        TextRuleModel {
            needle: "particularly"@,
            message: "LLM filler: 'particularly' (Kobak 2025 cross-validated)"@,
            replacement: Option::None,
            severity: Severity::Medium,
        },
        TextRuleModel {
            needle: "enhancing"@,
            message: "LLM tell: 'enhancing' (Kobak 2025 cross-validated)"@,
            replacement: Option::None,
            severity: Severity::Medium,
        },
        TextRuleModel {
            needle: "exhibited"@,
            message: "LLM tell: 'exhibited' (Kobak 2025 cross-validated)"@,
            replacement: Option::None,
            severity: Severity::Medium,
        },
        TextRuleModel {
            needle: "insights"@,
            message: "LLM filler: 'insights' (Kobak 2025 cross-validated)"@,
            replacement: Option::None,
            severity: Severity::Medium,
        },
        TextRuleModel {
            needle: "boast"@,
            message: "LLM filler: 'boast/boasts' as in 'boasts features' (Kobak 2025)"@,
            replacement: Option::None,
            severity: Severity::Medium,
        },
        TextRuleModel {
            needle: "harnessing"@,
            message: "LLM filler: 'harnessing' (Juzek 2025 emerging signal)"@,
            replacement: Option::Some("using"@),
            severity: Severity::Medium,
        },
        TextRuleModel {
            needle: "harnesses"@,
            message: "LLM filler: 'harnesses' (Juzek 2025 emerging signal)"@,
            replacement: Option::None,
            severity: Severity::Medium,
        },
        TextRuleModel {
            needle: "groundbreaking"@,
            message: "LLM filler: 'groundbreaking' (Kobak 2025)"@,
            replacement: Option::None,
            severity: Severity::Medium,
        },
        TextRuleModel {
            needle: "innovative"@,
            message: "LLM filler: 'innovative' (Kobak 2025, lower ratio)"@,
            replacement: Option::None,
            severity: Severity::Medium,
        },
        TextRuleModel {
            needle: "revolutionary"@,
            message: "LLM filler: 'revolutionary' (Kobak 2025, lower ratio)"@,
            replacement: Option::None,
            severity: Severity::Medium,
        },
        TextRuleModel {
            needle: "cutting-edge"@,
            message: "LLM filler: 'cutting-edge' (Kobak 2025, lower ratio)"@,
            replacement: Option::None,
            severity: Severity::Medium,
        },
        TextRuleModel {
            needle: "robust"@,
            message: "LLM filler: 'robust' (Kobak 2025; legitimate in security specs — review context)"@,
            replacement: Option::None,
            severity: Severity::Medium,
        },
        TextRuleModel {
            needle: "multifaceted"@,
            message: "LLM filler: 'multifaceted' (Kobak 2025)"@,
            replacement: Option::None,
            severity: Severity::Medium,
        },
        TextRuleModel {
            needle: "vibrant"@,
            message: "LLM filler: 'vibrant' (Kobak 2025)"@,
            replacement: Option::None,
            severity: Severity::Medium,
        },
        TextRuleModel {
            needle: "seamlessly"@,
            message: "LLM filler: 'seamlessly' (Kobak 2025)"@,
            replacement: Option::None,
            severity: Severity::Medium,
        },
        TextRuleModel {
            needle: "ingrained"@,
            message: "LLM filler: 'ingrained' (Kobak 2025)"@,
            replacement: Option::None,
            severity: Severity::Medium,
        },
        TextRuleModel {
            needle: "indelible"@,
            message: "LLM filler: 'indelible' (Kobak 2025)"@,
            replacement: Option::None,
            severity: Severity::Medium,
        },
        TextRuleModel {
            needle: "evolving landscape"@,
            message: "LLM cliché: 'evolving landscape' (Kobak 2025)"@,
            replacement: Option::None,
            severity: Severity::Medium,
        },
    ]
}

pub open spec fn text_rules_chat() -> Seq<TextRuleModel> {
    seq![
        TextRuleModel {
            needle: "certainly!"@,
            message: "Sycophantic opener: 'Certainly!' (RLHF-induced, Juzek 2025)"@,
            replacement: Option::None,
            severity: Severity::Critical,
        },
        TextRuleModel {
            needle: "great question!"@,
            message: "Sycophantic opener: 'Great question!' (RLHF-induced, Juzek 2025)"@,
            replacement: Option::None,
            severity: Severity::Critical,
        },
        TextRuleModel {
            needle: "of course!"@,
            message: "Sycophantic opener: 'Of course!' (RLHF-induced, Juzek 2025)"@,
            replacement: Option::None,
            severity: Severity::Critical,
        },
        TextRuleModel {
            needle: "absolutely!"@,
            message: "Sycophantic opener: 'Absolutely!' (RLHF-induced, Juzek 2025)"@,
            replacement: Option::None,
            severity: Severity::Critical,
        },
        TextRuleModel {
            needle: "happy to help"@,
            message: "Sycophantic opener: 'happy to help' (RLHF-induced, Juzek 2025)"@,
            replacement: Option::None,
            severity: Severity::Critical,
        },
        TextRuleModel {
            needle: "happy to explain"@,
            message: "Sycophantic opener: 'happy to explain' (RLHF-induced, Juzek 2025)"@,
            replacement: Option::None,
            severity: Severity::Critical,
        },
        TextRuleModel {
            needle: "i'd be happy to"@,
            message: "Sycophantic opener: 'I'd be happy to' (RLHF-induced, Juzek 2025)"@,
            replacement: Option::None,
            severity: Severity::Critical,
        },
        TextRuleModel {
            needle: "i would be happy to"@,
            message: "Sycophantic opener: 'I would be happy to' (RLHF-induced, Juzek 2025)"@,
            replacement: Option::None,
            severity: Severity::Critical,
        },
        TextRuleModel {
            needle: "i hope this helps"@,
            message: "Chatbot closer: 'I hope this helps' (RLHF-induced, Juzek 2025)"@,
            replacement: Option::None,
            severity: Severity::Critical,
        },
        TextRuleModel {
            needle: "let me know if"@,
            message: "Chatbot closer: 'Let me know if' (RLHF-induced, Juzek 2025)"@,
            replacement: Option::None,
            severity: Severity::Critical,
        },
        TextRuleModel {
            needle: "feel free to"@,
            message: "Chatbot closer: 'Feel free to' (RLHF-induced, Juzek 2025)"@,
            replacement: Option::None,
            severity: Severity::Critical,
        },
    ]
}

pub open spec fn text_rules_hedges() -> Seq<TextRuleModel> {
    seq![
        TextRuleModel {
            needle: "moreover"@,
            message: "LLM connector: 'moreover' (Rosenfeld 2024)"@,
            replacement: Option::None,
            severity: Severity::Low,
        },
        TextRuleModel {
            needle: "furthermore"@,
            message: "LLM connector: 'furthermore' (Rosenfeld 2024)"@,
            replacement: Option::None,
            severity: Severity::Low,
        },
        TextRuleModel {
            needle: "subsequently"@,
            message: "LLM connector: 'subsequently' (Kobak 2025)"@,
            replacement: Option::Some("then"@),
            severity: Severity::Low,
        },
        TextRuleModel {
            needle: "in conclusion"@,
            message: "LLM connector: 'in conclusion' (Rosenfeld 2024)"@,
            replacement: Option::None,
            severity: Severity::Low,
        },
        TextRuleModel {
            needle: "serves as a reminder"@,
            message: "LLM filler: 'serves as a reminder'"@,
            replacement: Option::None,
            severity: Severity::Low,
        },
        TextRuleModel {
            needle: "it is worth noting"@,
            message: "LLM hedge: 'it is worth noting' (Kobak 2025)"@,
            replacement: Option::None,
            severity: Severity::Low,
        },
        TextRuleModel {
            needle: "it is important to note"@,
            message: "LLM hedge: 'it is important to note'"@,
            replacement: Option::None,
            severity: Severity::Low,
        },
        TextRuleModel {
            needle: "could potentially"@,
            message: "Hedging: 'could potentially'"@,
            replacement: Option::Some("could"@),
            severity: Severity::Low,
        },
        TextRuleModel {
            needle: "might possibly"@,
            message: "Hedging: 'might possibly'"@,
            replacement: Option::Some("might"@),
            severity: Severity::Low,
        },
        TextRuleModel {
            needle: "arguably could be considered"@,
            message: "Hedging: 'arguably could be considered'"@,
            replacement: Option::None,
            severity: Severity::Low,
        },
        TextRuleModel {
            needle: "in order to"@,
            message: "Filler: 'in order to'"@,
            replacement: Option::Some("to"@),
            severity: Severity::Low,
        },
        TextRuleModel {
            needle: "due to the fact that"@,
            message: "Filler: 'due to the fact that'"@,
            replacement: Option::Some("because"@),
            severity: Severity::Low,
        },
    ]
}

/// The built-in text-rule table, as a specification-level value.
pub open spec fn spec_text_rules() -> Seq<TextRuleModel> {
    text_rules_tells() + text_rules_fillers() + text_rules_chat() + text_rules_hedges()
}

fn push_rules_tells(v: &mut Vec<TextRule>)
    ensures
        rule_models(final(v)@) == rule_models(old(v)@) + text_rules_tells(),
{
    let ghost pre = v@;
    v.push(mk_rule(
        "delve",
        "LLM tell: 'delve' (25× excess frequency, Kobak 2025)",
        Option::Some("explore"),
        Severity::Critical,
    ));
    v.push(mk_rule(
        "delves",
        "LLM tell: 'delves' (25× excess frequency, Kobak 2025)",
        Option::Some("explores"),
        Severity::Critical,
    ));
    v.push(mk_rule(
        "showcasing",
        "LLM tell: 'showcasing' (9.2× excess frequency, Kobak 2025)",
        Option::None,
        Severity::High,
    ));
    v.push(mk_rule(
        "underscore",
        "LLM tell: 'underscore/underscores' (9.1× excess frequency, Kobak 2025)",
        Option::None,
        Severity::High,
    ));
    v.push(mk_rule(
        "meticulous",
        "LLM tell: 'meticulous' (Kobak 2025, Neri 2024)",
        Option::None,
        Severity::High,
    ));
    v.push(mk_rule(
        "meticulously",
        "LLM tell: 'meticulously' (Kobak 2025, Neri 2024)",
        Option::None,
        Severity::High,
    ));
    v.push(mk_rule(
        "intricate",
        "LLM tell: 'intricate' (Kobak 2025, Liang 2024)",
        Option::None,
        Severity::High,
    ));
    v.push(mk_rule(
        "realm",
        "LLM tell: 'realm' (Liang 2024, Neri 2024)",
        Option::None,
        Severity::High,
    ));
    v.push(mk_rule(
        "pivotal",
        "LLM tell: 'pivotal' (Kobak 2025, Liang 2024)",
        Option::Some("key"),
        Severity::High,
    ));
    v.push(mk_rule(
        "notably",
        "LLM tell: 'notably' (Kobak 2025)",
        Option::None,
        Severity::High,
    ));
    v.push(mk_rule(
        "leveraging",
        "LLM filler: 'leveraging' (Kobak 2025)",
        Option::Some("using"),
        Severity::High,
    ));
    v.push(mk_rule(
        "leverage",
        "LLM filler: 'leverage' when used as verb (Kobak 2025)",
        Option::Some("use"),
        Severity::High,
    ));
    v.push(mk_rule(
        "streamline",
        "LLM filler: 'streamline' (Kobak 2025)",
        Option::None,
        Severity::High,
    ));
    v.push(mk_rule(
        "utilize",
        "LLM filler: 'utilize' (Kobak 2025)",
        Option::Some("use"),
        Severity::High,
    ));
    v.push(mk_rule(
        "facilitate",
        "LLM filler: 'facilitate' (Kobak 2025)",
        Option::Some("help"),
        Severity::High,
    ));
    v.push(mk_rule(
        "endeavor",
        "LLM filler: 'endeavor' (Kobak 2025)",
        Option::Some("try"),
        Severity::High,
    ));
    v.push(mk_rule(
        "commence",
        "LLM filler: 'commence' (Kobak 2025)",
        Option::Some("start"),
        Severity::High,
    ));
    v.push(mk_rule(
        "tapestry",
        "LLM filler: 'tapestry' (Neri 2024)",
        Option::None,
        Severity::High,
    ));
    v.push(mk_rule(
        "testament",
        "LLM filler: 'testament' (Neri 2024)",
        Option::None,
        Severity::High,
    ));
    v.push(mk_rule(
        "stands as a testament",
        "LLM cliché: 'stands as a testament' (Neri 2024)",
        Option::None,
        Severity::High,
    ));
    proof {
        assert(rule_models(v@) =~= rule_models(pre) + text_rules_tells());
    }
}

fn push_rules_fillers(v: &mut Vec<TextRule>)
    ensures
        rule_models(final(v)@) == rule_models(old(v)@) + text_rules_fillers(),
{
    let ghost pre = v@;
    v.push(mk_rule(
        "comprehensive",
        "LLM filler: 'comprehensive' (Kobak 2025 δ=high)",
        Option::Some("thorough"),
        Severity::Medium,
    ));
    v.push(mk_rule(
        "crucial",
        "LLM filler: 'crucial' (Kobak 2025 δ=0.026)",
        Option::Some("important"),
        Severity::Medium,
    ));
    v.push(mk_rule(
        "particularly",
        "LLM filler: 'particularly' (Kobak 2025 cross-validated)",
        Option::None,
        Severity::Medium,
    ));
    v.push(mk_rule(
        "enhancing",
        "LLM tell: 'enhancing' (Kobak 2025 cross-validated)",
        Option::None,
        Severity::Medium,
    ));
    v.push(mk_rule(
        "exhibited",
        "LLM tell: 'exhibited' (Kobak 2025 cross-validated)",
        Option::None,
        Severity::Medium,
    ));
    v.push(mk_rule(
        "insights",
        "LLM filler: 'insights' (Kobak 2025 cross-validated)",
        Option::None,
        Severity::Medium,
    ));
    v.push(mk_rule(
        "boast",
        "LLM filler: 'boast/boasts' as in 'boasts features' (Kobak 2025)",
        Option::None,
        Severity::Medium,
    ));
    v.push(mk_rule(
        "harnessing",
        "LLM filler: 'harnessing' (Juzek 2025 emerging signal)",
        Option::Some("using"),
        Severity::Medium,
    ));
    v.push(mk_rule(
        "harnesses",
        "LLM filler: 'harnesses' (Juzek 2025 emerging signal)",
        Option::None,
        Severity::Medium,
    ));
    v.push(mk_rule(
        "groundbreaking",
        "LLM filler: 'groundbreaking' (Kobak 2025)",
        Option::None,
        Severity::Medium,
    ));
    v.push(mk_rule(
        "innovative",
        "LLM filler: 'innovative' (Kobak 2025, lower ratio)",
        Option::None,
        Severity::Medium,
    ));
    v.push(mk_rule(
        "revolutionary",
        "LLM filler: 'revolutionary' (Kobak 2025, lower ratio)",
        Option::None,
        Severity::Medium,
    ));
    v.push(mk_rule(
        "cutting-edge",
        "LLM filler: 'cutting-edge' (Kobak 2025, lower ratio)",
        Option::None,
        Severity::Medium,
    ));
    v.push(mk_rule(
        "robust",
        "LLM filler: 'robust' (Kobak 2025; legitimate in security specs — review context)",
        Option::None,
        Severity::Medium,
    ));
    v.push(mk_rule(
        "multifaceted",
        "LLM filler: 'multifaceted' (Kobak 2025)",
        Option::None,
        Severity::Medium,
    ));
    v.push(mk_rule(
        "vibrant",
        "LLM filler: 'vibrant' (Kobak 2025)",
        Option::None,
        Severity::Medium,
    ));
    v.push(mk_rule(
        "seamlessly",
        "LLM filler: 'seamlessly' (Kobak 2025)",
        Option::None,
        Severity::Medium,
    ));
    v.push(mk_rule(
        "ingrained",
        "LLM filler: 'ingrained' (Kobak 2025)",
        Option::None,
        Severity::Medium,
    ));
    v.push(mk_rule(
        "indelible",
        "LLM filler: 'indelible' (Kobak 2025)",
        Option::None,
        Severity::Medium,
    ));
    v.push(mk_rule(
        "evolving landscape",
        "LLM cliché: 'evolving landscape' (Kobak 2025)",
        Option::None,
        Severity::Medium,
    ));
    proof {
        assert(rule_models(v@) =~= rule_models(pre) + text_rules_fillers());
    }
}

fn push_rules_chat(v: &mut Vec<TextRule>)
    ensures
        rule_models(final(v)@) == rule_models(old(v)@) + text_rules_chat(),
{
    let ghost pre = v@;
    v.push(mk_rule(
        "certainly!",
        "Sycophantic opener: 'Certainly!' (RLHF-induced, Juzek 2025)",
        Option::None,
        Severity::Critical,
    ));
    v.push(mk_rule(
        "great question!",
        "Sycophantic opener: 'Great question!' (RLHF-induced, Juzek 2025)",
        Option::None,
        Severity::Critical,
    ));
    v.push(mk_rule(
        "of course!",
        "Sycophantic opener: 'Of course!' (RLHF-induced, Juzek 2025)",
        Option::None,
        Severity::Critical,
    ));
    v.push(mk_rule(
        "absolutely!",
        "Sycophantic opener: 'Absolutely!' (RLHF-induced, Juzek 2025)",
        Option::None,
        Severity::Critical,
    ));
    v.push(mk_rule(
        "happy to help",
        "Sycophantic opener: 'happy to help' (RLHF-induced, Juzek 2025)",
        Option::None,
        Severity::Critical,
    ));
    v.push(mk_rule(
        "happy to explain",
        "Sycophantic opener: 'happy to explain' (RLHF-induced, Juzek 2025)",
        Option::None,
        Severity::Critical,
    ));
    v.push(mk_rule(
        "i'd be happy to",
        "Sycophantic opener: 'I'd be happy to' (RLHF-induced, Juzek 2025)",
        Option::None,
        Severity::Critical,
    ));
    v.push(mk_rule(
        "i would be happy to",
        "Sycophantic opener: 'I would be happy to' (RLHF-induced, Juzek 2025)",
        Option::None,
        Severity::Critical,
    ));
    v.push(mk_rule(
        "i hope this helps",
        "Chatbot closer: 'I hope this helps' (RLHF-induced, Juzek 2025)",
        Option::None,
        Severity::Critical,
    ));
    v.push(mk_rule(
        "let me know if",
        "Chatbot closer: 'Let me know if' (RLHF-induced, Juzek 2025)",
        Option::None,
        Severity::Critical,
    ));
    v.push(mk_rule(
        "feel free to",
        "Chatbot closer: 'Feel free to' (RLHF-induced, Juzek 2025)",
        Option::None,
        Severity::Critical,
    ));
    proof {
        assert(rule_models(v@) =~= rule_models(pre) + text_rules_chat());
    }
}

fn push_rules_hedges(v: &mut Vec<TextRule>)
    ensures
        rule_models(final(v)@) == rule_models(old(v)@) + text_rules_hedges(),
{
    let ghost pre = v@;
    v.push(mk_rule(
        "moreover",
        "LLM connector: 'moreover' (Rosenfeld 2024)",
        Option::None,
        Severity::Low,
    ));
    v.push(mk_rule(
        "furthermore",
        "LLM connector: 'furthermore' (Rosenfeld 2024)",
        Option::None,
        Severity::Low,
    ));
    v.push(mk_rule(
        "subsequently",
        "LLM connector: 'subsequently' (Kobak 2025)",
        Option::Some("then"),
        Severity::Low,
    ));
    v.push(mk_rule(
        "in conclusion",
        "LLM connector: 'in conclusion' (Rosenfeld 2024)",
        Option::None,
        Severity::Low,
    ));
    v.push(mk_rule(
        "serves as a reminder",
        "LLM filler: 'serves as a reminder'",
        Option::None,
        Severity::Low,
    ));
    v.push(mk_rule(
        "it is worth noting",
        "LLM hedge: 'it is worth noting' (Kobak 2025)",
        Option::None,
        Severity::Low,
    ));
    v.push(mk_rule(
        "it is important to note",
        "LLM hedge: 'it is important to note'",
        Option::None,
        Severity::Low,
    ));
    v.push(mk_rule(
        "could potentially",
        "Hedging: 'could potentially'",
        Option::Some("could"),
        Severity::Low,
    ));
    v.push(mk_rule(
        "might possibly",
        "Hedging: 'might possibly'",
        Option::Some("might"),
        Severity::Low,
    ));
    v.push(mk_rule(
        "arguably could be considered",
        "Hedging: 'arguably could be considered'",
        Option::None,
        Severity::Low,
    ));
    v.push(mk_rule(
        "in order to",
        "Filler: 'in order to'",
        Option::Some("to"),
        Severity::Low,
    ));
    v.push(mk_rule(
        "due to the fact that",
        "Filler: 'due to the fact that'",
        Option::Some("because"),
        Severity::Low,
    ));
    proof {
        assert(rule_models(v@) =~= rule_models(pre) + text_rules_hedges());
    }
}

/// The built-in text-rule table: the needles, their messages, severities and
/// replacements are part of the observable interface.
pub fn text_rules() -> (v: Vec<TextRule>)
    ensures
        rule_models(v@) == spec_text_rules(),
{
    let mut v: Vec<TextRule> = Vec::new();
    push_rules_tells(&mut v);
    push_rules_fillers(&mut v);
    push_rules_chat(&mut v);
    push_rules_hedges(&mut v);
    proof {
        assert(rule_models(v@) =~= spec_text_rules());
    }
    v
}


fn mk_rule(needle: &str, message: &str, replacement: Option<&str>, severity: Severity) -> (r:
    TextRule)
    ensures
        r@ == (TextRuleModel {
            needle: needle@,
            message: message@,
            replacement: match replacement {
                Option::Some(s) => Option::Some(s@),
                Option::None => Option::None,
            },
            severity,
        }),
{
    TextRule {
        needle: needle.to_owned(),
        message: message.to_owned(),
        replacement: match replacement {
            Option::Some(s) => Option::Some(s.to_owned()),
            Option::None => Option::None,
        },
        severity,
    }
}

} // verus!
