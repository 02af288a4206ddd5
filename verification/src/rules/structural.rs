//! The structural scanner: paragraph-level checks. A paragraph is a block
//! between blank lines (two consecutive newlines). One check counts discourse
//! connectors; the other flags paragraphs of four or more sentences whose
//! word counts are long on average yet nearly uniform.

use vstd::prelude::*;

use crate::rules::{finding_models, Finding, FindingModel, Severity};
use crate::strutil::{
    chars_to_string, dec_chars, find_from, first_match, lemma_first_match_props,
    lines_from, lower_chars, lower_of, push_decimal, push_str_chars, split_words, str_to_chars,
    subvec, trim_chars, trim_spec, views_of, words_spec,
};

verus! {

/// The paragraph scanner walks the whole buffer; the upstream input cap
/// (64 MiB) bounds its arithmetic.
pub const MAX_BUFFER_CHARS: usize = 67108864;

// ---------------------------------------------------------------------------
// Paragraph splitting (split on "\n\n")
// ---------------------------------------------------------------------------

/// The paragraphs of `s` from `start` on: pieces between occurrences of two
/// consecutive newlines, as `str::split("\n\n")` yields them.
pub open spec fn paras_from(s: Seq<char>, start: int) -> Seq<Seq<char>>
    decreases s.len() + 1 - start,
    via paras_from_decreases
{
    if start < 0 || start > s.len() {
        Seq::empty()
    } else {
        match first_match(s, seq!['\n', '\n'], start) {
            Option::None => seq![s.subrange(start, s.len() as int)],
            Option::Some(i) => seq![s.subrange(start, i)] + paras_from(s, i + 2),
        }
    }
}

#[via_fn]
proof fn paras_from_decreases(s: Seq<char>, start: int) {
    if 0 <= start <= s.len() {
        lemma_first_match_props(s, seq!['\n', '\n'], start);
    }
}

/// The paragraphs of `s`.
pub open spec fn paras_spec(s: Seq<char>) -> Seq<Seq<char>> {
    paras_from(s, 0)
}

// ---------------------------------------------------------------------------
// Connector density
// ---------------------------------------------------------------------------

/// How many times `ndl` occurs in `hay` from `from` on, counting
/// non-overlapping occurrences left to right.
pub open spec fn count_occurrences(hay: Seq<char>, ndl: Seq<char>, from: int) -> int
    decreases hay.len() - from,
    via count_occurrences_decreases
{
    if ndl.len() == 0 {
        0
    } else {
        match first_match(hay, ndl, from) {
            Option::None => 0,
            Option::Some(i) => 1 + count_occurrences(hay, ndl, i + ndl.len() as int),
        }
    }
}

#[via_fn]
proof fn count_occurrences_decreases(hay: Seq<char>, ndl: Seq<char>, from: int) {
    if ndl.len() > 0 && from >= 0 {
        lemma_first_match_props(hay, ndl, from);
    }
}

/// The total number of discourse-connector occurrences in the lowercased
/// paragraph.
pub open spec fn connector_count(low: Seq<char>) -> int {
    count_occurrences(low, "moreover"@, 0) + count_occurrences(low, "furthermore"@, 0)
        + count_occurrences(low, "additionally"@, 0) + count_occurrences(low, "consequently"@, 0)
        + count_occurrences(low, "subsequently"@, 0) + count_occurrences(low, "nevertheless"@, 0)
        + count_occurrences(low, "nonetheless"@, 0) + count_occurrences(low, "in addition"@, 0)
        + count_occurrences(low, "as a result"@, 0) + count_occurrences(
        low,
        "on the other hand"@,
        0,
    ) + count_occurrences(low, "with that said"@, 0) + count_occurrences(
        low,
        "that being said"@,
        0,
    ) + count_occurrences(low, "to summarize"@, 0) + count_occurrences(low, "in summary"@, 0)
        + count_occurrences(low, "in conclusion"@, 0)
}

/// The matched text of a connector-density finding: the count followed by
/// " discourse connectors".
pub open spec fn density_matched(count: int) -> Seq<char> {
    dec_chars(count) + " discourse connectors"@
}

/// The message of a connector-density finding.
pub open spec fn density_message(count: int) -> Seq<char> {
    "High connector density ("@ + dec_chars(count)
        + "): reads as machine-generated transitions (Rosenfeld 2024)"@
}

pub open spec fn density_findings(low: Seq<char>, lineno: int) -> Seq<FindingModel> {
    let count = connector_count(low);
    if count >= 3 {
        seq![
            FindingModel {
                line: lineno,
                col: 0,
                matched: density_matched(count),
                message: density_message(count),
                replacement: Option::None,
                severity: Severity::High,
            },
        ]
    } else {
        Seq::empty()
    }
}

// ---------------------------------------------------------------------------
// Sentence-length uniformity
// ---------------------------------------------------------------------------

/// The position one past the earliest sentence ending in `rem`, if any: the
/// first of `". "`, `"! "`, `"? "`, `".\n"`, `"!\n"`, `"?\n"`.
pub open spec fn sentence_cut(rem: Seq<char>) -> Option<int> {
    opt_min(
        opt_min(
            opt_min(end_at(rem, seq!['.', ' ']), end_at(rem, seq!['!', ' '])),
            opt_min(end_at(rem, seq!['?', ' ']), end_at(rem, seq!['.', '\n'])),
        ),
        opt_min(end_at(rem, seq!['!', '\n']), end_at(rem, seq!['?', '\n'])),
    )
}

pub open spec fn end_at(rem: Seq<char>, ending: Seq<char>) -> Option<int> {
    match first_match(rem, ending, 0) {
        Option::Some(p) => Option::Some(p + ending.len() as int),
        Option::None => Option::None,
    }
}

pub open spec fn opt_min(a: Option<int>, b: Option<int>) -> Option<int> {
    match (a, b) {
        (Option::Some(x), Option::Some(y)) => Option::Some(
            if x <= y {
                x
            } else {
                y
            },
        ),
        (Option::Some(x), Option::None) => Option::Some(x),
        (Option::None, Option::Some(y)) => Option::Some(y),
        (Option::None, Option::None) => Option::None,
    }
}

/// The sentences of a trimmed paragraph: split after the earliest sentence
/// ending, the residue trimmed on the left; the final fragment counts as a
/// sentence.
pub open spec fn sentences_of(rem: Seq<char>) -> Seq<Seq<char>>
    decreases rem.len(),
    via sentences_of_decreases
{
    if rem.len() == 0 {
        Seq::empty()
    } else {
        match sentence_cut(rem) {
            Option::None => seq![rem],
            Option::Some(cut) => seq![rem.take(cut)] + sentences_of(
                skip_trim_start(rem, cut),
            ),
        }
    }
}

/// `rem.skip(cut)` with leading whitespace removed.
pub open spec fn skip_trim_start(rem: Seq<char>, cut: int) -> Seq<char> {
    let r = rem.subrange(cut, rem.len() as int);
    r.subrange(crate::strutil::trim_start_idx(r, 0), r.len() as int)
}

proof fn lemma_sentence_cut_bounds(rem: Seq<char>)
    ensures
        match sentence_cut(rem) {
            Option::Some(c) => 2 <= c <= rem.len(),
            Option::None => true,
        },
{
    lemma_first_match_props(rem, seq!['.', ' '], 0);
    lemma_first_match_props(rem, seq!['!', ' '], 0);
    lemma_first_match_props(rem, seq!['?', ' '], 0);
    lemma_first_match_props(rem, seq!['.', '\n'], 0);
    lemma_first_match_props(rem, seq!['!', '\n'], 0);
    lemma_first_match_props(rem, seq!['?', '\n'], 0);
}

#[via_fn]
proof fn sentences_of_decreases(rem: Seq<char>) {
    if rem.len() > 0 {
        lemma_sentence_cut_bounds(rem);
        match sentence_cut(rem) {
            Option::Some(cut) => {
                let r = rem.subrange(cut, rem.len() as int);
                crate::strutil::lemma_trim_start_idx_bounds(r, 0);
            },
            Option::None => {},
        }
    }
}

/// Sum of the words of the sentences `ss[k..]`.
pub open spec fn words_sum(ss: Seq<Seq<char>>, k: int) -> int
    decreases ss.len() - k,
{
    if k < 0 || k >= ss.len() {
        0
    } else {
        words_spec(ss[k]).len() + words_sum(ss, k + 1)
    }
}

/// Sum of the squared word counts of the sentences `ss[k..]`.
pub open spec fn words_sq_sum(ss: Seq<Seq<char>>, k: int) -> int
    decreases ss.len() - k,
{
    if k < 0 || k >= ss.len() {
        0
    } else {
        words_spec(ss[k]).len() * words_spec(ss[k]).len() + words_sq_sum(ss, k + 1)
    }
}

/// Does the uniformity check fire? With `n` sentences of word counts `x_i`,
/// sum `s` and square sum `q`, the population variance is
/// `(n*q - s*s) / n^2` and the mean is `s / n`; the check needs at least four
/// sentences, a mean above five and a standard deviation below three.
pub open spec fn uniform_fires(n: int, s: int, q: int) -> bool {
    n >= 4 && s > 5 * n && n * q - s * s < 9 * n * n
}

/// Ten times the standard deviation, rounded half-up: the least `d` with
/// `400 * a < (2d+1)^2 * n^2`, clamped to 30 (the check only reports a
/// standard deviation below three).
pub open spec fn stddev_tenths(a: int, n: int, d: int) -> int
    decreases 30 - d,
{
    if d < 0 || d >= 30 {
        30
    } else if 400 * a < (2 * d + 1) * (2 * d + 1) * n * n {
        d
    } else {
        stddev_tenths(a, n, d + 1)
    }
}

/// The matched text of a uniformity finding: the standard deviation to one
/// decimal place.
pub open spec fn uniform_matched(a: int, n: int) -> Seq<char> {
    let d = stddev_tenths(a, n, 0);
    "stddev="@ + dec_chars(d / 10) + seq!['.'] + dec_chars(d % 10)
}

pub open spec fn uniform_findings(para: Seq<char>, lineno: int) -> Seq<FindingModel> {
    let ss = sentences_of(trim_spec(para));
    let n = ss.len() as int;
    let s = words_sum(ss, 0);
    let q = words_sq_sum(ss, 0);
    if uniform_fires(n, s, q) {
        seq![
            FindingModel {
                line: lineno,
                col: 0,
                matched: uniform_matched(n * q - s * s, n),
                message:
                    "Uniform sentence length — LLMs cluster in 10-30 token range (Rosenfeld 2024)"@,
                replacement: Option::None,
                severity: Severity::Medium,
            },
        ]
    } else {
        Seq::empty()
    }
}

// ---------------------------------------------------------------------------
// The paragraph walk
// ---------------------------------------------------------------------------

/// The structural findings of the paragraphs `ps[pi..]`, the first of which
/// begins at line `lineno`; each paragraph advances the line counter by its
/// line count plus one (the blank separator).
pub open spec fn structural_scan(ps: Seq<Seq<char>>, pi: int, lineno: int) -> Seq<FindingModel>
    decreases ps.len() - pi,
{
    if pi < 0 || pi >= ps.len() {
        Seq::empty()
    } else {
        density_findings(lower_of(ps[pi]), lineno) + uniform_findings(ps[pi], lineno)
            + structural_scan(ps, pi + 1, lineno + lines_from(ps[pi], 0).len() + 1)
    }
}

/// The structural findings of a buffer.
pub open spec fn structural_findings(content: Seq<char>) -> Seq<FindingModel> {
    structural_scan(paras_spec(content), 0, 1)
}

// ---------------------------------------------------------------------------
// Counting bounds
// ---------------------------------------------------------------------------

pub proof fn lemma_count_occurrences_bounds(hay: Seq<char>, ndl: Seq<char>, from: int)
    requires
        from >= 0,
    ensures
        0 <= count_occurrences(hay, ndl, from),
        count_occurrences(hay, ndl, from) <= hay.len() - from || count_occurrences(
            hay,
            ndl,
            from,
        ) == 0,
    decreases hay.len() - from,
{
    if ndl.len() > 0 {
        lemma_first_match_props(hay, ndl, from);
        match first_match(hay, ndl, from) {
            Option::Some(i) => {
                lemma_count_occurrences_bounds(hay, ndl, i + ndl.len() as int);
            },
            Option::None => {},
        }
    }
}

/// A sequence has no more whitespace-separated words than characters.
pub proof fn lemma_words_count_le(s: Seq<char>, from: int)
    requires
        0 <= from <= s.len(),
    ensures
        crate::strutil::words_from(s, from).len() <= s.len() - from,
    decreases s.len() - from,
{
    if from < s.len() {
        let a = crate::strutil::trim_start_idx(s, from);
        crate::strutil::lemma_trim_start_idx_bounds(s, from);
        if a < s.len() {
            let b = crate::strutil::wend_idx(s, a);
            crate::strutil::lemma_wend_idx_bounds(s, a);
            lemma_words_count_le(s, b);
        }
    }
}

/// Sentences are no more numerous than characters, and none is longer than
/// the paragraph.
pub proof fn lemma_sentences_bounds(rem: Seq<char>)
    ensures
        sentences_of(rem).len() <= rem.len(),
        forall|k: int|
            0 <= k < sentences_of(rem).len() ==> (#[trigger] sentences_of(rem)[k]).len()
                <= rem.len(),
    decreases rem.len(),
{
    if rem.len() > 0 {
        lemma_sentence_cut_bounds(rem);
        match sentence_cut(rem) {
            Option::Some(cut) => {
                let r = rem.subrange(cut, rem.len() as int);
                crate::strutil::lemma_trim_start_idx_bounds(r, 0);
                let rest = skip_trim_start(rem, cut);
                lemma_sentences_bounds(rest);
            },
            Option::None => {},
        }
    }
}

/// The line budget of the paragraphs of `s[start..]`: every paragraph's line
/// count plus its separator fits in the remaining length plus one.
pub open spec fn advance_sum(ps: Seq<Seq<char>>, pi: int) -> int
    decreases ps.len() - pi,
{
    if pi < 0 || pi >= ps.len() {
        0
    } else {
        lines_from(ps[pi], 0).len() + 1 + advance_sum(ps, pi + 1)
    }
}

pub proof fn lemma_lines_count_le(s: Seq<char>, start: int)
    requires
        0 <= start,
    ensures
        lines_from(s, start).len() <= s.len() - start || lines_from(s, start).len() == 0,
    decreases s.len() - start,
{
    if start < s.len() {
        lemma_first_match_props(s, seq!['\n'], start);
        match first_match(s, seq!['\n'], start) {
            Option::Some(i) => {
                lemma_lines_count_le(s, i + 1);
            },
            Option::None => {},
        }
    }
}

pub proof fn lemma_advance_sum_bound(s: Seq<char>, start: int)
    requires
        0 <= start <= s.len(),
    ensures
        advance_sum(paras_from(s, start), 0) <= s.len() - start + 1,
    decreases s.len() + 1 - start,
{
    lemma_first_match_props(s, seq!['\n', '\n'], start);
    match first_match(s, seq!['\n', '\n'], start) {
        Option::None => {
            let head = s.subrange(start, s.len() as int);
            lemma_lines_count_le(head, 0);
            let ps = paras_from(s, start);
            assert(ps == seq![head]);
            assert(ps[0] == head);
            assert(advance_sum(ps, 1) == 0);
            assert(advance_sum(ps, 0) == lines_from(head, 0).len() + 1);
        },
        Option::Some(i) => {
            let head = s.subrange(start, i);
            lemma_lines_count_le(head, 0);
            lemma_advance_sum_bound(s, i + 2);
            let rest = paras_from(s, i + 2);
            assert(paras_from(s, start) == seq![head] + rest);
            lemma_advance_sum_shift(rest, head);
        },
    }
}

proof fn lemma_advance_sum_shift(rest: Seq<Seq<char>>, head: Seq<char>)
    ensures
        advance_sum(seq![head] + rest, 0) == lines_from(head, 0).len() + 1 + advance_sum(rest, 0),
    decreases rest.len(),
{
    let ps = seq![head] + rest;
    assert(ps[0] == head);
    lemma_advance_sum_step(ps, rest, 1);
}

proof fn lemma_advance_sum_step(ps: Seq<Seq<char>>, rest: Seq<Seq<char>>, off: int)
    requires
        off >= 0,
        ps.len() == rest.len() + off,
        forall|j: int| 0 <= j < rest.len() ==> ps[j + off] == rest[j],
    ensures
        advance_sum(ps, off) == advance_sum(rest, 0),
    decreases rest.len(),
{
    lemma_advance_sum_both(ps, rest, off, 0);
}

proof fn lemma_advance_sum_both(ps: Seq<Seq<char>>, rest: Seq<Seq<char>>, off: int, k: int)
    requires
        off >= 0,
        0 <= k <= rest.len(),
        ps.len() == rest.len() + off,
        forall|j: int| 0 <= j < rest.len() ==> ps[j + off] == rest[j],
    ensures
        advance_sum(ps, off + k) == advance_sum(rest, k),
    decreases rest.len() - k,
{
    if k < rest.len() {
        assert(ps[k + off] == rest[k]);
        lemma_advance_sum_both(ps, rest, off, k + 1);
    }
}

pub proof fn lemma_advance_sum_suffix(ps: Seq<Seq<char>>, pi: int)
    requires
        0 <= pi <= ps.len(),
    ensures
        advance_sum(ps, pi) >= 0,
        advance_sum(ps, pi) <= advance_sum(ps, 0),
    decreases pi,
{
    lemma_advance_sum_nonneg(ps, pi);
    if pi > 0 {
        lemma_advance_sum_suffix(ps, pi - 1);
        lemma_advance_sum_nonneg(ps, pi - 1);
    }
}

proof fn lemma_advance_sum_nonneg(ps: Seq<Seq<char>>, pi: int)
    ensures
        advance_sum(ps, pi) >= 0,
        pi < ps.len() && pi >= 0 ==> advance_sum(ps, pi) >= advance_sum(ps, pi + 1),
    decreases ps.len() - pi,
{
    if 0 <= pi < ps.len() {
        lemma_advance_sum_nonneg(ps, pi + 1);
    }
}

// ---------------------------------------------------------------------------
// Executable scan
// ---------------------------------------------------------------------------

/// Split `v` on two consecutive newlines.
fn split_paras(v: &Vec<char>) -> (r: Vec<Vec<char>>)
    ensures
        views_of(r@) == paras_spec(v@),
        forall|k: int|
            0 <= k < views_of(r@).len() ==> (#[trigger] views_of(r@)[k]).len() <= v@.len(),
{
    let sep: Vec<char> = vec!['\n', '\n'];
    proof {
        assert(sep@ =~= seq!['\n', '\n']);
    }
    let n: usize = v.len();
    let mut r: Vec<Vec<char>> = Vec::new();
    let mut start: usize = 0;
    loop
        invariant
            n == v@.len(),
            sep@ == seq!['\n', '\n'],
            start <= v@.len(),
            views_of(r@) + paras_from(v@, start as int) =~= paras_spec(v@),
            forall|k: int|
                0 <= k < views_of(r@).len() ==> (#[trigger] views_of(r@)[k]).len() <= v@.len(),
        decreases v@.len() + 1 - start,
    {
        let ghost old_r = r@;
        match find_from(v, &sep, start) {
            Option::None => {
                let piece = subvec(v, start, v.len());
                proof {
                    assert(paras_from(v@, start as int) =~= seq![
                        v@.subrange(start as int, v@.len() as int),
                    ]);
                }
                r.push(piece);
                proof {
                    assert(views_of(r@) =~= views_of(old_r).push(
                        v@.subrange(start as int, v@.len() as int),
                    ));
                    assert(views_of(r@) =~= paras_spec(v@));
                }
                return r;
            },
            Option::Some(i) => {
                proof {
                    lemma_first_match_props(v@, sep@, start as int);
                }
                let piece = subvec(v, start, i);
                proof {
                    assert(paras_from(v@, start as int) =~= seq![v@.subrange(start as int, i as int)]
                        + paras_from(v@, i + 2));
                }
                r.push(piece);
                proof {
                    assert(views_of(r@) =~= views_of(old_r).push(
                        v@.subrange(start as int, i as int),
                    ));
                    assert(views_of(r@) + paras_from(v@, i + 2) =~= paras_spec(v@));
                }
                start = i + 2;
            },
        }
    }
}

/// Count the non-overlapping occurrences of `ndl` in `low`.
fn count_scan(low: &Vec<char>, ndl: &str) -> (r: usize)
    ensures
        r as int == count_occurrences(low@, ndl@, 0),
{
    let nv = str_to_chars(ndl);
    if nv.len() == 0 {
        return 0;
    }
    let mut count: usize = 0;
    let mut from: usize = 0;
    let ll: usize = low.len();
    loop
        invariant
            nv@ == ndl@,
            nv@.len() >= 1,
            ll == low@.len(),
            count <= from,
            from <= low@.len() + 1,
            count as int + count_occurrences(low@, ndl@, from as int) == count_occurrences(
                low@,
                ndl@,
                0,
            ),
        decreases low@.len() + 1 - from,
    {
        match find_from(low, &nv, from) {
            Option::None => {
                return count;
            },
            Option::Some(i) => {
                proof {
                    lemma_first_match_props(low@, nv@, from as int);
                }
                count += 1;
                from = i + nv.len();
            },
        }
    }
}

/// The total connector count of a lowercased paragraph, with its exact value.
fn connector_count_scan(low: &Vec<char>) -> (r: u128)
    ensures
        r as int == connector_count(low@),
{
    let mut total: u128 = 0;
    total += count_scan(low, "moreover") as u128;
    total += count_scan(low, "furthermore") as u128;
    total += count_scan(low, "additionally") as u128;
    total += count_scan(low, "consequently") as u128;
    total += count_scan(low, "subsequently") as u128;
    total += count_scan(low, "nevertheless") as u128;
    total += count_scan(low, "nonetheless") as u128;
    total += count_scan(low, "in addition") as u128;
    total += count_scan(low, "as a result") as u128;
    total += count_scan(low, "on the other hand") as u128;
    total += count_scan(low, "with that said") as u128;
    total += count_scan(low, "that being said") as u128;
    total += count_scan(low, "to summarize") as u128;
    total += count_scan(low, "in summary") as u128;
    total += count_scan(low, "in conclusion") as u128;
    total
}

fn opt_min_exec(a: Option<usize>, b: Option<usize>) -> (r: Option<usize>)
    ensures
        opt_view_int(r) == opt_min(opt_view_int(a), opt_view_int(b)),
{
    match (a, b) {
        (Option::Some(x), Option::Some(y)) => Option::Some(
            if x <= y {
                x
            } else {
                y
            },
        ),
        (Option::Some(x), Option::None) => Option::Some(x),
        (Option::None, Option::Some(y)) => Option::Some(y),
        (Option::None, Option::None) => Option::None,
    }
}

/// The mathematical value of an optional index.
pub open spec fn opt_view_int(a: Option<usize>) -> Option<int> {
    match a {
        Option::Some(x) => Option::Some(x as int),
        Option::None => Option::None,
    }
}

fn end_at_exec(rem: &Vec<char>, ending: &str) -> (r: Option<usize>)
    ensures
        opt_view_int(r) == end_at(rem@, ending@),
{
    let rl: usize = rem.len();
    let ev = str_to_chars(ending);
    match find_from(rem, &ev, 0) {
        Option::Some(p) => {
            proof {
                lemma_first_match_props(rem@, ev@, 0);
            }
            Option::Some(p + ev.len())
        },
        Option::None => Option::None,
    }
}

fn sentence_cut_exec(rem: &Vec<char>) -> (r: Option<usize>)
    ensures
        opt_view_int(r) == sentence_cut(rem@),
{
    let e1 = end_at_exec(rem, ". ");
    let e2 = end_at_exec(rem, "! ");
    let e3 = end_at_exec(rem, "? ");
    let e4 = end_at_exec(rem, ".\n");
    let e5 = end_at_exec(rem, "!\n");
    let e6 = end_at_exec(rem, "?\n");
    proof {
        reveal_strlit(". ");
        reveal_strlit("! ");
        reveal_strlit("? ");
        reveal_strlit(".\n");
        reveal_strlit("!\n");
        reveal_strlit("?\n");
        assert(". "@ =~= seq!['.', ' ']);
        assert("! "@ =~= seq!['!', ' ']);
        assert("? "@ =~= seq!['?', ' ']);
        assert(".\n"@ =~= seq!['.', '\n']);
        assert("!\n"@ =~= seq!['!', '\n']);
        assert("?\n"@ =~= seq!['?', '\n']);
    }
    opt_min_exec(opt_min_exec(opt_min_exec(e1, e2), opt_min_exec(e3, e4)), opt_min_exec(e5, e6))
}

/// Split a trimmed paragraph into sentences.
fn split_sentences(rem0: &Vec<char>) -> (r: Vec<Vec<char>>)
    ensures
        views_of(r@) == sentences_of(rem0@),
        forall|k: int|
            0 <= k < views_of(r@).len() ==> (#[trigger] views_of(r@)[k]).len() <= rem0@.len(),
{
    proof {
        lemma_sentences_bounds(rem0@);
    }
    let mut r: Vec<Vec<char>> = Vec::new();
    let mut rem = subvec(rem0, 0, rem0.len());
    proof {
        assert(rem@ =~= rem0@);
    }
    loop
        invariant
            rem@.len() <= rem0@.len(),
            views_of(r@) + sentences_of(rem@) =~= sentences_of(rem0@),
            forall|k: int|
                0 <= k < views_of(r@).len() ==> (#[trigger] views_of(r@)[k]).len() <= rem0@.len(),
        decreases rem@.len(),
    {
        if rem.len() == 0 {
            proof {
                assert(views_of(r@) =~= sentences_of(rem0@));
            }
            return r;
        }
        let ghost old_r = r@;
        let ghost old_rem = rem@;
        proof {
            lemma_sentence_cut_bounds(rem@);
            lemma_sentences_bounds(rem0@);
        }
        match sentence_cut_exec(&rem) {
            Option::None => {
                let whole = subvec(&rem, 0, rem.len());
                proof {
                    assert(whole@ =~= rem@);
                    assert(sentences_of(rem@) =~= seq![rem@]);
                }
                r.push(whole);
                proof {
                    assert(views_of(r@) =~= views_of(old_r).push(old_rem));
                    assert(views_of(r@) =~= sentences_of(rem0@));
                    assert(forall|k: int|
                        0 <= k < views_of(r@).len() ==> (#[trigger] views_of(r@)[k]).len()
                            <= rem0@.len()) by {
                        assert(sentences_of(rem0@) =~= views_of(r@));
                    }
                }
                return r;
            },
            Option::Some(cut) => {
                let sent = subvec(&rem, 0, cut);
                proof {
                    assert(sent@ =~= old_rem.take(cut as int));
                    assert(sentences_of(old_rem) =~= seq![old_rem.take(cut as int)]
                        + sentences_of(skip_trim_start(old_rem, cut as int)));
                }
                r.push(sent);
                let tail = subvec(&rem, cut, rem.len());
                let a = crate::strutil::trim_start_pos(&tail, 0);
                rem = subvec(&tail, a, tail.len());
                proof {
                    assert(tail@ =~= old_rem.subrange(cut as int, old_rem.len() as int));
                    assert(rem@ =~= skip_trim_start(old_rem, cut as int));
                    assert(views_of(r@) =~= views_of(old_r).push(old_rem.take(cut as int)));
                    assert(views_of(r@) + sentences_of(rem@) =~= sentences_of(rem0@));
                    assert(forall|k: int|
                        0 <= k < views_of(r@).len() ==> (#[trigger] views_of(r@)[k]).len()
                            <= rem0@.len()) by {
                        lemma_sentences_bounds(rem0@);
                        assert(forall|k: int|
                            0 <= k < views_of(r@).len() ==> views_of(r@)[k] == sentences_of(
                                rem0@,
                            )[k]);
                    }
                }
            },
        }
    }
}

/// The exact tenth-rounding of the standard deviation from the sentence
/// count `n`, word sum `s` and squared word sum `q` (avoiding subtraction).
fn stddev_tenths_exec(n: u128, s: u128, q: u128) -> (d: usize)
    requires
        n <= 0x4000000,
        s <= 0x10000000000000,
        q <= 0x40000000000000000000,
    ensures
        d as int == stddev_tenths(n as int * q as int - s as int * s as int, n as int, 0),
{
    let ghost ni = n as int;
    let ghost si = s as int;
    let ghost qi = q as int;
    let ghost a = ni * qi - si * si;
    proof {
        crate::strutil::lemma_mul_le(ni, qi, 0x4000000, 0x40000000000000000000);
        crate::strutil::lemma_mul_le(si, si, 0x10000000000000, 0x10000000000000);
        crate::strutil::lemma_mul_le(ni, ni, 0x4000000, 0x4000000);
    }
    let nq: u128 = n * q;
    let ss: u128 = s * s;
    let nn: u128 = n * n;
    let lhs: u128 = 400 * nq;
    let base: u128 = 400 * ss;
    let mut d: usize = 0;
    while d < 30
        invariant
            ni == n as int,
            si == s as int,
            qi == q as int,
            a == ni * qi - si * si,
            n <= 0x4000000,
            nq as int == ni * qi,
            ss as int == si * si,
            nn as int == ni * ni,
            nn <= 0x10000000000000,
            nq <= 0x100000000000000000000000000,
            ss <= 0x100000000000000000000000000,
            lhs as int == 400 * (nq as int),
            base as int == 400 * (ss as int),
            d <= 30,
            stddev_tenths(a, ni, 0) == stddev_tenths(a, ni, d as int),
        decreases 30 - d,
    {
        let du: u128 = d as u128;
        let c0: u128 = 2 * du + 1;
        proof {
            assert(c0 <= 61);
            crate::strutil::lemma_mul_le(c0 as int, c0 as int, 61, 61);
        }
        let coeff: u128 = c0 * c0;
        proof {
            crate::strutil::lemma_mul_le(coeff as int, nn as int, 3721, 0x10000000000000);
        }
        let rhs: u128 = coeff * nn + base;
        let ghost ci = (2 * d as int + 1) * (2 * d as int + 1);
        proof {
            assert(coeff as int == ci) by (nonlinear_arith)
                requires
                    coeff == c0 * c0,
                    c0 == 2 * (d as u128) + 1,
                    ci == (2 * d as int + 1) * (2 * d as int + 1),
                    d < 30,
            ;
            assert((lhs < rhs) == (400 * a < ci * ni * ni)) by (nonlinear_arith)
                requires
                    a == ni * qi - si * si,
                    lhs as int == 400 * (ni * qi),
                    base as int == 400 * (si * si),
                    nn as int == ni * ni,
                    rhs as int == coeff as int * (nn as int) + base as int,
                    coeff as int == ci,
            ;
        }
        if lhs < rhs {
            return d;
        }
        d += 1;
    }
    d
}

/// Append the structural findings of one paragraph to `out`.
fn paragraph_scan(para: &Vec<char>, lineno: usize, out: &mut Vec<Finding>)
    requires
        para@.len() <= MAX_BUFFER_CHARS,
    ensures
        finding_models(final(out)@) == finding_models(old(out)@) + density_findings(
            lower_of(para@),
            lineno as int,
        ) + uniform_findings(para@, lineno as int),
{
    // Connector density
    let low = lower_chars(para);
    let total = connector_count_scan(&low);
    let ghost after_density = finding_models(old(out)@) + density_findings(
        lower_of(para@),
        lineno as int,
    );
    if total >= 3 {
        let ghost pre = out@;
        proof {
            lemma_connector_count_bound(low@);
            assert(low@.len() <= 3 * para@.len());
            assert(total <= 0xFFFF_FFFF);
        }
        let count_small: usize = total as usize;
        proof {
            assert(count_small as int == connector_count(low@));
        }
        let mut mv: Vec<char> = Vec::new();
        push_decimal(count_small, &mut mv);
        push_str_chars(" discourse connectors", &mut mv);
        let mut msg: Vec<char> = Vec::new();
        push_str_chars("High connector density (", &mut msg);
        push_decimal(count_small, &mut msg);
        push_str_chars("): reads as machine-generated transitions (Rosenfeld 2024)", &mut msg);
        let f = Finding {
            line: lineno,
            col: 0,
            matched: chars_to_string(&mv),
            message: chars_to_string(&msg),
            replacement: Option::None,
            severity: Severity::High,
        };
        proof {
            assert(mv@ =~= density_matched(connector_count(low@)));
            assert(msg@ =~= density_message(connector_count(low@)));
        }
        out.push(f);
        proof {
            assert(finding_models(out@) =~= after_density);
        }
    } else {
        proof {
            assert(density_findings(lower_of(para@), lineno as int)
                =~= Seq::<FindingModel>::empty());
            assert(finding_models(out@) =~= after_density);
        }
    }
    // Sentence-length uniformity
    let trimmed = trim_chars(para);
    proof {
        crate::strutil::lemma_trim_start_idx_bounds(para@, 0);
        crate::strutil::lemma_trim_end_idx_bounds(
            para@,
            crate::strutil::trim_start_idx(para@, 0),
            para@.len() as int,
        );
        lemma_sentences_bounds(trim_spec(para@));
    }
    let sents = split_sentences(&trimmed);
    let ghost ss = sentences_of(trim_spec(para@));
    let n: usize = sents.len();
    if n >= 4 {
        let mut s: u128 = 0;
        let mut q: u128 = 0;
        let mut j: usize = 0;
        while j < n
            invariant
                views_of(sents@) == ss,
                n == sents@.len(),
                n <= trimmed@.len() <= MAX_BUFFER_CHARS,
                forall|k: int| 0 <= k < ss.len() ==> (#[trigger] ss[k]).len() <= trimmed@.len(),
                j <= n,
                s <= j * 0x4000000,
                q <= j * 0x10000000000000,
                s as int + words_sum(ss, j as int) == words_sum(ss, 0),
                q as int + words_sq_sum(ss, j as int) == words_sq_sum(ss, 0),
            decreases n - j,
        {
            let sent = &sents[j];
            proof {
                assert(sent@ == ss[j as int]);
                lemma_words_count_le(sent@, 0);
            }
            let ws = split_words(sent);
            let x: usize = ws.len();
            proof {
                assert(x as int == words_spec(ss[j as int]).len());
                assert(x <= 0x4000000);
                crate::strutil::lemma_mul_le(x as int, x as int, 0x4000000, 0x4000000);
            }
            s = s + x as u128;
            q = q + (x as u128) * (x as u128);
            j += 1;
        }
        proof {
            assert(words_sum(ss, n as int) == 0);
            assert(words_sq_sum(ss, n as int) == 0);
            lemma_sentences_bounds(trim_spec(para@));
        }
        proof {
            crate::strutil::lemma_mul_le(n as int, q as int, 0x4000000, 0x40000000000000000000);
            crate::strutil::lemma_mul_le(n as int, n as int, 0x4000000, 0x4000000);
            crate::strutil::lemma_mul_le(
                s as int,
                s as int,
                0x10000000000000,
                0x10000000000000,
            );
        }
        let c1 = s > 5 * (n as u128);
        let lhs2: u128 = (n as u128) * q;
        let rhs2: u128 = 9 * ((n as u128) * (n as u128)) + s * s;
        let fires = c1 && lhs2 < rhs2;
        proof {
            let ghost ni2 = n as int;
            let ghost si2 = s as int;
            let ghost qi2 = q as int;
            assert((lhs2 < rhs2) == (ni2 * qi2 - si2 * si2 < 9 * ni2 * ni2)) by (nonlinear_arith)
                requires
                    lhs2 as int == ni2 * qi2,
                    rhs2 as int == 9 * (ni2 * ni2) + si2 * si2,
            ;
            assert(fires == uniform_fires(n as int, s as int, q as int));
        }
        if fires {
            let d = stddev_tenths_exec(n as u128, s, q);
            let mut mv: Vec<char> = Vec::new();
            push_str_chars("stddev=", &mut mv);
            push_decimal(d / 10, &mut mv);
            mv.push('.');
            push_decimal(d % 10, &mut mv);
            let ghost pre = out@;
            let f = Finding {
                line: lineno,
                col: 0,
                matched: chars_to_string(&mv),
                message:
                    "Uniform sentence length — LLMs cluster in 10-30 token range (Rosenfeld 2024)"
                    .to_owned(),
                replacement: Option::None,
                severity: Severity::Medium,
            };
            proof {
                assert(mv@ =~= uniform_matched(
                    n as int * q as int - s as int * s as int,
                    n as int,
                ));
            }
            out.push(f);
            proof {
                assert(finding_models(out@) =~= after_density + uniform_findings(
                    para@,
                    lineno as int,
                ));
            }
        } else {
            proof {
                assert(uniform_findings(para@, lineno as int) =~= Seq::<FindingModel>::empty());
            }
        }
    } else {
        proof {
            assert(!uniform_fires(
                sentences_of(trim_spec(para@)).len() as int,
                words_sum(ss, 0),
                words_sq_sum(ss, 0),
            ));
            assert(uniform_findings(para@, lineno as int) =~= Seq::<FindingModel>::empty());
        }
    }
    proof {
        assert(finding_models(out@) =~= finding_models(old(out)@) + density_findings(
            lower_of(para@),
            lineno as int,
        ) + uniform_findings(para@, lineno as int));
    }
}

/// No paragraph holds more connector occurrences than fifteen times its
/// length.
proof fn lemma_connector_count_bound(low: Seq<char>)
    ensures
        connector_count(low) <= 15 * low.len(),
{
    lemma_count_occurrences_bounds(low, "moreover"@, 0);
    lemma_count_occurrences_bounds(low, "furthermore"@, 0);
    lemma_count_occurrences_bounds(low, "additionally"@, 0);
    lemma_count_occurrences_bounds(low, "consequently"@, 0);
    lemma_count_occurrences_bounds(low, "subsequently"@, 0);
    lemma_count_occurrences_bounds(low, "nevertheless"@, 0);
    lemma_count_occurrences_bounds(low, "nonetheless"@, 0);
    lemma_count_occurrences_bounds(low, "in addition"@, 0);
    lemma_count_occurrences_bounds(low, "as a result"@, 0);
    lemma_count_occurrences_bounds(low, "on the other hand"@, 0);
    lemma_count_occurrences_bounds(low, "with that said"@, 0);
    lemma_count_occurrences_bounds(low, "that being said"@, 0);
    lemma_count_occurrences_bounds(low, "to summarize"@, 0);
    lemma_count_occurrences_bounds(low, "in summary"@, 0);
    lemma_count_occurrences_bounds(low, "in conclusion"@, 0);
}

/// Structural findings carry no replacement: they flag but never rewrite.
pub proof fn lemma_structural_scan_no_replacement(ps: Seq<Seq<char>>, pi: int, lineno: int)
    ensures
        forall|k: int|
            0 <= k < structural_scan(ps, pi, lineno).len() ==> (#[trigger] structural_scan(
                ps,
                pi,
                lineno,
            )[k]).replacement is None,
    decreases ps.len() - pi,
{
    if 0 <= pi < ps.len() {
        let nxt = lineno + lines_from(ps[pi], 0).len() + 1;
        lemma_structural_scan_no_replacement(ps, pi + 1, nxt);
        let w = structural_scan(ps, pi, lineno);
        let a = density_findings(lower_of(ps[pi]), lineno);
        let b = uniform_findings(ps[pi], lineno);
        let rest = structural_scan(ps, pi + 1, nxt);
        assert(forall|k: int|
            0 <= k < w.len() ==> w[k] == (if k < a.len() {
                a[k]
            } else if k < a.len() + b.len() {
                b[k - a.len()]
            } else {
                rest[k - a.len() - b.len()]
            }));
    }
}

/// Apply structural rules that catch paragraph-level patterns. These operate
/// on whole-document structure, not individual lines. The buffer must respect
/// the upstream input cap.
pub fn apply_structural_rules(content: &str) -> (findings: Vec<Finding>)
    requires
        content@.len() <= MAX_BUFFER_CHARS,
    ensures
        finding_models(findings@) == structural_findings(content@),
{
    let cv = str_to_chars(content);
    let paras = split_paras(&cv);
    let ghost pv = paras_spec(cv@);
    let mut out: Vec<Finding> = Vec::new();
    let mut lineno: usize = 1;
    let mut pi: usize = 0;
    proof {
        lemma_advance_sum_bound(cv@, 0);
        lemma_advance_sum_suffix(pv, 0);
    }
    while pi < paras.len()
        invariant
            pv == paras_spec(content@),
            cv@ == content@,
            content@.len() <= MAX_BUFFER_CHARS,
            views_of(paras@) == pv,
            forall|k: int| 0 <= k < pv.len() ==> (#[trigger] pv[k]).len() <= cv@.len(),
            pi <= paras@.len(),
            advance_sum(pv, 0) <= cv@.len() + 1,
            lineno as int + advance_sum(pv, pi as int) == 1 + advance_sum(pv, 0),
            lineno >= 1,
            finding_models(out@) + structural_scan(pv, pi as int, lineno as int)
                =~= structural_findings(content@),
        decreases paras@.len() - pi,
    {
        let para = &paras[pi];
        proof {
            assert(para@ == pv[pi as int]);
        }
        paragraph_scan(para, lineno, &mut out);
        let para_lines = crate::strutil::split_lines(para);
        let nl: usize = para_lines.len();
        proof {
            assert(nl as int == lines_from(pv[pi as int], 0).len());
            assert(advance_sum(pv, pi as int) == nl + 1 + advance_sum(pv, pi + 1));
            lemma_advance_sum_suffix(pv, pi + 1);
            assert(structural_scan(pv, pi as int, lineno as int) == density_findings(
                lower_of(pv[pi as int]),
                lineno as int,
            ) + uniform_findings(pv[pi as int], lineno as int) + structural_scan(
                pv,
                pi + 1,
                lineno as int + nl + 1,
            ));
        }
        lineno = lineno + nl + 1;
        pi += 1;
        proof {
            assert(finding_models(out@) + structural_scan(pv, pi as int, lineno as int)
                =~= structural_findings(content@));
        }
    }
    proof {
        assert(structural_scan(pv, paras@.len() as int, lineno as int)
            =~= Seq::<FindingModel>::empty());
        assert(finding_models(out@) =~= structural_findings(content@));
    }
    out
}

} // verus!

