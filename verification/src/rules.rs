//! The shared vocabulary of the finding engine: severities, findings, the
//! rewrite pass (`clean`) that applies auto-fixable findings to a buffer, and
//! the post-scan filters.

pub mod code;
pub mod commit;
pub mod ignore;
pub mod structural;
pub mod text;

use vstd::prelude::*;

use crate::strutil::{
    apply_case_spec, byte_len, char_at_byte, char_idx_at, chars_to_string, is_upper,
    is_upper_char,
    lemma_byte_len_nonneg, lemma_byte_off_strict, lemma_char_idx_at_props, lines_spec,
    lower_chars, lower_of, push_all, split_lines, str_byte_len, str_to_chars, subvec,
    upper_chars, upper_of, views_of,
};

verus! {

broadcast use vstd::std_specs::hash::group_hash_axioms;

/// Severity level of a finding.
#[derive(Debug, Clone, Copy, PartialEq, Eq, Structural)]
pub enum Severity {
    Critical,
    High,
    Medium,
    Low,
}

impl Severity {
    /// Numeric rank of a severity: higher means more severe.
    pub open spec fn spec_rank(self) -> u8 {
        match self {
            Severity::Critical => 3,
            Severity::High => 2,
            Severity::Medium => 1,
            Severity::Low => 0,
        }
    }

    /// Numeric rank for filtering: higher = more severe.
    pub fn rank(&self) -> (r: u8)
        ensures
            r == self.spec_rank(),
    {
        match self {
            Severity::Critical => 3,
            Severity::High => 2,
            Severity::Medium => 1,
            Severity::Low => 0,
        }
    }
}

/// The severity ranks are strictly ordered: Critical > High > Medium > Low.
pub proof fn lemma_severity_rank_strictly_ordered()
    ensures
        Severity::Critical.spec_rank() > Severity::High.spec_rank(),
        Severity::High.spec_rank() > Severity::Medium.spec_rank(),
        Severity::Medium.spec_rank() > Severity::Low.spec_rank(),
{
}

/// The mathematical content of a `Finding`.
pub struct FindingModel {
    pub line: int,
    pub col: int,
    pub matched: Seq<char>,
    pub message: Seq<char>,
    pub replacement: Option<Seq<char>>,
    pub severity: Severity,
}

/// A single match found in the input.
#[derive(Debug, Clone)]
pub struct Finding {
    /// 1-based line number.
    pub line: usize,
    /// Column byte offset within the line (0-based).
    pub col: usize,
    /// Matched text.
    pub matched: String,
    /// Explanation / suggestion.
    pub message: String,
    /// Replacement text if auto-fixable, otherwise None.
    pub replacement: Option<String>,
    /// Severity classification.
    pub severity: Severity,
}

impl View for Finding {
    type V = FindingModel;

    open spec fn view(&self) -> FindingModel {
        FindingModel {
            line: self.line as int,
            col: self.col as int,
            matched: self.matched@,
            message: self.message@,
            replacement: match self.replacement {
                Option::Some(s) => Option::Some(s@),
                Option::None => Option::None,
            },
            severity: self.severity,
        }
    }
}

/// The models of a sequence of findings.
pub open spec fn finding_models(fs: Seq<Finding>) -> Seq<FindingModel> {
    fs.map_values(|f: Finding| f@)
}

// ---------------------------------------------------------------------------
// Casing preservation
// ---------------------------------------------------------------------------

/// Preserve capitalization style of the original word when applying a
/// replacement: if the original starts uppercase, the replacement's first
/// character is uppercased; otherwise the replacement is used as-is.
pub fn apply_case(original: &str, replacement: &str) -> (r: String)
    ensures
        r@ == apply_case_spec(original@, replacement@),
{
    let o = str_to_chars(original);
    let rep = str_to_chars(replacement);
    let out = apply_case_chars(&o, &rep);
    chars_to_string(&out)
}

/// `apply_case` on character vectors.
pub fn apply_case_chars(o: &Vec<char>, rep: &Vec<char>) -> (out: Vec<char>)
    ensures
        out@ == apply_case_spec(o@, rep@),
        rep@.len() > 0 && (forall|i: int| 0 <= i < rep@.len() ==> rep@[i] != '\n') ==> (out@.len()
            > 0 && (forall|i: int| 0 <= i < out@.len() ==> out@[i] != '\n')),
{
    if o.len() == 0 || rep.len() == 0 {
        return subvec(rep, 0, rep.len());
    }
    if is_upper(o[0]) {
        let mut out = upper_chars(rep[0]);
        let ghost head = out@;
        let tail = subvec(rep, 1, rep.len());
        push_all(&tail, &mut out);
        proof {
            assert(out@ =~= upper_of(rep@[0]) + rep@.drop_first());
            if forall|i: int| 0 <= i < rep@.len() ==> rep@[i] != '\n' {
                assert(forall|i: int| 0 <= i < out@.len() ==> out@[i] != '\n') by {
                    assert(forall|i: int|
                        0 <= i < out@.len() ==> out@[i] == (if i < head.len() {
                            head[i]
                        } else {
                            rep@[i - head.len() + 1]
                        }));
                }
            }
        }
        out
    } else {
        subvec(rep, 0, rep.len())
    }
}

// ---------------------------------------------------------------------------
// The rewrite pass: spec
// ---------------------------------------------------------------------------

/// Is `f` a request to drop line `idx` (0-based)?
pub open spec fn is_drop_for(f: FindingModel, idx: int) -> bool {
    f.line - 1 == idx && f.replacement == Option::Some(Seq::<char>::empty())
}

/// Does any finding drop line `idx`?
pub open spec fn line_dropped(fs: Seq<FindingModel>, idx: int) -> bool {
    exists|k: int| 0 <= k < fs.len() && is_drop_for(#[trigger] fs[k], idx)
}

/// Is `f` an in-line fix (non-empty replacement) for line `idx` (0-based)?
pub open spec fn is_fix_for(f: FindingModel, idx: int) -> bool {
    f.line - 1 == idx && match f.replacement {
        Option::Some(r) => r.len() > 0,
        Option::None => false,
    }
}

/// The fixes for line `idx`, in finding order.
pub open spec fn fixes_for(fs: Seq<FindingModel>, idx: int) -> Seq<FindingModel>
    decreases fs.len(),
{
    if fs.len() == 0 {
        Seq::empty()
    } else {
        fixes_for(fs.drop_last(), idx) + if is_fix_for(fs.last(), idx) {
            seq![fs.last()]
        } else {
            Seq::empty()
        }
    }
}

/// Insert `f` into a column-descending list, after any entry of equal column
/// (so that the sort is stable).
pub open spec fn insert_desc(sorted: Seq<FindingModel>, f: FindingModel) -> Seq<FindingModel>
    decreases sorted.len(),
{
    if sorted.len() == 0 {
        seq![f]
    } else if f.col > sorted[0].col {
        seq![f] + sorted
    } else {
        seq![sorted[0]] + insert_desc(sorted.drop_first(), f)
    }
}

/// Stable sort by column, descending.
pub open spec fn sort_by_col_desc(fs: Seq<FindingModel>) -> Seq<FindingModel>
    decreases fs.len(),
{
    if fs.len() == 0 {
        Seq::empty()
    } else {
        insert_desc(sort_by_col_desc(fs.drop_last()), fs.last())
    }
}

pub open spec fn sorted_desc(s: Seq<FindingModel>) -> bool {
    forall|i: int, j: int| 0 <= i < j < s.len() ==> s[i].col >= s[j].col
}

proof fn lemma_insert_desc_at(s: Seq<FindingModel>, f: FindingModel, p: int)
    requires
        0 <= p <= s.len(),
        forall|j: int| 0 <= j < p ==> !(f.col > s[j].col),
        p < s.len() ==> f.col > s[p].col,
    ensures
        insert_desc(s, f) == s.take(p) + seq![f] + s.skip(p),
    decreases s.len(),
{
    if s.len() == 0 {
        assert(insert_desc(s, f) =~= s.take(p) + seq![f] + s.skip(p));
    } else if f.col > s[0].col {
        assert(p == 0);
        assert(insert_desc(s, f) =~= s.take(0) + seq![f] + s.skip(0));
    } else {
        assert(p >= 1);
        let tail = s.drop_first();
        assert(forall|j: int| 0 <= j < p - 1 ==> !(f.col > tail[j].col)) by {
            assert(forall|j: int| 0 <= j < p - 1 ==> tail[j] == s[j + 1]);
        }
        lemma_insert_desc_at(tail, f, p - 1);
        assert(insert_desc(s, f) == seq![s[0]] + insert_desc(tail, f));
        assert(insert_desc(tail, f) == tail.take(p - 1) + seq![f] + tail.skip(p - 1));
        assert(seq![s[0]] + (tail.take(p - 1) + seq![f] + tail.skip(p - 1)) =~= s.take(p) + seq![f]
            + s.skip(p));
    }
}

proof fn lemma_inserted_still_sorted(s: Seq<FindingModel>, f: FindingModel, p: int)
    requires
        sorted_desc(s),
        0 <= p <= s.len(),
        forall|j: int| 0 <= j < p ==> !(f.col > s[j].col),
        p < s.len() ==> f.col > s[p].col,
    ensures
        sorted_desc(s.take(p) + seq![f] + s.skip(p)),
{
    let r = s.take(p) + seq![f] + s.skip(p);
    assert(forall|i: int| 0 <= i < p ==> r[i] == s[i]);
    assert(r[p] == f);
    assert(forall|i: int| p < i < r.len() ==> r[i] == s[i - 1]);
    assert forall|i: int, j: int| 0 <= i < j < r.len() implies r[i].col >= r[j].col by {
        if i < p && j == p {
            assert(r[i].col >= f.col);
        } else if i == p && j > p {
            assert(f.col > s[p].col);
            assert(s[p].col >= s[j - 1].col || p == j - 1);
        } else if i < p && j > p {
            assert(r[i].col >= s[p].col || p == s.len());
        }
    }
}

/// One fix spliced into a line: the byte range `[col, col + |matched|)` is
/// replaced by the case-adjusted replacement, provided both ends land on
/// character boundaries within the line; otherwise the line is unchanged.
pub open spec fn apply_one_fix(line: Seq<char>, f: FindingModel) -> Seq<char> {
    match f.replacement {
        Option::None => line,
        Option::Some(rep) => {
            let tgt = f.col + byte_len(f.matched);
            match (char_idx_at(line, f.col), char_idx_at(line, tgt)) {
                (Option::Some(p), Option::Some(e)) => if p <= e {
                    line.take(p) + apply_case_spec(line.subrange(p, e), rep) + line.skip(e)
                } else {
                    line
                },
                _ => line,
            }
        },
    }
}

/// All fixes of a sorted list, spliced right to left.
pub open spec fn apply_fixes(line: Seq<char>, fs: Seq<FindingModel>) -> Seq<char>
    decreases fs.len(),
{
    if fs.len() == 0 {
        line
    } else {
        apply_fixes(apply_one_fix(line, fs[0]), fs.drop_first())
    }
}

/// Line `idx` after its fixes have been applied.
pub open spec fn fixed_line(line: Seq<char>, fs: Seq<FindingModel>, idx: int) -> Seq<char> {
    apply_fixes(line, sort_by_col_desc(fixes_for(fs, idx)))
}

/// The surviving lines from index `i` on, each with its fixes applied.
pub open spec fn kept_lines(lines: Seq<Seq<char>>, fs: Seq<FindingModel>, i: int) -> Seq<
    Seq<char>,
>
    decreases lines.len() - i,
{
    if i < 0 || i >= lines.len() {
        Seq::empty()
    } else {
        (if line_dropped(fs, i) {
            Seq::empty()
        } else {
            seq![fixed_line(lines[i], fs, i)]
        }) + kept_lines(lines, fs, i + 1)
    }
}

/// The first `i` lines joined with `'\n'` separators.
pub open spec fn join_prefix(ls: Seq<Seq<char>>, i: int) -> Seq<char>
    decreases i,
{
    if i <= 0 {
        Seq::empty()
    } else {
        join_prefix(ls, i - 1) + (if i - 1 > 0 {
            seq!['\n']
        } else {
            Seq::<char>::empty()
        }) + ls[i - 1]
    }
}

/// Does `s` end with a newline?
pub open spec fn ends_nl(s: Seq<char>) -> bool {
    s.len() > 0 && s.last() == '\n'
}

/// The cleaned buffer: surviving lines with fixes applied, joined by `'\n'`,
/// with the original trailing newline preserved.
pub open spec fn clean_spec(content: Seq<char>, fs: Seq<FindingModel>) -> Seq<char> {
    let kept = kept_lines(lines_spec(content), fs, 0);
    let joined = join_prefix(kept, kept.len() as int);
    if ends_nl(content) {
        joined + seq!['\n']
    } else {
        joined
    }
}

// ---------------------------------------------------------------------------
// The rewrite pass: executable
// ---------------------------------------------------------------------------

fn is_fixable(f: &Finding, idx: usize) -> (r: bool)
    ensures
        r == is_fix_for(f@, idx as int),
{
    if f.line >= 1 && f.line - 1 == idx {
        match &f.replacement {
            Option::Some(s) => !s.as_str().is_empty(),
            Option::None => false,
        }
    } else {
        false
    }
}

fn is_dropper(f: &Finding, idx: usize) -> (r: bool)
    ensures
        r == is_drop_for(f@, idx as int),
{
    if f.line >= 1 && f.line - 1 == idx {
        match &f.replacement {
            Option::Some(s) => {
                let e = s.as_str().is_empty();
                proof {
                    if e {
                        assert(s@ =~= Seq::<char>::empty());
                    }
                }
                e
            },
            Option::None => false,
        }
    } else {
        false
    }
}

fn line_is_dropped(findings: &[Finding], idx: usize) -> (r: bool)
    ensures
        r == line_dropped(finding_models(findings@), idx as int),
{
    let mut j: usize = 0;
    while j < findings.len()
        invariant
            j <= findings@.len(),
            forall|k: int|
                0 <= k < j ==> !is_drop_for(#[trigger] finding_models(findings@)[k], idx as int),
        decreases findings@.len() - j,
    {
        if is_dropper(&findings[j], idx) {
            proof {
                assert(is_drop_for(finding_models(findings@)[j as int], idx as int));
            }
            return true;
        }
        j += 1;
    }
    false
}

/// The models of the findings selected by an index list.
pub open spec fn picked_models(fs: Seq<Finding>, ks: Seq<usize>) -> Seq<FindingModel> {
    ks.map_values(|k: usize| fs[k as int]@)
}

fn apply_one_fix_exec(cur: Vec<char>, f: &Finding) -> (r: Vec<char>)
    ensures
        r@ == apply_one_fix(cur@, f@),
{
    let rep_str: &String = match &f.replacement {
        Option::Some(s) => s,
        Option::None => {
            return cur;
        },
    };
    let mlen: usize = str_byte_len(f.matched.as_str());
    let tgt: u128 = f.col as u128 + mlen as u128;
    let p = match char_at_byte(&cur, f.col as u128) {
        Option::Some(p) => p,
        Option::None => {
            return cur;
        },
    };
    let e = match char_at_byte(&cur, tgt) {
        Option::Some(e) => e,
        Option::None => {
            return cur;
        },
    };
    proof {
        lemma_char_idx_at_props(cur@, f.col as int);
        lemma_char_idx_at_props(cur@, tgt as int);
        lemma_byte_len_nonneg(f.matched@);
        if e < p {
            lemma_byte_off_strict(cur@, e as int, p as int);
        }
    }
    let o = subvec(&cur, p, e);
    let rep = str_to_chars(rep_str.as_str());
    let mid = apply_case_chars(&o, &rep);
    let mut out = subvec(&cur, 0, p);
    push_all(&mid, &mut out);
    let tail = subvec(&cur, e, cur.len());
    push_all(&tail, &mut out);
    proof {
        assert(out@ =~= cur@.take(p as int) + apply_case_spec(
            cur@.subrange(p as int, e as int),
            rep@,
        ) + cur@.skip(e as int));
    }
    out
}

fn fix_line(line: &Vec<char>, findings: &[Finding], idx: usize) -> (r: Vec<char>)
    ensures
        r@ == fixed_line(line@, finding_models(findings@), idx as int),
{
    let ghost fsm = finding_models(findings@);
    // Collect the indices of this line's fixes, kept sorted by column
    // descending; ties keep finding order (a stable sort).
    let mut ks: Vec<usize> = Vec::new();
    let mut j: usize = 0;
    while j < findings.len()
        invariant
            fsm == finding_models(findings@),
            j <= findings@.len(),
            forall|t: int| 0 <= t < ks@.len() ==> #[trigger] ks@[t] < findings@.len(),
            picked_models(findings@, ks@) == sort_by_col_desc(fixes_for(fsm.take(j as int), idx as int)),
            sorted_desc(picked_models(findings@, ks@)),
        decreases findings@.len() - j,
    {
        let ghost old_ks = ks@;
        let ghost pre = fixes_for(fsm.take(j as int), idx as int);
        if is_fixable(&findings[j], idx) {
            // find the first position whose column is below the new one
            let mut p: usize = 0;
            while p < ks.len() && findings[ks[p]].col >= findings[j].col
                invariant
                    forall|t: int| 0 <= t < ks@.len() ==> #[trigger] ks@[t] < findings@.len(),
                    j < findings@.len(),
                    p <= ks@.len(),
                    forall|t: int|
                        0 <= t < p ==> !(findings@[j as int]@.col > #[trigger] picked_models(
                            findings@,
                            ks@,
                        )[t].col),
                decreases ks@.len() - p,
            {
                p += 1;
            }
            proof {
                lemma_insert_desc_at(
                    picked_models(findings@, old_ks),
                    findings@[j as int]@,
                    p as int,
                );
                lemma_inserted_still_sorted(
                    picked_models(findings@, old_ks),
                    findings@[j as int]@,
                    p as int,
                );
            }
            ks.insert(p, j);
            proof {
                assert(picked_models(findings@, ks@) =~= picked_models(findings@, old_ks).take(
                    p as int,
                ) + seq![findings@[j as int]@] + picked_models(findings@, old_ks).skip(p as int));
            }
        }
        j += 1;
        proof {
            assert(fsm.take(j as int).drop_last() =~= fsm.take(j - 1));
            assert(fsm.take(j as int).last() == fsm[j - 1]);
            assert(fixes_for(fsm.take(j as int), idx as int) == pre + if is_fix_for(
                fsm[j - 1],
                idx as int,
            ) {
                seq![fsm[j - 1]]
            } else {
                Seq::<FindingModel>::empty()
            });
            if is_fix_for(fsm[j - 1], idx as int) {
                assert(fixes_for(fsm.take(j as int), idx as int) =~= pre.push(fsm[j - 1]));
                assert(pre.push(fsm[j - 1]).drop_last() =~= pre);
                assert(sort_by_col_desc(fixes_for(fsm.take(j as int), idx as int)) == insert_desc(
                    sort_by_col_desc(pre),
                    fsm[j - 1],
                ));
            } else {
                assert(fixes_for(fsm.take(j as int), idx as int) =~= pre);
                assert(picked_models(findings@, ks@) == picked_models(findings@, old_ks));
            }
        }
    }
    proof {
        assert(fsm.take(findings@.len() as int) =~= fsm);
    }
    let ghost sorted = sort_by_col_desc(fixes_for(fsm, idx as int));
    // Apply the fixes right to left.
    let mut cur = subvec(line, 0, line.len());
    proof {
        assert(cur@ =~= line@);
        assert(sorted.skip(0) =~= sorted);
    }
    let mut t: usize = 0;
    while t < ks.len()
        invariant
            fsm == finding_models(findings@),
            sorted == sort_by_col_desc(fixes_for(fsm, idx as int)),
            t <= ks@.len(),
            forall|u: int| 0 <= u < ks@.len() ==> #[trigger] ks@[u] < findings@.len(),
            picked_models(findings@, ks@) == sorted,
            apply_fixes(line@, sorted) == apply_fixes(cur@, sorted.skip(t as int)),
        decreases ks@.len() - t,
    {
        let ghost rest = sorted.skip(t as int);
        proof {
            assert(rest[0] == findings@[ks@[t as int] as int]@);
            assert(rest.drop_first() =~= sorted.skip(t + 1));
        }
        cur = apply_one_fix_exec(cur, &findings[ks[t]]);
        t += 1;
    }
    proof {
        assert(sorted.skip(ks@.len() as int) =~= Seq::<FindingModel>::empty());
    }
    cur
}

/// Produce a cleaned version of content by applying auto-fixable replacements:
/// findings with an empty replacement drop their whole line, findings with a
/// non-empty replacement are spliced in place of the matched bytes (later
/// columns first), and findings with no replacement leave the buffer alone.
/// Malformed findings (line out of range, offsets off character boundaries)
/// are skipped. The original's trailing newline is preserved.
pub fn clean(content: &str, findings: &[Finding]) -> (r: String)
    ensures
        r@ == clean_spec(content@, finding_models(findings@)),
{
    let cv = str_to_chars(content);
    let lines = split_lines(&cv);
    let ghost fsm = finding_models(findings@);
    let ghost lv = lines_spec(cv@);
    let mut kept: Vec<Vec<char>> = Vec::new();
    let mut idx: usize = 0;
    while idx < lines.len()
        invariant
            fsm == finding_models(findings@),
            lv == lines_spec(cv@),
            views_of(lines@) == lv,
            idx <= lines@.len(),
            views_of(kept@) + kept_lines(lv, fsm, idx as int) =~= kept_lines(lv, fsm, 0),
        decreases lines@.len() - idx,
    {
        let ghost old_kept = kept@;
        if !line_is_dropped(findings, idx) {
            let fixed = fix_line(&lines[idx], findings, idx);
            kept.push(fixed);
            proof {
                assert(views_of(kept@) =~= views_of(old_kept).push(fixed@));
                assert(kept_lines(lv, fsm, idx as int) =~= seq![fixed_line(
                    lv[idx as int],
                    fsm,
                    idx as int,
                )] + kept_lines(lv, fsm, idx + 1));
                assert(views_of(kept@) + kept_lines(lv, fsm, idx + 1) =~= kept_lines(lv, fsm, 0));
            }
        } else {
            proof {
                assert(kept_lines(lv, fsm, idx as int) =~= kept_lines(lv, fsm, idx + 1));
            }
        }
        idx += 1;
    }
    proof {
        assert(views_of(kept@) =~= kept_lines(lv, fsm, 0));
    }
    // Join the surviving lines.
    let ghost kl = views_of(kept@);
    let mut out: Vec<char> = Vec::new();
    let mut i: usize = 0;
    while i < kept.len()
        invariant
            kl == views_of(kept@),
            i <= kept@.len(),
            out@ == join_prefix(kl, i as int),
        decreases kept@.len() - i,
    {
        if i > 0 {
            out.push('\n');
        }
        push_all(&kept[i], &mut out);
        i += 1;
        proof {
            assert(out@ =~= join_prefix(kl, i as int));
        }
    }
    if ends_with_nl(content, &cv) {
        out.push('\n');
    }
    proof {
        assert(out@ =~= clean_spec(content@, fsm));
    }
    chars_to_string(&out)
}

fn ends_with_nl(content: &str, cv: &Vec<char>) -> (r: bool)
    requires
        cv@ == content@,
    ensures
        r == ends_nl(content@),
{
    cv.len() > 0 && cv[cv.len() - 1] == '\n'
}

// ---------------------------------------------------------------------------
// Post-scan filtering
// ---------------------------------------------------------------------------

/// Does the filter keep `f`? It must not match an ignored word, must not lie
/// on an ignored line, and must rank at least `min`.
pub open spec fn filter_keeps(
    f: FindingModel,
    ignored_words: Seq<Seq<char>>,
    ignored_lines: Set<usize>,
    min: Severity,
) -> bool {
    &&& !ignored_words.contains(lower_of(f.matched))
    &&& !(0 <= f.line <= usize::MAX && ignored_lines.contains(f.line as usize))
    &&& f.severity.spec_rank() >= min.spec_rank()
}

/// The findings that survive filtering, in order.
pub open spec fn filter_spec(
    fs: Seq<FindingModel>,
    ignored_words: Seq<Seq<char>>,
    ignored_lines: Set<usize>,
    min: Severity,
) -> Seq<FindingModel>
    decreases fs.len(),
{
    if fs.len() == 0 {
        Seq::empty()
    } else {
        filter_spec(fs.drop_last(), ignored_words, ignored_lines, min) + if filter_keeps(
            fs.last(),
            ignored_words,
            ignored_lines,
            min,
        ) {
            seq![fs.last()]
        } else {
            Seq::empty()
        }
    }
}

/// The views of a list of strings.
pub open spec fn string_views(ws: Seq<String>) -> Seq<Seq<char>> {
    ws.map_values(|w: String| w@)
}

fn word_list_contains(words: &Vec<String>, needle: &Vec<char>) -> (r: bool)
    ensures
        r == string_views(words@).contains(needle@),
{
    let mut i: usize = 0;
    while i < words.len()
        invariant
            i <= words@.len(),
            forall|k: int| 0 <= k < i ==> #[trigger] string_views(words@)[k] != needle@,
        decreases words@.len() - i,
    {
        let w = str_to_chars(words[i].as_str());
        if crate::strutil::chars_eq(&w, needle) {
            proof {
                assert(string_views(words@)[i as int] == needle@);
            }
            return true;
        }
        i += 1;
    }
    proof {
        if string_views(words@).contains(needle@) {
            let k = choose|k: int|
                0 <= k < string_views(words@).len() && string_views(words@)[k] == needle@;
            assert(string_views(words@)[k] != needle@);
        }
    }
    false
}

/// Keep the findings that match no ignored word (compared lowercased), lie on
/// no ignored line, and rank at least `min`.
pub fn filter_findings(
    findings: Vec<Finding>,
    ignored_words: &Vec<String>,
    ignored_lines: &std::collections::HashSet<usize>,
    min: Severity,
) -> (r: Vec<Finding>)
    ensures
        finding_models(r@) == filter_spec(
            finding_models(findings@),
            string_views(ignored_words@),
            ignored_lines@,
            min,
        ),
{
    let ghost fsm = finding_models(findings@);
    let ghost words = string_views(ignored_words@);
    let mut r: Vec<Finding> = Vec::new();
    let mut i: usize = 0;
    while i < findings.len()
        invariant
            fsm == finding_models(findings@),
            words == string_views(ignored_words@),
            i <= findings@.len(),
            finding_models(r@) == filter_spec(fsm.take(i as int), words, ignored_lines@, min),
        decreases findings@.len() - i,
    {
        let ghost pre = filter_spec(fsm.take(i as int), words, ignored_lines@, min);
        let f = &findings[i];
        let mv = str_to_chars(f.matched.as_str());
        let ml = lower_chars(&mv);
        let keep = !word_list_contains(ignored_words, &ml) && !ignored_lines.contains(&f.line)
            && f.severity.rank() >= min.rank();
        proof {
            assert(keep == filter_keeps(fsm[i as int], words, ignored_lines@, min));
        }
        let ghost old_r = r@;
        if keep {
            let g = Finding {
                line: f.line,
                col: f.col,
                matched: clone_string(&f.matched),
                message: clone_string(&f.message),
                replacement: clone_opt_string(&f.replacement),
                severity: f.severity,
            };
            proof {
                assert(g@ == fsm[i as int]);
            }
            r.push(g);
            proof {
                assert(finding_models(r@) =~= finding_models(old_r).push(fsm[i as int]));
            }
        }
        i += 1;
        proof {
            assert(fsm.take(i as int).drop_last() =~= fsm.take(i - 1));
            assert(fsm.take(i as int).last() == fsm[i - 1]);
            if keep {
                assert(finding_models(r@) =~= pre + seq![fsm[i - 1]]);
            } else {
                assert(finding_models(r@) =~= pre);
            }
        }
    }
    proof {
        assert(fsm.take(findings@.len() as int) =~= fsm);
    }
    r
}

/// A copy of a string with the same characters.
pub fn clone_string(s: &String) -> (r: String)
    ensures
        r@ == s@,
{
    let v = str_to_chars(s.as_str());
    chars_to_string(&v)
}

/// A copy of an optional string with the same characters.
pub fn clone_opt_string(s: &Option<String>) -> (r: Option<String>)
    ensures
        match (s, &r) {
            (Option::Some(a), Option::Some(b)) => a@ == b@,
            (Option::None, Option::None) => true,
            _ => false,
        },
{
    match s {
        Option::Some(a) => Option::Some(clone_string(a)),
        Option::None => Option::None,
    }
}

// ---------------------------------------------------------------------------
// Laws of the rewrite pass
// ---------------------------------------------------------------------------

/// No newline occurs in `s`.
pub open spec fn no_nl(s: Seq<char>) -> bool {
    forall|i: int| 0 <= i < s.len() ==> s[i] != '\n'
}

/// The replacement of `f`, if any, is non-empty and newline-free: such
/// findings splice text but never drop lines or break the line structure.
pub open spec fn good_replacement(f: FindingModel) -> bool {
    match f.replacement {
        Option::Some(r) => r.len() > 0 && no_nl(r),
        Option::None => true,
    }
}

/// The uppercase mapping behaves as Unicode's does: at least one character
/// (a character with no uppercase mapping yields itself), and no character
/// other than the line break maps to a line break. The trusted wrapper for
/// char::to_uppercase states the same facts of the real mapping.
pub open spec fn upper_of_wf() -> bool {
    forall|c: char|
        (#[trigger] upper_of(c)).len() >= 1 && (c != '\n' ==> (forall|i: int|
            0 <= i < upper_of(c).len() ==> upper_of(c)[i] != '\n'))
}

/// No line of a buffer contains a newline.
pub proof fn lemma_lines_no_nl(s: Seq<char>, start: int)
    requires
        start >= 0,
    ensures
        forall|k: int|
            0 <= k < crate::strutil::lines_from(s, start).len() ==> no_nl(
                #[trigger] crate::strutil::lines_from(s, start)[k],
            ),
    decreases s.len() - start,
{
    if 0 <= start < s.len() {
        crate::strutil::lemma_first_match_props(s, seq!['\n'], start);
        crate::strutil::lemma_first_match_one_char(s, '\n', start);
        match crate::strutil::first_match(s, seq!['\n'], start) {
            Option::None => {
                let piece = s.subrange(start, s.len() as int);
                assert(no_nl(crate::strutil::strip_cr(piece))) by {
                    assert(forall|i: int| 0 <= i < piece.len() ==> piece[i] != '\n');
                }
            },
            Option::Some(i) => {
                let piece = s.subrange(start, i);
                assert(no_nl(crate::strutil::strip_cr(piece))) by {
                    assert(forall|t: int| 0 <= t < piece.len() ==> piece[t] != '\n');
                }
                lemma_lines_no_nl(s, i + 1);
                let w = crate::strutil::lines_from(s, start);
                let rest = crate::strutil::lines_from(s, i + 1);
                assert(forall|k: int| 1 <= k < w.len() ==> w[k] == rest[k - 1]);
            },
        }
    }
}

/// When the buffer is non-empty and does not end in a newline, its last line
/// is non-empty.
pub proof fn lemma_last_line_nonempty(s: Seq<char>, start: int)
    requires
        0 <= start < s.len(),
        s.last() != '\n',
    ensures
        crate::strutil::lines_from(s, start).len() > 0,
        crate::strutil::lines_from(s, start).last().len() > 0,
    decreases s.len() - start,
{
    crate::strutil::lemma_first_match_props(s, seq!['\n'], start);
    crate::strutil::lemma_first_match_one_char(s, '\n', start);
    match crate::strutil::first_match(s, seq!['\n'], start) {
        Option::None => {},
        Option::Some(i) => {
            assert(s[i] == '\n');
            assert(i < s.len() - 1);
            lemma_last_line_nonempty(s, i + 1);
            let w = crate::strutil::lines_from(s, start);
            let rest = crate::strutil::lines_from(s, i + 1);
            assert(w.last() == rest.last());
        },
    }
}

/// Joining a cons list: with at least one tail element, the head is followed
/// by a separator and the joined tail.
proof fn lemma_jp_cons(h: Seq<char>, rest: Seq<Seq<char>>, k: int)
    requires
        1 <= k <= rest.len(),
    ensures
        join_prefix(seq![h] + rest, k + 1) == h + seq!['\n'] + join_prefix_rest(rest, k),
    decreases k,
{
    let ls = seq![h] + rest;
    if k == 1 {
        assert(join_prefix(ls, 0) == Seq::<char>::empty());
        assert(join_prefix(ls, 1) =~= h);
        assert(join_prefix(ls, 2) =~= h + seq!['\n'] + rest[0]);
        assert(join_prefix_rest(rest, 1) =~= rest[0]);
    } else {
        lemma_jp_cons(h, rest, k - 1);
        assert(ls[k] == rest[k - 1]);
        assert(join_prefix(ls, k + 1) == join_prefix(ls, k) + seq!['\n'] + ls[k]);
        assert(join_prefix_rest(rest, k) == join_prefix_rest(rest, k - 1) + seq!['\n'] + rest[k
            - 1]);
        assert(join_prefix(ls, k + 1) =~= h + seq!['\n'] + join_prefix_rest(rest, k));
    }
}

/// `join_prefix` of a non-empty list equals its first element followed by the
/// separated rest; stated through this auxiliary to keep the induction local.
pub open spec fn join_prefix_rest(ls: Seq<Seq<char>>, i: int) -> Seq<char>
    decreases i,
{
    if i <= 0 {
        Seq::empty()
    } else if i == 1 {
        ls[0]
    } else {
        join_prefix_rest(ls, i - 1) + seq!['\n'] + ls[i - 1]
    }
}

proof fn lemma_jp_is_rest(ls: Seq<Seq<char>>, i: int)
    ensures
        join_prefix(ls, i) == join_prefix_rest(ls, i),
    decreases i,
{
    if i > 1 {
        lemma_jp_is_rest(ls, i - 1);
    } else if i == 1 {
        assert(join_prefix(ls, 0) == Seq::<char>::empty());
        assert(join_prefix(ls, 1) =~= ls[0]);
    }
}

/// Joining the lines of a `\r`-free buffer restores the buffer, up to its
/// optional trailing newline.
pub proof fn lemma_join_lines_id(s: Seq<char>, start: int)
    requires
        0 <= start <= s.len(),
        forall|i: int| 0 <= i < s.len() ==> s[i] != '\r',
    ensures
        ({
            let ls = crate::strutil::lines_from(s, start);
            join_prefix(ls, ls.len() as int) == if s.len() > start && s.last() == '\n' {
                s.subrange(start, s.len() - 1)
            } else {
                s.subrange(start, s.len() as int)
            }
        }),
    decreases s.len() - start,
{
    let ls = crate::strutil::lines_from(s, start);
    if start >= s.len() {
        assert(ls =~= Seq::<Seq<char>>::empty());
        assert(join_prefix(ls, 0) =~= s.subrange(start, s.len() as int));
    } else {
        crate::strutil::lemma_first_match_props(s, seq!['\n'], start);
        crate::strutil::lemma_first_match_one_char(s, '\n', start);
        match crate::strutil::first_match(s, seq!['\n'], start) {
            Option::None => {
                let piece = s.subrange(start, s.len() as int);
                assert(crate::strutil::strip_cr(piece) == piece);
                assert(ls =~= seq![piece]);
                assert(join_prefix(ls, 0) == Seq::<char>::empty());
                assert(join_prefix(ls, 1) =~= piece);
                assert(s.last() != '\n');
            },
            Option::Some(i) => {
                let piece = s.subrange(start, i);
                assert(crate::strutil::strip_cr(piece) == piece) by {
                    if piece.len() > 0 {
                        assert(piece.last() == s[i - 1]);
                    }
                }
                let rest = crate::strutil::lines_from(s, i + 1);
                assert(ls == seq![piece] + rest);
                lemma_join_lines_id(s, i + 1);
                if i + 1 >= s.len() {
                    // the newline ends the buffer
                    assert(rest =~= Seq::<Seq<char>>::empty());
                    assert(ls =~= seq![piece]);
                    assert(join_prefix(ls, 0) == Seq::<char>::empty());
                    assert(join_prefix(ls, 1) =~= piece);
                    assert(s.last() == '\n');
                    assert(piece =~= s.subrange(start, s.len() - 1));
                } else {
                    assert(rest.len() > 0);
                    lemma_jp_cons(piece, rest, rest.len() as int);
                    lemma_jp_is_rest(rest, rest.len() as int);
                    assert(join_prefix(ls, ls.len() as int) == piece + seq!['\n'] + join_prefix(
                        rest,
                        rest.len() as int,
                    ));
                    assert(s[i] == '\n');
                    if s.last() == '\n' {
                        assert(piece + seq!['\n'] + s.subrange(i + 1, s.len() - 1)
                            =~= s.subrange(start, s.len() - 1));
                    } else {
                        assert(piece + seq!['\n'] + s.subrange(i + 1, s.len() as int)
                            =~= s.subrange(start, s.len() as int));
                    }
                }
            },
        }
    }
}

/// With no fixable or line-dropping findings, the kept lines are the lines.
proof fn lemma_kept_lines_plain(lines: Seq<Seq<char>>, fs: Seq<FindingModel>, i: int)
    requires
        0 <= i <= lines.len(),
        forall|k: int| 0 <= k < fs.len() ==> (#[trigger] fs[k]).replacement is None,
    ensures
        kept_lines(lines, fs, i) == lines.subrange(i, lines.len() as int),
    decreases lines.len() - i,
{
    if i < lines.len() {
        assert(!line_dropped(fs, i));
        lemma_fixes_for_none(fs, i);
        assert(fixes_for(fs, i) =~= Seq::<FindingModel>::empty());
        lemma_kept_lines_plain(lines, fs, i + 1);
        assert(kept_lines(lines, fs, i) =~= lines.subrange(i, lines.len() as int));
    } else {
        assert(kept_lines(lines, fs, i) =~= lines.subrange(i, lines.len() as int));
    }
}

proof fn lemma_fixes_for_none(fs: Seq<FindingModel>, idx: int)
    requires
        forall|k: int| 0 <= k < fs.len() ==> (#[trigger] fs[k]).replacement is None,
    ensures
        fixes_for(fs, idx) == Seq::<FindingModel>::empty(),
    decreases fs.len(),
{
    if fs.len() > 0 {
        assert(forall|k: int|
            0 <= k < fs.drop_last().len() ==> (#[trigger] fs.drop_last()[k]).replacement
                is None);
        lemma_fixes_for_none(fs.drop_last(), idx);
        assert(fs.last().replacement is None);
        assert(fixes_for(fs, idx) =~= Seq::<FindingModel>::empty());
    }
}

/// Cleaning with findings that carry no replacement returns a `\r`-free
/// buffer unchanged: the idempotence of `clean` reduces to this once a rescan
/// of a cleaned buffer reports no further fixable findings.
pub proof fn lemma_clean_identity(content: Seq<char>, fs: Seq<FindingModel>)
    requires
        forall|i: int| 0 <= i < content.len() ==> content[i] != '\r',
        forall|k: int| 0 <= k < fs.len() ==> (#[trigger] fs[k]).replacement is None,
    ensures
        clean_spec(content, fs) == content,
{
    let lines = lines_spec(content);
    lemma_kept_lines_plain(lines, fs, 0);
    assert(kept_lines(lines, fs, 0) =~= lines);
    lemma_join_lines_id(content, 0);
    if ends_nl(content) {
        assert(clean_spec(content, fs) =~= content);
    } else {
        assert(content.subrange(0, content.len() as int) =~= content);
        assert(clean_spec(content, fs) =~= content);
    }
}

// fixes preserve line structure ------------------------------------------

proof fn lemma_apply_case_good(o: Seq<char>, r: Seq<char>)
    requires
        upper_of_wf(),
        r.len() > 0,
        no_nl(r),
    ensures
        apply_case_spec(o, r).len() > 0,
        no_nl(apply_case_spec(o, r)),
{
    if o.len() == 0 || r.len() == 0 {
    } else if is_upper_char(o[0]) {
        let u = upper_of(r[0]);
        assert(u.len() >= 1);
        assert(r[0] != '\n');
        assert(forall|i: int| 0 <= i < u.len() ==> u[i] != '\n');
        let out = u + r.drop_first();
        assert(no_nl(out)) by {
            assert(forall|i: int|
                0 <= i < out.len() ==> out[i] == (if i < u.len() {
                    u[i]
                } else {
                    r[i - u.len() + 1]
                }));
        }
    }
}

proof fn lemma_apply_one_fix_good(line: Seq<char>, f: FindingModel)
    requires
        upper_of_wf(),
        no_nl(line),
        good_replacement(f),
    ensures
        no_nl(apply_one_fix(line, f)),
        line.len() > 0 ==> apply_one_fix(line, f).len() > 0,
{
    match f.replacement {
        Option::None => {},
        Option::Some(rep) => {
            let tgt = f.col + byte_len(f.matched);
            crate::strutil::lemma_char_idx_at_props(line, f.col as int);
            crate::strutil::lemma_char_idx_at_props(line, tgt);
            match (char_idx_at(line, f.col as int), char_idx_at(line, tgt)) {
                (Option::Some(p), Option::Some(e)) => {
                    if p <= e {
                        lemma_apply_case_good(line.subrange(p, e), rep);
                        let mid = apply_case_spec(line.subrange(p, e), rep);
                        let out = line.take(p) + mid + line.skip(e);
                        assert(no_nl(out)) by {
                            assert(forall|i: int|
                                0 <= i < out.len() ==> out[i] == (if i < p {
                                    line[i]
                                } else if i < p + mid.len() {
                                    mid[i - p]
                                } else {
                                    line[i - p - mid.len() + e]
                                }));
                        }
                        assert(out.len() > 0);
                    }
                },
                _ => {},
            }
        },
    }
}

proof fn lemma_sorted_elems_good(fs: Seq<FindingModel>)
    requires
        forall|k: int| 0 <= k < fs.len() ==> good_replacement(#[trigger] fs[k]),
    ensures
        forall|k: int|
            0 <= k < sort_by_col_desc(fs).len() ==> good_replacement(
                #[trigger] sort_by_col_desc(fs)[k],
            ),
    decreases fs.len(),
{
    if fs.len() > 0 {
        assert(forall|k: int|
            0 <= k < fs.drop_last().len() ==> good_replacement(#[trigger] fs.drop_last()[k]));
        lemma_sorted_elems_good(fs.drop_last());
        lemma_insert_elems_good(sort_by_col_desc(fs.drop_last()), fs.last());
    }
}

proof fn lemma_insert_elems_good(s: Seq<FindingModel>, f: FindingModel)
    requires
        forall|k: int| 0 <= k < s.len() ==> good_replacement(#[trigger] s[k]),
        good_replacement(f),
    ensures
        forall|k: int|
            0 <= k < insert_desc(s, f).len() ==> good_replacement(#[trigger] insert_desc(s, f)[k]),
    decreases s.len(),
{
    if s.len() == 0 {
    } else if f.col > s[0].col {
        let w = insert_desc(s, f);
        assert(forall|k: int| 1 <= k < w.len() ==> w[k] == s[k - 1]);
    } else {
        assert(forall|k: int|
            0 <= k < s.drop_first().len() ==> good_replacement(#[trigger] s.drop_first()[k]));
        lemma_insert_elems_good(s.drop_first(), f);
        let w = insert_desc(s, f);
        let rest = insert_desc(s.drop_first(), f);
        assert(forall|k: int| 1 <= k < w.len() ==> w[k] == rest[k - 1]);
    }
}

proof fn lemma_fixes_for_good(fs: Seq<FindingModel>, idx: int)
    requires
        forall|k: int| 0 <= k < fs.len() ==> good_replacement(#[trigger] fs[k]),
    ensures
        forall|k: int|
            0 <= k < fixes_for(fs, idx).len() ==> good_replacement(#[trigger] fixes_for(fs, idx)[k]),
    decreases fs.len(),
{
    if fs.len() > 0 {
        assert(forall|k: int|
            0 <= k < fs.drop_last().len() ==> good_replacement(#[trigger] fs.drop_last()[k]));
        lemma_fixes_for_good(fs.drop_last(), idx);
        let w = fixes_for(fs, idx);
        let pre = fixes_for(fs.drop_last(), idx);
        assert(forall|k: int|
            0 <= k < w.len() ==> w[k] == (if k < pre.len() {
                pre[k]
            } else {
                fs.last()
            }));
    }
}

proof fn lemma_apply_fixes_good(line: Seq<char>, fs: Seq<FindingModel>)
    requires
        upper_of_wf(),
        no_nl(line),
        forall|k: int| 0 <= k < fs.len() ==> good_replacement(#[trigger] fs[k]),
    ensures
        no_nl(apply_fixes(line, fs)),
        line.len() > 0 ==> apply_fixes(line, fs).len() > 0,
    decreases fs.len(),
{
    if fs.len() > 0 {
        lemma_apply_one_fix_good(line, fs[0]);
        assert(forall|k: int|
            0 <= k < fs.drop_first().len() ==> good_replacement(#[trigger] fs.drop_first()[k]));
        lemma_apply_fixes_good(apply_one_fix(line, fs[0]), fs.drop_first());
    }
}

proof fn lemma_kept_lines_full(lines: Seq<Seq<char>>, fs: Seq<FindingModel>, i: int)
    requires
        0 <= i <= lines.len(),
        forall|k: int| 0 <= k < fs.len() ==> good_replacement(#[trigger] fs[k]),
    ensures
        kept_lines(lines, fs, i).len() == lines.len() - i,
        forall|k: int|
            0 <= k < lines.len() - i ==> kept_lines(lines, fs, i)[k] == fixed_line(
                lines[i + k],
                fs,
                i + k,
            ),
    decreases lines.len() - i,
{
    if i < lines.len() {
        assert(!line_dropped(fs, i));
        lemma_kept_lines_full(lines, fs, i + 1);
        let w = kept_lines(lines, fs, i);
        let rest = kept_lines(lines, fs, i + 1);
        assert(forall|k: int| 1 <= k < w.len() ==> w[k] == rest[k - 1]);
    }
}

/// The cleaned buffer ends with a newline exactly when the original does,
/// provided every finding's replacement is non-empty and newline-free and the
/// uppercase mapping is well formed (as the real one is). Line-dropping
/// findings are excluded: dropping the final lines can strand a newline.
pub proof fn lemma_clean_trailing_newline(content: Seq<char>, fs: Seq<FindingModel>)
    requires
        upper_of_wf(),
        forall|k: int| 0 <= k < fs.len() ==> good_replacement(#[trigger] fs[k]),
    ensures
        ends_nl(clean_spec(content, fs)) == ends_nl(content),
{
    let lines = lines_spec(content);
    let kept = kept_lines(lines, fs, 0);
    let joined = join_prefix(kept, kept.len() as int);
    lemma_kept_lines_full(lines, fs, 0);
    if ends_nl(content) {
        assert(clean_spec(content, fs).last() == '\n');
        assert(clean_spec(content, fs).len() > 0);
    } else {
        if content.len() == 0 {
            assert(lines =~= Seq::<Seq<char>>::empty());
            assert(kept.len() == 0);
            assert(joined =~= Seq::<char>::empty());
        } else {
            lemma_last_line_nonempty(content, 0);
            lemma_lines_no_nl(content, 0);
            let last_idx = lines.len() - 1;
            lemma_fixes_for_good(fs, last_idx);
            lemma_sorted_elems_good(fixes_for(fs, last_idx));
            lemma_apply_fixes_good(lines[last_idx], sort_by_col_desc(fixes_for(fs, last_idx)));
            let lk = kept[kept.len() - 1];
            assert(lk == fixed_line(lines[last_idx], fs, last_idx));
            assert(lk.len() > 0 && no_nl(lk));
            assert(joined == join_prefix(kept, kept.len() - 1) + (if kept.len() - 1 > 0 {
                seq!['\n']
            } else {
                Seq::<char>::empty()
            }) + lk);
            assert(joined.len() > 0);
            assert(joined.last() == lk.last());
            assert(joined.last() != '\n');
            assert(!ends_nl(clean_spec(content, fs)));
        }
    }
}

/// A second scan-and-clean pass is the identity: whenever the rescan of the
/// cleaned, carriage-return-free buffer reports no further fixable findings
/// — which the curated rule table is meant to guarantee, no replacement
/// introducing a new matchable needle — cleaning the cleaned buffer again
/// returns it unchanged.
pub proof fn lemma_clean_scan_idempotent(content: Seq<char>, rules: Seq<text::TextRuleModel>)
    requires
        ({
            let c1 = clean_spec(content, text::text_findings(content, rules));
            &&& forall|i: int| 0 <= i < c1.len() ==> c1[i] != '\r'
            &&& forall|k: int|
                0 <= k < text::text_findings(c1, rules).len() ==> (#[trigger] text::text_findings(
                    c1,
                    rules,
                )[k]).replacement is None
        }),
    ensures
        ({
            let c1 = clean_spec(content, text::text_findings(content, rules));
            clean_spec(c1, text::text_findings(c1, rules)) == c1
        }),
{
    let c1 = clean_spec(content, text::text_findings(content, rules));
    lemma_clean_identity(c1, text::text_findings(c1, rules));
}

/// Every user-rule finding points at a real span of the line it names: the
/// matched text is the slice of that line at the reported byte column, both
/// endpoints lie on character boundaries, and the match respects word
/// boundaries on the lowercased line (user rules apply no backtick guard).
pub proof fn lemma_user_findings_located(
    content: Seq<char>,
    rs: Seq<crate::config::UserRuleModel>,
)
    ensures
        forall|k: int|
            0 <= k < user_findings(content, rs).len() ==> {
                let f = #[trigger] user_findings(content, rs)[k];
                let lines = lines_spec(content);
                &&& 1 <= f.line <= lines.len()
                &&& text::match_site_ok_with(
                    lower_of(lines[f.line - 1]),
                    lines[f.line - 1],
                    f,
                    false,
                )
            },
{
    lemma_user_rules_scan_located(lines_spec(content), rs, 0);
}

proof fn lemma_user_rule_lines_located(
    lines: Seq<Seq<char>>,
    rule: text::TextRuleModel,
    li: int,
)
    requires
        0 <= li,
    ensures
        forall|k: int|
            0 <= k < user_rule_lines(lines, rule, li).len() ==> {
                let f = #[trigger] user_rule_lines(lines, rule, li)[k];
                &&& li + 1 <= f.line <= lines.len()
                &&& text::match_site_ok_with(
                    lower_of(lines[f.line - 1]),
                    lines[f.line - 1],
                    f,
                    false,
                )
            },
    decreases lines.len() - li,
{
    if 0 <= li < lines.len() {
        text::lemma_rule_scan_located(lower_of(lines[li]), lines[li], rule, li + 1, 0, false);
        lemma_user_rule_lines_located(lines, rule, li + 1);
        let w = user_rule_lines(lines, rule, li);
        let head = text::rule_scan(lower_of(lines[li]), lines[li], rule, li + 1, 0, false);
        let rest = user_rule_lines(lines, rule, li + 1);
        assert(forall|k: int|
            0 <= k < w.len() ==> w[k] == (if k < head.len() {
                head[k]
            } else {
                rest[k - head.len()]
            }));
    }
}

proof fn lemma_user_rules_scan_located(
    lines: Seq<Seq<char>>,
    rs: Seq<crate::config::UserRuleModel>,
    ri: int,
)
    ensures
        forall|k: int|
            0 <= k < user_rules_scan(lines, rs, ri).len() ==> {
                let f = #[trigger] user_rules_scan(lines, rs, ri)[k];
                &&& 1 <= f.line <= lines.len()
                &&& text::match_site_ok_with(
                    lower_of(lines[f.line - 1]),
                    lines[f.line - 1],
                    f,
                    false,
                )
            },
    decreases rs.len() - ri,
{
    if 0 <= ri < rs.len() {
        lemma_user_rule_lines_located(lines, bound_user_rule(rs[ri]), 0);
        lemma_user_rules_scan_located(lines, rs, ri + 1);
        let w = user_rules_scan(lines, rs, ri);
        let head = if rs[ri].enabled {
            user_rule_lines(lines, bound_user_rule(rs[ri]), 0)
        } else {
            Seq::<FindingModel>::empty()
        };
        let rest = user_rules_scan(lines, rs, ri + 1);
        assert(forall|k: int|
            0 <= k < w.len() ==> w[k] == (if k < head.len() {
                head[k]
            } else {
                rest[k - head.len()]
            }));
    }
}

/// Every finding that survives the filter ranks at least `min`, lies on no
/// ignored line, and matches no ignored word.
pub proof fn lemma_filter_spec_sound(
    fs: Seq<FindingModel>,
    ignored_words: Seq<Seq<char>>,
    ignored_lines: Set<usize>,
    min: Severity,
)
    ensures
        forall|k: int|
            0 <= k < filter_spec(fs, ignored_words, ignored_lines, min).len()
                ==> filter_keeps(
                #[trigger] filter_spec(fs, ignored_words, ignored_lines, min)[k],
                ignored_words,
                ignored_lines,
                min,
            ),
    decreases fs.len(),
{
    if fs.len() > 0 {
        lemma_filter_spec_sound(fs.drop_last(), ignored_words, ignored_lines, min);
        let pre = filter_spec(fs.drop_last(), ignored_words, ignored_lines, min);
        let res = filter_spec(fs, ignored_words, ignored_lines, min);
        assert forall|k: int| 0 <= k < res.len() implies filter_keeps(
            res[k],
            ignored_words,
            ignored_lines,
            min,
        ) by {
            if k < pre.len() {
                assert(res[k] == pre[k]);
            } else {
                assert(res[k] == fs.last());
            }
        }
    }
}

// ---------------------------------------------------------------------------
// User-rule binding
// ---------------------------------------------------------------------------

/// The severity a user rule's declaration selects; anything but the three
/// higher spellings (including nothing) is Low.
pub open spec fn user_severity(s: Option<Seq<char>>) -> Severity {
    match s {
        Option::Some(x) => if x == "critical"@ {
            Severity::Critical
        } else if x == "high"@ {
            Severity::High
        } else if x == "medium"@ {
            Severity::Medium
        } else {
            Severity::Low
        },
        Option::None => Severity::Low,
    }
}

/// A user rule bound as a text rule: the needle is the lowercased pattern,
/// and a missing message defaults to naming the pattern.
pub open spec fn bound_user_rule(r: crate::config::UserRuleModel) -> text::TextRuleModel {
    text::TextRuleModel {
        needle: lower_of(r.pattern),
        message: match r.message {
            Option::Some(m) => m,
            Option::None => "User rule: '"@ + r.pattern + "'"@,
        },
        replacement: r.replacement,
        severity: user_severity(r.severity),
    }
}

/// The findings of one bound user rule over the lines `lines[li..]`: the same
/// word-boundary and offset-mapping rules as built-in text rules, but no
/// fence, URL or backtick suppression.
pub open spec fn user_rule_lines(
    lines: Seq<Seq<char>>,
    rule: text::TextRuleModel,
    li: int,
) -> Seq<FindingModel>
    decreases lines.len() - li,
{
    if li < 0 || li >= lines.len() {
        Seq::empty()
    } else {
        text::rule_scan(lower_of(lines[li]), lines[li], rule, li + 1, 0, false) + user_rule_lines(
            lines,
            rule,
            li + 1,
        )
    }
}

/// The findings of the enabled user rules `rs[ri..]`, rule by rule over the
/// whole buffer.
pub open spec fn user_rules_scan(
    lines: Seq<Seq<char>>,
    rs: Seq<crate::config::UserRuleModel>,
    ri: int,
) -> Seq<FindingModel>
    decreases rs.len() - ri,
{
    if ri < 0 || ri >= rs.len() {
        Seq::empty()
    } else {
        (if rs[ri].enabled {
            user_rule_lines(lines, bound_user_rule(rs[ri]), 0)
        } else {
            Seq::empty()
        }) + user_rules_scan(lines, rs, ri + 1)
    }
}

/// The user-rule findings of a buffer under a configuration.
pub open spec fn user_findings(
    content: Seq<char>,
    rs: Seq<crate::config::UserRuleModel>,
) -> Seq<FindingModel> {
    user_rules_scan(lines_spec(content), rs, 0)
}

/// Apply the user-defined rules from `cfg` to `content`, returning findings.
/// Searches case-insensitively (needle = pattern lowercased). Byte offsets in
/// `Finding::col` are relative to the original line, so `clean` and JSON
/// consumers can safely slice the original text. A rule whose lowercased
/// pattern is empty yields no findings.
pub fn apply_user_rules(content: &str, cfg: Option<&crate::config::Config>) -> (findings: Vec<
    Finding,
>)
    ensures
        match cfg {
            Option::Some(c) => finding_models(findings@) == user_findings(
                content@,
                crate::config::user_rule_models(c.rules@),
            ),
            Option::None => findings@.len() == 0,
        },
{
    let mut out: Vec<Finding> = Vec::new();
    let c: &crate::config::Config = match cfg {
        Option::Some(c) => c,
        Option::None => {
            return out;
        },
    };
    let cv = str_to_chars(content);
    let lines = split_lines(&cv);
    let ghost lv = lines_spec(cv@);
    let ghost rms = crate::config::user_rule_models(c.rules@);
    let mut ri: usize = 0;
    while ri < c.rules.len()
        invariant
            rms == crate::config::user_rule_models(c.rules@),
            lv == lines_spec(content@),
            cv@ == content@,
            views_of(lines@) == lv,
            byte_len(cv@) <= usize::MAX,
            forall|k: int| 0 <= k < lv.len() ==> byte_len(#[trigger] lv[k]) <= byte_len(cv@),
            ri <= c.rules@.len(),
            finding_models(out@) + user_rules_scan(lv, rms, ri as int) =~= user_findings(
                content@,
                rms,
            ),
        decreases c.rules@.len() - ri,
    {
        let rule = &c.rules[ri];
        if rule.enabled {
            let ghost trm = bound_user_rule(rms[ri as int]);
            let pv = str_to_chars(rule.pattern.as_str());
            let needle = lower_chars(&pv);
            let message: String = match &rule.message {
                Option::Some(m) => clone_string(m),
                Option::None => {
                    let mut mv: Vec<char> = Vec::new();
                    crate::strutil::push_str_chars("User rule: '", &mut mv);
                    push_all(&pv, &mut mv);
                    crate::strutil::push_str_chars("'", &mut mv);
                    chars_to_string(&mv)
                },
            };
            let severity: Severity = match &rule.severity {
                Option::Some(s) => {
                    let sv = str_to_chars(s.as_str());
                    if crate::strutil::chars_eq_str(&sv, "critical") {
                        Severity::Critical
                    } else if crate::strutil::chars_eq_str(&sv, "high") {
                        Severity::High
                    } else if crate::strutil::chars_eq_str(&sv, "medium") {
                        Severity::Medium
                    } else {
                        Severity::Low
                    }
                },
                Option::None => Severity::Low,
            };
            proof {
                assert(needle@ == trm.needle);
                assert(message@ == trm.message);
                assert(severity == trm.severity);
            }
            let mut li: usize = 0;
            while li < lines.len()
                invariant
                    rms == crate::config::user_rule_models(c.rules@),
                    trm == bound_user_rule(rms[ri as int]),
                    needle@ == trm.needle,
                    message@ == trm.message,
                    severity == trm.severity,
                    ri < c.rules@.len(),
                    opt_string_view(&rule.replacement) == trm.replacement,
                    lv == lines_spec(content@),
                    views_of(lines@) == lv,
                    byte_len(cv@) <= usize::MAX,
                    forall|k: int|
                        0 <= k < lv.len() ==> byte_len(#[trigger] lv[k]) <= byte_len(cv@),
                    li <= lines@.len(),
                    finding_models(out@) + user_rule_lines(lv, trm, li as int) + user_rules_scan(
                        lv,
                        rms,
                        ri + 1,
                    ) =~= user_findings(content@, rms),
                decreases lines@.len() - li,
            {
                let line = &lines[li];
                proof {
                    assert(line@ == lv[li as int]);
                }
                let low = lower_chars(line);
                text::scan_rule_on_line(
                    &low,
                    line,
                    &needle,
                    &message,
                    &rule.replacement,
                    severity,
                    li + 1,
                    false,
                    &mut out,
                );
                li += 1;
                proof {
                    assert(user_rule_lines(lv, trm, li - 1) == text::rule_scan(
                        lower_of(lv[li - 1]),
                        lv[li - 1],
                        trm,
                        li as int,
                        0,
                        false,
                    ) + user_rule_lines(lv, trm, li as int));
                    assert(finding_models(out@) + user_rule_lines(lv, trm, li as int)
                        + user_rules_scan(lv, rms, ri + 1) =~= user_findings(content@, rms));
                }
            }
            proof {
                assert(user_rule_lines(lv, trm, lines@.len() as int)
                    =~= Seq::<FindingModel>::empty());
            }
        }
        ri += 1;
        proof {
            assert(finding_models(out@) + user_rules_scan(lv, rms, ri as int) =~= user_findings(
                content@,
                rms,
            ));
        }
    }
    proof {
        assert(user_rules_scan(lv, rms, c.rules@.len() as int) =~= Seq::<FindingModel>::empty());
        assert(finding_models(out@) =~= user_findings(content@, rms));
    }
    out
}

/// The view of an optional string, by reference.
pub open spec fn opt_string_view(s: &Option<String>) -> Option<Seq<char>> {
    match s {
        Option::Some(x) => Option::Some(x@),
        Option::None => Option::None,
    }
}

/// Min-severity filtering keeps exactly the findings whose rank reaches the
/// threshold: a finding of `fs` appears in the filtered list if and only if
/// it passes `filter_keeps`, and the order of the kept findings is the order
/// they had in `fs`.
pub proof fn lemma_filter_spec_complete(
    fs: Seq<FindingModel>,
    ignored_words: Seq<Seq<char>>,
    ignored_lines: Set<usize>,
    min: Severity,
    k: int,
)
    requires
        0 <= k < fs.len(),
        filter_keeps(fs[k], ignored_words, ignored_lines, min),
    ensures
        filter_spec(fs, ignored_words, ignored_lines, min).contains(fs[k]),
    decreases fs.len(),
{
    if k == fs.len() - 1 {
        let pre = filter_spec(fs.drop_last(), ignored_words, ignored_lines, min);
        assert(filter_spec(fs, ignored_words, ignored_lines, min)[pre.len() as int] == fs[k]);
    } else {
        lemma_filter_spec_complete(fs.drop_last(), ignored_words, ignored_lines, min, k);
        let pre = filter_spec(fs.drop_last(), ignored_words, ignored_lines, min);
        let j = choose|j: int| 0 <= j < pre.len() && pre[j] == fs.drop_last()[k];
        assert(filter_spec(fs, ignored_words, ignored_lines, min)[j] == fs[k]);
    }
}

} // verus!
