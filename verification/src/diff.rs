//! Line-level unified diff between two buffers, from a longest-common-
//! subsequence table, with three lines of context per hunk.

use vstd::prelude::*;

use crate::strutil::{
    chars_eq, chars_to_string, has_prefix, lines_spec, push_all, push_decimal, push_str_chars,
    split_lines, str_to_chars, views_of,
};

verus! {

/// Length of the longest common subsequence of `a[..i]` and `b[..j]`.
pub open spec fn lcs_len(a: Seq<Seq<char>>, b: Seq<Seq<char>>, i: int, j: int) -> int
    decreases i + j,
{
    if i <= 0 || j <= 0 {
        0
    } else if a[i - 1] == b[j - 1] {
        lcs_len(a, b, i - 1, j - 1) + 1
    } else {
        let x = lcs_len(a, b, i - 1, j);
        let y = lcs_len(a, b, i, j - 1);
        if x >= y {
            x
        } else {
            y
        }
    }
}

pub proof fn lemma_lcs_len_bounds(a: Seq<Seq<char>>, b: Seq<Seq<char>>, i: int, j: int)
    ensures
        0 <= lcs_len(a, b, i, j),
        lcs_len(a, b, i, j) <= i || lcs_len(a, b, i, j) == 0,
    decreases i + j,
{
    if i > 0 && j > 0 {
        lemma_lcs_len_bounds(a, b, i - 1, j - 1);
        lemma_lcs_len_bounds(a, b, i - 1, j);
        lemma_lcs_len_bounds(a, b, i, j - 1);
    }
}

/// Is `table` the full LCS table for `a` and `b`?
pub open spec fn lcs_table_ok(table: Seq<Vec<usize>>, a: Seq<Seq<char>>, b: Seq<Seq<char>>) -> bool {
    &&& table.len() == a.len() + 1
    &&& forall|i: int| 0 <= i < table.len() ==> (#[trigger] table[i])@.len() == b.len() + 1
    &&& forall|i: int, j: int|
        0 <= i < table.len() && 0 <= j < b.len() + 1 ==> (#[trigger] table[i]@[j]) as int
            == lcs_len(a, b, i, j)
}

/// Compute the longest common subsequence table: `table[i][j]` is the length
/// of the LCS of the first `i` lines of `orig` and the first `j` lines of
/// `modified`.
fn compute_lcs(orig: &Vec<Vec<char>>, modified: &Vec<Vec<char>>) -> (table: Vec<Vec<usize>>)
    ensures
        lcs_table_ok(table@, views_of(orig@), views_of(modified@)),
{
    let ghost av = views_of(orig@);
    let ghost bv = views_of(modified@);
    let m: usize = orig.len();
    let n: usize = modified.len();
    let mut table: Vec<Vec<usize>> = Vec::new();
    let mut zrow: Vec<usize> = Vec::new();
    let mut z: usize = 0;
    while z < n
        invariant
            n == bv.len(),
            z <= n,
            zrow@.len() == z,
            forall|j: int| 0 <= j < z ==> zrow@[j] == 0,
        decreases n - z,
    {
        zrow.push(0);
        z += 1;
    }
    zrow.push(0);
    proof {
        assert(forall|j: int| 0 <= j <= bv.len() ==> lcs_len(av, bv, 0, j) == 0);
    }
    table.push(zrow);
    let mut r: usize = 0;
    while r < m
        invariant
            av == views_of(orig@),
            bv == views_of(modified@),
            m == av.len(),
            n == bv.len(),
            m == orig@.len(),
            n == modified@.len(),
            r <= m,
            table@.len() == r + 1,
            forall|ii: int| 0 <= ii <= r ==> (#[trigger] table@[ii])@.len() == n + 1,
            forall|ii: int, j: int|
                0 <= ii <= r && 0 <= j < n + 1 ==> (#[trigger] table@[ii]@[j]) as int == lcs_len(
                    av,
                    bv,
                    ii,
                    j,
                ),
        decreases m - r,
    {
        let i: usize = r + 1;
        let mut row: Vec<usize> = Vec::new();
        row.push(0);
        let mut c: usize = 0;
        while c < n
            invariant
                av == views_of(orig@),
                bv == views_of(modified@),
                m == av.len(),
                n == bv.len(),
                m == orig@.len(),
                n == modified@.len(),
                r < m,
                i == r + 1,
                c <= n,
                table@.len() == r + 1,
                forall|ii: int| 0 <= ii <= r ==> (#[trigger] table@[ii])@.len() == n + 1,
                forall|ii: int, jj: int|
                    0 <= ii <= r && 0 <= jj < n + 1 ==> (#[trigger] table@[ii]@[jj]) as int
                        == lcs_len(av, bv, ii, jj),
                row@.len() == c + 1,
                forall|jj: int| 0 <= jj <= c ==> (#[trigger] row@[jj]) as int == lcs_len(
                    av,
                    bv,
                    i as int,
                    jj,
                ),
            decreases n - c,
        {
            let j: usize = c + 1;
            proof {
                assert(orig@[i - 1]@ == av[i - 1]);
                assert(modified@[j - 1]@ == bv[j - 1]);
                lemma_lcs_len_bounds(av, bv, i - 1, j - 1);
                lemma_lcs_len_bounds(av, bv, i - 1, j as int);
                lemma_lcs_len_bounds(av, bv, i as int, j - 1);
            }
            let v: usize = if chars_eq(&orig[i - 1], &modified[j - 1]) {
                table[i - 1][j - 1] + 1
            } else {
                let x = table[i - 1][j];
                let y = row[j - 1];
                if x >= y {
                    x
                } else {
                    y
                }
            };
            row.push(v);
            c += 1;
        }
        table.push(row);
        r += 1;
    }
        table
}

/// Diff operation for a single line.
#[derive(Debug, Clone, Copy, PartialEq, Eq, Structural)]
pub enum DiffOp {
    Equal,
    Delete,
    Insert,
}

/// The walk of the LCS table from corner `(i, j)` back to the origin, in the
/// order the walk visits operations (the reverse of buffer order).
pub open spec fn walk_ops(a: Seq<Seq<char>>, b: Seq<Seq<char>>, i: int, j: int) -> Seq<
    (DiffOp, int, int),
>
    decreases i + j,
{
    if i < 0 || j < 0 || (i == 0 && j == 0) {
        Seq::empty()
    } else if i > 0 && j > 0 && a[i - 1] == b[j - 1] {
        seq![(DiffOp::Equal, i - 1, j - 1)] + walk_ops(a, b, i - 1, j - 1)
    } else if j > 0 && (i <= 0 || lcs_len(a, b, i, j - 1) >= lcs_len(a, b, i - 1, j)) {
        seq![(DiffOp::Insert, i, j - 1)] + walk_ops(a, b, i, j - 1)
    } else {
        seq![(DiffOp::Delete, i - 1, j)] + walk_ops(a, b, i - 1, j)
    }
}

/// The diff operations of two line lists, in buffer order.
pub open spec fn diff_ops_spec(a: Seq<Seq<char>>, b: Seq<Seq<char>>) -> Seq<(DiffOp, int, int)> {
    walk_ops(a, b, a.len() as int, b.len() as int).reverse()
}

/// The models of executable operation triples.
pub open spec fn op_models(s: Seq<(DiffOp, usize, usize)>) -> Seq<(DiffOp, int, int)> {
    s.map_values(|t: (DiffOp, usize, usize)| (t.0, t.1 as int, t.2 as int))
}

/// Every operation of the walk carries indices valid for its buffers.
pub open spec fn op_valid(t: (DiffOp, int, int), alen: int, blen: int) -> bool {
    match t.0 {
        DiffOp::Equal => 0 <= t.1 < alen && 0 <= t.2 < blen,
        DiffOp::Delete => 0 <= t.1 < alen,
        DiffOp::Insert => 0 <= t.2 < blen,
    }
}

pub proof fn lemma_walk_ops_valid(a: Seq<Seq<char>>, b: Seq<Seq<char>>, i: int, j: int)
    requires
        0 <= i <= a.len(),
        0 <= j <= b.len(),
    ensures
        forall|k: int|
            0 <= k < walk_ops(a, b, i, j).len() ==> op_valid(
                #[trigger] walk_ops(a, b, i, j)[k],
                a.len() as int,
                b.len() as int,
            ),
    decreases i + j,
{
    if i == 0 && j == 0 {
    } else if i > 0 && j > 0 && a[i - 1] == b[j - 1] {
        lemma_walk_ops_valid(a, b, i - 1, j - 1);
        let w = walk_ops(a, b, i, j);
        let rest = walk_ops(a, b, i - 1, j - 1);
        assert forall|k: int| 0 <= k < w.len() implies op_valid(
            #[trigger] w[k],
            a.len() as int,
            b.len() as int,
        ) by {
            if k > 0 {
                assert(w[k] == rest[k - 1]);
            }
        }
    } else if j > 0 && (i <= 0 || lcs_len(a, b, i, j - 1) >= lcs_len(a, b, i - 1, j)) {
        lemma_walk_ops_valid(a, b, i, j - 1);
        let w = walk_ops(a, b, i, j);
        let rest = walk_ops(a, b, i, j - 1);
        assert forall|k: int| 0 <= k < w.len() implies op_valid(
            #[trigger] w[k],
            a.len() as int,
            b.len() as int,
        ) by {
            if k > 0 {
                assert(w[k] == rest[k - 1]);
            }
        }
    } else {
        lemma_walk_ops_valid(a, b, i - 1, j);
        let w = walk_ops(a, b, i, j);
        let rest = walk_ops(a, b, i - 1, j);
        assert forall|k: int| 0 <= k < w.len() implies op_valid(
            #[trigger] w[k],
            a.len() as int,
            b.len() as int,
        ) by {
            if k > 0 {
                assert(w[k] == rest[k - 1]);
            }
        }
    }
}

/// A walk of only `Equal` operations relates equal line lists.
pub proof fn lemma_walk_all_equal(a: Seq<Seq<char>>, b: Seq<Seq<char>>, i: int, j: int)
    requires
        0 <= i <= a.len(),
        0 <= j <= b.len(),
        forall|k: int|
            0 <= k < walk_ops(a, b, i, j).len() ==> (#[trigger] walk_ops(a, b, i, j)[k]).0
                == DiffOp::Equal,
    ensures
        i == j,
        a.subrange(0, i) =~= b.subrange(0, j),
    decreases i + j,
{
    if i == 0 && j == 0 {
        assert(a.subrange(0, i) =~= b.subrange(0, j));
    } else if i > 0 && j > 0 && a[i - 1] == b[j - 1] {
        let rest = walk_ops(a, b, i - 1, j - 1);
        assert(forall|k: int| 0 <= k < rest.len() ==> (#[trigger] rest[k]).0 == DiffOp::Equal)
            by {
            assert(forall|k: int|
                0 <= k < rest.len() ==> rest[k] == walk_ops(a, b, i, j)[k + 1]);
        }
        lemma_walk_all_equal(a, b, i - 1, j - 1);
        assert(a.subrange(0, i) =~= b.subrange(0, j)) by {
            assert(forall|k: int|
                0 <= k < i - 1 ==> #[trigger] a.subrange(0, i - 1)[k] == b.subrange(0, j - 1)[k]);
        }
    } else {
        assert(walk_ops(a, b, i, j)[0].0 != DiffOp::Equal);
    }
}

/// Walk the LCS table to produce the diff operations in buffer order.
fn diff_ops(
    orig: &Vec<Vec<char>>,
    modified: &Vec<Vec<char>>,
    table: &Vec<Vec<usize>>,
) -> (ops: Vec<(DiffOp, usize, usize)>)
    requires
        lcs_table_ok(table@, views_of(orig@), views_of(modified@)),
    ensures
        op_models(ops@) == diff_ops_spec(views_of(orig@), views_of(modified@)),
        forall|k: int|
            0 <= k < op_models(ops@).len() ==> op_valid(
                #[trigger] op_models(ops@)[k],
                orig@.len() as int,
                modified@.len() as int,
            ),
{
    let ghost av = views_of(orig@);
    let ghost bv = views_of(modified@);
    let mut rev: Vec<(DiffOp, usize, usize)> = Vec::new();
    let mut i: usize = orig.len();
    let mut j: usize = modified.len();
    while i > 0 || j > 0
        invariant
            lcs_table_ok(table@, av, bv),
            av == views_of(orig@),
            bv == views_of(modified@),
            i <= av.len(),
            j <= bv.len(),
            op_models(rev@) + walk_ops(av, bv, i as int, j as int) =~= walk_ops(
                av,
                bv,
                av.len() as int,
                bv.len() as int,
            ),
        decreases i + j,
    {
        let ghost old_rev = rev@;
        if i > 0 && j > 0 && chars_eq(&orig[i - 1], &modified[j - 1]) {
            proof {
                assert(orig@[i - 1]@ == av[i - 1]);
                assert(modified@[j - 1]@ == bv[j - 1]);
            }
            rev.push((DiffOp::Equal, i - 1, j - 1));
            proof {
                assert(op_models(rev@) =~= op_models(old_rev).push(
                    (DiffOp::Equal, i - 1 as int, j - 1 as int),
                ));
                assert(walk_ops(av, bv, i as int, j as int) =~= seq![
                    (DiffOp::Equal, i - 1 as int, j - 1 as int),
                ] + walk_ops(av, bv, i - 1, j - 1));
                assert(op_models(rev@) + walk_ops(av, bv, i - 1, j - 1) =~= walk_ops(
                    av,
                    bv,
                    av.len() as int,
                    bv.len() as int,
                ));
            }
            i -= 1;
            j -= 1;
        } else if j > 0 && (i == 0 || table[i][j - 1] >= table[i - 1][j]) {
            proof {
                if i > 0 {
                    assert(orig@[i - 1]@ == av[i - 1]);
                    assert(modified@[j - 1]@ == bv[j - 1]);
                }
            }
            rev.push((DiffOp::Insert, i, j - 1));
            proof {
                assert(op_models(rev@) =~= op_models(old_rev).push(
                    (DiffOp::Insert, i as int, j - 1 as int),
                ));
                assert(walk_ops(av, bv, i as int, j as int) =~= seq![
                    (DiffOp::Insert, i as int, j - 1 as int),
                ] + walk_ops(av, bv, i as int, j - 1));
                assert(op_models(rev@) + walk_ops(av, bv, i as int, j - 1) =~= walk_ops(
                    av,
                    bv,
                    av.len() as int,
                    bv.len() as int,
                ));
            }
            j -= 1;
        } else {
            proof {
                assert(i > 0);
                if j > 0 {
                    assert(orig@[i - 1]@ == av[i - 1]);
                    assert(modified@[j - 1]@ == bv[j - 1]);
                }
                assert(walk_ops(av, bv, i as int, j as int) =~= seq![
                    (DiffOp::Delete, i - 1 as int, j as int),
                ] + walk_ops(av, bv, i - 1, j as int));
            }
            rev.push((DiffOp::Delete, i - 1, j));
            proof {
                assert(op_models(rev@) =~= op_models(old_rev).push(
                    (DiffOp::Delete, i - 1 as int, j as int),
                ));
                assert(op_models(rev@) + walk_ops(av, bv, i - 1, j as int) =~= walk_ops(
                    av,
                    bv,
                    av.len() as int,
                    bv.len() as int,
                ));
            }
            i -= 1;
        }
    }
    proof {
        assert(walk_ops(av, bv, 0, 0) =~= Seq::<(DiffOp, int, int)>::empty());
        assert(op_models(rev@) =~= walk_ops(av, bv, av.len() as int, bv.len() as int));
    }
    // reverse into buffer order
    let mut ops: Vec<(DiffOp, usize, usize)> = Vec::new();
    let mut k: usize = rev.len();
    while k > 0
        invariant
            k <= rev@.len(),
            ops@.len() == rev@.len() - k,
            forall|t: int| 0 <= t < ops@.len() ==> ops@[t] == rev@[rev@.len() - 1 - t],
        decreases k,
    {
        ops.push(rev[k - 1]);
        k -= 1;
    }
    proof {
        assert(op_models(ops@) =~= op_models(rev@).reverse());
        lemma_walk_ops_valid(av, bv, av.len() as int, bv.len() as int);
        let dspec = diff_ops_spec(av, bv);
        assert(forall|t: int|
            0 <= t < dspec.len() ==> op_valid(
                #[trigger] dspec[t],
                av.len() as int,
                bv.len() as int,
            )) by {
            assert(forall|t: int|
                0 <= t < dspec.len() ==> dspec[t] == walk_ops(
                    av,
                    bv,
                    av.len() as int,
                    bv.len() as int,
                )[dspec.len() - 1 - t]);
        }
        assert(av.len() == orig@.len());
        assert(bv.len() == modified@.len());
    }
    ops
}

/// Is any operation a change?
pub open spec fn has_change(ops: Seq<(DiffOp, int, int)>) -> bool {
    exists|k: int| 0 <= k < ops.len() && (#[trigger] ops[k]).0 != DiffOp::Equal
}

fn is_change_op(op: DiffOp) -> (r: bool)
    ensures
        r == (op != DiffOp::Equal),
{
    match op {
        DiffOp::Equal => false,
        _ => true,
    }
}

/// Does the next range overlap the current context window?
fn next_range_merges(
    ranges: &Vec<(usize, usize)>,
    idx: usize,
    ctx_end: usize,
    context: usize,
) -> (r: bool)
    requires
        idx + 1 < ranges@.len(),
    ensures
        r == (ranges@[idx as int + 1].0 <= ctx_end + context),
{
    let n: usize = ranges.len();
    let (ns, _) = ranges[idx + 1];
    if ctx_end <= usize::MAX - context {
        ns <= ctx_end + context
    } else {
        true
    }
}

/// Build unified diff hunk strings with `context` lines of context around
/// each run of changes, merging overlapping ranges. Each hunk carries an
/// `@@` header and one prefixed line per operation.
fn build_hunks(
    orig: &Vec<Vec<char>>,
    modified: &Vec<Vec<char>>,
    ops: &Vec<(DiffOp, usize, usize)>,
    context: usize,
) -> (hunks: Vec<Vec<char>>)
    requires
        forall|k: int|
            0 <= k < ops@.len() ==> op_valid(
                (#[trigger] ops@[k].0, ops@[k].1 as int, ops@[k].2 as int),
                orig@.len() as int,
                modified@.len() as int,
            ),
    ensures
        (hunks@.len() > 0) == has_change(op_models(ops@)),
{
    let n: usize = ops.len();
    // phase 1: the maximal runs of non-Equal operations
    let mut ranges: Vec<(usize, usize)> = Vec::new();
    let mut i: usize = 0;
    while i < n
        invariant
            n == ops@.len(),
            i <= n,
            forall|k: int|
                0 <= k < ranges@.len() ==> (#[trigger] ranges@[k]).0 < ranges@[k].1
                    <= n,
            ranges@.len() == 0 ==> forall|k: int|
                0 <= k < i ==> (#[trigger] ops@[k]).0 == DiffOp::Equal,
            ranges@.len() > 0 ==> has_change(op_models(ops@)),
        decreases n - i,
    {
        if is_change_op(ops[i].0) {
            let start: usize = i;
            proof {
                assert(op_models(ops@)[i as int].0 != DiffOp::Equal);
                assert(has_change(op_models(ops@)));
            }
            while i < n && is_change_op(ops[i].0)
                invariant
                    n == ops@.len(),
                    start <= i <= n,
                decreases n - i,
            {
                i += 1;
            }
            ranges.push((start, i));
        } else {
            i += 1;
        }
    }
    let mut hunks: Vec<Vec<char>> = Vec::new();
    if ranges.len() == 0 {
        proof {
            assert(!has_change(op_models(ops@))) by {
                assert(forall|k: int|
                    0 <= k < op_models(ops@).len() ==> (#[trigger] op_models(ops@)[k]).0
                        == ops@[k].0);
            }
        }
        return hunks;
    }
    // phase 2: expand each range by context, merging overlapping ranges
    let mut range_idx: usize = 0;
    while range_idx < ranges.len()
        invariant
            n == ops@.len(),
            forall|k: int|
                0 <= k < ops@.len() ==> op_valid(
                    (#[trigger] ops@[k].0, ops@[k].1 as int, ops@[k].2 as int),
                    orig@.len() as int,
                    modified@.len() as int,
                ),
            forall|k: int|
                0 <= k < ranges@.len() ==> (#[trigger] ranges@[k]).0 < ranges@[k].1 <= n,
            ranges@.len() > 0,
            has_change(op_models(ops@)),
            range_idx > 0 ==> hunks@.len() > 0,
        decreases ranges@.len() - range_idx,
    {
        let (start, run_end) = ranges[range_idx];
        let ctx_start: usize = if start > context {
            start - context
        } else {
            0
        };
        let mut ctx_end: usize = if run_end <= usize::MAX - context {
            run_end + context
        } else {
            usize::MAX
        };
        if ctx_end > n {
            ctx_end = n;
        }
        proof {
            assert(ranges@[range_idx as int].0 < ranges@[range_idx as int].1 <= n);
            assert(ctx_start <= ctx_end);
        }
        let ghost ri0 = range_idx as int;
        let nr: usize = ranges.len();
        while range_idx < nr - 1 && next_range_merges(&ranges, range_idx, ctx_end, context)
            invariant
                n == ops@.len(),
                nr == ranges@.len(),
                nr >= 1,
                forall|k: int|
                    0 <= k < ranges@.len() ==> (#[trigger] ranges@[k]).0 < ranges@[k].1 <= n,
                ri0 <= range_idx < ranges@.len(),
                ctx_start <= ctx_end <= n,
            decreases ranges@.len() - range_idx,
        {
            let (_, next_end) = ranges[range_idx + 1];
            let mut newe: usize = if next_end <= usize::MAX - context {
                next_end + context
            } else {
                usize::MAX
            };
            if newe > n {
                newe = n;
            }
            if newe > ctx_end {
                ctx_end = newe;
            }
            range_idx += 1;
        }
        let hunk = render_hunk(orig, modified, ops, ctx_start, ctx_end);
        hunks.push(hunk);
        range_idx += 1;
    }
    hunks
}

/// Render one hunk covering `ops[s..e)`.
fn render_hunk(
    orig: &Vec<Vec<char>>,
    modified: &Vec<Vec<char>>,
    ops: &Vec<(DiffOp, usize, usize)>,
    s: usize,
    e: usize,
) -> (hunk: Vec<char>)
    requires
        s <= e <= ops@.len(),
        forall|k: int|
            0 <= k < ops@.len() ==> op_valid(
                (#[trigger] ops@[k].0, ops@[k].1 as int, ops@[k].2 as int),
                orig@.len() as int,
                modified@.len() as int,
            ),
{
    let ol: usize = orig.len();
    let ml: usize = modified.len();
    // header numbers
    let mut orig_start: usize = 1;
    let mut orig_seen: bool = false;
    let mut orig_count: usize = 0;
    let mut mod_start: usize = 1;
    let mut mod_seen: bool = false;
    let mut mod_count: usize = 0;
    let mut k: usize = s;
    while k < e
        invariant
            ol == orig@.len(),
            ml == modified@.len(),
            s <= k <= e <= ops@.len(),
            orig_count <= k,
            mod_count <= k,
            forall|t: int|
                0 <= t < ops@.len() ==> op_valid(
                    (#[trigger] ops@[t].0, ops@[t].1 as int, ops@[t].2 as int),
                    orig@.len() as int,
                    modified@.len() as int,
                ),
        decreases e - k,
    {
        let (op, oi, mi) = ops[k];
        match op {
            DiffOp::Equal => {
                if !orig_seen {
                    orig_start = oi + 1;
                    orig_seen = true;
                }
                if !mod_seen {
                    mod_start = mi + 1;
                    mod_seen = true;
                }
                orig_count += 1;
                mod_count += 1;
            },
            DiffOp::Delete => {
                if !orig_seen {
                    orig_start = oi + 1;
                    orig_seen = true;
                }
                orig_count += 1;
            },
            DiffOp::Insert => {
                if !mod_seen {
                    mod_start = mi + 1;
                    mod_seen = true;
                }
                mod_count += 1;
            },
        }
        k += 1;
    }
    let mut hunk: Vec<char> = Vec::new();
    push_str_chars("@@ -", &mut hunk);
    push_decimal(orig_start, &mut hunk);
    push_str_chars(",", &mut hunk);
    push_decimal(orig_count, &mut hunk);
    push_str_chars(" +", &mut hunk);
    push_decimal(mod_start, &mut hunk);
    push_str_chars(",", &mut hunk);
    push_decimal(mod_count, &mut hunk);
    push_str_chars(" @@\n", &mut hunk);
    let mut t: usize = s;
    while t < e
        invariant
            ol == orig@.len(),
            ml == modified@.len(),
            s <= t <= e <= ops@.len(),
            forall|u: int|
                0 <= u < ops@.len() ==> op_valid(
                    (#[trigger] ops@[u].0, ops@[u].1 as int, ops@[u].2 as int),
                    orig@.len() as int,
                    modified@.len() as int,
                ),
        decreases e - t,
    {
        let (op, oi, mi) = ops[t];
        match op {
            DiffOp::Equal => {
                push_str_chars(" ", &mut hunk);
                push_all(&orig[oi], &mut hunk);
                push_str_chars("\n", &mut hunk);
            },
            DiffOp::Delete => {
                push_str_chars("-", &mut hunk);
                push_all(&orig[oi], &mut hunk);
                push_str_chars("\n", &mut hunk);
            },
            DiffOp::Insert => {
                push_str_chars("+", &mut hunk);
                push_all(&modified[mi], &mut hunk);
                push_str_chars("\n", &mut hunk);
            },
        }
        t += 1;
    }
    hunk
}

/// Do two line lists hold the same lines?
fn lines_eq(a: &Vec<Vec<char>>, b: &Vec<Vec<char>>) -> (r: bool)
    ensures
        r == (views_of(a@) == views_of(b@)),
{
    if a.len() != b.len() {
        proof {
            assert(views_of(a@).len() != views_of(b@).len());
        }
        return false;
    }
    let mut i: usize = 0;
    while i < a.len()
        invariant
            a@.len() == b@.len(),
            i <= a@.len(),
            forall|k: int| 0 <= k < i ==> views_of(a@)[k] == views_of(b@)[k],
        decreases a@.len() - i,
    {
        if !chars_eq(&a[i], &b[i]) {
            proof {
                assert(views_of(a@)[i as int] != views_of(b@)[i as int]);
            }
            return false;
        }
        i += 1;
    }
    proof {
        assert(views_of(a@) =~= views_of(b@));
    }
    true
}

/// Line-level unified diff between `original` and `modified` content, in
/// standard unified diff format with three lines of context. The result is
/// empty exactly when the two buffers hold the same lines; otherwise it opens
/// with the `---`/`+++` header naming the two sides.
pub fn unified_diff(original: &str, modified: &str, orig_name: &str, mod_name: &str) -> (r:
    String)
    ensures
        (r@ == Seq::<char>::empty()) == (lines_spec(original@) == lines_spec(modified@)),
        r@.len() > 0 ==> has_prefix(
            r@,
            "--- "@ + orig_name@ + "\n+++ "@ + mod_name@ + "\n"@,
        ),
{
    let ov = str_to_chars(original);
    let mv = str_to_chars(modified);
    let orig_lines = split_lines(&ov);
    let mod_lines = split_lines(&mv);
    if lines_eq(&orig_lines, &mod_lines) {
        let empty: Vec<char> = Vec::new();
        let r = chars_to_string(&empty);
        proof {
            assert(r@ =~= Seq::<char>::empty());
        }
        return r;
    }
    let table = compute_lcs(&orig_lines, &mod_lines);
    let ops = diff_ops(&orig_lines, &mod_lines, &table);
    proof {
        let av = views_of(orig_lines@);
        let bv = views_of(mod_lines@);
        assert(has_change(op_models(ops@))) by {
            if !has_change(op_models(ops@)) {
                let w = walk_ops(av, bv, av.len() as int, bv.len() as int);
                assert(forall|k: int| 0 <= k < w.len() ==> (#[trigger] w[k]).0 == DiffOp::Equal)
                    by {
                    assert(forall|k: int|
                        0 <= k < w.len() ==> w[k] == op_models(ops@)[w.len() - 1 - k]);
                }
                lemma_walk_all_equal(av, bv, av.len() as int, bv.len() as int);
                assert(av.subrange(0, av.len() as int) =~= av);
                assert(bv.subrange(0, bv.len() as int) =~= bv);
            }
        }
    }
    proof {
        assert(forall|k: int|
            0 <= k < ops@.len() ==> op_models(ops@)[k] == ((#[trigger] ops@[k]).0,
            ops@[k].1 as int, ops@[k].2 as int));
    }
    let hunks = build_hunks(&orig_lines, &mod_lines, &ops, 3);
    let mut out: Vec<char> = Vec::new();
    push_str_chars("--- ", &mut out);
    push_str_chars(orig_name, &mut out);
    push_str_chars("\n+++ ", &mut out);
    push_str_chars(mod_name, &mut out);
    push_str_chars("\n", &mut out);
    let ghost header = "--- "@ + orig_name@ + "\n+++ "@ + mod_name@ + "\n"@;
    proof {
        assert(out@ =~= header);
    }
    let mut h: usize = 0;
    while h < hunks.len()
        invariant
            header == "--- "@ + orig_name@ + "\n+++ "@ + mod_name@ + "\n"@,
            h <= hunks@.len(),
            out@.len() >= header.len(),
            out@.take(header.len() as int) =~= header,
        decreases hunks@.len() - h,
    {
        push_all(&hunks[h], &mut out);
        h += 1;
        proof {
            assert(out@.take(header.len() as int) =~= header);
        }
    }
    proof {
        assert(has_prefix(out@, header));
        assert(out@.len() > 0) by {
            assert(header.len() >= "--- "@.len());
            reveal_strlit("--- ");
        }
    }
    chars_to_string(&out)
}

} // verus!
