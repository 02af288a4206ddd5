//! Ignore directives: a single forward pass collects the 1-based line numbers
//! protected by in-band markers. Block markers toggle state, next-line markers
//! protect only the following line, and the marker lines themselves are never
//! added to the set.

use vstd::prelude::*;

use crate::strutil::{chars_eq_str, lines_spec, split_lines, str_to_chars, trim_chars, trim_spec, views_of};

verus! {

broadcast use vstd::std_specs::hash::group_hash_axioms;

/// The ignored line numbers among `lines[li..]`, entering with the given
/// HTML-block, code-block and next-line states.
pub open spec fn ignored_from(
    lines: Seq<Seq<char>>,
    li: int,
    html: bool,
    code: bool,
    skip_next: bool,
) -> Set<usize>
    decreases lines.len() - li,
{
    if li < 0 || li >= lines.len() {
        Set::empty()
    } else {
        let t = trim_spec(lines[li]);
        if skip_next {
            ignored_from(lines, li + 1, html, code, false).insert((li + 1) as usize)
        } else if t == "<!-- unai-ignore -->"@ {
            ignored_from(lines, li + 1, true, code, false)
        } else if t == "<!-- /unai-ignore -->"@ {
            ignored_from(lines, li + 1, false, code, false)
        } else if t == "// unai-ignore-start"@ || t == "# unai-ignore-start"@ {
            ignored_from(lines, li + 1, html, true, false)
        } else if t == "// unai-ignore-end"@ || t == "# unai-ignore-end"@ {
            ignored_from(lines, li + 1, html, false, false)
        } else if t == "// unai-ignore-next-line"@ || t == "# unai-ignore-next-line"@ {
            ignored_from(lines, li + 1, html, code, true)
        } else if html || code {
            ignored_from(lines, li + 1, html, code, false).insert((li + 1) as usize)
        } else {
            ignored_from(lines, li + 1, html, code, false)
        }
    }
}

/// The set of 1-based line numbers of `content` protected by directives.
pub open spec fn ignored_lines_spec(content: Seq<char>) -> Set<usize> {
    ignored_from(lines_spec(content), 0, false, false, false)
}

/// A line between an HTML open and close marker never survives the filter:
/// for any middle line (no newline, no trailing carriage return, not itself a
/// directive), line 2 of the three-line block is in the ignored set, so no
/// finding naming it passes `filter_spec`. The Unicode facts taken as
/// hypotheses are that `<` and `>` are not whitespace, which the trusted
/// character classes leave uninterpreted.
pub proof fn lemma_ignore_block_filters_line_two(
    mid: Seq<char>,
    fs: Seq<crate::rules::FindingModel>,
    words: Seq<Seq<char>>,
    min: crate::rules::Severity,
)
    requires
        !crate::strutil::is_wspace_char('<'),
        !crate::strutil::is_wspace_char('>'),
        forall|i: int| 0 <= i < mid.len() ==> mid[i] != '\n',
        mid.len() == 0 || mid.last() != '\r',
        trim_spec(mid) != "<!-- unai-ignore -->"@,
        trim_spec(mid) != "<!-- /unai-ignore -->"@,
        trim_spec(mid) != "// unai-ignore-start"@,
        trim_spec(mid) != "# unai-ignore-start"@,
        trim_spec(mid) != "// unai-ignore-end"@,
        trim_spec(mid) != "# unai-ignore-end"@,
        trim_spec(mid) != "// unai-ignore-next-line"@,
        trim_spec(mid) != "# unai-ignore-next-line"@,
    ensures
        ({
            let content = "<!-- unai-ignore -->"@ + seq!['\n'] + mid + seq!['\n']
                + "<!-- /unai-ignore -->"@ + seq!['\n'];
            forall|k: int|
                0 <= k
                    < crate::rules::filter_spec(fs, words, ignored_lines_spec(content), min).len()
                    ==> (#[trigger] crate::rules::filter_spec(
                    fs,
                    words,
                    ignored_lines_spec(content),
                    min,
                )[k]).line != 2
        }),
{
    reveal_strlit("<!-- unai-ignore -->");
    reveal_strlit("<!-- /unai-ignore -->");
    let open_mark = "<!-- unai-ignore -->"@;
    let content = open_mark + seq!['\n'] + mid + seq!['\n'] + "<!-- /unai-ignore -->"@
        + seq!['\n'];
    // line 1 is the open marker, line 2 is the middle line
    assert(content.subrange(0, open_mark.len() as int) =~= open_mark);
    assert(content[open_mark.len() as int] == '\n');
    assert(forall|i: int| 0 <= i < open_mark.len() ==> open_mark[i] != '\n');
    assert(open_mark.last() == '>');
    crate::strutil::lemma_line_at(content, 0, open_mark);
    let mid_start = open_mark.len() as int + 1;
    assert(content.subrange(mid_start, mid_start + mid.len()) =~= mid);
    assert(content[mid_start + mid.len()] == '\n');
    crate::strutil::lemma_line_at(content, mid_start, mid);
    let lines = lines_spec(content);
    assert(lines == seq![open_mark] + (seq![mid] + crate::strutil::lines_from(
        content,
        mid_start + mid.len() + 1,
    )));
    assert(lines[0] == open_mark);
    assert(lines[1] == mid);
    // the open marker trims to itself and opens the block
    assert(trim_spec(open_mark) == open_mark) by {
        assert(open_mark[0] == '<');
        assert(crate::strutil::trim_start_idx(open_mark, 0) == 0);
        assert(open_mark[open_mark.len() - 1] == '>');
        assert(crate::strutil::trim_end_idx(open_mark, 0, open_mark.len() as int)
            == open_mark.len() as int);
        assert(open_mark.subrange(0, open_mark.len() as int) =~= open_mark);
    }
    // the walk puts line 2 in the ignored set
    let ign = ignored_lines_spec(content);
    assert(ign.contains(2usize)) by {
        assert(ignored_from(lines, 0, false, false, false) == ignored_from(
            lines,
            1,
            true,
            false,
            false,
        ));
        assert(ignored_from(lines, 1, true, false, false) == ignored_from(
            lines,
            2,
            true,
            false,
            false,
        ).insert(2usize));
    }
    // and the filter keeps nothing on an ignored line
    crate::rules::lemma_filter_spec_sound(fs, words, ign, min);
    assert forall|k: int|
        0 <= k < crate::rules::filter_spec(fs, words, ign, min).len() implies (
    #[trigger] crate::rules::filter_spec(fs, words, ign, min)[k]).line != 2 by {
        let f = crate::rules::filter_spec(fs, words, ign, min)[k];
        if f.line == 2 {
            assert(crate::rules::filter_keeps(f, words, ign, min));
            assert(ign.contains(f.line as usize));
        }
    }
}

/// Returns 1-based line numbers that should be skipped due to ignore
/// directives.
///
/// Supported directives:
/// - `<!-- unai-ignore -->` ... `<!-- /unai-ignore -->` (HTML block)
/// - `// unai-ignore-start` / `// unai-ignore-end` (code block, also `#` prefix)
/// - `// unai-ignore-next-line` / `# unai-ignore-next-line` (next line only)
pub fn collect_ignored_lines(content: &str) -> (r: std::collections::HashSet<usize>)
    ensures
        r@ == ignored_lines_spec(content@),
{
    let cv = str_to_chars(content);
    let lines = split_lines(&cv);
    let ghost lv = lines_spec(cv@);
    let mut ignored: std::collections::HashSet<usize> = std::collections::HashSet::new();
    let mut html: bool = false;
    let mut code: bool = false;
    let mut skip_next: bool = false;
    let mut li: usize = 0;
    while li < lines.len()
        invariant
            lv == lines_spec(content@),
            views_of(lines@) == lv,
            li <= lines@.len(),
            ignored@.union(ignored_from(lv, li as int, html, code, skip_next)) =~= ignored_lines_spec(
                content@,
            ),
        decreases lines@.len() - li,
    {
        let ghost pre = ignored@;
        let trimmed = trim_chars(&lines[li]);
        proof {
            assert(trimmed@ == trim_spec(lv[li as int]));
        }
        if skip_next {
            ignored.insert(li + 1);
            skip_next = false;
            proof {
                assert(pre.insert((li + 1) as usize).union(
                    ignored_from(lv, li + 1, html, code, false),
                ) =~= pre.union(
                    ignored_from(lv, li + 1, html, code, false).insert((li + 1) as usize),
                ));
            }
        } else if chars_eq_str(&trimmed, "<!-- unai-ignore -->") {
            html = true;
        } else if chars_eq_str(&trimmed, "<!-- /unai-ignore -->") {
            html = false;
        } else if chars_eq_str(&trimmed, "// unai-ignore-start") || chars_eq_str(
            &trimmed,
            "# unai-ignore-start",
        ) {
            code = true;
        } else if chars_eq_str(&trimmed, "// unai-ignore-end") || chars_eq_str(
            &trimmed,
            "# unai-ignore-end",
        ) {
            code = false;
        } else if chars_eq_str(&trimmed, "// unai-ignore-next-line") || chars_eq_str(
            &trimmed,
            "# unai-ignore-next-line",
        ) {
            skip_next = true;
        } else if html || code {
            ignored.insert(li + 1);
            proof {
                assert(pre.insert((li + 1) as usize).union(
                    ignored_from(lv, li + 1, html, code, false),
                ) =~= pre.union(
                    ignored_from(lv, li + 1, html, code, false).insert((li + 1) as usize),
                ));
            }
        }
        li += 1;
    }
    proof {
        assert(ignored_from(lv, lines@.len() as int, html, code, skip_next) =~= Set::<
            usize,
        >::empty());
        assert(ignored@ =~= ignored_lines_spec(content@));
    }
    ignored
}

} // verus!
