//! Mode detection: commit-message file names always select commit mode, a
//! known source-file extension selects code mode, and otherwise the first
//! fifty non-empty lines are sampled for code signals.

use vstd::prelude::*;

use crate::strutil::{
    chars_eq_str, find_from, first_match, lines_spec, lower_chars, lower_of, split_lines,
    str_to_chars, subvec, trim_chars, trim_spec, views_of,
};

verus! {

/// Mode of content being processed.
#[derive(Debug, Clone, PartialEq, Eq, Structural)]
pub enum Mode {
    Text,
    Code,
    CommitMsg,
}

// ---------------------------------------------------------------------------
// File names
// ---------------------------------------------------------------------------

/// The index one past the last `/` of `s`, or 0 if there is none.
pub open spec fn base_start(s: Seq<char>, from: int) -> int
    decreases from,
{
    if from <= 0 || from > s.len() {
        0
    } else if s[from - 1] == '/' {
        from
    } else {
        base_start(s, from - 1)
    }
}

/// The part of a path after its last `/`.
pub open spec fn basename_spec(s: Seq<char>) -> Seq<char> {
    s.subrange(base_start(s, s.len() as int), s.len() as int)
}

/// The characters of the path's basename.
pub fn basename_chars(v: &Vec<char>) -> (r: Vec<char>)
    ensures
        r@ == basename_spec(v@),
{
    let mut i: usize = v.len();
    while i > 0 && v[i - 1] != '/'
        invariant
            i <= v@.len(),
            base_start(v@, v@.len() as int) == base_start(v@, i as int),
        decreases i,
    {
        i -= 1;
    }
    proof {
        assert(base_start(v@, i as int) == i as int);
    }
    subvec(v, i, v.len())
}

/// Is the basename one of the commit-message file names?
pub open spec fn is_commit_msg_name(s: Seq<char>) -> bool {
    let base = basename_spec(s);
    base == "COMMIT_EDITMSG"@ || base == "MERGE_MSG"@ || base == "SQUASH_MSG"@
}

/// Returns whether the path names a commit-message file.
pub fn is_commit_msg_file(filename: &str) -> (r: bool)
    ensures
        r == is_commit_msg_name(filename@),
{
    let v = str_to_chars(filename);
    let base = basename_chars(&v);
    chars_eq_str(&base, "COMMIT_EDITMSG") || chars_eq_str(&base, "MERGE_MSG") || chars_eq_str(
        &base,
        "SQUASH_MSG",
    )
}

/// The index of the last `.` of `s` at or after position 1, or 0 if none.
pub open spec fn last_dot(s: Seq<char>, from: int) -> int
    decreases from,
{
    if from <= 1 || from > s.len() {
        0
    } else if s[from - 1] == '.' {
        from
    } else {
        last_dot(s, from - 1)
    }
}

/// The extension of the path's basename: the part after the final `.`, when
/// that dot is not the name's first character.
pub open spec fn extension_spec(s: Seq<char>) -> Option<Seq<char>> {
    let base = basename_spec(s);
    let d = last_dot(base, base.len() as int);
    if d == 0 {
        Option::None
    } else {
        Option::Some(base.subrange(d, base.len() as int))
    }
}

/// The extension of the path, as characters.
pub fn extension_chars(v: &Vec<char>) -> (r: Option<Vec<char>>)
    ensures
        match r {
            Option::Some(e) => extension_spec(v@) == Option::Some(e@),
            Option::None => extension_spec(v@) is None,
        },
{
    let base = basename_chars(v);
    let mut i: usize = base.len();
    while i > 1 && base[i - 1] != '.'
        invariant
            i <= base@.len(),
            last_dot(base@, base@.len() as int) == last_dot(base@, i as int),
        decreases i,
    {
        i -= 1;
    }
    if i <= 1 {
        // either no dot at all, or only a leading one (a dotfile)
        proof {
            assert(last_dot(base@, i as int) == 0);
        }
        return Option::None;
    }
    proof {
        assert(last_dot(base@, i as int) == i as int);
    }
    Option::Some(subvec(&base, i, base.len()))
}

/// Is the lowercased extension a known source-file extension?
pub open spec fn is_code_extension(e: Seq<char>) -> bool {
    let l = lower_of(e);
    ||| l == "py"@
    ||| l == "ts"@
    ||| l == "tsx"@
    ||| l == "js"@
    ||| l == "jsx"@
    ||| l == "rs"@
    ||| l == "go"@
    ||| l == "java"@
    ||| l == "kt"@
    ||| l == "swift"@
    ||| l == "c"@
    ||| l == "cpp"@
    ||| l == "h"@
    ||| l == "hpp"@
    ||| l == "cs"@
    ||| l == "rb"@
    ||| l == "php"@
    ||| l == "sh"@
    ||| l == "bash"@
    ||| l == "zsh"@
    ||| l == "fish"@
    ||| l == "lua"@
    ||| l == "r"@
    ||| l == "scala"@
    ||| l == "hs"@
    ||| l == "ml"@
    ||| l == "ex"@
    ||| l == "exs"@
    ||| l == "clj"@
    ||| l == "cljs"@
    ||| l == "dart"@
    ||| l == "nim"@
    ||| l == "zig"@
}

fn is_code_extension_exec(e: &Vec<char>) -> (r: bool)
    ensures
        r == is_code_extension(e@),
{
    let l = lower_chars(e);
    chars_eq_str(&l, "py") || chars_eq_str(&l, "ts") || chars_eq_str(&l, "tsx") || chars_eq_str(
        &l,
        "js",
    ) || chars_eq_str(&l, "jsx") || chars_eq_str(&l, "rs") || chars_eq_str(&l, "go")
        || chars_eq_str(&l, "java") || chars_eq_str(&l, "kt") || chars_eq_str(&l, "swift")
        || chars_eq_str(&l, "c") || chars_eq_str(&l, "cpp") || chars_eq_str(&l, "h")
        || chars_eq_str(&l, "hpp") || chars_eq_str(&l, "cs") || chars_eq_str(&l, "rb")
        || chars_eq_str(&l, "php") || chars_eq_str(&l, "sh") || chars_eq_str(&l, "bash")
        || chars_eq_str(&l, "zsh") || chars_eq_str(&l, "fish") || chars_eq_str(&l, "lua")
        || chars_eq_str(&l, "r") || chars_eq_str(&l, "scala") || chars_eq_str(&l, "hs")
        || chars_eq_str(&l, "ml") || chars_eq_str(&l, "ex") || chars_eq_str(&l, "exs")
        || chars_eq_str(&l, "clj") || chars_eq_str(&l, "cljs") || chars_eq_str(&l, "dart")
        || chars_eq_str(&l, "nim") || chars_eq_str(&l, "zig")
}

// ---------------------------------------------------------------------------
// Content sampling
// ---------------------------------------------------------------------------

/// Up to `left` non-blank lines of `lines[li..]`.
pub open spec fn nonblank_upto(lines: Seq<Seq<char>>, li: int, left: int) -> Seq<Seq<char>>
    decreases lines.len() - li,
{
    if li < 0 || li >= lines.len() || left <= 0 {
        Seq::empty()
    } else if trim_spec(lines[li]).len() > 0 {
        seq![lines[li]] + nonblank_upto(lines, li + 1, left - 1)
    } else {
        nonblank_upto(lines, li + 1, left)
    }
}

/// The sample: the first fifty non-empty lines, joined with newlines.
pub open spec fn sample_spec(content: Seq<char>) -> Seq<char> {
    let picked = nonblank_upto(lines_spec(content), 0, 50);
    crate::rules::join_prefix(picked, picked.len() as int)
}

/// 1 when the signal occurs in the sample.
pub open spec fn signal_hit(sample: Seq<char>, sig: Seq<char>) -> int {
    if first_match(sample, sig, 0) is Some {
        1
    } else {
        0
    }
}

/// How many of the code signals the sample holds.
pub open spec fn signal_count(sample: Seq<char>) -> int {
    signal_hit(sample, "def "@) + signal_hit(sample, "fn "@) + signal_hit(sample, "func "@)
        + signal_hit(sample, "function "@) + signal_hit(sample, "class "@) + signal_hit(
        sample,
        "import "@,
    ) + signal_hit(sample, "from "@) + signal_hit(sample, "use "@) + signal_hit(sample, "mod "@)
        + signal_hit(sample, "const "@) + signal_hit(sample, "let "@) + signal_hit(
        sample,
        "var "@,
    ) + signal_hit(sample, "type "@) + signal_hit(sample, "interface "@) + signal_hit(
        sample,
        "struct "@,
    ) + signal_hit(sample, "enum "@) + signal_hit(sample, "impl "@) + signal_hit(
        sample,
        "pub fn"@,
    ) + signal_hit(sample, "async fn"@) + signal_hit(sample, "pub struct"@) + signal_hit(
        sample,
        "pub enum"@,
    ) + signal_hit(sample, "pub trait"@) + signal_hit(sample, "#include"@) + signal_hit(
        sample,
        "package "@,
    ) + signal_hit(sample, "namespace "@)
}

/// The mode content sampling selects: code when at least two signals appear.
pub open spec fn detect_content_spec(content: Seq<char>) -> Mode {
    if signal_count(sample_spec(content)) >= 2 {
        Mode::Code
    } else {
        Mode::Text
    }
}

fn signal_scan(sample: &Vec<char>, sig: &str) -> (r: u32)
    ensures
        r as int == signal_hit(sample@, sig@),
{
    let sv = str_to_chars(sig);
    match find_from(sample, &sv, 0) {
        Option::Some(_) => 1,
        Option::None => 0,
    }
}

/// Detect text versus code from the content alone, sampling the first fifty
/// non-empty lines. Commit mode is never inferred from content.
pub fn detect_from_content(content: &str) -> (r: Mode)
    ensures
        r == detect_content_spec(content@),
{
    let cv = str_to_chars(content);
    let lines = split_lines(&cv);
    let ghost lv = lines_spec(cv@);
    let mut picked: Vec<Vec<char>> = Vec::new();
    let mut li: usize = 0;
    let mut left: usize = 50;
    while li < lines.len() && left > 0
        invariant
            lv == lines_spec(content@),
            views_of(lines@) == lv,
            li <= lines@.len(),
            left <= 50,
            views_of(picked@) + nonblank_upto(lv, li as int, left as int) =~= nonblank_upto(
                lv,
                0,
                50,
            ),
        decreases lines@.len() - li,
    {
        let line = &lines[li];
        proof {
            assert(line@ == lv[li as int]);
        }
        let t = trim_chars(line);
        let ghost old_picked = picked@;
        if t.len() > 0 {
            let copy = subvec(line, 0, line.len());
            proof {
                assert(copy@ =~= lv[li as int]);
            }
            picked.push(copy);
            left -= 1;
            proof {
                assert(views_of(picked@) =~= views_of(old_picked).push(lv[li as int]));
                assert(nonblank_upto(lv, li as int, left + 1) =~= seq![lv[li as int]]
                    + nonblank_upto(lv, li + 1, left as int));
                assert(views_of(picked@) + nonblank_upto(lv, li + 1, left as int)
                    =~= nonblank_upto(lv, 0, 50));
            }
        } else {
            proof {
                assert(nonblank_upto(lv, li as int, left as int) =~= nonblank_upto(
                    lv,
                    li + 1,
                    left as int,
                ));
            }
        }
        li += 1;
    }
    proof {
        assert(nonblank_upto(lv, li as int, left as int) =~= Seq::<Seq<char>>::empty());
        assert(views_of(picked@) =~= nonblank_upto(lv, 0, 50));
    }
    // join with newlines
    let ghost pk = views_of(picked@);
    let mut sample: Vec<char> = Vec::new();
    let mut i: usize = 0;
    while i < picked.len()
        invariant
            pk == views_of(picked@),
            i <= picked@.len(),
            sample@ == crate::rules::join_prefix(pk, i as int),
        decreases picked@.len() - i,
    {
        if i > 0 {
            sample.push('\n');
        }
        crate::strutil::push_all(&picked[i], &mut sample);
        i += 1;
        proof {
            assert(sample@ =~= crate::rules::join_prefix(pk, i as int));
        }
    }
    proof {
        assert(sample@ == sample_spec(content@));
    }
    let mut count: u32 = 0;
    count += signal_scan(&sample, "def ");
    count += signal_scan(&sample, "fn ");
    count += signal_scan(&sample, "func ");
    count += signal_scan(&sample, "function ");
    count += signal_scan(&sample, "class ");
    count += signal_scan(&sample, "import ");
    count += signal_scan(&sample, "from ");
    count += signal_scan(&sample, "use ");
    count += signal_scan(&sample, "mod ");
    count += signal_scan(&sample, "const ");
    count += signal_scan(&sample, "let ");
    count += signal_scan(&sample, "var ");
    count += signal_scan(&sample, "type ");
    count += signal_scan(&sample, "interface ");
    count += signal_scan(&sample, "struct ");
    count += signal_scan(&sample, "enum ");
    count += signal_scan(&sample, "impl ");
    count += signal_scan(&sample, "pub fn");
    count += signal_scan(&sample, "async fn");
    count += signal_scan(&sample, "pub struct");
    count += signal_scan(&sample, "pub enum");
    count += signal_scan(&sample, "pub trait");
    count += signal_scan(&sample, "#include");
    count += signal_scan(&sample, "package ");
    count += signal_scan(&sample, "namespace ");
    proof {
        assert(count as int == signal_count(sample@));
    }
    if count >= 2 {
        Mode::Code
    } else {
        Mode::Text
    }
}

/// The mode selected for a buffer and optional file name: a commit-message
/// file name forces commit mode, a known source extension forces code mode,
/// and otherwise the content decides between text and code.
pub open spec fn detect_mode_spec(filename: Option<Seq<char>>, content: Seq<char>) -> Mode {
    match filename {
        Option::Some(name) => if is_commit_msg_name(name) {
            Mode::CommitMsg
        } else if match extension_spec(name) {
            Option::Some(e) => is_code_extension(e),
            Option::None => false,
        } {
            Mode::Code
        } else {
            detect_content_spec(content)
        },
        Option::None => detect_content_spec(content),
    }
}

/// Detect the processing mode from the file name and the content.
pub fn detect_mode(filename: Option<&str>, content: &str) -> (r: Mode)
    ensures
        r == detect_mode_spec(
            match filename {
                Option::Some(n) => Option::Some(n@),
                Option::None => Option::None,
            },
            content@,
        ),
{
    match filename {
        Option::Some(name) => {
            if is_commit_msg_file(name) {
                return Mode::CommitMsg;
            }
            let nv = str_to_chars(name);
            match extension_chars(&nv) {
                Option::Some(e) => {
                    if is_code_extension_exec(&e) {
                        return Mode::Code;
                    }
                },
                Option::None => {},
            }
            detect_from_content(content)
        },
        Option::None => detect_from_content(content),
    }
}

} // verus!
