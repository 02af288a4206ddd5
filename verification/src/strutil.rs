//! Character-level text utilities shared by the scanners and the rewriter.
//!
//! Text is modelled as a sequence of `char`s. Byte offsets (the unit in which
//! findings report columns) are recovered from character indices through
//! `char_width`, the UTF-8 width of a character, which is proved to agree with
//! vstd's UTF-8 encoding model.

use vstd::prelude::*;

verus! {

/// The views of a sequence of character vectors.
pub open spec fn views_of(r: Seq<Vec<char>>) -> Seq<Seq<char>> {
    r.map_values(|x: Vec<char>| x@)
}

// ---------------------------------------------------------------------------
// UTF-8 byte widths and byte offsets
// ---------------------------------------------------------------------------

/// Number of bytes the UTF-8 encoding of `c` occupies.
pub open spec fn char_width(c: char) -> int {
    if c as u32 <= 0x7F {
        1
    } else if c as u32 <= 0x7FF {
        2
    } else if c as u32 <= 0xFFFF {
        3
    } else {
        4
    }
}

/// Total UTF-8 byte length of a character sequence.
pub open spec fn byte_len(s: Seq<char>) -> int
    decreases s.len(),
{
    if s.len() == 0 {
        0
    } else {
        char_width(s[0]) + byte_len(s.drop_first())
    }
}

/// Byte offset of character index `i` within `s`.
pub open spec fn byte_off(s: Seq<char>, i: int) -> int {
    byte_len(s.take(i))
}

pub proof fn lemma_char_width_is_encoded_len(c: char)
    ensures
        char_width(c) == vstd::utf8::encode_scalar(c as u32).len(),
{
    vstd::utf8::char_is_scalar(c);
}

pub proof fn lemma_byte_len_is_encoded_len(s: Seq<char>)
    ensures
        byte_len(s) == vstd::utf8::encode_utf8(s).len(),
    decreases s.len(),
{
    if s.len() == 0 {
    } else {
        lemma_char_width_is_encoded_len(s[0]);
        lemma_byte_len_is_encoded_len(s.drop_first());
    }
}

pub proof fn lemma_byte_len_nonneg(s: Seq<char>)
    ensures
        byte_len(s) >= 0,
        s.len() <= byte_len(s),
        byte_len(s) <= 4 * s.len(),
    decreases s.len(),
{
    if s.len() == 0 {
    } else {
        lemma_byte_len_nonneg(s.drop_first());
    }
}

pub proof fn lemma_byte_len_app(a: Seq<char>, b: Seq<char>)
    ensures
        byte_len(a + b) == byte_len(a) + byte_len(b),
    decreases a.len(),
{
    if a.len() == 0 {
        assert(a + b =~= b);
    } else {
        lemma_byte_len_app(a.drop_first(), b);
        assert((a + b).drop_first() =~= a.drop_first() + b);
    }
}

/// A subrange never has more bytes than the whole sequence.
pub proof fn lemma_byte_len_subrange(s: Seq<char>, a: int, b: int)
    requires
        0 <= a <= b <= s.len(),
    ensures
        byte_len(s.subrange(a, b)) >= 0,
        byte_len(s.subrange(a, b)) <= byte_len(s),
{
    lemma_byte_len_nonneg(s.take(a));
    lemma_byte_len_nonneg(s.subrange(a, b));
    lemma_byte_len_nonneg(s.skip(b));
    lemma_byte_len_app(s.take(a), s.subrange(a, b));
    lemma_byte_len_app(s.take(a) + s.subrange(a, b), s.skip(b));
    assert((s.take(a) + s.subrange(a, b)) + s.skip(b) =~= s);
}

/// Bounding a product by the bounds of its factors.
pub proof fn lemma_mul_le(a: int, b: int, x: int, y: int)
    requires
        0 <= a <= x,
        0 <= b <= y,
    ensures
        a * b <= x * y,
{
    vstd::arithmetic::mul::lemma_mul_upper_bound(a, x, b, y);
}

/// Byte offsets grow with the character index.
pub proof fn lemma_byte_off_le(s: Seq<char>, i: int, j: int)
    requires
        0 <= i <= j <= s.len(),
    ensures
        0 <= byte_off(s, i) <= byte_off(s, j) <= byte_len(s),
{
    lemma_byte_len_nonneg(s.take(i));
    lemma_byte_len_nonneg(s.subrange(i, j));
    lemma_byte_len_nonneg(s.skip(j));
    lemma_byte_len_app(s.take(i), s.subrange(i, j));
    assert(s.take(i) + s.subrange(i, j) =~= s.take(j));
    lemma_byte_len_app(s.take(j), s.skip(j));
    assert(s.take(j) + s.skip(j) =~= s);
}

// ---------------------------------------------------------------------------
// Unicode character classes and case mapping (std's tables, named)
// ---------------------------------------------------------------------------

/// Whether `char::is_alphanumeric` holds of `c` (a Unicode property).
pub uninterp spec fn is_alnum_char(c: char) -> bool;

/// Whether `char::is_uppercase` holds of `c` (a Unicode property).
pub uninterp spec fn is_upper_char(c: char) -> bool;

/// Whether `char::is_whitespace` holds of `c` (a Unicode property).
pub uninterp spec fn is_wspace_char(c: char) -> bool;

/// The sequence of characters `str::to_lowercase` maps `s` to. The result
/// depends on the characters alone (Unicode default case folding, no locale).
pub uninterp spec fn lower_of(s: Seq<char>) -> Seq<char>;

/// The sequence of characters `char::to_uppercase` maps `c` to. The result
/// depends on the character alone.
pub uninterp spec fn upper_of(c: char) -> Seq<char>;

/// Relies on char::is_alphanumeric: a pure Unicode property of `c`.
#[verifier::external_body]
pub fn is_alnum(c: char) -> (r: bool)
    ensures
        r == is_alnum_char(c),
{
    c.is_alphanumeric()
}

/// Relies on char::is_uppercase: a pure Unicode property of `c`.
#[verifier::external_body]
pub fn is_upper(c: char) -> (r: bool)
    ensures
        r == is_upper_char(c),
{
    c.is_uppercase()
}

/// Relies on char::is_whitespace: a pure Unicode property of `c`.
#[verifier::external_body]
pub fn is_wspace(c: char) -> (r: bool)
    ensures
        r == is_wspace_char(c),
{
    c.is_whitespace()
}

/// Relies on str::to_lowercase: Unicode default case folding, a function of
/// the characters alone. The byte-length bound holds of any Rust string, and
/// a single character's lowercase mapping is one to three characters long.
#[verifier::external_body]
pub fn lower_chars(v: &Vec<char>) -> (r: Vec<char>)
    ensures
        r@ == lower_of(v@),
        byte_len(r@) <= usize::MAX,
        r@.len() <= 3 * v@.len(),
{
    let s: String = v.iter().collect();
    s.to_lowercase().chars().collect()
}

/// Relies on char::to_uppercase: the Unicode uppercase mapping, a function of
/// the character alone. It always yields at least one character (a character
/// with no uppercase mapping yields itself), and no character other than the
/// line break itself maps to a line break.
#[verifier::external_body]
pub fn upper_chars(c: char) -> (r: Vec<char>)
    ensures
        r@ == upper_of(c),
        r@.len() >= 1,
        forall|i: int| 0 <= i < r@.len() ==> (c != '\n' ==> r@[i] != '\n'),
{
    c.to_uppercase().collect()
}

/// The UTF-8 width of a character, from its code point range.
pub fn utf8_width(c: char) -> (r: usize)
    ensures
        r == char_width(c),
{
    let u = c as u32;
    if u <= 0x7F {
        1
    } else if u <= 0x7FF {
        2
    } else if u <= 0xFFFF {
        3
    } else {
        4
    }
}

/// Relies on String::from_iter (via `collect`): builds the string holding
/// exactly the given characters.
#[verifier::external_body]
pub fn chars_to_string(v: &Vec<char>) -> (r: String)
    ensures
        r@ == v@,
{
    v.iter().collect()
}

/// `apply_case`: if the original slice starts with an uppercase character,
/// the replacement's first character is uppercased; otherwise the replacement
/// is used verbatim.
pub open spec fn apply_case_spec(o: Seq<char>, r: Seq<char>) -> Seq<char> {
    if o.len() == 0 || r.len() == 0 {
        r
    } else if is_upper_char(o[0]) {
        upper_of(r[0]) + r.drop_first()
    } else {
        r
    }
}

// ---------------------------------------------------------------------------
// Byte offsets to character indices
// ---------------------------------------------------------------------------

pub proof fn lemma_byte_off_step(s: Seq<char>, i: int)
    requires
        0 <= i < s.len(),
    ensures
        byte_off(s, i + 1) == byte_off(s, i) + char_width(s[i]),
{
    assert(s.take(i + 1) =~= s.take(i) + seq![s[i]]);
    lemma_byte_len_app(s.take(i), seq![s[i]]);
    let q = seq![s[i]];
    assert(q.drop_first() =~= Seq::<char>::empty());
    assert(byte_len(Seq::<char>::empty()) == 0);
    assert(byte_len(q) == char_width(q[0]) + byte_len(q.drop_first()));
    assert(q[0] == s[i]);
}

/// Byte offsets are strictly increasing in the character index.
pub proof fn lemma_byte_off_strict(s: Seq<char>, i: int, j: int)
    requires
        0 <= i < j <= s.len(),
    ensures
        byte_off(s, i) < byte_off(s, j),
{
    lemma_byte_len_app(s.take(i), s.subrange(i, j));
    assert(s.take(i) + s.subrange(i, j) =~= s.take(j));
    lemma_byte_len_nonneg(s.subrange(i, j));
}

/// Scan for the character index whose byte offset is `b`, starting at index
/// `i` whose byte offset is `cur`.
pub open spec fn scan_char_idx(line: Seq<char>, i: int, cur: int, b: int) -> Option<int>
    decreases line.len() - i,
{
    if cur == b {
        Some(i)
    } else if i < 0 || i >= line.len() || cur > b {
        None
    } else {
        scan_char_idx(line, i + 1, cur + char_width(line[i]), b)
    }
}

/// The character index of `line` whose byte offset is `b`, if `b` lands on a
/// character boundary within the line.
pub open spec fn char_idx_at(line: Seq<char>, b: int) -> Option<int> {
    scan_char_idx(line, 0, 0, b)
}

pub proof fn lemma_scan_char_idx_props(line: Seq<char>, i: int, cur: int, b: int)
    requires
        0 <= i <= line.len(),
        cur == byte_off(line, i),
    ensures
        match scan_char_idx(line, i, cur, b) {
            Some(j) => i <= j <= line.len() && byte_off(line, j) == b,
            None => true,
        },
    decreases line.len() - i,
{
    if cur == b {
    } else if i >= line.len() || cur > b {
    } else {
        lemma_byte_off_step(line, i);
        lemma_scan_char_idx_props(line, i + 1, cur + char_width(line[i]), b);
    }
}

pub proof fn lemma_char_idx_at_props(line: Seq<char>, b: int)
    ensures
        match char_idx_at(line, b) {
            Some(j) => 0 <= j <= line.len() && byte_off(line, j) == b,
            None => true,
        },
{
    assert(byte_off(line, 0) == 0) by {
        assert(line.take(0) =~= Seq::<char>::empty());
    }
    lemma_scan_char_idx_props(line, 0, 0, b);
}

/// Find the character index of `v` at byte offset `b`, if `b` is a character
/// boundary within `v`.
pub fn char_at_byte(v: &Vec<char>, b: u128) -> (r: Option<usize>)
    ensures
        match r {
            Some(i) => char_idx_at(v@, b as int) == Some(i as int),
            None => char_idx_at(v@, b as int) is None,
        },
{
    let n: usize = v.len();
    let mut i: usize = 0;
    let mut cur: u128 = 0;
    proof {
        assert(byte_off(v@, 0) == 0) by {
            assert(v@.take(0) =~= Seq::<char>::empty());
        }
    }
    loop
        invariant
            n == v@.len(),
            i <= n,
            cur as int == byte_off(v@, i as int),
            char_idx_at(v@, b as int) == scan_char_idx(v@, i as int, cur as int, b as int),
        decreases n - i,
    {
        if cur == b {
            return Some(i);
        }
        if cur > b || i >= n {
            return None;
        }
        proof {
            lemma_byte_off_step(v@, i as int);
            lemma_byte_off_le(v@, i + 1, n as int);
            lemma_byte_len_nonneg(v@);
        }
        let w = utf8_width(v[i]);
        cur = cur + (w as u128);
        i += 1;
    }
}

/// Byte offset of character index `i` in `v`.
pub fn byte_offset_of(v: &Vec<char>, i: usize) -> (r: usize)
    requires
        i <= v@.len(),
        byte_len(v@) <= usize::MAX,
    ensures
        r as int == byte_off(v@, i as int),
{
    let mut j: usize = 0;
    let mut cur: usize = 0;
    proof {
        assert(byte_off(v@, 0) == 0) by {
            assert(v@.take(0) =~= Seq::<char>::empty());
        }
    }
    while j < i
        invariant
            i <= v@.len(),
            byte_len(v@) <= usize::MAX,
            j <= i,
            cur as int == byte_off(v@, j as int),
        decreases i - j,
    {
        proof {
            lemma_byte_off_step(v@, j as int);
            lemma_byte_off_le(v@, j + 1, v@.len() as int);
        }
        let w = utf8_width(v[j]);
        cur = cur + w;
        j += 1;
    }
    cur
}

/// Does `s` start with `p`?
pub open spec fn has_prefix(s: Seq<char>, p: Seq<char>) -> bool {
    p.len() <= s.len() && s.take(p.len() as int) == p
}

/// Does `v` start with the characters of `p`?
pub fn starts_with_chars(v: &Vec<char>, p: &Vec<char>) -> (r: bool)
    ensures
        r == has_prefix(v@, p@),
{
    let m = matches_at(v, p, 0);
    proof {
        if p@.len() <= v@.len() {
            assert(v@.subrange(0, p@.len() as int) =~= v@.take(p@.len() as int));
        }
    }
    m
}

/// The byte length of `s`, as `str::len` reports it.
pub fn str_byte_len(s: &str) -> (n: usize)
    ensures
        n as int == byte_len(s@),
{
    let bytes: &[u8] = s.as_bytes();
    let n: usize = bytes.len();
    proof {
        lemma_byte_len_is_encoded_len(s@);
    }
    n
}

// ---------------------------------------------------------------------------
// &str <-> Vec<char>
// ---------------------------------------------------------------------------

/// The characters of `s`, as a vector. The byte-length bound holds because
/// `s` is an in-memory Rust string.
pub fn str_to_chars(s: &str) -> (v: Vec<char>)
    ensures
        v@ == s@,
        byte_len(s@) <= usize::MAX,
{
    let nbytes: usize = s.as_bytes().len();
    proof {
        lemma_byte_len_is_encoded_len(s@);
    }
    let n: usize = s.unicode_len();
    let mut v: Vec<char> = Vec::new();
    let mut i: usize = 0;
    while i < n
        invariant
            n == s@.len(),
            i <= n,
            v@ =~= s@.take(i as int),
        decreases n - i,
    {
        v.push(s.get_char(i));
        i += 1;
        proof {
            assert(v@ =~= s@.take(i as int));
        }
    }
    proof {
        assert(s@.take(n as int) =~= s@);
    }
    v
}

// ---------------------------------------------------------------------------
// Substring search
// ---------------------------------------------------------------------------

/// The first index `>= from` at which `needle` occurs in `hay`, if any.
pub open spec fn first_match(hay: Seq<char>, needle: Seq<char>, from: int) -> Option<int>
    decreases hay.len() - from,
    via first_match_decreases
{
    if from < 0 || from + needle.len() > hay.len() {
        None
    } else if hay.subrange(from, from + needle.len()) == needle {
        Some(from)
    } else {
        first_match(hay, needle, from + 1)
    }
}

#[via_fn]
proof fn first_match_decreases(hay: Seq<char>, needle: Seq<char>, from: int) {
    if !(from < 0 || from + needle.len() > hay.len()) {
        if needle.len() == 0 {
            assert(hay.subrange(from, from + needle.len()) =~= needle);
        }
    }
}

pub proof fn lemma_first_match_props(hay: Seq<char>, needle: Seq<char>, from: int)
    requires
        from >= 0,
    ensures
        match first_match(hay, needle, from) {
            Some(i) => from <= i && i + needle.len() <= hay.len() && hay.subrange(
                i,
                i + needle.len(),
            ) == needle,
            None => true,
        },
    decreases hay.len() - from,
{
    if from + needle.len() > hay.len() {
    } else if hay.subrange(from, from + needle.len()) == needle {
    } else {
        assert(needle.len() > 0) by {
            if needle.len() == 0 {
                assert(hay.subrange(from, from + needle.len()) =~= needle);
            }
        }
        lemma_first_match_props(hay, needle, from + 1);
    }
}

/// Does `needle` occur at position `at` of `hay`?
pub fn matches_at(hay: &Vec<char>, needle: &Vec<char>, at: usize) -> (r: bool)
    ensures
        r == (at + needle@.len() <= hay@.len() && hay@.subrange(
            at as int,
            at as int + needle@.len(),
        ) == needle@),
{
    let hl: usize = hay.len();
    if at > hl || needle.len() > hl - at {
        return false;
    }
    let mut k: usize = 0;
    while k < needle.len()
        invariant
            hl == hay@.len(),
            at + needle@.len() <= hay@.len(),
            k <= needle@.len(),
            hay@.subrange(at as int, at as int + k as int) =~= needle@.take(k as int),
        decreases needle@.len() - k,
    {
        if hay[at + k] != needle[k] {
            proof {
                assert(hay@.subrange(at as int, at as int + needle@.len())[k as int]
                    != needle@[k as int]);
            }
            return false;
        }
        k += 1;
        proof {
            assert(hay@.subrange(at as int, at as int + k as int) =~= needle@.take(k as int));
        }
    }
    proof {
        assert(hay@.subrange(at as int, at as int + needle@.len()) =~= needle@.take(
            needle@.len() as int,
        ));
        assert(needle@.take(needle@.len() as int) =~= needle@);
    }
    true
}

/// First occurrence of `needle` in `hay` at or after `from`.
pub fn find_from(hay: &Vec<char>, needle: &Vec<char>, from: usize) -> (r: Option<usize>)
    ensures
        match r {
            Some(i) => Some(i as int) == first_match(hay@, needle@, from as int),
            None => first_match(hay@, needle@, from as int) is None,
        },
{
    if needle.len() == 0 {
        if from <= hay.len() {
            proof {
                assert(hay@.subrange(from as int, from as int) =~= needle@);
            }
            return Some(from);
        } else {
            return None;
        }
    }
    let hl: usize = hay.len();
    let mut i: usize = from;
    loop
        invariant
            hl == hay@.len(),
            needle@.len() >= 1,
            from <= i,
            first_match(hay@, needle@, from as int) == first_match(hay@, needle@, i as int),
        decreases hay@.len() + 1 - i,
    {
        if i > hl || needle.len() > hl - i {
            return None;
        }
        if matches_at(hay, needle, i) {
            return Some(i);
        }
        i += 1;
    }
}

// ---------------------------------------------------------------------------
// Subranges, prefixes, equality
// ---------------------------------------------------------------------------

/// A copy of `v[a..b]`.
pub fn subvec(v: &Vec<char>, a: usize, b: usize) -> (r: Vec<char>)
    requires
        a <= b <= v@.len(),
    ensures
        r@ == v@.subrange(a as int, b as int),
{
    let mut r: Vec<char> = Vec::new();
    let mut i: usize = a;
    while i < b
        invariant
            a <= i <= b <= v@.len(),
            r@ =~= v@.subrange(a as int, i as int),
        decreases b - i,
    {
        r.push(v[i]);
        i += 1;
        proof {
            assert(r@ =~= v@.subrange(a as int, i as int));
        }
    }
    r
}

/// Do two character vectors hold the same characters?
pub fn chars_eq(a: &Vec<char>, b: &Vec<char>) -> (r: bool)
    ensures
        r == (a@ == b@),
{
    if a.len() != b.len() {
        return false;
    }
    let mut i: usize = 0;
    while i < a.len()
        invariant
            a@.len() == b@.len(),
            i <= a@.len(),
            a@.take(i as int) =~= b@.take(i as int),
        decreases a@.len() - i,
    {
        if a[i] != b[i] {
            return false;
        }
        i += 1;
        proof {
            assert(a@.take(i as int) =~= b@.take(i as int));
        }
    }
    proof {
        assert(a@.take(a@.len() as int) =~= a@);
        assert(b@.take(b@.len() as int) =~= b@);
    }
    true
}

/// Does the character vector equal the characters of the literal?
pub fn chars_eq_str(a: &Vec<char>, s: &str) -> (r: bool)
    ensures
        r == (a@ == s@),
{
    let b = str_to_chars(s);
    chars_eq(a, &b)
}

// ---------------------------------------------------------------------------
// Whitespace trimming and splitting
// ---------------------------------------------------------------------------

/// Index of the first character at or after `from` that is not Unicode
/// whitespace.
pub open spec fn trim_start_idx(s: Seq<char>, from: int) -> int
    decreases s.len() - from,
{
    if from < 0 || from >= s.len() {
        s.len() as int
    } else if is_wspace_char(s[from]) {
        trim_start_idx(s, from + 1)
    } else {
        from
    }
}

/// One past the index of the last character before `from` that is not Unicode
/// whitespace, never below `lo`.
pub open spec fn trim_end_idx(s: Seq<char>, lo: int, from: int) -> int
    decreases from,
{
    if from <= lo || from > s.len() || from <= 0 {
        lo
    } else if is_wspace_char(s[from - 1]) {
        trim_end_idx(s, lo, from - 1)
    } else {
        from
    }
}

/// `s.trim()`: the subrange with leading and trailing Unicode whitespace
/// removed.
pub open spec fn trim_spec(s: Seq<char>) -> Seq<char> {
    let a = trim_start_idx(s, 0);
    let b = trim_end_idx(s, a, s.len() as int);
    s.subrange(a, b)
}

pub proof fn lemma_trim_start_idx_bounds(s: Seq<char>, from: int)
    requires
        0 <= from <= s.len(),
    ensures
        from <= trim_start_idx(s, from) <= s.len(),
        trim_start_idx(s, from) < s.len() ==> !is_wspace_char(s[trim_start_idx(s, from)]),
    decreases s.len() - from,
{
    if from < s.len() && is_wspace_char(s[from]) {
        lemma_trim_start_idx_bounds(s, from + 1);
    }
}

pub proof fn lemma_trim_end_idx_bounds(s: Seq<char>, lo: int, from: int)
    requires
        0 <= lo <= from <= s.len(),
    ensures
        lo <= trim_end_idx(s, lo, from) <= from,
    decreases from,
{
    if from > lo && is_wspace_char(s[from - 1]) {
        lemma_trim_end_idx_bounds(s, lo, from - 1);
    }
}

/// The character index where the trimmed form of `v` begins.
pub fn trim_start_pos(v: &Vec<char>, from: usize) -> (r: usize)
    requires
        from <= v@.len(),
    ensures
        r == trim_start_idx(v@, from as int),
        from <= r <= v@.len(),
{
    let mut i: usize = from;
    while i < v.len()
        invariant
            from <= i <= v@.len(),
            trim_start_idx(v@, from as int) == trim_start_idx(v@, i as int),
        decreases v@.len() - i,
    {
        if !is_wspace(v[i]) {
            return i;
        }
        i += 1;
    }
    i
}

/// The character index where the trimmed form of `v` ends (one past).
pub fn trim_end_pos(v: &Vec<char>, lo: usize) -> (r: usize)
    requires
        lo <= v@.len(),
    ensures
        r == trim_end_idx(v@, lo as int, v@.len() as int),
        lo <= r <= v@.len(),
{
    let mut i: usize = v.len();
    while i > lo
        invariant
            lo <= i <= v@.len(),
            trim_end_idx(v@, lo as int, v@.len() as int) == trim_end_idx(v@, lo as int, i as int),
        decreases i,
    {
        if !is_wspace(v[i - 1]) {
            return i;
        }
        i -= 1;
    }
    i
}

/// `v.trim()` as a fresh vector.
pub fn trim_chars(v: &Vec<char>) -> (r: Vec<char>)
    ensures
        r@ == trim_spec(v@),
{
    let a = trim_start_pos(v, 0);
    let b = trim_end_pos(v, a);
    subvec(v, a, b)
}

/// Trimming never adds bytes.
pub proof fn lemma_trim_byte_len(s: Seq<char>)
    ensures
        byte_len(trim_spec(s)) <= byte_len(s),
        byte_len(trim_spec(s)) >= 0,
{
    let a = trim_start_idx(s, 0);
    lemma_trim_start_idx_bounds(s, 0);
    let b = trim_end_idx(s, a, s.len() as int);
    lemma_trim_end_idx_bounds(s, a, s.len() as int);
    lemma_byte_len_subrange(s, a, b);
}

/// End of the word starting at `from` (first whitespace at or after `from`).
pub open spec fn wend_idx(s: Seq<char>, from: int) -> int
    decreases s.len() - from,
{
    if from < 0 || from >= s.len() {
        s.len() as int
    } else if is_wspace_char(s[from]) {
        from
    } else {
        wend_idx(s, from + 1)
    }
}

pub proof fn lemma_wend_idx_bounds(s: Seq<char>, from: int)
    requires
        0 <= from <= s.len(),
    ensures
        from <= wend_idx(s, from) <= s.len(),
        from < s.len() && !is_wspace_char(s[from]) ==> wend_idx(s, from) > from,
    decreases s.len() - from,
{
    if from < s.len() && !is_wspace_char(s[from]) {
        lemma_wend_idx_bounds(s, from + 1);
    }
}

/// The whitespace-separated words of `s`, scanning from `from`.
pub open spec fn words_from(s: Seq<char>, from: int) -> Seq<Seq<char>>
    decreases s.len() - from,
    when from >= 0
    via words_from_decreases
{
    if from >= s.len() {
        Seq::empty()
    } else {
        let a = trim_start_idx(s, from);
        if a >= s.len() {
            Seq::empty()
        } else {
            let b = wend_idx(s, a);
            seq![s.subrange(a, b)] + words_from(s, b)
        }
    }
}

#[via_fn]
proof fn words_from_decreases(s: Seq<char>, from: int) {
    if from < s.len() {
        lemma_trim_start_idx_bounds(s, from);
        let a = trim_start_idx(s, from);
        if a < s.len() {
            lemma_wend_idx_bounds(s, a);
        }
    }
}

/// `s.split_whitespace()` as a sequence of words.
pub open spec fn words_spec(s: Seq<char>) -> Seq<Seq<char>> {
    words_from(s, 0)
}

pub fn wend_pos(v: &Vec<char>, from: usize) -> (r: usize)
    requires
        from <= v@.len(),
    ensures
        r == wend_idx(v@, from as int),
        from <= r <= v@.len(),
{
    let mut i: usize = from;
    while i < v.len()
        invariant
            from <= i <= v@.len(),
            wend_idx(v@, from as int) == wend_idx(v@, i as int),
        decreases v@.len() - i,
    {
        if is_wspace(v[i]) {
            return i;
        }
        i += 1;
    }
    i
}

/// `v.split_whitespace()`, each word a fresh vector.
pub fn split_words(v: &Vec<char>) -> (r: Vec<Vec<char>>)
    ensures
        views_of(r@) == words_spec(v@),
{
    let mut r: Vec<Vec<char>> = Vec::new();
    let mut i: usize = 0;
    loop
        invariant
            i <= v@.len(),
            views_of(r@) + words_from(v@, i as int) =~= words_spec(v@),
        decreases v@.len() - i,
    {
        let a = trim_start_pos(v, i);
        if a >= v.len() {
            proof {
                assert(words_from(v@, i as int) =~= Seq::<Seq<char>>::empty());
                assert(views_of(r@) =~= words_spec(v@));
            }
            return r;
        }
        let b = wend_pos(v, a);
        proof {
            lemma_trim_start_idx_bounds(v@, i as int);
            lemma_wend_idx_bounds(v@, a as int);
        }
        let w = subvec(v, a, b);
        let ghost old_r = r@;
        r.push(w);
        proof {
            assert(views_of(r@) =~= views_of(old_r).push(w@));
            assert(words_from(v@, i as int) =~= seq![v@.subrange(a as int, b as int)]
                + words_from(v@, b as int));
            assert(views_of(r@) + words_from(v@, b as int) =~= words_spec(v@));
        }
        i = b;
    }
}

// ---------------------------------------------------------------------------
// Line splitting (the semantics of str::lines)
// ---------------------------------------------------------------------------

/// Drop one trailing carriage return, as `str::lines` does on a piece it cut
/// at a newline (a `\r\n` sequence is one terminator).
pub open spec fn strip_cr(l: Seq<char>) -> Seq<char> {
    if l.len() > 0 && l.last() == '\r' {
        l.drop_last()
    } else {
        l
    }
}

/// The lines of `s` from position `start` on: split at `'\n'`, a carriage
/// return before the newline stripped with it, no empty trailing line. A
/// final line with no newline is kept verbatim, trailing carriage return and
/// all, as `str::lines` keeps it.
pub open spec fn lines_from(s: Seq<char>, start: int) -> Seq<Seq<char>>
    decreases s.len() - start,
    via lines_from_decreases
{
    if start < 0 || start >= s.len() {
        Seq::empty()
    } else {
        match first_match(s, seq!['\n'], start) {
            Option::None => seq![s.subrange(start, s.len() as int)],
            Option::Some(i) => seq![strip_cr(s.subrange(start, i))] + lines_from(s, i + 1),
        }
    }
}

#[via_fn]
proof fn lines_from_decreases(s: Seq<char>, start: int) {
    if !(start < 0 || start >= s.len()) {
        lemma_first_match_props(s, seq!['\n'], start);
    }
}

/// The lines of `s`, as `str::lines` yields them.
pub open spec fn lines_spec(s: Seq<char>) -> Seq<Seq<char>> {
    lines_from(s, 0)
}

pub proof fn lemma_first_match_one_char(s: Seq<char>, c: char, from: int)
    requires
        from >= 0,
    ensures
        match first_match(s, seq![c], from) {
            Some(i) => from <= i < s.len() && s[i] == c && (forall|k: int|
                from <= k < i ==> s[k] != c),
            None => forall|k: int| from <= k < s.len() ==> s[k] != c,
        },
    decreases s.len() - from,
{
    if from + 1 > s.len() {
    } else {
        assert(s.subrange(from, from + 1) =~= seq![s[from]]);
        if s[from] == c {
            assert(s.subrange(from, from + 1) =~= seq![c]);
        } else {
            assert(s.subrange(from, from + 1) != seq![c]) by {
                assert(s.subrange(from, from + 1)[0] == s[from]);
                if s.subrange(from, from + 1) == seq![c] {
                    assert(seq![c][0] == c);
                }
            }
            lemma_first_match_one_char(s, c, from + 1);
        }
    }
}

pub proof fn lemma_strip_cr_byte_len(l: Seq<char>)
    ensures
        byte_len(strip_cr(l)) <= byte_len(l),
        byte_len(strip_cr(l)) >= 0,
{
    lemma_byte_len_nonneg(l);
    lemma_byte_len_nonneg(strip_cr(l));
    if l.len() > 0 && l.last() == '\r' {
        assert(l =~= l.drop_last() + seq![l.last()]);
        lemma_byte_len_app(l.drop_last(), seq![l.last()]);
        lemma_byte_len_nonneg(seq![l.last()]);
    }
}

/// Drop one trailing `'\r'`.
pub fn strip_cr_vec(l: Vec<char>) -> (r: Vec<char>)
    ensures
        r@ == strip_cr(l@),
{
    let ghost orig = l@;
    let mut l = l;
    if l.len() > 0 && l[l.len() - 1] == '\r' {
        l.pop();
        proof {
            assert(l@ =~= strip_cr(orig));
        }
    }
    l
}

/// A newline-terminated piece of a buffer is one of its lines: when `b` sits
/// at `start` with a newline right after it and holds no newline itself, the
/// lines from `start` are `b` followed by the lines after that newline.
pub proof fn lemma_line_at(s: Seq<char>, start: int, b: Seq<char>)
    requires
        0 <= start,
        start + b.len() < s.len(),
        s.subrange(start, start + b.len()) == b,
        s[start + b.len()] == '\n',
        forall|i: int| 0 <= i < b.len() ==> b[i] != '\n',
        b.len() == 0 || b.last() != '\r',
    ensures
        lines_from(s, start) == seq![b] + lines_from(s, start + b.len() + 1),
{
    let nl_at = start + b.len();
    lemma_first_match_one_char(s, '\n', start);
    assert(forall|k: int| start <= k < nl_at ==> s[k] != '\n') by {
        assert(forall|k: int|
            start <= k < nl_at ==> s[k] == s.subrange(start, nl_at)[k - start]);
    }
    match first_match(s, seq!['\n'], start) {
        Option::None => {
            assert(false);
        },
        Option::Some(i) => {
            assert(i == nl_at) by {
                if i < nl_at {
                    assert(s[i] != '\n');
                } else if i > nl_at {
                    assert(s[nl_at] != '\n');
                }
            }
            assert(strip_cr(s.subrange(start, i)) == b);
            assert(lines_from(s, start) == seq![strip_cr(s.subrange(start, i))] + lines_from(
                s,
                i + 1,
            ));
        },
    }
}

/// Split `v` into its lines.
pub fn split_lines(v: &Vec<char>) -> (r: Vec<Vec<char>>)
    ensures
        views_of(r@) == lines_spec(v@),
        forall|k: int|
            0 <= k < views_of(r@).len() ==> byte_len(#[trigger] views_of(r@)[k]) <= byte_len(v@),
{
    let nl: Vec<char> = vec!['\n'];
    proof {
        assert(nl@ =~= seq!['\n']);
    }
    let mut r: Vec<Vec<char>> = Vec::new();
    let mut start: usize = 0;
    loop
        invariant
            nl@ == seq!['\n'],
            start <= v@.len() + 1,
            views_of(r@) + lines_from(v@, start as int) =~= lines_spec(v@),
            forall|k: int|
                0 <= k < views_of(r@).len() ==> byte_len(#[trigger] views_of(r@)[k]) <= byte_len(
                    v@,
                ),
        decreases v@.len() + 1 - start,
    {
        if start >= v.len() {
            proof {
                assert(views_of(r@) =~= lines_spec(v@));
            }
            return r;
        }
        match find_from(v, &nl, start) {
            Option::None => {
                proof {
                    lemma_first_match_props(v@, nl@, start as int);
                }
                let line = subvec(v, start, v.len());
                let ghost old_r = r@;
                proof {
                    lemma_byte_len_subrange(v@, start as int, v@.len() as int);
                    assert(lines_from(v@, start as int) =~= seq![
                        v@.subrange(start as int, v@.len() as int),
                    ]);
                }
                r.push(line);
                proof {
                    assert(views_of(r@) =~= views_of(old_r).push(line@));
                    assert(views_of(r@) =~= lines_spec(v@));
                }
                return r;
            },
            Option::Some(i) => {
                proof {
                    lemma_first_match_props(v@, nl@, start as int);
                }
                let piece = subvec(v, start, i);
                let line = strip_cr_vec(piece);
                let ghost old_r = r@;
                proof {
                    lemma_byte_len_subrange(v@, start as int, i as int);
                    lemma_strip_cr_byte_len(v@.subrange(start as int, i as int));
                    assert(lines_from(v@, start as int) =~= seq![
                        strip_cr(v@.subrange(start as int, i as int)),
                    ] + lines_from(v@, i + 1));
                }
                r.push(line);
                proof {
                    assert(views_of(r@) =~= views_of(old_r).push(line@));
                    assert(views_of(r@) + lines_from(v@, i + 1) =~= lines_spec(v@));
                }
                start = i + 1;
            },
        }
    }
}

// ---------------------------------------------------------------------------
// Decimal rendering of counts
// ---------------------------------------------------------------------------

/// The character for decimal digit `d`.
pub open spec fn digit_char(d: int) -> char {
    if d == 0 {
        '0'
    } else if d == 1 {
        '1'
    } else if d == 2 {
        '2'
    } else if d == 3 {
        '3'
    } else if d == 4 {
        '4'
    } else if d == 5 {
        '5'
    } else if d == 6 {
        '6'
    } else if d == 7 {
        '7'
    } else if d == 8 {
        '8'
    } else {
        '9'
    }
}

/// The decimal digits of `n`, most significant first.
pub open spec fn dec_chars(n: int) -> Seq<char>
    decreases n,
{
    if n < 10 {
        seq![digit_char(n)]
    } else {
        dec_chars(n / 10) + seq![digit_char(n % 10)]
    }
}

fn digit_exec(d: usize) -> (r: char)
    requires
        d < 10,
    ensures
        r == digit_char(d as int),
{
    match d {
        0 => '0',
        1 => '1',
        2 => '2',
        3 => '3',
        4 => '4',
        5 => '5',
        6 => '6',
        7 => '7',
        8 => '8',
        _ => '9',
    }
}

/// Append the decimal digits of `n` to `out`.
pub fn push_decimal(n: usize, out: &mut Vec<char>)
    ensures
        final(out)@ == old(out)@ + dec_chars(n as int),
    decreases n,
{
    if n < 10 {
        out.push(digit_exec(n));
        proof {
            assert(out@ =~= old(out)@ + dec_chars(n as int));
        }
    } else {
        push_decimal(n / 10, out);
        out.push(digit_exec(n % 10));
        proof {
            assert(out@ =~= old(out)@ + dec_chars(n as int));
        }
    }
}

/// Append the characters of a literal to `out`.
pub fn push_str_chars(s: &str, out: &mut Vec<char>)
    ensures
        final(out)@ == old(out)@ + s@,
{
    let piece = str_to_chars(s);
    let mut i: usize = 0;
    while i < piece.len()
        invariant
            piece@ == s@,
            i <= piece@.len(),
            out@ =~= old(out)@ + s@.take(i as int),
        decreases piece@.len() - i,
    {
        out.push(piece[i]);
        i += 1;
        proof {
            assert(out@ =~= old(out)@ + s@.take(i as int));
        }
    }
    proof {
        assert(s@.take(s@.len() as int) =~= s@);
        assert(out@ =~= old(out)@ + s@);
    }
}

/// Append all characters of `p` to `out`.
pub fn push_all(p: &Vec<char>, out: &mut Vec<char>)
    ensures
        final(out)@ == old(out)@ + p@,
{
    let mut i: usize = 0;
    while i < p.len()
        invariant
            i <= p@.len(),
            out@ =~= old(out)@ + p@.take(i as int),
        decreases p@.len() - i,
    {
        out.push(p[i]);
        i += 1;
        proof {
            assert(out@ =~= old(out)@ + p@.take(i as int));
        }
    }
    proof {
        assert(p@.take(p@.len() as int) =~= p@);
        assert(out@ =~= old(out)@ + p@);
    }
}

} // verus!