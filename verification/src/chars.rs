//! Character classes and low-level scanning helpers shared by the
//! scanner, the minifier passes and the attribute rules.
use vstd::prelude::*;
use vstd::string::StrSliceExecFns;

verus! {

/// Whether a character vector holds exactly the characters of `s`.
pub fn tag_is(t: &Vec<char>, s: &str) -> (r: bool)
    ensures
        r == (t@ == s@),
{
    let n = s.unicode_len();
    if t.len() != n {
        return false;
    }
    let mut i: usize = 0;
    while i < n
        invariant
            i <= n,
            n == s@.len(),
            t@.len() == n,
            forall|k: int| 0 <= k < i ==> t@[k] == s@[k],
        decreases n - i,
    {
        if t[i] != s.get_char(i) {
            return false;
        }
        i += 1;
    }
    proof {
        assert(t@ =~= s@);
    }
    true
}

/// The four characters the scanner skips between tokens.
pub open spec fn is_tag_space(c: char) -> bool {
    c == ' ' || c == '\t' || c == '\n' || c == '\r'
}

/// A character with the Unicode `White_Space` property.
pub open spec fn is_space(c: char) -> bool {
    let u = c as u32;
    u == 0x20 || u == 0x9 || u == 0xa || u == 0xb || u == 0xc || u == 0xd || u == 0x85
        || u == 0xa0 || u == 0x1680 || (0x2000 <= u && u <= 0x200a) || u == 0x2028
        || u == 0x2029 || u == 0x202f || u == 0x205f || u == 0x3000
}

pub fn char_is_tag_space(c: char) -> (r: bool)
    ensures
        r == is_tag_space(c),
{
    c == ' ' || c == '\t' || c == '\n' || c == '\r'
}

pub fn char_is_space(c: char) -> (r: bool)
    ensures
        r == is_space(c),
{
    let u = c as u32;
    u == 0x20 || u == 0x9 || u == 0xa || u == 0xb || u == 0xc || u == 0xd || u == 0x85
        || u == 0xa0 || u == 0x1680 || (0x2000 <= u && u <= 0x200a) || u == 0x2028
        || u == 0x2029 || u == 0x202f || u == 0x205f || u == 0x3000
}

/// Lowercasing of a single character, restricted to the ASCII letters;
/// every other character is left unchanged.
pub open spec fn lower_char(c: char) -> char {
    if c == 'A' { 'a' } else if c == 'B' { 'b' } else if c == 'C' { 'c' }
    else if c == 'D' { 'd' } else if c == 'E' { 'e' } else if c == 'F' { 'f' }
    else if c == 'G' { 'g' } else if c == 'H' { 'h' } else if c == 'I' { 'i' }
    else if c == 'J' { 'j' } else if c == 'K' { 'k' } else if c == 'L' { 'l' }
    else if c == 'M' { 'm' } else if c == 'N' { 'n' } else if c == 'O' { 'o' }
    else if c == 'P' { 'p' } else if c == 'Q' { 'q' } else if c == 'R' { 'r' }
    else if c == 'S' { 's' } else if c == 'T' { 't' } else if c == 'U' { 'u' }
    else if c == 'V' { 'v' } else if c == 'W' { 'w' } else if c == 'X' { 'x' }
    else if c == 'Y' { 'y' } else if c == 'Z' { 'z' } else { c }
}

pub fn to_lower_char(c: char) -> (r: char)
    ensures
        r == lower_char(c),
{
    if c == 'A' { 'a' } else if c == 'B' { 'b' } else if c == 'C' { 'c' }
    else if c == 'D' { 'd' } else if c == 'E' { 'e' } else if c == 'F' { 'f' }
    else if c == 'G' { 'g' } else if c == 'H' { 'h' } else if c == 'I' { 'i' }
    else if c == 'J' { 'j' } else if c == 'K' { 'k' } else if c == 'L' { 'l' }
    else if c == 'M' { 'm' } else if c == 'N' { 'n' } else if c == 'O' { 'o' }
    else if c == 'P' { 'p' } else if c == 'Q' { 'q' } else if c == 'R' { 'r' }
    else if c == 'S' { 's' } else if c == 'T' { 't' } else if c == 'U' { 'u' }
    else if c == 'V' { 'v' } else if c == 'W' { 'w' } else if c == 'X' { 'x' }
    else if c == 'Y' { 'y' } else if c == 'Z' { 'z' } else { c }
}

/// ASCII-lowercased copy of a character sequence.
pub open spec fn lower_seq(s: Seq<char>) -> Seq<char> {
    s.map_values(|c: char| lower_char(c))
}

pub fn lower_chars(v: &Vec<char>) -> (r: Vec<char>)
    ensures
        r@ == lower_seq(v@),
{
    let mut r: Vec<char> = Vec::new();
    let mut i: usize = 0;
    while i < v.len()
        invariant
            i <= v@.len(),
            r@ == lower_seq(v@.subrange(0, i as int)),
        decreases v@.len() - i,
    {
        r.push(to_lower_char(v[i]));
        proof {
            assert(v@.subrange(0, i as int + 1).map_values(|c: char| lower_char(c))
                =~= v@.subrange(0, i as int).map_values(|c: char| lower_char(c)).push(
                lower_char(v@[i as int])));
        }
        i += 1;
    }
    proof {
        assert(v@.subrange(0, v@.len() as int) =~= v@);
    }
    r
}

/// Whether a Unicode character counts as a letter or a number.
///
/// The meaning of this name is fixed by the contract of
/// [`char_is_alphanumeric`] below.
pub uninterp spec fn alnum(c: char) -> bool;

/// An ASCII letter or digit.
pub open spec fn is_ascii_alnum(c: char) -> bool {
    let u = c as u32;
    (0x30 <= u && u <= 0x39) || (0x41 <= u && u <= 0x5a) || (0x61 <= u && u <= 0x7a)
}

/// Relies on `char::is_alphanumeric`: true exactly for Unicode letters and
/// numbers, a function of the character alone; on the ASCII range these
/// are precisely the ASCII letters and digits.
#[verifier::external_body]
pub fn char_is_alphanumeric(c: char) -> (r: bool)
    ensures
        r == alnum(c),
        (c as u32) < 0x80 ==> r == is_ascii_alnum(c),
{
    c.is_alphanumeric()
}

/// First position at or after `i` whose character is not scanner
/// whitespace, or the end of the sequence.
pub open spec fn skip_tag_ws(s: Seq<char>, i: int) -> int
    decreases s.len() - i,
{
    if i < s.len() && is_tag_space(s[i]) {
        skip_tag_ws(s, i + 1)
    } else {
        i
    }
}

pub proof fn lemma_skip_tag_ws(s: Seq<char>, i: int)
    requires
        0 <= i <= s.len(),
    ensures
        i <= skip_tag_ws(s, i) <= s.len(),
        forall|k: int| i <= k < skip_tag_ws(s, i) ==> is_tag_space(s[k]),
        skip_tag_ws(s, i) < s.len() ==> !is_tag_space(s[skip_tag_ws(s, i)]),
    decreases s.len() - i,
{
    if i < s.len() && is_tag_space(s[i]) {
        lemma_skip_tag_ws(s, i + 1);
    }
}

/// First position at or after `i` whose character is not Unicode
/// whitespace, or the end of the sequence.
pub open spec fn ws_run_end(s: Seq<char>, i: int) -> int
    decreases s.len() - i,
{
    if i < s.len() && is_space(s[i]) {
        ws_run_end(s, i + 1)
    } else {
        i
    }
}

pub proof fn lemma_ws_run_end(s: Seq<char>, i: int)
    requires
        0 <= i <= s.len(),
    ensures
        i <= ws_run_end(s, i) <= s.len(),
        forall|k: int| i <= k < ws_run_end(s, i) ==> is_space(s[k]),
        ws_run_end(s, i) < s.len() ==> !is_space(s[ws_run_end(s, i)]),
    decreases s.len() - i,
{
    if i < s.len() && is_space(s[i]) {
        lemma_ws_run_end(s, i + 1);
    }
}

/// First occurrence of `c` at or after `i`, or the end of the sequence.
pub open spec fn find_char(s: Seq<char>, i: int, c: char) -> int
    decreases s.len() - i,
{
    if i < s.len() {
        if s[i] == c {
            i
        } else {
            find_char(s, i + 1, c)
        }
    } else {
        s.len() as int
    }
}

pub proof fn lemma_find_char(s: Seq<char>, i: int, c: char)
    requires
        0 <= i <= s.len(),
    ensures
        i <= find_char(s, i, c) <= s.len(),
        forall|k: int| i <= k < find_char(s, i, c) ==> s[k] != c,
        find_char(s, i, c) < s.len() ==> s[find_char(s, i, c)] == c,
    decreases s.len() - i,
{
    if i < s.len() && s[i] != c {
        lemma_find_char(s, i + 1, c);
    }
}

/// Whether `pat` occurs in `s` starting at position `i`.
pub open spec fn match_at(s: Seq<char>, i: int, pat: Seq<char>) -> bool {
    0 <= i && i + pat.len() <= s.len() && s.subrange(i, i + pat.len() as int) == pat
}

/// Start of the first occurrence of `pat` at or after `i`, or the end of
/// the sequence when there is none.
pub open spec fn find_seq(s: Seq<char>, i: int, pat: Seq<char>) -> int
    decreases s.len() - i,
{
    if i < s.len() {
        if match_at(s, i, pat) {
            i
        } else {
            find_seq(s, i + 1, pat)
        }
    } else {
        s.len() as int
    }
}

pub proof fn lemma_find_seq(s: Seq<char>, i: int, pat: Seq<char>)
    requires
        0 <= i <= s.len(),
    ensures
        i <= find_seq(s, i, pat) <= s.len(),
        forall|k: int| i <= k < find_seq(s, i, pat) ==> !match_at(s, k, pat),
        find_seq(s, i, pat) < s.len() ==> match_at(s, find_seq(s, i, pat), pat),
    decreases s.len() - i,
{
    if i < s.len() && !match_at(s, i, pat) {
        lemma_find_seq(s, i + 1, pat);
    }
}

/// Position just past the `*/` that closes a comment body, scanning the
/// closing slash from position `j` on; the end of the sequence when the
/// comment is unterminated.
pub open spec fn comment_close(s: Seq<char>, j: int) -> int
    decreases s.len() - j,
{
    if j >= s.len() {
        s.len() as int
    } else if s[j] == '/' && s[j - 1] == '*' {
        j + 1
    } else {
        comment_close(s, j + 1)
    }
}

pub proof fn lemma_comment_close(s: Seq<char>, j: int)
    ensures
        comment_close(s, j) <= s.len(),
        j <= s.len() ==> j <= comment_close(s, j),
    decreases s.len() - j,
{
    if j < s.len() && !(s[j] == '/' && s[j - 1] == '*') {
        lemma_comment_close(s, j + 1);
    }
}

pub fn find_comment_close(v: &Vec<char>, j0: usize) -> (r: usize)
    requires
        1 <= j0 <= v@.len(),
    ensures
        r as int == comment_close(v@, j0 as int),
{
    let mut j = j0;
    while j < v.len()
        invariant
            j0 <= j <= v@.len(),
            comment_close(v@, j0 as int) == comment_close(v@, j as int),
        decreases v@.len() - j,
    {
        if v[j] == '/' && v[j - 1] == '*' {
            return j + 1;
        }
        j += 1;
    }
    v.len()
}

pub fn find_char_from(v: &Vec<char>, k0: usize, ch: char) -> (e: usize)
    requires
        k0 <= v@.len(),
    ensures
        e as int == find_char(v@, k0 as int, ch),
        k0 <= e <= v@.len(),
{
    proof {
        lemma_find_char(v@, k0 as int, ch);
    }
    let mut k = k0;
    while k < v.len()
        invariant
            k0 <= k <= v@.len(),
            find_char(v@, k0 as int, ch) == find_char(v@, k as int, ch),
        decreases v@.len() - k,
    {
        if v[k] == ch {
            return k;
        }
        k += 1;
    }
    v.len()
}

/// Advance over a run of Unicode whitespace.
pub fn ws_run_end_x(v: &Vec<char>, i0: usize) -> (j: usize)
    requires
        i0 <= v@.len(),
    ensures
        j as int == ws_run_end(v@, i0 as int),
        i0 <= j <= v@.len(),
{
    proof {
        lemma_ws_run_end(v@, i0 as int);
    }
    let mut j = i0;
    while j < v.len() && char_is_space(v[j])
        invariant
            i0 <= j <= v@.len(),
            ws_run_end(v@, i0 as int) == ws_run_end(v@, j as int),
        decreases v@.len() - j,
    {
        j += 1;
    }
    j
}

/// Advance over a run of scanner whitespace.
pub fn skip_tag_ws_x(v: &Vec<char>, i0: usize) -> (j: usize)
    requires
        i0 <= v@.len(),
    ensures
        j as int == skip_tag_ws(v@, i0 as int),
        i0 <= j <= v@.len(),
{
    proof {
        lemma_skip_tag_ws(v@, i0 as int);
    }
    let mut j = i0;
    while j < v.len() && char_is_tag_space(v[j])
        invariant
            i0 <= j <= v@.len(),
            skip_tag_ws(v@, i0 as int) == skip_tag_ws(v@, j as int),
        decreases v@.len() - j,
    {
        j += 1;
    }
    j
}

/// Start of the trailing whitespace run that ends at position `i`.
pub open spec fn trail_ws_start(s: Seq<char>, i: int) -> int
    decreases i,
{
    if 0 < i && i <= s.len() && is_space(s[i - 1]) {
        trail_ws_start(s, i - 1)
    } else {
        i
    }
}

pub proof fn lemma_trail_ws_start(s: Seq<char>, i: int)
    requires
        0 <= i <= s.len(),
    ensures
        0 <= trail_ws_start(s, i) <= i,
        forall|k: int| trail_ws_start(s, i) <= k < i ==> is_space(s[k]),
        trail_ws_start(s, i) > 0 ==> !is_space(s[trail_ws_start(s, i) - 1]),
    decreases i,
{
    if 0 < i && i <= s.len() && is_space(s[i - 1]) {
        lemma_trail_ws_start(s, i - 1);
    }
}

/// The sequence with leading and trailing Unicode whitespace removed.
pub open spec fn trim_spec(s: Seq<char>) -> Seq<char> {
    let a = ws_run_end(s, 0);
    let b = trail_ws_start(s, s.len() as int);
    if a < b {
        s.subrange(a, b)
    } else {
        Seq::empty()
    }
}

/// Copy of the characters of `v` between positions `a` and `b`.
pub fn copy_range(v: &Vec<char>, a: usize, b: usize) -> (r: Vec<char>)
    requires
        a <= b <= v@.len(),
    ensures
        r@ == v@.subrange(a as int, b as int),
{
    let mut r: Vec<char> = Vec::new();
    let mut i: usize = a;
    while i < b
        invariant
            a <= i <= b <= v@.len(),
            r@ == v@.subrange(a as int, i as int),
        decreases b - i,
    {
        r.push(v[i]);
        proof {
            assert(v@.subrange(a as int, i as int + 1) =~= v@.subrange(a as int, i as int).push(
                v@[i as int]));
        }
        i += 1;
    }
    r
}

pub fn trim_chars(v: &Vec<char>) -> (r: Vec<char>)
    ensures
        r@ == trim_spec(v@),
{
    proof {
        lemma_ws_run_end(v@, 0);
        lemma_trail_ws_start(v@, v@.len() as int);
    }
    let n = v.len();
    let mut a: usize = 0;
    while a < n && char_is_space(v[a])
        invariant
            0 <= a <= n,
            n == v@.len(),
            ws_run_end(v@, 0) == ws_run_end(v@, a as int),
        decreases n - a,
    {
        a += 1;
    }
    assert(a as int == ws_run_end(v@, 0));
    let mut b: usize = n;
    while b > a && char_is_space(v[b - 1])
        invariant
            a <= b <= n,
            n == v@.len(),
            trail_ws_start(v@, n as int) == trail_ws_start(v@, b as int),
        decreases b,
    {
        b -= 1;
    }
    proof {
        lemma_trail_ws_start(v@, b as int);
    }
    if a < b {
        assert(trail_ws_start(v@, n as int) == b as int);
        copy_range(v, a, b)
    } else {
        assert(trail_ws_start(v@, n as int) <= a as int);
        Vec::new()
    }
}

/// Append a copy of `piece` to `result`.
pub fn push_all(result: &mut Vec<char>, piece: &Vec<char>)
    ensures
        final(result)@ == old(result)@ + piece@,
{
    let mut i: usize = 0;
    while i < piece.len()
        invariant
            i <= piece@.len(),
            result@ == old(result)@ + piece@.subrange(0, i as int),
        decreases piece@.len() - i,
    {
        result.push(piece[i]);
        proof {
            assert(old(result)@ + piece@.subrange(0, i as int + 1) =~= (old(result)@
                + piece@.subrange(0, i as int)).push(piece@[i as int]));
        }
        i += 1;
    }
    proof {
        assert(piece@.subrange(0, piece@.len() as int) =~= piece@);
    }
}

/// The characters of a string slice, in order.
pub fn str_to_chars(s: &str) -> (v: Vec<char>)
    ensures
        v@ == s@,
{
    let n = s.unicode_len();
    let mut v: Vec<char> = Vec::new();
    let mut i: usize = 0;
    while i < n
        invariant
            i <= n,
            n == s@.len(),
            v@ == s@.subrange(0, i as int),
        decreases n - i,
    {
        v.push(s.get_char(i));
        proof {
            assert(s@.subrange(0, i as int + 1) =~= s@.subrange(0, i as int).push(s@[i as int]));
        }
        i += 1;
    }
    proof {
        assert(s@.subrange(0, s@.len() as int) =~= s@);
    }
    v
}

/// Relies on `String`'s `FromIterator` over characters: collecting the
/// characters of `v` yields the string of exactly those characters, in
/// order.
#[verifier::external_body]
pub fn chars_to_string(v: &Vec<char>) -> (r: String)
    ensures
        r@ == v@,
{
    v.iter().collect()
}

} // verus!
