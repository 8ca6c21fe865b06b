//! The JavaScript minifier: a string- and comment-aware character-stream
//! transform.
//!
//! String literals are copied verbatim, `//` and `/* */` comments are
//! stripped, and a whitespace run outside literals collapses to a single
//! space only between two word characters; otherwise it is dropped.
use vstd::prelude::*;

use crate::chars::{
    alnum, char_is_alphanumeric, char_is_space, chars_to_string, comment_close, copy_range,
    find_char, find_char_from, find_comment_close, is_space, lemma_comment_close, lemma_find_char,
    lemma_ws_run_end, str_to_chars, trim_chars, trim_spec, ws_run_end, ws_run_end_x,
};

verus! {

/// A word character: a Unicode letter or number, or an underscore.
pub open spec fn is_word(c: char) -> bool {
    alnum(c) || c == '_'
}

pub fn char_is_word(c: char) -> (r: bool)
    ensures
        r == is_word(c),
{
    char_is_alphanumeric(c) || c == '_'
}

/// Position just past a string literal with quote character `q` whose
/// body starts at `k`: a backslash always consumes the following
/// character, and an unterminated literal runs to the end.
pub open spec fn lit_end(s: Seq<char>, k: int, q: char) -> int
    decreases s.len() - k,
{
    if k < 0 || k >= s.len() {
        s.len() as int
    } else if s[k] == q {
        k + 1
    } else if s[k] == '\\' && k + 1 < s.len() {
        lit_end(s, k + 2, q)
    } else if s[k] == '\\' {
        s.len() as int
    } else {
        lit_end(s, k + 1, q)
    }
}

pub proof fn lemma_lit_end(s: Seq<char>, k: int, q: char)
    requires
        0 <= k <= s.len(),
    ensures
        k <= lit_end(s, k, q) <= s.len(),
    decreases s.len() - k,
{
    if k < s.len() && s[k] != q {
        if s[k] == '\\' && k + 1 < s.len() {
            lemma_lit_end(s, k + 2, q);
        } else if s[k] != '\\' {
            lemma_lit_end(s, k + 1, q);
        }
    }
}

pub fn find_lit_end(v: &Vec<char>, k0: usize, q: char) -> (e: usize)
    requires
        k0 <= v@.len(),
    ensures
        e as int == lit_end(v@, k0 as int, q),
        k0 <= e <= v@.len(),
{
    proof {
        lemma_lit_end(v@, k0 as int, q);
    }
    let mut k = k0;
    while k < v.len()
        invariant
            k0 <= k <= v@.len(),
            lit_end(v@, k0 as int, q) == lit_end(v@, k as int, q),
        decreases v@.len() - k,
    {
        if v[k] == q {
            return k + 1;
        }
        if v[k] == '\\' {
            if v.len() - k >= 2 {
                k += 2;
            } else {
                return v.len();
            }
        } else {
            k += 1;
        }
    }
    v.len()
}

/// The untrimmed JavaScript minifier output from position `i` on, where
/// `last` is the character written last (`None` before any output).
pub open spec fn js_raw(s: Seq<char>, i: int, last: Option<char>) -> Seq<char>
    decreases s.len() - i,
{
    if i < 0 || i >= s.len() {
        Seq::empty()
    } else {
        let c = s[i];
        if c == '"' || c == '\'' || c == '`' {
            let e = lit_end(s, i + 1, c);
            if i < e <= s.len() {
                s.subrange(i, e) + js_raw(s, e, Some(s[e - 1]))
            } else {
                Seq::empty()
            }
        } else if c == '/' && i + 1 < s.len() && s[i + 1] == '/' {
            let e = find_char(s, i + 2, '\n');
            let j = if e < s.len() {
                e + 1
            } else {
                s.len() as int
            };
            if i < j <= s.len() {
                js_raw(s, j, last)
            } else {
                Seq::empty()
            }
        } else if c == '/' && i + 1 < s.len() && s[i + 1] == '*' {
            let j = comment_close(s, i + 3);
            if i < j <= s.len() {
                js_raw(s, j, last)
            } else {
                Seq::empty()
            }
        } else if is_space(c) {
            let j = ws_run_end(s, i);
            let sep = j < s.len() && match last {
                Some(l) => is_word(l) && is_word(s[j]),
                None => false,
            };
            let nl = if sep {
                Some(' ')
            } else {
                last
            };
            if i < j <= s.len() {
                if sep {
                    seq![' '] + js_raw(s, j, nl)
                } else {
                    js_raw(s, j, nl)
                }
            } else {
                Seq::empty()
            }
        } else {
            seq![c] + js_raw(s, i + 1, Some(c))
        }
    }
}

/// What the JavaScript minifier returns: literals kept verbatim,
/// comments stripped, whitespace collapsed, ends trimmed.
pub open spec fn js_min_spec(s: Seq<char>) -> Seq<char> {
    trim_spec(js_raw(s, 0, None))
}

pub fn minify_javascript_chars(v: &Vec<char>) -> (r: Vec<char>)
    ensures
        r@ == js_min_spec(v@),
{
    let mut out: Vec<char> = Vec::new();
    let mut last: Option<char> = None;
    let mut i: usize = 0;
    while i < v.len()
        invariant
            i <= v@.len(),
            js_raw(v@, 0, None) == out@ + js_raw(v@, i as int, last),
        decreases v@.len() - i,
    {
        let ghost pre_out = out@;
        let ghost pre_i = i as int;
        let ghost pre_last = last;
        let c = v[i];
        if c == '"' || c == '\'' || c == '`' {
            let e = find_lit_end(v, i + 1, c);
            let mut piece = copy_range(v, i, e);
            out.append(&mut piece);
            last = Some(v[e - 1]);
            assert(js_raw(v@, pre_i, pre_last) =~= v@.subrange(pre_i, e as int) + js_raw(
                v@,
                e as int,
                last,
            ));
            assert(out@ + js_raw(v@, e as int, last) =~= pre_out + js_raw(v@, pre_i, pre_last));
            i = e;
        } else if c == '/' && i + 1 < v.len() && v[i + 1] == '/' {
            let e = find_char_from(v, i + 2, '\n');
            let j: usize = if e < v.len() {
                e + 1
            } else {
                v.len()
            };
            assert(js_raw(v@, pre_i, pre_last) == js_raw(v@, j as int, pre_last));
            i = j;
        } else if c == '/' && i + 1 < v.len() && v[i + 1] == '*' {
            proof {
                lemma_comment_close(v@, i as int + 3);
            }
            let j: usize = if v.len() - i >= 3 {
                find_comment_close(v, i + 3)
            } else {
                v.len()
            };
            assert(j as int == comment_close(v@, i as int + 3));
            assert(i < j);
            assert(js_raw(v@, pre_i, pre_last) == js_raw(v@, j as int, pre_last));
            i = j;
        } else if char_is_space(c) {
            let j = ws_run_end_x(v, i);
            proof {
                assert(ws_run_end(v@, pre_i) == ws_run_end(v@, pre_i + 1));
                lemma_ws_run_end(v@, pre_i + 1);
            }
            assert(i < j);
            let sep = j < v.len() && match last {
                Some(l) => char_is_word(l) && char_is_word(v[j]),
                None => false,
            };
            if sep {
                out.push(' ');
                last = Some(' ');
                assert(js_raw(v@, pre_i, pre_last) =~= seq![' '] + js_raw(
                    v@,
                    j as int,
                    Some(' '),
                ));
                assert(out@ + js_raw(v@, j as int, last) =~= pre_out + js_raw(
                    v@,
                    pre_i,
                    pre_last,
                ));
            } else {
                assert(js_raw(v@, pre_i, pre_last) == js_raw(v@, j as int, pre_last));
            }
            i = j;
        } else {
            out.push(c);
            last = Some(c);
            assert(js_raw(v@, pre_i, pre_last) =~= seq![c] + js_raw(v@, pre_i + 1, Some(c)));
            assert(out@ + js_raw(v@, pre_i + 1, last) =~= pre_out + js_raw(v@, pre_i, pre_last));
            i += 1;
        }
    }
    assert(out@ =~= js_raw(v@, 0, None));
    trim_chars(&out)
}

/// Minify a JavaScript text span: keep string literals byte-for-byte
/// (backslash escapes included), strip `//` and `/* */` comments, insert
/// a single space for a whitespace run only between two word characters,
/// and trim the ends.
pub fn minify_javascript(js: &str) -> (r: String)
    ensures
        r@ == js_min_spec(js@),
{
    let v = str_to_chars(js);
    let out = minify_javascript_chars(&v);
    chars_to_string(&out)
}

} // verus!
