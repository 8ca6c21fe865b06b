//! The CSS minifier: a stateless transform of a style text span.
//!
//! Block comments are stripped, whitespace runs collapse to one space
//! except immediately after a separator character, and the ends are
//! trimmed.
use vstd::prelude::*;

use crate::chars::{
    char_is_space, chars_to_string, comment_close, find_comment_close, is_space,
    lemma_comment_close, lemma_ws_run_end, str_to_chars, trim_chars, trim_spec, ws_run_end,
    ws_run_end_x,
};

verus! {

/// A separator after which collapsed whitespace is dropped entirely.
pub open spec fn css_special(c: char) -> bool {
    c == '{' || c == '}' || c == ':' || c == ';' || c == ',' || c == '>' || c == '+' || c == '~'
}

pub fn css_special_char(c: char) -> (r: bool)
    ensures
        r == css_special(c),
{
    c == '{' || c == '}' || c == ':' || c == ';' || c == ',' || c == '>' || c == '+' || c == '~'
}

/// The untrimmed CSS minifier output from position `i` on, where `last`
/// is the character written last (`None` before any output).
pub open spec fn css_raw(s: Seq<char>, i: int, last: Option<char>) -> Seq<char>
    decreases s.len() - i,
{
    if i < 0 || i >= s.len() {
        Seq::empty()
    } else {
        let c = s[i];
        if c == '/' && i + 1 < s.len() && s[i + 1] == '*' {
            let j = comment_close(s, i + 3);
            if i < j <= s.len() {
                css_raw(s, j, last)
            } else {
                Seq::empty()
            }
        } else if is_space(c) {
            let j = ws_run_end(s, i);
            let sep = match last {
                Some(l) => !css_special(l) && l != ' ',
                None => false,
            };
            let nl = if sep {
                Some(' ')
            } else {
                last
            };
            if i < j <= s.len() {
                if sep {
                    seq![' '] + css_raw(s, j, nl)
                } else {
                    css_raw(s, j, nl)
                }
            } else {
                Seq::empty()
            }
        } else {
            seq![c] + css_raw(s, i + 1, Some(c))
        }
    }
}

/// What the CSS minifier returns: comments stripped, whitespace
/// collapsed, ends trimmed.
pub open spec fn css_min_spec(s: Seq<char>) -> Seq<char> {
    trim_spec(css_raw(s, 0, None))
}

pub fn minify_css_chars(v: &Vec<char>) -> (r: Vec<char>)
    ensures
        r@ == css_min_spec(v@),
{
    let mut out: Vec<char> = Vec::new();
    let mut last: Option<char> = None;
    let mut i: usize = 0;
    while i < v.len()
        invariant
            i <= v@.len(),
            css_raw(v@, 0, None) == out@ + css_raw(v@, i as int, last),
        decreases v@.len() - i,
    {
        let ghost pre_out = out@;
        let ghost pre_i = i as int;
        let ghost pre_last = last;
        let c = v[i];
        if c == '/' && i + 1 < v.len() && v[i + 1] == '*' {
            proof {
                lemma_comment_close(v@, i as int + 3);
            }
            let j: usize = if v.len() - i >= 3 {
                find_comment_close(v, i + 3)
            } else {
                v.len()
            };
            assert(j as int == comment_close(v@, i as int + 3));
            assert(i < j);
            assert(css_raw(v@, pre_i, pre_last) == css_raw(v@, j as int, pre_last));
            i = j;
        } else if char_is_space(c) {
            let j = ws_run_end_x(v, i);
            proof {
                assert(ws_run_end(v@, pre_i) == ws_run_end(v@, pre_i + 1));
                lemma_ws_run_end(v@, pre_i + 1);
            }
            assert(i < j);
            let sep = match last {
                Some(l) => !css_special_char(l) && l != ' ',
                None => false,
            };
            if sep {
                out.push(' ');
                last = Some(' ');
                assert(css_raw(v@, pre_i, pre_last) =~= seq![' '] + css_raw(
                    v@,
                    j as int,
                    Some(' '),
                ));
                assert(out@ + css_raw(v@, j as int, last) =~= pre_out + css_raw(
                    v@,
                    pre_i,
                    pre_last,
                ));
            } else {
                assert(css_raw(v@, pre_i, pre_last) == css_raw(v@, j as int, pre_last));
            }
            i = j;
        } else {
            out.push(c);
            last = Some(c);
            assert(css_raw(v@, pre_i, pre_last) =~= seq![c] + css_raw(v@, pre_i + 1, Some(c)));
            assert(out@ + css_raw(v@, pre_i + 1, last) =~= pre_out + css_raw(v@, pre_i, pre_last));
            i += 1;
        }
    }
    assert(out@ =~= css_raw(v@, 0, None));
    trim_chars(&out)
}

/// Minify a CSS text span: strip `/* ... */` comments, collapse
/// whitespace runs to one space except immediately after one of
/// `{ } : ; , > + ~`, and trim the ends.
pub fn minify_css(css: &str) -> (r: String)
    ensures
        r@ == css_min_spec(css@),
{
    let v = str_to_chars(css);
    let out = minify_css_chars(&v);
    chars_to_string(&out)
}

} // verus!
