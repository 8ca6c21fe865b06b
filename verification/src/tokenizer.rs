//! The scanner: a one-shot, forward-only lexer that turns the input
//! into a stream of tokens (text runs, tag boundaries, attributes,
//! comments, doctype, CDATA).  It never fails; unterminated constructs
//! simply run to the end of the input.
use vstd::prelude::*;
use vstd::string::StrSliceExecFns;

use crate::chars::{
    copy_range, find_char, find_char_from, find_seq, is_tag_space, lemma_find_char, lemma_find_seq,
    lemma_skip_tag_ws, match_at, skip_tag_ws, skip_tag_ws_x,
};

verus! {

/// A lexical token; each carries the span of input text it stands for.
pub enum Token {
    TextNode(Vec<char>),
    TagOpenStart(Vec<char>),
    Attribute(Vec<char>),
    TagOpenEnd,
    TagSelfClose,
    TagClose(Vec<char>),
    Comment(Vec<char>),
    Doctype(Vec<char>),
    Cdata(Vec<char>),
}

/// The mathematical shape of a token: its kind and the character
/// sequence it carries.
pub enum TokView {
    TextNode(Seq<char>),
    TagOpenStart(Seq<char>),
    Attribute(Seq<char>),
    TagOpenEnd,
    TagSelfClose,
    TagClose(Seq<char>),
    Comment(Seq<char>),
    Doctype(Seq<char>),
    Cdata(Seq<char>),
}

impl View for Token {
    type V = TokView;

    open spec fn view(&self) -> TokView {
        match self {
            Token::TextNode(v) => TokView::TextNode(v@),
            Token::TagOpenStart(v) => TokView::TagOpenStart(v@),
            Token::Attribute(v) => TokView::Attribute(v@),
            Token::TagOpenEnd => TokView::TagOpenEnd,
            Token::TagSelfClose => TokView::TagSelfClose,
            Token::TagClose(v) => TokView::TagClose(v@),
            Token::Comment(v) => TokView::Comment(v@),
            Token::Doctype(v) => TokView::Doctype(v@),
            Token::Cdata(v) => TokView::Cdata(v@),
        }
    }
}

/// End of a tag name: the first position at or after `i` holding `>`,
/// `/` or scanner whitespace.
pub open spec fn tag_name_end(s: Seq<char>, i: int) -> int
    decreases s.len() - i,
{
    if i < s.len() {
        if s[i] == '>' || s[i] == '/' || is_tag_space(s[i]) {
            i
        } else {
            tag_name_end(s, i + 1)
        }
    } else {
        s.len() as int
    }
}

pub proof fn lemma_tag_name_end(s: Seq<char>, i: int)
    requires
        0 <= i <= s.len(),
    ensures
        i <= tag_name_end(s, i) <= s.len(),
    decreases s.len() - i,
{
    if i < s.len() && !(s[i] == '>' || s[i] == '/' || is_tag_space(s[i])) {
        lemma_tag_name_end(s, i + 1);
    }
}

/// End of an attribute name: the first position at or after `i` holding
/// `=`, `>` or scanner whitespace.
pub open spec fn attr_name_end(s: Seq<char>, i: int) -> int
    decreases s.len() - i,
{
    if i < s.len() {
        if s[i] == '=' || s[i] == '>' || is_tag_space(s[i]) {
            i
        } else {
            attr_name_end(s, i + 1)
        }
    } else {
        s.len() as int
    }
}

pub proof fn lemma_attr_name_end(s: Seq<char>, i: int)
    requires
        0 <= i <= s.len(),
    ensures
        i <= attr_name_end(s, i) <= s.len(),
    decreases s.len() - i,
{
    if i < s.len() && !(s[i] == '=' || s[i] == '>' || is_tag_space(s[i])) {
        lemma_attr_name_end(s, i + 1);
    }
}

/// End of an unquoted attribute value: the first position at or after
/// `i` holding `>` or scanner whitespace.
pub open spec fn unquoted_end(s: Seq<char>, i: int) -> int
    decreases s.len() - i,
{
    if i < s.len() {
        if s[i] == '>' || is_tag_space(s[i]) {
            i
        } else {
            unquoted_end(s, i + 1)
        }
    } else {
        s.len() as int
    }
}

pub proof fn lemma_unquoted_end(s: Seq<char>, i: int)
    requires
        0 <= i <= s.len(),
    ensures
        i <= unquoted_end(s, i) <= s.len(),
    decreases s.len() - i,
{
    if i < s.len() && !(s[i] == '>' || is_tag_space(s[i])) {
        lemma_unquoted_end(s, i + 1);
    }
}

/// One attempted attribute scan from position `i`: the span of the raw
/// attribute token and the position after it, or nothing when the scan
/// sits at `>` or at the end of the input.
pub open spec fn attr_scan(s: Seq<char>, i: int) -> Option<(int, int)> {
    let j = skip_tag_ws(s, i);
    if j >= s.len() || s[j] == '>' {
        None
    } else {
        let ne = attr_name_end(s, j);
        let endpos = if ne < s.len() && s[ne] == '=' {
            let v = skip_tag_ws(s, ne + 1);
            if v < s.len() && (s[v] == '"' || s[v] == '\'') {
                let e = find_char(s, v + 1, s[v]);
                if e < s.len() {
                    e + 1
                } else {
                    s.len() as int
                }
            } else {
                unquoted_end(s, v)
            }
        } else {
            ne
        };
        if endpos > j {
            Some((j, endpos))
        } else {
            None
        }
    }
}

/// Scan of a `<!...` construct, `q` standing just after the `!`:
/// comment, doctype, CDATA, or a generic special span that is captured
/// like a comment.
pub open spec fn scan_special(s: Seq<char>, q: int) -> Option<(TokView, int, bool)> {
    if q + 2 < s.len() && s[q] == '-' && s[q + 1] == '-' {
        let c0 = q + 2;
        let f = find_seq(s, c0, "-->"@);
        let np = if match_at(s, f, "-->"@) {
            f + 3
        } else {
            s.len() as int
        };
        Some((TokView::Comment(s.subrange(c0, f)), np, false))
    } else if q + 7 < s.len() && match_at(s, q, "DOCTYPE"@) {
        let e = find_char(s, q, '>');
        let np = if e < s.len() {
            e + 1
        } else {
            s.len() as int
        };
        Some((TokView::Doctype(s.subrange(q - 2, np)), np, false))
    } else if q + 7 < s.len() && match_at(s, q, "[CDATA["@) {
        let c0 = q + 7;
        let f = find_seq(s, c0, "]]>"@);
        let np = if match_at(s, f, "]]>"@) {
            f + 3
        } else {
            s.len() as int
        };
        Some((TokView::Cdata(s.subrange(c0, f)), np, false))
    } else {
        let e = find_char(s, q, '>');
        let np = if e < s.len() {
            e + 1
        } else {
            s.len() as int
        };
        Some((TokView::Comment(s.subrange(q - 2, np)), np, false))
    }
}

/// Scan of a construct that begins with `<` at position `j`.
pub open spec fn scan_tag(s: Seq<char>, j: int) -> Option<(TokView, int, bool)> {
    let p = j + 1;
    if p >= s.len() {
        None
    } else if s[p] == '!' {
        scan_special(s, p + 1)
    } else if s[p] == '/' {
        let e = find_char(s, p + 1, '>');
        let np = if e < s.len() {
            e + 1
        } else {
            s.len() as int
        };
        Some((TokView::TagClose(s.subrange(p + 1, e)), np, false))
    } else {
        let ne = tag_name_end(s, p);
        Some((TokView::TagOpenStart(s.subrange(p, ne)), ne, true))
    }
}

/// Scan of a tag or a text run starting at the non-whitespace position
/// `j`.
pub open spec fn scan_plain(s: Seq<char>, j: int) -> Option<(TokView, int, bool)> {
    if s[j] == '<' {
        scan_tag(s, j)
    } else {
        let e = find_char(s, j, '<');
        if e > j {
            Some((TokView::TextNode(s.subrange(j, e)), e, false))
        } else {
            None
        }
    }
}

/// One scanner step from position `i`: the next token, the position
/// after it and the new in-tag mode, or nothing at the end of the
/// input.
pub open spec fn scan_next(s: Seq<char>, i: int, in_tag: bool) -> Option<(TokView, int, bool)> {
    let j = skip_tag_ws(s, i);
    if j >= s.len() {
        None
    } else if in_tag {
        if s[j] == '>' {
            Some((TokView::TagOpenEnd, j + 1, false))
        } else if j + 1 < s.len() && s[j] == '/' && s[j + 1] == '>' {
            Some((TokView::TagSelfClose, j + 2, false))
        } else {
            match attr_scan(s, j) {
                Some((a, b)) => Some((TokView::Attribute(s.subrange(a, b)), b, true)),
                None => scan_plain(s, j),
            }
        }
    } else {
        scan_plain(s, j)
    }
}

/// Every produced token advances the cursor and stays inside the input:
/// the scanner never rewinds, and the stream is finite.
pub proof fn lemma_scan_next_advances(s: Seq<char>, i: int, in_tag: bool)
    requires
        0 <= i <= s.len(),
        scan_next(s, i, in_tag) is Some,
    ensures
        i < scan_next(s, i, in_tag).unwrap().1 <= s.len(),
{
    lemma_skip_tag_ws(s, i);
    let j = skip_tag_ws(s, i);
    if j < s.len() {
        if in_tag && s[j] != '>' && !(j + 1 < s.len() && s[j] == '/' && s[j + 1] == '>')
            && attr_scan(s, j) is Some {
            lemma_attr_scan_bounds(s, j);
        } else if !(in_tag && (s[j] == '>' || (j + 1 < s.len() && s[j] == '/' && s[j + 1] == '>')
            || attr_scan(s, j) is Some)) {
            lemma_scan_plain_bounds(s, j);
        }
    }
}

pub proof fn lemma_attr_scan_bounds(s: Seq<char>, j: int)
    requires
        0 <= j <= s.len(),
        attr_scan(s, j) is Some,
    ensures
        j <= attr_scan(s, j).unwrap().0 < attr_scan(s, j).unwrap().1 <= s.len(),
{
    lemma_skip_tag_ws(s, j);
    let j2 = skip_tag_ws(s, j);
    lemma_attr_name_end(s, j2);
    let ne = attr_name_end(s, j2);
    if ne < s.len() && s[ne] == '=' {
        lemma_skip_tag_ws(s, ne + 1);
        let v = skip_tag_ws(s, ne + 1);
        if v < s.len() && (s[v] == '"' || s[v] == '\'') {
            lemma_find_char(s, v + 1, s[v]);
        } else {
            lemma_unquoted_end(s, v);
        }
    }
}

pub proof fn lemma_scan_plain_bounds(s: Seq<char>, j: int)
    requires
        0 <= j < s.len(),
        scan_plain(s, j) is Some,
    ensures
        j < scan_plain(s, j).unwrap().1 <= s.len(),
{
    if s[j] == '<' {
        let p = j + 1;
        if p < s.len() {
            if s[p] == '!' {
                let q = p + 1;
                if q + 2 < s.len() && s[q] == '-' && s[q + 1] == '-' {
                    reveal_strlit("-->");
                    lemma_find_seq(s, q + 2, "-->"@);
                    assert(j < scan_special(s, q).unwrap().1 <= s.len());
                } else if q + 7 < s.len() && match_at(s, q, "DOCTYPE"@) {
                    lemma_find_char(s, q, '>');
                    assert(j < scan_special(s, q).unwrap().1 <= s.len());
                } else if q + 7 < s.len() && match_at(s, q, "[CDATA["@) {
                    reveal_strlit("]]>");
                    lemma_find_seq(s, q + 7, "]]>"@);
                    assert(j < scan_special(s, q).unwrap().1 <= s.len());
                } else {
                    lemma_find_char(s, q, '>');
                    assert(j < scan_special(s, q).unwrap().1 <= s.len());
                }
            } else if s[p] == '/' {
                lemma_find_char(s, p + 1, '>');
            } else {
                lemma_tag_name_end(s, p);
            }
        }
    } else {
        lemma_find_char(s, j, '<');
    }
}

fn tag_name_end_x(v: &Vec<char>, i0: usize) -> (j: usize)
    requires
        i0 <= v@.len(),
    ensures
        j as int == tag_name_end(v@, i0 as int),
        i0 <= j <= v@.len(),
{
    proof {
        lemma_tag_name_end(v@, i0 as int);
    }
    let mut j = i0;
    while j < v.len()
        invariant
            i0 <= j <= v@.len(),
            tag_name_end(v@, i0 as int) == tag_name_end(v@, j as int),
        decreases v@.len() - j,
    {
        let c = v[j];
        if c == '>' || c == '/' || c == ' ' || c == '\t' || c == '\n' || c == '\r' {
            return j;
        }
        j += 1;
    }
    v.len()
}

fn attr_name_end_x(v: &Vec<char>, i0: usize) -> (j: usize)
    requires
        i0 <= v@.len(),
    ensures
        j as int == attr_name_end(v@, i0 as int),
        i0 <= j <= v@.len(),
{
    proof {
        lemma_attr_name_end(v@, i0 as int);
    }
    let mut j = i0;
    while j < v.len()
        invariant
            i0 <= j <= v@.len(),
            attr_name_end(v@, i0 as int) == attr_name_end(v@, j as int),
        decreases v@.len() - j,
    {
        let c = v[j];
        if c == '=' || c == '>' || c == ' ' || c == '\t' || c == '\n' || c == '\r' {
            return j;
        }
        j += 1;
    }
    v.len()
}

fn unquoted_end_x(v: &Vec<char>, i0: usize) -> (j: usize)
    requires
        i0 <= v@.len(),
    ensures
        j as int == unquoted_end(v@, i0 as int),
        i0 <= j <= v@.len(),
{
    proof {
        lemma_unquoted_end(v@, i0 as int);
    }
    let mut j = i0;
    while j < v.len()
        invariant
            i0 <= j <= v@.len(),
            unquoted_end(v@, i0 as int) == unquoted_end(v@, j as int),
        decreases v@.len() - j,
    {
        let c = v[j];
        if c == '>' || c == ' ' || c == '\t' || c == '\n' || c == '\r' {
            return j;
        }
        j += 1;
    }
    v.len()
}

/// Whether the characters of `pat` occur in `v` starting at `i`.
fn match_str_at(v: &Vec<char>, i: usize, pat: &str) -> (r: bool)
    requires
        i <= v@.len(),
    ensures
        r == match_at(v@, i as int, pat@),
{
    let m = pat.unicode_len();
    if v.len() - i < m {
        return false;
    }
    let mut k: usize = 0;
    while k < m
        invariant
            k <= m,
            m == pat@.len(),
            i + m <= v@.len(),
            forall|x: int| 0 <= x < k ==> v@[i + x] == pat@[x],
        decreases m - k,
    {
        if v[i + k] != pat.get_char(k) {
            proof {
                assert(v@.subrange(i as int, i as int + pat@.len() as int)[k as int] == v@[i as int
                    + k]);
            }
            return false;
        }
        k += 1;
    }
    proof {
        assert(v@.subrange(i as int, i as int + pat@.len() as int) =~= pat@);
    }
    true
}

/// First occurrence of the characters of `pat` in `v` at or after `i0`.
fn find_pat(v: &Vec<char>, i0: usize, pat: &str) -> (f: usize)
    requires
        i0 <= v@.len(),
        pat@.len() >= 1,
    ensures
        f as int == find_seq(v@, i0 as int, pat@),
        i0 <= f <= v@.len(),
{
    proof {
        lemma_find_seq(v@, i0 as int, pat@);
    }
    let mut i = i0;
    while i < v.len()
        invariant
            i0 <= i <= v@.len(),
            find_seq(v@, i0 as int, pat@) == find_seq(v@, i as int, pat@),
        decreases v@.len() - i,
    {
        if match_str_at(v, i, pat) {
            return i;
        }
        i += 1;
    }
    v.len()
}

/// The scanner state: the input, a forward-only cursor, and whether the
/// cursor stands inside an open tag.
pub struct Tokenizer {
    input: Vec<char>,
    position: usize,
    end: usize,
    in_tag: bool,
}

impl Tokenizer {
    /// The scanned character sequence.
    pub closed spec fn src(&self) -> Seq<char> {
        self.input@
    }

    /// The cursor: how much of the input has been consumed.
    pub closed spec fn pos(&self) -> int {
        self.position as int
    }

    /// Whether the scanner stands inside an open tag, consuming
    /// attributes.
    pub closed spec fn tag_mode(&self) -> bool {
        self.in_tag
    }

    /// The cursor never leaves the input.
    pub closed spec fn wf(&self) -> bool {
        self.end == self.input@.len() && self.position <= self.end
    }

    pub fn new(input: Vec<char>) -> (t: Tokenizer)
        ensures
            t.wf(),
            t.src() == input@,
            t.pos() == 0,
            !t.tag_mode(),
    {
        let end = input.len();
        Tokenizer { input, position: 0, end, in_tag: false }
    }

    fn skip_whitespace(&mut self)
        requires
            old(self).wf(),
        ensures
            final(self).wf(),
            final(self).src() == old(self).src(),
            final(self).tag_mode() == old(self).tag_mode(),
            final(self).pos() == skip_tag_ws(old(self).src(), old(self).pos()),
    {
        let j = skip_tag_ws_x(&self.input, self.position);
        self.position = j;
    }

    fn consume_until_pattern(&mut self, pat: &str) -> (r: Vec<char>)
        requires
            old(self).wf(),
            pat@.len() >= 1,
        ensures
            final(self).wf(),
            final(self).src() == old(self).src(),
            final(self).tag_mode() == old(self).tag_mode(),
            r@ == old(self).src().subrange(
                old(self).pos(),
                find_seq(old(self).src(), old(self).pos(), pat@),
            ),
            final(self).pos() == (if match_at(
                old(self).src(),
                find_seq(old(self).src(), old(self).pos(), pat@),
                pat@,
            ) {
                find_seq(old(self).src(), old(self).pos(), pat@) + pat@.len()
            } else {
                old(self).src().len() as int
            }),
    {
        let f = find_pat(&self.input, self.position, pat);
        let r = copy_range(&self.input, self.position, f);
        proof {
            lemma_find_seq(self.input@, self.position as int, pat@);
        }
        if match_str_at(&self.input, f, pat) {
            self.position = f + pat.unicode_len();
        } else {
            self.position = self.end;
        }
        r
    }

    fn consume_tag_name(&mut self) -> (r: Vec<char>)
        requires
            old(self).wf(),
        ensures
            final(self).wf(),
            final(self).src() == old(self).src(),
            final(self).tag_mode() == old(self).tag_mode(),
            r@ == old(self).src().subrange(
                old(self).pos(),
                tag_name_end(old(self).src(), old(self).pos()),
            ),
            final(self).pos() == tag_name_end(old(self).src(), old(self).pos()),
    {
        let e = tag_name_end_x(&self.input, self.position);
        let r = copy_range(&self.input, self.position, e);
        self.position = e;
        r
    }

    fn consume_until_char(&mut self, ch: char) -> (r: Vec<char>)
        requires
            old(self).wf(),
        ensures
            final(self).wf(),
            final(self).src() == old(self).src(),
            final(self).tag_mode() == old(self).tag_mode(),
            r@ == old(self).src().subrange(
                old(self).pos(),
                find_char(old(self).src(), old(self).pos(), ch),
            ),
            final(self).pos() == find_char(old(self).src(), old(self).pos(), ch),
    {
        let e = find_char_from(&self.input, self.position, ch);
        let r = copy_range(&self.input, self.position, e);
        self.position = e;
        r
    }

    fn consume_attribute(&mut self) -> (r: Option<Vec<char>>)
        requires
            old(self).wf(),
        ensures
            final(self).wf(),
            final(self).src() == old(self).src(),
            final(self).tag_mode() == old(self).tag_mode(),
            match attr_scan(old(self).src(), old(self).pos()) {
                Some(ab) => r matches Some(x) && x@ == old(self).src().subrange(ab.0, ab.1)
                    && final(self).pos() == ab.1,
                None => r is None && final(self).pos() == skip_tag_ws(
                    old(self).src(),
                    old(self).pos(),
                ),
            },
    {
        proof {
            lemma_skip_tag_ws(self.input@, self.position as int);
        }
        self.skip_whitespace();
        if self.position >= self.end {
            return None;
        }
        if self.input[self.position] == '>' {
            return None;
        }
        let start = self.position;
        let ne = attr_name_end_x(&self.input, self.position);
        self.position = ne;
        let has_eq = self.position < self.end && self.input[self.position] == '=';
        if has_eq {
            self.position = self.position + 1;
            self.skip_whitespace();
            proof {
                lemma_skip_tag_ws(self.input@, ne as int + 1);
            }
            if self.position < self.end && (self.input[self.position] == '"'
                || self.input[self.position] == '\'') {
                let q = self.input[self.position];
                proof {
                    lemma_find_char(self.input@, self.position as int + 1, q);
                }
                let e = find_char_from(&self.input, self.position + 1, q);
                if e < self.end {
                    self.position = e + 1;
                } else {
                    self.position = self.end;
                }
            } else {
                let ue = unquoted_end_x(&self.input, self.position);
                self.position = ue;
            }
        }
        if self.position > start {
            Some(copy_range(&self.input, start, self.position))
        } else {
            None
        }
    }

    /// One scanner step: the next token, or nothing once the input is
    /// exhausted.  The cursor only moves forward.
    pub fn next_token(&mut self) -> (t: Option<Token>)
        requires
            old(self).wf(),
        ensures
            final(self).wf(),
            final(self).src() == old(self).src(),
            match scan_next(old(self).src(), old(self).pos(), old(self).tag_mode()) {
                Some(res) => t matches Some(tok) && tok@ == res.0 && final(self).pos() == res.1
                    && final(self).tag_mode() == res.2,
                None => t is None && final(self).pos() == old(self).src().len(),
            },
    {
        proof {
            lemma_skip_tag_ws(self.input@, self.position as int);
        }
        self.skip_whitespace();
        if self.position >= self.end {
            return None;
        }
        if self.in_tag {
            if self.input[self.position] == '>' {
                self.position = self.position + 1;
                self.in_tag = false;
                return Some(Token::TagOpenEnd);
            }
            if self.position + 1 < self.end && self.input[self.position] == '/'
                && self.input[self.position + 1] == '>' {
                self.position = self.position + 2;
                self.in_tag = false;
                return Some(Token::TagSelfClose);
            }
            let ghost j = self.position as int;
            match self.consume_attribute() {
                Some(a) => {
                    return Some(Token::Attribute(a));
                },
                None => {
                    self.in_tag = false;
                    assert(self.position as int == j);
                },
            }
        }
        if self.input[self.position] == '<' {
            self.parse_tag()
        } else {
            proof {
                lemma_find_char(self.input@, self.position as int, '<');
            }
            self.parse_text_node()
        }
    }

    fn parse_tag(&mut self) -> (t: Option<Token>)
        requires
            old(self).wf(),
            !old(self).tag_mode(),
            old(self).pos() < old(self).src().len(),
            old(self).src()[old(self).pos()] == '<',
        ensures
            final(self).wf(),
            final(self).src() == old(self).src(),
            match scan_tag(old(self).src(), old(self).pos()) {
                Some(res) => t matches Some(tok) && tok@ == res.0 && final(self).pos() == res.1
                    && final(self).tag_mode() == res.2,
                None => t is None && !final(self).tag_mode() && final(self).pos() == old(
                    self,
                ).src().len(),
            },
    {
        self.position = self.position + 1;
        if self.position >= self.end {
            return None;
        }
        if self.input[self.position] == '!' {
            self.parse_special_tag()
        } else if self.input[self.position] == '/' {
            self.parse_close_tag()
        } else {
            self.parse_open_tag()
        }
    }

    fn parse_special_tag(&mut self) -> (t: Option<Token>)
        requires
            old(self).wf(),
            !old(self).tag_mode(),
            2 <= old(self).pos() + 1,
            old(self).pos() < old(self).src().len(),
        ensures
            final(self).wf(),
            final(self).src() == old(self).src(),
            match scan_special(old(self).src(), old(self).pos() + 1) {
                Some(res) => t matches Some(tok) && tok@ == res.0 && final(self).pos() == res.1
                    && final(self).tag_mode() == res.2,
                None => t is None && !final(self).tag_mode(),
            },
    {
        self.position = self.position + 1;
        let q = self.position;
        if self.end - q > 2 && self.input[q] == '-' && self.input[q + 1] == '-' {
            self.position = q + 2;
            proof {
                reveal_strlit("-->");
            }
            let content = self.consume_until_pattern("-->");
            Some(Token::Comment(content))
        } else if self.end - q > 7 && match_str_at(&self.input, q, "DOCTYPE") {
            let start = q - 2;
            let _content = self.consume_until_char('>');
            proof {
                lemma_find_char(self.input@, q as int, '>');
            }
            if self.position < self.end {
                self.position = self.position + 1;
            }
            Some(Token::Doctype(copy_range(&self.input, start, self.position)))
        } else if self.end - q > 7 && match_str_at(&self.input, q, "[CDATA[") {
            proof {
                reveal_strlit("[CDATA[");
                reveal_strlit("]]>");
            }
            self.position = q + 7;
            let content = self.consume_until_pattern("]]>");
            Some(Token::Cdata(content))
        } else {
            let start = q - 2;
            let _content = self.consume_until_char('>');
            proof {
                lemma_find_char(self.input@, q as int, '>');
            }
            if self.position < self.end {
                self.position = self.position + 1;
            }
            Some(Token::Comment(copy_range(&self.input, start, self.position)))
        }
    }

    fn parse_close_tag(&mut self) -> (t: Option<Token>)
        requires
            old(self).wf(),
            !old(self).tag_mode(),
            old(self).pos() < old(self).src().len(),
            old(self).src()[old(self).pos()] == '/',
        ensures
            final(self).wf(),
            final(self).src() == old(self).src(),
            t matches Some(tok) && tok@ == TokView::TagClose(
                old(self).src().subrange(
                    old(self).pos() + 1,
                    find_char(old(self).src(), old(self).pos() + 1, '>'),
                ),
            ),
            !final(self).tag_mode(),
            final(self).pos() == (if find_char(old(self).src(), old(self).pos() + 1, '>') < old(
                self,
            ).src().len() {
                find_char(old(self).src(), old(self).pos() + 1, '>') + 1
            } else {
                old(self).src().len() as int
            }),
    {
        self.position = self.position + 1;
        let tag_name = self.consume_until_char('>');
        proof {
            lemma_find_char(old(self).src(), old(self).pos() + 1, '>');
        }
        if self.position < self.end {
            self.position = self.position + 1;
        }
        Some(Token::TagClose(tag_name))
    }

    fn parse_open_tag(&mut self) -> (t: Option<Token>)
        requires
            old(self).wf(),
        ensures
            final(self).wf(),
            final(self).src() == old(self).src(),
            t matches Some(tok) && tok@ == TokView::TagOpenStart(
                old(self).src().subrange(
                    old(self).pos(),
                    tag_name_end(old(self).src(), old(self).pos()),
                ),
            ),
            final(self).tag_mode(),
            final(self).pos() == tag_name_end(old(self).src(), old(self).pos()),
    {
        let tag_name = self.consume_tag_name();
        self.in_tag = true;
        Some(Token::TagOpenStart(tag_name))
    }

    fn parse_text_node(&mut self) -> (t: Option<Token>)
        requires
            old(self).wf(),
            old(self).pos() < old(self).src().len(),
            old(self).src()[old(self).pos()] != '<',
        ensures
            final(self).wf(),
            final(self).src() == old(self).src(),
            final(self).tag_mode() == old(self).tag_mode(),
            match scan_plain(old(self).src(), old(self).pos()) {
                Some(res) => t matches Some(tok) && tok@ == res.0 && final(self).pos() == res.1,
                None => t is None,
            },
    {
        proof {
            lemma_find_char(old(self).src(), old(self).pos(), '<');
        }
        let start = self.position;
        let e = find_char_from(&self.input, self.position, '<');
        self.position = e;
        if self.position > start {
            Some(Token::TextNode(copy_range(&self.input, start, self.position)))
        } else {
            None
        }
    }
}

} // verus!
