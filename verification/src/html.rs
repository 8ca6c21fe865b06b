//! The reassembler and the cleanup pass: the token stream is folded
//! into the first-pass output under the tag-context flags, and a second
//! whole-string pass normalizes residual whitespace around tag and `=`
//! boundaries.
use vstd::prelude::*;

use crate::attrs::{attr_out_spec, process_attribute};
use crate::chars::{
    char_is_space, chars_to_string, is_space, lemma_ws_run_end, lower_chars, lower_seq, push_all,
    str_to_chars, tag_is, trail_ws_start, trim_chars, trim_spec, ws_run_end, ws_run_end_x,
};
use crate::cssmin::{css_min_spec, minify_css_chars};
use crate::jsmin::{js_min_spec, minify_javascript_chars};
use crate::tables::{
    is_close_optional, is_close_optional_spec, is_singleton_element, is_singleton_spec,
};
use crate::tokenizer::{lemma_scan_next_advances, scan_next, TokView, Token, Tokenizer};

verus! {

/// Whitespace collapsing of a text run from position `i` on: every
/// maximal whitespace run becomes one ASCII space, other characters are
/// unchanged.
pub open spec fn collapse_from(s: Seq<char>, i: int) -> Seq<char>
    decreases s.len() - i,
{
    if i < 0 || i >= s.len() {
        Seq::empty()
    } else if is_space(s[i]) {
        let j = ws_run_end(s, i);
        if i < j <= s.len() {
            seq![' '] + collapse_from(s, j)
        } else {
            Seq::empty()
        }
    } else {
        seq![s[i]] + collapse_from(s, i + 1)
    }
}

/// Whitespace collapsing of a whole text run.
pub open spec fn collapse_spec(s: Seq<char>) -> Seq<char> {
    collapse_from(s, 0)
}

/// Collapse every maximal whitespace run of `content` to one ASCII
/// space and append the outcome to `result`.
pub fn append_collapsed_whitespace(result: &mut Vec<char>, content: &Vec<char>)
    ensures
        final(result)@ == old(result)@ + collapse_spec(content@),
{
    let mut i: usize = 0;
    while i < content.len()
        invariant
            i <= content@.len(),
            old(result)@ + collapse_spec(content@) == result@ + collapse_from(
                content@,
                i as int,
            ),
        decreases content@.len() - i,
    {
        let ghost pre_out = result@;
        let ghost pre_i = i as int;
        let c = content[i];
        if char_is_space(c) {
            let j = ws_run_end_x(content, i);
            proof {
                assert(ws_run_end(content@, pre_i) == ws_run_end(content@, pre_i + 1));
                lemma_ws_run_end(content@, pre_i + 1);
            }
            assert(i < j);
            result.push(' ');
            assert(collapse_from(content@, pre_i) =~= seq![' '] + collapse_from(
                content@,
                j as int,
            ));
            assert(result@ + collapse_from(content@, j as int) =~= pre_out + collapse_from(
                content@,
                pre_i,
            ));
            i = j;
        } else {
            result.push(c);
            assert(collapse_from(content@, pre_i) =~= seq![c] + collapse_from(
                content@,
                pre_i + 1,
            ));
            assert(result@ + collapse_from(content@, pre_i + 1) =~= pre_out + collapse_from(
                content@,
                pre_i,
            ));
            i += 1;
        }
    }
    assert(final(result)@ =~= old(result)@ + collapse_spec(content@));
}

proof fn lemma_ws_run_end_all(s: Seq<char>, i: int)
    requires
        0 <= i <= s.len(),
        forall|k: int| i <= k < s.len() ==> is_space(s[k]),
    ensures
        ws_run_end(s, i) == s.len(),
    decreases s.len() - i,
{
    if i < s.len() {
        lemma_ws_run_end_all(s, i + 1);
    }
}

/// A whitespace-only text node outside pre, script and style collapses
/// to at most one space: one space when it is non-empty, nothing when it
/// is empty.
pub proof fn lemma_collapse_whitespace_only(s: Seq<char>)
    requires
        forall|k: int| 0 <= k < s.len() ==> is_space(s[k]),
    ensures
        collapse_spec(s) == if s.len() == 0 {
            Seq::<char>::empty()
        } else {
            seq![' ']
        },
{
    if s.len() > 0 {
        lemma_ws_run_end_all(s, 0);
        assert(collapse_from(s, 0) =~= seq![' '] + collapse_from(s, s.len() as int));
        assert(seq![' '] + Seq::<char>::empty() =~= seq![' ']);
    }
}

/// The reassembly context: the lowercased latest opened tag name and
/// the three text-dispatch flags.
pub struct Ctx {
    pub tag: Seq<char>,
    pub pre: bool,
    pub script: bool,
    pub style: bool,
}

/// The context a minification call starts from.
pub open spec fn init_ctx() -> Ctx {
    Ctx { tag: Seq::empty(), pre: false, script: false, style: false }
}

/// A tag whose body is kept verbatim.
pub open spec fn pre_tag(t: Seq<char>) -> bool {
    t == "pre"@ || t == "code"@ || t == "textarea"@
}

/// What the reassembler appends for one token in context `ctx`, and the
/// context afterwards.
pub open spec fn emit_tok(tok: TokView, ctx: Ctx) -> (Seq<char>, Ctx) {
    match tok {
        TokView::Doctype(c) => (lower_seq(c), ctx),
        TokView::Comment(_) => (Seq::empty(), ctx),
        TokView::Cdata(c) => (
            seq!['<', '!', '[', 'C', 'D', 'A', 'T', 'A', '['] + c + seq![']', ']', '>'],
            ctx,
        ),
        TokView::TagOpenStart(name) => {
            let t = lower_seq(name);
            (
                seq!['<'] + t,
                Ctx { tag: t, pre: pre_tag(t), script: t == "script"@, style: t == "style"@ },
            )
        },
        TokView::Attribute(a) => (attr_out_spec(a, ctx.tag), ctx),
        TokView::TagOpenEnd => (seq!['>'], ctx),
        TokView::TagSelfClose => (
            if is_singleton_spec(ctx.tag) {
                seq!['>']
            } else {
                seq!['/', '>']
            },
            ctx,
        ),
        TokView::TagClose(name) => {
            let t = lower_seq(name);
            let out = if !is_close_optional_spec(t) {
                seq!['<', '/'] + t + seq!['>']
            } else {
                Seq::empty()
            };
            (
                out,
                Ctx {
                    tag: ctx.tag,
                    pre: if pre_tag(t) {
                        false
                    } else {
                        ctx.pre
                    },
                    script: if t == "script"@ {
                        false
                    } else {
                        ctx.script
                    },
                    style: if t == "style"@ {
                        false
                    } else {
                        ctx.style
                    },
                },
            )
        },
        TokView::TextNode(c) => (
            if ctx.style {
                css_min_spec(c)
            } else if ctx.script {
                js_min_spec(c)
            } else if ctx.pre {
                c
            } else {
                collapse_spec(c)
            },
            ctx,
        ),
    }
}

/// The first-pass output assembled from the token stream of `s`,
/// scanning from position `i` in mode `in_tag` under context `ctx`.
pub open spec fn assemble_from(s: Seq<char>, i: int, in_tag: bool, ctx: Ctx) -> Seq<char>
    decreases s.len() - i,
{
    if 0 <= i <= s.len() {
        match scan_next(s, i, in_tag) {
            Some(res) => {
                if i < res.1 <= s.len() {
                    emit_tok(res.0, ctx).0 + assemble_from(s, res.1, res.2, emit_tok(res.0, ctx).1)
                } else {
                    Seq::empty()
                }
            },
            None => Seq::empty(),
        }
    } else {
        Seq::empty()
    }
}

/// The cleanup pass from position `i` on, with `acc` the output built
/// so far: a whitespace run is dropped at either end of the string,
/// next to `<`, `>` or `=`, and collapses to one space elsewhere.
pub open spec fn cleanup_from(s: Seq<char>, i: int, acc: Seq<char>) -> Seq<char>
    decreases s.len() - i,
{
    if i < 0 || i >= s.len() {
        acc
    } else if is_space(s[i]) {
        let j = ws_run_end(s, i);
        if i < j <= s.len() {
            let dropped = j >= s.len() || s[j] == '<' || s[j] == '=' || acc.len() == 0
                || acc.last() == '>' || acc.last() == '=';
            if dropped {
                cleanup_from(s, j, acc)
            } else {
                cleanup_from(s, j, acc.push(' '))
            }
        } else {
            acc
        }
    } else {
        cleanup_from(s, i + 1, acc.push(s[i]))
    }
}

/// What the cleanup pass returns.
pub open spec fn cleanup_spec(s: Seq<char>) -> Seq<char> {
    trim_spec(cleanup_from(s, 0, Seq::empty()))
}

/// What minifying a whole document returns: the reassembled token
/// stream, run through the cleanup pass.
pub open spec fn html_min_spec(s: Seq<char>) -> Seq<char> {
    cleanup_spec(assemble_from(s, 0, false, init_ctx()))
}

/// The whole-string cleanup pass over the first-pass output.
pub fn cleanup_html_spacing(v: &Vec<char>) -> (r: Vec<char>)
    ensures
        r@ == cleanup_spec(v@),
{
    let mut out: Vec<char> = Vec::new();
    let mut i: usize = 0;
    while i < v.len()
        invariant
            i <= v@.len(),
            cleanup_from(v@, 0, Seq::empty()) == cleanup_from(v@, i as int, out@),
        decreases v@.len() - i,
    {
        let ghost pre_i = i as int;
        let c = v[i];
        if char_is_space(c) {
            let j = ws_run_end_x(v, i);
            proof {
                assert(ws_run_end(v@, pre_i) == ws_run_end(v@, pre_i + 1));
                lemma_ws_run_end(v@, pre_i + 1);
            }
            assert(i < j);
            let dropped = j >= v.len() || v[j] == '<' || v[j] == '=' || out.len() == 0 || out[out.len()
                - 1] == '>' || out[out.len() - 1] == '=';
            if !dropped {
                out.push(' ');
            }
            i = j;
        } else {
            out.push(c);
            i += 1;
        }
    }
    trim_chars(&out)
}

/// Dispatch one token: append what the reassembler emits for it and
/// update the context.
#[verifier::rlimit(50)]
fn apply_token(
    result: &mut Vec<char>,
    token: Token,
    current_tag: &mut Vec<char>,
    in_pre_tag: &mut bool,
    in_script_tag: &mut bool,
    in_style_tag: &mut bool,
)
    ensures
        final(result)@ == old(result)@ + emit_tok(
            token@,
            Ctx {
                tag: old(current_tag)@,
                pre: *old(in_pre_tag),
                script: *old(in_script_tag),
                style: *old(in_style_tag),
            },
        ).0,
        (Ctx {
            tag: final(current_tag)@,
            pre: *final(in_pre_tag),
            script: *final(in_script_tag),
            style: *final(in_style_tag),
        }) == emit_tok(
            token@,
            Ctx {
                tag: old(current_tag)@,
                pre: *old(in_pre_tag),
                script: *old(in_script_tag),
                style: *old(in_style_tag),
            },
        ).1,
{
    let ghost pre_ctx = Ctx {
        tag: current_tag@,
        pre: *in_pre_tag,
        script: *in_script_tag,
        style: *in_style_tag,
    };
    let ghost pre_result = result@;
    match token {
        Token::Doctype(content) => {
            let low = lower_chars(&content);
            push_all(result, &low);
        },
        Token::Comment(_) => {
            assert(result@ =~= pre_result + emit_tok(token@, pre_ctx).0);
        },
        Token::Cdata(content) => {
            result.push('<');
            result.push('!');
            result.push('[');
            result.push('C');
            result.push('D');
            result.push('A');
            result.push('T');
            result.push('A');
            result.push('[');
            push_all(result, &content);
            result.push(']');
            result.push(']');
            result.push('>');
            assert(result@ =~= pre_result + emit_tok(token@, pre_ctx).0);
        },
        Token::TagOpenStart(tag_name) => {
            let low = lower_chars(&tag_name);
            *current_tag = low;
            *in_pre_tag = tag_is(current_tag, "pre") || tag_is(current_tag, "code") || tag_is(
                current_tag,
                "textarea",
            );
            *in_script_tag = tag_is(current_tag, "script");
            *in_style_tag = tag_is(current_tag, "style");
            result.push('<');
            push_all(result, current_tag);
            assert(result@ =~= pre_result + emit_tok(token@, pre_ctx).0);
        },
        Token::Attribute(attr) => {
            process_attribute(result, &attr, current_tag);
        },
        Token::TagOpenEnd => {
            result.push('>');
            assert(result@ =~= pre_result + emit_tok(token@, pre_ctx).0);
        },
        Token::TagSelfClose => {
            if is_singleton_element(current_tag) {
                result.push('>');
            } else {
                result.push('/');
                result.push('>');
            }
            assert(result@ =~= pre_result + emit_tok(token@, pre_ctx).0);
        },
        Token::TagClose(tag_name) => {
            let tag_lower = lower_chars(&tag_name);
            if !is_close_optional(&tag_lower) {
                result.push('<');
                result.push('/');
                push_all(result, &tag_lower);
                result.push('>');
            }
            if tag_is(&tag_lower, "pre") || tag_is(&tag_lower, "code") || tag_is(
                &tag_lower,
                "textarea",
            ) {
                *in_pre_tag = false;
            }
            if tag_is(&tag_lower, "script") {
                *in_script_tag = false;
            }
            if tag_is(&tag_lower, "style") {
                *in_style_tag = false;
            }
            assert(result@ =~= pre_result + emit_tok(token@, pre_ctx).0);
        },
        Token::TextNode(content) => {
            if *in_style_tag {
                let m = minify_css_chars(&content);
                push_all(result, &m);
            } else if *in_script_tag {
                let m = minify_javascript_chars(&content);
                push_all(result, &m);
            } else if *in_pre_tag {
                push_all(result, &content);
            } else {
                append_collapsed_whitespace(result, &content);
            }
        },
    }
}

/// No whitespace survives the cleanup pass next to a tag boundary or an
/// equals sign: every whitespace character of `out` is a single space
/// standing strictly inside the string, not preceded by whitespace, `>`
/// or `=`, and not followed by whitespace, `<` or `=`.
pub open spec fn boundary_space_free(out: Seq<char>) -> bool {
    forall|k: int|
        0 <= k < out.len() && is_space(#[trigger] out[k]) ==> out[k] == ' ' && 0 < k && k + 1 < out.len()
            && !is_space(out[k - 1]) && out[k - 1] != '>' && out[k - 1] != '=' && !is_space(
            out[k + 1],
        ) && out[k + 1] != '<' && out[k + 1] != '='
}

/// The spaces already accumulated sit legally; nothing is known yet of
/// what follows the final character.
spec fn boundary_space_partial(a: Seq<char>) -> bool {
    forall|k: int|
        0 <= k < a.len() && is_space(#[trigger] a[k]) ==> a[k] == ' ' && 0 < k && !is_space(a[k - 1]) && a[k
            - 1] != '>' && a[k - 1] != '=' && (k + 1 < a.len() ==> !is_space(a[k + 1]) && a[k + 1]
            != '<' && a[k + 1] != '=')
}

proof fn lemma_cleanup_from_boundary(s: Seq<char>, i: int, acc: Seq<char>)
    requires
        0 <= i <= s.len(),
        boundary_space_partial(acc),
        acc.len() > 0 && is_space(acc.last()) ==> i < s.len() && !is_space(s[i]) && s[i] != '<'
            && s[i] != '=',
    ensures
        boundary_space_partial(cleanup_from(s, i, acc)),
        cleanup_from(s, i, acc).len() > 0 ==> !is_space(cleanup_from(s, i, acc).last()),
    decreases s.len() - i,
{
    if i < s.len() {
        if is_space(s[i]) {
            let j = ws_run_end(s, i);
            assert(ws_run_end(s, i) == ws_run_end(s, i + 1));
            lemma_ws_run_end(s, i + 1);
            let dropped = j >= s.len() || s[j] == '<' || s[j] == '=' || acc.len() == 0
                || acc.last() == '>' || acc.last() == '=';
            if dropped {
                lemma_cleanup_from_boundary(s, j, acc);
            } else {
                let acc2 = acc.push(' ');
                assert(boundary_space_partial(acc2)) by {
                    assert(!is_space(acc.last()));
                    assert(forall|k: int|
                        0 <= k < acc.len() && is_space(#[trigger] acc2[k]) ==> is_space(acc[k]));
                }
                lemma_cleanup_from_boundary(s, j, acc2);
            }
        } else {
            let acc2 = acc.push(s[i]);
            assert(boundary_space_partial(acc2)) by {
                assert(forall|k: int|
                    0 <= k < acc.len() && is_space(#[trigger] acc2[k]) ==> is_space(acc[k]));
            }
            lemma_cleanup_from_boundary(s, i + 1, acc2);
        }
    }
}

/// After the cleanup pass no whitespace stands at either end of the
/// output, nor adjacent to `<`, `>` or `=`: a whitespace-only stretch
/// that touches a tag boundary vanishes.
pub proof fn lemma_cleanup_no_space_at_boundaries(s: Seq<char>)
    ensures
        boundary_space_free(cleanup_spec(s)),
{
    lemma_cleanup_from_boundary(s, 0, Seq::empty());
    let out = cleanup_from(s, 0, Seq::empty());
    crate::chars::lemma_ws_run_end(out, 0);
    crate::chars::lemma_trail_ws_start(out, out.len() as int);
    if out.len() > 0 {
        assert(!is_space(out[0]));
        assert(ws_run_end(out, 0) == 0);
        assert(trail_ws_start(out, out.len() as int) == out.len());
        assert(cleanup_spec(s) =~= out);
    }
}

/// Minify a whole HTML document: scan it into tokens, reassemble them
/// under the context rules (comments dropped, names lowercased,
/// attributes rewritten, optional closing tags removed, style and
/// script text minified, other text whitespace-collapsed), then run the
/// cleanup pass.
#[verifier::rlimit(100)]
pub fn minify_html_tokens(html: &str) -> (r: String)
    ensures
        r@ == html_min_spec(html@),
{
    let chars = str_to_chars(html);
    let ghost s = chars@;
    let mut tokenizer = Tokenizer::new(chars);
    let mut result: Vec<char> = Vec::new();
    let mut in_pre_tag = false;
    let mut in_script_tag = false;
    let mut in_style_tag = false;
    let mut current_tag: Vec<char> = Vec::new();
    loop
        invariant
            tokenizer.wf(),
            tokenizer.src() == s,
            0 <= tokenizer.pos() <= s.len(),
            assemble_from(s, 0, false, init_ctx()) == result@ + assemble_from(
                s,
                tokenizer.pos(),
                tokenizer.tag_mode(),
                Ctx { tag: current_tag@, pre: in_pre_tag, script: in_script_tag, style: in_style_tag },
            ),
        decreases s.len() - tokenizer.pos(),
    {
        let ghost pre_pos = tokenizer.pos();
        let ghost pre_mode = tokenizer.tag_mode();
        let ghost pre_ctx = Ctx {
            tag: current_tag@,
            pre: in_pre_tag,
            script: in_script_tag,
            style: in_style_tag,
        };
        let ghost pre_result = result@;
        let next = tokenizer.next_token();
        match next {
            None => {
                break ;
            },
            Some(token) => {
                proof {
                    lemma_scan_next_advances(s, pre_pos, pre_mode);
                }
                let ghost res = scan_next(s, pre_pos, pre_mode).unwrap();
                let ghost step = emit_tok(res.0, pre_ctx);
                assert(assemble_from(s, pre_pos, pre_mode, pre_ctx) == step.0 + assemble_from(
                    s,
                    res.1,
                    res.2,
                    step.1,
                ));
                apply_token(
                    &mut result,
                    token,
                    &mut current_tag,
                    &mut in_pre_tag,
                    &mut in_script_tag,
                    &mut in_style_tag,
                );
                proof {
                    let cur_ctx = Ctx {
                        tag: current_tag@,
                        pre: in_pre_tag,
                        script: in_script_tag,
                        style: in_style_tag,
                    };
                    assert(cur_ctx == step.1);
                    assert(result@ + assemble_from(s, tokenizer.pos(), tokenizer.tag_mode(), cur_ctx)
                        =~= pre_result + assemble_from(s, pre_pos, pre_mode, pre_ctx));
                }
            },
        }
    }
    proof {
        assert(assemble_from(
            s,
            tokenizer.pos(),
            tokenizer.tag_mode(),
            Ctx { tag: current_tag@, pre: in_pre_tag, script: in_script_tag, style: in_style_tag },
        ) =~= Seq::<char>::empty());
        assert(result@ =~= assemble_from(s, 0, false, init_ctx()));
    }
    let cleaned = cleanup_html_spacing(&result);
    chars_to_string(&cleaned)
}

} // verus!
