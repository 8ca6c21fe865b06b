//! The attribute rule engine: decides, per raw attribute token and
//! enclosing tag, whether to drop, rewrite or pass the attribute
//! through, with sub-minifiers for `style` and `class` values and with
//! quote elision.
use vstd::prelude::*;

use crate::chars::{
    alnum, char_is_alphanumeric, char_is_space, copy_range, find_char, find_char_from, is_space,
    lemma_ws_run_end, lower_chars, lower_seq, push_all, tag_is, trim_chars, trim_spec, ws_run_end,
    ws_run_end_x,
};
use crate::tables::{
    has_default_value, has_default_value_spec, is_boolean_attribute, is_boolean_attribute_spec,
    is_empty_removable, is_empty_removable_spec,
};

verus! {

/// A character that forces an attribute value to stay quoted.
pub open spec fn quote_breaker(c: char) -> bool {
    c == '"' || c == '\'' || c == '`' || c == '=' || c == '<' || c == '>' || c == '&' || c == '?'
        || c == '{' || c == '}' || c == '[' || c == ']' || c == '(' || c == ')' || c == ';'
        || c == ',' || c == '+'
}

/// A punctuation character allowed in an unquoted attribute value.
pub open spec fn plain_punct(c: char) -> bool {
    c == '-' || c == '_' || c == '.' || c == ':' || c == '/' || c == '#' || c == '@' || c == '%'
        || c == '!' || c == '*' || c == '~'
}

/// Whether a processed attribute value may be written without quotes: it
/// is non-empty and every character is a letter, a digit or an allowed
/// punctuation character.
pub open spec fn should_remove_quotes_spec(v: Seq<char>) -> bool {
    v.len() > 0 && forall|k: int|
        0 <= k < v.len() ==> !is_space(v[k]) && !quote_breaker(v[k]) && (alnum(v[k])
            || plain_punct(v[k]))
}

pub fn should_remove_quotes(value: &Vec<char>) -> (r: bool)
    ensures
        r == should_remove_quotes_spec(value@),
{
    if value.len() == 0 {
        return false;
    }
    let mut i: usize = 0;
    while i < value.len()
        invariant
            i <= value@.len(),
            forall|k: int|
                0 <= k < i ==> !is_space(value@[k]) && !quote_breaker(value@[k]) && (alnum(
                    value@[k],
                ) || plain_punct(value@[k])),
        decreases value@.len() - i,
    {
        let c = value[i];
        if char_is_space(c) {
            return false;
        }
        if c == '"' || c == '\'' || c == '`' || c == '=' || c == '<' || c == '>' || c == '&'
            || c == '?' || c == '{' || c == '}' || c == '[' || c == ']' || c == '(' || c == ')'
            || c == ';' || c == ',' || c == '+' {
            return false;
        }
        let punct = c == '-' || c == '_' || c == '.' || c == ':' || c == '/' || c == '#'
            || c == '@' || c == '%' || c == '!' || c == '*' || c == '~';
        if !(char_is_alphanumeric(c) || punct) {
            return false;
        }
        i += 1;
    }
    true
}

/// First normalization step of a `style` value: tabs and newlines become
/// spaces, carriage returns are dropped.
pub open spec fn style_pre(s: Seq<char>, i: int) -> Seq<char>
    decreases s.len() - i,
{
    if i < 0 || i >= s.len() {
        Seq::empty()
    } else if s[i] == '\r' {
        style_pre(s, i + 1)
    } else if s[i] == '\t' || s[i] == '\n' {
        seq![' '] + style_pre(s, i + 1)
    } else {
        seq![s[i]] + style_pre(s, i + 1)
    }
}

/// Remove the run of spaces a style value accumulated before a `:` or
/// `;`.
pub open spec fn strip_trailing_sp(a: Seq<char>) -> Seq<char>
    decreases a.len(),
{
    if a.len() > 0 && a.last() == ' ' {
        strip_trailing_sp(a.drop_last())
    } else {
        a
    }
}

/// Second normalization step of a `style` value: collapse spaces and
/// drop any spaces directly before a `:` or `;`.
pub open spec fn style_loop(s: Seq<char>, i: int, acc: Seq<char>) -> Seq<char>
    decreases s.len() - i,
{
    if i < 0 || i >= s.len() {
        acc
    } else {
        let c = s[i];
        if c == ' ' {
            style_loop(
                s,
                i + 1,
                if acc.len() > 0 && acc.last() == ' ' {
                    acc
                } else {
                    acc.push(' ')
                },
            )
        } else if c == ':' || c == ';' {
            style_loop(s, i + 1, strip_trailing_sp(acc).push(c))
        } else {
            style_loop(s, i + 1, acc.push(c))
        }
    }
}

/// Drop one trailing semicolon, if any.
pub open spec fn strip_one_semi(a: Seq<char>) -> Seq<char> {
    if a.len() > 0 && a.last() == ';' {
        a.drop_last()
    } else {
        a
    }
}

/// What the `style` attribute sub-minifier returns.
pub open spec fn style_attr_spec(v: Seq<char>) -> Seq<char> {
    trim_spec(strip_one_semi(style_loop(style_pre(v, 0), 0, Seq::empty())))
}

pub fn process_style_attribute(value: &Vec<char>) -> (r: Vec<char>)
    ensures
        r@ == style_attr_spec(value@),
{
    let mut pre: Vec<char> = Vec::new();
    let mut i: usize = 0;
    while i < value.len()
        invariant
            i <= value@.len(),
            style_pre(value@, 0) == pre@ + style_pre(value@, i as int),
        decreases value@.len() - i,
    {
        let ghost p = pre@;
        let c = value[i];
        if c == '\r' {
        } else if c == '\t' || c == '\n' {
            pre.push(' ');
            assert(p + style_pre(value@, i as int) =~= pre@ + style_pre(value@, i as int + 1));
        } else {
            pre.push(c);
            assert(p + style_pre(value@, i as int) =~= pre@ + style_pre(value@, i as int + 1));
        }
        i += 1;
    }
    assert(pre@ =~= style_pre(value@, 0));
    let mut acc: Vec<char> = Vec::new();
    let mut j: usize = 0;
    while j < pre.len()
        invariant
            j <= pre@.len(),
            style_loop(pre@, 0, Seq::empty()) == style_loop(pre@, j as int, acc@),
        decreases pre@.len() - j,
    {
        let c = pre[j];
        if c == ' ' {
            if !(acc.len() > 0 && acc[acc.len() - 1] == ' ') {
                acc.push(' ');
            }
        } else if c == ':' || c == ';' {
            let ghost acc0 = acc@;
            while acc.len() > 0 && acc[acc.len() - 1] == ' '
                invariant
                    strip_trailing_sp(acc@) == strip_trailing_sp(acc0),
                decreases acc@.len(),
            {
                let _ = acc.pop();
            }
            assert(strip_trailing_sp(acc@) == acc@);
            acc.push(c);
        } else {
            acc.push(c);
        }
        j += 1;
    }
    assert(acc@ == style_loop(pre@, 0, Seq::empty()));
    let ghost before_semi = acc@;
    if acc.len() > 0 && acc[acc.len() - 1] == ';' {
        acc.pop();
    }
    assert(acc@ == strip_one_semi(before_semi));
    trim_chars(&acc)
}

/// What the `class` attribute sub-minifier returns from position `i` on:
/// whitespace runs collapse to one space, except before the first token.
pub open spec fn class_from(s: Seq<char>, i: int, started: bool) -> Seq<char>
    decreases s.len() - i,
{
    if i < 0 || i >= s.len() {
        Seq::empty()
    } else if is_space(s[i]) {
        let j = ws_run_end(s, i);
        if i < j <= s.len() {
            if started {
                seq![' '] + class_from(s, j, started)
            } else {
                class_from(s, j, started)
            }
        } else {
            Seq::empty()
        }
    } else {
        seq![s[i]] + class_from(s, i + 1, true)
    }
}

/// What the `class` attribute sub-minifier returns.
pub open spec fn class_attr_spec(v: Seq<char>) -> Seq<char> {
    class_from(v, 0, false)
}

pub fn process_class_attribute(value: &Vec<char>) -> (r: Vec<char>)
    ensures
        r@ == class_attr_spec(value@),
{
    let mut out: Vec<char> = Vec::new();
    let mut started = false;
    let mut i: usize = 0;
    while i < value.len()
        invariant
            i <= value@.len(),
            class_from(value@, 0, false) == out@ + class_from(value@, i as int, started),
            started == (out@.len() > 0),
        decreases value@.len() - i,
    {
        let ghost pre_out = out@;
        let ghost pre_i = i as int;
        let c = value[i];
        if char_is_space(c) {
            let j = ws_run_end_x(value, i);
            proof {
                assert(ws_run_end(value@, pre_i) == ws_run_end(value@, pre_i + 1));
                lemma_ws_run_end(value@, pre_i + 1);
            }
            assert(i < j);
            if started {
                out.push(' ');
                assert(class_from(value@, pre_i, true) =~= seq![' '] + class_from(
                    value@,
                    j as int,
                    true,
                ));
                assert(out@ + class_from(value@, j as int, started) =~= pre_out + class_from(
                    value@,
                    pre_i,
                    started,
                ));
            } else {
                assert(class_from(value@, pre_i, false) == class_from(value@, j as int, false));
            }
            i = j;
        } else {
            out.push(c);
            assert(class_from(value@, pre_i, started) =~= seq![c] + class_from(
                value@,
                pre_i + 1,
                true,
            ));
            assert(out@ + class_from(value@, pre_i + 1, true) =~= pre_out + class_from(
                value@,
                pre_i,
                started,
            ));
            started = true;
            i += 1;
        }
    }
    assert(out@ =~= class_from(value@, 0, false));
    out
}

/// A key whose attribute is dropped when its value is empty even
/// outside the empty-removable table.
pub open spec fn forced_empty_removable(k: Seq<char>) -> bool {
    k == "type"@ || k == "value"@ || k == "alt"@ || k == "title"@
}

/// What the attribute rule engine appends for one raw attribute token
/// `a` inside the tag `tag`: nothing, a bare ` key`, or ` key=value`
/// with the value processed and quoted only when needed.  The rules
/// apply in order, first match wins: boolean attribute, empty removal,
/// default-value removal, pass-through.
pub open spec fn attr_out_spec(a: Seq<char>, tag: Seq<char>) -> Seq<char> {
    let t = trim_spec(a);
    if t.len() == 0 {
        Seq::empty()
    } else {
        let e = find_char(t, 0, '=');
        if e < t.len() {
            let key = lower_seq(trim_spec(t.subrange(0, e)));
            let raw = trim_spec(t.subrange(e + 1, t.len() as int));
            let value = if raw.len() >= 2 && ((raw[0] == '"' && raw[raw.len() - 1] == '"') || (
            raw[0] == '\'' && raw[raw.len() - 1] == '\'')) {
                raw.subrange(1, raw.len() - 1)
            } else {
                raw
            };
            if is_boolean_attribute_spec(key) {
                seq![' '] + key
            } else if value.len() == 0 && (is_empty_removable_spec(key) || forced_empty_removable(
                key,
            )) {
                Seq::empty()
            } else if has_default_value_spec(tag, key, value) {
                Seq::empty()
            } else {
                let pv = if key == "style"@ {
                    style_attr_spec(value)
                } else if key == "class"@ && find_char(value, 0, ' ') < value.len() {
                    class_attr_spec(value)
                } else {
                    value
                };
                let quoted = if should_remove_quotes_spec(pv) {
                    pv
                } else {
                    seq!['"'] + pv + seq!['"']
                };
                seq![' '] + key + seq!['='] + quoted
            }
        } else {
            let key = lower_seq(t);
            if is_empty_removable_spec(key) {
                Seq::empty()
            } else {
                seq![' '] + key
            }
        }
    }
}

/// Run the attribute rule engine on one raw attribute token and append
/// its output to `result`.
pub fn process_attribute(result: &mut Vec<char>, attr: &Vec<char>, current_tag: &Vec<char>)
    ensures
        final(result)@ == old(result)@ + attr_out_spec(attr@, current_tag@),
{
    let t = trim_chars(attr);
    if t.len() == 0 {
        assert(result@ =~= old(result)@ + attr_out_spec(attr@, current_tag@));
        return ;
    }
    let e = find_char_from(&t, 0, '=');
    if e < t.len() {
        let keyraw = copy_range(&t, 0, e);
        let keytrim = trim_chars(&keyraw);
        let key = lower_chars(&keytrim);
        let rawpart = copy_range(&t, e + 1, t.len());
        let raw = trim_chars(&rawpart);
        let quoted2 = raw.len() >= 2 && ((raw[0] == '"' && raw[raw.len() - 1] == '"') || (raw[0]
            == '\'' && raw[raw.len() - 1] == '\''));
        let value = if quoted2 {
            copy_range(&raw, 1, raw.len() - 1)
        } else {
            copy_range(&raw, 0, raw.len())
        };
        proof {
            assert(raw@.subrange(0, raw@.len() as int) =~= raw@);
        }
        if is_boolean_attribute(&key) {
            result.push(' ');
            push_all(result, &key);
            assert(result@ =~= old(result)@ + attr_out_spec(attr@, current_tag@));
            return ;
        }
        if value.len() == 0 {
            if is_empty_removable(&key) || tag_is(&key, "type") || tag_is(&key, "value") || tag_is(
                &key,
                "alt",
            ) || tag_is(&key, "title") {
                assert(result@ =~= old(result)@ + attr_out_spec(attr@, current_tag@));
                return ;
            }
        }
        if has_default_value(current_tag, &key, &value) {
            assert(result@ =~= old(result)@ + attr_out_spec(attr@, current_tag@));
            return ;
        }
        let pv = if tag_is(&key, "style") {
            process_style_attribute(&value)
        } else if tag_is(&key, "class") && find_char_from(&value, 0, ' ') < value.len() {
            process_class_attribute(&value)
        } else {
            copy_range(&value, 0, value.len())
        };
        proof {
            assert(value@.subrange(0, value@.len() as int) =~= value@);
        }
        result.push(' ');
        push_all(result, &key);
        result.push('=');
        if should_remove_quotes(&pv) {
            push_all(result, &pv);
        } else {
            result.push('"');
            push_all(result, &pv);
            result.push('"');
        }
        assert(result@ =~= old(result)@ + attr_out_spec(attr@, current_tag@));
    } else {
        let key = lower_chars(&t);
        if is_empty_removable(&key) {
            assert(result@ =~= old(result)@ + attr_out_spec(attr@, current_tag@));
            return ;
        }
        result.push(' ');
        push_all(result, &key);
        assert(result@ =~= old(result)@ + attr_out_spec(attr@, current_tag@));
    }
}

} // verus!
