//! The static rule tables: void elements, close-optional elements,
//! boolean attributes, empty-removable attributes and default attribute
//! values.  Pure lookups, constant for the process lifetime.
use vstd::prelude::*;

use crate::chars::tag_is;

verus! {

/// A void element: it has no content model and no closing tag.
pub open spec fn is_singleton_spec(t: Seq<char>) -> bool {
    t == "area"@ || t == "base"@ || t == "br"@ || t == "col"@ || t == "embed"@ || t == "hr"@
        || t == "img"@ || t == "input"@ || t == "link"@ || t == "meta"@ || t == "param"@
        || t == "source"@ || t == "track"@ || t == "wbr"@
}

pub fn is_singleton_element(tag: &Vec<char>) -> (r: bool)
    ensures
        r == is_singleton_spec(tag@),
{
    tag_is(tag, "area") || tag_is(tag, "base") || tag_is(tag, "br") || tag_is(tag, "col")
        || tag_is(tag, "embed") || tag_is(tag, "hr") || tag_is(tag, "img") || tag_is(tag, "input")
        || tag_is(tag, "link") || tag_is(tag, "meta") || tag_is(tag, "param")
        || tag_is(tag, "source") || tag_is(tag, "track") || tag_is(tag, "wbr")
}

/// An element whose end tag may be omitted.
pub open spec fn is_close_optional_spec(t: Seq<char>) -> bool {
    t == "p"@ || t == "dt"@ || t == "dd"@ || t == "li"@ || t == "option"@ || t == "thead"@
        || t == "th"@ || t == "tbody"@ || t == "tr"@ || t == "td"@ || t == "tfoot"@
        || t == "colgroup"@
}

pub fn is_close_optional(tag: &Vec<char>) -> (r: bool)
    ensures
        r == is_close_optional_spec(tag@),
{
    tag_is(tag, "p") || tag_is(tag, "dt") || tag_is(tag, "dd") || tag_is(tag, "li")
        || tag_is(tag, "option") || tag_is(tag, "thead") || tag_is(tag, "th")
        || tag_is(tag, "tbody") || tag_is(tag, "tr") || tag_is(tag, "td")
        || tag_is(tag, "tfoot") || tag_is(tag, "colgroup")
}

/// An attribute whose mere presence conveys true, whatever value it is
/// written with.
pub open spec fn is_boolean_attribute_spec(a: Seq<char>) -> bool {
    a == "allowfullscreen"@ || a == "async"@ || a == "autofocus"@ || a == "autoplay"@
        || a == "checked"@ || a == "controls"@ || a == "default"@ || a == "defer"@
        || a == "disabled"@ || a == "formnovalidate"@ || a == "hidden"@ || a == "inert"@
        || a == "ismap"@ || a == "itemscope"@ || a == "loop"@ || a == "multiple"@
        || a == "muted"@ || a == "nomodule"@ || a == "novalidate"@ || a == "open"@
        || a == "playsinline"@ || a == "readonly"@ || a == "required"@ || a == "reversed"@
        || a == "selected"@ || a == "typemustmatch"@
}

pub fn is_boolean_attribute(attr: &Vec<char>) -> (r: bool)
    ensures
        r == is_boolean_attribute_spec(attr@),
{
    tag_is(attr, "allowfullscreen") || tag_is(attr, "async") || tag_is(attr, "autofocus")
        || tag_is(attr, "autoplay") || tag_is(attr, "checked") || tag_is(attr, "controls")
        || tag_is(attr, "default") || tag_is(attr, "defer") || tag_is(attr, "disabled")
        || tag_is(attr, "formnovalidate") || tag_is(attr, "hidden") || tag_is(attr, "inert")
        || tag_is(attr, "ismap") || tag_is(attr, "itemscope") || tag_is(attr, "loop")
        || tag_is(attr, "multiple") || tag_is(attr, "muted") || tag_is(attr, "nomodule")
        || tag_is(attr, "novalidate") || tag_is(attr, "open") || tag_is(attr, "playsinline")
        || tag_is(attr, "readonly") || tag_is(attr, "required") || tag_is(attr, "reversed")
        || tag_is(attr, "selected") || tag_is(attr, "typemustmatch")
}

/// An attribute safely dropped when its value is empty, and dropped as a
/// bare attribute as well.
pub open spec fn is_empty_removable_spec(a: Seq<char>) -> bool {
    a == "id"@ || a == "class"@ || a == "style"@ || a == "title"@ || a == "action"@
        || a == "lang"@ || a == "dir"@ || a == "onfocus"@ || a == "onblur"@ || a == "onchange"@
        || a == "onclick"@ || a == "ondblclick"@ || a == "onmousedown"@ || a == "onmouseup"@
        || a == "onmouseover"@ || a == "onmousemove"@ || a == "onmouseout"@ || a == "onkeypress"@
        || a == "onkeydown"@ || a == "onkeyup"@ || a == "target"@
}

pub fn is_empty_removable(attr: &Vec<char>) -> (r: bool)
    ensures
        r == is_empty_removable_spec(attr@),
{
    tag_is(attr, "id") || tag_is(attr, "class") || tag_is(attr, "style") || tag_is(attr, "title")
        || tag_is(attr, "action") || tag_is(attr, "lang") || tag_is(attr, "dir")
        || tag_is(attr, "onfocus") || tag_is(attr, "onblur") || tag_is(attr, "onchange")
        || tag_is(attr, "onclick") || tag_is(attr, "ondblclick") || tag_is(attr, "onmousedown")
        || tag_is(attr, "onmouseup") || tag_is(attr, "onmouseover") || tag_is(attr, "onmousemove")
        || tag_is(attr, "onmouseout") || tag_is(attr, "onkeypress") || tag_is(attr, "onkeydown")
        || tag_is(attr, "onkeyup") || tag_is(attr, "target")
}

/// A (tag, attribute, value) triple equal to the attribute's implicit
/// default, hence omittable.
pub open spec fn has_default_value_spec(t: Seq<char>, a: Seq<char>, v: Seq<char>) -> bool {
    (t == "script"@ && a == "type"@ && v == "text/javascript"@)
        || (t == "style"@ && a == "type"@ && v == "text/css"@)
        || (t == "style"@ && a == "media"@ && v == "all"@)
        || (t == "form"@ && a == "method"@ && v == "get"@)
        || (t == "form"@ && a == "autocomplete"@ && v == "on"@)
        || (t == "form"@ && a == "enctype"@ && v == "application/x-www-form-urlencoded"@)
        || (t == "input"@ && a == "type"@ && v == "text"@)
        || (t == "button"@ && a == "type"@ && v == "submit"@)
}

pub fn has_default_value(tag: &Vec<char>, attr: &Vec<char>, value: &Vec<char>) -> (r: bool)
    ensures
        r == has_default_value_spec(tag@, attr@, value@),
{
    (tag_is(tag, "script") && tag_is(attr, "type") && tag_is(value, "text/javascript"))
        || (tag_is(tag, "style") && tag_is(attr, "type") && tag_is(value, "text/css"))
        || (tag_is(tag, "style") && tag_is(attr, "media") && tag_is(value, "all"))
        || (tag_is(tag, "form") && tag_is(attr, "method") && tag_is(value, "get"))
        || (tag_is(tag, "form") && tag_is(attr, "autocomplete") && tag_is(value, "on"))
        || (tag_is(tag, "form") && tag_is(attr, "enctype") && tag_is(
        value,
        "application/x-www-form-urlencoded",
    )) || (tag_is(tag, "input") && tag_is(attr, "type") && tag_is(value, "text"))
        || (tag_is(tag, "button") && tag_is(attr, "type") && tag_is(value, "submit"))
}

} // verus!
