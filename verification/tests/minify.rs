//! End-to-end behaviour of the HTML, CSS and JavaScript minifiers.
use htmlmin::minify_css;
use htmlmin::minify_html_tokens;
use htmlmin::minify_javascript;

fn chars(s: &str) -> Vec<char> {
    s.chars().collect()
}

#[test]
fn minify_twice_equals_minify_once() {
    let input = "<div class=\"a  b\">\n  <p>Hello   world</p>\n  <img src=\"a.png\"/>\n</div>";
    let once = minify_html_tokens(input);
    let twice = minify_html_tokens(&once);
    assert_eq!(once, twice);
}

#[test]
fn minify_twice_plain_text() {
    let input = "Hello   world, this  is text.";
    let once = minify_html_tokens(input);
    let twice = minify_html_tokens(&once);
    assert_eq!(once, twice);
}

#[test]
fn whitespace_only_text_vanishes_at_tag_boundary() {
    assert_eq!(minify_html_tokens("<p>   </p>"), "<p>");
    assert_eq!(minify_html_tokens("<b> x </b>"), "<b>x</b>");
}

#[test]
fn quotes_dropped_and_self_close_dropped_for_singleton() {
    assert_eq!(minify_html_tokens("<img src=\"a.png\"/>"), "<img src=a.png>");
}

#[test]
fn self_close_kept_for_non_singleton() {
    assert_eq!(minify_html_tokens("<div/>"), "<div/>");
}

#[test]
fn close_optional_tags_dropped() {
    assert_eq!(
        minify_html_tokens("<ul><li>a</li><li>b</li></ul>"),
        "<ul><li>a<li>b</ul>"
    );
}

#[test]
fn boolean_attribute_value_dropped() {
    assert_eq!(minify_html_tokens("<input disabled=\"disabled\">"), "<input disabled>");
    assert_eq!(minify_html_tokens("<input disabled=\"false\">"), "<input disabled>");
}

#[test]
fn default_script_type_dropped() {
    assert_eq!(
        minify_html_tokens("<script type=\"text/javascript\">var x=1;</script>"),
        "<script>var x=1;</script>"
    );
}

#[test]
fn comment_removed() {
    assert_eq!(minify_html_tokens("<!-- drop --><p>Hi</p>"), "<p>Hi");
    assert_eq!(minify_html_tokens("<p>Hi"), "<p>Hi");
}

#[test]
fn unterminated_comment_removed() {
    assert_eq!(minify_html_tokens("<!-- never closed"), "");
}

#[test]
fn generic_special_markup_dropped() {
    assert_eq!(minify_html_tokens("<!foo><p>a</p>"), "<p>a");
}

#[test]
fn doctype_lowercased() {
    assert_eq!(minify_html_tokens("<!DOCTYPE html><p>x</p>"), "<!doctype html><p>x");
}

#[test]
fn cdata_reemitted() {
    assert_eq!(
        minify_html_tokens("<x><![CDATA[a&b]]></x>"),
        "<x><![CDATA[a&b]]></x>"
    );
}

#[test]
fn pre_interior_collapsed_by_cleanup_pass() {
    // The cleanup pass is a whole-string pass, so even text inside a
    // pre element has its whitespace runs collapsed and its run before
    // the closing tag dropped.
    assert_eq!(minify_html_tokens("<pre>  a\n b  </pre>"), "<pre>a b</pre>");
}

#[test]
fn tag_names_lowercased() {
    assert_eq!(minify_html_tokens("<DIV CLASS=\"x\">a</DIV>"), "<div class=x>a</div>");
}

#[test]
fn empty_removable_attribute_dropped() {
    assert_eq!(minify_html_tokens("<img alt=\"\">"), "<img>");
    assert_eq!(minify_html_tokens("<a id=\"\">x</a>"), "<a>x</a>");
}

#[test]
fn bare_attribute_kept_unless_removable() {
    assert_eq!(minify_html_tokens("<a target>x</a>"), "<a>x</a>");
    assert_eq!(minify_html_tokens("<a rel>x</a>"), "<a rel>x</a>");
}

#[test]
fn default_form_method_dropped() {
    assert_eq!(minify_html_tokens("<form method=\"get\">x</form>"), "<form>x</form>");
    assert_eq!(
        minify_html_tokens("<form method=\"post\">x</form>"),
        "<form method=post>x</form>"
    );
}

#[test]
fn style_attribute_minified() {
    assert_eq!(
        minify_html_tokens("<p style=\"color : red ;\">x</p>"),
        "<p style=\"color: red\">x"
    );
}

#[test]
fn class_attribute_collapsed() {
    assert_eq!(
        minify_html_tokens("<p class=\"a   b\">x</p>"),
        "<p class=\"a b\">x"
    );
}

#[test]
fn quote_elision_refused_for_unsafe_values() {
    assert_eq!(
        minify_html_tokens("<a href=\"x?y=1\">z</a>"),
        "<a href=\"x?y=1\">z</a>"
    );
    assert_eq!(
        minify_html_tokens("<a href=\"/x/y.html\">z</a>"),
        "<a href=/x/y.html>z</a>"
    );
}

#[test]
fn css_rule_minified() {
    // Whitespace that follows a separator is dropped; whitespace that
    // precedes one collapses to a single space, and a trailing
    // semicolon is kept.
    assert_eq!(minify_css(".a  {  color : red ;  }"), ".a {color :red ;}");
}

#[test]
fn css_comment_stripped() {
    assert_eq!(minify_css("a /* note */ b"), "a b");
    assert_eq!(minify_css("/* only a comment */"), "");
}

#[test]
fn css_whitespace_after_separators_dropped() {
    assert_eq!(minify_css("a{ color:red }"), "a{color:red }");
    assert_eq!(minify_css("a ,  b"), "a ,b");
}

#[test]
fn js_string_literal_kept_comment_stripped() {
    assert_eq!(
        minify_javascript("var s = \"a // b\"; // comment"),
        "var s=\"a // b\";"
    );
}

#[test]
fn js_escaped_quote_does_not_end_literal() {
    assert_eq!(minify_javascript("x = \"a\\\"b\";"), "x=\"a\\\"b\";");
}

#[test]
fn js_block_comment_stripped() {
    assert_eq!(minify_javascript("a /* gone */ b"), "a b");
}

#[test]
fn js_space_kept_only_between_word_characters() {
    assert_eq!(minify_javascript("let  x = 1 ;"), "let x=1;");
    assert_eq!(minify_javascript("  return x  "), "return x");
}

#[test]
fn js_empty_input() {
    assert_eq!(minify_javascript(""), "");
    assert_eq!(minify_css(""), "");
    assert_eq!(minify_html_tokens(""), "");
}

#[test]
fn table_lookups() {
    assert!(htmlmin::is_singleton_element(&chars("img")));
    assert!(!htmlmin::is_singleton_element(&chars("div")));
    assert!(htmlmin::is_close_optional(&chars("li")));
    assert!(!htmlmin::is_close_optional(&chars("ul")));
    assert!(htmlmin::is_boolean_attribute(&chars("disabled")));
    assert!(!htmlmin::is_boolean_attribute(&chars("href")));
    assert!(htmlmin::is_empty_removable(&chars("id")));
    assert!(!htmlmin::is_empty_removable(&chars("rel")));
    assert!(htmlmin::has_default_value(&chars("input"), &chars("type"), &chars("text")));
    assert!(!htmlmin::has_default_value(&chars("input"), &chars("type"), &chars("radio")));
}

#[test]
fn quote_safety_checks() {
    assert!(htmlmin::should_remove_quotes(&chars("a.png")));
    assert!(htmlmin::should_remove_quotes(&chars("x-1_2.3:4/5#6@7%8!9*0~a")));
    assert!(!htmlmin::should_remove_quotes(&chars("")));
    assert!(!htmlmin::should_remove_quotes(&chars("a b")));
    assert!(!htmlmin::should_remove_quotes(&chars("a=b")));
    assert!(!htmlmin::should_remove_quotes(&chars("a&b")));
}

#[test]
fn style_and_class_sub_minifiers() {
    let styled = htmlmin::process_style_attribute(&chars("\tcolor :\nred ;;"));
    let s: String = styled.into_iter().collect();
    assert_eq!(s, "color: red;");
    let classed = htmlmin::process_class_attribute(&chars("  a \t b "));
    let c: String = classed.into_iter().collect();
    assert_eq!(c, "a b ");
}

#[test]
fn text_whitespace_runs_collapse_to_one_space() {
    assert_eq!(minify_html_tokens("a \t\n b"), "a b");
}

#[test]
fn style_element_content_minified() {
    assert_eq!(
        minify_html_tokens("<style>h1 { color : red }</style>"),
        "<style>h1 {color :red }</style>"
    );
}

#[test]
fn unquoted_attribute_value() {
    assert_eq!(minify_html_tokens("<a href=x>y</a>"), "<a href=x>y</a>");
}

#[test]
fn malformed_input_survives() {
    assert_eq!(
        minify_html_tokens("<a href=\"unterminated>x"),
        "<a href=\"\"unterminated>x\""
    );
    assert_eq!(minify_html_tokens("text < not a tag"), "text< not a tag");
    assert_eq!(minify_html_tokens("<"), "");
}
