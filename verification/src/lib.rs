//! A lexical minifier for HTML documents with embedded CSS and JavaScript.
//!
//! The library shortens markup without building a tree: a single-pass
//! scanner turns the input into a token stream, a reassembler applies
//! context-sensitive normalization rules (comment removal, optional
//! closing tags, default attribute values, quote elision), and dedicated
//! character-stream passes minify style and script text.
#![verifier::loop_isolation(false)]

pub mod attrs;
pub mod chars;
pub mod html;
pub mod cssmin;
pub mod jsmin;
pub mod tables;
pub mod tokenizer;

pub use attrs::process_attribute;
pub use attrs::process_class_attribute;
pub use attrs::process_style_attribute;
pub use attrs::should_remove_quotes;
pub use chars::is_space;
pub use html::append_collapsed_whitespace;
pub use html::cleanup_html_spacing;
pub use html::minify_html_tokens;
pub use tokenizer::Token;
pub use tokenizer::Tokenizer;
pub use cssmin::minify_css;
pub use jsmin::minify_javascript;
pub use tables::is_singleton_element;
pub use tables::is_close_optional;
pub use tables::is_boolean_attribute;
pub use tables::is_empty_removable;
pub use tables::has_default_value;
