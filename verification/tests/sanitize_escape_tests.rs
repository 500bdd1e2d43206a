use language_tabs::escape::{escape_html_attribute_value, escape_html_text_content,
    encode_code_content};
use language_tabs::sanitize::sanitize_identifier;

fn b(s: &str) -> Vec<u8> {
    s.as_bytes().to_vec()
}

#[test]
fn sanitize_mixed_symbols_collapse() {
    assert_eq!(sanitize_identifier("C++ / Go!".as_bytes()), b("c-go"));
}

#[test]
fn sanitize_empty_falls_back() {
    assert_eq!(sanitize_identifier("".as_bytes()), b("language-tab"));
}

#[test]
fn sanitize_only_symbols_falls_back() {
    assert_eq!(sanitize_identifier("++ // !!".as_bytes()), b("language-tab"));
}

#[test]
fn sanitize_already_clean_is_unchanged() {
    assert_eq!(sanitize_identifier("already-ok".as_bytes()), b("already-ok"));
}

#[test]
fn sanitize_lowercases_and_trims() {
    assert_eq!(sanitize_identifier("  Hello World 9  ".as_bytes()), b("hello-world-9"));
}

#[test]
fn escape_text_clean_is_identity() {
    assert_eq!(escape_html_text_content("plain text 123".as_bytes()), b("plain text 123"));
}

#[test]
fn escape_attribute_clean_is_identity() {
    assert_eq!(escape_html_attribute_value("plain-text".as_bytes()), b("plain-text"));
}

#[test]
fn escape_text_rewrites_amp_lt_gt_only() {
    assert_eq!(
        escape_html_text_content("a&b<c>d\"e'f".as_bytes()),
        b("a&amp;b&lt;c&gt;d\"e'f")
    );
}

#[test]
fn escape_attribute_rewrites_quotes_too() {
    assert_eq!(
        escape_html_attribute_value("a&b<c>d\"e'f".as_bytes()),
        b("a&amp;b&lt;c&gt;d&quot;e&#39;f")
    );
}

#[test]
fn encode_code_rewrites_newlines() {
    assert_eq!(encode_code_content("a\nb&c".as_bytes()), b("a&#10;b&amp;c"));
}
