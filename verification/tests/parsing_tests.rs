use language_tabs::attrs::parse_attribute_value;
use language_tabs::fence::extract_first_fenced_code_block;
use language_tabs::item::has_default_attribute;
use language_tabs::rewrite::supports_renderer;

fn b(s: &str) -> Vec<u8> {
    s.as_bytes().to_vec()
}

#[test]
fn attribute_simple_lookup() {
    let attrs = " value=\"go\" label=\"Go\" default";
    assert_eq!(parse_attribute_value(attrs.as_bytes(), "label".as_bytes()), Some(b("Go")));
    assert_eq!(parse_attribute_value(attrs.as_bytes(), "value".as_bytes()), Some(b("go")));
}

#[test]
fn attribute_missing_is_none() {
    let attrs = " value=\"go\"";
    assert_eq!(parse_attribute_value(attrs.as_bytes(), "label".as_bytes()), None);
}

#[test]
fn attribute_allows_spaces_around_equals() {
    let attrs = " label  =   \"Spaced\"";
    assert_eq!(parse_attribute_value(attrs.as_bytes(), "label".as_bytes()), Some(b("Spaced")));
}

#[test]
fn attribute_unquoted_is_none() {
    let attrs = " label=Go";
    assert_eq!(parse_attribute_value(attrs.as_bytes(), "label".as_bytes()), None);
}

#[test]
fn attribute_empty_value_is_none() {
    let attrs = " label=\"\"";
    assert_eq!(parse_attribute_value(attrs.as_bytes(), "label".as_bytes()), None);
}

#[test]
fn attribute_first_occurrence_wins() {
    let attrs = " label=\"One\" label=\"Two\"";
    assert_eq!(parse_attribute_value(attrs.as_bytes(), "label".as_bytes()), Some(b("One")));
}

#[test]
fn fence_basic_extraction() {
    let content = "text\n```go\nfmt.Println(1)\n```\nmore";
    assert_eq!(
        extract_first_fenced_code_block(content.as_bytes()),
        Some((b("go"), b("fmt.Println(1)")))
    );
}

#[test]
fn fence_empty_language_falls_back() {
    let content = "```\ncode here\n```";
    assert_eq!(
        extract_first_fenced_code_block(content.as_bytes()),
        Some((b("text"), b("code here")))
    );
}

#[test]
fn fence_language_is_trimmed() {
    let content = "```  rust  \nlet x = 1;\n```";
    assert_eq!(
        extract_first_fenced_code_block(content.as_bytes()),
        Some((b("rust"), b("let x = 1;")))
    );
}

#[test]
fn fence_keeps_interior_blank_lines() {
    let content = "```py\na\n\nb\n```";
    assert_eq!(extract_first_fenced_code_block(content.as_bytes()), Some((b("py"), b("a\n\nb"))));
}

#[test]
fn fence_carriage_returns_accepted() {
    let content = "```go\r\ncode\r\n```";
    assert_eq!(extract_first_fenced_code_block(content.as_bytes()), Some((b("go"), b("code"))));
}

#[test]
fn fence_missing_is_none() {
    assert_eq!(extract_first_fenced_code_block("no code at all".as_bytes()), None);
}

#[test]
fn fence_unclosed_is_none() {
    assert_eq!(extract_first_fenced_code_block("```go\nnever closed".as_bytes()), None);
}

#[test]
fn fence_only_first_block_is_used() {
    let content = "```a\none\n```\n```b\ntwo\n```";
    assert_eq!(extract_first_fenced_code_block(content.as_bytes()), Some((b("a"), b("one"))));
}

#[test]
fn default_marker_standalone_token_counts() {
    assert!(has_default_attribute(" value=\"go\" default".as_bytes()));
    assert!(has_default_attribute("default".as_bytes()));
    assert!(has_default_attribute(" default value=\"go\"".as_bytes()));
}

#[test]
fn default_marker_inside_word_or_quotes_does_not_count() {
    assert!(!has_default_attribute(" label=\"default\"".as_bytes()));
    assert!(!has_default_attribute(" value=\"my-default\"".as_bytes()));
    assert!(!has_default_attribute(" data-default".as_bytes()));
    assert!(!has_default_attribute(" default=\"true\"".as_bytes()));
    assert!(!has_default_attribute("".as_bytes()));
}

#[test]
fn renderer_support_is_html_only() {
    assert!(supports_renderer("html".as_bytes()));
    assert!(!supports_renderer("markdown".as_bytes()));
    assert!(!supports_renderer("".as_bytes()));
}
