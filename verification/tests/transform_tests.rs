use language_tabs::rewrite::transform_docusaurus_tabs_blocks;

fn transform(s: &str) -> String {
    String::from_utf8(transform_docusaurus_tabs_blocks(s.as_bytes())).unwrap()
}

#[test]
fn text_without_blocks_passes_through() {
    let input = "# Title\n\nplain paragraph\n  indented\n";
    assert_eq!(transform(input), input);
}

#[test]
fn unterminated_open_tag_passes_through() {
    let input = "before <Tabs groupId=\"x\" and nothing else";
    assert_eq!(transform(input), input);
}

#[test]
fn missing_close_marker_passes_through() {
    let input = "before <Tabs>\n<TabItem>\n```go\ncode\n```\n</TabItem>\nno end";
    assert_eq!(transform(input), input);
}

#[test]
fn empty_block_passes_through() {
    let input = "a\n<Tabs></Tabs>\nb";
    assert_eq!(transform(input), input);
}

#[test]
fn item_without_code_invalidates_block() {
    let input = "x<Tabs><TabItem label=\"Go\">no code here</TabItem></Tabs>y";
    assert_eq!(transform(input), input);
}

#[test]
fn one_bad_item_invalidates_whole_block() {
    let input = "<Tabs>\n<TabItem label=\"A\">\n```go\nok\n```\n</TabItem>\n<TabItem label=\"B\">nothing fenced</TabItem>\n</Tabs>";
    assert_eq!(transform(input), input);
}

#[test]
fn end_to_end_two_tabs() {
    let mut input = String::new();
    input.push_str("Before\n");
    input.push_str("<Tabs groupId=\"lang\">\n");
    input.push_str("<TabItem value=\"go\" label=\"Go\" default>\n");
    input.push_str("\n");
    input.push_str("```go\n");
    input.push_str("fmt.Println(\"hi\")\n");
    input.push_str("```\n");
    input.push_str("\n");
    input.push_str("</TabItem>\n");
    input.push_str("<TabItem value=\"rust\" label=\"Rust\">\n");
    input.push_str("\n");
    input.push_str("```rust\n");
    input.push_str("println!(\"hi\");\n");
    input.push_str("```\n");
    input.push_str("\n");
    input.push_str("</TabItem>\n");
    input.push_str("</Tabs>\n");
    input.push_str("After");
    let mut expected = String::new();
    expected.push_str("Before\n");
    expected.push_str("\n");
    expected.push_str("<div class=\"language-tabs\" data-language-tabs-group=\"lang\">\n");
    expected.push_str(
        "<div class=\"language-tabs-list\" role=\"tablist\" aria-label=\"Programming language tabs\">\n",
    );
    expected.push_str(
        "<button class=\"language-tabs-trigger is-active\" type=\"button\" role=\"tab\" id=\"language-tabs-lang-button-go\" aria-controls=\"language-tabs-lang-panel-go\" aria-selected=\"true\" data-language-tabs-value=\"go\">Go</button>\n",
    );
    expected.push_str(
        "<button class=\"language-tabs-trigger\" type=\"button\" role=\"tab\" id=\"language-tabs-lang-button-rust\" aria-controls=\"language-tabs-lang-panel-rust\" aria-selected=\"false\" data-language-tabs-value=\"rust\">Rust</button>\n",
    );
    expected.push_str("</div>\n");
    expected.push_str("<div class=\"language-tabs-panels\">\n");
    expected.push_str(
        "<section class=\"language-tabs-panel is-active\" role=\"tabpanel\" id=\"language-tabs-lang-panel-go\" aria-labelledby=\"language-tabs-lang-button-go\" data-language-tabs-value=\"go\">\n",
    );
    expected.push_str("<pre><code class=\"language-go\">fmt.Println(\"hi\")</code></pre>\n");
    expected.push_str("</section>\n");
    expected.push_str(
        "<section class=\"language-tabs-panel\" role=\"tabpanel\" id=\"language-tabs-lang-panel-rust\" aria-labelledby=\"language-tabs-lang-button-rust\" data-language-tabs-value=\"rust\">\n",
    );
    expected.push_str("<pre><code class=\"language-rust\">println!(\"hi\");</code></pre>\n");
    expected.push_str("</section>\n");
    expected.push_str("</div>\n");
    expected.push_str("</div>");
    expected.push_str("\n\n");
    expected.push_str("\nAfter");
    assert_eq!(transform(&input), expected);
}

#[test]
fn one_control_and_panel_per_item() {
    let input = "<Tabs>\
        <TabItem label=\"A\">\n```a\n1\n```\n</TabItem>\
        <TabItem label=\"B\">\n```b\n2\n```\n</TabItem>\
        <TabItem label=\"C\">\n```c\n3\n```\n</TabItem>\
        </Tabs>";
    let out = transform(input);
    assert_eq!(out.matches("<button ").count(), 3);
    assert_eq!(out.matches("</button>").count(), 3);
    assert_eq!(out.matches("<section ").count(), 3);
    assert_eq!(out.matches("</section>").count(), 3);
    let a = out.find("data-language-tabs-value=\"a\"").unwrap();
    let b = out.find("data-language-tabs-value=\"b\"").unwrap();
    let c = out.find("data-language-tabs-value=\"c\"").unwrap();
    assert!(a < b && b < c);
}

#[test]
fn first_item_active_when_none_is_default() {
    let input = "<Tabs>\
        <TabItem value=\"a\">\n```a\n1\n```\n</TabItem>\
        <TabItem value=\"b\">\n```b\n2\n```\n</TabItem>\
        </Tabs>";
    let out = transform(input);
    assert!(out.contains("aria-selected=\"true\" data-language-tabs-value=\"a\""));
    assert!(out.contains("aria-selected=\"false\" data-language-tabs-value=\"b\""));
    assert_eq!(out.matches("aria-selected=\"true\"").count(), 1);
    assert_eq!(out.matches(" is-active").count(), 2);
}

#[test]
fn default_marks_later_item_active() {
    let input = "<Tabs>\
        <TabItem value=\"a\">\n```a\n1\n```\n</TabItem>\
        <TabItem value=\"b\" default>\n```b\n2\n```\n</TabItem>\
        </Tabs>";
    let out = transform(input);
    assert!(out.contains("aria-selected=\"false\" data-language-tabs-value=\"a\""));
    assert!(out.contains("aria-selected=\"true\" data-language-tabs-value=\"b\""));
    assert_eq!(out.matches("aria-selected=\"true\"").count(), 1);
}

#[test]
fn default_inside_label_text_does_not_count() {
    let input = "<Tabs>\
        <TabItem value=\"a\">\n```a\n1\n```\n</TabItem>\
        <TabItem value=\"b\" label=\"the default one\">\n```b\n2\n```\n</TabItem>\
        </Tabs>";
    let out = transform(input);
    assert!(out.contains("aria-selected=\"true\" data-language-tabs-value=\"a\""));
    assert!(out.contains("aria-selected=\"false\" data-language-tabs-value=\"b\""));
}

#[test]
fn default_inside_value_text_does_not_count() {
    let input = "<Tabs>\
        <TabItem value=\"a\">\n```a\n1\n```\n</TabItem>\
        <TabItem value=\"my-default\">\n```b\n2\n```\n</TabItem>\
        </Tabs>";
    let out = transform(input);
    assert!(out.contains("aria-selected=\"true\" data-language-tabs-value=\"a\""));
    assert!(out.contains("aria-selected=\"false\" data-language-tabs-value=\"my-default\""));
}

#[test]
fn default_token_between_attributes_counts() {
    let input = "<Tabs>\
        <TabItem value=\"a\">\n```a\n1\n```\n</TabItem>\
        <TabItem value=\"b\" default label=\"B\">\n```b\n2\n```\n</TabItem>\
        </Tabs>";
    let out = transform(input);
    assert!(out.contains("aria-selected=\"true\" data-language-tabs-value=\"b\""));
}

#[test]
fn missing_group_id_uses_fallback() {
    let input = "<Tabs><TabItem value=\"a\">\n```a\n1\n```\n</TabItem></Tabs>";
    let out = transform(input);
    assert!(out.contains("data-language-tabs-group=\"language-tabs-group\""));
    assert!(out.contains("id=\"language-tabs-language-tabs-group-button-a\""));
}

#[test]
fn generated_tab_labels_number_items() {
    let input = "<Tabs>\
        <TabItem>\n```a\n1\n```\n</TabItem>\
        <TabItem>\n```b\n2\n```\n</TabItem>\
        </Tabs>";
    let out = transform(input);
    assert!(out.contains(">Tab 1</button>"));
    assert!(out.contains(">Tab 2</button>"));
    assert!(out.contains("data-language-tabs-value=\"tab-1\""));
    assert!(out.contains("data-language-tabs-value=\"tab-2\""));
}

#[test]
fn dynamic_text_is_escaped() {
    let input = "<Tabs groupId=\"g\">\
        <TabItem value=\"A&B\" label=\"a<b\">\n```go\nif a < b && c > d {}\n```\n</TabItem>\
        </Tabs>";
    let out = transform(input);
    assert!(out.contains("data-language-tabs-value=\"A&amp;B\""));
    assert!(out.contains(">a&lt;b</button>"));
    assert!(out.contains("id=\"language-tabs-g-button-a-b\""));
    assert!(out.contains("if a &lt; b &amp;&amp; c &gt; d {}"));
}

#[test]
fn code_newlines_become_character_references() {
    let input = "<Tabs><TabItem value=\"a\">\n```go\nline1\nline2\n```\n</TabItem></Tabs>";
    let out = transform(input);
    assert!(out.contains("<pre><code class=\"language-go\">line1&#10;line2</code></pre>"));
}

#[test]
fn surrounding_text_kept_around_replaced_block() {
    let input = "A<Tabs><TabItem value=\"a\">\n```a\n1\n```\n</TabItem></Tabs>B";
    let out = transform(input);
    assert!(out.starts_with("A\n<div class=\"language-tabs\""));
    assert!(out.ends_with("</div>\n\nB"));
}

#[test]
fn two_blocks_transformed_independently() {
    let input = "<Tabs><TabItem value=\"a\">\n```a\n1\n```\n</TabItem></Tabs>\nmiddle\n<Tabs></Tabs>\nend";
    let out = transform(input);
    assert_eq!(out.matches("<button ").count(), 1);
    assert!(out.contains("\nmiddle\n<Tabs></Tabs>\nend"));
}
