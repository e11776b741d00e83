use notemark::transform::{process_custom_input, process_markdown};
use notemark::widget::render_widget;

fn count(haystack: &str, needle: &str) -> usize {
    let mut n = 0;
    let mut rest = haystack;
    while let Some(i) = rest.find(needle) {
        n += 1;
        rest = &rest[i + needle.len()..];
    }
    n
}

#[test]
fn plain_markdown_passes_through() {
    let out = process_markdown("Hello **world**");
    assert_eq!(out, "<p>Hello <strong>world</strong></p>");
}

#[test]
fn password_directive_renders_copyable_widget() {
    let out = process_markdown("i::[password(sup3rSecret)]");
    assert!(out.starts_with("<p>"));
    assert!(out.ends_with("</p>"));
    assert!(out.contains(r#"type="password""#));
    assert!(out.contains(r#"value="sup3rSecret""#));
    assert!(out.contains(r#"data-value="sup3rSecret""#));
    assert!(out.contains("navigator.clipboard.writeText('sup3rSecret')"));
    assert_eq!(count(&out, "<button"), 1);
    assert_eq!(count(&out, "<input"), 1);
    assert!(out.contains("disabled"));
}

#[test]
fn other_kind_renders_plain_input_without_button() {
    let out = process_markdown("i::[number(42)]");
    assert!(out.contains(r#"type="number""#));
    assert!(out.contains(r#"value="42""#));
    assert!(out.contains("disabled"));
    assert_eq!(count(&out, "<button"), 0);
    assert_eq!(count(&out, "<input"), 1);
}

#[test]
fn kind_beyond_ascii_renders_plain_input() {
    let out = process_markdown("i::[é(x)]");
    assert!(out.contains(r#"type="é""#));
    assert!(out.contains(r#"value="x""#));
    assert!(out.contains("disabled"));
    assert_eq!(count(&out, "<button"), 0);
    assert_eq!(count(&out, "<input"), 1);
}

#[test]
fn first_match_wins_even_with_a_kind_beyond_ascii() {
    let out = process_custom_input("i::[é(a)] i::[b(c)]");
    let widget = render_widget("é", "a");
    assert_eq!(out, widget);
}

#[test]
fn whole_paragraph_is_the_widget() {
    let out = process_markdown("i::[number(42)]");
    let widget = render_widget("number", "42");
    assert_eq!(out, format!("<p>{}</p>", widget));
}

#[test]
fn apostrophe_in_value_is_escaped_in_activation() {
    let out = process_markdown("i::[text(O'Brien)]");
    assert!(out.contains(r#"value="O'Brien""#));
    assert!(out.contains(r"writeText('O\'Brien')"));
}

#[test]
fn double_quote_in_value_is_escaped_in_activation() {
    let out = process_markdown("i::[text(a\"b)]");
    assert!(out.contains("writeText('a&quot;b')"));
}

#[test]
fn activation_attribute_holds_no_raw_quote() {
    let out = render_widget("text", "a\"b'c");
    let start = out.find("onclick=\"").expect("activation attribute") + "onclick=\"".len();
    let attr_and_rest = &out[start..];
    let end = attr_and_rest.find('"').expect("attribute closer");
    // the first unescaped double quote after the attribute opens is the one
    // that closes it, directly followed by the tag's closing bracket
    assert_eq!(&attr_and_rest[end..end + 2], "\">");
    let attr = &attr_and_rest[..end];
    assert!(attr.contains("writeText('a&quot;b\\'c')"));
}

#[test]
fn only_directive_paragraph_is_replaced() {
    let out = process_markdown("first\n\ni::[text(secret)]\n\nlast");
    assert!(out.contains("<p>first</p>"));
    assert!(out.contains("<p>last</p>"));
    assert!(out.contains(r#"value="secret""#));
    assert_eq!(count(&out, "<button"), 1);
}

#[test]
fn first_match_wins_and_surrounding_text_is_dropped() {
    let out = process_markdown("before i::[text(one)] mid i::[password(two)] after");
    assert!(out.contains(r#"value="one""#));
    assert!(!out.contains("two"));
    assert!(!out.contains("before"));
    assert!(!out.contains("after"));
    assert_eq!(count(&out, "<button"), 1);
}

#[test]
fn directive_inside_code_span_is_untouched() {
    let out = process_markdown("Use `i::[text(x)]` now");
    assert_eq!(out, "<p>Use <code>i::[text(x)]</code> now</p>");
}

#[test]
fn copyable_widget_embeds_both_icons() {
    let out = process_markdown("i::[text(pw)]");
    assert_eq!(count(&out, "<svg"), 3);
    assert_eq!(count(&out, "setTimeout"), 1);
    assert!(out.contains("3000"));
}

#[test]
fn empty_input_renders_empty() {
    let out = process_markdown("");
    assert_eq!(out, "");
}

#[test]
fn malformed_directives_pass_through() {
    assert_eq!(process_custom_input("i::[(x)]"), "i::[(x)]");
    assert_eq!(process_custom_input("i::[text()]"), "i::[text()]");
    assert_eq!(process_custom_input("i::[text(x]"), "i::[text(x]");
    assert_eq!(process_custom_input("i::[text x)]"), "i::[text x)]");
    assert_eq!(process_custom_input("no directive"), "no directive");
}

#[test]
fn value_may_hold_parens_up_to_the_closer() {
    let out = process_custom_input("i::[a(b]c)d)]");
    assert!(out.contains(r#"type="a""#));
    assert!(out.contains(r#"value="b]c)d""#));
}

#[test]
fn text_kind_matches_widget_builder() {
    let out = process_markdown("i::[text(pw)]");
    let widget = render_widget("text", "pw");
    assert_eq!(out, format!("<p>{}</p>", widget));
}

#[test]
fn strikethrough_renders() {
    let out = process_markdown("~~gone~~");
    assert!(out.contains("<del>gone</del>"));
}

#[test]
fn heading_renders_as_markdown() {
    let out = process_markdown("# Title");
    assert!(out.contains("<h1>Title</h1>"));
    assert!(!out.contains("<p>"));
}
