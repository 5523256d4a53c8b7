use veneer::inline::{parse_inline_jsx, parse_inline_jsx_all, fragment_source, html_escape, strip_js_line_comments, to_custom_element, InlineJsx, PropValue};

fn button() -> InlineJsx {
    InlineJsx {
        component: "Button".to_string(),
        props: vec![
            ("variant".to_string(), PropValue::String("primary".to_string())),
            ("disabled".to_string(), PropValue::Boolean(true)),
            ("hidden".to_string(), PropValue::Boolean(false)),
            ("onClick".to_string(), PropValue::Expression("() => {}".to_string())),
        ],
        children: Some("Click".to_string()),
        self_closing: false,
    }
}

#[test]
fn converts_to_custom_element() {
    let html = to_custom_element(&button(), "button-preview");
    assert_eq!(html, r#"<button-preview variant="primary" disabled>Click</button-preview>"#);
}

#[test]
fn custom_element_without_attributes_or_children() {
    let jsx = InlineJsx { component: "Icon".to_string(), props: vec![], children: None, self_closing: true };
    assert_eq!(to_custom_element(&jsx, "icon-preview"), "<icon-preview></icon-preview>");
}

#[test]
fn attribute_values_are_html_escaped() {
    assert_eq!(html_escape(r#"a&b<c>"d'"#), "a&amp;b&lt;c&gt;&quot;d&#x27;");
    let jsx = InlineJsx {
        component: "X".to_string(),
        props: vec![("title".to_string(), PropValue::String("\"hi\"".to_string()))],
        children: None,
        self_closing: true,
    };
    assert_eq!(to_custom_element(&jsx, "x-preview"), "<x-preview title=\"&quot;hi&quot;\"></x-preview>");
}

#[test]
fn prop_lookup_and_string_values() {
    let jsx = button();
    assert_eq!(jsx.prop("variant").and_then(|v| v.as_str()), Some("primary"));
    assert_eq!(jsx.prop("disabled"), Some(&PropValue::Boolean(true)));
    assert!(jsx.prop("size").is_none());
}

#[test]
fn comment_lines_are_stripped_before_wrapping() {
    let src = "// Primary\n<Button />\n  // Secondary\n<Button variant=\"secondary\" />";
    assert_eq!(strip_js_line_comments(src), "<Button />\n<Button variant=\"secondary\" />");
    assert_eq!(fragment_source("<A />"), "<>\n<A />\n</>");
}

#[test]
fn parses_self_closing() {
    let jsx = parse_inline_jsx(r#"<Button variant="primary" />"#).unwrap();
    assert_eq!(jsx.component, "Button");
    assert!(jsx.self_closing);
    assert_eq!(jsx.prop("variant"), Some(&PropValue::String("primary".to_string())));
    assert!(jsx.children.is_none());
}

#[test]
fn parses_with_children() {
    let jsx = parse_inline_jsx(r#"<Button variant="default">Click me</Button>"#).unwrap();
    assert_eq!(jsx.component, "Button");
    assert!(!jsx.self_closing);
    assert_eq!(jsx.prop("variant"), Some(&PropValue::String("default".to_string())));
    assert_eq!(jsx.children, Some("Click me".to_string()));
}

#[test]
fn parses_boolean_props() {
    let jsx = parse_inline_jsx(r#"<Button disabled>Disabled</Button>"#).unwrap();
    assert_eq!(jsx.prop("disabled"), Some(&PropValue::Boolean(true)));
}

#[test]
fn parses_expression_props() {
    let jsx = parse_inline_jsx(r#"<Button data={someValue}>Click</Button>"#).unwrap();
    assert_eq!(jsx.component, "Button");
    assert_eq!(jsx.children, Some("Click".to_string()));
    assert!(matches!(jsx.prop("data"), Some(PropValue::Expression(_))));
}

#[test]
fn handles_empty_element() {
    let jsx = parse_inline_jsx(r#"<Icon name="star" />"#).unwrap();
    assert_eq!(jsx.component, "Icon");
    assert!(jsx.self_closing);
    assert_eq!(jsx.prop("name"), Some(&PropValue::String("star".to_string())));
}

#[test]
fn parses_arrow_function_in_props() {
    let jsx = parse_inline_jsx(r#"<Button onClick={() => alert('hi')}>Click</Button>"#).unwrap();
    assert_eq!(jsx.component, "Button");
    assert_eq!(jsx.children, Some("Click".to_string()));
    match jsx.prop("onClick") {
        Some(PropValue::Expression(expr)) => {
            assert!(expr.contains("=>"), "Expected arrow function in expression, got: {}", expr);
            assert!(expr.contains("alert"));
        }
        other => panic!("Expected Expression prop, got: {:?}", other),
    }
}

#[test]
fn parses_multi_element_with_comments() {
    let source = r#"// Primary action
<Button variant="default">Save Changes</Button>

// Destructive action
<Button variant="destructive">Delete Account</Button>

// Loading state
<Button loading>Processing...</Button>"#;
    let results = parse_inline_jsx_all(source);
    assert_eq!(results.len(), 3, "Expected 3 JSX elements, got {}", results.len());
    assert_eq!(results[0].component, "Button");
    assert_eq!(results[0].prop("variant"), Some(&PropValue::String("default".to_string())));
    assert_eq!(results[1].prop("variant"), Some(&PropValue::String("destructive".to_string())));
    assert!(results[2].prop("loading").is_some());
}

#[test]
fn parses_multi_element_no_comments() {
    let source = r#"<Button variant="primary">Primary</Button>
<Button variant="secondary">Secondary</Button>"#;
    let results = parse_inline_jsx_all(source);
    assert_eq!(results.len(), 2, "Expected 2 JSX elements, got {}", results.len());
}

#[test]
fn parses_member_expression_component() {
    let source = r#"<ContextMenu>
  <ContextMenu.Trigger>
    <div>Right-click me</div>
  </ContextMenu.Trigger>
  <ContextMenu.Content>
    <ContextMenu.Item>Edit</ContextMenu.Item>
  </ContextMenu.Content>
</ContextMenu>"#;
    let results = parse_inline_jsx_all(source);
    assert_eq!(results.len(), 1);
    assert_eq!(results[0].component, "ContextMenu");
}

#[test]
fn parses_nested_same_name_components() {
    let jsx = parse_inline_jsx(r#"<Card><Card>inner</Card></Card>"#).unwrap();
    assert_eq!(jsx.component, "Card");
    assert!(!jsx.self_closing);
    let children = jsx.children.as_deref().unwrap();
    assert!(children.contains("inner"), "Expected nested content, got: {}", children);
    assert!(children.contains("Card"), "Expected nested Card tag, got: {}", children);
}
