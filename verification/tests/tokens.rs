use veneer::tokens::{token_leaves, DesignToken, DesignTokens, JsonValue, TokenParseError};

fn s(text: &str) -> JsonValue {
    JsonValue::Str(text.to_string())
}

fn obj(entries: Vec<(&str, JsonValue)>) -> JsonValue {
    JsonValue::Object(entries.into_iter().map(|(k, v)| (k.to_string(), v)).collect())
}

fn to_serde(v: &JsonValue) -> serde_json::Value {
    match v {
        JsonValue::Null => serde_json::Value::Null,
        JsonValue::Bool(b) => serde_json::Value::Bool(*b),
        JsonValue::Number(t) => serde_json::from_str(t).expect("number text"),
        JsonValue::Str(t) => serde_json::Value::String(t.clone()),
        JsonValue::Array(xs) => serde_json::Value::Array(xs.iter().map(to_serde).collect()),
        JsonValue::Object(es) => {
            serde_json::Value::Object(es.iter().map(|(k, x)| (k.clone(), to_serde(x))).collect())
        }
    }
}

fn tokens_of(root: &JsonValue) -> DesignTokens {
    let leaves = token_leaves(root).expect("root is an object");
    let tokens = leaves
        .into_iter()
        .map(|leaf| {
            let rendered = to_serde(&leaf.value).to_string();
            DesignToken::from_leaf(leaf, rendered)
        })
        .collect();
    DesignTokens { tokens }
}

fn color(value: &str) -> JsonValue {
    obj(vec![("$value", s(value)), ("$type", s("color"))])
}

#[test]
fn parses_simple_color_token() {
    let root = obj(vec![(
        "primary",
        obj(vec![
            ("$description", s("Primary brand color")),
            ("$type", s("color")),
            ("$value", s("#2563eb")),
        ]),
    )]);
    let tokens = tokens_of(&root);
    assert_eq!(tokens.tokens.len(), 1);
    assert_eq!(tokens.tokens[0].path, vec!["primary"]);
    assert_eq!(tokens.tokens[0].value, "#2563eb");
    assert_eq!(tokens.tokens[0].token_type, "color");
    assert_eq!(tokens.tokens[0].description, "Primary brand color");
}

#[test]
fn parses_nested_token_groups() {
    let root = obj(vec![(
        "color",
        obj(vec![(
            "neutral",
            obj(vec![("100", color("oklch(0.967 0 0)")), ("50", color("oklch(0.985 0 0)"))]),
        )]),
    )]);
    let tokens = tokens_of(&root);
    assert_eq!(tokens.tokens.len(), 2);
    let paths: Vec<&Vec<String>> = tokens.tokens.iter().map(|t| &t.path).collect();
    assert!(paths.contains(&&vec!["color".to_string(), "neutral".to_string(), "50".to_string()]));
    assert!(paths.contains(&&vec!["color".to_string(), "neutral".to_string(), "100".to_string()]));
}

#[test]
fn parses_extensions() {
    let rafters = obj(vec![
        ("semanticMeaning", s("Primary action color")),
        (
            "usagePatterns",
            obj(vec![
                ("do", JsonValue::Array(vec![s("Use for primary actions")])),
                ("never", JsonValue::Array(vec![s("Use for backgrounds")])),
            ]),
        ),
    ]);
    let root = obj(vec![(
        "primary",
        obj(vec![
            ("$extensions", obj(vec![("rafters", rafters)])),
            ("$type", s("color")),
            ("$value", s("#2563eb")),
        ]),
    )]);
    let tokens = tokens_of(&root);
    assert!(!tokens.tokens[0].extensions.is_empty());
    assert!(tokens.tokens[0].extensions.iter().any(|(k, _)| k == "rafters"));
    let hits = tokens.get_extensions("rafters");
    assert_eq!(hits.len(), 1);
    assert_eq!(hits[0].0.path, vec!["primary"]);
    assert!(tokens.get_extensions("other").is_empty());
}

#[test]
fn handles_object_values() {
    let root = obj(vec![(
        "background",
        obj(vec![
            ("$description", s("Page background")),
            ("$type", s("color")),
            ("$value", obj(vec![("family", s("neutral")), ("position", s("50"))])),
        ]),
    )]);
    let tokens = tokens_of(&root);
    assert_eq!(tokens.tokens.len(), 1);
    assert!(tokens.tokens[0].value.contains("neutral"));
    assert_eq!(tokens.tokens[0].value, r#"{"family":"neutral","position":"50"}"#);
}

#[test]
fn filters_by_type() {
    let root = obj(vec![
        ("primary", color("#2563eb")),
        ("secondary", color("#64748b")),
        ("spacing-sm", obj(vec![("$type", s("dimension")), ("$value", s("0.5rem"))])),
    ]);
    let tokens = tokens_of(&root);
    let colors = tokens.by_type("color");
    assert_eq!(colors.len(), 2);
    assert_eq!(tokens.by_type("dimension").len(), 1);
    assert!(tokens.by_type("shadow").is_empty());
}

#[test]
fn filters_by_path_prefix() {
    let root = obj(vec![(
        "color",
        obj(vec![
            ("neutral", obj(vec![("100", color("#f5f5f5")), ("50", color("#fafafa"))])),
            ("primary", obj(vec![("500", color("#2563eb"))])),
        ]),
    )]);
    let tokens = tokens_of(&root);
    let neutrals = tokens.by_path_prefix(&["color", "neutral"]);
    assert_eq!(neutrals.len(), 2);
    assert_eq!(tokens.by_path_prefix(&["color"]).len(), 3);
    assert_eq!(tokens.by_path_prefix(&[]).len(), 3);
    assert!(tokens.by_path_prefix(&["color", "neutral", "50", "x"]).is_empty());
}

#[test]
fn handles_empty_json() {
    let tokens = tokens_of(&obj(vec![]));
    assert!(tokens.tokens.is_empty());
}

#[test]
fn skips_dollar_prefixed_group_keys() {
    let root = obj(vec![(
        "color",
        obj(vec![
            ("$description", s("All colors")),
            ("primary", color("#2563eb")),
        ]),
    )]);
    let tokens = tokens_of(&root);
    assert_eq!(tokens.tokens.len(), 1);
    assert_eq!(tokens.tokens[0].path, vec!["color", "primary"]);
}

#[test]
fn a_root_that_is_not_an_object_is_a_format_error() {
    match token_leaves(&JsonValue::Array(vec![])) {
        Err(TokenParseError::InvalidFormat(m)) => assert_eq!(m, "Root must be a JSON object"),
        other => panic!("expected a format error, got {:?}", other.map(|l| l.len())),
    }
}

#[test]
fn a_number_value_keeps_its_json_text() {
    let root = obj(vec![("z", obj(vec![("$value", JsonValue::Number("4".to_string()))]))]);
    let tokens = tokens_of(&root);
    assert_eq!(tokens.tokens[0].value, "4");
    assert_eq!(tokens.tokens[0].token_type, "");
}
