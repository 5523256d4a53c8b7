use veneer::scope::{extract_classes_from_ts, scope_css, shadow_css_for_component, sort_dedup, strip_modifiers, ScopeError};


const SAMPLE_CSS: &str = r#"
@theme {
  --color-primary: oklch(0.645 0.12 180);
  --color-primary-foreground: oklch(0.985 0 0);
  --color-muted: oklch(0.967 0 0);
  --color-muted-foreground: oklch(0.552 0 0);
  --color-border: oklch(0.92 0 0);
}

@utility bg-primary {
  background-color: var(--color-primary);
}

@utility text-primary-foreground {
  color: var(--color-primary-foreground);
}

@utility text-muted-foreground {
  color: var(--color-muted-foreground);
}

@utility border-border {
  border-color: var(--color-border);
}

@utility rounded-lg {
  border-radius: 0.5rem;
}

@utility flex {
  display: flex;
}

@utility items-center {
  align-items: center;
}
"#;

#[test]
fn scope_css_returns_empty_for_no_classes() {
    let (result, _unmatched) = scope_css(&[], SAMPLE_CSS);
    assert_eq!(result, "");
}

#[test]
fn scope_css_returns_empty_for_empty_css() {
    let (result, _unmatched) = scope_css(&["bg-primary".to_string()], "");
    assert_eq!(result, "");
}

#[test]
fn scope_css_extracts_matched_utility() {
    let classes = vec!["flex".to_string(), "items-center".to_string()];
    let (result, _unmatched) = scope_css(&classes, SAMPLE_CSS);
    assert!(result.contains("@utility flex"));
    assert!(result.contains("display: flex"));
    assert!(result.contains("@utility items-center"));
    assert!(result.contains("align-items: center"));
}

#[test]
fn scope_css_excludes_unmatched_utilities() {
    let classes = vec!["flex".to_string()];
    let (result, _unmatched) = scope_css(&classes, SAMPLE_CSS);
    assert!(!result.contains("@utility bg-primary"));
    assert!(!result.contains("@utility text-muted-foreground"));
}

#[test]
fn scope_css_includes_theme_vars_for_matched_utilities() {
    let classes = vec!["bg-primary".to_string()];
    let (result, _unmatched) = scope_css(&classes, SAMPLE_CSS);
    assert!(result.contains("@theme"));
    assert!(result.contains("--color-primary:"));
    // Should NOT include unrelated theme vars.
    assert!(!result.contains("--color-muted-foreground:"));
}

#[test]
fn scope_css_strips_hover_modifier() {
    let classes = vec!["hover:bg-primary".to_string()];
    let (result, _unmatched) = scope_css(&classes, SAMPLE_CSS);
    assert!(result.contains("@utility bg-primary"));
}

#[test]
fn scope_css_strips_container_query_modifier() {
    let classes = vec!["@sm:flex".to_string()];
    let (result, _unmatched) = scope_css(&classes, SAMPLE_CSS);
    assert!(result.contains("@utility flex"));
}

#[test]
fn scope_css_handles_compound_modifier() {
    let classes = vec!["focus-visible:flex".to_string()];
    let (result, _unmatched) = scope_css(&classes, SAMPLE_CSS);
    assert!(result.contains("@utility flex"));
}

#[test]
fn scope_css_strips_chained_modifiers() {
    let classes = vec!["@sm:hover:flex".to_string()];
    let (result, _unmatched) = scope_css(&classes, SAMPLE_CSS);
    assert!(result.contains("@utility flex"));
}

#[test]
fn scope_css_does_not_panic_on_malformed_css() {
    let malformed = "@utility broken { color: red; /* unclosed";
    let (result, _unmatched) = scope_css(&["broken".to_string()], malformed);
    // Unclosed block is skipped — result is empty (no match found).
    assert_eq!(result, "");
}

// --- Dynamically-composed classes (Tailwind tree-shake caveat) ---
//
// Tailwind tree-shakes class names that never appear as source literals
// (`color={tint}` resolving to `text-quality-*`). Extraction must
// surface a `prefix-*` pattern for those so scoping can include every
// utility the component resolves to at render.

const QUALITY_CSS: &str = r#"
@theme {
  --color-quality-500: oklch(0.7 0.14 140);
  --color-quality-600: oklch(0.55 0.14 140);
  --color-border: oklch(0.92 0 0);
}

@utility text-quality-500 {
  color: var(--color-quality-500);
}

@utility text-quality-600 {
  color: var(--color-quality-600);
}

@utility border-border {
  border-color: var(--color-border);
}
"#;

#[test]
fn scope_css_expands_wildcard_pattern_to_all_matching_utilities() {
    let classes = vec!["text-quality-*".to_string()];
    let (result, _unmatched) = scope_css(&classes, QUALITY_CSS);
    assert!(result.contains("@utility text-quality-500"));
    assert!(result.contains("@utility text-quality-600"));
    assert!(!result.contains("border-border"));
}

#[test]
fn wildcard_pattern_overlapping_an_exact_match_is_not_reported_unmatched() {
    // "text-quality-500" matches exactly; "text-quality-*" covers the
    // same utility. The pattern matched and must not surface as
    // unmatched noise.
    let classes = vec!["text-quality-500".to_string(), "text-quality-*".to_string()];
    let css = "@utility text-quality-500 {\n  color: red;\n}\n";
    let shadow = shadow_css_for_component("QualityBadge", &classes, css)
        .expect("both the exact class and the pattern match");
    assert!(shadow.css.contains(".text-quality-500 {"));
    assert!(
        shadow.unmatched.is_empty(),
        "unmatched: {:?}",
        shadow.unmatched
    );
}

// --- shadow_css_for_component ---

#[test]
fn shadow_css_converts_utilities_to_class_rules() {
    let classes = vec!["bg-primary".to_string()];
    let shadow = shadow_css_for_component("Button", &classes, SAMPLE_CSS)
        .expect("bg-primary matches a utility");
    assert!(shadow.css.contains(".bg-primary {"));
    assert!(shadow
        .css
        .contains("background-color: var(--color-primary);"));
    assert!(!shadow.css.contains("@utility"));
    assert!(!shadow.css.contains("@theme"));
}

#[test]
fn shadow_css_places_theme_vars_on_host() {
    let classes = vec!["bg-primary".to_string()];
    let shadow = shadow_css_for_component("Button", &classes, SAMPLE_CSS)
        .expect("bg-primary matches a utility");
    assert!(shadow.css.contains(":host {"));
    assert!(shadow
        .css
        .contains("--color-primary: oklch(0.645 0.12 180);"));
    // Unrelated theme vars stay out.
    assert!(!shadow.css.contains("--color-muted-foreground:"));
}

#[test]
fn shadow_css_empty_classes_is_ok_and_empty() {
    let shadow = shadow_css_for_component("Plain", &[], SAMPLE_CSS)
        .expect("no classes means no styles to scope");
    assert!(shadow.css.is_empty());
    assert!(shadow.unmatched.is_empty());
}

#[test]
fn shadow_css_errors_on_empty_stylesheet_naming_component() {
    let classes = vec!["bg-primary".to_string()];
    let error = shadow_css_for_component("Button", &classes, "")
        .expect_err("empty stylesheet cannot style a classed component");
    let message = error.message();
    assert!(message.contains("Button"));
    assert!(message.contains("bg-primary"));
    assert!(matches!(error, ScopeError::EmptyStylesheet { .. }));
}

#[test]
fn shadow_css_errors_when_nothing_matches_naming_component_and_classes() {
    let classes = vec!["no-such-class".to_string()];
    let error =
        shadow_css_for_component("Badge", &classes, SAMPLE_CSS).expect_err("nothing matches");
    let message = error.message();
    assert!(message.contains("Badge"));
    assert!(message.contains("no-such-class"));
    assert!(matches!(error, ScopeError::NoRulesMatched { .. }));
}

#[test]
fn shadow_css_reports_partially_unmatched_classes() {
    let classes = vec!["bg-primary".to_string(), "bg-mystery".to_string()];
    let shadow = shadow_css_for_component("Button", &classes, SAMPLE_CSS)
        .expect("bg-primary still matches");
    assert!(shadow.css.contains(".bg-primary {"));
    assert_eq!(shadow.unmatched, vec!["bg-mystery".to_string()]);
}


#[test]
fn sort_dedup_sorts_and_keeps_each_class_once() {
    let classes: Vec<String> = ["scroll-m-20", "text-lg", "font-bold", "scroll-m-20", "text-lg"]
        .iter()
        .map(|s| s.to_string())
        .collect();
    assert_eq!(sort_dedup(&classes), ["font-bold", "scroll-m-20", "text-lg"]);
    assert!(sort_dedup(&Vec::new()).is_empty());
}

const SAMPLE_TS: &str = r#"
export const kbdBaseClasses = 'inline-flex items-center rounded border bg-muted px-1.5 py-0.5';

export const typographyClasses = {
  h1: 'scroll-m-20 text-4xl font-bold tracking-tight',
  h2: 'scroll-m-20 text-3xl font-semibold tracking-tight',
  muted: 'text-sm text-muted-foreground',
} as const;
"#;

#[test]
fn extract_classes_finds_flat_string() {
    let classes = extract_classes_from_ts(SAMPLE_TS);
    assert!(classes.contains(&"inline-flex".to_string()));
    assert!(classes.contains(&"items-center".to_string()));
    assert!(classes.contains(&"rounded".to_string()));
    assert!(classes.contains(&"bg-muted".to_string()));
}

#[test]
fn extract_classes_finds_object_values() {
    let classes = extract_classes_from_ts(SAMPLE_TS);
    assert!(classes.contains(&"text-4xl".to_string()));
    assert!(classes.contains(&"font-bold".to_string()));
    assert!(classes.contains(&"text-muted-foreground".to_string()));
}

#[test]
fn extract_classes_deduplicates() {
    let classes = extract_classes_from_ts(SAMPLE_TS);
    let count = classes.iter().filter(|c| c.as_str() == "scroll-m-20").count();
    assert_eq!(count, 1, "scroll-m-20 appears twice in source but must be deduped");
}

#[test]
fn extract_classes_returns_empty_for_empty_source() {
    let classes = extract_classes_from_ts("");
    assert!(classes.is_empty());
}

#[test]
fn extract_classes_emits_prefix_pattern_for_template_expression() {
    let source = r#"
export const qualityClasses = {
  badge: `text-quality-${tint} font-bold`,
};
"#;
    let classes = extract_classes_from_ts(source);
    assert!(classes.contains(&"text-quality-*".to_string()));
    assert!(classes.contains(&"font-bold".to_string()));
}

#[test]
fn extract_classes_emits_prefix_pattern_for_concatenation() {
    let source = "export const tintClass = 'text-quality-' + tint;";
    let classes = extract_classes_from_ts(source);
    assert_eq!(classes, vec!["text-quality-*".to_string()]);
}

#[test]
fn extract_classes_emits_prefix_pattern_from_class_builder_arrow() {
    let source = "export const tintClass = (tint: string) => `bg-quality-${tint}`;";
    let classes = extract_classes_from_ts(source);
    assert_eq!(classes, vec!["bg-quality-*".to_string()]);
}

#[test]
fn extract_classes_resolves_conditional_arms() {
    let source = "export const stateClass = (active: boolean) => active ? 'bg-primary' : 'bg-muted';";
    let classes = extract_classes_from_ts(source);
    assert!(classes.contains(&"bg-primary".to_string()));
    assert!(classes.contains(&"bg-muted".to_string()));
}

#[test]
fn extract_classes_skips_token_with_no_static_prefix() {
    let source = "export const cls = `${dynamic} flex`;";
    let classes = extract_classes_from_ts(source);
    assert_eq!(classes, vec!["flex".to_string()]);
}

#[test]
fn shadow_css_includes_dynamically_resolved_classes() {
    let source = "export const tintClass = (tint: string) => `text-quality-${tint}`;";
    let classes = extract_classes_from_ts(source);
    let shadow = shadow_css_for_component("QualityBadge", &classes, QUALITY_CSS)
        .expect("pattern matches quality utilities");
    assert!(shadow.css.contains(".text-quality-500 {"));
    assert!(shadow.css.contains(".text-quality-600 {"));
    assert!(shadow.css.contains("--color-quality-600: oklch(0.55 0.14 140);"));
}
