use veneer::generator::{
    escape_string, generate_passthrough_web_component, generate_web_component,
    scoped_web_component_block, to_pascal_case, web_component_block,
};
use veneer::react::ComponentStructure;
use veneer::traits::TransformError;


#[test]
fn to_pascal_case_works() {
    assert_eq!(to_pascal_case("button-preview"), "ButtonPreview");
    assert_eq!(to_pascal_case("my-component"), "MyComponent");
    assert_eq!(to_pascal_case("simple"), "Simple");
}

#[test]
fn escape_string_works() {
    assert_eq!(escape_string("hello"), "hello");
    assert_eq!(escape_string("it's"), "it\\'s");
    assert_eq!(escape_string("line1\nline2"), "line1\\nline2");
}

#[test]
fn generates_valid_web_component() {
    let structure = ComponentStructure {
        name: "Button".to_string(),
        variant_lookup: vec![
            (
                "primary".to_string(),
                "bg-primary text-primary-foreground".to_string(),
            ),
            (
                "secondary".to_string(),
                "bg-secondary text-secondary-foreground".to_string(),
            ),
        ],
        size_lookup: vec![
            ("sm".to_string(), "h-8 px-3".to_string()),
            ("md".to_string(), "h-10 px-4".to_string()),
        ],
        base_classes: "inline-flex items-center".to_string(),
        disabled_classes: "opacity-50".to_string(),
        default_variant: "primary".to_string(),
        default_size: "md".to_string(),
        observed_attributes: vec!["variant".to_string(), "size".to_string()],
        dynamic_class_patterns: vec![],
    };

    let output = generate_web_component("my-button", &structure, ".bg-primary {\n}");

    assert!(output.contains("class MyButton extends HTMLElement"));
    assert!(output.contains("static observedAttributes"));
    assert!(output.contains("customElements.define('my-button'"));
    assert!(output.contains("bg-primary"));
    assert!(output.contains("adoptedStyleSheets"));
}

const SCOPED_CSS: &str = ":host {\n  --color-primary: oklch(0.645 0.12 180);\n}\n\n.bg-primary {\n  background-color: var(--color-primary);\n}";

/// The isolation contract, asserted structurally on the generated JS:
/// component CSS enters only through the shadow root, never the page.
fn assert_style_isolated(js: &str) {
    // Open shadow root.
    assert!(
        js.contains("this.attachShadow({ mode: 'open' })"),
        "must attach an open shadow root"
    );
    // CSS delivered via adoptedStyleSheets on the shadow root.
    assert!(
        js.contains("this.shadowRoot.adoptedStyleSheets = [componentStyles()]"),
        "must adopt component styles onto the shadow root"
    );
    assert!(
        js.contains("componentSheet.replaceSync(componentCss)"),
        "must build the sheet from the embedded scoped CSS"
    );
    // Zero page-global style interaction: nothing read from or written
    // to the host document's styles.
    assert!(!js.contains("document.styleSheets"));
    assert!(!js.contains("document.head"));
    assert!(!js.contains("document.adoptedStyleSheets"));
    assert!(!js.contains("<style"));
    assert!(!js.contains("<link"));
    assert!(!js.contains("createElement('style')"));
    assert!(!js.contains("createElement('link')"));
    assert!(!js.contains("data-veneer-component"));
    // No framework runtime.
    assert!(!js.contains("import "));
    assert!(!js.contains("require("));
    assert!(!js.to_lowercase().contains("react"));
}

#[test]
fn web_component_embeds_scoped_css_and_isolates_styles() {
    let structure = make_full_structure();
    let output = generate_web_component("button-preview", &structure, SCOPED_CSS);

    assert_style_isolated(&output);
    // The scoped CSS itself is embedded in the module (JS-escaped).
    assert!(output.contains("background-color: var(--color-primary);"));
    assert!(output.contains(":host {"));
}

#[test]
fn passthrough_web_component_embeds_scoped_css_and_isolates_styles() {
    let output = generate_passthrough_web_component("card-preview", SCOPED_CSS);

    assert_style_isolated(&output);
    assert!(output.contains("background-color: var(--color-primary);"));
    assert!(output.contains("customElements.define('card-preview'"));
}

#[test]
fn web_component_block_carries_scoped_css() {
    let structure = make_full_structure();
    let block = web_component_block("button-preview", &structure, SCOPED_CSS);

    assert_style_isolated(&block.web_component);
    assert_eq!(block.tag_name, "button-preview");
    assert!(block.classes_used.contains(&"bg-primary".to_string()));
}

const FULL_CSS: &str = r#"
@theme {
  --color-primary: oklch(0.645 0.12 180);
}

@utility bg-primary {
  background-color: var(--color-primary);
}

@utility h-8 {
  height: 2rem;
}
"#;

#[test]
fn scoped_block_resolves_css_from_full_stylesheet() {
    let structure = make_full_structure();
    let (block, _unmatched) = scoped_web_component_block("button-preview", &structure, FULL_CSS)
        .expect("classes match rules in the stylesheet");

    assert_style_isolated(&block.web_component);
    // The @utility block arrives as a plain class rule, shadow-adoptable.
    assert!(block
        .web_component
        .contains("background-color: var(--color-primary);"));
    assert!(!block.web_component.contains("@utility"));
}

#[test]
fn scoped_block_errors_naming_component_when_no_css_matches() {
    let structure = make_full_structure();
    let result = scoped_web_component_block(
        "button-preview",
        &structure,
        "@utility unrelated {\n  color: red;\n}\n",
    );

    let error = result.expect_err("no class matches any rule");
    let message = error.message();
    assert!(
        message.contains("Button"),
        "error must name the component: {message}"
    );
    assert!(matches!(
        error,
        TransformError::RenderFailed { ref component, .. } if component == "Button"
    ));
}

#[test]
fn scoped_block_errors_naming_component_on_empty_stylesheet() {
    let structure = make_full_structure();
    let error = scoped_web_component_block("button-preview", &structure, "")
        .expect_err("empty stylesheet with classes requested");
    assert!(error.message().contains("Button"));
}

fn make_full_structure() -> ComponentStructure {
    ComponentStructure {
        name: "Button".to_string(),
        variant_lookup: vec![
            ("primary".to_string(), "bg-primary".to_string()),
            ("secondary".to_string(), "bg-secondary".to_string()),
            ("destructive".to_string(), "bg-destructive".to_string()),
        ],
        size_lookup: vec![
            ("sm".to_string(), "h-8 px-3".to_string()),
            ("md".to_string(), "h-10 px-4".to_string()),
            ("lg".to_string(), "h-12 px-6".to_string()),
        ],
        base_classes: "inline-flex items-center".to_string(),
        disabled_classes: "opacity-50".to_string(),
        default_variant: "primary".to_string(),
        default_size: "md".to_string(),
        observed_attributes: vec![
            "variant".to_string(),
            "size".to_string(),
            "disabled".to_string(),
            "loading".to_string(),
        ],
        dynamic_class_patterns: vec![],
    }
}

