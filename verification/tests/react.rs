use veneer::react::{DeclaredValue, ModuleDeclarations, ReactAdapter};
use veneer::traits::{FrameworkAdapter, TransformContext};
use veneer::traits::TransformError;

fn entries(pairs: &[(&str, &str)]) -> Option<Vec<(String, String)>> {
    Some(pairs.iter().map(|(k, v)| (k.to_string(), v.to_string())).collect())
}

fn text(t: &str) -> DeclaredValue {
    DeclaredValue { entries: None, text: Some(t.to_string()), is_function: false }
}

#[test]
fn declarations_assemble_a_component_structure() {
    let mut d = ModuleDeclarations::new();
    d.record_variable(
        "variantClasses",
        DeclaredValue { entries: entries(&[("default", "bg-primary"), ("ghost", "bg-none")]), text: None, is_function: false },
    );
    d.record_variable("sizeClasses", DeclaredValue { entries: entries(&[("sm", "h-8")]), text: None, is_function: false });
    d.record_variable("baseClasses", text("  inline-flex \n  items-center "));
    d.record_variable("disabledCls", text("opacity-50"));
    d.record_variable("Button", DeclaredValue { entries: None, text: None, is_function: true });
    d.add_attribute("variant");
    d.add_attribute("variant");
    d.add_attribute("className");
    let s = d.into_structure().unwrap();
    assert_eq!(s.name, "Button");
    assert_eq!(s.base_classes, "inline-flex items-center");
    assert_eq!(s.disabled_classes, "opacity-50");
    assert_eq!(s.variant_lookup.len(), 2);
    assert_eq!(s.size_lookup, vec![("sm".to_string(), "h-8".to_string())]);
    assert_eq!(s.default_variant, "default");
    assert_eq!(s.observed_attributes, vec!["variant".to_string()]);
}

#[test]
fn the_first_pascal_case_function_names_the_component() {
    let mut d = ModuleDeclarations::new();
    d.name_component("helper");
    d.name_component("Card");
    d.name_component("CardHeader");
    d.record_variable("variantClasses", DeclaredValue { entries: entries(&[("a", "b")]), text: None, is_function: false });
    assert_eq!(d.into_structure().unwrap().name, "Card");
}

#[test]
fn declarations_without_variants_are_refused() {
    let mut d = ModuleDeclarations::new();
    d.record_variable("baseClasses", text("flex"));
    assert!(matches!(d.into_structure(), Err(TransformError::MissingVariants)));
}

#[test]
fn observed_attributes_come_from_props_and_parameters_once() {
    let mut d = ModuleDeclarations::new();
    d.record_variable("variantClasses", DeclaredValue { entries: entries(&[("default", "")]), text: None, is_function: false });
    for name in ["variant", "size", "disabled", "loading", "children", "className"] {
        d.add_attribute(name);
    }
    d.name_component("Button");
    for name in ["variant", "size", "disabled", "loading"] {
        d.add_attribute(name);
    }
    let structure = d.into_structure().unwrap();
    assert_eq!(structure.observed_attributes, ["variant", "size", "disabled", "loading"]);
    let stylesheet = "@utility opacity-50 { opacity: 0.5; }".to_string();
    let ctx = TransformContext { stylesheet, ..TransformContext::default() };
    let result = ReactAdapter::new().transform(&structure, "button-preview", &ctx).unwrap();
    assert_eq!(result.attributes, structure.observed_attributes);
    assert_eq!(result.tag_name, "button-preview");
    assert!(result.web_component.contains("button-preview"));
}

#[test]
fn a_default_context_refuses_a_component_that_declares_classes() {
    let mut d = ModuleDeclarations::new();
    d.record_variable("variantClasses", DeclaredValue { entries: entries(&[("primary", "bg-blue-500")]), text: None, is_function: false });
    d.name_component("Button");
    let structure = d.into_structure().unwrap();
    let result = ReactAdapter::new().transform(&structure, "my-button", &TransformContext::default());
    assert!(matches!(result, Err(TransformError::RenderFailed { .. })));
}

fn styled(css: &str) -> TransformContext {
    TransformContext { stylesheet: css.to_string(), ..TransformContext::default() }
}

#[test]
fn extracts_variant_classes() {
    let source = r#"
const variantClasses: Record<string, string> = {
  default: 'bg-primary text-primary-foreground',
  secondary: 'bg-secondary text-secondary-foreground',
};

export function Button() {
  return <button />;
}
        "#;
    let adapter = ReactAdapter::new();
    let structure = adapter.extract_structure(source).unwrap();
    let result = adapter
        .transform(&structure, "button-preview", &styled("@utility bg-primary { background: red; }"))
        .unwrap();
    assert!(result.web_component.contains("variantClasses"));
    assert!(result.web_component.contains("bg-primary"));
    assert!(result.classes_used.contains(&"bg-primary".to_string()));
}

#[test]
fn extracts_concatenated_base_classes() {
    let source = r#"
const variantClasses = { default: '' };
const baseClasses =
  'inline-flex items-center ' +
  'justify-center gap-2';

export function Button() {}
        "#;
    let structure = ReactAdapter::new().extract_structure(source).unwrap();
    assert!(structure.base_classes.contains("inline-flex"));
    assert!(structure.base_classes.contains("items-center"));
    assert!(structure.base_classes.contains("justify-center"));
}

#[test]
fn extracts_simple_base_classes() {
    let source = r#"
const variantClasses = { default: '' };
const baseClasses = 'inline-flex items-center';

export function Button() {}
        "#;
    let structure = ReactAdapter::new().extract_structure(source).unwrap();
    assert_eq!(structure.base_classes, "inline-flex items-center");
}

#[test]
fn errors_on_missing_variants() {
    let source = "export function Button() { return <button />; }";
    assert!(matches!(ReactAdapter::new().extract_structure(source), Err(TransformError::MissingVariants)));
}

#[test]
fn extracts_observed_attributes() {
    let source = r#"
const variantClasses = { default: '' };

interface ButtonProps {
  variant?: string;
  size?: string;
  disabled?: boolean;
  loading?: boolean;
}

export function Button({ variant, size, disabled, loading }: ButtonProps) {}
        "#;
    let adapter = ReactAdapter::new();
    let structure = adapter.extract_structure(source).unwrap();
    let result = adapter
        .transform(&structure, "button-preview", &styled("@utility opacity-50 { opacity: 0.5; }"))
        .unwrap();
    assert!(result.attributes.contains(&"variant".to_string()));
    assert!(result.attributes.contains(&"size".to_string()));
    assert!(result.attributes.contains(&"disabled".to_string()));
    assert!(result.attributes.contains(&"loading".to_string()));
}

#[test]
fn generates_valid_tag_name() {
    let source = r#"
const variantClasses = { primary: 'bg-blue-500' };
export function Button() {}
        "#;
    let adapter = ReactAdapter::new();
    let structure = adapter.extract_structure(source).unwrap();
    let result = adapter
        .transform(&structure, "my-button", &styled("@utility bg-blue-500 { background: blue; }"))
        .unwrap();
    assert_eq!(result.tag_name, "my-button");
    assert!(result.web_component.contains("my-button"));
}

#[test]
fn handles_as_const_satisfies_pattern() {
    let source = r#"
const variantClasses = {
  default: 'bg-primary text-primary-foreground',
  secondary: 'bg-secondary text-secondary-foreground',
} as const satisfies Record<string, string>;

export function Button() {}
        "#;
    let structure = ReactAdapter::new().extract_structure(source).unwrap();
    assert_eq!(structure.variant_lookup.len(), 2);
    assert_eq!(
        structure.variant_lookup[0],
        ("default".to_string(), "bg-primary text-primary-foreground".to_string())
    );
    assert_eq!(
        structure.variant_lookup[1],
        ("secondary".to_string(), "bg-secondary text-secondary-foreground".to_string())
    );
}

#[test]
fn handles_comments_inside_objects() {
    let source = r#"
const variantClasses = {
  // Primary variant for main actions
  default: 'bg-primary text-primary-foreground',
  /* Secondary variant for less important actions */
  secondary: 'bg-secondary text-secondary-foreground',
};

export function Button() {}
        "#;
    let structure = ReactAdapter::new().extract_structure(source).unwrap();
    assert_eq!(structure.variant_lookup.len(), 2);
    assert_eq!(
        structure.variant_lookup[0],
        ("default".to_string(), "bg-primary text-primary-foreground".to_string())
    );
}

#[test]
fn handles_template_literals_in_class_values() {
    let source = r#"
const variantClasses = {
  default: `bg-primary text-primary-foreground`,
  secondary: `bg-secondary text-secondary-foreground`,
};

const baseClasses = `inline-flex items-center`;

export function Button() {}
        "#;
    let structure = ReactAdapter::new().extract_structure(source).unwrap();
    assert_eq!(structure.variant_lookup.len(), 2);
    assert_eq!(
        structure.variant_lookup[0],
        ("default".to_string(), "bg-primary text-primary-foreground".to_string())
    );
    assert_eq!(structure.base_classes, "inline-flex items-center");
}
