use veneer::config_interface::{
    attribute_name, merge_props, parse_config_interface, parse_module, ConfigInterface, ExtendsResolver, ParsedModule, ResolveStep, ResolvedConfig,
};
use veneer::intelligence::PropDoc;

#[test]
fn camel_case_keys_become_kebab_case_attributes() {
    assert_eq!(attribute_name("delayDuration"), "delay-duration");
    assert_eq!(attribute_name("modal"), "modal");
    assert_eq!(attribute_name("variant"), "variant");
}

fn prop(name: &str, ty: &str) -> PropDoc {
    PropDoc { name: name.to_string(), type_text: Some(ty.to_string()), optional: false }
}

#[test]
fn own_props_shadow_inherited_ones() {
    let mut props = vec![prop("variant", "'a' | 'b'")];
    merge_props(&mut props, &[prop("disabled", "boolean"), prop("variant", "string"), prop("disabled", "never")]);
    assert_eq!(props, [prop("variant", "'a' | 'b'"), prop("disabled", "boolean")]);
}

fn opt_prop(name: &str, ty: &str) -> PropDoc {
    PropDoc { name: name.to_string(), type_text: Some(ty.to_string()), optional: true }
}

fn iface(name: &str, own: Vec<PropDoc>, extends: &[&str]) -> ConfigInterface {
    ConfigInterface { name: name.to_string(), own_props: own, extends: extends.iter().map(|e| e.to_string()).collect() }
}

fn module(interfaces: Vec<ConfigInterface>, imports: &[(&str, &str)]) -> ParsedModule {
    ParsedModule {
        interfaces,
        imports: imports.iter().map(|(n, s)| (n.to_string(), s.to_string())).collect(),
    }
}

/// Runs a resolver to the end, serving each requested specifier from
/// `files` (nothing when it is not there); the specifiers requested, in
/// order, and the result.
fn run(start: ParsedModule, files: &[(&str, fn() -> ParsedModule)]) -> (Vec<String>, Option<ResolvedConfig>) {
    let mut asked = Vec::new();
    let Some(mut r) = ExtendsResolver::start(start) else {
        return (asked, None);
    };
    loop {
        match r.step() {
            ResolveStep::Done => break,
            ResolveStep::Continue => {}
            ResolveStep::Load { specifier, .. } => {
                let found = files.iter().find(|(s, _)| *s == specifier).map(|(_, f)| f());
                asked.push(specifier);
                r.loaded(found);
            }
        }
    }
    (asked, Some(r.finish()))
}

fn names(c: &ResolvedConfig) -> Vec<&str> {
    c.props.iter().map(|p| p.name.as_str()).collect()
}

fn base_module() -> ParsedModule {
    module(vec![iface("BaseConfig", vec![opt_prop("open", "boolean"), opt_prop("defaultOpen", "boolean")], &[])], &[])
}

#[test]
fn an_imported_base_is_read_and_its_props_follow_the_own_ones() {
    let widget = module(vec![iface("WidgetConfig", vec![prop("label", "string")], &["BaseConfig"])], &[("BaseConfig", "./base")]);
    let (asked, resolved) = run(widget, &[("./base", base_module)]);
    let resolved = resolved.unwrap();
    assert_eq!(asked, ["./base"]);
    assert_eq!(resolved.name, "WidgetConfig");
    assert!(resolved.unresolved_extends.is_empty());
    assert_eq!(names(&resolved), ["label", "open", "defaultOpen"]);
}

#[test]
fn a_base_that_cannot_be_read_is_named_unresolved() {
    let widget = module(
        vec![iface("WidgetConfig", vec![prop("label", "string")], &["ExternalConfig", "LooseConfig"])],
        &[("ExternalConfig", "some-pkg")],
    );
    let (asked, resolved) = run(widget, &[]);
    let resolved = resolved.unwrap();
    assert_eq!(asked, ["some-pkg"]);
    assert_eq!(names(&resolved), ["label"]);
    assert_eq!(resolved.unresolved_extends, ["ExternalConfig", "LooseConfig"]);
}

#[test]
fn a_nearer_prop_shadows_an_inherited_one() {
    fn base() -> ParsedModule {
        module(vec![iface("BaseConfig", vec![opt_prop("disabled", "boolean"), opt_prop("extra", "string")], &[])], &[])
    }
    let widget = module(vec![iface("WidgetConfig", vec![prop("disabled", "boolean")], &["BaseConfig"])], &[("BaseConfig", "./base")]);
    let resolved = run(widget, &[("./base", base)]).1.unwrap();
    assert_eq!(resolved.props.len(), 2);
    assert!(!resolved.props[0].optional);
    assert_eq!(names(&resolved), ["disabled", "extra"]);
}

#[test]
fn local_bases_are_followed_once_even_in_a_cycle() {
    let m = module(
        vec![
            iface("AConfig", vec![prop("a", "string")], &["BConfig"]),
            iface("BConfig", vec![prop("b", "string")], &["AConfig", "BConfig"]),
        ],
        &[],
    );
    let (asked, resolved) = run(m, &[]);
    assert!(asked.is_empty());
    let resolved = resolved.unwrap();
    assert_eq!(names(&resolved), ["a", "b"]);
    assert!(resolved.unresolved_extends.is_empty());
}

#[test]
fn the_chain_is_not_followed_past_the_depth_limit() {
    let mut ifaces = Vec::new();
    for k in 0..12 {
        let name = format!("Level{k}Config");
        let next = format!("Level{}Config", k + 1);
        ifaces.push(iface(&name, vec![prop(&format!("p{k}"), "string")], &[next.as_str()]));
    }
    let resolved = run(module(ifaces, &[]), &[]).1.unwrap();
    let expected: Vec<String> = (0..9).map(|k| format!("p{k}")).collect();
    assert_eq!(names(&resolved), expected.iter().map(|s| s.as_str()).collect::<Vec<_>>());
}

#[test]
fn a_module_without_a_config_interface_starts_nothing() {
    let m = module(vec![iface("ButtonState", vec![prop("open", "boolean")], &[])], &[]);
    assert!(ExtendsResolver::start(m).is_none());
}

const BUTTON_BEHAVIOR: &str = r#"
        import { pressable, type PressableConfig } from '../../lib/pressable';
        export type ButtonVariant = 'default' | 'secondary';
        export type ButtonSize = 'default' | 'sm';
        export interface ButtonConfig extends PressableConfig {
          variant: ButtonVariant;
          size: ButtonSize;
        }
        export const button = pressable();
    "#;

const DIALOG_BEHAVIOR: &str = r#"
        import { disclosable, type DisclosableConfig } from '../../lib/disclosable';
        export interface DialogConfig extends DisclosableConfig {
          /** Modal dialogs trap focus. Default: true. */
          modal?: boolean | undefined;
        }
    "#;

#[test]
fn reads_own_props_and_names_the_extended_base() {
    let config = parse_config_interface(BUTTON_BEHAVIOR).expect("parses").expect("has a Config interface");
    assert_eq!(config.name, "ButtonConfig");
    assert_eq!(config.extends, ["PressableConfig"]);
    let names: Vec<&str> = config.own_props.iter().map(|p| p.name.as_str()).collect();
    assert_eq!(names, ["variant", "size"]);
    assert_eq!(config.own_props[0].type_text.as_deref(), Some("ButtonVariant"));
    assert!(!config.own_props[0].optional);
}

#[test]
fn an_optional_prop_carries_its_optional_flag_and_type() {
    let config = parse_config_interface(DIALOG_BEHAVIOR).expect("parses").expect("has a Config interface");
    assert_eq!(config.name, "DialogConfig");
    assert_eq!(config.extends, ["DisclosableConfig"]);
    assert_eq!(config.own_props.len(), 1);
    let modal = &config.own_props[0];
    assert_eq!(modal.name, "modal");
    assert!(modal.optional, "modal? is optional");
    assert_eq!(modal.type_text.as_deref(), Some("boolean | undefined"));
}

#[test]
fn a_behavior_without_a_config_interface_is_none_not_an_error() {
    let source = "export const x = 1; export interface ButtonState { open: boolean; }";
    assert_eq!(parse_config_interface(source).expect("parses"), None);
}

#[test]
fn a_config_with_no_extends_has_an_empty_base_list() {
    let source = "export interface RootConfig { id: string; }";
    let config = parse_config_interface(source).expect("parses").expect("has a Config interface");
    assert!(config.extends.is_empty());
    assert_eq!(config.own_props.len(), 1);
    assert_eq!(config.own_props[0].name, "id");
}

#[test]
fn a_module_lists_its_interfaces_and_named_imports() {
    let source = "import { BaseConfig, type Other } from './base';\nimport * as ns from 'pkg';\ninterface WidgetConfig extends BaseConfig { label: string; label: number; }";
    let m = parse_module(source).expect("parses");
    assert_eq!(m.interfaces.len(), 1);
    assert_eq!(m.interfaces[0].own_props.len(), 1);
    assert_eq!(m.interfaces[0].own_props[0].type_text.as_deref(), Some("string"));
    assert_eq!(m.imports, [("BaseConfig".to_string(), "./base".to_string()), ("Other".to_string(), "./base".to_string())]);
    assert!(parse_module("interface {").is_err());
}
