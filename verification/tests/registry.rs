use veneer::react::ComponentStructure;
use veneer::registry::{
    build_structure_from_exports, candidate_file_kind, discover_exports, export_of, ExportRead, PropertyRead, classes_file_item_name, identity_fold,
    kebab_to_pascal, CachedComponent, ComponentRegistry, DiscoveredExport, DiscoveredItem,
    DiscoveredKind, DiscoveredSet, ExportRole, ExportShape, RegistryError, SourceFileKind,
};

#[test]
fn kebab_to_pascal_works() {
    assert_eq!(kebab_to_pascal("badge"), "Badge");
    assert_eq!(kebab_to_pascal("context-menu"), "ContextMenu");
    assert_eq!(kebab_to_pascal("alert-dialog"), "AlertDialog");
}

#[test]
fn classify_export_names() {
    assert_eq!(ExportRole::classify("badgeVariantClasses"), ExportRole::Variant);
    assert_eq!(ExportRole::classify("buttonSizeClasses"), ExportRole::Size);
    assert_eq!(ExportRole::classify("inputBaseClasses"), ExportRole::Base);
    assert_eq!(ExportRole::classify("switchTrackDisabledClasses"), ExportRole::Disabled);
    assert_eq!(ExportRole::classify("accordionItemClasses"), ExportRole::Other);
    assert_eq!(ExportRole::classify("typographyClasses"), ExportRole::Other);
    assert_eq!(ExportRole::classify("gridGoldenClasses"), ExportRole::Other);
}

fn record(name: &str, entries: &[(&str, &str)]) -> DiscoveredExport {
    DiscoveredExport {
        name: name.to_string(),
        shape: ExportShape::Record {
            entries: entries.iter().map(|(k, v)| (k.to_string(), v.to_string())).collect(),
        },
    }
}

fn scalar(name: &str, value: &str) -> DiscoveredExport {
    DiscoveredExport { name: name.to_string(), shape: ExportShape::Scalar { value: value.to_string() } }
}

#[test]
fn prefixed_variant_and_size_records_build_a_structure() {
    let structure = build_structure_from_exports(
        "Badge",
        vec![
            record("badgeVariantClasses", &[("default", "bg-primary"), ("secondary", "bg-secondary")]),
            record("badgeSizeClasses", &[("sm", "px-2"), ("lg", "px-3")]),
            scalar("badgeBaseClasses", "inline-flex   items-center"),
        ],
    )
    .expect("content found");
    assert_eq!(structure.name, "Badge");
    assert_eq!(structure.variant_lookup.len(), 2);
    assert_eq!(structure.size_lookup.len(), 2);
    assert_eq!(structure.base_classes, "inline-flex items-center");
    assert_eq!(structure.default_variant, "default");
    assert_eq!(structure.default_size, "sm");
    assert_eq!(structure.observed_attributes, ["variant", "size"]);
    assert_eq!(structure.disabled_classes, "opacity-50 pointer-events-none cursor-not-allowed");
}

#[test]
fn structural_exports_become_base_classes() {
    let structure = build_structure_from_exports(
        "Accordion",
        vec![
            scalar("accordionItemClasses", "border-b"),
            scalar("accordionTriggerClasses", "flex items-center"),
            record("accordionStateClasses", &[("open", "block"), ("closed", "")]),
            record("accordionDisabledClasses", &[("a", "opacity-40"), ("b", "")]),
        ],
    )
    .expect("content found");
    assert!(structure.variant_lookup.is_empty());
    assert_eq!(structure.base_classes, "border-b flex items-center block");
    assert_eq!(structure.disabled_classes, "opacity-40");
    assert_eq!(structure.default_variant, "default");
    assert!(structure.observed_attributes.is_empty());
}

#[test]
fn a_second_variant_record_feeds_the_base_classes() {
    let structure = build_structure_from_exports(
        "Tabs",
        vec![
            record("tabsVariantClasses", &[("line", "border-b")]),
            record("tabsTriggerVariantClasses", &[("line", "px-2"), ("pill", "")]),
        ],
    )
    .expect("content found");
    assert_eq!(structure.variant_lookup, [("line".to_string(), "border-b".to_string())]);
    assert_eq!(structure.base_classes, "px-2");
}

#[test]
fn nothing_renderable_is_no_structure() {
    assert!(build_structure_from_exports("Empty", vec![]).is_none());
    assert!(build_structure_from_exports("Blank", vec![scalar("blankClasses", "")]).is_none());
}

#[test]
fn candidate_files_are_classified_by_name() {
    assert_eq!(candidate_file_kind("badge.classes.ts"), Some(SourceFileKind::ClassesTs));
    assert_eq!(candidate_file_kind("button.tsx"), Some(SourceFileKind::ComponentModule));
    assert_eq!(candidate_file_kind("button.jsx"), Some(SourceFileKind::ComponentModule));
    assert_eq!(candidate_file_kind("button.test.tsx"), None);
    assert_eq!(candidate_file_kind("button.stories.tsx"), None);
    assert_eq!(candidate_file_kind("index.tsx"), None);
    assert_eq!(candidate_file_kind("button.ts"), None);
    assert_eq!(candidate_file_kind(".tsx"), None);
    assert_eq!(classes_file_item_name("context-menu.classes.ts"), "ContextMenu");
}

fn cached(name: &str) -> CachedComponent {
    CachedComponent {
        name: name.to_string(),
        source_path: format!("components/{name}.tsx"),
        structure: ComponentStructure {
            name: name.to_string(),
            variant_lookup: vec![("primary".to_string(), "bg-blue-500".to_string())],
            size_lookup: vec![],
            base_classes: String::new(),
            disabled_classes: String::new(),
            default_variant: "primary".to_string(),
            default_size: "default".to_string(),
            observed_attributes: vec!["variant".to_string()],
            dynamic_class_patterns: vec![],
        },
        source: String::new(),
    }
}

#[test]
fn registry_looks_up_names_ignoring_case_and_keeps_the_first() {
    let mut registry = ComponentRegistry::new();
    assert!(registry.register(cached("Button")));
    assert!(!registry.register(cached("button")));
    assert!(registry.register(cached("Badge")));
    assert!(registry.contains("BUTTON"));
    assert_eq!(registry.get("button").unwrap().name, "Button");
    assert_eq!(registry.names(), ["Button", "Badge"]);
    assert!(registry.get("Card").is_none());
}

#[test]
fn registry_generates_web_components_or_names_the_missing_one() {
    let mut registry = ComponentRegistry::new();
    registry.register(cached("Button"));
    let block = registry.generate_web_component("Button", "button-preview").unwrap();
    assert_eq!(block.tag_name, "button-preview");
    assert!(block.web_component.contains("bg-blue-500"));
    assert_eq!(block.classes_used, ["bg-blue-500"]);
    assert_eq!(block.attributes, ["variant"]);
    match registry.generate_web_component("Card", "card-preview") {
        Err(RegistryError::ComponentNotFound(name)) => assert_eq!(name, "Card"),
        other => panic!("expected ComponentNotFound, got {other:?}"),
    }
}

fn item(name: &str, kind: DiscoveredKind, generated: bool) -> DiscoveredItem {
    DiscoveredItem {
        name: name.to_string(),
        kind,
        source_path: format!("src/{name}"),
        generated,
        unsupported_framework: None,
    }
}

#[test]
fn discovered_sightings_merge_and_sort_by_name() {
    assert_eq!(identity_fold("Hero_Banner-x"), "herobannerx");
    let mut set = DiscoveredSet::new();
    set.record(item("hero-banner", DiscoveredKind::Composite, false));
    set.record(item("Button", DiscoveredKind::Component, false));
    set.record(item("HeroBanner", DiscoveredKind::Composite, true));
    set.record(item("button", DiscoveredKind::Component, true));
    set.record(item("Button", DiscoveredKind::Composite, false));
    let items = set.into_sorted();
    let names: Vec<(&str, DiscoveredKind, bool)> =
        items.iter().map(|i| (i.name.as_str(), i.kind, i.generated)).collect();
    assert_eq!(
        names,
        [
            ("Button", DiscoveredKind::Composite, false),
            ("HeroBanner", DiscoveredKind::Composite, true),
            ("button", DiscoveredKind::Component, true),
        ]
    );
}

fn shape_of(e: &DiscoveredExport) -> (String, Vec<(String, String)>, Option<String>) {
    match &e.shape {
        ExportShape::Record { entries } => (e.name.clone(), entries.clone(), None),
        ExportShape::Scalar { value } => (e.name.clone(), Vec::new(), Some(value.clone())),
    }
}

fn kv(k: &str, v: &str) -> (String, String) {
    (k.to_string(), v.to_string())
}

#[test]
fn a_flat_object_export_keeps_its_static_string_properties() {
    let value = ExportRead::Object(vec![
        ("default".to_string(), PropertyRead::Text("bg-primary".to_string())),
        ("computed".to_string(), PropertyRead::Unread),
        ("outline".to_string(), PropertyRead::Text("border".to_string())),
    ]);
    let e = export_of("badgeVariantClasses", value).unwrap();
    let (name, entries, scalar) = shape_of(&e);
    assert_eq!(name, "badgeVariantClasses");
    assert_eq!(entries, vec![kv("default", "bg-primary"), kv("outline", "border")]);
    assert_eq!(scalar, None);
}

#[test]
fn one_nested_property_makes_the_record_keep_nested_and_flat_entries() {
    let value = ExportRead::Object(vec![
        ("root".to_string(), PropertyRead::Text("flex".to_string())),
        ("item".to_string(), PropertyRead::Nested("p-2 m-1".to_string())),
    ]);
    let (_, entries, _) = shape_of(&export_of("menuClasses", value).unwrap());
    assert_eq!(entries, vec![kv("root", "flex"), kv("item", "p-2 m-1")]);
}

#[test]
fn an_object_with_nothing_readable_gives_no_export() {
    let value = ExportRead::Object(vec![("x".to_string(), PropertyRead::Unread)]);
    assert!(export_of("xClasses", value).is_none());
    assert!(export_of("yClasses", ExportRead::Object(Vec::new())).is_none());
}

#[test]
fn strings_and_arrays_give_scalar_exports() {
    let (_, _, s) = shape_of(&export_of("a", ExportRead::Text("p-4".to_string())).unwrap());
    assert_eq!(s, Some("p-4".to_string()));
    assert!(export_of("b", ExportRead::Text(String::new())).is_none());

    let parts = vec!["flex".to_string(), String::new(), "gap-2".to_string()];
    let (_, _, s) = shape_of(&export_of("c", ExportRead::Array(parts.clone())).unwrap());
    assert_eq!(s, Some("flex gap-2".to_string()));
    let (_, _, s) =
        shape_of(&export_of("d", ExportRead::JoinedArray(parts.clone(), Some(",".to_string()))).unwrap());
    assert_eq!(s, Some("flex,gap-2".to_string()));
    let (_, _, s) = shape_of(&export_of("e", ExportRead::JoinedArray(parts, None)).unwrap());
    assert_eq!(s, Some("flex gap-2".to_string()));
    assert!(export_of("f", ExportRead::Array(vec![String::new()])).is_none());
    assert!(export_of("g", ExportRead::Unread).is_none());
}

#[test]
fn discover_exports_finds_all_shapes() {
    let source = r#"
export const fooVariantClasses: Record<string, string> = {
  primary: 'bg-blue',
  secondary: 'bg-gray',
};

export const fooBaseClasses = 'inline-flex items-center';

export const fooDisabledClasses = 'opacity-50';
        "#;
    let exports = discover_exports(source);
    assert_eq!(exports.len(), 3);
}

#[test]
fn exported_joins_and_nested_records_are_read_from_source() {
    let source = r#"
export const menuClasses = {
  root: 'flex',
  item: { base: 'p-2', active: `bg-${tone}` },
  1: 'gap-1',
};
export const barBaseClasses = ['h-2', '', 'w-full'].join('-');
const hidden = 'not-exported';
        "#;
    let exports = discover_exports(source);
    assert_eq!(exports.len(), 2);
    let (name, entries, _) = shape_of(&exports[0]);
    assert_eq!(name, "menuClasses");
    assert_eq!(entries, vec![kv("root", "flex"), kv("item", "p-2"), kv("1", "gap-1")]);
    let (_, _, value) = shape_of(&exports[1]);
    assert_eq!(value, Some("h-2-w-full".to_string()));
}
