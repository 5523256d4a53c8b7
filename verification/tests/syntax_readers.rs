use veneer::config_interface::{exported_config_of, interfaces_and_imports};
use veneer::inline::{inline_elements, PropValue};
use veneer::intelligence::facts_of_module;
use veneer::registry::{
    exports_of_module, extract_component_candidate, extract_from_source, source_sighting, DiscoveredKind,
    ExportShape, SourceFileKind,
};
use veneer::scope::classes_of_module;
use veneer::text::is_word_char;
use veneer::traits::TransformError;
use veneer::ts_syntax::{
    JsxAttrValue, JsxChildNode, JsxNode, JsxTop, TsDeclarator, TsExpr, TsInterface, TsKey, TsModule,
    TsPropSig, TsProperty, TsStatement,
};

fn s(x: &str) -> String {
    x.to_string()
}

fn exported_const(name: &str, init: TsExpr) -> TsStatement {
    TsStatement::Variables(true, vec![TsDeclarator { name: Some(s(name)), init: Some(init) }])
}

fn module(statements: Vec<TsStatement>) -> TsModule {
    TsModule { statements, clean: true }
}

#[test]
fn exports_of_a_module_follow_its_exported_constants() {
    let m = module(vec![
        exported_const("fooBaseClasses", TsExpr::Wrapped(Box::new(TsExpr::Str(s("flex gap-2"))))),
        TsStatement::Variables(false, vec![TsDeclarator { name: Some(s("hidden")), init: Some(TsExpr::Str(s("x"))) }]),
        exported_const("fooVariantClasses", TsExpr::Object(vec![
            TsProperty::Prop(TsKey::Ident(s("primary")), TsExpr::Str(s("bg-blue"))),
            TsProperty::Spread,
        ])),
    ]);
    let exports = exports_of_module(&m);
    assert_eq!(exports.len(), 2);
    assert_eq!(exports[0].name, "fooBaseClasses");
    assert!(matches!(&exports[0].shape, ExportShape::Scalar { value } if value == "flex gap-2"));
    assert!(matches!(&exports[1].shape, ExportShape::Record { entries } if entries == &vec![(s("primary"), s("bg-blue"))]));
    let unclean = TsModule { statements: vec![exported_const("a", TsExpr::Str(s("b")))], clean: false };
    assert!(exports_of_module(&unclean).is_empty());
}

#[test]
fn classes_of_a_module_are_its_sorted_tokens() {
    let m = module(vec![exported_const(
        "cls",
        TsExpr::Conditional(Box::new(TsExpr::Str(s("b a"))), Box::new(TsExpr::Str(s("a c")))),
    )]);
    assert_eq!(classes_of_module(&m), ["a", "b", "c"]);
}

fn config_iface(exported: bool, name: &str) -> TsStatement {
    TsStatement::Interface(exported, TsInterface {
        name: s(name),
        members: vec![
            Some(TsPropSig { key: TsKey::Ident(s("open")), type_text: Some(s("boolean  |\n undefined")), optional: true }),
            None,
        ],
        extends: vec![Some(s("BaseConfig")), None],
    })
}

#[test]
fn interfaces_imports_and_the_exported_config_of_a_module() {
    let m = module(vec![
        TsStatement::Import(s("./base"), vec![Some(s("BaseConfig")), None]),
        config_iface(false, "LocalConfig"),
        config_iface(true, "DialogConfig"),
    ]);
    let parsed = interfaces_and_imports(&m).unwrap();
    assert_eq!(parsed.interfaces.len(), 2);
    assert_eq!(parsed.imports, [(s("BaseConfig"), s("./base"))]);
    let c = exported_config_of(&m).unwrap().unwrap();
    assert_eq!(c.name, "DialogConfig");
    assert_eq!(c.extends, ["BaseConfig"]);
    assert_eq!(c.own_props[0].type_text.as_deref(), Some("boolean | undefined"));
    let unclean = TsModule { statements: vec![], clean: false };
    assert!(interfaces_and_imports(&unclean).is_err());
    assert!(exported_config_of(&unclean).is_err());
}

#[test]
fn module_facts_of_a_parsed_module() {
    let m = module(vec![
        TsStatement::Import(s("react"), vec![]),
        TsStatement::Import(s("./local"), vec![]),
        TsStatement::Interface(false, TsInterface {
            name: s("ButtonProps"),
            members: vec![Some(TsPropSig { key: TsKey::Str(s("size")), type_text: None, optional: false })],
            extends: vec![],
        }),
    ]);
    let facts = facts_of_module("button.tsx", &m).unwrap();
    assert_eq!(facts.external_imports, ["react"]);
    assert_eq!(facts.props.len(), 1);
    assert_eq!(facts.props[0].name, "size");
    let unclean = TsModule { statements: vec![], clean: false };
    assert_eq!(facts_of_module("x.ts", &unclean).unwrap_err(), "failed to parse x.ts while reading props and imports");
}

fn node(name: &str, attributes: Vec<Option<(String, JsxAttrValue)>>) -> JsxNode {
    JsxNode {
        name: s(name),
        attributes,
        children: vec![JsxChildNode::Text(s("  Save  "))],
        children_text: s("  Save  "),
        self_closing: false,
    }
}

#[test]
fn inline_elements_of_parsed_statements() {
    let tops = vec![
        JsxTop::Element(node("Button", vec![
            Some((s("variant"), JsxAttrValue::Str(s("a")))),
            None,
            Some((s("disabled"), JsxAttrValue::Absent)),
            Some((s("variant"), JsxAttrValue::Code(s("x")))),
        ])),
        JsxTop::Other,
        JsxTop::Fragment(vec![None, Some(node("Icon", vec![Some((s("on"), JsxAttrValue::Empty))]))]),
    ];
    let els = inline_elements(&tops);
    assert_eq!(els.len(), 2);
    assert_eq!(els[0].props, [(s("variant"), PropValue::Expression(s("x"))), (s("disabled"), PropValue::Boolean(true))]);
    assert_eq!(els[0].children, Some(s("Save")));
    assert_eq!(els[1].component, "Icon");
    assert_eq!(els[1].props, [(s("on"), PropValue::Expression(String::new()))]);
}

#[test]
fn extracting_a_candidate_file_by_its_kind() {
    let (name, structure) = extract_from_source(
        SourceFileKind::ClassesTs,
        "badge.classes.ts",
        "src/badge.classes.ts",
        "export const badgeVariantClasses = { primary: 'bg-blue' };",
    );
    assert_eq!(name, "Badge");
    assert_eq!(structure.unwrap().variant_lookup, [(s("primary"), s("bg-blue"))]);
    let (name, structure) = extract_from_source(SourceFileKind::ClassesTs, "empty.classes.ts", "empty.classes.ts", "");
    assert_eq!(name, "Empty");
    assert!(matches!(structure, Err(TransformError::MissingVariants)));
    let (name, structure) = extract_component_candidate("src/ui/card-header.tsx", "export function X() {}").unwrap();
    assert!(matches!(structure, Err(TransformError::MissingVariants)));
    assert_eq!(name, "CardHeader");
    assert!(extract_component_candidate("src/ui/readme.md", "").is_none());
}

#[test]
fn a_sighting_is_a_composite_only_under_the_composites_root() {
    let a = source_sighting(s("Form"), "/p/composites/form.tsx", Some("/p/composites"), true);
    assert_eq!(a.kind, DiscoveredKind::Composite);
    assert!(a.generated);
    let b = source_sighting(s("Form"), "/p/composites-old/form.tsx", Some("/p/composites"), false);
    assert_eq!(b.kind, DiscoveredKind::Component);
    assert!(!b.generated);
    assert_eq!(source_sighting(s("X"), "x.tsx", None, true).kind, DiscoveredKind::Component);
}

#[test]
fn word_characters_are_the_unicode_word_class() {
    assert!(is_word_char('a') && is_word_char('Z') && is_word_char('7') && is_word_char('_'));
    assert!(!is_word_char('-') && !is_word_char(' ') && !is_word_char('.'));
    assert!(is_word_char('é'));
    assert!(is_word_char('\u{301}'));
    assert!(is_word_char('\u{203F}'));
    assert!(!is_word_char('²'));
}
