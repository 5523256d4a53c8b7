use veneer::intelligence::{
    collect_jsdoc_intelligence, constraints_from_patterns, jsdoc_blocks, jsdoc_tags,
    parse_cognitive_load, parse_do_never_lines, preview_tag_name, push_unique_dependency,
    token_references, CognitiveLoad, Constraint, ConstraintKind, DependencyOrigin, DependencyRef,
    JsDocIntelligence, PropDoc,
};
use veneer::intelligence::{compile_intelligence, manifest_intelligence};
use veneer::rafters_source::UsagePatterns;

#[test]
fn cognitive_load_parses_canonical_and_bare_forms() {
    let full = parse_cognitive_load("3/10 - Simple action trigger").expect("full form");
    assert_eq!(full.score, 3);
    assert_eq!(full.description.as_deref(), Some("Simple action trigger"));

    let bare = parse_cognitive_load("7").expect("bare form");
    assert_eq!(bare.score, 7);
    assert_eq!(bare.description, None);

    assert_eq!(parse_cognitive_load("11/10 - impossible"), None);
    assert_eq!(parse_cognitive_load("high"), None);
}

#[test]
fn legacy_do_never_tags_are_collected() {
    let source = r#"
/**
 * Widget.
 *
 * @do Pair with a label
 * @never Use for primary navigation
 */
export const widgetBaseClasses = 'flex';
        "#;
    let mut intelligence = JsDocIntelligence::default();
    collect_jsdoc_intelligence(source, &mut intelligence);
    assert_eq!(
        intelligence.do_never,
        [
            Constraint {
                kind: ConstraintKind::Do,
                text: "Pair with a label".to_string(),
            },
            Constraint {
                kind: ConstraintKind::Never,
                text: "Use for primary navigation".to_string(),
            },
        ]
    );
}

#[test]
fn preview_tag_names_are_kebab_cased() {
    assert_eq!(preview_tag_name("Button"), "button-preview");
    assert_eq!(preview_tag_name("SplitPanel"), "split-panel-preview");
    assert_eq!(preview_tag_name("hero-banner"), "hero-banner-preview");
}

#[test]
fn cognitive_load_edge_forms() {
    // Leading zeros and white space are accepted; the bound is inclusive.
    let ten = parse_cognitive_load("  010/10 -   at   the   limit ").expect("ten");
    assert_eq!(ten, CognitiveLoad { score: 10, description: Some("at the limit".to_string()) });
    // A huge digit run is no declaration, never an overflow.
    assert_eq!(parse_cognitive_load("99999999999999999999999"), None);
    assert_eq!(parse_cognitive_load(""), None);
    let no_dash = parse_cognitive_load("4/10 calm").expect("no dash");
    assert_eq!(no_dash.description.as_deref(), Some("calm"));
}

#[test]
fn usage_pattern_lines_start_and_continue_rules() {
    let mut rules = Vec::new();
    parse_do_never_lines(
        "DO: Primary: main goal\n  spanning lines\nnever: two at once\n\n",
        &mut rules,
    );
    assert_eq!(
        rules,
        [
            Constraint { kind: ConstraintKind::Do, text: "Primary: main goal spanning lines".to_string() },
            Constraint { kind: ConstraintKind::Never, text: "two at once".to_string() },
        ]
    );
    // A continuation with no rule before it is dropped.
    let mut none = Vec::new();
    parse_do_never_lines("just prose", &mut none);
    assert!(none.is_empty());
}

#[test]
fn jsdoc_blocks_strip_decoration_and_skip_unclosed() {
    let blocks = jsdoc_blocks("/**\n * a\n *b\n */ x /** one */ /** open");
    assert_eq!(blocks, ["\na\nb\n", "one "]);
    let tags = jsdoc_tags("Intro\n@Cognitive-Load 3/10\n  more\n@dependencies react (peer)");
    assert_eq!(tags.len(), 2);
    assert_eq!(tags[0].name, "cognitive-load");
    assert_eq!(tags[0].value, "3/10\nmore");
    assert_eq!(tags[1].value, "react (peer)");
}

#[test]
fn jsdoc_intelligence_merges_in_encounter_order() {
    let source = "/**\n * @cognitive-load 2/10 - first\n * @dependencies a b (note) c\n */\n\
                  /**\n * @cognitive-load 9/10 - second\n * @usage-patterns\n * DO: one\n * NEVER: two\n * @dependencies b d\n */";
    let mut intelligence = JsDocIntelligence::default();
    collect_jsdoc_intelligence(source, &mut intelligence);
    assert_eq!(
        intelligence.cognitive_load,
        Some(CognitiveLoad { score: 2, description: Some("first".to_string()) })
    );
    assert_eq!(intelligence.dependencies, ["a", "b", "d"]);
    assert_eq!(intelligence.do_never.len(), 2);
    assert_eq!(intelligence.do_never[1].kind, ConstraintKind::Never);
}

#[test]
fn manifest_patterns_become_do_then_never_rules() {
    let rules = constraints_from_patterns(UsagePatterns {
        do_patterns: vec!["a".to_string(), "b".to_string()],
        never: vec!["c".to_string()],
    });
    let kinds: Vec<ConstraintKind> = rules.iter().map(|r| r.kind).collect();
    assert_eq!(kinds, [ConstraintKind::Do, ConstraintKind::Do, ConstraintKind::Never]);
    assert_eq!(rules[2].text, "c");
}

#[test]
fn dependencies_are_recorded_once_per_origin() {
    let mut deps = Vec::new();
    push_unique_dependency(&mut deps, "react".to_string(), DependencyOrigin::Import);
    push_unique_dependency(&mut deps, "react".to_string(), DependencyOrigin::Import);
    push_unique_dependency(&mut deps, "react".to_string(), DependencyOrigin::JsDocTag);
    assert_eq!(
        deps,
        [
            DependencyRef { name: "react".to_string(), origin: DependencyOrigin::Import },
            DependencyRef { name: "react".to_string(), origin: DependencyOrigin::JsDocTag },
        ]
    );
}

fn declared_tokens() -> Vec<(String, String)> {
    [
        ("primary", "semantic"),
        ("primary-foreground", "semantic"),
        ("primary-ring", "semantic"),
        ("ring", "semantic"),
        ("secondary", "semantic"),
    ]
    .iter()
    .map(|(t, n)| (t.to_string(), n.to_string()))
    .collect()
}

#[test]
fn token_matching_prefers_the_longest_declared_name() {
    let declared = declared_tokens();
    let classes = vec![
        "focus-visible:ring-primary-ring".to_string(),
        "bg-primary".to_string(),
    ];
    let tokens = token_references(&classes, Some(&declared));
    let names: Vec<&str> = tokens.iter().map(|token| token.token.as_str()).collect();
    assert_eq!(names, ["primary", "primary-ring"]);
    assert_eq!(tokens[1].referenced_by, ["focus-visible:ring-primary-ring"]);
}

#[test]
fn no_declared_tokens_means_no_token_references() {
    let classes = vec!["bg-primary".to_string()];
    assert!(token_references(&classes, None).is_empty());
}

#[test]
fn token_references_merge_classes_sorted_and_without_repeats() {
    let declared = declared_tokens();
    let classes = vec![
        "text-primary".to_string(),
        "hover:bg-primary".to_string(),
        "bg-primary".to_string(),
        "text-primary".to_string(),
        "bg-secondary".to_string(),
        "primaryish".to_string(),
    ];
    let tokens = token_references(&classes, Some(&declared));
    assert_eq!(tokens.len(), 2);
    assert_eq!(tokens[0].token, "primary");
    assert_eq!(tokens[0].namespace, "semantic");
    assert_eq!(tokens[0].referenced_by, ["bg-primary", "hover:bg-primary", "text-primary"]);
    assert_eq!(tokens[1].token, "secondary");
    assert_eq!(tokens[1].referenced_by, ["bg-secondary"]);
}

#[test]
fn a_token_declared_in_two_namespaces_is_referenced_in_both_in_order() {
    let declared = vec![
        ("accent".to_string(), "semantic".to_string()),
        ("accent".to_string(), "color".to_string()),
    ];
    let classes = vec!["bg-accent".to_string()];
    let tokens = token_references(&classes, Some(&declared));
    let keys: Vec<(&str, &str)> = tokens
        .iter()
        .map(|t| (t.token.as_str(), t.namespace.as_str()))
        .collect();
    assert_eq!(keys, [("accent", "color"), ("accent", "semantic")]);
}

#[test]
fn the_first_cognitive_load_wins_across_blocks() {
    let source = "/**\n * @cognitive-load 2/10 - first\n */\n/**\n * @cognitive-load 9/10 - second\n * @do keep it short\n */\n";
    let mut intelligence = JsDocIntelligence::default();
    collect_jsdoc_intelligence(source, &mut intelligence);
    let load = intelligence.cognitive_load.expect("a load");
    assert_eq!(load.score, 2);
    assert_eq!(load.description.as_deref(), Some("first"));
    assert_eq!(intelligence.do_never.len(), 1);
    assert_eq!(intelligence.do_never[0].text, "keep it short");
}

#[test]
fn compiled_intelligence_holds_what_the_source_declares() {
    let props = vec![PropDoc { name: "variant".to_string(), type_text: Some("string".to_string()), optional: true }];
    let jsdoc = JsDocIntelligence {
        cognitive_load: Some(CognitiveLoad { score: 3, description: Some("Simple".to_string()) }),
        do_never: vec![Constraint { kind: ConstraintKind::Never, text: "Nest buttons".to_string() }],
        dependencies: vec!["react".to_string(), "clsx".to_string()],
    };
    let imports = vec!["react".to_string(), "@radix-ui/slot".to_string(), "react".to_string()];
    let variants = vec![("default".to_string(), "bg-primary".to_string())];
    let classes = vec!["bg-primary".to_string()];
    let declared = declared_tokens();
    let c = compile_intelligence(
        props.clone(),
        vec!["BaseConfig".to_string()],
        imports,
        jsdoc,
        &variants,
        &classes,
        Some(&declared),
    );
    assert_eq!(c.props, props);
    assert_eq!(c.config_extends, vec!["BaseConfig".to_string()]);
    assert_eq!(c.variants.len(), 1);
    assert_eq!(c.variants[0].name, "default");
    assert_eq!(c.variants[0].classes, "bg-primary");
    assert_eq!(c.cognitive_load.as_ref().map(|l| l.score), Some(3));
    assert_eq!(c.do_never.len(), 1);
    let deps: Vec<(&str, DependencyOrigin)> = c.dependencies.iter().map(|d| (d.name.as_str(), d.origin)).collect();
    assert_eq!(
        deps,
        vec![
            ("react", DependencyOrigin::Import),
            ("@radix-ui/slot", DependencyOrigin::Import),
            ("react", DependencyOrigin::JsDocTag),
            ("clsx", DependencyOrigin::JsDocTag),
        ]
    );
    let names: Vec<&str> = c.tokens.iter().map(|t| t.token.as_str()).collect();
    assert_eq!(names, ["primary"]);
}

#[test]
fn a_manifest_declares_only_its_load_and_rules() {
    let patterns = UsagePatterns { do_patterns: vec!["Group fields".to_string()], never: vec!["Nest forms".to_string()] };
    let c = manifest_intelligence(Some(4), Some(patterns));
    assert_eq!(c.cognitive_load, Some(CognitiveLoad { score: 4, description: None }));
    assert_eq!(
        c.do_never,
        vec![
            Constraint { kind: ConstraintKind::Do, text: "Group fields".to_string() },
            Constraint { kind: ConstraintKind::Never, text: "Nest forms".to_string() },
        ]
    );
    assert!(c.props.is_empty() && c.variants.is_empty() && c.tokens.is_empty() && c.dependencies.is_empty());
    let bare = manifest_intelligence(None, None);
    assert!(bare.cognitive_load.is_none() && bare.do_never.is_empty());
}

#[test]
fn module_facts_read_props_interfaces_and_external_imports() {
    let source = "import React from 'react';\nimport { cn } from '../lib/utils';\nimport { x } from 'react';\nexport interface ButtonProps { variant?: string; size: 'sm' | 'lg'; }\ninterface Other { skipped: string; }\ninterface CardProps { variant: number; title: string; }";
    let facts = veneer::intelligence::parse_module_facts("button.tsx", source).expect("parses");
    let names: Vec<&str> = facts.props.iter().map(|p| p.name.as_str()).collect();
    assert_eq!(names, ["variant", "size", "title"]);
    assert_eq!(facts.props[1].type_text.as_deref(), Some("'sm' | 'lg'"));
    assert_eq!(facts.external_imports, ["react"]);
    let err = veneer::intelligence::parse_module_facts("broken.ts", "interface {").unwrap_err();
    assert_eq!(err, "failed to parse broken.ts while reading props and imports");
}
