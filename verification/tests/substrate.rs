use veneer::coverage::{AssessedItem, CoverageState};
use veneer::intelligence::{CognitiveLoad, CompiledIntelligence, Constraint, ConstraintKind, RenderedComponent};
use veneer::matrix::{
    Archetype, BehaviorLayer, ComponentLine, ComponentMetadata, FileStatus, Frameworks, MatrixCognitiveLoad, Motion,
    PortStatus, Uses,
};
use veneer::registry::{DiscoveredItem, DiscoveredKind};
use veneer::substrate::{build_substrate, NamespaceFacts, DOC_SCHEMA};
use veneer::traits::TransformedBlock;

fn rendered(tag: &str) -> RenderedComponent {
    RenderedComponent {
        preview: TransformedBlock {
            web_component: format!("customElements.define('{tag}', class {{}});"),
            tag_name: tag.to_string(),
            classes_used: vec![],
            attributes: vec![],
        },
        intelligence: CompiledIntelligence {
            cognitive_load: Some(CognitiveLoad { score: 3, description: Some("simple".to_string()) }),
            do_never: vec![Constraint { kind: ConstraintKind::Never, text: "two primary CTAs".to_string() }],
            ..CompiledIntelligence::default()
        },
    }
}

fn item(name: &str, generated: bool) -> DiscoveredItem {
    DiscoveredItem {
        name: name.to_string(),
        kind: DiscoveredKind::Component,
        source_path: format!("/proj/components/{name}.tsx"),
        generated,
        unsupported_framework: None,
    }
}

fn documented(name: &str) -> AssessedItem {
    AssessedItem {
        item: item(name, true),
        state: CoverageState::Documented,
        rendered: Some(rendered(&format!("{name}-preview"))),
    }
}

fn undocumented(name: &str, reason: &str) -> AssessedItem {
    AssessedItem {
        item: item(name, false),
        state: CoverageState::NotYetDocumented { reason: reason.to_string() },
        rendered: None,
    }
}

#[test]
fn documented_item_yields_a_docs_line_and_a_pointing_index_line() {
    let sub = build_substrate(&[documented("Button")], &[], "/proj", None);
    assert_eq!(sub.docs.len(), 1);
    assert_eq!(sub.index.len(), 1);
    assert_eq!(sub.docs[0].id, "component:Button");
    assert_eq!(sub.docs[0].source, "components/Button.tsx");
    assert_eq!(sub.index[0].docs_id.as_deref(), Some("component:Button"));
    assert_eq!(sub.docs[0].preview.tag, "Button-preview");
}

#[test]
fn undocumented_item_has_an_index_line_but_no_docs_line() {
    let sub = build_substrate(&[undocumented("Broken", "unparseable source")], &[], "/proj", None);
    assert!(sub.docs.is_empty());
    assert_eq!(sub.index.len(), 1);
    assert_eq!(sub.index[0].docs_id, None);
    assert_eq!(sub.index[0].state.dimensions.coverage, "fail");
    assert_eq!(sub.index[0].state.stoplight, "red");
    let coverage_notes: Vec<_> = sub.index[0].state.notes.iter().filter(|note| note.kind == "coverage").collect();
    assert_eq!(coverage_notes.len(), 1);
    assert_eq!(coverage_notes[0].detail, "unparseable source");
}

#[test]
fn a_rendered_item_is_yellow_while_tests_and_wcag_are_unobserved() {
    let sub = build_substrate(&[documented("Button")], &[], "/proj", None);
    let state = &sub.index[0].state;
    assert_eq!(state.dimensions.coverage, "pass");
    assert_eq!(state.dimensions.metadata, "pass");
    assert_eq!(state.dimensions.tests, "absent");
    assert_eq!(state.dimensions.wcag, "absent");
    assert_eq!(state.stoplight, "yellow");
    assert_eq!(state.rule, "1");
}

#[test]
fn lines_are_sorted_by_kind_then_name() {
    let assessed = vec![documented("Zebra"), undocumented("Alpha", "no source"), documented("Mango")];
    let sub = build_substrate(&assessed, &[], "/proj", None);
    let names: Vec<&str> = sub.index.iter().map(|l| l.name.as_str()).collect();
    assert_eq!(names, ["Alpha", "Mango", "Zebra"]);
}

#[test]
fn components_sort_before_composites_and_ids_stay_distinct() {
    let mut composite = documented("Aardvark");
    composite.item.kind = DiscoveredKind::Composite;
    let assessed = vec![documented("Zebra"), composite, undocumented("Alpha", "no source"), documented("Mango")];
    let sub = build_substrate(&assessed, &[], "/proj", None);
    let names: Vec<&str> = sub.index.iter().map(|l| l.name.as_str()).collect();
    assert_eq!(names, ["Alpha", "Mango", "Zebra", "Aardvark"]);
    let docs: Vec<&str> = sub.docs.iter().map(|l| l.id.as_str()).collect();
    assert_eq!(docs, ["component:Mango", "component:Zebra", "composite:Aardvark"]);
}

fn button_line() -> ComponentLine {
    ComponentLine {
        schema: "rafters.component-line/1".to_string(),
        name: "button".to_string(),
        archetype: Archetype::SimpleInteractive,
        status: PortStatus::Ported,
        provenance: None,
        metadata: Some(ComponentMetadata {
            source: "src/old/ui/button.tsx".to_string(),
            description: Some("Primary action control".to_string()),
            cognitive_load: Some(MatrixCognitiveLoad { score: 2, note: Some("one clear action".to_string()) }),
            attention_economics: Some("primary draws the eye".to_string()),
            trust_building: Some("labels tell the truth".to_string()),
            accessibility: Some("role=button; focus-visible ring".to_string()),
            semantic_meaning: Some("primary=main action".to_string()),
            usage_patterns: Some(vec![
                "DO: label the action".to_string(),
                "NEVER: two primary buttons in one view".to_string(),
                "plain guidance".to_string(),
            ]),
        }),
        is: "Triggers an action".to_string(),
        does: "Runs the action on click".to_string(),
        states: vec!["disabled".to_string()],
        uses: Uses { current: vec!["classy".to_string()], planned: vec![], note: None },
        motion: Motion { current: String::new(), intents: vec!["press: scale".to_string()] },
        frameworks: Frameworks {
            behavior_layer: BehaviorLayer {
                react: FileStatus::Verified,
                astro: FileStatus::Missing,
                wc: FileStatus::Ported,
                vue: FileStatus::Missing,
            },
            old_tree: vec![],
        },
    }
}

#[test]
fn a_matrixed_item_carries_the_matrix_intelligence_block() {
    let sub = build_substrate(&[documented("Button")], &[button_line()], "/proj", None);
    let doc = &sub.docs[0];
    assert_eq!(doc.is.as_deref(), Some("Triggers an action"));
    assert_eq!(doc.does.as_deref(), Some("Runs the action on click"));
    assert_eq!(doc.archetype.as_deref(), Some("simple-interactive"));
    assert_eq!(doc.description.as_deref(), Some("Primary action control"));
    assert_eq!(doc.attention_economics.as_deref(), Some("primary draws the eye"));
    assert_eq!(doc.trust_building.as_deref(), Some("labels tell the truth"));
    assert_eq!(doc.semantic_meaning.as_deref(), Some("primary=main action"));
    assert_eq!(doc.states, ["disabled"]);
    assert_eq!(doc.motion_intents, ["press: scale"]);
    assert_eq!(doc.primitives_used, ["classy"]);
    let load = doc.cognitive_load.as_ref().expect("matrix load");
    assert_eq!(load.score, 2);
    assert_eq!(load.description.as_deref(), Some("one clear action"));
    assert_eq!(doc.constraints.len(), 2);
    assert_eq!(doc.constraints[0].kind, ConstraintKind::Do);
    assert_eq!(doc.constraints[0].text, "label the action");
    assert_eq!(doc.constraints[1].kind, ConstraintKind::Never);
    assert_eq!(doc.constraints[1].text, "two primary buttons in one view");
}

#[test]
fn a_matrixed_item_carries_the_audi_intelligence_block() {
    let mut line = button_line();
    if let Some(meta) = line.metadata.as_mut() {
        meta.usage_patterns = Some(vec![
            "DO: label the action".to_string(),
            "NEVER: two primary buttons in one view".to_string(),
        ]);
    }
    let sub = build_substrate(&[documented("Button")], &[line], "/proj", None);
    let doc = &sub.docs[0];
    assert_eq!(doc.is.as_deref(), Some("Triggers an action"));
    assert_eq!(doc.does.as_deref(), Some("Runs the action on click"));
    assert_eq!(doc.archetype.as_deref(), Some("simple-interactive"));
    assert_eq!(doc.description.as_deref(), Some("Primary action control"));
    assert_eq!(doc.attention_economics.as_deref(), Some("primary draws the eye"));
    assert_eq!(doc.trust_building.as_deref(), Some("labels tell the truth"));
    assert_eq!(doc.accessibility.as_deref(), Some("role=button; focus-visible ring"));
    assert_eq!(doc.semantic_meaning.as_deref(), Some("primary=main action"));
    assert_eq!(doc.states, ["disabled"]);
    assert_eq!(doc.motion_intents, ["press: scale"]);
    assert_eq!(doc.primitives_used, ["classy"]);
    let load = doc.cognitive_load.as_ref().expect("matrix cognitive load");
    assert_eq!(load.score, 2);
    assert_eq!(load.description.as_deref(), Some("one clear action"));
    assert_eq!(doc.constraints.len(), 2);
    assert_eq!(doc.constraints[0].kind, ConstraintKind::Do);
    assert_eq!(doc.constraints[0].text, "label the action");
    assert_eq!(doc.constraints[1].kind, ConstraintKind::Never);
    assert_eq!(doc.constraints[1].text, "two primary buttons in one view");
}

#[test]
fn build_is_deterministic_across_passes() {
    let build = || {
        let assessed = vec![documented("Button"), undocumented("Broken", "unparseable")];
        format!("{:?}", build_substrate(&assessed, &[], "/proj", None))
    };
    assert_eq!(build(), build(), "two passes must be identical");
}

#[test]
fn without_a_matrix_the_lead_is_absent_and_intelligence_falls_back_to_source() {
    let sub = build_substrate(&[documented("Button")], &[], "/proj", None);
    let doc = &sub.docs[0];
    assert!(doc.is.is_none());
    assert!(doc.does.is_none());
    assert!(doc.archetype.is_none());
    assert!(doc.attention_economics.is_none());
    assert!(doc.states.is_empty());
    assert!(doc.motion_intents.is_empty());
    assert!(doc.primitives_used.is_empty());
    assert!(doc.cognitive_load.is_some());
    assert_eq!(doc.constraints.len(), 1);
    assert_eq!(doc.constraints[0].kind, ConstraintKind::Never);
}

fn facts(name: &str, contrast: bool) -> NamespaceFacts {
    NamespaceFacts { namespace: name.to_string(), tokens: name.len(), has_contrast: contrast }
}

#[test]
fn a_namespace_source_yields_the_tokens_system_line() {
    let ns = vec![facts("motion", false), facts("color", true), facts("brand", true)];
    let sub = build_substrate(&[], &[], "/proj", Some(&ns));
    assert_eq!(sub.system.len(), 1);
    let line = &sub.system[0];
    assert_eq!(line.id, "system:tokens");
    assert_eq!(line.kind, "system");
    assert_eq!(line.schema, DOC_SCHEMA);
    let names: Vec<&str> = line.namespaces.iter().map(|n| n.namespace.as_str()).collect();
    assert_eq!(names, vec!["brand", "color", "motion"]);
    assert_eq!(line.contrast_matrices, ["brand", "color"]);
    assert_eq!(sub.docs_line_count(), 1);
}

#[test]
fn no_source_yields_no_system_line_never_a_stub() {
    let sub = build_substrate(&[], &[], "/proj", None);
    assert!(sub.system.is_empty());
}

#[test]
fn a_stylesheet_refusal_note_names_the_project_side_remedy() {
    let sub = build_substrate(&[undocumented("Button", "project stylesheet is empty")], &[], "/proj", None);
    let note = sub.index[0].state.notes.iter().find(|note| note.kind == "coverage").expect("coverage note");
    let remedy = note.remedy.as_deref().expect("remedy named");
    assert!(remedy.contains("exports.compiled"), "remedy names the project fix: {remedy}");
}

#[test]
fn missing_namespace_is_an_observation_naming_the_remedy() {
    let sub = build_substrate(&[documented("Button")], &[], "/proj", None);
    let note = sub.index[0].state.notes.iter().find(|note| note.kind == "source").expect("source observation");
    assert_eq!(note.severity, "warning");
    assert!(note.remedy.as_deref().expect("remedy").contains("rafters init"));
    assert_eq!(sub.docs.len(), 1);
    let with_ns = build_substrate(&[documented("Button")], &[], "/proj", Some(&vec![]));
    assert!(with_ns.index[0].state.notes.is_empty());
}
