use veneer::coverage::{
    assess_item, not_yet_documented_placeholder, AssessedItem, CoverageReport, CoverageState,
    NOT_YET_DOCUMENTED_STATUS,
};
use veneer::intelligence::{CompiledIntelligence, RenderedComponent};
use veneer::registry::{DiscoveredItem, DiscoveredKind};
use veneer::traits::{TransformError, TransformedBlock};

#[test]
fn placeholder_carries_the_layout_when_given() {
    let item = DiscoveredItem {
        name: "HeroBanner".to_string(),
        kind: DiscoveredKind::Composite,
        source_path: "composites/hero-banner.composite.json".to_string(),
        generated: false,
        unsupported_framework: None,
    };
    let artifact = not_yet_documented_placeholder(&item, "no generation pipeline", Some("../Docs.astro"));
    assert_eq!(artifact.file_name, "hero-banner.mdx");
    assert!(artifact.content.contains("layout: ../Docs.astro"));
    assert!(artifact.content.contains("this composite"));
}

fn item(name: &str, unsupported: Option<&str>) -> DiscoveredItem {
    DiscoveredItem {
        name: name.to_string(),
        kind: DiscoveredKind::Component,
        source_path: format!(".rafters/config.rafters.json#{name}"),
        generated: false,
        unsupported_framework: unsupported.map(str::to_string),
    }
}

fn rendered() -> RenderedComponent {
    RenderedComponent {
        preview: TransformedBlock {
            web_component: "x".to_string(),
            tag_name: "a-preview".to_string(),
            classes_used: vec![],
            attributes: vec![],
        },
        intelligence: CompiledIntelligence::default(),
    }
}

#[test]
fn placeholder_is_a_real_explicit_page() {
    let artifact = not_yet_documented_placeholder(&item("ghost-widget", None), "not found", None);
    assert_eq!(artifact.file_name, "ghost-widget.mdx");
    assert!(artifact.content.starts_with("---\ntitle: ghost-widget\n"));
    assert!(artifact.content.contains(NOT_YET_DOCUMENTED_STATUS));
    assert!(artifact.content.contains("# ghost-widget"));
    assert!(artifact.content.contains("config.rafters.json"));
    assert!(artifact.content.contains("Reason: not found"));
    assert!(!artifact.content.contains("layout:"));
    assert!(artifact.content.trim().lines().count() > 5);
}

#[test]
fn assessment_follows_the_render_outcome() {
    let ok = assess_item(item("A", None), Some(Ok(rendered())));
    assert_eq!(ok.state, CoverageState::Documented);
    assert!(ok.rendered.is_some());
    let failed = assess_item(
        item("B", None),
        Some(Err(TransformError::RenderFailed { component: "B".to_string(), reason: "boom".to_string() })),
    );
    assert_eq!(failed.state, CoverageState::NotYetDocumented { reason: "failed to render B: boom".to_string() });
    let solid = assess_item(item("C", Some("solid")), None);
    assert!(solid.rendered.is_none());
    match &solid.state {
        CoverageState::NotYetDocumented { reason } => {
            assert!(reason.contains("\"solid\""));
            assert!(reason.contains("no adapter"));
        }
        CoverageState::Documented => panic!("an unsupported framework is never documented"),
    }
}

#[test]
fn report_totals_are_the_sum_of_the_buckets() {
    let assessed: Vec<AssessedItem> = vec![
        assess_item(item("Button", None), Some(Ok(rendered()))),
        assess_item(item("Broken", None), Some(Err(TransformError::MissingVariants))),
        assess_item(item("hero-banner", None), Some(Ok(rendered()))),
        assess_item(item("ghost", Some("vue")), None),
    ];
    let report = CoverageReport::from_assessed(&assessed);
    assert_eq!(report.total, 4);
    assert_eq!(report.documented, ["Button", "hero-banner"]);
    assert_eq!(report.not_yet_documented, ["Broken", "ghost"]);
    assert_eq!(report.total, report.documented.len() + report.not_yet_documented.len());
}

#[test]
fn unsupported_framework_is_an_observation_never_an_inference() {
    let item = DiscoveredItem {
        name: "SolidButton".to_string(),
        kind: DiscoveredKind::Component,
        source_path: "/nonexistent/solid-button.tsx".to_string(),
        generated: false,
        unsupported_framework: Some("solid".to_string()),
    };
    let assessed = vec![assess_item(item, None)];
    assert_eq!(assessed.len(), 1);
    assert!(assessed[0].rendered.is_none());
    match &assessed[0].state {
        CoverageState::NotYetDocumented { reason } => {
            assert!(reason.contains("\"solid\""), "reason names the declared framework: {reason}");
            assert!(reason.contains("no adapter"), "reason is an observation, not a crash: {reason}");
        }
        CoverageState::Documented => panic!("an unsupported framework must never count as documented"),
    }
}

#[test]
fn render_failure_is_never_documented() {
    let item = DiscoveredItem {
        name: "Vanished".to_string(),
        kind: DiscoveredKind::Component,
        source_path: "/nonexistent/vanished.tsx".to_string(),
        generated: true,
        unsupported_framework: None,
    };
    let failure = TransformError::RenderFailed {
        component: "Vanished".to_string(),
        reason: "failed to read /nonexistent/vanished.tsx: No such file or directory".to_string(),
    };
    let assessed = vec![assess_item(item, Some(Err(failure)))];
    assert_eq!(assessed.len(), 1);
    match &assessed[0].state {
        CoverageState::NotYetDocumented { reason } => {
            assert!(reason.contains("Vanished"), "failure names the item: {reason}");
        }
        CoverageState::Documented => panic!("a render failure must never be documented"),
    }
}
