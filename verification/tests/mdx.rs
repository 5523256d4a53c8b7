use veneer::intelligence::{
    CognitiveLoad, CompiledIntelligence, Constraint, ConstraintKind, DependencyOrigin, DependencyRef,
    PropDoc, RenderedComponent, TokenRef, VariantDoc,
};
use veneer::mdx::{component_page_file_name, generate_component_page};
use veneer::registry::{DiscoveredItem, DiscoveredKind};
use veneer::traits::{TransformError, TransformedBlock};

    fn preview(tag: &str) -> TransformedBlock {
        TransformedBlock {
            web_component: format!("customElements.define('{tag}', class extends HTMLElement {{}});"),
            tag_name: tag.to_string(),
            classes_used: vec![],
            attributes: vec![],
        }
    }

    fn button_item() -> DiscoveredItem {
        DiscoveredItem {
            name: "Button".to_string(),
            kind: DiscoveredKind::Component,
            source_path: "components/button.tsx".to_string(),
            generated: true,
            unsupported_framework: None,
        }
    }

    fn rich_component() -> RenderedComponent {
        RenderedComponent {
            preview: preview("button-preview"),
            intelligence: CompiledIntelligence {
                props: vec![
                    PropDoc {
                        name: "variant".to_string(),
                        type_text: Some("\"primary\" | \"secondary\"".to_string()),
                        optional: true,
                    },
                    PropDoc {
                        name: "children".to_string(),
                        type_text: Some("ReactNode".to_string()),
                        optional: false,
                    },
                ],
                config_extends: vec![],
                variants: vec![VariantDoc {
                    name: "primary".to_string(),
                    classes: "bg-primary text-primary-foreground".to_string(),
                }],
                cognitive_load: Some(CognitiveLoad {
                    score: 3,
                    description: Some("simple action trigger".to_string()),
                }),
                do_never: vec![Constraint {
                    kind: ConstraintKind::Never,
                    text: "use two primary buttons in one view".to_string(),
                }],
                tokens: vec![TokenRef {
                    token: "primary".to_string(),
                    namespace: "semantic".to_string(),
                    referenced_by: vec!["bg-primary".to_string()],
                }],
                dependencies: vec![DependencyRef {
                    name: "clsx".to_string(),
                    origin: DependencyOrigin::Import,
                }],
            },
        }
    }

    #[test]
    fn frontmatter_carries_only_source_declared_fields() {
        let generated = generate_component_page(&button_item(), &rich_component())
            .expect("generation must succeed");
        let mdx = &generated.page;
        assert!(mdx.starts_with("---\n"));
        assert!(mdx.contains("title: Button"));
        assert!(mdx.contains("kind: component"));
        assert!(mdx.contains("cognitiveLoad: 3"));
        // No host concerns: veneer documents, it does not lay out or style.
        assert!(!mdx.contains("layout:"));
        assert!(!mdx.contains("status:"));
    }

    #[test]
    fn preview_is_the_bare_element_and_its_sidecar_script() {
        let generated = generate_component_page(&button_item(), &rich_component())
            .expect("generation must succeed");
        assert_eq!(generated.sidecar_name, "button-preview.js");
        assert!(generated.sidecar.contains("customElements.define"));
        let mdx = &generated.page;
        assert!(mdx.contains("<button-preview></button-preview>"));
        assert!(mdx.contains("<script type=\"module\" src=\"./button-preview.js\"></script>"));
        // No wrapper markup, no CSS classes -- nothing veneer invented for
        // the host to style.
        assert!(!mdx.contains("class="));
        assert!(!mdx.contains("veneer-"));
        // The definition is never inlined -- that is what breaks MDX.
        assert!(
            !mdx.contains("customElements.define"),
            "the WC definition lives in the sidecar, not the page"
        );
    }

    #[test]
    fn constraints_are_a_plain_markdown_list() {
        let mdx = generate_component_page(&button_item(), &rich_component())
            .expect("generation must succeed")
            .page;
        assert!(mdx.contains("## Constraints"));
        assert!(mdx.contains("- NEVER: use two primary buttons in one view"));
    }

    #[test]
    fn generates_a_table_per_declared_field() {
        let mdx = generate_component_page(&button_item(), &rich_component())
            .expect("generation must succeed")
            .page;
        assert!(mdx.contains("## Props"));
        assert!(mdx.contains("| `variant` | `\"primary\" \\| \"secondary\"` | Yes |"));
        assert!(mdx.contains("| `children` | `ReactNode` | No |"));
        assert!(mdx.contains("## Variants"));
        assert!(mdx.contains("| `primary` | `bg-primary text-primary-foreground` |"));
        assert!(mdx.contains("## Tokens"));
        assert!(mdx.contains("| `primary` | `semantic` | `bg-primary` |"));
        assert!(mdx.contains("## Dependencies"));
        assert!(mdx.contains("| `clsx` | import |"));
        assert!(mdx.contains("## Cognitive load"));
        assert!(mdx.contains("3/10 -- simple action trigger"));
    }

    #[test]
    fn source_prose_with_braces_is_mdx_safe() {
        let mut rc = rich_component();
        rc.intelligence.do_never = vec![Constraint {
            kind: ConstraintKind::Never,
            text: "wrap in {expr} or a <Foo> tag".to_string(),
        }];
        rc.intelligence.cognitive_load = Some(CognitiveLoad {
            score: 4,
            description: Some("uses a {token} reference".to_string()),
        });
        let mdx = generate_component_page(&button_item(), &rc)
            .expect("generation must succeed")
            .page;
        // No raw brace or angle bracket from source prose survives into MDX.
        assert!(!mdx.contains("{expr}"));
        assert!(!mdx.contains("<Foo>"));
        assert!(!mdx.contains("{token}"));
        assert!(mdx.contains("&#123;expr&#125;"));
        assert!(mdx.contains("&#123;token&#125;"));
    }

    #[test]
    fn carries_no_editorial_template() {
        // Editorial prose is not veneer's to write, and no empty template
        // slot is stubbed for it -- the page is documentation, not a form.
        let mdx = generate_component_page(&button_item(), &rich_component())
            .expect("generation must succeed")
            .page;
        assert!(!mdx.contains("veneer:overview"));
        assert!(!mdx.contains("veneer:when-to-use"));
        assert!(!mdx.contains("veneer:examples"));
        assert!(!mdx.contains("veneer:gotchas"));
    }

    #[test]
    fn absent_fields_emit_no_section() {
        // A composite manifest declares only cognitive load (a bare number,
        // no description) and do/never -- no props, variants, tokens, or
        // dependencies. Those sections must be absent, never empty tables.
        let bare = RenderedComponent {
            preview: preview("hero-banner-preview"),
            intelligence: CompiledIntelligence {
                cognitive_load: Some(CognitiveLoad {
                    score: 5,
                    description: None,
                }),
                ..CompiledIntelligence::default()
            },
        };
        let item = DiscoveredItem {
            name: "hero-banner".to_string(),
            kind: DiscoveredKind::Composite,
            source_path: "composites/hero-banner.composite.json".to_string(),
            generated: false,
            unsupported_framework: None,
        };
        let mdx = generate_component_page(&item, &bare)
            .expect("generation must succeed")
            .page;
        assert!(mdx.contains("kind: composite"));
        assert!(mdx.contains("cognitiveLoad: 5"));
        assert!(!mdx.contains("## Props"));
        assert!(!mdx.contains("## Variants"));
        assert!(!mdx.contains("## Tokens"));
        assert!(!mdx.contains("## Dependencies"));
        // A bare score with no declared rationale emits no rationale section.
        assert!(!mdx.contains("## Cognitive load"));
    }

    #[test]
    fn empty_constraint_text_fails_naming_the_item() {
        let mut rc = rich_component();
        rc.intelligence.do_never = vec![Constraint {
            kind: ConstraintKind::Do,
            text: "   ".to_string(),
        }];
        let err = generate_component_page(&button_item(), &rc)
            .expect_err("an empty rule must fail the page");
        match err {
            TransformError::RenderFailed { component, .. } => assert_eq!(component, "Button"),
            other => panic!("expected RenderFailed, got {other:?}"),
        }
    }

    #[test]
    fn file_name_is_kebab_cased_mdx() {
        assert_eq!(component_page_file_name("Button"), "button.mdx");
        assert_eq!(component_page_file_name("hero-banner"), "hero-banner.mdx");
    }
