use veneer::skeleton::{generate_default_skeletons, generate_skeleton, PageTemplate};


    #[test]
    fn generates_getting_started_with_project_name() {
        let mdx = generate_skeleton(&PageTemplate::GettingStarted, "legion");
        assert!(mdx.contains("Install and start using legion"));
        assert!(mdx.contains("{/* veneer:install */}"));
        assert!(mdx.contains("{/* veneer:prerequisites */}"));
        assert!(mdx.contains("{/* veneer:first-use */}"));
        assert!(mdx.contains("{/* veneer:next-steps */}"));
    }

    #[test]
    fn generates_architecture_with_project_name() {
        let mdx = generate_skeleton(&PageTemplate::Architecture, "legion");
        assert!(mdx.contains("title: Architecture"));
        assert!(mdx.contains("How legion is structured"));
        assert!(mdx.contains("{/* veneer:project-structure */}"));
    }

    #[test]
    fn generates_concept_page_with_topic() {
        let mdx = generate_skeleton(
            &PageTemplate::Concept {
                topic: "reflections".into(),
            },
            "legion",
        );
        assert!(mdx.contains("title: Reflections"));
        assert!(mdx.contains("How reflections works in legion"));
        assert!(mdx.contains("{/* veneer:how-it-works */}"));
    }

    #[test]
    fn plans_concept_pages_from_groups() {
        let groups = vec!["memory".to_string(), "communication".to_string()];
        let pages = generate_default_skeletons("legion", &groups, "docs");

        // getting-started + architecture + 2 concepts = 4
        assert_eq!(pages.len(), 4);
        assert_eq!(pages[0].0.path, "docs/getting-started.mdx");
        assert_eq!(pages[1].0.title, "Architecture");
        assert_eq!(pages[2].0.path, "docs/concepts/memory.mdx");
        assert_eq!(pages[3].0.path, "docs/concepts/communication.mdx");
        assert_eq!(pages[3].0.title, "Communication");
        assert!(pages[2].1.contains("How memory works in legion"));
    }

    #[test]
    fn frontmatter_is_valid_yaml() {
        let mdx = generate_skeleton(&PageTemplate::GettingStarted, "legion");
        assert!(mdx.starts_with("---\n"));
        let end = mdx.find("\n---\n").unwrap();
        let yaml = &mdx[4..end];
        assert!(yaml.contains("title:"));
        assert!(yaml.contains("description:"));
        assert!(yaml.contains("order:"));
    }
