use veneer::cli_parser::ParsedCommand;
use veneer::sidebar::{generate_sidebar, EditorialPage};


    fn make_root_with_subcommands() -> ParsedCommand {
        ParsedCommand {
            name: "mytool".to_string(),
            description: "My tool".to_string(),
            subcommands: vec![
                ParsedCommand {
                    name: "build".to_string(),
                    description: "Build the project".to_string(),
                    ..Default::default()
                },
                ParsedCommand {
                    name: "serve".to_string(),
                    description: "Start server".to_string(),
                    ..Default::default()
                },
                ParsedCommand {
                    name: "kanban".to_string(),
                    description: "Manage kanban board".to_string(),
                    subcommands: vec![
                        ParsedCommand {
                            name: "create".to_string(),
                            description: "Create a card".to_string(),
                            ..Default::default()
                        },
                        ParsedCommand {
                            name: "list".to_string(),
                            description: "List cards".to_string(),
                            ..Default::default()
                        },
                    ],
                    ..Default::default()
                },
            ],
            ..Default::default()
        }
    }

    fn make_editorial_pages() -> Vec<EditorialPage> {
        vec![
            EditorialPage {
                title: "Installation".to_string(),
                path: "/docs/getting-started/install".to_string(),
                section: "getting-started".to_string(),
                order: 0,
            },
            EditorialPage {
                title: "Quick Start".to_string(),
                path: "/docs/getting-started/quickstart".to_string(),
                section: "getting-started".to_string(),
                order: 1,
            },
            EditorialPage {
                title: "Architecture".to_string(),
                path: "/docs/concepts/architecture".to_string(),
                section: "concepts".to_string(),
                order: 0,
            },
        ]
    }

    #[test]
    fn generates_grouped_sidebar_from_commands() {
        let root = make_root_with_subcommands();
        let sidebar = generate_sidebar(&root, &[]);

        // kanban has subcommands -> its own group
        // build, serve are flat -> under "Commands" group
        assert_eq!(sidebar.len(), 2); // "Kanban" group + "Commands" group

        let kanban_group = sidebar.iter().find(|n| n.title == "Kanban").unwrap();
        assert_eq!(kanban_group.children.len(), 2);
        assert_eq!(kanban_group.children[0].title, "Create");
        assert_eq!(kanban_group.children[1].title, "List");

        let commands_group = sidebar.iter().find(|n| n.title == "Commands").unwrap();
        assert_eq!(commands_group.children.len(), 2);
        assert_eq!(commands_group.children[0].title, "Build");
        assert_eq!(commands_group.children[1].title, "Serve");
    }

    #[test]
    fn editorial_pages_come_first() {
        let root = make_root_with_subcommands();
        let pages = make_editorial_pages();
        let sidebar = generate_sidebar(&root, &pages);

        // Editorial sections come first
        assert_eq!(sidebar[0].title, "Getting Started");
        assert_eq!(sidebar[0].children.len(), 2);
        assert_eq!(sidebar[0].children[0].title, "Installation");
        assert_eq!(sidebar[0].children[1].title, "Quick Start");

        assert_eq!(sidebar[1].title, "Concepts");
        assert_eq!(sidebar[1].children.len(), 1);
        assert_eq!(sidebar[1].children[0].title, "Architecture");

        // Commands come after editorial
        assert!(sidebar[0].order < sidebar[2].order);
        assert!(sidebar[1].order < sidebar[2].order);
    }

    #[test]
    fn subcommands_become_nested_groups() {
        let root = ParsedCommand {
            name: "tool".to_string(),
            subcommands: vec![ParsedCommand {
                name: "db".to_string(),
                description: "Database operations".to_string(),
                subcommands: vec![
                    ParsedCommand {
                        name: "migrate".to_string(),
                        description: "Run migrations".to_string(),
                        ..Default::default()
                    },
                    ParsedCommand {
                        name: "seed".to_string(),
                        description: "Seed data".to_string(),
                        ..Default::default()
                    },
                    ParsedCommand {
                        name: "reset".to_string(),
                        description: "Reset database".to_string(),
                        ..Default::default()
                    },
                ],
                ..Default::default()
            }],
            ..Default::default()
        };

        let sidebar = generate_sidebar(&root, &[]);
        assert_eq!(sidebar.len(), 1);
        assert_eq!(sidebar[0].title, "Db");
        assert_eq!(sidebar[0].children.len(), 3);
        assert_eq!(sidebar[0].children[0].title, "Migrate");
        assert_eq!(sidebar[0].children[1].title, "Seed");
        assert_eq!(sidebar[0].children[2].title, "Reset");
    }

    #[test]
    fn empty_input_produces_empty_output() {
        let root = ParsedCommand::default();
        let sidebar = generate_sidebar(&root, &[]);
        assert!(sidebar.is_empty());
    }
