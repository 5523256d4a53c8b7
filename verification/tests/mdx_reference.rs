use veneer::cli_parser::{ParsedCommand, ParsedFlag};
use veneer::mdx_reference::{generate_command_mdx, generate_reference_pages};


    fn make_command() -> ParsedCommand {
        ParsedCommand {
            name: "reflect".to_string(),
            description: "Store a reflection from a completed session".to_string(),
            usage: "legion reflect [OPTIONS] --repo <REPO>".to_string(),
            flags: vec![
                ParsedFlag {
                    long: Some("--repo".to_string()),
                    short: None,
                    value_name: Some("REPO".to_string()),
                    description: "Repository name".to_string(),
                    required: true,
                    default: None,
                },
                ParsedFlag {
                    long: Some("--verbose".to_string()),
                    short: Some("-v".to_string()),
                    value_name: None,
                    description: "Show informational messages".to_string(),
                    required: false,
                    default: None,
                },
                ParsedFlag {
                    long: Some("--help".to_string()),
                    short: Some("-h".to_string()),
                    value_name: None,
                    description: "Print help".to_string(),
                    required: false,
                    default: None,
                },
            ],
            subcommands: Vec::new(),
            aliases: Vec::new(),
        }
    }

    #[test]
    fn generates_valid_frontmatter() {
        let cmd = make_command();
        let mdx = generate_command_mdx(&cmd, None, None);

        assert!(mdx.starts_with("---\n"));
        assert!(mdx.contains("title: \"reflect\""));
        assert!(mdx.contains("description: \"Store a reflection from a completed session\""));
        // Frontmatter closes
        let second_dash = mdx[4..].find("---\n").unwrap();
        assert!(second_dash > 0);
    }

    #[test]
    fn generates_flag_table_with_correct_columns() {
        let cmd = make_command();
        let mdx = generate_command_mdx(&cmd, None, None);

        assert!(mdx.contains("## Flags"));
        assert!(mdx.contains("| Flag | Short | Required | Default | Description |"));
        assert!(mdx.contains("| `--repo` | - | Yes | - | Repository name |"));
        assert!(mdx.contains("| `--verbose` | `-v` | No | - | Show informational messages |"));
    }

    #[test]
    fn includes_editorial_slots() {
        let cmd = make_command();
        let mdx = generate_command_mdx(&cmd, None, None);

        assert!(mdx.contains("{/* veneer:overview */}"));
        assert!(mdx.contains("{/* veneer:when-to-use */}"));
        assert!(mdx.contains("{/* veneer:examples */}"));
        assert!(mdx.contains("{/* veneer:gotchas */}"));
    }

    #[test]
    fn nested_subcommand_uses_parent_name_in_title() {
        let cmd = ParsedCommand {
            name: "create".to_string(),
            description: "Create a new card".to_string(),
            usage: "legion kanban create [OPTIONS]".to_string(),
            flags: vec![ParsedFlag {
                long: Some("--help".to_string()),
                short: Some("-h".to_string()),
                value_name: None,
                description: "Print help".to_string(),
                required: false,
                default: None,
            }],
            subcommands: Vec::new(),
            aliases: Vec::new(),
        };

        let mdx = generate_command_mdx(&cmd, Some("kanban"), None);
        assert!(mdx.contains("title: \"kanban create\""));
    }

    #[test]
    fn skips_help_flag_from_table() {
        let cmd = make_command();
        let mdx = generate_command_mdx(&cmd, None, None);

        // Should not contain --help in the table rows
        assert!(!mdx.contains("| `--help`"));
        // But should still have the flags section (other flags exist)
        assert!(mdx.contains("## Flags"));
    }

    #[test]
    fn no_flags_section_when_only_help() {
        let cmd = ParsedCommand {
            name: "health".to_string(),
            description: "Show system health".to_string(),
            usage: "legion health".to_string(),
            flags: vec![ParsedFlag {
                long: Some("--help".to_string()),
                short: Some("-h".to_string()),
                value_name: None,
                description: "Print help".to_string(),
                required: false,
                default: None,
            }],
            subcommands: Vec::new(),
            aliases: Vec::new(),
        };

        let mdx = generate_command_mdx(&cmd, None, None);
        assert!(!mdx.contains("## Flags"));
    }


    #[test]
    fn reference_pages_follow_the_command_tree() {
        let root = ParsedCommand {
            name: "legion".to_string(),
            description: "Agent tool".to_string(),
            usage: "legion <COMMAND>".to_string(),
            flags: vec![],
            subcommands: vec![ParsedCommand {
                name: "kanban".to_string(),
                description: "Manage kanban".to_string(),
                usage: "legion kanban <COMMAND>".to_string(),
                flags: vec![],
                subcommands: vec![ParsedCommand {
                    name: "create".to_string(),
                    description: "Create a card".to_string(),
                    usage: "legion kanban create [OPTIONS]".to_string(),
                    flags: vec![],
                    subcommands: Vec::new(),
                    aliases: Vec::new(),
                }],
                aliases: Vec::new(),
            }],
            aliases: Vec::new(),
        };

        let pages = generate_reference_pages(&root, "/tmp/out", None);
        assert_eq!(pages.len(), 3);
        assert_eq!(pages[0].0.path, "/tmp/out/reference/legion.mdx");
        assert_eq!(pages[0].0.title, "legion");
        assert_eq!(pages[1].0.path, "/tmp/out/reference/legion/kanban.mdx");
        assert_eq!(pages[1].0.title, "legion kanban");
        assert_eq!(pages[2].0.path, "/tmp/out/reference/legion/kanban/create.mdx");
        assert_eq!(pages[2].0.title, "legion kanban create");
        assert_eq!(pages[2].0.command_name, "create");
        assert!(pages[2].1.contains("title: \"legion kanban create\""));
    }
