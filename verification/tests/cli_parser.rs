use veneer::cli_parser::{mark_required_flags, parse_help_text};


    #[test]
    fn parses_simple_help_output() {
        let help_text = "\
Store a reflection from a completed session

Usage: legion reflect [OPTIONS] --repo <REPO>

Options:
      --repo <REPO>              Repository name
  -v, --verbose                  Show informational messages
  -h, --help                     Print help";

        let mut cmd = parse_help_text("reflect", help_text);
        mark_required_flags(&mut cmd);

        assert_eq!(cmd.name, "reflect");
        assert_eq!(
            cmd.description,
            "Store a reflection from a completed session"
        );
        assert_eq!(cmd.usage, "legion reflect [OPTIONS] --repo <REPO>");
        assert_eq!(cmd.flags.len(), 3);

        // --repo should be required (appears without brackets in usage)
        let repo = cmd
            .flags
            .iter()
            .find(|f| f.long.as_deref() == Some("--repo"))
            .unwrap();
        assert!(repo.required);
        assert_eq!(repo.value_name.as_deref(), Some("REPO"));

        // --verbose should be optional
        let verbose = cmd
            .flags
            .iter()
            .find(|f| f.long.as_deref() == Some("--verbose"))
            .unwrap();
        assert!(!verbose.required);
        assert_eq!(verbose.short.as_deref(), Some("-v"));
    }

    #[test]
    fn parses_subcommands() {
        let help_text = "\
Manage the kanban board

Usage: legion kanban [OPTIONS] <COMMAND>

Commands:
  create      Create a new card on the kanban board
  list        List cards for a repo
  help        Print this message or the help of the given subcommand(s)

Options:
  -v, --verbose  Show informational messages on stderr (quiet by default)
  -h, --help     Print help";

        let cmd = parse_help_text("kanban", help_text);
        assert_eq!(cmd.subcommands.len(), 2); // create, list (skip help)
        assert_eq!(cmd.subcommands[0].name, "create");
        assert_eq!(
            cmd.subcommands[0].description,
            "Create a new card on the kanban board"
        );
        assert_eq!(cmd.subcommands[1].name, "list");
    }

    #[test]
    fn parses_flag_with_default() {
        let help_text = "\
Start development server

Usage: veneer dev [OPTIONS]

Options:
  -p, --port <PORT>  Port to listen on [default: 7777]
  -h, --help         Print help";

        let cmd = parse_help_text("dev", help_text);
        let port = cmd
            .flags
            .iter()
            .find(|f| f.long.as_deref() == Some("--port"))
            .unwrap();
        assert_eq!(port.default.as_deref(), Some("7777"));
        assert_eq!(port.short.as_deref(), Some("-p"));
        assert_eq!(port.value_name.as_deref(), Some("PORT"));
    }

    #[test]
    fn parses_flag_without_short() {
        let help_text = "\
Build

Usage: veneer build [OPTIONS]

Options:
      --no-minify  Skip minification
  -h, --help       Print help";

        let cmd = parse_help_text("build", help_text);
        let no_minify = cmd
            .flags
            .iter()
            .find(|f| f.long.as_deref() == Some("--no-minify"))
            .unwrap();
        assert!(no_minify.short.is_none());
        assert_eq!(no_minify.description, "Skip minification");
    }

    #[test]
    fn parses_root_command_with_many_subcommands() {
        let help_text = "\
Agent specialization through deliberate practice

Usage: legion [OPTIONS] <COMMAND>

Commands:
  reflect   Store a reflection from a completed session
  recall    Recall relevant reflections for the current context
  consult   Search reflections across all repos for cross-agent consultation
  post      Post a message to the shared bullpen for other agents
  boost     Mark a reflection as useful after recalling and applying it
  signal    Send a structured signal to another agent
  bullpen   Read the bullpen or check for unread posts
  kanban    Manage the kanban board
  watch     Watch for signals and auto-wake sleeping agents
  serve     Start the web dashboard
  health    Show current system health and recent trend
  help      Print this message or the help of the given subcommand(s)

Options:
  -v, --verbose  Show informational messages on stderr (quiet by default)
  -h, --help     Print help";

        let cmd = parse_help_text("legion", help_text);
        assert_eq!(
            cmd.description,
            "Agent specialization through deliberate practice"
        );
        // 11 subcommands (help excluded)
        assert_eq!(cmd.subcommands.len(), 11);
        assert!(cmd.subcommands.iter().all(|s| s.name != "help"));
    }

    #[test]
    fn required_detection_from_usage() {
        let help_text = "\
Send signal

Usage: legion signal [OPTIONS] --to <TO> --verb <VERB>

Options:
      --to <TO>        Recipient agent name
      --verb <VERB>    Signal verb
      --status <STATUS>  Signal status
  -h, --help           Print help";

        let mut cmd = parse_help_text("signal", help_text);
        mark_required_flags(&mut cmd);

        let to = cmd
            .flags
            .iter()
            .find(|f| f.long.as_deref() == Some("--to"))
            .unwrap();
        assert!(to.required);

        let verb = cmd
            .flags
            .iter()
            .find(|f| f.long.as_deref() == Some("--verb"))
            .unwrap();
        assert!(verb.required);

        let status = cmd
            .flags
            .iter()
            .find(|f| f.long.as_deref() == Some("--status"))
            .unwrap();
        assert!(!status.required);
    }

    #[test]
    fn empty_description_handled() {
        let help_text = "\
Usage: tool cmd

Options:
  -h, --help  Print help";

        let cmd = parse_help_text("cmd", help_text);
        assert_eq!(cmd.description, "");
    }
