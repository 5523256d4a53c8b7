use veneer::server::{
    bind_address, index_content, index_page_html, render_markdown, watch_tag_name, DevServer,
    DevServerConfig, ServerError,
};

#[test]
fn creates_server_with_default_config() {
    let server = DevServer::new(DevServerConfig::default());
    assert_eq!(server.config.port, 7777);
}

#[test]
fn renders_markdown() {
    let md = "# Hello\n\nWorld";
    let html = render_markdown(md);
    assert!(html.contains("<h1>Hello</h1>"));
    assert!(html.contains("<p>World</p>"));
}

#[test]
fn default_config_binds_the_local_dev_port() {
    let config = DevServerConfig::default();
    assert_eq!(bind_address(&config), "127.0.0.1:7777");
    assert_eq!(config.docs_dir, "docs");
    assert!(config.open);
}

#[test]
fn index_page_links_the_theme_only_when_configured() {
    let themed = index_page_html("<h1>Docs</h1>", true);
    assert!(themed.contains("<link rel=\"stylesheet\" href=\"/__theme.css\">"));
    assert!(themed.contains("<h1>Docs</h1>"));
    assert!(themed.contains("<script src=\"/__hmr.js\"></script>"));
    let plain = index_page_html("x", false);
    assert!(!plain.contains("__theme.css"));
    let content = index_content("Guide", "*hi*");
    assert!(content.starts_with("<h1>Guide</h1>\n"));
    assert!(content.contains("<em>hi</em>"));
}

#[test]
fn watch_tags_and_errors() {
    assert_eq!(watch_tag_name(Some("Button")), "button-preview");
    assert_eq!(watch_tag_name(None), "component-preview");
    assert_eq!(
        ServerError::BindError("127.0.0.1:7777".to_string(), "in use".to_string()).message(),
        "Failed to bind to 127.0.0.1:7777: in use"
    );
}
