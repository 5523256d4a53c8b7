//! The development server's decisions: its configuration, the index page
//! it serves, and the markdown it renders. Binding a socket, watching
//! files and pushing reloads are the caller's.

use vstd::prelude::*;
use vstd::string::*;
use crate::text::{owned, push_str, str_lower, to_lowercase};

verus! {

/// Configuration for the development server.
#[derive(Debug, Clone)]
pub struct DevServerConfig {
    /// Directory containing docs
    pub docs_dir: String,
    /// Directory containing components
    pub components_dir: String,
    /// Port to listen on
    pub port: u16,
    /// Host to bind to
    pub host: String,
    /// Open browser on start
    pub open: bool,
    /// Path to a theme CSS file with --veneer-* variable overrides
    pub theme: Option<String>,
}

impl Default for DevServerConfig {
    /// Docs under `docs`, components under `src/components`, served on
    /// 127.0.0.1:7777, opening a browser, with no theme.
    fn default() -> (r: Self)
        ensures
            r.docs_dir@ == "docs"@,
            r.components_dir@ == "src/components"@,
            r.port == 7777,
            r.host@ == "127.0.0.1"@,
            r.open,
            r.theme is None,
    {
        DevServerConfig {
            docs_dir: owned("docs"),
            components_dir: owned("src/components"),
            port: 7777,
            host: owned("127.0.0.1"),
            open: true,
            theme: None,
        }
    }
}

/// Errors that can occur with the server.
#[derive(Debug, Clone, PartialEq, Eq)]
pub enum ServerError {
    BindError(String, String),
    WatchError(String),
    TransformError(String),
}

pub open spec fn server_error_message(e: ServerError) -> Seq<char> {
    match e {
        ServerError::BindError(addr, m) => "Failed to bind to "@ + addr@ + ": "@ + m@,
        ServerError::WatchError(m) => "File watch error: "@ + m@,
        ServerError::TransformError(m) => "Transform error: "@ + m@,
    }
}

impl ServerError {
    /// The error's message.
    pub fn message(&self) -> (r: String)
        ensures
            r@ == server_error_message(*self),
    {
        match self {
            ServerError::BindError(addr, m) => {
                let mut out = owned("Failed to bind to ");
                push_str(&mut out, addr.as_str());
                push_str(&mut out, ": ");
                push_str(&mut out, m.as_str());
                out
            },
            ServerError::WatchError(m) => {
                let mut out = owned("File watch error: ");
                push_str(&mut out, m.as_str());
                out
            },
            ServerError::TransformError(m) => {
                let mut out = owned("Transform error: ");
                push_str(&mut out, m.as_str());
                out
            },
        }
    }
}

/// Development server.
#[derive(Debug)]
pub struct DevServer {
    pub config: DevServerConfig,
}

impl DevServer {
    /// Create a new development server.
    pub fn new(config: DevServerConfig) -> (r: Self)
        ensures
            r.config == config,
    {
        DevServer { config }
    }
}

/// The address the server binds: `host:port`.
pub fn bind_address(config: &DevServerConfig) -> (r: String)
    ensures
        r@ == config.host@ + ":"@ + crate::text::decimal(config.port as nat),
{
    let mut r = owned(config.host.as_str());
    push_str(&mut r, ":");
    crate::text::push_decimal(&mut r, config.port as u64);
    r
}

/// The preview tag for a changed component file: its lower-cased stem plus
/// `-preview`, or `component-preview` for a file without a stem.
pub fn watch_tag_name(stem: Option<&str>) -> (r: String)
    ensures
        r@ == (match stem {
            Some(s) => str_lower(s@) + "-preview"@,
            None => "component-preview"@,
        }),
{
    match stem {
        Some(s) => {
            let mut r = to_lowercase(s);
            push_str(&mut r, "-preview");
            r
        },
        None => owned("component-preview"),
    }
}

/// The index page: the rendered docs content inside the dev shell, linking
/// the theme stylesheet when one is configured.
pub open spec fn index_page(content: Seq<char>, themed: bool) -> Seq<char> {
    "<!DOCTYPE html>\n<html lang=\"en\">\n<head>\n  <meta charset=\"utf-8\">\n  <meta name=\"viewport\" content=\"width=device-width, initial-scale=1\">\n  <title>Veneer Dev</title>\n  <style>\n    body { font-family: system-ui, sans-serif; max-width: 800px; margin: 2rem auto; padding: 0 1rem; }\n    h1 { font-size: 2rem; }\n    pre { background: #f5f5f5; padding: 1rem; border-radius: 0.5rem; overflow-x: auto; }\n  </style>\n"@
        + (if themed {
        "  <link rel=\"stylesheet\" href=\"/__theme.css\">"@
    } else {
        Seq::<char>::empty()
    }) + "\n</head>\n<body>\n  "@ + content + "\n  <script src=\"/__hmr.js\"></script>\n</body>\n</html>"@
}

/// Wrap rendered docs content in the dev server's index page.
pub fn index_page_html(content: &str, themed: bool) -> (r: String)
    ensures
        r@ == index_page(content@, themed),
{
    let mut r = owned("<!DOCTYPE html>\n<html lang=\"en\">\n<head>\n  <meta charset=\"utf-8\">\n  <meta name=\"viewport\" content=\"width=device-width, initial-scale=1\">\n  <title>Veneer Dev</title>\n  <style>\n    body { font-family: system-ui, sans-serif; max-width: 800px; margin: 2rem auto; padding: 0 1rem; }\n    h1 { font-size: 2rem; }\n    pre { background: #f5f5f5; padding: 1rem; border-radius: 0.5rem; overflow-x: auto; }\n  </style>\n");
    if themed {
        push_str(&mut r, "  <link rel=\"stylesheet\" href=\"/__theme.css\">");
    }
    push_str(&mut r, "\n</head>\n<body>\n  ");
    push_str(&mut r, content);
    push_str(&mut r, "\n  <script src=\"/__hmr.js\"></script>\n</body>\n</html>");
    r
}

/// What pulldown-cmark's HTML renderer yields for a markdown text, with
/// tables and strikethrough enabled.
pub uninterp spec fn markdown_html(content: Seq<char>) -> Seq<char>;

/// Render markdown to HTML with `pulldown_cmark::html::push_html` over a
/// `Parser::new_ext` with tables and strikethrough enabled. The contract
/// only names the result: the same text always renders the same.
#[verifier::external_body]
pub fn render_markdown(content: &str) -> (r: String)
    ensures
        r@ == markdown_html(content@),
{
    let options = pulldown_cmark::Options::ENABLE_TABLES | pulldown_cmark::Options::ENABLE_STRIKETHROUGH;
    let parser = pulldown_cmark::Parser::new_ext(content, options);
    let mut html_output = String::new();
    pulldown_cmark::html::push_html(&mut html_output, parser);
    html_output
}

/// The index page's content: the document title as a heading, then its
/// rendered markdown.
pub fn index_content(title: &str, markdown: &str) -> (r: String)
    ensures
        r@ == "<h1>"@ + title@ + "</h1>\n"@ + markdown_html(markdown@),
{
    let mut r = owned("<h1>");
    push_str(&mut r, title);
    push_str(&mut r, "</h1>\n");
    let body = render_markdown(markdown);
    push_str(&mut r, body.as_str());
    r
}

} // verus!
