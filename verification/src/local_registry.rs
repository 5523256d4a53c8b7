//! Reading rafters registry data from a project's `.rafters/` directory:
//! where each file lives, and the plain shapes read from them.

use vstd::prelude::*;
use vstd::string::*;
use crate::text::{join_path, owned, path_join, push_str};

verus! {

/// A reference to a color scale position.
#[derive(Debug, Clone, PartialEq, Eq)]
pub struct ColorReference {
    pub family: String,
    pub position: String,
}

/// The do/never patterns a token declares.
#[derive(Debug, Clone, PartialEq, Eq)]
pub struct UsagePatterns {
    pub do_patterns: Vec<String>,
    pub never_patterns: Vec<String>,
}

/// One registry item (component, primitive or composite).
#[derive(Debug, Clone, PartialEq, Eq)]
pub struct RegistryItem {
    pub name: String,
    pub item_type: String,
    pub description: Option<String>,
    pub primitives: Vec<String>,
    pub files: Vec<RegistryFile>,
    pub rules: Vec<String>,
    pub composites: Vec<String>,
}

/// One file of a registry item.
#[derive(Debug, Clone, PartialEq, Eq)]
pub struct RegistryFile {
    pub path: String,
    pub content: String,
    pub dependencies: Vec<String>,
    pub dev_dependencies: Vec<String>,
}

/// The registry index.
#[derive(Debug, Clone, PartialEq, Eq)]
pub struct RegistryIndex {
    pub name: String,
    pub homepage: Option<String>,
    pub components: Vec<String>,
    pub primitives: Vec<String>,
    pub composites: Vec<String>,
    pub rules: Vec<String>,
}

/// `.rafters/config.rafters.json`.
#[derive(Debug, Clone, PartialEq, Eq)]
pub struct RaftersConfig {
    pub framework: Option<String>,
    pub component_target: Option<String>,
    pub components_path: Option<String>,
    pub primitives_path: Option<String>,
    pub composites_path: Option<String>,
    pub css_path: Option<String>,
    pub shadcn: Option<bool>,
    pub exports: Option<ExportsConfig>,
    pub installed: Option<InstalledConfig>,
}

/// Which exports the project enables.
#[derive(Debug, Clone, PartialEq, Eq)]
pub struct ExportsConfig {
    pub tailwind: Option<bool>,
    pub typescript: Option<bool>,
    pub dtcg: Option<bool>,
    pub compiled: Option<bool>,
}

/// The names the project has installed, per kind.
#[derive(Debug, Clone, PartialEq, Eq)]
pub struct InstalledConfig {
    pub components: Vec<String>,
    pub primitives: Vec<String>,
    pub composites: Vec<String>,
}

/// Errors reading registry data.
#[derive(Debug, Clone, PartialEq, Eq)]
pub enum RegistryError {
    NotFound(String),
    Io { path: String, message: String },
    Parse { path: String, message: String },
    NamespaceNotFound(String),
    ComponentNotFound(String),
}

pub open spec fn local_registry_error_message(e: RegistryError) -> Seq<char> {
    match e {
        RegistryError::NotFound(p) => "rafters directory not found at "@ + p@,
        RegistryError::Io { path, message } => "failed to read file "@ + path@ + ": "@ + message@,
        RegistryError::Parse { path, message } => "failed to parse "@ + path@ + ": "@ + message@,
        RegistryError::NamespaceNotFound(n) => "namespace file not found: "@ + n@,
        RegistryError::ComponentNotFound(n) => "component not found: "@ + n@,
    }
}

impl RegistryError {
    /// The error's message.
    pub fn message(&self) -> (r: String)
        ensures
            r@ == local_registry_error_message(*self),
    {
        match self {
            RegistryError::NotFound(p) => {
                let mut out = owned("rafters directory not found at ");
                push_str(&mut out, p.as_str());
                out
            },
            RegistryError::Io { path, message } => {
                let mut out = owned("failed to read file ");
                push_str(&mut out, path.as_str());
                push_str(&mut out, ": ");
                push_str(&mut out, message.as_str());
                out
            },
            RegistryError::Parse { path, message } => {
                let mut out = owned("failed to parse ");
                push_str(&mut out, path.as_str());
                push_str(&mut out, ": ");
                push_str(&mut out, message.as_str());
                out
            },
            RegistryError::NamespaceNotFound(n) => {
                let mut out = owned("namespace file not found: ");
                push_str(&mut out, n.as_str());
                out
            },
            RegistryError::ComponentNotFound(n) => {
                let mut out = owned("component not found: ");
                push_str(&mut out, n.as_str());
                out
            },
        }
    }
}

/// Reads rafters registry data from a `.rafters/` directory.
#[derive(Debug, Clone)]
pub struct LocalRegistryReader {
    rafters_dir: String,
}

impl View for LocalRegistryReader {
    type V = Seq<char>;

    /// The `.rafters/` directory read from.
    closed spec fn view(&self) -> Seq<char> {
        self.rafters_dir@
    }
}

/// Where a project's `.rafters/` directory is.
pub open spec fn rafters_dir_of(project_root: Seq<char>) -> Seq<char> {
    path_join(project_root, ".rafters"@)
}

impl LocalRegistryReader {
    /// Create a new reader pointing at the given `.rafters/` directory.
    pub fn new(rafters_dir: &str) -> (r: Self)
        ensures
            r@ == rafters_dir@,
    {
        LocalRegistryReader { rafters_dir: owned(rafters_dir) }
    }

    /// The `.rafters/` directory a project root would hold.
    pub fn candidate_dir(project_root: &str) -> (r: String)
        ensures
            r@ == rafters_dir_of(project_root@),
    {
        join_path(project_root, ".rafters")
    }

    /// Create a reader for a project root, given whether its `.rafters/`
    /// directory exists: a reader when it does, `NotFound` naming the
    /// directory when it does not.
    pub fn detect(project_root: &str, rafters_dir_exists: bool) -> (r: Result<Self, RegistryError>)
        ensures
            rafters_dir_exists ==> (r matches Ok(reader) && reader@ == rafters_dir_of(project_root@)),
            !rafters_dir_exists ==> (r matches Err(RegistryError::NotFound(p)) && p@ == rafters_dir_of(project_root@)),
    {
        let dir = Self::candidate_dir(project_root);
        if rafters_dir_exists {
            Ok(LocalRegistryReader { rafters_dir: dir })
        } else {
            Err(RegistryError::NotFound(dir))
        }
    }

    /// Path to the `.rafters/` directory.
    pub fn rafters_dir(&self) -> (r: &str)
        ensures
            r@ == self@,
    {
        self.rafters_dir.as_str()
    }

    /// Where a namespace token file lives: `tokens/<name>.rafters.json`.
    pub fn namespace_path(&self, name: &str) -> (r: String)
        ensures
            r@ == path_join(path_join(self@, "tokens"@), name@ + ".rafters.json"@),
    {
        let dir = join_path(self.rafters_dir.as_str(), "tokens");
        let mut file = owned(name);
        push_str(&mut file, ".rafters.json");
        join_path(dir.as_str(), file.as_str())
    }

    /// Where a registry item lives: `registry/<kind>/<name>.json`.
    pub fn item_path(&self, kind: &str, name: &str) -> (r: String)
        ensures
            r@ == path_join(path_join(path_join(self@, "registry"@), kind@), name@ + ".json"@),
    {
        let reg = join_path(self.rafters_dir.as_str(), "registry");
        let dir = join_path(reg.as_str(), kind);
        let mut file = owned(name);
        push_str(&mut file, ".json");
        join_path(dir.as_str(), file.as_str())
    }

    /// Where the registry index lives: `registry/index.json`.
    pub fn index_path(&self) -> (r: String)
        ensures
            r@ == path_join(path_join(self@, "registry"@), "index.json"@),
    {
        let reg = join_path(self.rafters_dir.as_str(), "registry");
        join_path(reg.as_str(), "index.json")
    }

    /// Where the rafters config lives: `config.rafters.json`.
    pub fn config_path(&self) -> (r: String)
        ensures
            r@ == path_join(self@, "config.rafters.json"@),
    {
        join_path(self.rafters_dir.as_str(), "config.rafters.json")
    }
}

/// A registry item that is not on disk is named by kind and name
/// (`components/button`); any other failure stands as it is.
pub fn missing_item_error(kind: &str, name: &str, error: RegistryError, not_found: bool) -> (r: RegistryError)
    ensures
        (not_found && error is Io) ==> (r matches RegistryError::ComponentNotFound(n) && n@ == kind@ + "/"@ + name@),
        !(not_found && error is Io) ==> r == error,
{
    match error {
        RegistryError::Io { .. } if not_found => {
            let mut n = owned(kind);
            push_str(&mut n, "/");
            push_str(&mut n, name);
            RegistryError::ComponentNotFound(n)
        },
        other => other,
    }
}

/// A namespace file that is not on disk is named by namespace; any other
/// failure stands as it is.
pub fn missing_namespace_error(name: &str, error: RegistryError, not_found: bool) -> (r: RegistryError)
    ensures
        (not_found && error is Io) ==> (r matches RegistryError::NamespaceNotFound(n) && n@ == name@),
        !(not_found && error is Io) ==> r == error,
{
    match error {
        RegistryError::Io { .. } if not_found => RegistryError::NamespaceNotFound(owned(name)),
        other => other,
    }
}

} // verus!
