//! Facts read from a project's `.rafters/` namespace source: the shapes the
//! rest of the pipeline consumes. Reading the files is the caller's; these
//! are the values it hands over.

use vstd::prelude::*;
use crate::text::{decimal, owned, push_decimal, push_str};

verus! {

/// Errors while reading the `.rafters/` namespace source. Each variant names
/// the file and, where available, the location of the failure.
#[derive(Debug, Clone, PartialEq, Eq)]
pub enum NamespaceError {
    /// A namespace file or directory could not be read from disk.
    Io { path: String, message: String },
    /// A namespace file is not valid JSON or does not match the
    /// namespace-tokens schema shape.
    Malformed { path: String, line: usize, column: usize, message: String },
    /// A token inside an otherwise well-formed file has an invalid shape.
    InvalidToken { path: String, token: String, message: String },
}

pub open spec fn namespace_error_message(e: NamespaceError) -> Seq<char> {
    match e {
        NamespaceError::Io { path, message } => "failed to read "@ + path@ + ": "@ + message@,
        NamespaceError::Malformed { path, line, column, message } => "malformed namespace file "@ + path@
            + " at line "@ + decimal(line as nat) + ", column "@ + decimal(column as nat) + ": "@ + message@,
        NamespaceError::InvalidToken { path, token, message } => "invalid token \""@ + token@ + "\" in "@
            + path@ + ": "@ + message@,
    }
}

impl NamespaceError {
    /// The error's message.
    pub fn message(&self) -> (r: String)
        ensures
            r@ == namespace_error_message(*self),
    {
        match self {
            NamespaceError::Io { path, message } => {
                let mut out = owned("failed to read ");
                push_str(&mut out, path.as_str());
                push_str(&mut out, ": ");
                push_str(&mut out, message.as_str());
                out
            },
            NamespaceError::Malformed { path, line, column, message } => {
                let mut out = owned("malformed namespace file ");
                push_str(&mut out, path.as_str());
                push_str(&mut out, " at line ");
                push_decimal(&mut out, *line as u64);
                push_str(&mut out, ", column ");
                push_decimal(&mut out, *column as u64);
                push_str(&mut out, ": ");
                push_str(&mut out, message.as_str());
                out
            },
            NamespaceError::InvalidToken { path, token, message } => {
                let mut out = owned("invalid token \"");
                push_str(&mut out, token.as_str());
                push_str(&mut out, "\" in ");
                push_str(&mut out, path.as_str());
                push_str(&mut out, ": ");
                push_str(&mut out, message.as_str());
                out
            },
        }
    }
}

/// The do/never usage patterns a token or composite manifest declares.
#[derive(Debug, Clone, PartialEq)]
pub struct UsagePatterns {
    pub do_patterns: Vec<String>,
    pub never: Vec<String>,
}

/// Scale-index pairs that pass a WCAG level, split by text size.
#[derive(Debug, Clone, PartialEq)]
pub struct ContrastMatrix {
    pub normal: Vec<ContrastPair>,
    pub large: Vec<ContrastPair>,
}

/// A foreground/background pair of scale indices, written in the source as
/// a two-element array `[foreground, background]`.
#[derive(Debug, Clone, Copy, PartialEq, Eq, Structural)]
pub struct ContrastPair {
    pub foreground: usize,
    pub background: usize,
}

impl From<[usize; 2]> for ContrastPair {
    fn from(pair: [usize; 2]) -> (r: Self) {
        ContrastPair { foreground: pair[0], background: pair[1] }
    }
}

impl vstd::std_specs::convert::FromSpecImpl<[usize; 2]> for ContrastPair {
    open spec fn obeys_from_spec() -> bool {
        true
    }

    open spec fn from_spec(pair: [usize; 2]) -> Self {
        ContrastPair { foreground: pair@[0], background: pair@[1] }
    }
}

/// The `framework`/`componentTarget` facts declared in
/// `.rafters/config.rafters.json`. Absence of either field is `None`,
/// never guessed.
#[derive(Debug, Clone, PartialEq, Eq)]
pub struct FrameworkDeclaration {
    /// The project's declared delivery framework, for example `"wc"`.
    pub framework: Option<String>,
    /// The declared source framework of the components, for example
    /// `"react"`. Drives adapter selection.
    pub component_target: Option<String>,
}

impl Default for FrameworkDeclaration {
    /// Nothing declared.
    fn default() -> (r: Self)
        ensures
            r.framework is None,
            r.component_target is None,
    {
        FrameworkDeclaration { framework: None, component_target: None }
    }
}

} // verus!
