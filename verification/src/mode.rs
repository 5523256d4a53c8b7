//! Mode detection and framework dispatch.
//!
//! Veneer names which mode it runs in from what the project root contains,
//! never a flag and never guessed: `Default` when both a component matrix
//! and a `.behavior.ts` file are present (the rafters monorepo), `Sidecar`
//! otherwise (an installed consumer project). Separately, the source reader
//! is dispatched by the framework the project's rafters config declares; an
//! unsupported value is an observation, never an inference.

use vstd::prelude::*;
use vstd::string::*;
use crate::react::ReactAdapter;
use crate::text::{ends_with, join_path, owned, path_join, str_ends_with, str_eq};

verus! {

/// Which mode veneer runs in for a given project root.
#[derive(Debug, Clone, Copy, PartialEq, Eq, Structural)]
pub enum Mode {
    /// The rafters monorepo: a component matrix and at least one
    /// `.behavior.ts` file are present.
    Default,
    /// An installed consumer project: no matrix, no behavior files.
    Sidecar,
}

/// Detect the mode from the two signals a project root shows: whether its
/// component matrix file exists and whether any `.behavior.ts` file exists
/// under it. `Default` needs both; either absent is `Sidecar`.
pub fn detect_mode(matrix_present: bool, behavior_present: bool) -> (m: Mode)
    ensures
        m == (if matrix_present && behavior_present {
            Mode::Default
        } else {
            Mode::Sidecar
        }),
{
    if matrix_present && behavior_present {
        Mode::Default
    } else {
        Mode::Sidecar
    }
}

/// Whether a file name is a behavior module (`*.behavior.ts`).
pub fn is_behavior_file(filename: &str) -> (b: bool)
    ensures
        b == ends_with(filename@, ".behavior.ts"@),
{
    str_ends_with(filename, ".behavior.ts")
}

/// Where a project's component matrix lives.
pub fn default_matrix_path(project_root: &str) -> (r: String)
    ensures
        r@ == path_join(project_root@, "docs/spec/matrix/components.jsonl"@),
{
    join_path(project_root, "docs/spec/matrix/components.jsonl")
}

/// Whether a project walk descends into a directory: everywhere but
/// hidden, dependency and build-output directories (the root itself is
/// always walked).
pub fn is_walkable_dir(name: &str, is_root: bool) -> (b: bool)
    ensures
        b == (is_root || !((name@.len() > 0 && name@[0] == '.') || name@ == "node_modules"@ || name@ == "target"@
            || name@ == "dist"@ || name@ == "build"@)),
{
    if is_root {
        return true;
    }
    let v = crate::text::chars_of(name);
    !((v.len() > 0 && v[0] == '.') || str_eq(name, "node_modules") || str_eq(name, "target") || str_eq(
        name,
        "dist",
    ) || str_eq(name, "build"))
}

/// The outcome of dispatching on a project's declared `componentTarget`.
#[derive(Debug)]
pub enum FrameworkDispatch {
    /// `componentTarget` names a framework veneer has an adapter for.
    Supported(ReactAdapter),
    /// `componentTarget` names a framework veneer has no adapter for: an
    /// observation, not an error.
    Unsupported {
        /// The framework exactly as declared.
        declared: String,
    },
}

/// Select the framework adapter for a declared `componentTarget`. Silence
/// (`None`) resolves to the React adapter; an explicit non-`"react"`
/// declaration is `Unsupported`, naming exactly what was declared.
pub fn dispatch_framework(component_target: Option<&str>) -> (r: FrameworkDispatch)
    ensures
        match component_target {
            None => r is Supported,
            Some(t) => if t@ == "react"@ {
                r is Supported
            } else {
                r matches FrameworkDispatch::Unsupported { declared } && declared@ == t@
            },
        },
{
    proof {
        reveal_strlit("react");
    }
    match component_target {
        None => FrameworkDispatch::Supported(ReactAdapter::new()),
        Some(t) => if str_eq(t, "react") {
            FrameworkDispatch::Supported(ReactAdapter::new())
        } else {
            FrameworkDispatch::Unsupported { declared: owned(t) }
        },
    }
}

} // verus!
