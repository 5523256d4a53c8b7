//! The shapes a component transform produces.

use vstd::prelude::*;
use std::collections::HashMap;
use crate::react::ComponentStructure;
use crate::text::{owned, push_str};

verus! {

/// Context for transforming a component.
#[derive(Debug, Clone)]
pub struct TransformContext {
    /// Import mappings: "@components/*" -> "./src/components/*"
    pub import_map: HashMap<String, String>,
    /// Full text of the project stylesheet. The transform scopes the
    /// component's CSS out of it for the shadow root. Empty means the
    /// project declares no compiled stylesheet: a component that declares
    /// classes then fails to transform with an error naming it.
    pub stylesheet: String,
}

impl Default for TransformContext {
    /// No import mappings and no stylesheet.
    fn default() -> (r: Self)
        ensures
            r.import_map@ == Map::<String, String>::empty(),
            r.stylesheet@ == Seq::<char>::empty(),
    {
        TransformContext { import_map: HashMap::new(), stylesheet: String::new() }
    }
}

/// Result of transforming a component to a Web Component.
#[derive(Debug, Clone)]
pub struct TransformedBlock {
    /// Web Component class definition (JavaScript)
    pub web_component: String,
    /// Custom element tag name (e.g., "button-preview")
    pub tag_name: String,
    /// Tailwind classes used (for CSS scanning)
    pub classes_used: Vec<String>,
    /// Observed attributes derived from props
    pub attributes: Vec<String>,
}

/// Errors that can occur during transformation.
#[derive(Debug, Clone, PartialEq, Eq)]
pub enum TransformError {
    ParseError(String),
    TransformError(String),
    /// No class data found: component has no variant records, size records,
    /// or base classes.
    MissingVariants,
    InvalidStructure(String),
    /// A component or composite failed to render. Names the item so it
    /// feeds coverage instead of silently vanishing from the output.
    RenderFailed { component: String, reason: String },
}

/// The text of a transform error.
pub open spec fn transform_error_message(e: TransformError) -> Seq<char> {
    match e {
        TransformError::ParseError(m) => "Parse error: "@ + m@,
        TransformError::TransformError(m) => "Transform error: "@ + m@,
        TransformError::MissingVariants => "No class data found: component has no variant records, size records, or base classes"@,
        TransformError::InvalidStructure(m) => "Invalid component structure: "@ + m@,
        TransformError::RenderFailed { component, reason } => "failed to render "@ + component@ + ": "@ + reason@,
    }
}

impl TransformError {
    /// The error's message.
    pub fn message(&self) -> (r: String)
        ensures
            r@ == transform_error_message(*self),
    {
        match self {
            TransformError::ParseError(m) => {
                let mut out = owned("Parse error: ");
                push_str(&mut out, m.as_str());
                out
            },
            TransformError::TransformError(m) => {
                let mut out = owned("Transform error: ");
                push_str(&mut out, m.as_str());
                out
            },
            TransformError::MissingVariants => owned(
                "No class data found: component has no variant records, size records, or base classes",
            ),
            TransformError::InvalidStructure(m) => {
                let mut out = owned("Invalid component structure: ");
                push_str(&mut out, m.as_str());
                out
            },
            TransformError::RenderFailed { component, reason } => {
                let mut out = owned("failed to render ");
                push_str(&mut out, component.as_str());
                push_str(&mut out, ": ");
                push_str(&mut out, reason.as_str());
                out
            },
        }
    }
}

/// Trait for framework-specific adapters. Reading a component's source
/// into a [`ComponentStructure`] is the framework parser's; the transform
/// takes that structure.
pub trait FrameworkAdapter {
    /// Framework identifier (e.g., "react", "solid")
    fn name(&self) -> &'static str;

    /// File extensions this adapter handles
    fn extensions(&self) -> Vec<&'static str>;

    /// Transform an extracted component structure into a Web Component.
    fn transform(
        &self,
        structure: &ComponentStructure,
        tag_name: &str,
        ctx: &TransformContext,
    ) -> Result<TransformedBlock, TransformError>;
}

} // verus!
