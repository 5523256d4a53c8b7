//! The rafters component matrix (`docs/spec/matrix/components.jsonl`, line
//! schema `rafters.component-line/1`): what each component is, what it
//! composes, its states and motion intents, per-target port status, and the
//! old-tree JSDoc header carried forward. Every field holds exactly what
//! the matrix declares; an absent optional means nothing was declared.

use vstd::prelude::*;
use vstd::string::*;
use crate::text::{chars_of, decimal, lines, owned, push_decimal, push_str, split_lines, str_eq, trim, trim_range};

verus! {

/// The line-shape discriminator every matrix line carries.
pub const COMPONENT_LINE_SCHEMA: &'static str = "rafters.component-line/1";

/// An error reading or parsing the matrix.
#[derive(Debug, Clone, PartialEq, Eq)]
pub enum MatrixError {
    Read { path: String, message: String },
    /// A line did not parse as a `rafters.component-line/1` object; `line`
    /// is 1-based.
    Parse { line: usize, message: String },
    /// A line parsed but carried an unrecognized schema discriminator.
    Schema { line: usize, schema: String },
}

pub open spec fn matrix_error_message(e: MatrixError) -> Seq<char> {
    match e {
        MatrixError::Read { path, message } => "failed to read matrix at "@ + path@ + ": "@ + message@,
        MatrixError::Parse { line, message } => "matrix line "@ + decimal(line as nat) + ": "@ + message@,
        MatrixError::Schema { line, schema } => "matrix line "@ + decimal(line as nat) + ": unexpected schema \""@
            + schema@ + "\" (expected \"rafters.component-line/1\")"@,
    }
}

impl MatrixError {
    /// The error's message. (A schema value holding a quote or backslash
    /// is shown as is, not escaped.)
    pub fn message(&self) -> (r: String)
        ensures
            r@ == matrix_error_message(*self),
    {
        match self {
            MatrixError::Read { path, message } => {
                let mut out = owned("failed to read matrix at ");
                push_str(&mut out, path.as_str());
                push_str(&mut out, ": ");
                push_str(&mut out, message.as_str());
                out
            },
            MatrixError::Parse { line, message } => {
                let mut out = owned("matrix line ");
                push_decimal(&mut out, *line as u64);
                push_str(&mut out, ": ");
                push_str(&mut out, message.as_str());
                out
            },
            MatrixError::Schema { line, schema } => {
                let mut out = owned("matrix line ");
                push_decimal(&mut out, *line as u64);
                push_str(&mut out, ": unexpected schema \"");
                push_str(&mut out, schema.as_str());
                push_str(&mut out, "\" (expected \"rafters.component-line/1\")");
                out
            },
        }
    }
}

/// The archetype vocabulary rafters assigns each component.
#[derive(Debug, Clone, Copy, PartialEq, Eq, Structural)]
pub enum Archetype {
    Static,
    SimpleInteractive,
    ToggleFamily,
    TextInputFamily,
    Disclosure,
    ModalOverlay,
    NonModalOverlay,
    MenuCollectionPopup,
    Compound,
}

pub open spec fn archetype_name(a: Archetype) -> Seq<char> {
    match a {
        Archetype::Static => "static"@,
        Archetype::SimpleInteractive => "simple-interactive"@,
        Archetype::ToggleFamily => "toggle-family"@,
        Archetype::TextInputFamily => "text-input-family"@,
        Archetype::Disclosure => "disclosure"@,
        Archetype::ModalOverlay => "modal-overlay"@,
        Archetype::NonModalOverlay => "non-modal-overlay"@,
        Archetype::MenuCollectionPopup => "menu-collection-popup"@,
        Archetype::Compound => "compound"@,
    }
}

impl Archetype {
    /// The kebab-case wire name, matching the matrix's own spelling.
    pub fn as_str(self) -> (r: &'static str)
        ensures
            r@ == archetype_name(self),
    {
        match self {
            Archetype::Static => "static",
            Archetype::SimpleInteractive => "simple-interactive",
            Archetype::ToggleFamily => "toggle-family",
            Archetype::TextInputFamily => "text-input-family",
            Archetype::Disclosure => "disclosure",
            Archetype::ModalOverlay => "modal-overlay",
            Archetype::NonModalOverlay => "non-modal-overlay",
            Archetype::MenuCollectionPopup => "menu-collection-popup",
            Archetype::Compound => "compound",
        }
    }
}

/// No two archetypes share a wire name: the name gives the archetype back.
pub proof fn lemma_archetype_names_distinct(a: Archetype, b: Archetype)
    ensures
        archetype_name(a) == archetype_name(b) ==> a == b,
{
    reveal_strlit("static");
    reveal_strlit("simple-interactive");
    reveal_strlit("toggle-family");
    reveal_strlit("text-input-family");
    reveal_strlit("disclosure");
    reveal_strlit("modal-overlay");
    reveal_strlit("non-modal-overlay");
    reveal_strlit("menu-collection-popup");
    reveal_strlit("compound");
    if archetype_name(a) == archetype_name(b) {
        let x = archetype_name(a);
        assert(x.len() == archetype_name(b).len());
        assert(x[0] == archetype_name(b)[0]);
    }
}

/// Whether a component has been ported to the new constitution.
#[derive(Debug, Clone, Copy, PartialEq, Eq, Structural)]
pub enum PortStatus {
    Ported,
    Pending,
}

/// Per-file port status for one framework target.
#[derive(Debug, Clone, Copy, PartialEq, Eq, Structural)]
pub enum FileStatus {
    Missing,
    Specced,
    Ported,
    Verified,
}

/// Published-artifact provenance.
#[derive(Debug, Clone, PartialEq, Eq)]
pub struct Provenance {
    pub version: String,
    /// sha256 over the file bytes with the fingerprint line removed.
    pub fingerprint: String,
    /// ed25519 signature over the fingerprint.
    pub signature: Option<String>,
}

/// Cognitive load as the matrix declares it.
#[derive(Debug, Clone, PartialEq, Eq)]
pub struct MatrixCognitiveLoad {
    pub score: u8,
    pub note: Option<String>,
}

/// The `metadata` block: the old-tree JSDoc header carried forward.
#[derive(Debug, Clone, PartialEq, Eq)]
pub struct ComponentMetadata {
    /// The old-tree file the header was lifted from.
    pub source: String,
    pub description: Option<String>,
    pub cognitive_load: Option<MatrixCognitiveLoad>,
    pub attention_economics: Option<String>,
    pub trust_building: Option<String>,
    pub accessibility: Option<String>,
    pub semantic_meaning: Option<String>,
    /// The `@usage-patterns` DO / NEVER lines, one per entry.
    pub usage_patterns: Option<Vec<String>>,
}

/// The primitives a component composes today and those the port adds.
#[derive(Debug, Clone, PartialEq, Eq)]
pub struct Uses {
    pub current: Vec<String>,
    pub planned: Vec<String>,
    pub note: Option<String>,
}

/// Motion facts: current utilities and declared intents.
#[derive(Debug, Clone, PartialEq, Eq)]
pub struct Motion {
    pub current: String,
    pub intents: Vec<String>,
}

/// Per-target behavior-layer port status.
#[derive(Debug, Clone, PartialEq, Eq)]
pub struct BehaviorLayer {
    pub react: FileStatus,
    pub astro: FileStatus,
    pub wc: FileStatus,
    pub vue: FileStatus,
}

/// The port status per framework, plus what the old tree ships.
#[derive(Debug, Clone, PartialEq, Eq)]
pub struct Frameworks {
    pub behavior_layer: BehaviorLayer,
    pub old_tree: Vec<String>,
}

/// One line of the matrix: the full record for one component.
#[derive(Debug, Clone, PartialEq, Eq)]
pub struct ComponentLine {
    pub schema: String,
    pub name: String,
    pub archetype: Archetype,
    pub status: PortStatus,
    pub provenance: Option<Provenance>,
    pub metadata: Option<ComponentMetadata>,
    pub is: String,
    pub does: String,
    pub states: Vec<String>,
    pub uses: Uses,
    pub motion: Motion,
    pub frameworks: Frameworks,
}

impl ComponentLine {
    /// Whether a Web Component preview can be compiled for this component:
    /// its WC behavior layer is ported or verified.
    pub fn has_wc_preview(&self) -> (b: bool)
        ensures
            b == (self.frameworks.behavior_layer.wc == FileStatus::Ported || self.frameworks.behavior_layer.wc
                == FileStatus::Verified),
    {
        match self.frameworks.behavior_layer.wc {
            FileStatus::Ported | FileStatus::Verified => true,
            _ => false,
        }
    }
}

/// The non-blank lines of the matrix text with their 1-based numbers, in
/// file order.
pub open spec fn numbered_lines(ls: Seq<Seq<char>>) -> Seq<(int, Seq<char>)>
    decreases ls.len(),
{
    if ls.len() == 0 {
        seq![]
    } else {
        let rest = numbered_lines(ls.drop_last());
        if trim(ls.last()).len() == 0 {
            rest
        } else {
            rest.push((ls.len() as int, ls.last()))
        }
    }
}

/// The lines of the matrix text that carry a record, each with its 1-based
/// line number. Blank lines are skipped.
pub fn matrix_lines(text: &str) -> (r: Vec<(usize, String)>)
    ensures
        r@.map_values(|p: (usize, String)| (p.0 as int, p.1@)) == numbered_lines(lines(text@)),
{
    let ls = split_lines(&chars_of(text));
    let ghost lv = crate::text::vviews(ls@);
    let mut r: Vec<(usize, String)> = Vec::new();
    let mut i: usize = 0;
    while i < ls.len()
        invariant
            i <= ls@.len(),
            lv == crate::text::vviews(ls@),
            lv == lines(text@),
            r@.map_values(|p: (usize, String)| (p.0 as int, p.1@)) == numbered_lines(lv.take(i as int)),
        decreases ls@.len() - i,
    {
        assert(lv.take(i + 1).drop_last() =~= lv.take(i as int));
        assert(lv.take(i + 1).last() == lv[i as int]);
        let (a, b) = trim_range(&ls[i], 0, ls[i].len());
        assert(ls[i as int]@.subrange(0, ls[i as int]@.len() as int) =~= ls[i as int]@);
        let ghost r0 = r@.map_values(|p: (usize, String)| (p.0 as int, p.1@));
        if a < b {
            let line = crate::text::string_of(&ls[i], 0, ls[i].len());
            r.push((i + 1, line));
            assert(r@.map_values(|p: (usize, String)| (p.0 as int, p.1@)) =~= r0.push(((i + 1) as int, lv[i as int])));
        }
        i = i + 1;
    }
    assert(lv.take(ls@.len() as int) =~= lv);
    r
}

/// Check one parsed line's schema discriminator: a line of another schema
/// is refused, naming the line.
pub fn check_schema(line_no: usize, line: ComponentLine) -> (r: Result<ComponentLine, MatrixError>)
    ensures
        line.schema@ == "rafters.component-line/1"@ ==> r == Ok::<ComponentLine, MatrixError>(line),
        line.schema@ != "rafters.component-line/1"@ ==> (r matches Err(MatrixError::Schema { line: n, schema }) && n == line_no
            && schema@ == line.schema@),
{
    if str_eq(line.schema.as_str(), COMPONENT_LINE_SCHEMA) {
        Ok(line)
    } else {
        Err(MatrixError::Schema { line: line_no, schema: line.schema })
    }
}

} // verus!
