//! The agent-facing intelligence artifact: the pieces that decide what a
//! component's JSON artifact states. Absence is explicit: a field the
//! source does not declare is marked absent, never silently omitted.

use vstd::prelude::*;
use vstd::string::*;
use crate::intelligence::{blocks_from, jsdoc_blocks, jsdoc_tags, tag_views, tags_of};
use crate::text::{chars_of, normalize_whitespace, normalize_ws, owned, push_str, str_eq};

verus! {

/// Version of the artifact JSON schema.
pub const ARTIFACT_SCHEMA_VERSION: &'static str = "1";

/// Errors while building or emitting an intelligence artifact. Every
/// variant names the component.
#[derive(Debug, Clone, PartialEq, Eq)]
pub enum ArtifactError {
    /// The component's source file (or a family sibling) could not be read.
    SourceUnreadable { component: String, reason: String },
    /// A field of the artifact failed to serialize.
    Serialization { component: String, field: String, reason: String },
    /// The fully serialized artifact could not be written to disk.
    Write { component: String, path: String, reason: String },
}

pub open spec fn artifact_error_message(e: ArtifactError) -> Seq<char> {
    match e {
        ArtifactError::SourceUnreadable { component, reason } => "failed to read intelligence source for "@
            + component@ + ": "@ + reason@,
        ArtifactError::Serialization { component, field, reason } => "failed to serialize field \""@ + field@
            + "\" of "@ + component@ + ": "@ + reason@,
        ArtifactError::Write { component, path, reason } => "failed to write artifact for "@ + component@
            + " at "@ + path@ + ": "@ + reason@,
    }
}

impl ArtifactError {
    /// The error's message.
    pub fn message(&self) -> (r: String)
        ensures
            r@ == artifact_error_message(*self),
    {
        match self {
            ArtifactError::SourceUnreadable { component, reason } => {
                let mut out = owned("failed to read intelligence source for ");
                push_str(&mut out, component.as_str());
                push_str(&mut out, ": ");
                push_str(&mut out, reason.as_str());
                out
            },
            ArtifactError::Serialization { component, field, reason } => {
                let mut out = owned("failed to serialize field \"");
                push_str(&mut out, field.as_str());
                push_str(&mut out, "\" of ");
                push_str(&mut out, component.as_str());
                push_str(&mut out, ": ");
                push_str(&mut out, reason.as_str());
                out
            },
            ArtifactError::Write { component, path, reason } => {
                let mut out = owned("failed to write artifact for ");
                push_str(&mut out, component.as_str());
                push_str(&mut out, " at ");
                push_str(&mut out, path.as_str());
                push_str(&mut out, ": ");
                push_str(&mut out, reason.as_str());
                out
            },
        }
    }
}

/// A field's value, or its explicit absence from source.
#[derive(Debug, Clone, PartialEq)]
pub enum FieldValue<T> {
    Present(T),
    /// Genuinely absent from source: marked, never silently omitted.
    AbsentFromSource,
}

impl<T> FieldValue<T> {
    /// True when the field carries a value.
    pub fn is_present(&self) -> (b: bool)
        ensures
            b == (*self is Present),
    {
        match self {
            FieldValue::Present(_) => true,
            FieldValue::AbsentFromSource => false,
        }
    }
}

/// `Some` becomes `Present`; `None` becomes explicit absence.
pub fn from_option<T>(value: Option<T>) -> (r: FieldValue<T>)
    ensures
        match value {
            Some(v) => r == FieldValue::Present(v),
            None => r is AbsentFromSource,
        },
{
    match value {
        Some(v) => FieldValue::Present(v),
        None => FieldValue::AbsentFromSource,
    }
}

/// An empty collection means the source declares nothing: absence, not an
/// empty answer.
pub fn from_collection<T>(items: Vec<T>) -> (r: FieldValue<Vec<T>>)
    ensures
        items@.len() == 0 ==> r is AbsentFromSource,
        items@.len() > 0 ==> r == FieldValue::Present(items),
{
    if items.len() == 0 {
        FieldValue::AbsentFromSource
    } else {
        FieldValue::Present(items)
    }
}

/// The four prose intelligence tags: attention economics, trust building,
/// accessibility, semantic meaning. `None` exactly when no such tag was
/// declared.
#[derive(Debug)]
pub struct McpProseTags {
    pub attention_economics: Option<String>,
    pub trust_building: Option<String>,
    pub accessibility: Option<String>,
    pub semantic_meaning: Option<String>,
}

impl Default for McpProseTags {
    /// No tag read yet.
    fn default() -> (r: Self)
        ensures
            r.attention_economics is None,
            r.trust_building is None,
            r.accessibility is None,
            r.semantic_meaning is None,
    {
        McpProseTags { attention_economics: None, trust_building: None, accessibility: None, semantic_meaning: None }
    }
}

pub type ProseView = (Option<Seq<char>>, Option<Seq<char>>, Option<Seq<char>>, Option<Seq<char>>);

pub open spec fn opt_view(o: Option<String>) -> Option<Seq<char>> {
    match o {
        Some(s) => Some(s@),
        None => None,
    }
}

pub open spec fn prose_view(t: McpProseTags) -> ProseView {
    (opt_view(t.attention_economics), opt_view(t.trust_building), opt_view(t.accessibility), opt_view(t.semantic_meaning))
}

/// Which prose slot a tag name fills (0-3), if any.
pub open spec fn prose_slot(name: Seq<char>) -> Option<int> {
    if name == "attention-economics"@ || name == "attentioneconomics"@ {
        Some(0)
    } else if name == "trust-building"@ || name == "trustbuilding"@ {
        Some(1)
    } else if name == "accessibility"@ {
        Some(2)
    } else if name == "semantic-meaning"@ || name == "semanticmeaning"@ {
        Some(3)
    } else {
        None
    }
}

/// A slot keeps its first non-empty (white-space normalized) value.
pub open spec fn fill(slot: Option<Seq<char>>, value: Seq<char>) -> Option<Seq<char>> {
    if slot is None && normalize_ws(value).len() > 0 {
        Some(normalize_ws(value))
    } else {
        slot
    }
}

pub open spec fn prose_step(p: ProseView, tag: (Seq<char>, Seq<char>)) -> ProseView {
    let s = prose_slot(tag.0);
    if s == Some(0int) {
        (fill(p.0, tag.1), p.1, p.2, p.3)
    } else if s == Some(1int) {
        (p.0, fill(p.1, tag.1), p.2, p.3)
    } else if s == Some(2int) {
        (p.0, p.1, fill(p.2, tag.1), p.3)
    } else if s == Some(3int) {
        (p.0, p.1, p.2, fill(p.3, tag.1))
    } else {
        p
    }
}

pub open spec fn prose_over_tags(p: ProseView, tags: Seq<(Seq<char>, Seq<char>)>) -> ProseView
    decreases tags.len(),
{
    if tags.len() == 0 {
        p
    } else {
        prose_step(prose_over_tags(p, tags.drop_last()), tags.last())
    }
}

pub open spec fn prose_over_blocks(p: ProseView, blocks: Seq<Seq<char>>) -> ProseView
    decreases blocks.len(),
{
    if blocks.len() == 0 {
        p
    } else {
        prose_over_tags(prose_over_blocks(p, blocks.drop_last()), tags_of(blocks.last()))
    }
}

fn fill_slot(slot: &mut Option<String>, value: &str)
    ensures
        opt_view(*final(slot)) == fill(opt_view(*old(slot)), value@),
{
    if slot.is_none() {
        let v = normalize_whitespace(value);
        let n = chars_of(v.as_str()).len();
        if n > 0 {
            *slot = Some(v);
        }
    }
}

/// Scan every JSDoc block of one source file for the four prose tags,
/// merging first-wins into `tags`.
pub fn collect_prose_tags(source: &str, tags: &mut McpProseTags)
    ensures
        prose_view(*final(tags)) == prose_over_blocks(prose_view(*old(tags)), blocks_from(source@, 0)),
{
    proof {
        reveal_strlit("attention-economics");
        reveal_strlit("attentioneconomics");
        reveal_strlit("trust-building");
        reveal_strlit("trustbuilding");
        reveal_strlit("accessibility");
        reveal_strlit("semantic-meaning");
        reveal_strlit("semanticmeaning");
    }
    let blocks = jsdoc_blocks(source);
    let ghost bv = crate::text::views(blocks@);
    let ghost p0 = prose_view(*tags);
    let mut b: usize = 0;
    while b < blocks.len()
        invariant
            b <= blocks@.len(),
            bv == crate::text::views(blocks@),
            bv == blocks_from(source@, 0),
            prose_view(*tags) == prose_over_blocks(p0, bv.take(b as int)),
        decreases blocks@.len() - b,
    {
        let ts = jsdoc_tags(blocks[b].as_str());
        let ghost tv = tag_views(ts@);
        assert(bv[b as int] == blocks@[b as int]@);
        let ghost mid = prose_view(*tags);
        let mut k: usize = 0;
        while k < ts.len()
            invariant
                k <= ts@.len(),
                tv == tag_views(ts@),
                prose_view(*tags) == prose_over_tags(mid, tv.take(k as int)),
            decreases ts@.len() - k,
        {
            let name = ts[k].name.as_str();
            let value = ts[k].value.as_str();
            assert(tv[k as int] == (ts@[k as int].name@, ts@[k as int].value@));
            if str_eq(name, "attention-economics") || str_eq(name, "attentioneconomics") {
                fill_slot(&mut tags.attention_economics, value);
            } else if str_eq(name, "trust-building") || str_eq(name, "trustbuilding") {
                fill_slot(&mut tags.trust_building, value);
            } else if str_eq(name, "accessibility") {
                fill_slot(&mut tags.accessibility, value);
            } else if str_eq(name, "semantic-meaning") || str_eq(name, "semanticmeaning") {
                fill_slot(&mut tags.semantic_meaning, value);
            }
            assert(tv.take(k + 1).drop_last() =~= tv.take(k as int));
            assert(tv.take(k + 1).last() == tv[k as int]);
            k = k + 1;
        }
        assert(tv.take(ts@.len() as int) =~= tv);
        assert(bv.take(b + 1).drop_last() =~= bv.take(b as int));
        assert(bv.take(b + 1).last() == bv[b as int]);
        b = b + 1;
    }
    assert(bv.take(blocks@.len() as int) =~= bv);
}

} // verus!
