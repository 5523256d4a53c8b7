//! Self-contained component/composite MDX page generation: the human-facing
//! rendering of a component's compiled intelligence.
//!
//! A generated page carries only what source declares: frontmatter, the
//! live preview element with the `<script type="module">` sidecar that
//! defines it, and one section per declared intelligence field. A field the
//! source does not declare emits no section at all. No layout, no CSS
//! classes, no wrapper markup, no editorial template.

use vstd::prelude::*;
use vstd::string::*;
use crate::intelligence::{
    CognitiveLoad, Constraint, ConstraintKind, DependencyOrigin, DependencyRef, PropDoc,
    RenderedComponent, TokenRef, VariantDoc,
};
use crate::registry::{DiscoveredItem, DiscoveredKind};
use crate::text::{
    concat, decimal, escaped, is_whitespace, owned, push_decimal, push_escaped, push_str, trim,
    trim_end, trim_end_str, trim_str, Escape,
};
use crate::traits::TransformError;
use crate::ts_helpers::{kebab, kebab_case};

verus! {

/// A generated documentation page and the preview script it references.
#[derive(Debug, Clone)]
pub struct GeneratedComponentPage {
    /// The MDX page content.
    pub page: String,
    /// File name of the preview script the page references (for example
    /// `button-preview.js`).
    pub sidecar_name: String,
    /// The Web Component definition the sidecar holds.
    pub sidecar: String,
}

/// The file name a component's generated page is written under: its
/// kebab-cased name plus `.mdx`.
pub fn component_page_file_name(name: &str) -> (r: String)
    ensures
        r@ == kebab(name@) + ".mdx"@,
{
    let mut r = kebab_case(name);
    push_str(&mut r, ".mdx");
    r
}

/// Label of a discovered kind in the page frontmatter.
pub open spec fn kind_label(kind: DiscoveredKind) -> Seq<char> {
    match kind {
        DiscoveredKind::Component => "component"@,
        DiscoveredKind::Composite => "composite"@,
    }
}

/// An inline-code table cell: the text in backticks with `|` escaped.
pub open spec fn code_cell(t: Seq<char>) -> Seq<char> {
    "`"@ + escaped(Escape::TableCell, t) + "`"@
}

fn push_code_cell(out: &mut String, t: &str)
    ensures
        final(out)@ == old(out)@ + code_cell(t@),
{
    push_str(out, "`");
    push_escaped(out, Escape::TableCell, t);
    push_str(out, "`");
}

/// Frontmatter (title, kind, and the declared cognitive-load score) and the
/// preview: the bare element and the script that defines it.
pub open spec fn page_head(name: Seq<char>, kind: DiscoveredKind, load: Option<CognitiveLoad>, tag: Seq<char>) -> Seq<char> {
    "---\ntitle: "@ + name + "\nkind: "@ + kind_label(kind) + "\n"@ + (match load {
        Some(l) => "cognitiveLoad: "@ + decimal(l.score as nat) + "\n"@,
        None => Seq::<char>::empty(),
    }) + "---\n\n<"@ + tag + "></"@ + tag + ">\n\n<script type=\"module\" src=\"./"@ + tag + ".js\"></script>\n\n"@
}

/// A rule is unparseable when its text is blank.
pub open spec fn blank(c: Constraint) -> bool {
    trim(c.text@).len() == 0
}

/// The kind of the first rule with blank text, if any.
pub open spec fn first_blank(cs: Seq<Constraint>) -> Option<ConstraintKind>
    decreases cs.len(),
{
    if cs.len() == 0 {
        None
    } else {
        match first_blank(cs.drop_last()) {
            Some(k) => Some(k),
            None => if blank(cs.last()) {
                Some(cs.last().kind)
            } else {
                None
            },
        }
    }
}

pub open spec fn constraint_line(c: Constraint) -> Seq<char> {
    "- "@ + (match c.kind {
        ConstraintKind::Do => "DO"@,
        ConstraintKind::Never => "NEVER"@,
    }) + ": "@ + escaped(Escape::MdxText, c.text@) + "\n"@
}

/// The declared do/never rules as a plain Markdown list, in source order.
pub open spec fn constraints_section(cs: Seq<Constraint>) -> Seq<char> {
    if cs.len() == 0 {
        seq![]
    } else {
        "## Constraints\n\n"@ + concat(cs.map_values(|c: Constraint| constraint_line(c))) + "\n"@
    }
}

/// The declared cognitive-load rationale; a bare score has none.
pub open spec fn load_section(load: Option<CognitiveLoad>) -> Seq<char> {
    match load {
        Some(l) => match l.description {
            Some(d) => "## Cognitive load\n\n"@ + decimal(l.score as nat) + "/10 -- "@ + escaped(Escape::MdxText, d@) + "\n\n"@,
            None => seq![],
        },
        None => seq![],
    }
}

pub open spec fn prop_row(p: PropDoc) -> Seq<char> {
    "| "@ + code_cell(p.name@) + " | "@ + (match p.type_text {
        Some(t) => code_cell(t@),
        None => "-"@,
    }) + " | "@ + (if p.optional {
        "Yes"@
    } else {
        "No"@
    }) + " |\n"@
}

pub open spec fn props_section(ps: Seq<PropDoc>) -> Seq<char> {
    if ps.len() == 0 {
        seq![]
    } else {
        "## Props\n\n| Name | Type | Optional |\n| --- | --- | --- |\n"@ + concat(ps.map_values(|p: PropDoc| prop_row(p))) + "\n"@
    }
}

pub open spec fn variant_row(v: VariantDoc) -> Seq<char> {
    "| "@ + code_cell(v.name@) + " | "@ + code_cell(v.classes@) + " |\n"@
}

pub open spec fn variants_section(vs: Seq<VariantDoc>) -> Seq<char> {
    if vs.len() == 0 {
        seq![]
    } else {
        "## Variants\n\n| Variant | Classes |\n| --- | --- |\n"@ + concat(vs.map_values(|v: VariantDoc| variant_row(v))) + "\n"@
    }
}

/// The classes that reference a token, each an inline-code cell, separated
/// by single spaces.
pub open spec fn code_cells(cs: Seq<Seq<char>>) -> Seq<char>
    decreases cs.len(),
{
    if cs.len() == 0 {
        seq![]
    } else if cs.len() == 1 {
        code_cell(cs[0])
    } else {
        code_cells(cs.drop_last()) + " "@ + code_cell(cs.last())
    }
}

pub open spec fn token_row(t: TokenRef) -> Seq<char> {
    "| "@ + code_cell(t.token@) + " | "@ + code_cell(t.namespace@) + " | "@ + code_cells(crate::text::views(t.referenced_by@)) + " |\n"@
}

pub open spec fn tokens_section(ts: Seq<TokenRef>) -> Seq<char> {
    if ts.len() == 0 {
        seq![]
    } else {
        "## Tokens\n\n| Token | Namespace | Referenced by |\n| --- | --- | --- |\n"@ + concat(ts.map_values(|t: TokenRef| token_row(t))) + "\n"@
    }
}

pub open spec fn dependency_row(d: DependencyRef) -> Seq<char> {
    "| "@ + code_cell(d.name@) + " | "@ + (match d.origin {
        DependencyOrigin::Import => "import"@,
        DependencyOrigin::JsDocTag => "@dependencies"@,
    }) + " |\n"@
}

pub open spec fn dependencies_section(ds: Seq<DependencyRef>) -> Seq<char> {
    if ds.len() == 0 {
        seq![]
    } else {
        "## Dependencies\n\n| Package | Declared in |\n| --- | --- |\n"@ + concat(ds.map_values(|d: DependencyRef| dependency_row(d))) + "\n"@
    }
}

/// The whole page before its trailing white space is trimmed.
pub open spec fn component_page(item: DiscoveredItem, r: RenderedComponent) -> Seq<char> {
    let i = r.intelligence;
    page_head(item.name@, item.kind, i.cognitive_load, r.preview.tag_name@) + constraints_section(i.do_never@)
        + load_section(i.cognitive_load) + props_section(i.props@) + variants_section(i.variants@)
        + tokens_section(i.tokens@) + dependencies_section(i.dependencies@)
}

/// The reason a page with a blank rule of kind `k` fails.
pub open spec fn blank_rule_reason(k: ConstraintKind) -> Seq<char> {
    "unparseable "@ + (match k {
        ConstraintKind::Do => "do"@,
        ConstraintKind::Never => "never"@,
    }) + " constraint: empty rule text"@
}

/// Generate an MDX documentation page for one rendered component,
/// composite, or primitive, plus the preview script it references.
///
/// A section is emitted only when the source declares its field. A declared
/// do/never rule with blank text fails the page with
/// [`TransformError::RenderFailed`] naming the item.
pub fn generate_component_page(item: &DiscoveredItem, rendered: &RenderedComponent) -> (r: Result<GeneratedComponentPage, TransformError>)
    ensures
        match r {
            Ok(p) => {
                &&& first_blank(rendered.intelligence.do_never@) is None
                &&& p.page@ == trim_end(component_page(*item, *rendered))
                &&& p.sidecar_name@ == rendered.preview.tag_name@ + ".js"@
                &&& p.sidecar@ == rendered.preview.web_component@
            },
            Err(e) => {
                &&& first_blank(rendered.intelligence.do_never@) matches Some(k)
                &&& e matches TransformError::RenderFailed { component, reason }
                &&& component@ == item.name@
                &&& reason@ == blank_rule_reason(k)
            },
        },
{
    let intelligence = &rendered.intelligence;
    let tag = rendered.preview.tag_name.as_str();
    let mut sidecar_name = owned(tag);
    push_str(&mut sidecar_name, ".js");
    if let Some(k) = find_blank_rule(&intelligence.do_never) {
        let mut reason = owned("unparseable ");
        match k {
            ConstraintKind::Do => push_str(&mut reason, "do"),
            ConstraintKind::Never => push_str(&mut reason, "never"),
        }
        push_str(&mut reason, " constraint: empty rule text");
        return Err(TransformError::RenderFailed { component: owned(item.name.as_str()), reason });
    }
    let mut out = String::new();
    write_head(&mut out, item, &intelligence.cognitive_load, tag);
    write_constraints(&mut out, &intelligence.do_never);
    write_cognitive_load(&mut out, &intelligence.cognitive_load);
    write_props(&mut out, &intelligence.props);
    write_variants(&mut out, &intelligence.variants);
    write_tokens(&mut out, &intelligence.tokens);
    write_dependencies(&mut out, &intelligence.dependencies);
    Ok(GeneratedComponentPage {
        page: trim_end_str(out.as_str()),
        sidecar_name,
        sidecar: owned(rendered.preview.web_component.as_str()),
    })
}

fn find_blank_rule(cs: &Vec<Constraint>) -> (r: Option<ConstraintKind>)
    ensures
        r == first_blank(cs@),
{
    let mut i: usize = 0;
    while i < cs.len()
        invariant
            i <= cs@.len(),
            first_blank(cs@.take(i as int)) is None,
        decreases cs@.len() - i,
    {
        assert(cs@.take(i + 1).drop_last() =~= cs@.take(i as int));
        let t = crate::text::chars_of(trim_str(cs[i].text.as_str()).as_str());
        if t.len() == 0 {
            assert(cs@.take(i + 1).last() == cs@[i as int]);
            proof {
                lemma_first_blank_prefix(cs@, i as int + 1);
            }
            return Some(cs[i].kind);
        }
        i = i + 1;
    }
    assert(cs@.take(cs@.len() as int) =~= cs@);
    None
}

/// A blank rule in a prefix is the first blank rule of the whole list.
proof fn lemma_first_blank_prefix(cs: Seq<Constraint>, n: int)
    requires
        0 <= n <= cs.len(),
        first_blank(cs.take(n)) is Some,
    ensures
        first_blank(cs) == first_blank(cs.take(n)),
    decreases cs.len() - n,
{
    if n < cs.len() {
        assert(cs.take(n + 1).drop_last() =~= cs.take(n));
        lemma_first_blank_prefix(cs, n + 1);
    } else {
        assert(cs.take(n) =~= cs);
    }
}

fn write_head(out: &mut String, item: &DiscoveredItem, load: &Option<CognitiveLoad>, tag: &str)
    ensures
        final(out)@ == old(out)@ + page_head(item.name@, item.kind, *load, tag@),
{
    push_str(out, "---\ntitle: ");
    push_str(out, item.name.as_str());
    push_str(out, "\nkind: ");
    match item.kind {
        DiscoveredKind::Component => push_str(out, "component"),
        DiscoveredKind::Composite => push_str(out, "composite"),
    }
    push_str(out, "\n");
    if let Some(l) = load {
        push_str(out, "cognitiveLoad: ");
        push_decimal(out, l.score as u64);
        push_str(out, "\n");
    }
    push_str(out, "---\n\n<");
    push_str(out, tag);
    push_str(out, "></");
    push_str(out, tag);
    push_str(out, ">\n\n<script type=\"module\" src=\"./");
    push_str(out, tag);
    push_str(out, ".js\"></script>\n\n");
}

fn write_constraints(out: &mut String, cs: &Vec<Constraint>)
    ensures
        final(out)@ == old(out)@ + constraints_section(cs@),
{
    if cs.len() == 0 {
        return;
    }
    let ghost lines = cs@.map_values(|c: Constraint| constraint_line(c));
    let ghost o0 = out@;
    push_str(out, "## Constraints\n\n");
    let mut i: usize = 0;
    while i < cs.len()
        invariant
            i <= cs@.len(),
            lines == cs@.map_values(|c: Constraint| constraint_line(c)),
            out@ == o0 + "## Constraints\n\n"@ + concat(lines.take(i as int)),
        decreases cs@.len() - i,
    {
        push_str(out, "- ");
        match cs[i].kind {
            ConstraintKind::Do => push_str(out, "DO"),
            ConstraintKind::Never => push_str(out, "NEVER"),
        }
        push_str(out, ": ");
        push_escaped(out, Escape::MdxText, cs[i].text.as_str());
        push_str(out, "\n");
        assert(lines.take(i + 1).drop_last() =~= lines.take(i as int));
        i = i + 1;
    }
    assert(lines.take(cs@.len() as int) =~= lines);
    push_str(out, "\n");
}

fn write_cognitive_load(out: &mut String, load: &Option<CognitiveLoad>)
    ensures
        final(out)@ == old(out)@ + load_section(*load),
{
    if let Some(l) = load {
        if let Some(d) = &l.description {
            push_str(out, "## Cognitive load\n\n");
            push_decimal(out, l.score as u64);
            push_str(out, "/10 -- ");
            push_escaped(out, Escape::MdxText, d.as_str());
            push_str(out, "\n\n");
            return;
        }
    }
    assert(load_section(*load) =~= Seq::<char>::empty());
}

fn write_props(out: &mut String, ps: &Vec<PropDoc>)
    ensures
        final(out)@ == old(out)@ + props_section(ps@),
{
    if ps.len() == 0 {
        return;
    }
    let ghost rows = ps@.map_values(|p: PropDoc| prop_row(p));
    let ghost o0 = out@;
    push_str(out, "## Props\n\n| Name | Type | Optional |\n| --- | --- | --- |\n");
    let mut i: usize = 0;
    while i < ps.len()
        invariant
            i <= ps@.len(),
            rows == ps@.map_values(|p: PropDoc| prop_row(p)),
            out@ == o0 + "## Props\n\n| Name | Type | Optional |\n| --- | --- | --- |\n"@ + concat(rows.take(i as int)),
        decreases ps@.len() - i,
    {
        push_prop_row(out, &ps[i]);
        assert(rows.take(i + 1).drop_last() =~= rows.take(i as int));
        i = i + 1;
    }
    assert(rows.take(ps@.len() as int) =~= rows);
    push_str(out, "\n");
}

fn push_prop_row(out: &mut String, p: &PropDoc)
    ensures
        final(out)@ == old(out)@ + prop_row(*p),
{
    push_str(out, "| ");
    push_code_cell(out, p.name.as_str());
    push_str(out, " | ");
    match &p.type_text {
        Some(t) => push_code_cell(out, t.as_str()),
        None => push_str(out, "-"),
    }
    push_str(out, " | ");
    if p.optional {
        push_str(out, "Yes");
    } else {
        push_str(out, "No");
    }
    push_str(out, " |\n");
}

fn write_variants(out: &mut String, vs: &Vec<VariantDoc>)
    ensures
        final(out)@ == old(out)@ + variants_section(vs@),
{
    if vs.len() == 0 {
        return;
    }
    let ghost rows = vs@.map_values(|v: VariantDoc| variant_row(v));
    let ghost o0 = out@;
    push_str(out, "## Variants\n\n| Variant | Classes |\n| --- | --- |\n");
    let mut i: usize = 0;
    while i < vs.len()
        invariant
            i <= vs@.len(),
            rows == vs@.map_values(|v: VariantDoc| variant_row(v)),
            out@ == o0 + "## Variants\n\n| Variant | Classes |\n| --- | --- |\n"@ + concat(rows.take(i as int)),
        decreases vs@.len() - i,
    {
        push_str(out, "| ");
        push_code_cell(out, vs[i].name.as_str());
        push_str(out, " | ");
        push_code_cell(out, vs[i].classes.as_str());
        push_str(out, " |\n");
        assert(rows.take(i + 1).drop_last() =~= rows.take(i as int));
        i = i + 1;
    }
    assert(rows.take(vs@.len() as int) =~= rows);
    push_str(out, "\n");
}

fn push_code_cells(out: &mut String, cs: &Vec<String>)
    ensures
        final(out)@ == old(out)@ + code_cells(crate::text::views(cs@)),
{
    let ghost v = crate::text::views(cs@);
    let ghost o0 = out@;
    let mut i: usize = 0;
    while i < cs.len()
        invariant
            i <= cs@.len(),
            v == crate::text::views(cs@),
            out@ == o0 + code_cells(v.take(i as int)),
        decreases cs@.len() - i,
    {
        if i > 0 {
            push_str(out, " ");
        }
        push_code_cell(out, cs[i].as_str());
        assert(v.take(i + 1).drop_last() =~= v.take(i as int));
        assert(v.take(i + 1).last() == v[i as int]);
        proof {
            if i == 0 {
                assert(v.take(1)[0] == v[0]);
            }
        }
        i = i + 1;
    }
    assert(v.take(cs@.len() as int) =~= v);
}

fn write_tokens(out: &mut String, ts: &Vec<TokenRef>)
    ensures
        final(out)@ == old(out)@ + tokens_section(ts@),
{
    if ts.len() == 0 {
        return;
    }
    let ghost rows = ts@.map_values(|t: TokenRef| token_row(t));
    let ghost o0 = out@;
    push_str(out, "## Tokens\n\n| Token | Namespace | Referenced by |\n| --- | --- | --- |\n");
    let mut i: usize = 0;
    while i < ts.len()
        invariant
            i <= ts@.len(),
            rows == ts@.map_values(|t: TokenRef| token_row(t)),
            out@ == o0 + "## Tokens\n\n| Token | Namespace | Referenced by |\n| --- | --- | --- |\n"@ + concat(rows.take(i as int)),
        decreases ts@.len() - i,
    {
        push_str(out, "| ");
        push_code_cell(out, ts[i].token.as_str());
        push_str(out, " | ");
        push_code_cell(out, ts[i].namespace.as_str());
        push_str(out, " | ");
        push_code_cells(out, &ts[i].referenced_by);
        push_str(out, " |\n");
        assert(rows.take(i + 1).drop_last() =~= rows.take(i as int));
        i = i + 1;
    }
    assert(rows.take(ts@.len() as int) =~= rows);
    push_str(out, "\n");
}

fn write_dependencies(out: &mut String, ds: &Vec<DependencyRef>)
    ensures
        final(out)@ == old(out)@ + dependencies_section(ds@),
{
    if ds.len() == 0 {
        return;
    }
    let ghost rows = ds@.map_values(|d: DependencyRef| dependency_row(d));
    let ghost o0 = out@;
    push_str(out, "## Dependencies\n\n| Package | Declared in |\n| --- | --- |\n");
    let mut i: usize = 0;
    while i < ds.len()
        invariant
            i <= ds@.len(),
            rows == ds@.map_values(|d: DependencyRef| dependency_row(d)),
            out@ == o0 + "## Dependencies\n\n| Package | Declared in |\n| --- | --- |\n"@ + concat(rows.take(i as int)),
        decreases ds@.len() - i,
    {
        push_str(out, "| ");
        push_code_cell(out, ds[i].name.as_str());
        push_str(out, " | ");
        match ds[i].origin {
            DependencyOrigin::Import => push_str(out, "import"),
            DependencyOrigin::JsDocTag => push_str(out, "@dependencies"),
        }
        push_str(out, " |\n");
        assert(rows.take(i + 1).drop_last() =~= rows.take(i as int));
        i = i + 1;
    }
    assert(rows.take(ds@.len() as int) =~= rows);
    push_str(out, "\n");
}

} // verus!
