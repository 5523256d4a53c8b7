//! The `.rafters/veneer/` substrate: the canonical docs-as-data lines
//! (`docs.jsonl`) and the index roster (`index.jsonl`), both derived from
//! one assessment pass so the index and the docs pages cannot diverge.
//! Lines are ordered by `(kind, name)`; absence is explicit: a dimension
//! veneer cannot observe is `absent`, never rounded up to a pass.

use vstd::prelude::*;
use vstd::string::*;
use crate::artifact::opt_view;
use crate::config_interface::copy_prop;
use crate::coverage::{AssessedItem, CoverageState};
use crate::intelligence::{
    load_view, rule_views, CognitiveLoad, Constraint, ConstraintKind, PropDoc, RenderedComponent, TokenRef,
    VariantDoc,
};
use crate::matrix::{archetype_name, ComponentLine, ComponentMetadata};
use crate::mdx::kind_label;
use crate::registry::DiscoveredKind;
use crate::scope::{
    lemma_seq_lt_irreflexive, lemma_seq_lt_total, lemma_seq_lt_transitive, seq_lt, str_lt,
};
use crate::text::{chars_of, contains, copy_strings, owned, push_str, starts_with, str_contains, str_eq, trim, views};
use crate::ts_helpers::{kebab, kebab_case};

verus! {

/// Per-line schema discriminator for `docs.jsonl`.
pub const DOC_SCHEMA: &'static str = "veneer.doc/1";

/// Per-line schema discriminator for `index.jsonl`.
pub const INDEX_SCHEMA: &'static str = "veneer.index/1";

/// Version of the stoplight derivation rule.
pub const STOPLIGHT_RULE_VERSION: &'static str = "1";

/// One `docs.jsonl` line: the canonical record of one documented item.
#[derive(Debug)]
pub struct DocLine {
    pub schema: &'static str,
    /// Stable id the index points at.
    pub id: String,
    pub kind: &'static str,
    pub name: String,
    pub source: String,
    pub description: Option<String>,
    pub is: Option<String>,
    pub does: Option<String>,
    pub archetype: Option<String>,
    /// The framework-less Web Component preview source.
    pub preview: DocPreview,
    pub cognitive_load: Option<CognitiveLoad>,
    pub attention_economics: Option<String>,
    pub trust_building: Option<String>,
    pub accessibility: Option<String>,
    pub semantic_meaning: Option<String>,
    pub props: Vec<PropDoc>,
    pub config_extends: Vec<String>,
    pub variants: Vec<VariantDoc>,
    pub states: Vec<String>,
    pub motion_intents: Vec<String>,
    pub constraints: Vec<Constraint>,
    pub tokens: Vec<TokenRef>,
    pub primitives_used: Vec<String>,
}

/// The preview source carried on a docs line.
#[derive(Debug)]
pub struct DocPreview {
    pub tag: String,
    pub source: String,
}

/// One `index.jsonl` line: identity, pointers, and observed state.
#[derive(Debug)]
pub struct IndexLine {
    pub schema: &'static str,
    pub name: String,
    pub kind: &'static str,
    pub source: String,
    /// This item's `docs.jsonl` line id, or `None` when not documented.
    pub docs_id: Option<String>,
    /// Serialized page paths for this item; empty until a serializer runs.
    pub pages: Vec<String>,
    /// Pointer to the item's intelligence artifact, when one is emitted.
    pub artifact: Option<String>,
    pub state: IndexState,
}

/// The observed state of one index line.
#[derive(Debug)]
pub struct IndexState {
    /// `green` | `yellow` | `red`, from the versioned rule.
    pub stoplight: &'static str,
    /// The rule version that produced `stoplight`.
    pub rule: &'static str,
    pub dimensions: IndexDimensions,
    pub notes: Vec<IndexNote>,
}

/// Per-dimension status: `pass`, `fail`, or `absent`.
#[derive(Debug)]
pub struct IndexDimensions {
    pub tests: &'static str,
    pub wcag: &'static str,
    pub metadata: &'static str,
    pub coverage: &'static str,
    pub freshness: &'static str,
}

/// A structured observation on an index line.
#[derive(Debug)]
pub struct IndexNote {
    pub kind: &'static str,
    pub severity: &'static str,
    pub detail: String,
    pub evidence: String,
    /// The project-side remedy, when one is known.
    pub remedy: Option<String>,
}

/// The substrate for one pass.
#[derive(Debug)]
pub struct Substrate {
    pub docs: Vec<DocLine>,
    /// System-page lines, after the item lines.
    pub system: Vec<SystemLine>,
    pub index: Vec<IndexLine>,
}

impl Substrate {
    /// Total docs.jsonl line count (item lines plus system lines).
    pub fn docs_line_count(&self) -> (n: usize)
        requires
            self.docs@.len() + self.system@.len() <= usize::MAX,
        ensures
            n == self.docs@.len() + self.system@.len(),
    {
        self.docs.len() + self.system.len()
    }
}

/// The token-system overview line of `docs.jsonl`.
#[derive(Debug)]
pub struct SystemLine {
    pub schema: &'static str,
    pub id: String,
    pub kind: &'static str,
    pub name: String,
    /// One entry per namespace file, sorted by namespace name.
    pub namespaces: Vec<SystemNamespace>,
    /// Namespaces that declare accessibility contrast matrices, sorted.
    pub contrast_matrices: Vec<String>,
    /// Where the namespace source lives, relative to the project root.
    pub source: String,
}

/// Per-namespace summary on the system line.
#[derive(Debug, Clone)]
pub struct SystemNamespace {
    pub namespace: String,
    pub tokens: usize,
}

/// What the substrate reads of one namespace file of the `.rafters/`
/// source: its name, how many tokens it declares, and whether any of them
/// carries accessibility contrast matrices.
#[derive(Debug, Clone)]
pub struct NamespaceFacts {
    pub namespace: String,
    pub tokens: usize,
    pub has_contrast: bool,
}

// ---------------------------------------------------------------------------
// Small rules
// ---------------------------------------------------------------------------

/// The stable line id: `<kind>:<name>`.
pub open spec fn line_id(kind: DiscoveredKind, name: Seq<char>) -> Seq<char> {
    kind_label(kind) + ":"@ + name
}

fn kind_str(kind: DiscoveredKind) -> (r: &'static str)
    ensures
        r@ == kind_label(kind),
{
    match kind {
        DiscoveredKind::Component => "component",
        DiscoveredKind::Composite => "composite",
    }
}

fn line_id_exec(kind: DiscoveredKind, name: &str) -> (r: String)
    ensures
        r@ == line_id(kind, name@),
{
    let mut r = owned(kind_str(kind));
    push_str(&mut r, ":");
    push_str(&mut r, name);
    r
}

/// Line ids are unique: two items get the same id only when they have the
/// same kind and the same name.
pub proof fn lemma_line_id_unique(k1: DiscoveredKind, n1: Seq<char>, k2: DiscoveredKind, n2: Seq<char>)
    requires
        line_id(k1, n1) == line_id(k2, n2),
    ensures
        k1 == k2,
        n1 == n2,
{
    reveal_strlit("component");
    reveal_strlit("composite");
    reveal_strlit(":");
    let a = line_id(k1, n1);
    let b = line_id(k2, n2);
    assert(a[5] == kind_label(k1)[5]);
    assert(b[5] == kind_label(k2)[5]);
    assert(n1 =~= a.skip(10));
    assert(n2 =~= b.skip(10));
}

/// What `Path::strip_prefix` gives for a source path under a project root,
/// displayed; the path itself when it is not under the root.
pub uninterp spec fn relative_path(source: Seq<char>, root: Seq<char>) -> Seq<char>;

/// A source path relative to the project root when it sits under it
/// (`std::path::Path::strip_prefix`, displayed), otherwise verbatim. The
/// contract only names the result, a function of the two paths.
#[verifier::external_body]
fn relative_source(source: &str, project_root: &str) -> (r: String)
    ensures
        r@ == relative_path(source@, project_root@),
{
    match std::path::Path::new(source).strip_prefix(project_root) {
        Ok(rest) => rest.display().to_string(),
        Err(_) => source.to_string(),
    }
}

/// The project-side remedy for a coverage refusal whose reason names the
/// stylesheet.
pub open spec fn remedy_for(reason: Seq<char>) -> Option<Seq<char>> {
    if contains(reason, "stylesheet"@) {
        Some("enable exports.compiled in .rafters/config.rafters.json and re-run the project's rafters export"@)
    } else {
        None
    }
}

pub fn coverage_remedy(reason: &str) -> (r: Option<String>)
    ensures
        opt_view(r) == remedy_for(reason@),
{
    if str_contains(reason, "stylesheet") {
        Some(owned("enable exports.compiled in .rafters/config.rafters.json and re-run the project's rafters export"))
    } else {
        None
    }
}

/// Stoplight rule v1: a failing dimension is red; otherwise any absence is
/// yellow; otherwise green.
pub open spec fn stoplight_of(dims: Seq<Seq<char>>) -> Seq<char> {
    if dims.contains("fail"@) {
        "red"@
    } else if dims.contains("absent"@) {
        "yellow"@
    } else {
        "green"@
    }
}

pub open spec fn dims_of(d: IndexDimensions) -> Seq<Seq<char>> {
    seq![d.tests@, d.wcag@, d.metadata@, d.coverage@, d.freshness@]
}

pub fn stoplight(dimensions: &IndexDimensions) -> (r: &'static str)
    ensures
        r@ == stoplight_of(dims_of(*dimensions)),
{
    let all = [dimensions.tests, dimensions.wcag, dimensions.metadata, dimensions.coverage, dimensions.freshness];
    let ghost ds = dims_of(*dimensions);
    proof {
        reveal_strlit("fail");
        reveal_strlit("absent");
    }
    let mut any_fail = false;
    let mut any_absent = false;
    let mut i: usize = 0;
    while i < 5
        invariant
            i <= 5,
            ds == dims_of(*dimensions),
            forall|k: int| 0 <= k < 5 ==> (#[trigger] all@[k])@ == ds[k],
            any_fail == exists|k: int| 0 <= k < i && ds[k] == "fail"@,
            any_absent == exists|k: int| 0 <= k < i && ds[k] == "absent"@,
        decreases 5 - i,
    {
        if str_eq(all[i], "fail") {
            any_fail = true;
        }
        if str_eq(all[i], "absent") {
            any_absent = true;
        }
        i = i + 1;
    }
    proof {
        if any_fail {
            let k = choose|k: int| 0 <= k < 5 && ds[k] == "fail"@;
            assert(ds[k] == "fail"@);
        }
        if any_absent {
            let k = choose|k: int| 0 <= k < 5 && ds[k] == "absent"@;
            assert(ds[k] == "absent"@);
        }
    }
    if any_fail {
        "red"
    } else if any_absent {
        "yellow"
    } else {
        "green"
    }
}

/// The matrix cognitive load as veneer's: the note is the description.
pub open spec fn matrix_load(meta: ComponentMetadata) -> Option<(nat, Option<Seq<char>>)> {
    match meta.cognitive_load {
        Some(l) => Some((l.score as nat, opt_view(l.note))),
        None => None,
    }
}

fn matrix_cognitive_load(meta: &ComponentMetadata) -> (r: Option<CognitiveLoad>)
    ensures
        load_view(r) == matrix_load(*meta),
{
    match &meta.cognitive_load {
        Some(l) => Some(CognitiveLoad {
            score: l.score,
            description: match &l.note {
                Some(n) => Some(owned(n.as_str())),
                None => None,
            },
        }),
        None => None,
    }
}

/// The rules the matrix usage lines declare: a trimmed line starting
/// `DO:` or `NEVER:` (exact case) is a rule with its trimmed rest; any
/// other line is plain guidance and left out.
pub open spec fn usage_rules(ps: Seq<Seq<char>>) -> Seq<(ConstraintKind, Seq<char>)>
    decreases ps.len(),
{
    if ps.len() == 0 {
        seq![]
    } else {
        let rest = usage_rules(ps.drop_last());
        let t = trim(ps.last());
        if starts_with(t, "DO:"@) {
            rest.push((ConstraintKind::Do, trim(t.skip(3))))
        } else if starts_with(t, "NEVER:"@) {
            rest.push((ConstraintKind::Never, trim(t.skip(6))))
        } else {
            rest
        }
    }
}

pub fn constraints_from_usage(patterns: &Vec<String>) -> (r: Vec<Constraint>)
    ensures
        rule_views(r@) == usage_rules(views(patterns@)),
{
    proof {
        reveal_strlit("DO:");
        reveal_strlit("NEVER:");
    }
    let ghost pv = views(patterns@);
    let mut r: Vec<Constraint> = Vec::new();
    let mut i: usize = 0;
    while i < patterns.len()
        invariant
            i <= patterns@.len(),
            pv == views(patterns@),
            rule_views(r@) == usage_rules(pv.take(i as int)),
        decreases patterns@.len() - i,
    {
        assert(pv.take(i + 1).drop_last() =~= pv.take(i as int));
        assert(pv.take(i + 1).last() == pv[i as int]);
        proof {
            reveal_strlit("DO:");
            reveal_strlit("NEVER:");
        }
        let t = crate::text::trim_str(patterns[i].as_str());
        let tv = chars_of(t.as_str());
        let ghost r0 = rule_views(r@);
        if crate::text::str_starts_with(t.as_str(), "DO:") {
            let rest = crate::text::string_of(&tv, 3, tv.len());
            assert(tv@.subrange(3, tv@.len() as int) =~= tv@.skip(3));
            r.push(Constraint { kind: ConstraintKind::Do, text: crate::text::trim_str(rest.as_str()) });
            assert(rule_views(r@) =~= r0.push((ConstraintKind::Do, trim(tv@.skip(3)))));
        } else if crate::text::str_starts_with(t.as_str(), "NEVER:") {
            let rest = crate::text::string_of(&tv, 6, tv.len());
            assert(tv@.subrange(6, tv@.len() as int) =~= tv@.skip(6));
            r.push(Constraint { kind: ConstraintKind::Never, text: crate::text::trim_str(rest.as_str()) });
            assert(rule_views(r@) =~= r0.push((ConstraintKind::Never, trim(tv@.skip(6)))));
        }
        i = i + 1;
    }
    assert(pv.take(patterns@.len() as int) =~= pv);
    r
}


// ---------------------------------------------------------------------------
// Index lines
// ---------------------------------------------------------------------------

pub open spec fn note_view(n: IndexNote) -> (Seq<char>, Seq<char>, Seq<char>, Seq<char>, Option<Seq<char>>) {
    (n.kind@, n.severity@, n.detail@, n.evidence@, opt_view(n.remedy))
}

pub open spec fn notes_view(ns: Seq<IndexNote>) -> Seq<(Seq<char>, Seq<char>, Seq<char>, Seq<char>, Option<Seq<char>>)> {
    ns.map_values(|n: IndexNote| note_view(n))
}

/// The notes an index line carries: the missing-namespace observation
/// when the project has no namespace source, then the coverage refusal of
/// an undocumented item.
pub open spec fn expected_notes(e: AssessedItem, namespace_missing: bool) -> Seq<(Seq<char>, Seq<char>, Seq<char>, Seq<char>, Option<Seq<char>>)> {
    (if namespace_missing {
        seq![
            ("source"@, "warning"@, "no .rafters namespace source; intelligence limited to what the component source declares"@, ".rafters/"@, Some("run rafters init in the project (or restore its .rafters/ state)"@)),
        ]
    } else {
        seq![]
    }) + (match e.state {
        CoverageState::Documented => seq![],
        CoverageState::NotYetDocumented { reason } => seq![
            ("coverage"@, "error"@, reason@, e.item.source_path@, remedy_for(reason@)),
        ],
    })
}

/// Metadata passes when the rendered source declares a cognitive load or
/// a rule; it is absent otherwise.
pub open spec fn metadata_status(e: AssessedItem) -> Seq<char> {
    match e.rendered {
        Some(rc) => if rc.intelligence.cognitive_load is Some || rc.intelligence.do_never@.len() > 0 {
            "pass"@
        } else {
            "absent"@
        },
        None => "absent"@,
    }
}

pub open spec fn coverage_status(e: AssessedItem) -> Seq<char> {
    if e.state is Documented {
        "pass"@
    } else {
        "fail"@
    }
}

/// The dimensions of an item: coverage and metadata are observed; tests,
/// WCAG and freshness are not wired yet and stay absent.
pub open spec fn expected_dims(e: AssessedItem) -> Seq<Seq<char>> {
    seq!["absent"@, "absent"@, metadata_status(e), coverage_status(e), "absent"@]
}

pub open spec fn state_ok(st: IndexState, e: AssessedItem, namespace_missing: bool) -> bool {
    &&& dims_of(st.dimensions) == expected_dims(e)
    &&& st.stoplight@ == stoplight_of(expected_dims(e))
    &&& st.rule@ == "1"@
    &&& notes_view(st.notes@) == expected_notes(e, namespace_missing)
}

pub open spec fn index_ok(l: IndexLine, e: AssessedItem, docs_id: Option<Seq<char>>, source: Seq<char>, namespace_missing: bool) -> bool {
    &&& l.schema@ == "veneer.index/1"@
    &&& l.name@ == e.item.name@
    &&& l.kind@ == kind_label(e.item.kind)
    &&& l.source@ == source
    &&& opt_view(l.docs_id) == docs_id
    &&& l.pages@.len() == 0
    &&& l.artifact is None
    &&& state_ok(l.state, e, namespace_missing)
}

fn index_state(entry: &AssessedItem, namespace_missing: bool) -> (r: IndexState)
    ensures
        state_ok(r, *entry, namespace_missing),
{
    let mut notes: Vec<IndexNote> = Vec::new();
    if namespace_missing {
        notes.push(IndexNote {
            kind: "source",
            severity: "warning",
            detail: owned("no .rafters namespace source; intelligence limited to what the component source declares"),
            evidence: owned(".rafters/"),
            remedy: Some(owned("run rafters init in the project (or restore its .rafters/ state)")),
        });
    }
    let ghost n0 = notes_view(notes@);
    let coverage = match &entry.state {
        CoverageState::Documented => "pass",
        CoverageState::NotYetDocumented { reason } => {
            notes.push(IndexNote {
                kind: "coverage",
                severity: "error",
                detail: owned(reason.as_str()),
                evidence: owned(entry.item.source_path.as_str()),
                remedy: coverage_remedy(reason.as_str()),
            });
            "fail"
        },
    };
    let metadata = match &entry.rendered {
        Some(rc) => if rc.intelligence.cognitive_load.is_some() || rc.intelligence.do_never.len() > 0 {
            "pass"
        } else {
            "absent"
        },
        None => "absent",
    };
    let dimensions = IndexDimensions { tests: "absent", wcag: "absent", metadata, coverage, freshness: "absent" };
    assert(dims_of(dimensions) =~= expected_dims(*entry));
    assert(notes_view(notes@) =~= expected_notes(*entry, namespace_missing));
    let light = stoplight(&dimensions);
    IndexState { stoplight: light, rule: STOPLIGHT_RULE_VERSION, dimensions, notes }
}

// ---------------------------------------------------------------------------
// Docs lines
// ---------------------------------------------------------------------------

pub open spec fn token_view(t: TokenRef) -> (Seq<char>, Seq<char>, Seq<Seq<char>>) {
    (t.token@, t.namespace@, views(t.referenced_by@))
}

pub open spec fn tokens_view(ts: Seq<TokenRef>) -> Seq<(Seq<char>, Seq<char>, Seq<Seq<char>>)> {
    ts.map_values(|t: TokenRef| token_view(t))
}

pub open spec fn meta_of(m: Option<ComponentLine>) -> Option<ComponentMetadata> {
    match m {
        Some(l) => l.metadata,
        None => None,
    }
}

pub open spec fn meta_field(m: Option<ComponentLine>, f: spec_fn(ComponentMetadata) -> Option<String>) -> Option<Seq<char>> {
    match meta_of(m) {
        Some(md) => opt_view(f(md)),
        None => None,
    }
}

pub open spec fn line_strings(m: Option<ComponentLine>, f: spec_fn(ComponentLine) -> Seq<String>) -> Seq<Seq<char>> {
    match m {
        Some(l) => views(f(l)),
        None => seq![],
    }
}

/// The cognitive load a docs line states: the matrix's when it declares
/// one, else the compiled source's.
pub open spec fn doc_load(m: Option<ComponentLine>, rc: RenderedComponent) -> Option<(nat, Option<Seq<char>>)> {
    match meta_of(m) {
        Some(md) => match matrix_load(md) {
            Some(l) => Some(l),
            None => load_view(rc.intelligence.cognitive_load),
        },
        None => load_view(rc.intelligence.cognitive_load),
    }
}

/// The rules a docs line states: the matrix usage lines when it declares
/// them, else the compiled source rules.
pub open spec fn doc_rules(m: Option<ComponentLine>, rc: RenderedComponent) -> Seq<(ConstraintKind, Seq<char>)> {
    match meta_of(m) {
        Some(md) => match md.usage_patterns {
            Some(p) => usage_rules(views(p@)),
            None => rule_views(rc.intelligence.do_never@),
        },
        None => rule_views(rc.intelligence.do_never@),
    }
}

pub open spec fn doc_ok(d: DocLine, e: AssessedItem, rc: RenderedComponent, m: Option<ComponentLine>, source: Seq<char>) -> bool {
    &&& d.schema@ == "veneer.doc/1"@
    &&& d.id@ == line_id(e.item.kind, e.item.name@)
    &&& d.kind@ == kind_label(e.item.kind)
    &&& d.name@ == e.item.name@
    &&& d.source@ == source
    &&& opt_view(d.description) == meta_field(m, |md: ComponentMetadata| md.description)
    &&& opt_view(d.is) == (match m {
        Some(l) => Some(l.is@),
        None => None::<Seq<char>>,
    })
    &&& opt_view(d.does) == (match m {
        Some(l) => Some(l.does@),
        None => None::<Seq<char>>,
    })
    &&& opt_view(d.archetype) == (match m {
        Some(l) => Some(archetype_name(l.archetype)),
        None => None::<Seq<char>>,
    })
    &&& d.preview.tag@ == rc.preview.tag_name@
    &&& d.preview.source@ == rc.preview.web_component@
    &&& load_view(d.cognitive_load) == doc_load(m, rc)
    &&& opt_view(d.attention_economics) == meta_field(m, |md: ComponentMetadata| md.attention_economics)
    &&& opt_view(d.trust_building) == meta_field(m, |md: ComponentMetadata| md.trust_building)
    &&& opt_view(d.accessibility) == meta_field(m, |md: ComponentMetadata| md.accessibility)
    &&& opt_view(d.semantic_meaning) == meta_field(m, |md: ComponentMetadata| md.semantic_meaning)
    &&& d.props@ == rc.intelligence.props@
    &&& views(d.config_extends@) == views(rc.intelligence.config_extends@)
    &&& d.variants@ == rc.intelligence.variants@
    &&& views(d.states@) == line_strings(m, |l: ComponentLine| l.states@)
    &&& views(d.motion_intents@) == line_strings(m, |l: ComponentLine| l.motion.intents@)
    &&& rule_views(d.constraints@) == doc_rules(m, rc)
    &&& tokens_view(d.tokens@) == tokens_view(rc.intelligence.tokens@)
    &&& views(d.primitives_used@) == line_strings(m, |l: ComponentLine| l.uses.current@)
}

fn copy_opt(o: &Option<String>) -> (r: Option<String>)
    ensures
        opt_view(r) == opt_view(*o),
{
    match o {
        Some(s) => Some(owned(s.as_str())),
        None => None,
    }
}

fn copy_props(v: &Vec<PropDoc>) -> (r: Vec<PropDoc>)
    ensures
        r@ == v@,
{
    let mut r: Vec<PropDoc> = Vec::new();
    let mut i: usize = 0;
    while i < v.len()
        invariant
            i <= v@.len(),
            r@ == v@.take(i as int),
        decreases v@.len() - i,
    {
        r.push(copy_prop(&v[i]));
        assert(r@ =~= v@.take(i + 1));
        i = i + 1;
    }
    assert(v@.take(v@.len() as int) =~= v@);
    r
}

fn copy_variants(v: &Vec<VariantDoc>) -> (r: Vec<VariantDoc>)
    ensures
        r@ == v@,
{
    let mut r: Vec<VariantDoc> = Vec::new();
    let mut i: usize = 0;
    while i < v.len()
        invariant
            i <= v@.len(),
            r@ == v@.take(i as int),
        decreases v@.len() - i,
    {
        r.push(VariantDoc { name: v[i].name.clone(), classes: v[i].classes.clone() });
        assert(r@ =~= v@.take(i + 1));
        i = i + 1;
    }
    assert(v@.take(v@.len() as int) =~= v@);
    r
}

fn copy_tokens(v: &Vec<TokenRef>) -> (r: Vec<TokenRef>)
    ensures
        tokens_view(r@) == tokens_view(v@),
{
    let mut r: Vec<TokenRef> = Vec::new();
    let mut i: usize = 0;
    while i < v.len()
        invariant
            i <= v@.len(),
            tokens_view(r@) == tokens_view(v@).take(i as int),
        decreases v@.len() - i,
    {
        let ghost r0 = tokens_view(r@);
        r.push(TokenRef {
            token: owned(v[i].token.as_str()),
            namespace: owned(v[i].namespace.as_str()),
            referenced_by: copy_strings(&v[i].referenced_by),
        });
        assert(tokens_view(r@) =~= r0.push(tokens_view(v@)[i as int]));
        assert(tokens_view(v@).take(i + 1) =~= tokens_view(v@).take(i as int).push(tokens_view(v@)[i as int]));
        i = i + 1;
    }
    assert(tokens_view(v@).take(v@.len() as int) =~= tokens_view(v@));
    r
}

fn copy_rules(v: &Vec<Constraint>) -> (r: Vec<Constraint>)
    ensures
        rule_views(r@) == rule_views(v@),
{
    let mut r: Vec<Constraint> = Vec::new();
    let mut i: usize = 0;
    while i < v.len()
        invariant
            i <= v@.len(),
            rule_views(r@) == rule_views(v@).take(i as int),
        decreases v@.len() - i,
    {
        let ghost r0 = rule_views(r@);
        r.push(Constraint { kind: v[i].kind, text: owned(v[i].text.as_str()) });
        assert(rule_views(r@) =~= r0.push(rule_views(v@)[i as int]));
        assert(rule_views(v@).take(i + 1) =~= rule_views(v@).take(i as int).push(rule_views(v@)[i as int]));
        i = i + 1;
    }
    assert(rule_views(v@).take(v@.len() as int) =~= rule_views(v@));
    r
}

fn doc_line(id: String, entry: &AssessedItem, rendered: &RenderedComponent, matrix: Option<&ComponentLine>, source: String) -> (r: DocLine)
    requires
        id@ == line_id(entry.item.kind, entry.item.name@),
    ensures
        doc_ok(r, *entry, *rendered, match matrix {
            Some(l) => Some(*l),
            None => None,
        }, source@),
{
    let ghost m = match matrix {
        Some(l) => Some(*l),
        None => None,
    };
    let intelligence = &rendered.intelligence;
    let meta: Option<&ComponentMetadata> = match matrix {
        Some(l) => match &l.metadata {
            Some(md) => Some(md),
            None => None,
        },
        None => None,
    };
    let cognitive_load = match meta {
        Some(md) => match matrix_cognitive_load(md) {
            Some(l) => Some(l),
            None => match &intelligence.cognitive_load {
                Some(l) => Some(CognitiveLoad { score: l.score, description: copy_opt(&l.description) }),
                None => None,
            },
        },
        None => match &intelligence.cognitive_load {
            Some(l) => Some(CognitiveLoad { score: l.score, description: copy_opt(&l.description) }),
            None => None,
        },
    };
    let constraints = match meta {
        Some(md) => match &md.usage_patterns {
            Some(p) => constraints_from_usage(p),
            None => copy_rules(&intelligence.do_never),
        },
        None => copy_rules(&intelligence.do_never),
    };
    let (description, attention_economics, trust_building, accessibility, semantic_meaning) = match meta {
        Some(md) => (
            copy_opt(&md.description),
            copy_opt(&md.attention_economics),
            copy_opt(&md.trust_building),
            copy_opt(&md.accessibility),
            copy_opt(&md.semantic_meaning),
        ),
        None => (None, None, None, None, None),
    };
    let (is, does, archetype, states, motion_intents, primitives_used) = match matrix {
        Some(l) => (
            Some(owned(l.is.as_str())),
            Some(owned(l.does.as_str())),
            Some(owned(l.archetype.as_str())),
            copy_strings(&l.states),
            copy_strings(&l.motion.intents),
            copy_strings(&l.uses.current),
        ),
        None => (None, None, None, Vec::new(), Vec::new(), Vec::new()),
    };
    let r = DocLine {
        schema: DOC_SCHEMA,
        id,
        kind: kind_str(entry.item.kind),
        name: owned(entry.item.name.as_str()),
        source,
        description,
        is,
        does,
        archetype,
        preview: DocPreview {
            tag: owned(rendered.preview.tag_name.as_str()),
            source: owned(rendered.preview.web_component.as_str()),
        },
        cognitive_load,
        attention_economics,
        trust_building,
        accessibility,
        semantic_meaning,
        props: copy_props(&intelligence.props),
        config_extends: copy_strings(&intelligence.config_extends),
        variants: copy_variants(&intelligence.variants),
        states,
        motion_intents,
        constraints,
        tokens: copy_tokens(&intelligence.tokens),
        primitives_used,
    };
    proof {
        if matrix is None {
            assert(views(r.states@) =~= Seq::<Seq<char>>::empty());
            assert(views(r.motion_intents@) =~= Seq::<Seq<char>>::empty());
            assert(views(r.primitives_used@) =~= Seq::<Seq<char>>::empty());
        }
    }
    r
}


// ---------------------------------------------------------------------------
// The token-system line
// ---------------------------------------------------------------------------

/// `x` placed into the name-ordered `r` after every entry it does not
/// precede (a stable insertion).
pub open spec fn ns_insert(r: Seq<(Seq<char>, usize)>, x: (Seq<char>, usize)) -> Seq<(Seq<char>, usize)>
    decreases r.len(),
{
    if r.len() == 0 {
        seq![x]
    } else if !seq_lt(x.0, r.last().0) {
        r.push(x)
    } else {
        ns_insert(r.drop_last(), x).push(r.last())
    }
}

/// The namespace summaries sorted by name (stable).
pub open spec fn ns_sorted(xs: Seq<(Seq<char>, usize)>) -> Seq<(Seq<char>, usize)>
    decreases xs.len(),
{
    if xs.len() == 0 {
        seq![]
    } else {
        ns_insert(ns_sorted(xs.drop_last()), xs.last())
    }
}

/// `x` placed into the ordered `r` (a stable insertion).
pub open spec fn name_insert(r: Seq<Seq<char>>, x: Seq<char>) -> Seq<Seq<char>>
    decreases r.len(),
{
    if r.len() == 0 {
        seq![x]
    } else if !seq_lt(x, r.last()) {
        r.push(x)
    } else {
        name_insert(r.drop_last(), x).push(r.last())
    }
}

pub open spec fn names_sorted(xs: Seq<Seq<char>>) -> Seq<Seq<char>>
    decreases xs.len(),
{
    if xs.len() == 0 {
        seq![]
    } else {
        name_insert(names_sorted(xs.drop_last()), xs.last())
    }
}

pub open spec fn facts_summary(fs: Seq<NamespaceFacts>) -> Seq<(Seq<char>, usize)> {
    fs.map_values(|f: NamespaceFacts| (f.namespace@, f.tokens))
}

/// The names of the namespaces that carry contrast matrices, in order.
pub open spec fn contrast_names(fs: Seq<NamespaceFacts>) -> Seq<Seq<char>>
    decreases fs.len(),
{
    if fs.len() == 0 {
        seq![]
    } else if fs.last().has_contrast {
        contrast_names(fs.drop_last()).push(fs.last().namespace@)
    } else {
        contrast_names(fs.drop_last())
    }
}

pub open spec fn system_ok(l: SystemLine, fs: Seq<NamespaceFacts>) -> bool {
    &&& l.schema@ == "veneer.doc/1"@
    &&& l.id@ == "system:tokens"@
    &&& l.kind@ == "system"@
    &&& l.name@ == "tokens"@
    &&& l.namespaces@.map_values(|n: SystemNamespace| (n.namespace@, n.tokens)) == ns_sorted(facts_summary(fs))
    &&& views(l.contrast_matrices@) == names_sorted(contrast_names(fs))
    &&& l.source@ == ".rafters/tokens"@
}

fn ns_insert_exec(r: &mut Vec<SystemNamespace>, x: SystemNamespace)
    ensures
        final(r)@.map_values(|n: SystemNamespace| (n.namespace@, n.tokens)) == ns_insert(
            old(r)@.map_values(|n: SystemNamespace| (n.namespace@, n.tokens)),
            (x.namespace@, x.tokens),
        ),
{
    let ghost r0 = r@.map_values(|n: SystemNamespace| (n.namespace@, n.tokens));
    let ghost xv = (x.namespace@, x.tokens);
    let xn = chars_of(x.namespace.as_str());
    let mut k = r.len();
    assert(r0.take(k as int) =~= r0);
    assert(r0.skip(k as int) =~= Seq::<(Seq<char>, usize)>::empty());
    let mut stop = false;
    while k > 0 && !stop
        invariant
            k <= r@.len(),
            r0 == r@.map_values(|n: SystemNamespace| (n.namespace@, n.tokens)),
            xn@ == xv.0,
            ns_insert(r0, xv) == ns_insert(r0.take(k as int), xv) + r0.skip(k as int),
            stop ==> k > 0 && !seq_lt(xv.0, r0[k - 1].0),
        decreases k + (if stop { 0int } else { 1int }),
    {
        let rn = chars_of(r[k - 1].namespace.as_str());
        assert(rn@ == r0[k - 1].0);
        if !str_lt(&xn, &rn) {
            stop = true;
        } else {
            assert(r0.take(k as int).drop_last() =~= r0.take(k - 1));
            assert(r0.take(k as int).last() == r0[k - 1]);
            assert(ns_insert(r0.take(k - 1), xv).push(r0[k - 1]) + r0.skip(k as int) =~= ns_insert(r0.take(k - 1), xv)
                + r0.skip(k - 1));
            k = k - 1;
        }
    }
    assert(ns_insert(r0.take(k as int), xv) == r0.take(k as int).push(xv)) by {
        if k > 0 {
            assert(r0.take(k as int).last() == r0[k - 1]);
        } else {
            assert(r0.take(0) =~= Seq::<(Seq<char>, usize)>::empty());
        }
    }
    r.insert(k, x);
    assert(r@.map_values(|n: SystemNamespace| (n.namespace@, n.tokens)) =~= r0.take(k as int).push(xv) + r0.skip(k as int));
}

fn name_insert_exec(r: &mut Vec<String>, x: String)
    ensures
        views(final(r)@) == name_insert(views(old(r)@), x@),
{
    let ghost r0 = views(r@);
    let xn = chars_of(x.as_str());
    let mut k = r.len();
    assert(r0.take(k as int) =~= r0);
    assert(r0.skip(k as int) =~= Seq::<Seq<char>>::empty());
    let mut stop = false;
    while k > 0 && !stop
        invariant
            k <= r@.len(),
            r0 == views(r@),
            xn@ == x@,
            name_insert(r0, x@) == name_insert(r0.take(k as int), x@) + r0.skip(k as int),
            stop ==> k > 0 && !seq_lt(x@, r0[k - 1]),
        decreases k + (if stop { 0int } else { 1int }),
    {
        let rn = chars_of(r[k - 1].as_str());
        assert(rn@ == r0[k - 1]);
        if !str_lt(&xn, &rn) {
            stop = true;
        } else {
            assert(r0.take(k as int).drop_last() =~= r0.take(k - 1));
            assert(r0.take(k as int).last() == r0[k - 1]);
            assert(name_insert(r0.take(k - 1), x@).push(r0[k - 1]) + r0.skip(k as int) =~= name_insert(r0.take(k - 1), x@)
                + r0.skip(k - 1));
            k = k - 1;
        }
    }
    assert(name_insert(r0.take(k as int), x@) == r0.take(k as int).push(x@)) by {
        if k > 0 {
            assert(r0.take(k as int).last() == r0[k - 1]);
        } else {
            assert(r0.take(0) =~= Seq::<Seq<char>>::empty());
        }
    }
    r.insert(k, x);
    assert(views(r@) =~= r0.take(k as int).push(x@) + r0.skip(k as int));
}

/// The token-system line for a project that declares a namespace source.
pub fn system_line(namespaces: &Vec<NamespaceFacts>) -> (r: SystemLine)
    ensures
        system_ok(r, namespaces@),
{
    let ghost fs = namespaces@;
    let mut sorted: Vec<SystemNamespace> = Vec::new();
    let mut contrast: Vec<String> = Vec::new();
    let mut i: usize = 0;
    while i < namespaces.len()
        invariant
            i <= namespaces@.len(),
            fs == namespaces@,
            sorted@.map_values(|n: SystemNamespace| (n.namespace@, n.tokens)) == ns_sorted(facts_summary(fs.take(i as int))),
            views(contrast@) == names_sorted(contrast_names(fs.take(i as int))),
        decreases namespaces@.len() - i,
    {
        assert(fs.take(i + 1).drop_last() =~= fs.take(i as int));
        assert(fs.take(i + 1).last() == fs[i as int]);
        assert(facts_summary(fs.take(i + 1)).drop_last() =~= facts_summary(fs.take(i as int)));
        let f = &namespaces[i];
        ns_insert_exec(&mut sorted, SystemNamespace { namespace: owned(f.namespace.as_str()), tokens: f.tokens });
        if f.has_contrast {
            assert(contrast_names(fs.take(i + 1)) == contrast_names(fs.take(i as int)).push(f.namespace@));
            assert(contrast_names(fs.take(i as int)).push(f.namespace@).drop_last() =~= contrast_names(fs.take(i as int)));
            name_insert_exec(&mut contrast, owned(f.namespace.as_str()));
        } else {
            assert(contrast_names(fs.take(i + 1)) == contrast_names(fs.take(i as int)));
        }
        i = i + 1;
    }
    assert(fs.take(fs.len() as int) =~= fs);
    SystemLine {
        schema: DOC_SCHEMA,
        id: owned("system:tokens"),
        kind: "system",
        name: owned("tokens"),
        namespaces: sorted,
        contrast_matrices: contrast,
        source: owned(".rafters/tokens"),
    }
}

// ---------------------------------------------------------------------------
// Building the substrate
// ---------------------------------------------------------------------------

/// Items are ordered by kind name, then name.
pub open spec fn assessed_lt(a: AssessedItem, b: AssessedItem) -> bool {
    ||| seq_lt(kind_label(a.item.kind), kind_label(b.item.kind))
    ||| kind_label(a.item.kind) == kind_label(b.item.kind) && seq_lt(a.item.name@, b.item.name@)
}

/// Index `i` placed into the ordered indices `r` after every index whose
/// item it does not precede (a stable insertion).
pub open spec fn insert_index(xs: Seq<AssessedItem>, r: Seq<int>, i: int) -> Seq<int>
    decreases r.len(),
{
    if r.len() == 0 {
        seq![i]
    } else if !assessed_lt(xs[i], xs[r.last()]) {
        r.push(i)
    } else {
        insert_index(xs, r.drop_last(), i).push(r.last())
    }
}

/// The indices of the first `n` items in line order (a stable sort).
pub open spec fn line_order(xs: Seq<AssessedItem>, n: int) -> Seq<int>
    decreases n,
{
    if n <= 0 {
        seq![]
    } else {
        insert_index(xs, line_order(xs, n - 1), n - 1)
    }
}

/// The items in line order.
pub open spec fn ordered(xs: Seq<AssessedItem>) -> Seq<AssessedItem> {
    line_order(xs, xs.len() as int).map_values(|i: int| xs[i])
}

/// The documented items (those with a rendered preview), in order.
pub open spec fn documented(es: Seq<AssessedItem>) -> Seq<AssessedItem>
    decreases es.len(),
{
    if es.len() == 0 {
        seq![]
    } else if es.last().rendered is Some {
        documented(es.drop_last()).push(es.last())
    } else {
        documented(es.drop_last())
    }
}

/// The matrix line named `key`, the first one when several are.
pub open spec fn line_named(m: Seq<ComponentLine>, key: Seq<char>, i: int) -> Option<ComponentLine>
    decreases m.len() - i,
{
    if i < 0 || i >= m.len() {
        None
    } else if m[i].name@ == key {
        Some(m[i])
    } else {
        line_named(m, key, i + 1)
    }
}

/// The matrix line of an item: the one named by its kebab-cased name.
pub open spec fn matrix_line(m: Seq<ComponentLine>, e: AssessedItem) -> Option<ComponentLine> {
    line_named(m, kebab(e.item.name@), 0)
}

proof fn lemma_insert_index_bounds(xs: Seq<AssessedItem>, r: Seq<int>, i: int)
    requires
        0 <= i < xs.len(),
        forall|k: int| 0 <= k < r.len() ==> 0 <= #[trigger] r[k] < xs.len(),
    ensures
        insert_index(xs, r, i).len() == r.len() + 1,
        forall|k: int| 0 <= k < insert_index(xs, r, i).len() ==> 0 <= #[trigger] insert_index(xs, r, i)[k] < xs.len(),
    decreases r.len(),
{
    if r.len() > 0 && assessed_lt(xs[i], xs[r.last()]) {
        lemma_insert_index_bounds(xs, r.drop_last(), i);
    }
}

proof fn lemma_line_order_bounds(xs: Seq<AssessedItem>, n: int)
    requires
        0 <= n <= xs.len(),
    ensures
        line_order(xs, n).len() == n,
        forall|k: int| 0 <= k < n ==> 0 <= #[trigger] line_order(xs, n)[k] < xs.len(),
    decreases n,
{
    if n > 0 {
        lemma_line_order_bounds(xs, n - 1);
        lemma_insert_index_bounds(xs, line_order(xs, n - 1), n - 1);
    }
}

/// The line order is a strict weak order: irreflexive, transitive, and
/// whatever lies between two ordered items is ordered against one of them.
pub proof fn lemma_assessed_lt_order(a: AssessedItem, b: AssessedItem, c: AssessedItem)
    ensures
        !assessed_lt(a, a),
        assessed_lt(a, b) && assessed_lt(b, c) ==> assessed_lt(a, c),
        assessed_lt(a, c) ==> assessed_lt(a, b) || assessed_lt(b, c),
{
    let (ka, kb, kc) = (kind_label(a.item.kind), kind_label(b.item.kind), kind_label(c.item.kind));
    let (na, nb, nc) = (a.item.name@, b.item.name@, c.item.name@);
    lemma_seq_lt_irreflexive(ka);
    lemma_seq_lt_irreflexive(na);
    if seq_lt(ka, kb) && seq_lt(kb, kc) {
        lemma_seq_lt_transitive(ka, kb, kc);
    }
    if seq_lt(na, nb) && seq_lt(nb, nc) {
        lemma_seq_lt_transitive(na, nb, nc);
    }
    if assessed_lt(a, c) && !assessed_lt(a, b) && !assessed_lt(b, c) {
        if ka != kb {
            lemma_seq_lt_total(ka, kb);
        }
        if kb != kc {
            lemma_seq_lt_total(kb, kc);
        }
        if ka != kb && kb != kc {
            lemma_seq_lt_transitive(kc, kb, ka);
            lemma_seq_lt_irreflexive(kc);
            if seq_lt(ka, kc) {
                lemma_seq_lt_transitive(ka, kc, kb);
            }
        } else if ka != kb {
            if seq_lt(ka, kc) {
                lemma_seq_lt_transitive(kb, ka, kc);
            }
        } else if kb != kc {
            if seq_lt(ka, kc) {
                lemma_seq_lt_transitive(kc, kb, ka);
                lemma_seq_lt_irreflexive(kc);
                lemma_seq_lt_transitive(ka, kc, ka);
            }
        } else {
            if na != nb {
                lemma_seq_lt_total(na, nb);
            }
            if nb != nc {
                lemma_seq_lt_total(nb, nc);
            }
            if na != nb && nb != nc {
                lemma_seq_lt_transitive(nc, nb, na);
                lemma_seq_lt_transitive(na, nc, na);
            } else if na != nb {
                lemma_seq_lt_transitive(nb, na, nb);
            } else if nb != nc {
                lemma_seq_lt_transitive(nc, nb, nc);
                lemma_seq_lt_irreflexive(nc);
            }
        }
    }
}

/// No index of `r` is placed after one whose item it precedes.
pub open spec fn indices_ordered(xs: Seq<AssessedItem>, r: Seq<int>) -> bool {
    forall|a: int, b: int| 0 <= a < b < r.len() ==> !assessed_lt(xs[#[trigger] r[b]], xs[#[trigger] r[a]])
}

proof fn lemma_insert_index_ordered(xs: Seq<AssessedItem>, r: Seq<int>, i: int)
    requires
        indices_ordered(xs, r),
    ensures
        indices_ordered(xs, insert_index(xs, r, i)),
        insert_index(xs, r, i).to_multiset() == r.to_multiset().insert(i),
    decreases r.len(),
{
    broadcast use vstd::seq_lib::group_to_multiset_ensures;

    if r.len() == 0 {
        assert(insert_index(xs, r, i) =~= r.push(i));
    } else if !assessed_lt(xs[i], xs[r.last()]) {
        let s = r.push(i);
        assert forall|a: int, b: int| 0 <= a < b < s.len() implies !assessed_lt(xs[#[trigger] s[b]], xs[#[trigger] s[a]]) by {
            if b == r.len() {
                if a < r.len() - 1 {
                    assert(!assessed_lt(xs[r[r.len() - 1]], xs[r[a]]));
                    lemma_assessed_lt_order(xs[i], xs[r.last()], xs[r[a]]);
                }
            } else {
                assert(s[a] == r[a] && s[b] == r[b]);
            }
        }
    } else {
        let p = r.drop_last();
        let l = r.last();
        assert(indices_ordered(xs, p)) by {
            assert forall|a: int, b: int| 0 <= a < b < p.len() implies !assessed_lt(xs[#[trigger] p[b]], xs[#[trigger] p[a]]) by {
                assert(p[a] == r[a] && p[b] == r[b]);
            }
        }
        lemma_insert_index_ordered(xs, p, i);
        let q = insert_index(xs, p, i);
        let s = q.push(l);
        assert forall|a: int, b: int| 0 <= a < b < s.len() implies !assessed_lt(xs[#[trigger] s[b]], xs[#[trigger] s[a]]) by {
            if b == q.len() {
                let e = q[a];
                assert(q.to_multiset().count(e) > 0);
                if e == i {
                    lemma_assessed_lt_order(xs[i], xs[l], xs[i]);
                } else {
                    assert(p.to_multiset().count(e) > 0);
                    assert(p.contains(e));
                    let k = choose|k: int| 0 <= k < p.len() && p[k] == e;
                    assert(!assessed_lt(xs[r[r.len() - 1]], xs[r[k]]));
                }
            } else {
                assert(s[a] == q[a] && s[b] == q[b]);
            }
        }
        assert(r =~= p.push(l));
        assert(s.to_multiset() =~= r.to_multiset().insert(i));
    }
}

proof fn lemma_line_order_ordered(xs: Seq<AssessedItem>, n: int)
    requires
        0 <= n <= xs.len(),
    ensures
        indices_ordered(xs, line_order(xs, n)),
        forall|k: int| 0 <= k < n ==> #[trigger] line_order(xs, n).to_multiset().count(k) > 0,
    decreases n,
{
    broadcast use vstd::seq_lib::group_to_multiset_ensures;

    if n > 0 {
        lemma_line_order_ordered(xs, n - 1);
        lemma_insert_index_ordered(xs, line_order(xs, n - 1), n - 1);
        assert forall|k: int| 0 <= k < n implies #[trigger] line_order(xs, n).to_multiset().count(k) > 0 by {
            if k < n - 1 {
                assert(line_order(xs, n - 1).to_multiset().count(k) > 0);
            }
        }
    }
}

/// The substrate's lines come in `(kind, name)` order: no item is placed
/// after one it precedes, and every item is placed, once per occurrence.
pub proof fn lemma_lines_in_order(xs: Seq<AssessedItem>)
    ensures
        ordered(xs).len() == xs.len(),
        forall|a: int, b: int| 0 <= a < b < ordered(xs).len() ==> !assessed_lt(#[trigger] ordered(xs)[b], #[trigger] ordered(xs)[a]),
        forall|k: int| 0 <= k < xs.len() ==> ordered(xs).contains(#[trigger] xs[k]),
{
    broadcast use vstd::seq_lib::group_to_multiset_ensures;

    let n = xs.len() as int;
    let r = line_order(xs, n);
    lemma_line_order_bounds(xs, n);
    lemma_line_order_ordered(xs, n);
    let o = ordered(xs);
    assert forall|a: int, b: int| 0 <= a < b < o.len() implies !assessed_lt(#[trigger] o[b], #[trigger] o[a]) by {
        assert(o[a] == xs[r[a]] && o[b] == xs[r[b]]);
    }
    assert forall|k: int| 0 <= k < xs.len() implies o.contains(#[trigger] xs[k]) by {
        assert(r.to_multiset().count(k) > 0);
        assert(r.contains(k));
        let j = choose|j: int| 0 <= j < r.len() && r[j] == k;
        assert(o[j] == xs[k]);
    }
}

fn assessed_lt_exec(a: &AssessedItem, b: &AssessedItem) -> (r: bool)
    ensures
        r == assessed_lt(*a, *b),
{
    let ka = chars_of(kind_str(a.item.kind));
    let kb = chars_of(kind_str(b.item.kind));
    if str_lt(&ka, &kb) {
        return true;
    }
    let na = chars_of(a.item.name.as_str());
    let nb = chars_of(b.item.name.as_str());
    crate::text::vec_eq(&ka, &kb) && str_lt(&na, &nb)
}

fn sort_lines(xs: &[AssessedItem]) -> (r: Vec<usize>)
    ensures
        r@.map_values(|i: usize| i as int) == line_order(xs@, xs@.len() as int),
        forall|k: int| 0 <= k < r@.len() ==> (#[trigger] r@[k]) < xs@.len(),
{
    let mut r: Vec<usize> = Vec::new();
    let mut n: usize = 0;
    while n < xs.len()
        invariant
            n <= xs@.len(),
            r@.map_values(|i: usize| i as int) == line_order(xs@, n as int),
            forall|k: int| 0 <= k < r@.len() ==> (#[trigger] r@[k]) < xs@.len(),
        decreases xs@.len() - n,
    {
        proof {
            lemma_line_order_bounds(xs@, n as int);
        }
        let ghost r0 = r@.map_values(|i: usize| i as int);
        let mut k = r.len();
        assert(r0.take(k as int) =~= r0);
        assert(r0.skip(k as int) =~= Seq::<int>::empty());
        let mut stop = false;
        while k > 0 && !stop
            invariant
                n < xs@.len(),
                k <= r@.len(),
                r0 == r@.map_values(|i: usize| i as int),
                forall|j: int| 0 <= j < r@.len() ==> (#[trigger] r@[j]) < xs@.len(),
                insert_index(xs@, r0, n as int) == insert_index(xs@, r0.take(k as int), n as int) + r0.skip(k as int),
                stop ==> k > 0 && !assessed_lt(xs@[n as int], xs@[r0[k - 1]]),
            decreases k + (if stop { 0int } else { 1int }),
        {
            let j = r[k - 1];
            assert(r0[k - 1] == j as int);
            if !assessed_lt_exec(&xs[n], &xs[j]) {
                stop = true;
            } else {
                assert(r0.take(k as int).drop_last() =~= r0.take(k - 1));
                assert(r0.take(k as int).last() == r0[k - 1]);
                assert(insert_index(xs@, r0.take(k - 1), n as int).push(r0[k - 1]) + r0.skip(k as int) =~= insert_index(
                    xs@,
                    r0.take(k - 1),
                    n as int,
                ) + r0.skip(k - 1));
                k = k - 1;
            }
        }
        assert(insert_index(xs@, r0.take(k as int), n as int) == r0.take(k as int).push(n as int)) by {
            if k > 0 {
                assert(r0.take(k as int).last() == r0[k - 1]);
            } else {
                assert(r0.take(0) =~= Seq::<int>::empty());
            }
        }
        r.insert(k, n);
        assert(r@.map_values(|i: usize| i as int) =~= r0.take(k as int).push(n as int) + r0.skip(k as int));
        n = n + 1;
    }
    r
}

fn find_matrix_line<'a>(matrix: &'a [ComponentLine], key: &str) -> (r: Option<&'a ComponentLine>)
    ensures
        match r {
            Some(l) => line_named(matrix@, key@, 0) == Some(*l),
            None => line_named(matrix@, key@, 0) is None,
        },
{
    let mut i: usize = 0;
    while i < matrix.len()
        invariant
            i <= matrix@.len(),
            line_named(matrix@, key@, 0) == line_named(matrix@, key@, i as int),
        decreases matrix@.len() - i,
    {
        if str_eq(matrix[i].name.as_str(), key) {
            return Some(&matrix[i]);
        }
        i = i + 1;
    }
    None
}

/// Build the substrate from an assessed discovered set and the component
/// matrix. Items are ordered by `(kind, name)`; a documented item yields a
/// docs line and an index line pointing at it, an undocumented item an
/// index line alone. `namespaces` is what the project's `.rafters/`
/// namespace source holds, `None` when it has none; with one, the docs
/// also carry the token-system line.
pub fn build_substrate(
    assessed: &[AssessedItem],
    matrix: &[ComponentLine],
    project_root: &str,
    namespaces: Option<&Vec<NamespaceFacts>>,
) -> (r: Substrate)
    ensures
        ({
            let order = ordered(assessed@);
            let docs = documented(order);
            &&& r.index@.len() == order.len()
            &&& forall|k: int| 0 <= k < order.len() ==> index_ok(
                #[trigger] r.index@[k],
                order[k],
                if order[k].rendered is Some {
                    Some(line_id(order[k].item.kind, order[k].item.name@))
                } else {
                    None
                },
                relative_path(order[k].item.source_path@, project_root@),
                namespaces is None,
            )
            &&& r.docs@.len() == docs.len()
            &&& forall|k: int| 0 <= k < docs.len() ==> doc_ok(
                #[trigger] r.docs@[k],
                docs[k],
                docs[k].rendered.unwrap(),
                matrix_line(matrix@, docs[k]),
                relative_path(docs[k].item.source_path@, project_root@),
            )
            &&& match namespaces {
                Some(ns) => r.system@.len() == 1 && system_ok(r.system@[0], ns@),
                None => r.system@.len() == 0,
            }
        }),
{
    let order = sort_lines(assessed);
    let ghost xs = assessed@;
    let ghost ord = line_order(xs, xs.len() as int);
    proof {
        lemma_line_order_bounds(xs, xs.len() as int);
    }
    let ghost items = ord.map_values(|i: int| xs[i]);
    let namespace_missing = namespaces.is_none();
    let mut docs: Vec<DocLine> = Vec::new();
    let mut index: Vec<IndexLine> = Vec::new();
    let mut k: usize = 0;
    while k < order.len()
        invariant
            k <= order@.len(),
            order@.len() == xs.len(),
            xs == assessed@,
            items == ord.map_values(|i: int| xs[i]),
            order@.map_values(|i: usize| i as int) == ord,
            forall|j: int| 0 <= j < order@.len() ==> (#[trigger] order@[j]) < xs.len(),
            namespace_missing == (namespaces is None),
            index@.len() == k,
            forall|j: int| 0 <= j < k ==> index_ok(
                #[trigger] index@[j],
                items[j],
                if items[j].rendered is Some {
                    Some(line_id(items[j].item.kind, items[j].item.name@))
                } else {
                    None
                },
                relative_path(items[j].item.source_path@, project_root@),
                namespace_missing,
            ),
            docs@.len() == documented(items.take(k as int)).len(),
            forall|j: int| 0 <= j < docs@.len() ==> doc_ok(
                #[trigger] docs@[j],
                documented(items.take(k as int))[j],
                documented(items.take(k as int))[j].rendered.unwrap(),
                matrix_line(matrix@, documented(items.take(k as int))[j]),
                relative_path(documented(items.take(k as int))[j].item.source_path@, project_root@),
            ),
        decreases order@.len() - k,
    {
        let idx = order[k];
        let entry = &assessed[idx];
        assert(ord[k as int] == idx as int);
        assert(items[k as int] == *entry);
        assert(items.take(k + 1).drop_last() =~= items.take(k as int));
        assert(items.take(k + 1).last() == *entry);
        let id = line_id_exec(entry.item.kind, entry.item.name.as_str());
        let source = relative_source(entry.item.source_path.as_str(), project_root);
        let key = kebab_case(entry.item.name.as_str());
        let line = find_matrix_line(matrix, key.as_str());
        let docs_id = match &entry.rendered {
            Some(rendered) => {
                let ghost d0 = docs@;
                let d = doc_line(owned(id.as_str()), entry, rendered, line, owned(source.as_str()));
                docs.push(d);
                assert(documented(items.take(k + 1)) == documented(items.take(k as int)).push(*entry));
                assert forall|j: int| 0 <= j < docs@.len() implies doc_ok(
                    #[trigger] docs@[j],
                    documented(items.take(k + 1))[j],
                    documented(items.take(k + 1))[j].rendered.unwrap(),
                    matrix_line(matrix@, documented(items.take(k + 1))[j]),
                    relative_path(documented(items.take(k + 1))[j].item.source_path@, project_root@),
                ) by {
                    if j < d0.len() {
                        assert(docs@[j] == d0[j]);
                    }
                }
                Some(id)
            },
            None => {
                assert(documented(items.take(k + 1)) == documented(items.take(k as int)));
                None
            },
        };
        let st = index_state(entry, namespace_missing);
        let ghost i0 = index@;
        index.push(IndexLine {
            schema: INDEX_SCHEMA,
            name: owned(entry.item.name.as_str()),
            kind: kind_str(entry.item.kind),
            source,
            docs_id,
            pages: Vec::new(),
            artifact: None,
            state: st,
        });
        assert forall|j: int| 0 <= j < k + 1 implies index_ok(
            #[trigger] index@[j],
            items[j],
            if items[j].rendered is Some {
                Some(line_id(items[j].item.kind, items[j].item.name@))
            } else {
                None
            },
            relative_path(items[j].item.source_path@, project_root@),
            namespace_missing,
        ) by {
            if j < k {
                assert(index@[j] == i0[j]);
            }
        }
        k = k + 1;
    }
    assert(items.take(order@.len() as int) =~= items);
    let system = match namespaces {
        Some(ns) => {
            let l = system_line(ns);
            let mut v: Vec<SystemLine> = Vec::new();
            v.push(l);
            v
        },
        None => Vec::new(),
    };
    Substrate { docs, system, index }
}

} // verus!
