//! The project's component registry: what discovery found (components and
//! composites, with where each is declared) and the cache of component
//! structures that previews are generated from.

use vstd::prelude::*;
use vstd::string::*;
use crate::generator::{pascal, to_pascal_case, web_component, web_component_block};
use crate::react::{all_classes, pair_views, ComponentStructure};
use crate::scope::{
    last_index, lemma_seq_lt_irreflexive, lemma_seq_lt_transitive, seq_lt, str_lt,
};
use crate::text::{
    char_lower, chars_of, contains, join, join_strings, normalize_whitespace, normalize_ws, views, ends_with, owned, push_lower, push_str, str_contains,
    str_ends_with, str_eq, str_lower, to_lowercase, words,
};
use crate::traits::{TransformError, TransformedBlock};
use crate::ts_helpers::{class_value_of, hole_patterns, static_tokens};
use crate::ts_syntax::{parse_ts_module, parsed_module, TsArg, TsDeclarator, TsElement, TsExpr, TsKey, TsModule, TsProperty, TsStatement};
use crate::ts_read::{key_name, key_name_exec, string_value, string_value_exec, template_value, template_value_exec, unwrap_expr, unwrapped};
use crate::react::opt_view;

verus! {

/// What a discovered item is.
#[derive(Debug, Clone, Copy, PartialEq, Eq, PartialOrd, Ord, Hash, Structural)]
pub enum DiscoveredKind {
    Component,
    Composite,
}

/// One component or composite found in a project.
#[derive(Debug, Clone, PartialEq)]
pub struct DiscoveredItem {
    /// Declared name: the extracted component name, the composite manifest
    /// `manifest.id`, or the name listed in the rafters config.
    pub name: String,
    /// Component or composite, from what the source declares.
    pub kind: DiscoveredKind,
    /// Where the item is declared: the source file, the composite manifest,
    /// or `.rafters/config.rafters.json` for installed-only declarations.
    pub source_path: String,
    /// True when the extract pass produced a component structure; false
    /// when the item exists in source but nothing is generatable from it
    /// yet, so it is reportable as not yet documented.
    pub generated: bool,
    /// The framework a component target declares that no adapter exists
    /// for, when it declares one: an observation, never an inference.
    pub unsupported_framework: Option<String>,
}

} // verus!

verus! {

/// Errors that can occur with the registry.
#[derive(Debug, Clone, PartialEq, Eq)]
pub enum RegistryError {
    DirectoryNotFound(String),
    ComponentNotFound(String),
    ParseError(String),
    /// A source file exists but could not be read; discovery names it
    /// instead of silently dropping the item.
    UnreadableSource { path: String, message: String },
    /// A declaration file (composite manifest or rafters config) exists
    /// but does not parse.
    MalformedDeclaration { path: String, message: String },
    /// The discovery walk could not traverse part of the project tree.
    WalkFailed { path: String, message: String },
}

pub open spec fn registry_error_message(e: RegistryError) -> Seq<char> {
    match e {
        RegistryError::DirectoryNotFound(p) => "Components directory not found: "@ + p@,
        RegistryError::ComponentNotFound(n) => "Component not found: "@ + n@,
        RegistryError::ParseError(m) => "Failed to parse component: "@ + m@,
        RegistryError::UnreadableSource { path, message } => "failed to read source file "@ + path@ + ": "@ + message@,
        RegistryError::MalformedDeclaration { path, message } => "malformed declaration file "@ + path@ + ": "@ + message@,
        RegistryError::WalkFailed { path, message } => "failed to walk "@ + path@ + " during discovery: "@ + message@,
    }
}

impl RegistryError {
    /// The error's message.
    pub fn message(&self) -> (r: String)
        ensures
            r@ == registry_error_message(*self),
    {
        match self {
            RegistryError::DirectoryNotFound(p) => {
                let mut out = owned("Components directory not found: ");
                push_str(&mut out, p.as_str());
                out
            },
            RegistryError::ComponentNotFound(n) => {
                let mut out = owned("Component not found: ");
                push_str(&mut out, n.as_str());
                out
            },
            RegistryError::ParseError(m) => {
                let mut out = owned("Failed to parse component: ");
                push_str(&mut out, m.as_str());
                out
            },
            RegistryError::UnreadableSource { path, message } => {
                let mut out = owned("failed to read source file ");
                push_str(&mut out, path.as_str());
                push_str(&mut out, ": ");
                push_str(&mut out, message.as_str());
                out
            },
            RegistryError::MalformedDeclaration { path, message } => {
                let mut out = owned("malformed declaration file ");
                push_str(&mut out, path.as_str());
                push_str(&mut out, ": ");
                push_str(&mut out, message.as_str());
                out
            },
            RegistryError::WalkFailed { path, message } => {
                let mut out = owned("failed to walk ");
                push_str(&mut out, path.as_str());
                push_str(&mut out, " during discovery: ");
                push_str(&mut out, message.as_str());
                out
            },
        }
    }
}

/// A cached component with its source and structure.
#[derive(Debug, Clone)]
pub struct CachedComponent {
    /// Original component name
    pub name: String,
    /// Source file path
    pub source_path: String,
    /// Extracted structure
    pub structure: ComponentStructure,
    /// Full source code
    pub source: String,
}

/// A registry of component definitions, looked up by name with case
/// ignored: no two entries share a lower-cased name.
#[derive(Debug)]
pub struct ComponentRegistry {
    components: Vec<CachedComponent>,
}

/// The lookup key of a name: its lower-cased form.
pub open spec fn key_of(name: Seq<char>) -> Seq<char> {
    str_lower(name)
}

/// The index of the entry whose key is `key`, if any.
pub open spec fn entry_index(cs: Seq<CachedComponent>, key: Seq<char>) -> Option<int> {
    if exists|i: int| 0 <= i < cs.len() && key_of(cs[i].name@) == key {
        Some(choose|i: int| 0 <= i < cs.len() && key_of(cs[i].name@) == key)
    } else {
        None
    }
}

/// No two entries share a key.
pub open spec fn keys_distinct(cs: Seq<CachedComponent>) -> bool {
    forall|i: int, j: int|
        0 <= i < cs.len() && 0 <= j < cs.len() && i != j ==> key_of(#[trigger] cs[i].name@) != key_of(
            #[trigger] cs[j].name@,
        )
}

/// The entries after registering `c`: appended unless its key is taken.
pub open spec fn after_register(cs: Seq<CachedComponent>, c: CachedComponent) -> Seq<CachedComponent> {
    if entry_index(cs, key_of(c.name@)) is None {
        cs.push(c)
    } else {
        cs
    }
}

/// Registering a component and then looking it up under any spelling of
/// its name that lower-cases the same finds an entry: the component itself
/// when its key was free, the earlier entry when it was taken. Lookups under
/// other keys are unchanged.
pub proof fn lemma_register_then_get(cs: Seq<CachedComponent>, c: CachedComponent, name: Seq<char>)
    requires
        keys_distinct(cs),
    ensures
        keys_distinct(after_register(cs, c)),
        key_of(name) == key_of(c.name@) ==> match entry_index(cs, key_of(c.name@)) {
            None => entry_index(after_register(cs, c), key_of(name)) == Some(cs.len() as int)
                && after_register(cs, c)[cs.len() as int] == c,
            Some(i) => entry_index(after_register(cs, c), key_of(name)) == Some(i),
        },
        key_of(name) != key_of(c.name@) ==> entry_index(after_register(cs, c), key_of(name))
            == entry_index(cs, key_of(name)),
{
    let s = after_register(cs, c);
    let k = key_of(name);
    if entry_index(cs, key_of(c.name@)) is None {
        assert(s[cs.len() as int] == c);
        assert(keys_distinct(s));
        if k == key_of(c.name@) {
            assert(key_of(s[cs.len() as int].name@) == k);
        } else if entry_index(cs, k) is Some {
            let i = entry_index(cs, k).unwrap();
            assert(key_of(s[i].name@) == k);
        }
    }
}

impl View for ComponentRegistry {
    type V = Seq<CachedComponent>;

    /// The entries in registration order.
    closed spec fn view(&self) -> Seq<CachedComponent> {
        self.components@
    }
}

impl ComponentRegistry {
    #[verifier::type_invariant]
    spec fn keys_unique(self) -> bool {
        keys_distinct(self.components@)
    }

    /// Create a new empty registry.
    pub fn new() -> (r: Self)
        ensures
            r@ == Seq::<CachedComponent>::empty(),
            keys_distinct(r@),
    {
        ComponentRegistry { components: Vec::new() }
    }

    /// The position of the entry registered under `key`, if any.
    fn position(&self, key: &str) -> (r: Option<usize>)
        ensures
            match r {
                Some(i) => i < self@.len() && key_of(self@[i as int].name@) == key@,
                None => forall|i: int| 0 <= i < self@.len() ==> key_of(#[trigger] self@[i].name@) != key@,
            },
    {
        let mut i: usize = 0;
        while i < self.components.len()
            invariant
                i <= self.components@.len(),
                forall|j: int| 0 <= j < i ==> key_of(#[trigger] self.components@[j].name@) != key@,
            decreases self.components@.len() - i,
        {
            let k = to_lowercase(self.components[i].name.as_str());
            if str_eq(k.as_str(), key) {
                return Some(i);
            }
            i = i + 1;
        }
        None
    }

    /// Register a component unless one with the same lower-cased name is
    /// already there (the first registration wins). Returns whether it was
    /// added.
    pub fn register(&mut self, component: CachedComponent) -> (added: bool)
        ensures
            added == (entry_index(old(self)@, key_of(component.name@)) is None),
            final(self)@ == after_register(old(self)@, component),
            keys_distinct(final(self)@),
    {
        proof {
            use_type_invariant(&*self);
        }
        let key = to_lowercase(component.name.as_str());
        match self.position(key.as_str()) {
            Some(i) => {
                assert(key_of(self@[i as int].name@) == key_of(component.name@));
                false
            },
            None => {
                let ghost before = self.components@;
                let mut cs: Vec<CachedComponent> = Vec::new();
                std::mem::swap(&mut cs, &mut self.components);
                cs.push(component);
                assert(cs@ == before.push(component));
                assert(keys_distinct(cs@));
                self.components = cs;
                true
            },
        }
    }

    /// Look up a component by name (case-insensitive).
    pub fn get(&self, name: &str) -> (r: Option<&CachedComponent>)
        ensures
            match entry_index(self@, key_of(name@)) {
                Some(i) => r == Some(&self@[i]),
                None => r is None,
            },
    {
        proof {
            use_type_invariant(self);
        }
        let key = to_lowercase(name);
        match self.position(key.as_str()) {
            Some(i) => {
                let ghost j = entry_index(self@, key_of(name@)).unwrap();
                assert(key_of(self@[j].name@) == key_of(name@));
                assert(i == j);
                Some(&self.components[i])
            },
            None => None,
        }
    }

    /// Check if a component exists.
    pub fn contains(&self, name: &str) -> (b: bool)
        ensures
            b == (entry_index(self@, key_of(name@)) is Some),
    {
        let key = to_lowercase(name);
        self.position(key.as_str()).is_some()
    }

    /// Get all registered component names, in registration order.
    pub fn names(&self) -> (r: Vec<&str>)
        ensures
            r@.len() == self@.len(),
            forall|i: int| 0 <= i < self@.len() ==> (#[trigger] r@[i])@ == self@[i].name@,
    {
        let mut r: Vec<&str> = Vec::new();
        let mut i: usize = 0;
        while i < self.components.len()
            invariant
                i <= self.components@.len(),
                r@.len() == i,
                forall|j: int| 0 <= j < i ==> (#[trigger] r@[j])@ == self.components@[j].name@,
            decreases self.components@.len() - i,
        {
            r.push(self.components[i].name.as_str());
            i = i + 1;
        }
        r
    }

    /// Generate a Web Component for a registered component, with the classes
    /// and attributes its cached structure declares. The registry holds no
    /// stylesheet, so the module embeds no scoped CSS.
    pub fn generate_web_component(&self, component_name: &str, tag_name: &str) -> (r: Result<TransformedBlock, RegistryError>)
        ensures
            match entry_index(self@, key_of(component_name@)) {
                Some(i) => r matches Ok(b) && b.web_component@ == web_component(tag_name@, self@[i].structure, seq![])
                    && b.tag_name@ == tag_name@ && views(b.classes_used@) == all_classes(self@[i].structure)
                    && b.attributes@ == self@[i].structure.observed_attributes@,
                None => r matches Err(RegistryError::ComponentNotFound(n)) && n@ == component_name@,
            },
    {
        match self.get(component_name) {
            Some(cached) => {
                let b = web_component_block(tag_name, &cached.structure, "");
                proof {
                    reveal_strlit("");
                    assert(""@ =~= Seq::<char>::empty());
                }
                Ok(b)
            },
            None => Err(RegistryError::ComponentNotFound(owned(component_name))),
        }
    }
}

/// Whether a path names a composite manifest (`*.composite.json`).
pub fn is_composite_manifest(path: &str) -> (b: bool)
    ensures
        b == ends_with(path@, ".composite.json"@),
{
    str_ends_with(path, ".composite.json")
}

/// Convert kebab-case to PascalCase (e.g., "context-menu" -> "ContextMenu").
pub fn kebab_to_pascal(s: &str) -> (r: String)
    ensures
        r@ == pascal(s@),
{
    to_pascal_case(s)
}

/// The role an export plays in the component, from its name.
#[derive(Debug, PartialEq, Eq, Structural)]
pub enum ExportRole {
    Variant,
    Size,
    Base,
    Disabled,
    Other,
}

/// The role of a lower-cased export name. Priority: Variant > Size > Base
/// > Disabled > Other; the first match wins.
pub open spec fn role_of(lower: Seq<char>) -> ExportRole {
    if contains(lower, "variant"@) {
        ExportRole::Variant
    } else if contains(lower, "size"@) {
        ExportRole::Size
    } else if contains(lower, "base"@) {
        ExportRole::Base
    } else if contains(lower, "disabled"@) {
        ExportRole::Disabled
    } else {
        ExportRole::Other
    }
}

impl ExportRole {
    /// Categorize an export name by the role it plays in the component.
    pub fn classify(name: &str) -> (r: Self)
        ensures
            r == role_of(str_lower(name@)),
    {
        let lower = to_lowercase(name);
        let l = lower.as_str();
        if str_contains(l, "variant") {
            ExportRole::Variant
        } else if str_contains(l, "size") {
            ExportRole::Size
        } else if str_contains(l, "base") {
            ExportRole::Base
        } else if str_contains(l, "disabled") {
            ExportRole::Disabled
        } else {
            ExportRole::Other
        }
    }
}

/// A name folded for identity: word separators (`-`, `_`) dropped and each
/// remaining character lower-cased, so `hero-banner` and `HeroBanner` fold
/// alike.
pub open spec fn folded(s: Seq<char>) -> Seq<char>
    decreases s.len(),
{
    if s.len() == 0 {
        seq![]
    } else if s.last() == '-' || s.last() == '_' {
        folded(s.drop_last())
    } else {
        folded(s.drop_last()) + char_lower(s.last())
    }
}

/// Canonical fold for discovered-item identity.
pub fn identity_fold(name: &str) -> (r: String)
    ensures
        r@ == folded(name@),
{
    let v = chars_of(name);
    let mut r = String::new();
    let mut i: usize = 0;
    while i < v.len()
        invariant
            i <= v@.len(),
            v@ == name@,
            r@ == folded(v@.take(i as int)),
        decreases v@.len() - i,
    {
        assert(v@.take(i + 1).drop_last() =~= v@.take(i as int));
        if v[i] != '-' && v[i] != '_' {
            push_lower(&mut r, v[i]);
        }
        i = i + 1;
    }
    assert(v@.take(v@.len() as int) =~= v@);
    r
}


/// The value shape of a discovered export.
#[derive(Debug, Clone)]
pub enum ExportShape {
    /// Key-value pairs (from flat or nested object expressions)
    Record { entries: Vec<(String, String)> },
    /// A single resolved class string
    Scalar { value: String },
}

/// A single discovered `export const` of a `.classes.ts` file.
#[derive(Debug, Clone)]
pub struct DiscoveredExport {
    pub name: String,
    pub shape: ExportShape,
}

/// What one property value of an exported object reads as: a static
/// string, the joined classes of a nested object, or neither.
#[derive(Debug)]
pub enum PropertyRead {
    Text(String),
    Nested(String),
    Unread,
}

/// What an exported constant's value reads as: an object's properties by
/// key, a static string, the static strings of an array, those of an
/// array joined by `.join(sep)` (`sep` when it is a string literal), or
/// none of these.
#[derive(Debug)]
pub enum ExportRead {
    Object(Vec<(String, PropertyRead)>),
    Text(String),
    Array(Vec<String>),
    JoinedArray(Vec<String>, Option<String>),
    Unread,
}

/// What one property reads as, as plain values.
pub enum PropView {
    Text(Seq<char>),
    Nested(Seq<char>),
    Unread,
}

/// What an exported constant's value reads as, as plain values.
pub enum ReadView {
    Object(Seq<(Seq<char>, PropView)>),
    Text(Seq<char>),
    Array(Seq<Seq<char>>),
    Joined(Seq<Seq<char>>, Option<Seq<char>>),
    Unread,
}

pub open spec fn prop_view(p: PropertyRead) -> PropView {
    match p {
        PropertyRead::Text(t) => PropView::Text(t@),
        PropertyRead::Nested(t) => PropView::Nested(t@),
        PropertyRead::Unread => PropView::Unread,
    }
}

pub open spec fn props_view(ps: Seq<(String, PropertyRead)>) -> Seq<(Seq<char>, PropView)> {
    ps.map_values(|p: (String, PropertyRead)| (p.0@, prop_view(p.1)))
}

pub open spec fn read_view(r: ExportRead) -> ReadView {
    match r {
        ExportRead::Object(ps) => ReadView::Object(props_view(ps@)),
        ExportRead::Text(t) => ReadView::Text(t@),
        ExportRead::Array(xs) => ReadView::Array(views(xs@)),
        ExportRead::JoinedArray(xs, sep) => ReadView::Joined(views(xs@), match sep {
            Some(s) => Some(s@),
            None => None,
        }),
        ExportRead::Unread => ReadView::Unread,
    }
}

/// The entries of an object's static-string properties.
pub open spec fn flat_entries(ps: Seq<(Seq<char>, PropView)>) -> Seq<(Seq<char>, Seq<char>)>
    decreases ps.len(),
{
    if ps.len() == 0 {
        seq![]
    } else {
        let rest = flat_entries(ps.drop_last());
        match ps.last().1 {
            PropView::Text(t) => rest.push((ps.last().0, t)),
            _ => rest,
        }
    }
}

/// The entries of an object's static-string and nested-object properties.
pub open spec fn nested_entries(ps: Seq<(Seq<char>, PropView)>) -> Seq<(Seq<char>, Seq<char>)>
    decreases ps.len(),
{
    if ps.len() == 0 {
        seq![]
    } else {
        let rest = nested_entries(ps.drop_last());
        match ps.last().1 {
            PropView::Text(t) => rest.push((ps.last().0, t)),
            PropView::Nested(t) => rest.push((ps.last().0, t)),
            PropView::Unread => rest,
        }
    }
}

pub open spec fn has_nested(ps: Seq<(Seq<char>, PropView)>) -> bool {
    exists|i: int| 0 <= i < ps.len() && ps[i].1 is Nested
}

/// An export as plain values: its name and its shape (`Ok` entries of a
/// record, `Err` value of a scalar).
pub open spec fn export_view(e: DiscoveredExport) -> (Seq<char>, Result<Seq<(Seq<char>, Seq<char>)>, Seq<char>>) {
    (e.name@, match e.shape {
        ExportShape::Record { entries } => Ok(pair_views(entries@)),
        ExportShape::Scalar { value } => Err(value@),
    })
}

/// The export a constant named `name` gives, by what its value reads as.
pub open spec fn export_read(name: Seq<char>, value: ReadView) -> Option<(Seq<char>, Result<Seq<(Seq<char>, Seq<char>)>, Seq<char>>)> {
    match value {
        ReadView::Object(ps) => {
            let es = if has_nested(ps) {
                nested_entries(ps)
            } else {
                flat_entries(ps)
            };
            if es.len() == 0 {
                None
            } else {
                Some((name, Ok(es)))
            }
        },
        ReadView::Text(t) => if t.len() == 0 {
            None
        } else {
            Some((name, Err(t)))
        },
        ReadView::Array(xs) => {
            let parts = nonempty(xs);
            if parts.len() == 0 {
                None
            } else {
                Some((name, Err(join(parts, " "@))))
            }
        },
        ReadView::Joined(xs, sep) => {
            let parts = nonempty(xs);
            if parts.len() == 0 {
                None
            } else {
                Some((name, Err(join(parts, match sep {
                    Some(s) => s,
                    None => " "@,
                }))))
            }
        },
        ReadView::Unread => None,
    }
}

fn nonempty_strings(xs: Vec<String>) -> (r: Vec<String>)
    ensures
        views(r@) == nonempty(views(xs@)),
{
    let mut r: Vec<String> = Vec::new();
    let mut i: usize = 0;
    while i < xs.len()
        invariant
            i <= xs@.len(),
            views(r@) == nonempty(views(xs@).take(i as int)),
        decreases xs@.len() - i,
    {
        assert(views(xs@).take(i + 1).drop_last() =~= views(xs@).take(i as int));
        assert(views(xs@).take(i + 1).last() == xs@[i as int]@);
        if xs[i].as_str().unicode_len() > 0 {
            let ghost before = r@;
            r.push(xs[i].clone());
            assert(views(r@) =~= views(before).push(xs@[i as int]@));
        }
        i = i + 1;
    }
    assert(views(xs@).take(xs@.len() as int) =~= views(xs@));
    r
}

/// The export a constant named `name` gives, by what its value reads as:
/// an object gives a record of its static-string properties, or, when any
/// property is a nested object, of its static-string and nested ones; a
/// non-empty static string, or the non-empty static strings of an array
/// (joined by a space, or by the declared `.join` separator), give a
/// scalar. Nothing else gives an export.
pub fn export_of(name: &str, value: ExportRead) -> (r: Option<DiscoveredExport>)
    ensures
        match r {
            Some(e) => export_read(name@, read_view(value)) == Some(export_view(e)),
            None => export_read(name@, read_view(value)) is None,
        },
{
    proof {
        reveal_strlit(" ");
    }
    match value {
        ExportRead::Object(ps) => {
            let ghost pv = props_view(ps@);
            let mut flat: Vec<(String, String)> = Vec::new();
            let mut nested: Vec<(String, String)> = Vec::new();
            let mut any_nested = false;
            let mut i: usize = 0;
            while i < ps.len()
                invariant
                    i <= ps@.len(),
                    pv == props_view(ps@),
                    pair_views(flat@) == flat_entries(pv.take(i as int)),
                    pair_views(nested@) == nested_entries(pv.take(i as int)),
                    any_nested == has_nested(pv.take(i as int)),
                decreases ps@.len() - i,
            {
                assert(pv.take(i + 1).drop_last() =~= pv.take(i as int));
                assert(pv.take(i + 1).last() == pv[i as int]);
                let key = &ps[i].0;
                match &ps[i].1 {
                    PropertyRead::Text(t) => {
                        let ghost f0 = flat@;
                        let ghost n0 = nested@;
                        flat.push((key.clone(), t.clone()));
                        nested.push((key.clone(), t.clone()));
                        assert(pair_views(flat@) =~= pair_views(f0).push((key@, t@)));
                        assert(pair_views(nested@) =~= pair_views(n0).push((key@, t@)));
                    },
                    PropertyRead::Nested(t) => {
                        let ghost n0 = nested@;
                        nested.push((key.clone(), t.clone()));
                        assert(pair_views(nested@) =~= pair_views(n0).push((key@, t@)));
                        any_nested = true;
                    },
                    PropertyRead::Unread => {},
                }
                proof {
                    let q = pv.take(i + 1);
                    if has_nested(q) {
                        let j = choose|j: int| 0 <= j < q.len() && q[j].1 is Nested;
                        if j < i {
                            assert(pv.take(i as int)[j] == q[j]);
                        }
                    }
                    if has_nested(pv.take(i as int)) {
                        let j = choose|j: int| 0 <= j < i && pv.take(i as int)[j].1 is Nested;
                        assert(q[j] == pv.take(i as int)[j]);
                    }
                    if pv[i as int].1 is Nested {
                        assert(q[i as int] == pv[i as int]);
                    }
                }
                i = i + 1;
            }
            assert(pv.take(ps@.len() as int) =~= pv);
            let entries = if any_nested { nested } else { flat };
            if entries.len() == 0 {
                None
            } else {
                Some(DiscoveredExport { name: crate::text::owned(name), shape: ExportShape::Record { entries } })
            }
        },
        ExportRead::Text(t) => {
            if t.as_str().unicode_len() == 0 {
                None
            } else {
                Some(DiscoveredExport { name: crate::text::owned(name), shape: ExportShape::Scalar { value: t } })
            }
        },
        ExportRead::Array(xs) => {
            let parts = nonempty_strings(xs);
            if parts.len() == 0 {
                None
            } else {
                let value = join_strings(parts.as_slice(), " ");
                Some(DiscoveredExport { name: crate::text::owned(name), shape: ExportShape::Scalar { value } })
            }
        },
        ExportRead::JoinedArray(xs, sep) => {
            let parts = nonempty_strings(xs);
            if parts.len() == 0 {
                None
            } else {
                let value = match &sep {
                    Some(s) => join_strings(parts.as_slice(), s.as_str()),
                    None => join_strings(parts.as_slice(), " "),
                };
                Some(DiscoveredExport { name: crate::text::owned(name), shape: ExportShape::Scalar { value } })
            }
        },
        ExportRead::Unread => None,
    }
}

/// What the exports have given so far: the variant record, the size
/// record, the base class parts, the disabled classes, and the extra
/// classes from other records.
pub struct BuildState {
    pub variants: Seq<(Seq<char>, Seq<char>)>,
    pub sizes: Seq<(Seq<char>, Seq<char>)>,
    pub base: Seq<Seq<char>>,
    pub disabled: Option<Seq<char>>,
    pub extra: Seq<Seq<char>>,
}

pub open spec fn values_of(es: Seq<(Seq<char>, Seq<char>)>) -> Seq<Seq<char>> {
    es.map_values(|e: (Seq<char>, Seq<char>)| e.1)
}

/// The non-empty strings of `vs`, in order.
pub open spec fn nonempty(vs: Seq<Seq<char>>) -> Seq<Seq<char>>
    decreases vs.len(),
{
    if vs.len() == 0 {
        seq![]
    } else if vs.last().len() > 0 {
        nonempty(vs.drop_last()).push(vs.last())
    } else {
        nonempty(vs.drop_last())
    }
}

/// The state after one more export, by its role and shape.
pub open spec fn build_step(st: BuildState, role: ExportRole, shape: ExportShape) -> BuildState {
    match shape {
        ExportShape::Record { entries } => {
            let es = pair_views(entries@);
            match role {
                ExportRole::Variant => if st.variants.len() == 0 {
                    BuildState { variants: es, ..st }
                } else {
                    BuildState { extra: st.extra + values_of(es), ..st }
                },
                ExportRole::Size => if st.sizes.len() == 0 {
                    BuildState { sizes: es, ..st }
                } else {
                    BuildState { extra: st.extra + values_of(es), ..st }
                },
                ExportRole::Base => BuildState { base: st.base + nonempty(values_of(es)), ..st },
                ExportRole::Disabled => {
                    let combined = join(nonempty(values_of(es)), " "@);
                    if combined.len() > 0 {
                        BuildState { disabled: Some(combined), ..st }
                    } else {
                        st
                    }
                },
                ExportRole::Other => BuildState { extra: st.extra + nonempty(values_of(es)), ..st },
            }
        },
        ExportShape::Scalar { value } => match role {
            ExportRole::Base => BuildState { base: st.base.push(value@), ..st },
            ExportRole::Disabled => BuildState { disabled: Some(value@), ..st },
            _ => if value@.len() > 0 {
                BuildState { base: st.base.push(value@), ..st }
            } else {
                st
            },
        },
    }
}

pub open spec fn build_over(exports: Seq<DiscoveredExport>) -> BuildState
    decreases exports.len(),
{
    if exports.len() == 0 {
        BuildState { variants: seq![], sizes: seq![], base: seq![], disabled: None, extra: seq![] }
    } else {
        build_step(build_over(exports.drop_last()), role_of(str_lower(exports.last().name@)), exports.last().shape)
    }
}

/// The joined base classes: the base parts, then the extra classes.
pub open spec fn joined_base(st: BuildState) -> Seq<char> {
    join(st.base + st.extra, " "@)
}

/// The structure the exports give, by what they were found to hold: none
/// without exports or without anything renderable; otherwise the found
/// records, the joined base classes, the found or standard disabled
/// classes, the first keys as defaults and the implied attributes.
pub open spec fn built_structure(name: Seq<char>, no_exports: bool, st: BuildState, r: Option<ComponentStructure>) -> bool {
    &&& ((no_exports || !has_content(st)) <==> r is None)
    &&& (r matches Some(s) ==> {
        &&& s.name@ == name
        &&& pair_views(s.variant_lookup@) == st.variants
        &&& pair_views(s.size_lookup@) == st.sizes
        &&& s.base_classes@ == normalize_ws(joined_base(st))
        &&& s.disabled_classes@ == (match st.disabled {
            Some(d) => d,
            None => "opacity-50 pointer-events-none cursor-not-allowed"@,
        })
        &&& s.default_variant@ == (if st.variants.len() > 0 {
            st.variants[0].0
        } else {
            "default"@
        })
        &&& s.default_size@ == (if st.sizes.len() > 0 {
            st.sizes[0].0
        } else {
            "default"@
        })
        &&& views(s.observed_attributes@) == implied_attributes(st)
        &&& s.dynamic_class_patterns@.len() == 0
    })
}

/// The structure holds something to render.
pub open spec fn has_content(st: BuildState) -> bool {
    st.variants.len() > 0 || st.sizes.len() > 0 || joined_base(st).len() > 0
}

/// The observed attributes the found records imply.
pub open spec fn implied_attributes(st: BuildState) -> Seq<Seq<char>> {
    (if st.variants.len() > 0 {
        seq!["variant"@]
    } else {
        seq![]
    }) + (if st.sizes.len() > 0 {
        seq!["size"@]
    } else {
        seq![]
    })
}

/// Build a component structure from discovered exports: each export's
/// role comes from its name, and the structure is assembled from whatever
/// was found. `None` for no exports, or when nothing renderable was found.
pub fn build_structure_from_exports(component_name: &str, exports: Vec<DiscoveredExport>) -> (r: Option<ComponentStructure>)
    ensures
        built_structure(component_name@, exports@.len() == 0, build_over(exports@), r),
{
    if exports.len() == 0 {
        return None;
    }
    let mut variants: Vec<(String, String)> = Vec::new();
    let mut sizes: Vec<(String, String)> = Vec::new();
    let mut base: Vec<String> = Vec::new();
    let mut disabled: Option<String> = None;
    let mut extra: Vec<String> = Vec::new();
    let mut i: usize = 0;
    proof {
        assert(exports@.take(0) =~= Seq::<DiscoveredExport>::empty());
        assert(pair_views(variants@) =~= Seq::<(Seq<char>, Seq<char>)>::empty());
        assert(pair_views(sizes@) =~= Seq::<(Seq<char>, Seq<char>)>::empty());
        assert(views(base@) =~= Seq::<Seq<char>>::empty());
        assert(views(extra@) =~= Seq::<Seq<char>>::empty());
    }
    while i < exports.len()
        invariant
            i <= exports@.len(),
            state_of(variants@, sizes@, base@, disabled, extra@) == build_over(exports@.take(i as int)),
        decreases exports@.len() - i,
    {
        assert(exports@.take(i + 1).drop_last() =~= exports@.take(i as int));
        assert(exports@.take(i + 1).last() == exports@[i as int]);
        let role = ExportRole::classify(exports[i].name.as_str());
        apply_export(&mut variants, &mut sizes, &mut base, &mut disabled, &mut extra, role, &exports[i].shape);
        i = i + 1;
    }
    assert(exports@.take(exports@.len() as int) =~= exports@);
    let ghost st = build_over(exports@);
    assert(views(base@) == st.base && views(extra@) == st.extra);
    let mut all = base;
    let ghost b0 = views(all@);
    let mut k: usize = 0;
    while k < extra.len()
        invariant
            k <= extra@.len(),
            views(all@) == b0 + views(extra@).take(k as int),
        decreases extra@.len() - k,
    {
        let ghost a0 = views(all@);
        all.push(owned(extra[k].as_str()));
        assert(views(all@) =~= a0.push(views(extra@)[k as int]));
        assert(views(extra@).take(k + 1) =~= views(extra@).take(k as int).push(views(extra@)[k as int]));
        k = k + 1;
    }
    assert(views(extra@).take(extra@.len() as int) =~= views(extra@));
    let joined = join_strings(&all, " ");
    let jv = chars_of(joined.as_str());
    if variants.len() == 0 && sizes.len() == 0 && jv.len() == 0 {
        return None;
    }
    let default_variant = if variants.len() > 0 {
        owned(variants[0].0.as_str())
    } else {
        owned("default")
    };
    let default_size = if sizes.len() > 0 {
        owned(sizes[0].0.as_str())
    } else {
        owned("default")
    };
    let mut observed: Vec<String> = Vec::new();
    if variants.len() > 0 {
        observed.push(owned("variant"));
    }
    if sizes.len() > 0 {
        observed.push(owned("size"));
    }
    assert(views(observed@) =~= implied_attributes(st));
    let disabled_classes = match disabled {
        Some(d) => d,
        None => owned("opacity-50 pointer-events-none cursor-not-allowed"),
    };
    assert(pair_views(variants@).len() == variants@.len());
    Some(ComponentStructure {
        name: owned(component_name),
        variant_lookup: variants,
        size_lookup: sizes,
        base_classes: normalize_whitespace(joined.as_str()),
        disabled_classes,
        default_variant,
        default_size,
        observed_attributes: observed,
        dynamic_class_patterns: Vec::new(),
    })
}

fn record_values(es: &Vec<(String, String)>, only_nonempty: bool) -> (r: Vec<String>)
    ensures
        views(r@) == (if only_nonempty {
            nonempty(values_of(pair_views(es@)))
        } else {
            values_of(pair_views(es@))
        }),
{
    let ghost vs = values_of(pair_views(es@));
    let mut r: Vec<String> = Vec::new();
    let mut i: usize = 0;
    while i < es.len()
        invariant
            i <= es@.len(),
            vs == values_of(pair_views(es@)),
            views(r@) == (if only_nonempty {
                nonempty(vs.take(i as int))
            } else {
                vs.take(i as int)
            }),
        decreases es@.len() - i,
    {
        let v = chars_of(es[i].1.as_str());
        assert(vs[i as int] == es@[i as int].1@);
        assert(vs.take(i + 1).drop_last() =~= vs.take(i as int));
        assert(vs.take(i + 1) =~= vs.take(i as int).push(vs[i as int]));
        let ghost r0 = views(r@);
        if !only_nonempty || v.len() > 0 {
            r.push(owned(es[i].1.as_str()));
            assert(views(r@) =~= r0.push(vs[i as int]));
        }
        i = i + 1;
    }
    assert(vs.take(es@.len() as int) =~= vs);
    r
}


/// The build state held by the working vectors.
pub open spec fn state_of(
    variants: Seq<(String, String)>,
    sizes: Seq<(String, String)>,
    base: Seq<String>,
    disabled: Option<String>,
    extra: Seq<String>,
) -> BuildState {
    BuildState {
        variants: pair_views(variants),
        sizes: pair_views(sizes),
        base: views(base),
        disabled: match disabled {
            Some(d) => Some(d@),
            None => None,
        },
        extra: views(extra),
    }
}

fn copy_pairs(es: &Vec<(String, String)>) -> (r: Vec<(String, String)>)
    ensures
        pair_views(r@) == pair_views(es@),
{
    let mut r: Vec<(String, String)> = Vec::new();
    let mut i: usize = 0;
    while i < es.len()
        invariant
            i <= es@.len(),
            pair_views(r@) == pair_views(es@).take(i as int),
        decreases es@.len() - i,
    {
        let ghost r0 = pair_views(r@);
        r.push((owned(es[i].0.as_str()), owned(es[i].1.as_str())));
        assert(pair_views(r@) =~= r0.push(pair_views(es@)[i as int]));
        assert(pair_views(es@).take(i + 1) =~= pair_views(es@).take(i as int).push(pair_views(es@)[i as int]));
        i = i + 1;
    }
    assert(pair_views(es@).take(es@.len() as int) =~= pair_views(es@));
    r
}

fn append_strings(dst: &mut Vec<String>, src: Vec<String>)
    ensures
        views(final(dst)@) == views(old(dst)@) + views(src@),
{
    let ghost d0 = views(dst@);
    let mut i: usize = 0;
    while i < src.len()
        invariant
            i <= src@.len(),
            views(dst@) == d0 + views(src@).take(i as int),
        decreases src@.len() - i,
    {
        let ghost a0 = views(dst@);
        dst.push(owned(src[i].as_str()));
        assert(views(dst@) =~= a0.push(views(src@)[i as int]));
        assert(views(src@).take(i + 1) =~= views(src@).take(i as int).push(views(src@)[i as int]));
        i = i + 1;
    }
    assert(views(src@).take(src@.len() as int) =~= views(src@));
}

fn apply_export(
    variants: &mut Vec<(String, String)>,
    sizes: &mut Vec<(String, String)>,
    base: &mut Vec<String>,
    disabled: &mut Option<String>,
    extra: &mut Vec<String>,
    role: ExportRole,
    shape: &ExportShape,
)
    ensures
        state_of(final(variants)@, final(sizes)@, final(base)@, *final(disabled), final(extra)@) == build_step(
            state_of(old(variants)@, old(sizes)@, old(base)@, *old(disabled), old(extra)@),
            role,
            *shape,
        ),
{
    let ghost st0 = state_of(variants@, sizes@, base@, *disabled, extra@);
    match shape {
        ExportShape::Record { entries } => {
            match role {
                ExportRole::Variant => {
                    if variants.len() == 0 {
                        *variants = copy_pairs(entries);
                    } else {
                        append_strings(extra, record_values(entries, false));
                    }
                },
                ExportRole::Size => {
                    if sizes.len() == 0 {
                        *sizes = copy_pairs(entries);
                    } else {
                        append_strings(extra, record_values(entries, false));
                    }
                },
                ExportRole::Base => {
                    append_strings(base, record_values(entries, true));
                },
                ExportRole::Disabled => {
                    let parts = record_values(entries, true);
                    let combined = join_strings(&parts, " ");
                    let cv = chars_of(combined.as_str());
                    if cv.len() > 0 {
                        *disabled = Some(combined);
                    }
                },
                ExportRole::Other => {
                    append_strings(extra, record_values(entries, true));
                },
            }
        },
        ExportShape::Scalar { value } => {
            match role {
                ExportRole::Base => {
                    let ghost b0 = views(base@);
                    base.push(owned(value.as_str()));
                    assert(views(base@) =~= b0.push(value@));
                },
                ExportRole::Disabled => {
                    *disabled = Some(owned(value.as_str()));
                },
                _ => {
                    let vv = chars_of(value.as_str());
                    if vv.len() > 0 {
                        let ghost b0 = views(base@);
                        base.push(owned(value.as_str()));
                        assert(views(base@) =~= b0.push(value@));
                    }
                },
            }
        },
    }
}


/// How a candidate component source file is extracted.
#[derive(Debug, Clone, Copy, PartialEq, Eq, Structural)]
pub enum SourceFileKind {
    /// `.classes.ts`: export-discovery extraction.
    ClassesTs,
    /// `.tsx` / `.jsx`: conventions-based extraction.
    ComponentModule,
}

/// `Path::extension` of a file name: the text after the last `.`, unless
/// there is none or it is the first character.
pub open spec fn extension_of(f: Seq<char>) -> Option<Seq<char>> {
    let i = last_index(f, '.');
    if i <= 0 {
        None
    } else {
        Some(f.skip(i + 1))
    }
}

/// Test, spec and story files and index modules are no candidates.
pub open spec fn skipped_file(f: Seq<char>) -> bool {
    ||| contains(f, ".test."@)
    ||| contains(f, ".spec."@)
    ||| contains(f, ".stories."@)
    ||| f == "index.tsx"@
    ||| f == "index.jsx"@
    ||| f == "index.ts"@
}

pub open spec fn file_kind_of(f: Seq<char>) -> Option<SourceFileKind> {
    if skipped_file(f) {
        None
    } else if ends_with(f, ".classes.ts"@) {
        Some(SourceFileKind::ClassesTs)
    } else if extension_of(f) == Some("tsx"@) || extension_of(f) == Some("jsx"@) {
        Some(SourceFileKind::ComponentModule)
    } else {
        None
    }
}

fn last_dot(v: &Vec<char>) -> (r: usize)
    ensures
        r <= v@.len(),
        r == 0 <==> last_index(v@, '.') < 0,
        r > 0 ==> r - 1 == last_index(v@, '.'),
{
    let mut k = v.len();
    assert(v@.take(v@.len() as int) =~= v@);
    while k > 0 && v[k - 1] != '.'
        invariant
            k <= v@.len(),
            last_index(v@.take(k as int), '.') == last_index(v@, '.'),
        decreases k,
    {
        assert(v@.take(k as int).drop_last() =~= v@.take(k - 1));
        k = k - 1;
    }
    proof {
        if k > 0 {
            assert(v@.take(k as int).last() == '.');
        } else {
            assert(v@.take(0) =~= Seq::<char>::empty());
        }
    }
    k
}

/// Classify a file name as a component source candidate, applying the
/// shared skip rules (tests, specs, stories, index files).
pub fn candidate_file_kind(filename: &str) -> (r: Option<SourceFileKind>)
    ensures
        r == file_kind_of(filename@),
{
    proof {
        reveal_strlit("index.tsx");
        reveal_strlit("index.jsx");
        reveal_strlit("index.ts");
        reveal_strlit("tsx");
        reveal_strlit("jsx");
    }
    if str_contains(filename, ".test.") || str_contains(filename, ".spec.") || str_contains(filename, ".stories.")
        || str_eq(filename, "index.tsx") || str_eq(filename, "index.jsx") || str_eq(filename, "index.ts") {
        return None;
    }
    if str_ends_with(filename, ".classes.ts") {
        return Some(SourceFileKind::ClassesTs);
    }
    let v = chars_of(filename);
    let k = last_dot(&v);
    if k <= 1 {
        return None;
    }
    let ext = crate::text::string_of(&v, k, v.len());
    assert(v@.subrange(k as int, v@.len() as int) =~= v@.skip(k as int));
    if str_eq(ext.as_str(), "tsx") || str_eq(ext.as_str(), "jsx") {
        Some(SourceFileKind::ComponentModule)
    } else {
        None
    }
}

/// The name a component module's item goes by: the name its source
/// declares, or the file stem when it declares none (empty or the
/// `Component` default) or could not be extracted (then in PascalCase).
pub open spec fn module_item_name(declared: Option<Seq<char>>, stem: Seq<char>) -> Seq<char> {
    match declared {
        Some(n) => if n.len() == 0 || n == "Component"@ {
            stem
        } else {
            n
        },
        None => pascal(stem),
    }
}

/// Name the item a component module yields, from what extraction gave.
pub fn name_from_module(extracted: &Result<ComponentStructure, crate::traits::TransformError>, stem: &str) -> (r: String)
    ensures
        r@ == module_item_name(
            match extracted {
                Ok(s) => Some(s.name@),
                Err(_) => None,
            },
            stem@,
        ),
{
    proof {
        reveal_strlit("Component");
    }
    match extracted {
        Ok(s) => {
            let nv = chars_of(s.name.as_str());
            if nv.len() == 0 || str_eq(s.name.as_str(), "Component") {
                owned(stem)
            } else {
                owned(s.name.as_str())
            }
        },
        Err(_) => kebab_to_pascal(stem),
    }
}

/// The name a `.classes.ts` file's component goes by: its stem in
/// PascalCase (`context-menu.classes.ts` -> `ContextMenu`).
pub fn classes_file_item_name(filename: &str) -> (r: String)
    ensures
        r@ == pascal(if ends_with(filename@, ".classes.ts"@) {
            filename@.take(filename@.len() - 11)
        } else {
            "unknown"@
        }),
{
    proof {
        reveal_strlit(".classes.ts");
    }
    if str_ends_with(filename, ".classes.ts") {
        let v = chars_of(filename);
        let stem = crate::text::string_of(&v, 0, v.len() - 11);
        assert(v@.subrange(0, v@.len() - 11) =~= v@.take(v@.len() - 11));
        kebab_to_pascal(stem.as_str())
    } else {
        kebab_to_pascal("unknown")
    }
}

// ---------------------------------------------------------------------------
// The discovered set
// ---------------------------------------------------------------------------

/// Two sightings are of the same item when their folded names and kinds
/// agree.
pub open spec fn same_item(a: DiscoveredItem, b: DiscoveredItem) -> bool {
    folded(a.name@) == folded(b.name@) && a.kind == b.kind
}

/// The order items are reported in: by name, then components before
/// composites.
pub open spec fn item_lt(a: DiscoveredItem, b: DiscoveredItem) -> bool {
    ||| seq_lt(a.name@, b.name@)
    ||| a.name@ == b.name@ && a.kind == DiscoveredKind::Component && b.kind == DiscoveredKind::Composite
}

/// The index of the sighting of the same item as `x`, if any.
pub open spec fn sighting_of(s: Seq<DiscoveredItem>, x: DiscoveredItem) -> Option<int> {
    if exists|i: int| 0 <= i < s.len() && same_item(s[i], x) {
        Some(choose|i: int| 0 <= i < s.len() && same_item(s[i], x))
    } else {
        None
    }
}

/// The set after one more sighting: a new item is added; a generatable
/// sighting replaces a non-generatable one of the same item; otherwise
/// the first sighting is kept.
pub open spec fn record_sighting(s: Seq<DiscoveredItem>, x: DiscoveredItem) -> Seq<DiscoveredItem> {
    match sighting_of(s, x) {
        None => s.push(x),
        Some(i) => if !s[i].generated && x.generated {
            s.update(i, x)
        } else {
            s
        },
    }
}

/// `x` placed into the ordered `r`.
pub open spec fn insert_item(r: Seq<DiscoveredItem>, x: DiscoveredItem) -> Seq<DiscoveredItem>
    decreases r.len(),
{
    if r.len() == 0 {
        seq![x]
    } else if item_lt(r.last(), x) {
        r.push(x)
    } else {
        insert_item(r.drop_last(), x).push(r.last())
    }
}

/// The items in report order.
pub open spec fn sort_items(xs: Seq<DiscoveredItem>) -> Seq<DiscoveredItem>
    decreases xs.len(),
{
    if xs.len() == 0 {
        seq![]
    } else {
        insert_item(sort_items(xs.drop_last()), xs.last())
    }
}

/// No item of `s` is reported after one that it precedes.
pub open spec fn items_ordered(s: Seq<DiscoveredItem>) -> bool {
    forall|i: int, j: int| 0 <= i < j < s.len() ==> !item_lt(#[trigger] s[j], #[trigger] s[i])
}

/// The report order is irreflexive and transitive.
pub proof fn lemma_item_lt_order(a: DiscoveredItem, b: DiscoveredItem, c: DiscoveredItem)
    ensures
        !item_lt(a, a),
        item_lt(a, b) && item_lt(b, c) ==> item_lt(a, c),
{
    lemma_seq_lt_irreflexive(a.name@);
    if item_lt(a, b) && item_lt(b, c) {
        if seq_lt(a.name@, b.name@) && seq_lt(b.name@, c.name@) {
            lemma_seq_lt_transitive(a.name@, b.name@, c.name@);
        }
    }
}

/// Placing an item into an ordered list keeps it ordered and adds exactly
/// that item.
pub proof fn lemma_insert_item(r: Seq<DiscoveredItem>, x: DiscoveredItem)
    requires
        items_ordered(r),
    ensures
        items_ordered(insert_item(r, x)),
        insert_item(r, x).to_multiset() == r.to_multiset().insert(x),
    decreases r.len(),
{
    broadcast use vstd::seq_lib::group_to_multiset_ensures;

    if r.len() == 0 {
        assert(insert_item(r, x) =~= r.push(x));
    } else if item_lt(r.last(), x) {
        let s = r.push(x);
        assert forall|i: int, j: int| 0 <= i < j < s.len() implies !item_lt(#[trigger] s[j], #[trigger] s[i]) by {
            if j == r.len() {
                lemma_item_lt_order(r.last(), x, s[i]);
                lemma_item_lt_order(x, s[i], r.last());
                if i < r.len() - 1 {
                    assert(!item_lt(r[r.len() - 1], r[i]));
                }
            } else {
                assert(s[i] == r[i] && s[j] == r[j]);
            }
        }
    } else {
        let p = r.drop_last();
        let l = r.last();
        assert(items_ordered(p)) by {
            assert forall|i: int, j: int| 0 <= i < j < p.len() implies !item_lt(#[trigger] p[j], #[trigger] p[i]) by {
                assert(p[i] == r[i] && p[j] == r[j]);
            }
        }
        lemma_insert_item(p, x);
        let q = insert_item(p, x);
        let s = q.push(l);
        assert forall|i: int, j: int| 0 <= i < j < s.len() implies !item_lt(#[trigger] s[j], #[trigger] s[i]) by {
            if j == q.len() {
                let e = q[i];
                assert(q.to_multiset().count(e) > 0);
                if e != x {
                    assert(p.to_multiset().count(e) > 0);
                    assert(p.contains(e));
                    let k = choose|k: int| 0 <= k < p.len() && p[k] == e;
                    assert(!item_lt(r[r.len() - 1], r[k]));
                }
            } else {
                assert(s[i] == q[i] && s[j] == q[j]);
            }
        }
        assert(r =~= p.push(l));
        assert(s.to_multiset() =~= r.to_multiset().insert(x));
    }
}

/// The report order puts every item where it belongs and neither loses
/// nor adds one.
pub proof fn lemma_sort_items(xs: Seq<DiscoveredItem>)
    ensures
        items_ordered(sort_items(xs)),
        sort_items(xs).to_multiset() == xs.to_multiset(),
    decreases xs.len(),
{
    broadcast use vstd::seq_lib::group_to_multiset_ensures;

    if xs.len() > 0 {
        let p = xs.drop_last();
        lemma_sort_items(p);
        lemma_insert_item(sort_items(p), xs.last());
        assert(xs =~= p.push(xs.last()));
    } else {
        assert(xs.to_multiset() =~= vstd::multiset::Multiset::empty());
        assert(sort_items(xs).to_multiset() =~= vstd::multiset::Multiset::empty());
    }
}

/// The distinct items discovery has seen, each once.
#[derive(Debug)]
pub struct DiscoveredSet {
    items: Vec<DiscoveredItem>,
}

pub open spec fn items_distinct(s: Seq<DiscoveredItem>) -> bool {
    forall|i: int, j: int| 0 <= i < s.len() && 0 <= j < s.len() && i != j ==> !same_item(#[trigger] s[i], #[trigger] s[j])
}

impl View for DiscoveredSet {
    type V = Seq<DiscoveredItem>;

    /// The items in first-sighting order.
    closed spec fn view(&self) -> Seq<DiscoveredItem> {
        self.items@
    }
}

fn same_item_exec(a: &DiscoveredItem, b: &DiscoveredItem) -> (r: bool)
    ensures
        r == same_item(*a, *b),
{
    let fa = identity_fold(a.name.as_str());
    let fb = identity_fold(b.name.as_str());
    str_eq(fa.as_str(), fb.as_str()) && a.kind == b.kind
}

impl DiscoveredSet {
    #[verifier::type_invariant]
    spec fn distinct(self) -> bool {
        items_distinct(self.items@)
    }

    /// No items yet.
    pub fn new() -> (r: Self)
        ensures
            r@ == Seq::<DiscoveredItem>::empty(),
            items_distinct(r@),
    {
        DiscoveredSet { items: Vec::new() }
    }

    /// Record one sighting of an item, merging duplicates of the same
    /// (folded name, kind).
    pub fn record(&mut self, item: DiscoveredItem)
        ensures
            final(self)@ == record_sighting(old(self)@, item),
            items_distinct(final(self)@),
    {
        proof {
            use_type_invariant(&*self);
        }
        let ghost s0 = self.items@;
        let mut found: Option<usize> = None;
        let mut i: usize = 0;
        while i < self.items.len() && found.is_none()
            invariant
                i <= self.items@.len(),
                self.items@ == s0,
                found matches Some(k) ==> k < s0.len() && same_item(s0[k as int], item),
                found is None ==> forall|j: int| 0 <= j < i ==> !same_item(#[trigger] s0[j], item),
            decreases self.items@.len() - i + (if found is None { 1int } else { 0int }),
        {
            if same_item_exec(&self.items[i], &item) {
                found = Some(i);
            } else {
                i = i + 1;
            }
        }
        let mut items: Vec<DiscoveredItem> = Vec::new();
        std::mem::swap(&mut items, &mut self.items);
        match found {
            None => {
                assert(sighting_of(s0, item) is None);
                items.push(item);
                assert(items_distinct(items@));
            },
            Some(k) => {
                assert(same_item(s0[k as int], item));
                let ghost w = sighting_of(s0, item).unwrap();
                assert(w == k);
                if !items[k].generated && item.generated {
                    items.set(k, item);
                    assert(items_distinct(items@));
                }
            },
        }
        self.items = items;
    }

    /// The items, sorted by name (components before composites of the
    /// same name).
    pub fn into_sorted(self) -> (r: Vec<DiscoveredItem>)
        ensures
            r@ == sort_items(self@),
            items_ordered(r@),
            r@.to_multiset() == self@.to_multiset(),
    {
        proof {
            lemma_sort_items(self@);
        }
        let ghost xs = self.items@;
        let items = self.items;
        let mut out: Vec<DiscoveredItem> = Vec::new();
        let mut i: usize = 0;
        while i < items.len()
            invariant
                i <= items@.len(),
                items@ == xs,
                out@ == sort_items(xs.take(i as int)),
            decreases items@.len() - i,
        {
            assert(xs.take(i + 1).drop_last() =~= xs.take(i as int));
            insert_in_order(&mut out, items[i].clone_item());
            i = i + 1;
        }
        assert(xs.take(xs.len() as int) =~= xs);
        out
    }
}

impl DiscoveredItem {
    /// A copy of the item.
    pub fn clone_item(&self) -> (r: DiscoveredItem)
        ensures
            r == *self,
    {
        DiscoveredItem {
            name: self.name.clone(),
            kind: self.kind,
            source_path: self.source_path.clone(),
            generated: self.generated,
            unsupported_framework: match &self.unsupported_framework {
                Some(f) => Some(f.clone()),
                None => None,
            },
        }
    }
}

fn item_lt_exec(a: &DiscoveredItem, b: &DiscoveredItem) -> (r: bool)
    ensures
        r == item_lt(*a, *b),
{
    let an = chars_of(a.name.as_str());
    let bn = chars_of(b.name.as_str());
    str_lt(&an, &bn) || (crate::text::vec_eq(&an, &bn) && a.kind == DiscoveredKind::Component && b.kind
        == DiscoveredKind::Composite)
}

fn insert_in_order(r: &mut Vec<DiscoveredItem>, x: DiscoveredItem)
    ensures
        final(r)@ == insert_item(old(r)@, x),
{
    let ghost r0 = r@;
    let mut k = r.len();
    assert(r0.take(k as int) =~= r0);
    assert(r0.skip(k as int) =~= Seq::<DiscoveredItem>::empty());
    let mut stop = false;
    while k > 0 && !stop
        invariant
            k <= r@.len(),
            r@ == r0,
            insert_item(r0, x) == insert_item(r0.take(k as int), x) + r0.skip(k as int),
            stop ==> k > 0 && item_lt(r0[k - 1], x),
        decreases k + (if stop { 0int } else { 1int }),
    {
        if item_lt_exec(&r[k - 1], &x) {
            stop = true;
        } else {
            assert(r0.take(k as int).drop_last() =~= r0.take(k - 1));
            assert(r0.take(k as int).last() == r0[k - 1]);
            assert(insert_item(r0.take(k - 1), x).push(r0[k - 1]) + r0.skip(k as int) =~= insert_item(
                r0.take(k - 1),
                x,
            ) + r0.skip(k - 1));
            k = k - 1;
        }
    }
    assert(insert_item(r0.take(k as int), x) == r0.take(k as int).push(x)) by {
        if k > 0 {
            assert(r0.take(k as int).last() == r0[k - 1]);
        } else {
            assert(r0.take(0) =~= Seq::<DiscoveredItem>::empty());
        }
    }
    r.insert(k, x);
    assert(r@ =~= r0.take(k as int).push(x) + r0.skip(k as int));
}

// ---------------------------------------------------------------------------
// Reading a `.classes.ts` module's exports
// ---------------------------------------------------------------------------

/// The static classes of each property value of a nested object (under
/// type wrappers, when class-shaped and with any static class), in order.
pub open spec fn nested_parts(ps: Seq<TsProperty>) -> Seq<Seq<char>>
    decreases ps.len(),
{
    if ps.len() == 0 {
        seq![]
    } else {
        let rest = nested_parts(ps.drop_last());
        match ps.last() {
            TsProperty::Prop(_, v) => match template_value(unwrapped(v)) {
                Some(t) => {
                    let st = join(static_tokens(words(t)), seq![' ']);
                    if st.len() > 0 {
                        rest.push(st)
                    } else {
                        rest
                    }
                },
                None => rest,
            },
            TsProperty::Spread => rest,
        }
    }
}

/// Whether any property value of a nested object composes a class
/// dynamically.
pub open spec fn nested_has_pattern(ps: Seq<TsProperty>) -> bool
    decreases ps.len(),
{
    if ps.len() == 0 {
        false
    } else {
        nested_has_pattern(ps.drop_last()) || match ps.last() {
            TsProperty::Prop(_, v) => match template_value(unwrapped(v)) {
                Some(t) => hole_patterns(words(t)).len() > 0,
                None => false,
            },
            TsProperty::Spread => false,
        }
    }
}

/// A nested object's static classes, joined by spaces; `None` when it has
/// neither static nor dynamic classes, or is no object.
pub open spec fn nested_classes(e: TsExpr) -> Option<Seq<char>> {
    match e {
        TsExpr::Object(ps) => if nested_parts(ps@).len() == 0 && !nested_has_pattern(ps@) {
            None
        } else {
            Some(join(nested_parts(ps@), " "@))
        },
        _ => None,
    }
}

/// What one property value reads as: a static string, else a nested
/// object's classes, else nothing.
pub open spec fn prop_read(v: TsExpr) -> PropView {
    let x = unwrapped(v);
    match string_value(x) {
        Some(t) => PropView::Text(t),
        None => match nested_classes(x) {
            Some(t) => PropView::Nested(t),
            None => PropView::Unread,
        },
    }
}

/// The key of an exported object's property: a numeric key as it
/// displays, a plain or string key by its name.
pub open spec fn export_key(k: TsKey) -> Option<Seq<char>> {
    match k {
        TsKey::Number(n) => Some(n@),
        _ => key_name(k),
    }
}

/// What the properties with a readable key read as, in order.
pub open spec fn props_read(ps: Seq<TsProperty>) -> Seq<(Seq<char>, PropView)>
    decreases ps.len(),
{
    if ps.len() == 0 {
        seq![]
    } else {
        let rest = props_read(ps.drop_last());
        match ps.last() {
            TsProperty::Prop(k, v) => match export_key(k) {
                Some(n) => rest.push((n, prop_read(v))),
                None => rest,
            },
            TsProperty::Spread => rest,
        }
    }
}

/// The static strings of an array literal's elements, in order.
pub open spec fn array_strings(xs: Seq<TsElement>) -> Seq<Seq<char>>
    decreases xs.len(),
{
    if xs.len() == 0 {
        seq![]
    } else {
        let rest = array_strings(xs.drop_last());
        match xs.last() {
            TsElement::Expr(e) => match string_value(e) {
                Some(t) => rest.push(t),
                None => rest,
            },
            _ => rest,
        }
    }
}

/// What an exported constant's value reads as: an object's properties; a
/// static string; an array's static strings; those of an array joined by
/// `.join(...)`, with its string-literal separator; or nothing.
pub open spec fn expr_read(e: TsExpr) -> ReadView {
    match e {
        TsExpr::Object(ps) => ReadView::Object(props_read(ps@)),
        _ => match string_value(e) {
            Some(t) => ReadView::Text(t),
            None => match e {
                TsExpr::Array(xs) => ReadView::Array(array_strings(xs@)),
                TsExpr::Call(callee, args) => match *callee {
                    TsExpr::Member(obj, prop) => if prop@ == "join"@ {
                        match *obj {
                            TsExpr::Array(xs) => ReadView::Joined(array_strings(xs@), if args@.len() > 0 {
                                match args@[0] {
                                    TsArg::Str(s) => Some(s@),
                                    TsArg::Other => None,
                                }
                            } else {
                                None
                            }),
                            _ => ReadView::Unread,
                        }
                    } else {
                        ReadView::Unread
                    },
                    _ => ReadView::Unread,
                },
                _ => ReadView::Unread,
            },
        },
    }
}

fn nested_classes_exec(e: &TsExpr) -> (r: Option<String>)
    ensures
        opt_view(r) == nested_classes(*e),
{
    proof {
        reveal_strlit(" ");
    }
    match e {
        TsExpr::Object(ps) => {
            let mut parts: Vec<String> = Vec::new();
            let mut any_pattern = false;
            let mut i: usize = 0;
            while i < ps.len()
                invariant
                    i <= ps@.len(),
                    views(parts@) == nested_parts(ps@.take(i as int)),
                    any_pattern == nested_has_pattern(ps@.take(i as int)),
                decreases ps@.len() - i,
            {
                assert(ps@.take(i + 1).drop_last() =~= ps@.take(i as int));
                assert(ps@.take(i + 1).last() == ps@[i as int]);
                if let TsProperty::Prop(_, v) = &ps[i] {
                    if let Some(t) = template_value_exec(unwrap_expr(v)) {
                        let cv = class_value_of(t.as_str());
                        if cv.static_classes.as_str().unicode_len() > 0 {
                            let ghost p0 = views(parts@);
                            parts.push(cv.static_classes);
                            assert(views(parts@) =~= p0.push(join(static_tokens(words(t@)), seq![' '])));
                        }
                        if cv.patterns.len() > 0 {
                            any_pattern = true;
                        }
                    }
                }
                i = i + 1;
            }
            assert(ps@.take(ps@.len() as int) =~= ps@);
            if parts.len() == 0 && !any_pattern {
                None
            } else {
                Some(join_strings(parts.as_slice(), " "))
            }
        },
        _ => None,
    }
}

fn prop_read_exec(v: &TsExpr) -> (r: PropertyRead)
    ensures
        prop_view(r) == prop_read(*v),
{
    let x = unwrap_expr(v);
    match string_value_exec(x) {
        Some(t) => PropertyRead::Text(t),
        None => match nested_classes_exec(x) {
            Some(t) => PropertyRead::Nested(t),
            None => PropertyRead::Unread,
        },
    }
}

fn array_strings_exec(xs: &Vec<TsElement>) -> (r: Vec<String>)
    ensures
        views(r@) == array_strings(xs@),
{
    let mut r: Vec<String> = Vec::new();
    let mut i: usize = 0;
    while i < xs.len()
        invariant
            i <= xs@.len(),
            views(r@) == array_strings(xs@.take(i as int)),
        decreases xs@.len() - i,
    {
        assert(xs@.take(i + 1).drop_last() =~= xs@.take(i as int));
        assert(xs@.take(i + 1).last() == xs@[i as int]);
        if let TsElement::Expr(e) = &xs[i] {
            if let Some(t) = string_value_exec(e) {
                let ghost r0 = views(r@);
                r.push(t);
                assert(views(r@) =~= r0.push(t@));
            }
        }
        i = i + 1;
    }
    assert(xs@.take(xs@.len() as int) =~= xs@);
    r
}

/// What an exported constant's value reads as (see `expr_read`).
pub fn read_export_value(e: &TsExpr) -> (r: ExportRead)
    ensures
        read_view(r) == expr_read(*e),
{
    if let TsExpr::Object(ps) = e {
        let mut props: Vec<(String, PropertyRead)> = Vec::new();
        let mut i: usize = 0;
        while i < ps.len()
            invariant
                i <= ps@.len(),
                props_view(props@) == props_read(ps@.take(i as int)),
            decreases ps@.len() - i,
        {
            assert(ps@.take(i + 1).drop_last() =~= ps@.take(i as int));
            assert(ps@.take(i + 1).last() == ps@[i as int]);
            if let TsProperty::Prop(k, v) = &ps[i] {
                let key = match k {
                    TsKey::Number(n) => Some(owned(n.as_str())),
                    _ => key_name_exec(k),
                };
                if let Some(name) = key {
                    let read = prop_read_exec(v);
                    let ghost p0 = props_view(props@);
                    props.push((name, read));
                    assert(props_view(props@) =~= p0.push((name@, prop_view(read))));
                }
            }
            i = i + 1;
        }
        assert(ps@.take(ps@.len() as int) =~= ps@);
        return ExportRead::Object(props);
    }
    if let Some(t) = string_value_exec(e) {
        return ExportRead::Text(t);
    }
    match e {
        TsExpr::Array(xs) => ExportRead::Array(array_strings_exec(xs)),
        TsExpr::Call(callee, args) => {
            proof {
                reveal_strlit("join");
            }
            if let TsExpr::Member(obj, prop) = &**callee {
                if crate::text::str_eq(prop.as_str(), "join") {
                    if let TsExpr::Array(xs) = &**obj {
                        let sep = if args.len() > 0 {
                            match &args[0] {
                                TsArg::Str(s) => Some(owned(s.as_str())),
                                TsArg::Other => None,
                            }
                        } else {
                            None
                        };
                        return ExportRead::JoinedArray(array_strings_exec(xs), sep);
                    }
                }
            }
            ExportRead::Unread
        },
        _ => ExportRead::Unread,
    }
}

/// The shape of one exported constant named `name` with value `e`, when
/// it has one.
pub fn try_extract_export(name: &str, e: &TsExpr) -> (r: Option<DiscoveredExport>)
    ensures
        match r {
            Some(x) => export_read(name@, expr_read(*e)) == Some(export_view(x)),
            None => export_read(name@, expr_read(*e)) is None,
        },
{
    export_of(name, read_export_value(e))
}

/// The exports of the exported variable declarations, in order.
pub open spec fn exports_of(ss: Seq<TsStatement>) -> Seq<(Seq<char>, Result<Seq<(Seq<char>, Seq<char>)>, Seq<char>>)>
    decreases ss.len(),
{
    if ss.len() == 0 {
        seq![]
    } else {
        let rest = exports_of(ss.drop_last());
        match ss.last() {
            TsStatement::Variables(true, ds) => rest + declarator_exports(ds@),
            _ => rest,
        }
    }
}

/// The exports of declarators that bind a name to a value, in order.
pub open spec fn declarator_exports(ds: Seq<TsDeclarator>) -> Seq<(Seq<char>, Result<Seq<(Seq<char>, Seq<char>)>, Seq<char>>)>
    decreases ds.len(),
{
    if ds.len() == 0 {
        seq![]
    } else {
        let rest = declarator_exports(ds.drop_last());
        match (ds.last().name, ds.last().init) {
            (Some(n), Some(x)) => match export_read(n@, expr_read(unwrapped(x))) {
                Some(v) => rest.push(v),
                None => rest,
            },
            _ => rest,
        }
    }
}

pub open spec fn export_views(es: Seq<DiscoveredExport>) -> Seq<(Seq<char>, Result<Seq<(Seq<char>, Seq<char>)>, Seq<char>>)> {
    es.map_values(|e: DiscoveredExport| export_view(e))
}

/// Every `export const` of a `.classes.ts` module, by shape; empty when
/// the module does not parse cleanly.
pub fn discover_exports(source: &str) -> (r: Vec<DiscoveredExport>)
    ensures
        match parsed_module(source@, false) {
            Some(m) => if m.clean {
                export_views(r@) == exports_of(m.statements@)
            } else {
                r@.len() == 0
            },
            None => r@.len() == 0,
        },
{
    match parse_ts_module(source, false) {
        Some(m) => exports_of_module(&m),
        None => Vec::new(),
    }
}

/// Every `export const` of a parsed module, by shape: what each exported
/// declarator's value (under type wrappers) gives; none when the module did
/// not parse cleanly.
pub fn exports_of_module(m: &TsModule) -> (r: Vec<DiscoveredExport>)
    ensures
        m.clean ==> export_views(r@) == exports_of(m.statements@),
        !m.clean ==> r@.len() == 0,
{
    if !m.clean {
        return Vec::new();
    }
    let ss = &m.statements;
    let mut out: Vec<DiscoveredExport> = Vec::new();
    let mut i: usize = 0;
    while i < ss.len()
        invariant
            i <= ss@.len(),
            export_views(out@) == exports_of(ss@.take(i as int)),
        decreases ss@.len() - i,
    {
        assert(ss@.take(i + 1).drop_last() =~= ss@.take(i as int));
        if let TsStatement::Variables(exported, ds) = &ss[i] {
            if *exported {
                let ghost o0 = export_views(out@);
                let mut j: usize = 0;
                while j < ds.len()
                    invariant
                        j <= ds@.len(),
                        export_views(out@) == o0 + declarator_exports(ds@.take(j as int)),
                    decreases ds@.len() - j,
                {
                    assert(ds@.take(j + 1).drop_last() =~= ds@.take(j as int));
                    if let (Some(n), Some(x)) = (&ds[j].name, &ds[j].init) {
                        if let Some(found) = try_extract_export(n.as_str(), unwrap_expr(x)) {
                            let ghost before = export_views(out@);
                            out.push(found);
                            assert(export_views(out@) =~= before.push(export_view(found)));
                            assert(o0 + declarator_exports(ds@.take(j + 1)) =~= (o0 + declarator_exports(
                                ds@.take(j as int),
                            )).push(export_view(found)));
                        }
                    }
                    j = j + 1;
                }
                assert(ds@.take(ds@.len() as int) =~= ds@);
            }
        }
        i = i + 1;
    }
    assert(ss@.take(ss@.len() as int) =~= ss@);
    out
}

// ---------------------------------------------------------------------------
// Extracting one candidate source file
// ---------------------------------------------------------------------------

/// `build_step` over an export's name and shape as plain values.
pub open spec fn build_step_view(st: BuildState, role: ExportRole, shape: Result<Seq<(Seq<char>, Seq<char>)>, Seq<char>>) -> BuildState {
    match shape {
        Ok(es) => match role {
            ExportRole::Variant => if st.variants.len() == 0 {
                BuildState { variants: es, ..st }
            } else {
                BuildState { extra: st.extra + values_of(es), ..st }
            },
            ExportRole::Size => if st.sizes.len() == 0 {
                BuildState { sizes: es, ..st }
            } else {
                BuildState { extra: st.extra + values_of(es), ..st }
            },
            ExportRole::Base => BuildState { base: st.base + nonempty(values_of(es)), ..st },
            ExportRole::Disabled => {
                let combined = join(nonempty(values_of(es)), " "@);
                if combined.len() > 0 {
                    BuildState { disabled: Some(combined), ..st }
                } else {
                    st
                }
            },
            ExportRole::Other => BuildState { extra: st.extra + nonempty(values_of(es)), ..st },
        },
        Err(value) => match role {
            ExportRole::Base => BuildState { base: st.base.push(value), ..st },
            ExportRole::Disabled => BuildState { disabled: Some(value), ..st },
            _ => if value.len() > 0 {
                BuildState { base: st.base.push(value), ..st }
            } else {
                st
            },
        },
    }
}

/// `build_over` over exports as plain values.
pub open spec fn build_over_views(es: Seq<(Seq<char>, Result<Seq<(Seq<char>, Seq<char>)>, Seq<char>>)>) -> BuildState
    decreases es.len(),
{
    if es.len() == 0 {
        BuildState { variants: seq![], sizes: seq![], base: seq![], disabled: None, extra: seq![] }
    } else {
        build_step_view(build_over_views(es.drop_last()), role_of(str_lower(es.last().0)), es.last().1)
    }
}

proof fn lemma_build_over_views(es: Seq<DiscoveredExport>)
    ensures
        build_over(es) == build_over_views(export_views(es)),
    decreases es.len(),
{
    if es.len() > 0 {
        lemma_build_over_views(es.drop_last());
        assert(export_views(es.drop_last()) =~= export_views(es).drop_last());
    }
}

/// The exports a `.classes.ts` source gives: those of its clean TypeScript
/// parse; none otherwise.
pub open spec fn classes_exports(source: Seq<char>) -> Seq<(Seq<char>, Result<Seq<(Seq<char>, Seq<char>)>, Seq<char>>)> {
    match parsed_module(source, false) {
        Some(m) => if m.clean {
            exports_of(m.statements@)
        } else {
            seq![]
        },
        None => seq![],
    }
}

/// What `std::path::Path::file_stem` gives for a path, as UTF-8.
pub uninterp spec fn path_stem(path: Seq<char>) -> Option<Seq<char>>;

/// What `std::path::Path::file_name` gives for a path, as UTF-8.
pub uninterp spec fn path_file_name(path: Seq<char>) -> Option<Seq<char>>;

/// `std::path::Path::file_stem` of `path`, when it has one that is UTF-8.
/// The contract only names the result.
#[verifier::external_body]
fn file_stem(path: &str) -> (r: Option<String>)
    ensures
        crate::react::opt_view(r) == path_stem(path@),
{
    std::path::Path::new(path).file_stem().and_then(|s| s.to_str()).map(|s| s.to_string())
}

/// `std::path::Path::file_name` of `path`, when it has one that is UTF-8.
/// The contract only names the result.
#[verifier::external_body]
fn file_name(path: &str) -> (r: Option<String>)
    ensures
        crate::react::opt_view(r) == path_file_name(path@),
{
    std::path::Path::new(path).file_name().and_then(|s| s.to_str()).map(|s| s.to_string())
}

/// The stem a module item is named after when it declares no name.
pub open spec fn stem_or_unknown(path: Seq<char>) -> Seq<char> {
    match path_stem(path) {
        Some(s) => s,
        None => "unknown"@,
    }
}

/// What extracting a candidate file gives, by its kind: a `.classes.ts`
/// file is named after its file name and built from its exports (no
/// structure is `MissingVariants`); a component module is extracted from
/// its TSX parse and named after the component it declares or its stem.
pub open spec fn extracted(
    kind: SourceFileKind,
    filename: Seq<char>,
    path: Seq<char>,
    source: Seq<char>,
    r: (String, Result<ComponentStructure, TransformError>),
) -> bool {
    match kind {
        SourceFileKind::ClassesTs => {
            &&& r.0@ == pascal(if ends_with(filename, ".classes.ts"@) {
                filename.take(filename.len() - 11)
            } else {
                "unknown"@
            })
            &&& built_structure(r.0@, classes_exports(source).len() == 0, build_over_views(classes_exports(source)),
                match r.1 {
                    Ok(s) => Some(s),
                    Err(_) => None,
                })
            &&& (r.1 is Err ==> r.1 matches Err(TransformError::MissingVariants))
        },
        SourceFileKind::ComponentModule => {
            &&& match parsed_module(source, true) {
                None => r.1 matches Err(TransformError::ParseError(msg)) && msg@
                    == "oxc parser panicked while parsing source"@,
                Some(m) => crate::react::structure_matches(crate::react::module_decls(m.statements@), r.1),
            }
            &&& r.0@ == module_item_name(match r.1 {
                Ok(s) => Some(s.name@),
                Err(_) => None,
            }, stem_or_unknown(path))
        },
    }
}

/// The declared name of a candidate source file and its structure, or the
/// reason nothing is generatable from it.
pub fn extract_from_source(file_kind: SourceFileKind, filename: &str, path: &str, source: &str) -> (r: (
    String,
    Result<ComponentStructure, TransformError>,
))
    ensures
        extracted(file_kind, filename@, path@, source@, r),
{
    match file_kind {
        SourceFileKind::ClassesTs => {
            let name = classes_file_item_name(filename);
            let exports = discover_exports(source);
            proof {
                lemma_build_over_views(exports@);
            }
            let structure = match build_structure_from_exports(name.as_str(), exports) {
                Some(s) => Ok(s),
                None => Err(TransformError::MissingVariants),
            };
            (name, structure)
        },
        SourceFileKind::ComponentModule => {
            let structure = crate::react::extract_structure(source);
            let stem = match file_stem(path) {
                Some(s) => s,
                None => owned("unknown"),
            };
            (name_from_module(&structure, stem.as_str()), structure)
        },
    }
}

/// Classify and extract one source file; `None` when its file name is no
/// component source candidate.
pub fn extract_component_candidate(path: &str, source: &str) -> (r: Option<(String, Result<ComponentStructure, TransformError>)>)
    ensures
        match path_file_name(path@) {
            None => r is None,
            Some(f) => match file_kind_of(f) {
                None => r is None,
                Some(k) => r matches Some(x) && extracted(k, f, path@, source@, x),
            },
        },
{
    let filename = match file_name(path) {
        Some(f) => f,
        None => {
            return None;
        },
    };
    match candidate_file_kind(filename.as_str()) {
        Some(kind) => Some(extract_from_source(kind, filename.as_str(), path, source)),
        None => None,
    }
}

/// Whether `std::path::Path::starts_with` holds of `path` and `root`
/// (whole components, not characters).
pub uninterp spec fn path_under(path: Seq<char>, root: Seq<char>) -> bool;

/// `std::path::Path::starts_with`: whether `root`'s components begin
/// `path`'s. The contract only names the result.
#[verifier::external_body]
fn starts_with_path(path: &str, root: &str) -> (b: bool)
    ensures
        b == path_under(path@, root@),
{
    std::path::Path::new(path).starts_with(root)
}

/// The item a sighting of a candidate source file gives: named `name` (as
/// extraction named it), a composite when the file lies under the declared
/// composites root and a component otherwise, and generated exactly when
/// extraction gave a structure.
pub fn source_sighting(name: String, source_path: &str, composites_root: Option<&str>, generated: bool) -> (r: DiscoveredItem)
    ensures
        r.name == name,
        r.source_path@ == source_path@,
        r.generated == generated,
        r.unsupported_framework is None,
        r.kind == (match composites_root {
            Some(root) => if path_under(source_path@, root@) {
                DiscoveredKind::Composite
            } else {
                DiscoveredKind::Component
            },
            None => DiscoveredKind::Component,
        }),
{
    let kind = match composites_root {
        Some(root) => if starts_with_path(source_path, root) {
            DiscoveredKind::Composite
        } else {
            DiscoveredKind::Component
        },
        None => DiscoveredKind::Component,
    };
    DiscoveredItem { name, kind, source_path: owned(source_path), generated, unsupported_framework: None }
}

} // verus!
