//! React/JSX adapter: the component structure extraction yields and the
//! adapter that turns it into a Web Component.

use vstd::prelude::*;
use vstd::string::*;
use crate::text::{
    chars_of, extend_strings_unique, extend_unique, lemma_extend_unique, lemma_extend_unique_contains, push_unique, split_whitespace, views, words,
};
use crate::traits::{FrameworkAdapter, TransformContext, TransformError, TransformedBlock};
use crate::generator::web_component;
use crate::scope::shadow_css;
use crate::ts_syntax::{parse_ts_module, parsed_module, TsDeclarator, TsExpr, TsKey, TsModule, TsPropSig, TsStatement};
use crate::ts_read::{opt_pairs, is_function_expr, object_entries, object_entries_exec, static_text, static_text_exec, unwrap_expr, unwrapped};

verus! {

/// Extracted component structure from source code.
#[derive(Debug, Clone)]
pub struct ComponentStructure {
    /// Component name (e.g., "Button")
    pub name: String,
    /// Variant classes mapping
    pub variant_lookup: Vec<(String, String)>,
    /// Size classes mapping
    pub size_lookup: Vec<(String, String)>,
    /// Base classes applied to all variants
    pub base_classes: String,
    /// Classes applied when disabled
    pub disabled_classes: String,
    /// Default variant value
    pub default_variant: String,
    /// Default size value
    pub default_size: String,
    /// Observed attributes from props
    pub observed_attributes: Vec<String>,
    /// `prefix*` patterns for classes the component composes at render.
    pub dynamic_class_patterns: Vec<String>,
}

/// The character sequences of a list of string pairs.
pub open spec fn pair_views(v: Seq<(String, String)>) -> Seq<(Seq<char>, Seq<char>)> {
    v.map_values(|p: (String, String)| (p.0@, p.1@))
}

/// The classes of each pair's value, word by word, appended without repeats.
pub open spec fn extend_with_values(acc: Seq<Seq<char>>, pairs: Seq<(Seq<char>, Seq<char>)>) -> Seq<Seq<char>>
    decreases pairs.len(),
{
    if pairs.len() == 0 {
        acc
    } else {
        extend_unique(extend_with_values(acc, pairs.drop_last()), words(pairs.last().1))
    }
}

/// Every class the structure uses, first occurrence first: base classes,
/// variant classes, size classes, disabled classes, then the dynamic
/// patterns.
pub open spec fn all_classes(s: ComponentStructure) -> Seq<Seq<char>> {
    let base = extend_unique(seq![], words(s.base_classes@));
    let variants = extend_with_values(base, pair_views(s.variant_lookup@));
    let sizes = extend_with_values(variants, pair_views(s.size_lookup@));
    let disabled = extend_unique(sizes, words(s.disabled_classes@));
    extend_unique(disabled, views(s.dynamic_class_patterns@))
}

proof fn lemma_extend_with_values_contains(acc: Seq<Seq<char>>, pairs: Seq<(Seq<char>, Seq<char>)>)
    ensures
        forall|x: Seq<char>| acc.contains(x) ==> #[trigger] extend_with_values(acc, pairs).contains(x),
        forall|k: int, w: Seq<char>| 0 <= k < pairs.len() && #[trigger] words(pairs[k].1).contains(w)
            ==> extend_with_values(acc, pairs).contains(w),
    decreases pairs.len(),
{
    if pairs.len() > 0 {
        let init = pairs.drop_last();
        lemma_extend_with_values_contains(acc, init);
        let e = extend_with_values(acc, init);
        lemma_extend_unique_contains(e, words(pairs.last().1));
        assert forall|k: int, w: Seq<char>| 0 <= k < pairs.len() && #[trigger] words(pairs[k].1).contains(w)
            implies extend_with_values(acc, pairs).contains(w) by {
            if k < pairs.len() - 1 {
                assert(init[k] == pairs[k]);
                assert(e.contains(w));
            } else {
                let j = choose|j: int| 0 <= j < words(pairs.last().1).len() && words(pairs.last().1)[j] == w;
                assert(extend_unique(e, words(pairs.last().1)).contains(words(pairs.last().1)[j]));
            }
        }
    }
}

/// Every class a structure names is among its classes, once: each word of
/// its base classes, of each variant and size value and of its disabled
/// classes, and each dynamic pattern; and no class is listed twice.
pub proof fn lemma_all_classes_cover(s: ComponentStructure)
    ensures
        all_classes(s).no_duplicates(),
        forall|w: Seq<char>| #[trigger] words(s.base_classes@).contains(w) ==> all_classes(s).contains(w),
        forall|k: int, w: Seq<char>| 0 <= k < s.variant_lookup@.len() && #[trigger] words(s.variant_lookup@[k].1@).contains(w)
            ==> all_classes(s).contains(w),
        forall|k: int, w: Seq<char>| 0 <= k < s.size_lookup@.len() && #[trigger] words(s.size_lookup@[k].1@).contains(w)
            ==> all_classes(s).contains(w),
        forall|w: Seq<char>| #[trigger] words(s.disabled_classes@).contains(w) ==> all_classes(s).contains(w),
        forall|k: int| 0 <= k < s.dynamic_class_patterns@.len() ==> all_classes(s).contains(
            #[trigger] s.dynamic_class_patterns@[k]@,
        ),
{
    let e: Seq<Seq<char>> = seq![];
    let base = extend_unique(e, words(s.base_classes@));
    let vp = pair_views(s.variant_lookup@);
    let sp = pair_views(s.size_lookup@);
    let variants = extend_with_values(base, vp);
    let sizes = extend_with_values(variants, sp);
    let dw = words(s.disabled_classes@);
    let disabled = extend_unique(sizes, dw);
    let dyn_ = views(s.dynamic_class_patterns@);
    lemma_extend_unique_contains(e, words(s.base_classes@));
    lemma_extend_with_values_contains(base, vp);
    lemma_extend_with_values_contains(variants, sp);
    lemma_extend_unique_contains(sizes, dw);
    lemma_extend_unique_contains(disabled, dyn_);
    lemma_no_dup_values(base, vp);
    lemma_no_dup_values(variants, sp);
    lemma_extend_unique(e, words(s.base_classes@));
    lemma_extend_unique(sizes, dw);
    lemma_extend_unique(disabled, dyn_);
    assert forall|w: Seq<char>| #[trigger] words(s.base_classes@).contains(w) implies all_classes(s).contains(w) by {
        let j = choose|j: int| 0 <= j < words(s.base_classes@).len() && words(s.base_classes@)[j] == w;
        assert(base.contains(words(s.base_classes@)[j]));
    }
    assert forall|k: int, w: Seq<char>| 0 <= k < s.variant_lookup@.len() && #[trigger] words(
        s.variant_lookup@[k].1@,
    ).contains(w) implies all_classes(s).contains(w) by {
        assert(vp[k].1 == s.variant_lookup@[k].1@);
        assert(variants.contains(w));
    }
    assert forall|k: int, w: Seq<char>| 0 <= k < s.size_lookup@.len() && #[trigger] words(
        s.size_lookup@[k].1@,
    ).contains(w) implies all_classes(s).contains(w) by {
        assert(sp[k].1 == s.size_lookup@[k].1@);
        assert(sizes.contains(w));
    }
    assert forall|w: Seq<char>| #[trigger] words(s.disabled_classes@).contains(w) implies all_classes(s).contains(w) by {
        let j = choose|j: int| 0 <= j < dw.len() && dw[j] == w;
        assert(disabled.contains(dw[j]));
    }
    assert forall|k: int| 0 <= k < s.dynamic_class_patterns@.len() implies all_classes(s).contains(
        #[trigger] s.dynamic_class_patterns@[k]@,
    ) by {
        assert(dyn_[k] == s.dynamic_class_patterns@[k]@);
    }
}

proof fn lemma_no_dup_values(acc: Seq<Seq<char>>, pairs: Seq<(Seq<char>, Seq<char>)>)
    ensures
        acc.no_duplicates() ==> extend_with_values(acc, pairs).no_duplicates(),
    decreases pairs.len(),
{
    if pairs.len() > 0 {
        lemma_no_dup_values(acc, pairs.drop_last());
        lemma_extend_unique(extend_with_values(acc, pairs.drop_last()), words(pairs.last().1));
    }
}

fn extend_with_words(out: &mut Vec<String>, text: &str)
    ensures
        views(final(out)@) == extend_unique(views(old(out)@), words(text@)),
{
    let v = chars_of(text);
    let ws = split_whitespace(&v);
    extend_strings_unique(out, &ws);
}

fn extend_with_pair_values(out: &mut Vec<String>, pairs: &Vec<(String, String)>)
    ensures
        views(final(out)@) == extend_with_values(views(old(out)@), pair_views(pairs@)),
{
    let ghost pv = pair_views(pairs@);
    let mut i: usize = 0;
    while i < pairs.len()
        invariant
            i <= pairs@.len(),
            pv == pair_views(pairs@),
            views(out@) == extend_with_values(views(old(out)@), pv.take(i as int)),
        decreases pairs@.len() - i,
    {
        extend_with_words(out, pairs[i].1.as_str());
        assert(pv.take(i + 1).drop_last() =~= pv.take(i as int));
        i = i + 1;
    }
    assert(pv.take(pairs@.len() as int) =~= pv);
}

impl ComponentStructure {
    /// Every class the structure uses, without repeats, in first-use order.
    pub fn collect_all_classes(&self) -> (r: Vec<String>)
        ensures
            views(r@) == all_classes(*self),
    {
        let mut out: Vec<String> = Vec::new();
        assert(views(out@) =~= Seq::<Seq<char>>::empty());
        extend_with_words(&mut out, self.base_classes.as_str());
        extend_with_pair_values(&mut out, &self.variant_lookup);
        extend_with_pair_values(&mut out, &self.size_lookup);
        extend_with_words(&mut out, self.disabled_classes.as_str());
        extend_strings_unique(&mut out, &self.dynamic_class_patterns);
        out
    }
}

/// React/JSX to Web Component adapter.
#[derive(Debug, Default)]
pub struct ReactAdapter;

impl ReactAdapter {
    /// Create a new React adapter.
    pub fn new() -> (r: Self)
        ensures
            r == ReactAdapter,
    {
        ReactAdapter
    }
}

impl FrameworkAdapter for ReactAdapter {
    fn name(&self) -> (r: &'static str)
        ensures
            r@ == "react"@,
    {
        "react"
    }

    fn extensions(&self) -> (r: Vec<&'static str>)
        ensures
            r@.len() == 2,
            r@[0]@ == "tsx"@,
            r@[1]@ == "jsx"@,
    {
        vec!["tsx", "jsx"]
    }

    /// The structure's Web Component with CSS scoped from the context's
    /// stylesheet; a failure to scope is a `RenderFailed` naming it.
    fn transform(
        &self,
        structure: &ComponentStructure,
        tag_name: &str,
        ctx: &TransformContext,
    ) -> (r: Result<TransformedBlock, TransformError>)
        ensures
            match r {
                Ok(b) => {
                    &&& shadow_css(structure.name@, all_classes(*structure), ctx.stylesheet@) matches Ok((css, _))
                    &&& b.web_component@ == web_component(tag_name@, *structure, css)
                    &&& b.tag_name@ == tag_name@
                    &&& views(b.classes_used@) == all_classes(*structure)
                    &&& b.attributes@ == structure.observed_attributes@
                },
                Err(e) => {
                    &&& shadow_css(structure.name@, all_classes(*structure), ctx.stylesheet@) is Err
                    &&& e matches TransformError::RenderFailed { component, .. }
                    &&& component@ == structure.name@
                },
            },
    {
        match crate::generator::scoped_web_component_block(tag_name, structure, ctx.stylesheet.as_str()) {
            Ok((block, _unmatched)) => Ok(block),
            Err(e) => Err(e),
        }
    }
}

/// The structure that extraction yields from what it collected: no variant
/// lookup is `MissingVariants`; otherwise the first variant and size keys
/// are the defaults (`default` without sizes), the name defaults to
/// `Component`, the base classes to none and the disabled classes to the
/// standard disabled look.
pub fn assemble_structure(
    variant_lookup: Vec<(String, String)>,
    size_lookup: Vec<(String, String)>,
    base_classes: Option<String>,
    disabled_classes: Option<String>,
    component_name: Option<String>,
    observed_attributes: Vec<String>,
    dynamic_class_patterns: Vec<String>,
) -> (r: Result<ComponentStructure, TransformError>)
    ensures
        variant_lookup@.len() == 0 <==> r is Err,
        r is Err ==> r matches Err(TransformError::MissingVariants),
        r matches Ok(s) ==> {
            &&& s.name@ == (match component_name {
                Some(n) => n@,
                None => "Component"@,
            })
            &&& s.variant_lookup@ == variant_lookup@
            &&& s.size_lookup@ == size_lookup@
            &&& s.base_classes@ == (match base_classes {
                Some(b) => b@,
                None => Seq::<char>::empty(),
            })
            &&& s.disabled_classes@ == (match disabled_classes {
                Some(d) => d@,
                None => "opacity-50 pointer-events-none cursor-not-allowed"@,
            })
            &&& s.default_variant@ == variant_lookup@[0].0@
            &&& s.default_size@ == (if size_lookup@.len() > 0 {
                size_lookup@[0].0@
            } else {
                "default"@
            })
            &&& s.observed_attributes@ == observed_attributes@
            &&& s.dynamic_class_patterns@ == dynamic_class_patterns@
        },
{
    if variant_lookup.len() == 0 {
        return Err(TransformError::MissingVariants);
    }
    let default_variant = variant_lookup[0].0.clone();
    let default_size = if size_lookup.len() > 0 {
        size_lookup[0].0.clone()
    } else {
        crate::text::owned("default")
    };
    let name = match component_name {
        Some(n) => n,
        None => crate::text::owned("Component"),
    };
    let base_classes = match base_classes {
        Some(b) => b,
        None => String::new(),
    };
    let disabled_classes = match disabled_classes {
        Some(d) => d,
        None => crate::text::owned("opacity-50 pointer-events-none cursor-not-allowed"),
    };
    Ok(ComponentStructure {
        name,
        variant_lookup,
        size_lookup,
        base_classes,
        disabled_classes,
        default_variant,
        default_size,
        observed_attributes,
        dynamic_class_patterns,
    })
}

/// Check if a string is PascalCase (starts with an ASCII upper-case letter).
pub fn is_pascal_case(s: &str) -> (b: bool)
    ensures
        b == (s@.len() > 0 && crate::text::is_ascii_upper(s@[0])),
{
    let v = chars_of(s);
    v.len() > 0 && 'A' <= v[0] && v[0] <= 'Z'
}

/// Determine if an attribute name should be included in observed attributes.
/// Excludes React-specific props that have no Web Component equivalent.
pub fn should_include_attribute(name: &str) -> (b: bool)
    ensures
        b == (name@.len() > 0 && name@ != "children"@ && name@ != "className"@ && name@
            != "style"@),
{
    let v = chars_of(name);
    v.len() > 0 && !crate::text::str_eq(name, "children") && !crate::text::str_eq(name, "className")
        && !crate::text::str_eq(name, "style")
}


/// What a component module's top-level declarations have given so far, as
/// the module is read statement by statement.
#[derive(Debug)]
pub struct ModuleDeclarations {
    pub variant_lookup: Vec<(String, String)>,
    pub size_lookup: Vec<(String, String)>,
    pub base_classes: Option<String>,
    pub disabled_classes: Option<String>,
    pub component_name: Option<String>,
    pub observed_attributes: Vec<String>,
}

/// The component name after seeing a declaration named `name`: the first
/// PascalCase one wins.
pub open spec fn named_after(current: Option<Seq<char>>, name: Seq<char>) -> Option<Seq<char>> {
    if current is None && name.len() > 0 && crate::text::is_ascii_upper(name[0]) {
        Some(name)
    } else {
        current
    }
}

pub open spec fn opt_view(o: Option<String>) -> Option<Seq<char>> {
    match o {
        Some(s) => Some(s@),
        None => None,
    }
}

/// A declaration's value, as the reader saw it: its object entries whose
/// values are static strings (when it is an object), its static string
/// (when it is one), and whether it is a function.
pub struct DeclaredValue {
    pub entries: Option<Vec<(String, String)>>,
    pub text: Option<String>,
    pub is_function: bool,
}

impl ModuleDeclarations {
    /// Nothing declared yet.
    pub fn new() -> (r: Self)
        ensures
            r.variant_lookup@.len() == 0,
            r.size_lookup@.len() == 0,
            r.base_classes is None,
            r.disabled_classes is None,
            r.component_name is None,
            r.observed_attributes@.len() == 0,
    {
        ModuleDeclarations {
            variant_lookup: Vec::new(),
            size_lookup: Vec::new(),
            base_classes: None,
            disabled_classes: None,
            component_name: None,
            observed_attributes: Vec::new(),
        }
    }

    /// A function or component declaration named `name`.
    pub fn name_component(&mut self, name: &str)
        ensures
            opt_view(final(self).component_name) == named_after(opt_view(old(self).component_name), name@),
            final(self).variant_lookup == old(self).variant_lookup,
            final(self).size_lookup == old(self).size_lookup,
            final(self).base_classes == old(self).base_classes,
            final(self).disabled_classes == old(self).disabled_classes,
            final(self).observed_attributes == old(self).observed_attributes,
    {
        if self.component_name.is_none() && is_pascal_case(name) {
            self.component_name = Some(crate::text::owned(name));
        }
    }

    /// A prop the component declares: kept once, unless React-only.
    pub fn add_attribute(&mut self, name: &str)
        ensures
            views(final(self).observed_attributes@) == (if should_include(name@) && !views(
                old(self).observed_attributes@,
            ).contains(name@) {
                views(old(self).observed_attributes@).push(name@)
            } else {
                views(old(self).observed_attributes@)
            }),
            final(self).variant_lookup == old(self).variant_lookup,
            final(self).size_lookup == old(self).size_lookup,
            final(self).base_classes == old(self).base_classes,
            final(self).disabled_classes == old(self).disabled_classes,
            final(self).component_name == old(self).component_name,
    {
        if should_include_attribute(name) && !crate::text::contains_string(&self.observed_attributes, name) {
            let ghost before = self.observed_attributes@;
            self.observed_attributes.push(crate::text::owned(name));
            assert(views(self.observed_attributes@) =~= views(before).push(name@));
        }
    }

    /// A variable declared as `name = value`: `variantClasses` and
    /// `sizeClasses` objects give the lookups, `baseClasses` (white space
    /// normalized) and `disabledClasses` / `disabledCls` static strings give
    /// those classes, and any other function-valued name may name the
    /// component.
    pub fn record_variable(&mut self, name: &str, value: DeclaredValue)
        ensures
            final(self).variant_lookup == (if name@ == "variantClasses"@ && value.entries is Some {
                value.entries.unwrap()
            } else {
                old(self).variant_lookup
            }),
            final(self).size_lookup == (if name@ == "sizeClasses"@ && value.entries is Some {
                value.entries.unwrap()
            } else {
                old(self).size_lookup
            }),
            opt_view(final(self).base_classes) == (if name@ == "baseClasses"@ && value.text is Some {
                Some(crate::text::normalize_ws(value.text.unwrap()@))
            } else {
                opt_view(old(self).base_classes)
            }),
            final(self).disabled_classes == (if (name@ == "disabledClasses"@ || name@ == "disabledCls"@)
                && value.text is Some {
                value.text
            } else {
                old(self).disabled_classes
            }),
            opt_view(final(self).component_name) == (if name@ != "variantClasses"@ && name@ != "sizeClasses"@
                && name@ != "baseClasses"@ && name@ != "disabledClasses"@ && name@ != "disabledCls"@
                && value.is_function {
                named_after(opt_view(old(self).component_name), name@)
            } else {
                opt_view(old(self).component_name)
            }),
            final(self).observed_attributes == old(self).observed_attributes,
    {
        proof {
            reveal_strlit("variantClasses");
            reveal_strlit("sizeClasses");
            reveal_strlit("baseClasses");
            reveal_strlit("disabledClasses");
            reveal_strlit("disabledCls");
        }
        if crate::text::str_eq(name, "variantClasses") {
            if let Some(e) = value.entries {
                self.variant_lookup = e;
            }
        } else if crate::text::str_eq(name, "sizeClasses") {
            if let Some(e) = value.entries {
                self.size_lookup = e;
            }
        } else if crate::text::str_eq(name, "baseClasses") {
            if let Some(t) = value.text {
                self.base_classes = Some(crate::text::normalize_whitespace(t.as_str()));
            }
        } else if crate::text::str_eq(name, "disabledClasses") || crate::text::str_eq(name, "disabledCls") {
            if value.text.is_some() {
                self.disabled_classes = value.text;
            }
        } else if value.is_function {
            self.name_component(name);
        }
    }

    /// The component structure the declarations give; an error when no
    /// variant record was declared.
    pub fn into_structure(self) -> (r: Result<ComponentStructure, TransformError>)
        ensures
            self.variant_lookup@.len() == 0 <==> r is Err,
            r is Err ==> r matches Err(TransformError::MissingVariants),
            r matches Ok(s) ==> {
                &&& s.name@ == (match self.component_name {
                    Some(n) => n@,
                    None => "Component"@,
                })
                &&& s.variant_lookup@ == self.variant_lookup@
                &&& s.size_lookup@ == self.size_lookup@
                &&& s.base_classes@ == (match self.base_classes {
                    Some(b) => b@,
                    None => Seq::<char>::empty(),
                })
                &&& s.disabled_classes@ == (match self.disabled_classes {
                    Some(d) => d@,
                    None => "opacity-50 pointer-events-none cursor-not-allowed"@,
                })
                &&& s.default_variant@ == self.variant_lookup@[0].0@
                &&& s.default_size@ == (if self.size_lookup@.len() > 0 {
                    self.size_lookup@[0].0@
                } else {
                    "default"@
                })
                &&& s.observed_attributes@ == self.observed_attributes@
                &&& s.dynamic_class_patterns@.len() == 0
            },
    {
        assemble_structure(
            self.variant_lookup,
            self.size_lookup,
            self.base_classes,
            self.disabled_classes,
            self.component_name,
            self.observed_attributes,
            Vec::new(),
        )
    }
}

/// The attribute filter: non-empty, and not one of React's own props.
pub open spec fn should_include(name: Seq<char>) -> bool {
    name.len() > 0 && name != "children"@ && name != "className"@ && name != "style"@
}

// ---------------------------------------------------------------------------
// Reading a component module
// ---------------------------------------------------------------------------

/// What a module's declarations have given, as values: the variant and
/// size records, the base and disabled classes, the component name and the
/// observed attributes.
pub struct DeclView {
    pub variants: Seq<(Seq<char>, Seq<char>)>,
    pub sizes: Seq<(Seq<char>, Seq<char>)>,
    pub base: Option<Seq<char>>,
    pub disabled: Option<Seq<char>>,
    pub name: Option<Seq<char>>,
    pub attrs: Seq<Seq<char>>,
}

pub open spec fn decl_view(d: ModuleDeclarations) -> DeclView {
    DeclView {
        variants: pair_views(d.variant_lookup@),
        sizes: pair_views(d.size_lookup@),
        base: opt_view(d.base_classes),
        disabled: opt_view(d.disabled_classes),
        name: opt_view(d.component_name),
        attrs: views(d.observed_attributes@),
    }
}

/// Nothing declared.
pub open spec fn no_decls() -> DeclView {
    DeclView { variants: seq![], sizes: seq![], base: None, disabled: None, name: None, attrs: seq![] }
}

/// After a function or component named `n`.
pub open spec fn name_step(v: DeclView, n: Seq<char>) -> DeclView {
    DeclView { name: named_after(v.name, n), ..v }
}

/// After a prop named `a`: kept once, unless React-only.
pub open spec fn attr_step(v: DeclView, a: Seq<char>) -> DeclView {
    if should_include(a) && !v.attrs.contains(a) {
        DeclView { attrs: v.attrs.push(a), ..v }
    } else {
        v
    }
}

/// After a variable named `n` whose value (under type wrappers) is `x`.
pub open spec fn var_step(v: DeclView, n: Seq<char>, x: TsExpr) -> DeclView {
    let entries = object_entries(x);
    let text = static_text(x);
    if n == "variantClasses"@ {
        match entries {
            Some(es) => DeclView { variants: es, ..v },
            None => v,
        }
    } else if n == "sizeClasses"@ {
        match entries {
            Some(es) => DeclView { sizes: es, ..v },
            None => v,
        }
    } else if n == "baseClasses"@ {
        match text {
            Some(t) => DeclView { base: Some(crate::text::normalize_ws(t)), ..v },
            None => v,
        }
    } else if n == "disabledClasses"@ || n == "disabledCls"@ {
        match text {
            Some(t) => DeclView { disabled: Some(t), ..v },
            None => v,
        }
    } else if is_function_expr(x) {
        name_step(v, n)
    } else {
        v
    }
}

/// After the identifier keys of `ks`, as props.
pub open spec fn keys_step(v: DeclView, ks: Seq<TsKey>) -> DeclView
    decreases ks.len(),
{
    if ks.len() == 0 {
        v
    } else {
        let u = keys_step(v, ks.drop_last());
        match ks.last() {
            TsKey::Ident(a) => attr_step(u, a@),
            _ => u,
        }
    }
}

/// After the object-pattern keys of each parameter.
pub open spec fn params_step(v: DeclView, ps: Seq<Option<Vec<TsKey>>>) -> DeclView
    decreases ps.len(),
{
    if ps.len() == 0 {
        v
    } else {
        let u = params_step(v, ps.drop_last());
        match ps.last() {
            Some(ks) => keys_step(u, ks@),
            None => u,
        }
    }
}

/// After the identifier-keyed property signatures of an interface.
pub open spec fn members_step(v: DeclView, ms: Seq<Option<TsPropSig>>) -> DeclView
    decreases ms.len(),
{
    if ms.len() == 0 {
        v
    } else {
        let u = members_step(v, ms.drop_last());
        match ms.last() {
            Some(sig) => match sig.key {
                TsKey::Ident(a) => attr_step(u, a@),
                _ => u,
            },
            None => u,
        }
    }
}

/// After each declarator that binds a name to a value.
pub open spec fn vars_step(v: DeclView, ds: Seq<TsDeclarator>) -> DeclView
    decreases ds.len(),
{
    if ds.len() == 0 {
        v
    } else {
        let u = vars_step(v, ds.drop_last());
        match (ds.last().name, ds.last().init) {
            (Some(n), Some(x)) => var_step(u, n@, unwrapped(x)),
            _ => u,
        }
    }
}

/// After one top-level statement: variables; a named function (its name,
/// then its destructured props); a `*Props` interface's props.
pub open spec fn statement_step(v: DeclView, st: TsStatement) -> DeclView {
    match st {
        TsStatement::Variables(_, ds) => vars_step(v, ds@),
        TsStatement::Function(_, id, ps) => match id {
            Some(n) => params_step(name_step(v, n@), ps@),
            None => v,
        },
        TsStatement::Interface(_, i) => if crate::text::ends_with(i.name@, "Props"@) {
            members_step(v, i.members@)
        } else {
            v
        },
        _ => v,
    }
}

/// After the statements, in order.
pub open spec fn module_decls(ss: Seq<TsStatement>) -> DeclView
    decreases ss.len(),
{
    if ss.len() == 0 {
        no_decls()
    } else {
        statement_step(module_decls(ss.drop_last()), ss.last())
    }
}

/// The structure a module's declarations give, as `into_structure` reads
/// them: an error without a variant record; otherwise the records, the
/// named or default name, base and disabled classes, and the attributes.
pub open spec fn structure_matches(v: DeclView, r: Result<ComponentStructure, TransformError>) -> bool {
    &&& (v.variants.len() == 0 <==> r is Err)
    &&& (r is Err ==> r matches Err(TransformError::MissingVariants))
    &&& (r matches Ok(s) ==> {
        &&& s.name@ == (match v.name {
            Some(n) => n,
            None => "Component"@,
        })
        &&& pair_views(s.variant_lookup@) == v.variants
        &&& pair_views(s.size_lookup@) == v.sizes
        &&& s.base_classes@ == (match v.base {
            Some(b) => b,
            None => Seq::<char>::empty(),
        })
        &&& s.disabled_classes@ == (match v.disabled {
            Some(d) => d,
            None => "opacity-50 pointer-events-none cursor-not-allowed"@,
        })
        &&& s.default_variant@ == v.variants[0].0
        &&& s.default_size@ == (if v.sizes.len() > 0 {
            v.sizes[0].0
        } else {
            "default"@
        })
        &&& views(s.observed_attributes@) == v.attrs
        &&& s.dynamic_class_patterns@.len() == 0
    })
}

impl ModuleDeclarations {
    fn read_keys(&mut self, ks: &Vec<TsKey>)
        ensures
            decl_view(*final(self)) == keys_step(decl_view(*old(self)), ks@),
    {
        let mut i: usize = 0;
        while i < ks.len()
            invariant
                i <= ks@.len(),
                decl_view(*self) == keys_step(decl_view(*old(self)), ks@.take(i as int)),
            decreases ks@.len() - i,
        {
            assert(ks@.take(i + 1).drop_last() =~= ks@.take(i as int));
            if let TsKey::Ident(a) = &ks[i] {
                self.add_attribute(a.as_str());
            }
            i = i + 1;
        }
        assert(ks@.take(ks@.len() as int) =~= ks@);
    }

    fn read_function(&mut self, id: &Option<String>, ps: &Vec<Option<Vec<TsKey>>>)
        ensures
            decl_view(*final(self)) == (match *id {
                Some(n) => params_step(name_step(decl_view(*old(self)), n@), ps@),
                None => decl_view(*old(self)),
            }),
    {
        if let Some(n) = id {
            self.name_component(n.as_str());
            let ghost v0 = decl_view(*self);
            let mut i: usize = 0;
            while i < ps.len()
                invariant
                    i <= ps@.len(),
                    decl_view(*self) == params_step(v0, ps@.take(i as int)),
                decreases ps@.len() - i,
            {
                assert(ps@.take(i + 1).drop_last() =~= ps@.take(i as int));
                if let Some(ks) = &ps[i] {
                    self.read_keys(ks);
                }
                i = i + 1;
            }
            assert(ps@.take(ps@.len() as int) =~= ps@);
        }
    }

    fn read_members(&mut self, ms: &Vec<Option<TsPropSig>>)
        ensures
            decl_view(*final(self)) == members_step(decl_view(*old(self)), ms@),
    {
        let mut i: usize = 0;
        while i < ms.len()
            invariant
                i <= ms@.len(),
                decl_view(*self) == members_step(decl_view(*old(self)), ms@.take(i as int)),
            decreases ms@.len() - i,
        {
            assert(ms@.take(i + 1).drop_last() =~= ms@.take(i as int));
            if let Some(sig) = &ms[i] {
                if let TsKey::Ident(a) = &sig.key {
                    self.add_attribute(a.as_str());
                }
            }
            i = i + 1;
        }
        assert(ms@.take(ms@.len() as int) =~= ms@);
    }

    fn read_variables(&mut self, ds: &Vec<TsDeclarator>)
        ensures
            decl_view(*final(self)) == vars_step(decl_view(*old(self)), ds@),
    {
        let mut i: usize = 0;
        while i < ds.len()
            invariant
                i <= ds@.len(),
                decl_view(*self) == vars_step(decl_view(*old(self)), ds@.take(i as int)),
            decreases ds@.len() - i,
        {
            assert(ds@.take(i + 1).drop_last() =~= ds@.take(i as int));
            if let (Some(n), Some(x)) = (&ds[i].name, &ds[i].init) {
                let u = unwrap_expr(x);
                let value = DeclaredValue {
                    entries: object_entries_exec(u),
                    text: static_text_exec(u),
                    is_function: matches!(u, TsExpr::Arrow(_) | TsExpr::Function),
                };
                let ghost prev = decl_view(*self);
                let ghost ev = opt_pairs(value.entries);
                let ghost tv = opt_view(value.text);
                let ghost isf = value.is_function;
                assert(ev == object_entries(*u));
                assert(tv == static_text(*u));
                assert(isf == is_function_expr(*u));
                self.record_variable(n.as_str(), value);
                proof {
                    reveal_strlit("variantClasses");
                    reveal_strlit("sizeClasses");
                    reveal_strlit("baseClasses");
                    reveal_strlit("disabledClasses");
                    reveal_strlit("disabledCls");
                    let after = decl_view(*self);
                    let want = var_step(prev, n@, *u);
                    assert(after.variants == want.variants);
                    assert(after.sizes == want.sizes);
                    assert(after.base == want.base);
                    assert(after.disabled == want.disabled);
                    assert(after.name == want.name);
                    assert(after.attrs == want.attrs);
                }
            }
            i = i + 1;
        }
        assert(ds@.take(ds@.len() as int) =~= ds@);
    }
}

/// The component structure a parsed module declares.
pub fn structure_of_module(m: &TsModule) -> (r: Result<ComponentStructure, TransformError>)
    ensures
        structure_matches(module_decls(m.statements@), r),
{
    let mut d = ModuleDeclarations::new();
    assert(decl_view(d) == no_decls()) by {
        assert(pair_views(d.variant_lookup@) =~= seq![]);
        assert(pair_views(d.size_lookup@) =~= seq![]);
        assert(views(d.observed_attributes@) =~= seq![]);
    }
    let ss = &m.statements;
    let mut i: usize = 0;
    while i < ss.len()
        invariant
            i <= ss@.len(),
            decl_view(d) == module_decls(ss@.take(i as int)),
        decreases ss@.len() - i,
    {
        assert(ss@.take(i + 1).drop_last() =~= ss@.take(i as int));
        match &ss[i] {
            TsStatement::Variables(_, ds) => d.read_variables(ds),
            TsStatement::Function(_, id, ps) => d.read_function(id, ps),
            TsStatement::Interface(_, iface) => {
                if crate::text::str_ends_with(iface.name.as_str(), "Props") {
                    d.read_members(&iface.members);
                }
            },
            _ => {},
        }
        i = i + 1;
    }
    assert(ss@.take(ss@.len() as int) =~= ss@);
    d.into_structure()
}

/// The component structure a React/JSX module declares, read from its TSX
/// parse; a parse error when the parser gave up.
pub fn extract_structure(source: &str) -> (r: Result<ComponentStructure, TransformError>)
    ensures
        match parsed_module(source@, true) {
            None => r matches Err(TransformError::ParseError(msg)) && msg@
                == "oxc parser panicked while parsing source"@,
            Some(m) => structure_matches(module_decls(m.statements@), r),
        },
{
    match parse_ts_module(source, true) {
        None => Err(TransformError::ParseError(crate::text::owned("oxc parser panicked while parsing source"))),
        Some(m) => structure_of_module(&m),
    }
}

impl ReactAdapter {
    /// The component structure a React/JSX module declares.
    pub fn extract_structure(&self, source: &str) -> (r: Result<ComponentStructure, TransformError>)
        ensures
            match parsed_module(source@, true) {
                None => r matches Err(TransformError::ParseError(msg)) && msg@
                    == "oxc parser panicked while parsing source"@,
                Some(m) => structure_matches(module_decls(m.statements@), r),
            },
    {
        extract_structure(source)
    }
}

} // verus!
