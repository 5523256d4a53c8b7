//! Configurable conventions for component extraction: which variable names
//! hold variant records, size records, base and disabled classes, and
//! which props are left out of the observed attributes.

use vstd::prelude::*;
use vstd::string::*;
use crate::text::{owned, push_str, views};

verus! {

/// Configuration for how component structure is identified in source code.
#[derive(Debug, Clone)]
pub struct ComponentConventions {
    /// Variable names that hold variant-to-class mappings.
    pub variant_records: Vec<String>,
    /// Variable names that hold size-to-class mappings.
    pub size_records: Vec<String>,
    /// Variable names that hold base CSS classes.
    pub base_class_vars: Vec<String>,
    /// Variable names that hold disabled-state CSS classes.
    pub disabled_class_vars: Vec<String>,
    /// Prop names to exclude from observed attributes.
    pub excluded_props: Vec<String>,
    /// Attribute names to check as fallback when no interface or
    /// destructuring is found.
    pub fallback_attributes: Vec<String>,
}

fn strings2(a: &str, b: &str) -> (r: Vec<String>)
    ensures
        views(r@) == seq![a@, b@],
{
    let r = vec![owned(a), owned(b)];
    assert(views(r@) =~= seq![a@, b@]);
    r
}

fn strings3(a: &str, b: &str, c: &str) -> (r: Vec<String>)
    ensures
        views(r@) == seq![a@, b@, c@],
{
    let r = vec![owned(a), owned(b), owned(c)];
    assert(views(r@) =~= seq![a@, b@, c@]);
    r
}

fn prefixed(prefix: &str, suffix: &str) -> (r: String)
    ensures
        r@ == prefix@ + suffix@,
{
    let mut r = owned(prefix);
    push_str(&mut r, suffix);
    r
}

impl Default for ComponentConventions {
    /// The conventions of the hand-written component sources.
    fn default() -> (r: Self)
        ensures
            views(r.variant_records@) == seq!["variantClasses"@],
            views(r.size_records@) == seq!["sizeClasses"@],
            views(r.base_class_vars@) == seq!["baseClasses"@],
            views(r.disabled_class_vars@) == seq!["disabledClasses"@, "disabledCls"@],
            views(r.excluded_props@) == seq!["children"@, "className"@, "style"@],
            views(r.fallback_attributes@) == seq!["variant"@, "size"@, "disabled"@, "loading"@],
    {
        let r = ComponentConventions {
            variant_records: vec![owned("variantClasses")],
            size_records: vec![owned("sizeClasses")],
            base_class_vars: vec![owned("baseClasses")],
            disabled_class_vars: strings2("disabledClasses", "disabledCls"),
            excluded_props: vec![owned("children"), owned("className"), owned("style")],
            fallback_attributes: vec![owned("variant"), owned("size"), owned("disabled"), owned("loading")],
        };
        assert(views(r.variant_records@) =~= seq!["variantClasses"@]);
        assert(views(r.size_records@) =~= seq!["sizeClasses"@]);
        assert(views(r.base_class_vars@) =~= seq!["baseClasses"@]);
        assert(views(r.excluded_props@) =~= seq!["children"@, "className"@, "style"@]);
        assert(views(r.fallback_attributes@) =~= seq!["variant"@, "size"@, "disabled"@, "loading"@]);
        r
    }
}

impl ComponentConventions {
    /// Conventions for a `.classes.ts` file with a component prefix: the
    /// prefixed names (`badgeVariantClasses`, ...) first, then the default
    /// unprefixed names, every one of them kept as a fallback; the prop
    /// lists are the defaults.
    pub fn for_classes_file(prefix: &str) -> (r: Self)
        ensures
            views(r.variant_records@) == seq![prefix@ + "VariantClasses"@, "variantClasses"@],
            views(r.size_records@) == seq![prefix@ + "SizeClasses"@, "sizeClasses"@],
            views(r.base_class_vars@) == seq![prefix@ + "BaseClasses"@, "baseClasses"@],
            views(r.disabled_class_vars@) == seq![prefix@ + "DisabledClasses"@, "disabledClasses"@, "disabledCls"@],
            views(r.excluded_props@) == seq!["children"@, "className"@, "style"@],
            views(r.fallback_attributes@) == seq!["variant"@, "size"@, "disabled"@, "loading"@],
    {
        let d = ComponentConventions::default();
        ComponentConventions {
            variant_records: strings2(prefixed(prefix, "VariantClasses").as_str(), "variantClasses"),
            size_records: strings2(prefixed(prefix, "SizeClasses").as_str(), "sizeClasses"),
            base_class_vars: strings2(prefixed(prefix, "BaseClasses").as_str(), "baseClasses"),
            disabled_class_vars: strings3(prefixed(prefix, "DisabledClasses").as_str(), "disabledClasses", "disabledCls"),
            excluded_props: d.excluded_props,
            fallback_attributes: d.fallback_attributes,
        }
    }
}

} // verus!
