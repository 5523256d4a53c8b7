//! Web Component code generator.
//!
//! Every generated custom element is style-isolated: it attaches an open
//! shadow root and delivers its component CSS through
//! `shadowRoot.adoptedStyleSheets`, built from a scoped CSS string embedded
//! in the module itself. The generated code never injects a page-global
//! `<style>` or `<link>` and never reads the host page's stylesheets.

use vstd::prelude::*;
use vstd::string::*;
use crate::react::{all_classes, pair_views, ComponentStructure};
use crate::scope::{error_view, scope_error_message, shadow_css, shadow_css_for_component, ScopeError};
use crate::sidebar::capitalized;
use crate::text::{
    chars_of, escape, escaped, join, occurs_at, owned, push_escaped, push_str, split, split_chars, views,
    vviews, words, Escape,
};
use crate::traits::{TransformError, TransformedBlock};

verus! {

/// Kebab-case to PascalCase: each `-`-separated part capitalized, joined.
pub open spec fn pascal(s: Seq<char>) -> Seq<char> {
    join(split(s, '-').map_values(|w: Seq<char>| capitalized(w)), seq![])
}

/// Convert kebab-case to PascalCase.
pub fn to_pascal_case(s: &str) -> (r: String)
    ensures
        r@ == pascal(s@),
{
    let v = chars_of(s);
    let parts = split_chars(&v, '-');
    let ghost caps = vviews(parts@).map_values(|w: Seq<char>| capitalized(w));
    let mut r = String::new();
    let mut i: usize = 0;
    while i < parts.len()
        invariant
            i <= parts@.len(),
            caps == vviews(parts@).map_values(|w: Seq<char>| capitalized(w)),
            r@ == join(caps.take(i as int), seq![]),
        decreases parts@.len() - i,
    {
        let ghost r0 = r@;
        let piece = string_of_chars(&parts[i]);
        let cap = crate::sidebar::capitalize(piece.as_str());
        push_str(&mut r, cap.as_str());
        assert(caps.take(i + 1).drop_last() =~= caps.take(i as int));
        assert(caps[i as int] == capitalized(parts@[i as int]@));
        assert(r@ =~= if i == 0 { caps[i as int] } else { r0 + seq![] + caps[i as int] }) by {
            if i == 0 {
                assert(r0 =~= Seq::<char>::empty());
            }
        }
        i = i + 1;
    }
    assert(caps.take(parts@.len() as int) =~= caps);
    r
}

fn string_of_chars(v: &Vec<char>) -> (r: String)
    ensures
        r@ == v@,
{
    let r = crate::text::string_of(v, 0, v.len());
    assert(v@.subrange(0, v@.len() as int) =~= v@);
    r
}

/// Escape a string for a single-quoted JavaScript string.
pub fn escape_string(s: &str) -> (r: String)
    ensures
        r@ == escaped(Escape::JsString, s@),
{
    escape(Escape::JsString, s)
}

/// The JS prelude that turns the embedded scoped CSS into a lazily built
/// `CSSStyleSheet` for `shadowRoot.adoptedStyleSheets`.
pub open spec fn stylesheet_js(css: Seq<char>) -> Seq<char> {
    "const componentCss = '"@ + escaped(Escape::JsString, css) + "';\n\nlet componentSheet = null;\nfunction componentStyles() {\n  if (componentSheet === null) {\n    componentSheet = new CSSStyleSheet();\n    componentSheet.replaceSync(componentCss);\n  }\n  return componentSheet;\n}"@
}

fn stylesheet_js_exec(css: &str) -> (r: String)
    ensures
        r@ == stylesheet_js(css@),
{
    let escaped_css = escape_string(css);
    let mut out = owned("const componentCss = '");
    push_str(&mut out, escaped_css.as_str());
    push_str(&mut out, "';\n\nlet componentSheet = null;\nfunction componentStyles() {\n  if (componentSheet === null) {\n    componentSheet = new CSSStyleSheet();\n    componentSheet.replaceSync(componentCss);\n  }\n  return componentSheet;\n}");
    out
}

/// The object-literal entries of a lookup: `  key: 'classes',` per pair,
/// one per line.
pub open spec fn lookup_entries(pairs: Seq<(Seq<char>, Seq<char>)>) -> Seq<char> {
    join(lookup_lines(pairs), "\n"@)
}

/// The lines of a class lookup object, one per pair, in order.
pub open spec fn lookup_lines(pairs: Seq<(Seq<char>, Seq<char>)>) -> Seq<Seq<char>> {
    pairs.map_values(|p: (Seq<char>, Seq<char>)| lookup_line(p))
}

/// One line of a class lookup object: `  key: 'classes',`, the classes
/// escaped for a single-quoted string.
pub open spec fn lookup_line(p: (Seq<char>, Seq<char>)) -> Seq<char> {
    "  "@ + p.0 + ": '"@ + escaped(Escape::JsString, p.1) + "',"@
}

/// Where line `i` of `lines` begins when each line is followed by a newline.
pub open spec fn line_offset(lines: Seq<Seq<char>>, i: int) -> int
    decreases i,
{
    if i <= 0 {
        0
    } else {
        line_offset(lines, i - 1) + lines[i - 1].len() + 1
    }
}

/// From `start` on, `out` holds `lines` one per line, each line in order,
/// and then the `\n};` that closes the object literal.
pub open spec fn object_lines_at(out: Seq<char>, start: int, lines: Seq<Seq<char>>) -> bool {
    &&& 0 <= start
    &&& forall|i: int| 0 <= i < lines.len() ==> occurs_at(out, lines[i], start + #[trigger] line_offset(lines, i))
    &&& forall|i: int| 0 < i < lines.len() ==> out[start + #[trigger] line_offset(lines, i) - 1] == '\n'
    &&& occurs_at(out, "\n};"@, start + if lines.len() == 0 {
        0
    } else {
        line_offset(lines, lines.len() as int) - 1
    })
}

proof fn lemma_line_offset_grows(lines: Seq<Seq<char>>, i: int)
    ensures
        i >= 0 ==> line_offset(lines, i) >= i,
    decreases i,
{
    if i > 0 {
        lemma_line_offset_grows(lines, i - 1);
    }
}

proof fn lemma_line_offset_prefix(lines: Seq<Seq<char>>, i: int)
    requires
        0 <= i < lines.len(),
    ensures
        line_offset(lines, i) == line_offset(lines.drop_last(), i),
    decreases i,
{
    if i > 0 {
        lemma_line_offset_prefix(lines, i - 1);
    }
}

/// Joined by newlines, line `i` of `lines` starts at `line_offset(lines, i)`,
/// right after a newline when it is not the first.
proof fn lemma_join_lines(lines: Seq<Seq<char>>)
    ensures
        join(lines, "\n"@).len() == if lines.len() == 0 {
            0
        } else {
            line_offset(lines, lines.len() as int) - 1
        },
        forall|i: int| 0 <= i < lines.len() ==> occurs_at(join(lines, "\n"@), lines[i], #[trigger] line_offset(lines, i)),
        forall|i: int| 0 < i < lines.len() ==> join(lines, "\n"@)[#[trigger] line_offset(lines, i) - 1] == '\n',
    decreases lines.len(),
{
    reveal_strlit("\n");
    let n = lines.len() as int;
    if n == 1 {
        assert(line_offset(lines, 0) == 0);
        assert(lines[0].subrange(0, lines[0].len() as int) =~= lines[0]);
    } else if n > 1 {
        let dl = lines.drop_last();
        lemma_join_lines(dl);
        let j0 = join(dl, "\n"@);
        let j = join(lines, "\n"@);
        assert(j == j0 + "\n"@ + lines.last());
        assert forall|i: int| 0 <= i < n implies #[trigger] line_offset(lines, i) == line_offset(dl, i) by {
            if i < n - 1 {
                lemma_line_offset_prefix(lines, i);
            } else {
                lemma_line_offset_prefix(lines, i - 1);
            }
        }
        assert(line_offset(lines, n - 1) == line_offset(dl, n - 1));
        assert forall|i: int| 0 <= i < n implies occurs_at(j, lines[i], #[trigger] line_offset(lines, i)) by {
            let o = line_offset(lines, i);
            if i < n - 1 {
                assert(dl[i] == lines[i]);
                assert(occurs_at(j0, dl[i], line_offset(dl, i)));
                assert(j.subrange(o, o + lines[i].len()) =~= j0.subrange(o, o + lines[i].len()));
            } else {
                assert(j.subrange(o, o + lines[i].len()) =~= lines.last());
            }
        }
        assert forall|i: int| 0 < i < n implies j[#[trigger] line_offset(lines, i) - 1] == '\n' by {
            if i < n - 1 {
                assert(dl[i] == lines[i]);
                assert(occurs_at(j0, dl[i], line_offset(dl, i)));
                lemma_line_offset_grows(dl, i);
                assert(j0[line_offset(dl, i) - 1] == '\n');
            } else {
                assert(j[j0.len() as int] == '\n');
            }
        }
    }
}

fn lookup_entries_exec(pairs: &Vec<(String, String)>) -> (r: String)
    ensures
        r@ == lookup_entries(pair_views(pairs@)),
{
    let ghost items = pair_views(pairs@).map_values(|p: (Seq<char>, Seq<char>)| lookup_line(p));
    let mut r = String::new();
    let mut i: usize = 0;
    while i < pairs.len()
        invariant
            i <= pairs@.len(),
            items == pair_views(pairs@).map_values(|p: (Seq<char>, Seq<char>)| lookup_line(p)),
            r@ == join(items.take(i as int), "\n"@),
        decreases pairs@.len() - i,
    {
        let ghost r0 = r@;
        if i > 0 {
            push_str(&mut r, "\n");
        }
        let ghost r1 = r@;
        push_str(&mut r, "  ");
        push_str(&mut r, pairs[i].0.as_str());
        push_str(&mut r, ": '");
        push_escaped(&mut r, Escape::JsString, pairs[i].1.as_str());
        push_str(&mut r, "',");
        assert(r@ =~= r1 + items[i as int]);
        assert(items.take(i + 1).drop_last() =~= items.take(i as int));
        assert(r@ =~= if i == 0 { items[i as int] } else { r0 + "\n"@ + items[i as int] }) by {
            if i == 0 {
                assert(r0 =~= Seq::<char>::empty());
            }
        }
        i = i + 1;
    }
    assert(items.take(pairs@.len() as int) =~= items);
    r
}

/// The observed-attribute array body: each name single-quoted, `, `-joined.
pub open spec fn attrs_list(attrs: Seq<Seq<char>>) -> Seq<char> {
    join(attrs.map_values(|a: Seq<char>| "'"@ + a + "'"@), ", "@)
}

fn attrs_list_exec(attrs: &Vec<String>) -> (r: String)
    ensures
        r@ == attrs_list(views(attrs@)),
{
    let ghost items = views(attrs@).map_values(|a: Seq<char>| "'"@ + a + "'"@);
    let mut r = String::new();
    let mut i: usize = 0;
    while i < attrs.len()
        invariant
            i <= attrs@.len(),
            items == views(attrs@).map_values(|a: Seq<char>| "'"@ + a + "'"@),
            r@ == join(items.take(i as int), ", "@),
        decreases attrs@.len() - i,
    {
        let ghost r0 = r@;
        if i > 0 {
            push_str(&mut r, ", ");
        }
        let ghost r1 = r@;
        push_str(&mut r, "'");
        push_str(&mut r, attrs[i].as_str());
        push_str(&mut r, "'");
        assert(r@ =~= r1 + items[i as int]);
        assert(items.take(i + 1).drop_last() =~= items.take(i as int));
        assert(r@ =~= if i == 0 { items[i as int] } else { r0 + ", "@ + items[i as int] }) by {
            if i == 0 {
                assert(r0 =~= Seq::<char>::empty());
            }
        }
        i = i + 1;
    }
    assert(items.take(attrs@.len() as int) =~= items);
    r
}

/// The module text before the variant lookup object.
#[verifier::opaque]
pub open spec fn component_preamble(tag: Seq<char>, structure: ComponentStructure, css: Seq<char>) -> Seq<char> {
    "/**\n * "@ + pascal(tag) + " - Generated Web Component Preview\n * Auto-generated from "@ + structure.name@ + " component\n * Tag: <"@ + tag + ">\n */\n\n"@ + stylesheet_js(css) + "\n\n"@
}

/// The module text after the size lookup object.
#[verifier::opaque]
pub open spec fn component_rest(tag: Seq<char>, structure: ComponentStructure) -> Seq<char> {
    "\n\nconst baseClasses = '"@ + escaped(Escape::JsString, structure.base_classes@) + "';\nconst disabledClasses = '"@ + escaped(Escape::JsString, structure.disabled_classes@) + "';\n\nexport class "@ + pascal(tag) + " extends HTMLElement {\n  static observedAttributes = ["@ + attrs_list(views(structure.observed_attributes@)) + "];\n\n  #button = null;\n\n  constructor() {\n    super();\n    this.attachShadow({ mode: 'open' });\n  }\n\n  connectedCallback() {\n    this.shadowRoot.adoptedStyleSheets = [componentStyles()];\n    this.#render();\n  }\n\n  attributeChangedCallback() {\n    this.#render();\n  }\n\n  #render() {\n    if (!this.shadowRoot) return;\n\n    const variant = this.getAttribute('variant') || '"@ + structure.default_variant@ + "';\n    const size = this.getAttribute('size') || '"@ + structure.default_size@ + "';\n    const disabled = this.hasAttribute('disabled');\n    const loading = this.hasAttribute('loading');\n\n    const isDisabled = disabled || loading;\n\n    const classes = [\n      baseClasses,\n      variantClasses[variant] ?? variantClasses['"@ + structure.default_variant@ + "'],\n      sizeClasses[size] ?? sizeClasses['"@ + structure.default_size@ + "'],\n      isDisabled ? disabledClasses : '',\n    ]\n      .filter(Boolean)\n      .join(' ');\n\n    // Clear existing button if any\n    if (this.#button) {\n      this.#button.remove();\n    }\n\n    this.#button = document.createElement('button');\n    this.#button.type = 'button';\n    this.#button.className = classes;\n    this.#button.disabled = isDisabled;\n\n    if (isDisabled) {\n      this.#button.setAttribute('aria-disabled', 'true');\n    }\n    if (loading) {\n      this.#button.setAttribute('aria-busy', 'true');\n    }\n\n    if (loading) {\n      const span = document.createElement('span');\n      span.setAttribute('aria-hidden', 'true');\n      span.textContent = 'Loading...';\n      this.#button.appendChild(span);\n    } else {\n      // Use slot for content\n      const slot = document.createElement('slot');\n      this.#button.appendChild(slot);\n    }\n\n    this.shadowRoot.appendChild(this.#button);\n  }\n}\n\n// Register the custom element\nif (typeof customElements !== 'undefined') {\n  customElements.define('"@ + tag + "', "@ + pascal(tag) + ");\n}\n\nexport default "@ + pascal(tag) + ";\n"@
}

/// The Web Component module generated for a component structure: the
/// preamble, the `variantClasses` and `sizeClasses` lookup objects, and the
/// custom element class.
pub open spec fn web_component(tag: Seq<char>, structure: ComponentStructure, css: Seq<char>) -> Seq<char> {
    component_preamble(tag, structure, css) + "const variantClasses = {\n"@ + lookup_entries(
        pair_views(structure.variant_lookup@),
    ) + "\n};"@ + "\n\n"@ + "const sizeClasses = {\n"@ + lookup_entries(pair_views(structure.size_lookup@)) + "\n};"@
        + component_rest(tag, structure)
}

/// `out` holds, from `start` on, the entries of `pairs` as the lines of a
/// class lookup object right after `marker`, which opens that object.
pub open spec fn lookup_object_at(out: Seq<char>, marker: Seq<char>, start: int, pairs: Seq<(Seq<char>, Seq<char>)>) -> bool {
    &&& occurs_at(out, marker, start - marker.len())
    &&& object_lines_at(out, start, lookup_lines(pairs))
}

proof fn lemma_lookup_object_at(
    head: Seq<char>,
    marker: Seq<char>,
    pairs: Seq<(Seq<char>, Seq<char>)>,
    tail: Seq<char>,
)
    ensures
        lookup_object_at(head + marker + lookup_entries(pairs) + "\n};"@ + tail, marker, (head.len() + marker.len()) as int, pairs),
{
    reveal_strlit("\n};");
    let lines = lookup_lines(pairs);
    let body = lookup_entries(pairs);
    let start = (head.len() + marker.len()) as int;
    let out = head + marker + body + "\n};"@ + tail;
    lemma_join_lines(lines);
    assert(out.subrange(head.len() as int, start) =~= marker);
    assert forall|i: int| 0 <= i < lines.len() implies occurs_at(out, lines[i], start + #[trigger] line_offset(lines, i)) by {
        let o = line_offset(lines, i);
        assert(occurs_at(body, lines[i], o));
        lemma_line_offset_grows(lines, i);
        assert(out.subrange(start + o, start + o + lines[i].len()) =~= body.subrange(o, o + lines[i].len()));
    }
    assert forall|i: int| 0 < i < lines.len() implies out[start + #[trigger] line_offset(lines, i) - 1] == '\n' by {
        lemma_line_offset_grows(lines, i);
        assert(body[line_offset(lines, i) - 1] == '\n');
    }
    let end = (start + body.len()) as int;
    assert(out.subrange(end, end + 3) =~= "\n};"@);
    assert(occurs_at(out, "\n};"@, end));
    assert(object_lines_at(out, start, lines));
}

/// The generated module's `variantClasses` and `sizeClasses` objects hold,
/// for every (key, classes) pair of the structure's variant and size
/// lookups, the entry `key: '<classes escaped>'` on its own line, in the
/// lookup's order, and nothing else.
pub proof fn lemma_lookup_objects(tag: Seq<char>, structure: ComponentStructure, css: Seq<char>)
    ensures
        exists|start: int|
            lookup_object_at(
                web_component(tag, structure, css),
                "const variantClasses = {\n"@,
                start,
                pair_views(structure.variant_lookup@),
            ),
        exists|start: int|
            lookup_object_at(
                web_component(tag, structure, css),
                "const sizeClasses = {\n"@,
                start,
                pair_views(structure.size_lookup@),
            ),
{
    let out = web_component(tag, structure, css);
    let pre = component_preamble(tag, structure, css);
    let variants = lookup_entries(pair_views(structure.variant_lookup@));
    let sizes = lookup_entries(pair_views(structure.size_lookup@));
    let rest = component_rest(tag, structure);
    let vtail = "\n\n"@ + "const sizeClasses = {\n"@ + sizes + "\n};"@ + rest;
    assert(out =~= pre + "const variantClasses = {\n"@ + variants + "\n};"@ + vtail);
    lemma_lookup_object_at(pre, "const variantClasses = {\n"@, pair_views(structure.variant_lookup@), vtail);
    let shead = pre + "const variantClasses = {\n"@ + variants + "\n};"@ + "\n\n"@;
    assert(out =~= shead + "const sizeClasses = {\n"@ + sizes + "\n};"@ + rest);
    lemma_lookup_object_at(shead, "const sizeClasses = {\n"@, pair_views(structure.size_lookup@), rest);
}

/// The module text after the size lookup object.
fn component_rest_exec(tag_name: &str, structure: &ComponentStructure) -> (r: String)
    ensures
        r@ == component_rest(tag_name@, *structure),
{
    let class_name = to_pascal_case(tag_name);
    let attrs_array = attrs_list_exec(&structure.observed_attributes);
    let base_classes = escape_string(structure.base_classes.as_str());
    let disabled_classes = escape_string(structure.disabled_classes.as_str());
    let mut out = owned("\n\nconst baseClasses = '");
    
    push_str(&mut out, base_classes.as_str());
    push_str(&mut out, "';\nconst disabledClasses = '");
    push_str(&mut out, disabled_classes.as_str());
    push_str(&mut out, "';\n\nexport class ");
    push_str(&mut out, class_name.as_str());
    push_str(&mut out, " extends HTMLElement {\n  static observedAttributes = [");
    push_str(&mut out, attrs_array.as_str());
    push_str(&mut out, "];\n\n  #button = null;\n\n  constructor() {\n    super();\n    this.attachShadow({ mode: 'open' });\n  }\n\n  connectedCallback() {\n    this.shadowRoot.adoptedStyleSheets = [componentStyles()];\n    this.#render();\n  }\n\n  attributeChangedCallback() {\n    this.#render();\n  }\n\n  #render() {\n    if (!this.shadowRoot) return;\n\n    const variant = this.getAttribute('variant') || '");
    push_str(&mut out, structure.default_variant.as_str());
    push_str(&mut out, "';\n    const size = this.getAttribute('size') || '");
    push_str(&mut out, structure.default_size.as_str());
    push_str(&mut out, "';\n    const disabled = this.hasAttribute('disabled');\n    const loading = this.hasAttribute('loading');\n\n    const isDisabled = disabled || loading;\n\n    const classes = [\n      baseClasses,\n      variantClasses[variant] ?? variantClasses['");
    push_str(&mut out, structure.default_variant.as_str());
    push_str(&mut out, "'],\n      sizeClasses[size] ?? sizeClasses['");
    push_str(&mut out, structure.default_size.as_str());
    push_str(&mut out, "'],\n      isDisabled ? disabledClasses : '',\n    ]\n      .filter(Boolean)\n      .join(' ');\n\n    // Clear existing button if any\n    if (this.#button) {\n      this.#button.remove();\n    }\n\n    this.#button = document.createElement('button');\n    this.#button.type = 'button';\n    this.#button.className = classes;\n    this.#button.disabled = isDisabled;\n\n    if (isDisabled) {\n      this.#button.setAttribute('aria-disabled', 'true');\n    }\n    if (loading) {\n      this.#button.setAttribute('aria-busy', 'true');\n    }\n\n    if (loading) {\n      const span = document.createElement('span');\n      span.setAttribute('aria-hidden', 'true');\n      span.textContent = 'Loading...';\n      this.#button.appendChild(span);\n    } else {\n      // Use slot for content\n      const slot = document.createElement('slot');\n      this.#button.appendChild(slot);\n    }\n\n    this.shadowRoot.appendChild(this.#button);\n  }\n}\n\n// Register the custom element\nif (typeof customElements !== 'undefined') {\n  customElements.define('");
    push_str(&mut out, tag_name);
    push_str(&mut out, "', ");
    push_str(&mut out, class_name.as_str());
    push_str(&mut out, ");\n}\n\nexport default ");
    push_str(&mut out, class_name.as_str());
    push_str(&mut out, ";\n");
    proof {
        reveal(component_rest);
    }
    out
}

/// The module text before the variant lookup object.
fn component_preamble_exec(tag_name: &str, structure: &ComponentStructure, scoped_css: &str) -> (r: String)
    ensures
        r@ == component_preamble(tag_name@, *structure, scoped_css@),
{
    let class_name = to_pascal_case(tag_name);
    let sheet = stylesheet_js_exec(scoped_css);
    let mut out = owned("/**\n * ");
    push_str(&mut out, class_name.as_str());
    push_str(&mut out, " - Generated Web Component Preview\n * Auto-generated from ");
    push_str(&mut out, structure.name.as_str());
    push_str(&mut out, " component\n * Tag: <");
    push_str(&mut out, tag_name);
    push_str(&mut out, ">\n */\n\n");
    push_str(&mut out, sheet.as_str());
    push_str(&mut out, "\n\n");
    proof {
        reveal(component_preamble);
    }
    out
}

/// Generate a Web Component class from the extracted component structure.
/// Component CSS is delivered via `shadowRoot.adoptedStyleSheets` from the
/// embedded `scoped_css`; no page-global style is read or injected.
pub fn generate_web_component(tag_name: &str, structure: &ComponentStructure, scoped_css: &str) -> (r: String)
    ensures
        r@ == web_component(tag_name@, *structure, scoped_css@),
{
    let variant_entries = lookup_entries_exec(&structure.variant_lookup);
    let size_entries = lookup_entries_exec(&structure.size_lookup);
    let mut out = component_preamble_exec(tag_name, structure, scoped_css);
    push_str(&mut out, "const variantClasses = {\n");
    push_str(&mut out, variant_entries.as_str());
    push_str(&mut out, "\n};");
    push_str(&mut out, "\n\n");
    push_str(&mut out, "const sizeClasses = {\n");
    push_str(&mut out, size_entries.as_str());
    push_str(&mut out, "\n};");
    let rest = component_rest_exec(tag_name, structure);
    push_str(&mut out, rest.as_str());
    out
}

/// The passthrough Web Component module: a slot in a shadow root that
/// adopts the embedded scoped CSS.
pub open spec fn passthrough_component(tag: Seq<char>, css: Seq<char>) -> Seq<char> {
    "/**\n * "@ + pascal(tag) + " - Passthrough Web Component Preview\n * Auto-generated for static component preview\n * Tag: <"@ + tag + ">\n */\n\n"@ + stylesheet_js(css) + "\n\nexport class "@ + pascal(tag) + " extends HTMLElement {\n  constructor() {\n    super();\n    this.attachShadow({ mode: 'open' });\n  }\n\n  connectedCallback() {\n    this.shadowRoot.adoptedStyleSheets = [componentStyles()];\n    this.#render();\n  }\n\n  #render() {\n    if (!this.shadowRoot) return;\n    const slot = document.createElement('slot');\n    this.shadowRoot.appendChild(slot);\n  }\n}\n\nif (typeof customElements !== 'undefined') {\n  customElements.define('"@ + tag + "', "@ + pascal(tag) + ");\n}\n\nexport default "@ + pascal(tag) + ";\n"@
}

/// Generate a passthrough Web Component that renders a slot with adopted
/// styles, for compound/structural components without variant or size
/// switching.
pub fn generate_passthrough_web_component(tag_name: &str, scoped_css: &str) -> (r: String)
    ensures
        r@ == passthrough_component(tag_name@, scoped_css@),
{
    let ghost tag = tag_name@;
    let ghost css = scoped_css@;
    let class_name = to_pascal_case(tag_name);
    let sheet = stylesheet_js_exec(scoped_css);
    let mut out = owned("/**\n * ");
    push_str(&mut out, class_name.as_str());
    push_str(&mut out, " - Passthrough Web Component Preview\n * Auto-generated for static component preview\n * Tag: <");
    push_str(&mut out, tag_name);
    push_str(&mut out, ">\n */\n\n");
    push_str(&mut out, sheet.as_str());
    push_str(&mut out, "\n\nexport class ");
    push_str(&mut out, class_name.as_str());
    push_str(&mut out, " extends HTMLElement {\n  constructor() {\n    super();\n    this.attachShadow({ mode: 'open' });\n  }\n\n  connectedCallback() {\n    this.shadowRoot.adoptedStyleSheets = [componentStyles()];\n    this.#render();\n  }\n\n  #render() {\n    if (!this.shadowRoot) return;\n    const slot = document.createElement('slot');\n    this.shadowRoot.appendChild(slot);\n  }\n}\n\nif (typeof customElements !== 'undefined') {\n  customElements.define('");
    push_str(&mut out, tag_name);
    push_str(&mut out, "', ");
    push_str(&mut out, class_name.as_str());
    push_str(&mut out, ");\n}\n\nexport default ");
    push_str(&mut out, class_name.as_str());
    push_str(&mut out, ";\n");
    out
}

/// Assemble the full transform result for a component structure: the
/// generated Web Component plus the classes and attributes the structure
/// declares.
pub fn web_component_block(tag_name: &str, structure: &ComponentStructure, scoped_css: &str) -> (r: TransformedBlock)
    ensures
        r.web_component@ == web_component(tag_name@, *structure, scoped_css@),
        r.tag_name@ == tag_name@,
        views(r.classes_used@) == all_classes(*structure),
        r.attributes@ == structure.observed_attributes@,
{
    TransformedBlock {
        web_component: generate_web_component(tag_name, structure, scoped_css),
        tag_name: owned(tag_name),
        classes_used: structure.collect_all_classes(),
        attributes: structure.observed_attributes.clone(),
    }
}

/// A web-component block lists every class its structure names: each word
/// of the base classes, of every variant and size value and of the
/// disabled classes, and every dynamic pattern, each once.
pub proof fn lemma_block_lists_every_class(structure: ComponentStructure, b: TransformedBlock)
    requires
        views(b.classes_used@) == all_classes(structure),
    ensures
        views(b.classes_used@).no_duplicates(),
        forall|w: Seq<char>| #[trigger] words(structure.base_classes@).contains(w) ==> views(b.classes_used@).contains(w),
        forall|k: int, w: Seq<char>| 0 <= k < structure.variant_lookup@.len() && #[trigger] words(
            structure.variant_lookup@[k].1@,
        ).contains(w) ==> views(b.classes_used@).contains(w),
        forall|k: int, w: Seq<char>| 0 <= k < structure.size_lookup@.len() && #[trigger] words(
            structure.size_lookup@[k].1@,
        ).contains(w) ==> views(b.classes_used@).contains(w),
        forall|w: Seq<char>| #[trigger] words(structure.disabled_classes@).contains(w) ==> views(b.classes_used@).contains(w),
{
    crate::react::lemma_all_classes_cover(structure);
}

/// The text of a scoping failure, from its parts: which failure, the
/// component, and the classes it names.
pub open spec fn scope_failure_text(v: (bool, Seq<char>, Seq<char>)) -> Seq<char> {
    if v.0 {
        "cannot extract scoped CSS for component '"@ + v.1 + "': the project stylesheet is empty (classes requested: "@ + v.2 + ")"@
    } else {
        "cannot extract scoped CSS for component '"@ + v.1 + "': no CSS rules matched any of its classes ("@ + v.2
            + "); refusing to emit a preview silently missing its styles"@
    }
}

/// Assemble a transform result with CSS scoped from the full project
/// stylesheet. Extraction failure is a [`TransformError::RenderFailed`]
/// naming the component: a preview is never emitted silently missing its
/// styles. The classes with no matching rule are returned beside the block
/// for the caller to report.
pub fn scoped_web_component_block(tag_name: &str, structure: &ComponentStructure, full_css: &str) -> (r: Result<(TransformedBlock, Vec<String>), TransformError>)
    ensures
        match r {
            Ok((b, unmatched)) => {
                &&& shadow_css(structure.name@, all_classes(*structure), full_css@) matches Ok((css, un))
                &&& b.web_component@ == web_component(tag_name@, *structure, css)
                &&& views(unmatched@) == un
                &&& b.tag_name@ == tag_name@
                &&& views(b.classes_used@) == all_classes(*structure)
                &&& b.attributes@ == structure.observed_attributes@
            },
            Err(e) => {
                &&& shadow_css(structure.name@, all_classes(*structure), full_css@) matches Err(ev)
                &&& e matches TransformError::RenderFailed { component, reason }
                &&& component@ == structure.name@
                &&& reason@ == scope_failure_text(ev)
            },
        },
{
    let classes = structure.collect_all_classes();
    match shadow_css_for_component(structure.name.as_str(), &classes, full_css) {
        Ok(shadow) => {
            let block = web_component_block(tag_name, structure, shadow.css.as_str());
            Ok((block, shadow.unmatched))
        },
        Err(error) => {
            let reason = error.message();
            assert(reason@ == scope_failure_text(error_view(error)));
            Err(TransformError::RenderFailed { component: owned(structure.name.as_str()), reason })
        },
    }
}

} // verus!
