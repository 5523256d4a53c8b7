//! Inline JSX snippets of documentation code blocks (for example
//! `<Button variant="default">Click me</Button>`): the parsed shape, and
//! turning it into the custom element tag of a Web Component preview.

use vstd::prelude::*;
use vstd::string::*;
use crate::text::{
    chars_of, concat, escaped, join, lines, owned, push_escaped, push_str, split_lines, starts_with,
    trim_start, vec_starts_with, views, vviews, Escape,
};

use crate::ts_syntax::{parse_jsx, parsed_jsx, JsxAttrValue, JsxChildNode, JsxNode, JsxTop};

verus! {

/// Parsed inline JSX element.
#[derive(Debug, Clone, PartialEq)]
pub struct InlineJsx {
    /// Component name (e.g., "Button")
    pub component: String,
    /// Props as name-value pairs, in source order, each name once.
    pub props: Vec<(String, PropValue)>,
    /// Children content (text or nested JSX as string)
    pub children: Option<String>,
    /// Whether self-closing
    pub self_closing: bool,
}

/// A prop value from JSX.
#[derive(Debug, Clone, PartialEq)]
pub enum PropValue {
    /// String literal: variant="default"
    String(String),
    /// Boolean (presence): disabled
    Boolean(bool),
    /// Expression: onClick={() => {}}
    Expression(String),
}

impl PropValue {
    /// Get as string if it's a string value.
    pub fn as_str(&self) -> (r: Option<&str>)
        ensures
            match *self {
                PropValue::String(s) => r matches Some(t) && t@ == s@,
                _ => r is None,
            },
    {
        match self {
            PropValue::String(s) => Some(s.as_str()),
            _ => None,
        }
    }
}

impl InlineJsx {
    /// The value of a prop, by name.
    pub fn prop(&self, name: &str) -> (r: Option<&PropValue>)
        ensures
            match r {
                Some(v) => exists|i: int| 0 <= i < self.props@.len() && self.props@[i].0@ == name@ && self.props@[i].1 == *v,
                None => forall|i: int| 0 <= i < self.props@.len() ==> self.props@[i].0@ != name@,
            },
    {
        let mut i: usize = 0;
        while i < self.props.len()
            invariant
                i <= self.props@.len(),
                forall|j: int| 0 <= j < i ==> self.props@[j].0@ != name@,
            decreases self.props@.len() - i,
        {
            if crate::text::str_eq(self.props[i].0.as_str(), name) {
                return Some(&self.props[i].1);
            }
            i = i + 1;
        }
        None
    }
}

/// The attribute a prop renders as on the static preview: a string value
/// as `name="value"` (HTML-escaped), a true boolean as the bare name;
/// false booleans and expressions render nothing.
pub open spec fn prop_attribute(name: Seq<char>, value: PropValue) -> Option<Seq<char>> {
    match value {
        PropValue::String(s) => Some(name + "=\""@ + escaped(Escape::Html, s@) + "\""@),
        PropValue::Boolean(b) => if b {
            Some(name)
        } else {
            None
        },
        PropValue::Expression(_) => None,
    }
}

/// The rendered attributes of the props, in order.
pub open spec fn prop_attributes(props: Seq<(String, PropValue)>) -> Seq<Seq<char>>
    decreases props.len(),
{
    if props.len() == 0 {
        seq![]
    } else {
        let rest = prop_attributes(props.drop_last());
        match prop_attribute(props.last().0@, props.last().1) {
            Some(a) => rest.push(a),
            None => rest,
        }
    }
}

/// The custom element for a parsed snippet.
pub open spec fn custom_element(jsx: InlineJsx, tag: Seq<char>) -> Seq<char> {
    let attrs = prop_attributes(jsx.props@);
    let attrs_str = if attrs.len() == 0 {
        Seq::<char>::empty()
    } else {
        " "@ + join(attrs, " "@)
    };
    "<"@ + tag + attrs_str + ">"@ + (match jsx.children {
        Some(c) => c@,
        None => Seq::<char>::empty(),
    }) + "</"@ + tag + ">"@
}

/// Convert parsed inline JSX to a Web Component custom element tag.
pub fn to_custom_element(jsx: &InlineJsx, tag_name: &str) -> (r: String)
    ensures
        r@ == custom_element(*jsx, tag_name@),
{
    let mut attrs: Vec<String> = Vec::new();
    let mut i: usize = 0;
    while i < jsx.props.len()
        invariant
            i <= jsx.props@.len(),
            views(attrs@) == prop_attributes(jsx.props@.take(i as int)),
        decreases jsx.props@.len() - i,
    {
        assert(jsx.props@.take(i + 1).drop_last() =~= jsx.props@.take(i as int));
        assert(jsx.props@.take(i + 1).last() == jsx.props@[i as int]);
        let ghost a0 = views(attrs@);
        let name = jsx.props[i].0.as_str();
        match &jsx.props[i].1 {
            PropValue::String(s) => {
                let mut a = owned(name);
                push_str(&mut a, "=\"");
                push_escaped(&mut a, Escape::Html, s.as_str());
                push_str(&mut a, "\"");
                attrs.push(a);
                assert(views(attrs@) =~= a0.push(name@ + "=\""@ + escaped(Escape::Html, s@) + "\""@));
            },
            PropValue::Boolean(b) => {
                if *b {
                    attrs.push(owned(name));
                    assert(views(attrs@) =~= a0.push(name@));
                }
            },
            PropValue::Expression(_) => {},
        }
        i = i + 1;
    }
    assert(jsx.props@.take(jsx.props@.len() as int) =~= jsx.props@);
    let mut r = owned("<");
    push_str(&mut r, tag_name);
    if attrs.len() > 0 {
        push_str(&mut r, " ");
        let joined = crate::text::join_strings(&attrs, " ");
        push_str(&mut r, joined.as_str());
    }
    push_str(&mut r, ">");
    match &jsx.children {
        Some(c) => push_str(&mut r, c.as_str()),
        None => {},
    }
    push_str(&mut r, "</");
    push_str(&mut r, tag_name);
    push_str(&mut r, ">");
    r
}

/// Escape HTML special characters, single quotes included.
pub fn html_escape(s: &str) -> (r: String)
    ensures
        r@ == escaped(Escape::Html, s@),
{
    crate::text::escape(Escape::Html, s)
}

/// The lines of a snippet that are not `//` comments.
pub open spec fn code_lines(ls: Seq<Seq<char>>) -> Seq<Seq<char>>
    decreases ls.len(),
{
    if ls.len() == 0 {
        seq![]
    } else if starts_with(trim_start(ls.last()), "//"@) {
        code_lines(ls.drop_last())
    } else {
        code_lines(ls.drop_last()).push(ls.last())
    }
}

/// Strip single-line JS comments (`// ...` lines) from a snippet.
pub fn strip_js_line_comments(source: &str) -> (r: String)
    ensures
        r@ == join(code_lines(lines(source@)), "\n"@),
{
    let ls = split_lines(&chars_of(source));
    let ghost lv = vviews(ls@);
    let slash = chars_of("//");
    let mut kept: Vec<String> = Vec::new();
    let mut i: usize = 0;
    while i < ls.len()
        invariant
            i <= ls@.len(),
            lv == vviews(ls@),
            lv == lines(source@),
            slash@ == "//"@,
            views(kept@) == code_lines(lv.take(i as int)),
        decreases ls@.len() - i,
    {
        assert(lv.take(i + 1).drop_last() =~= lv.take(i as int));
        assert(lv.take(i + 1).last() == lv[i as int]);
        let a = crate::text::skip_ws_from(&ls[i], 0, ls[i].len());
        assert(ls@[i as int]@.subrange(0, ls@[i as int]@.len() as int) =~= ls@[i as int]@);
        let t = crate::text::sub_chars(&ls[i], a, ls[i].len());
        if !vec_starts_with(&t, &slash) {
            let ghost k0 = views(kept@);
            kept.push(crate::text::string_of(&ls[i], 0, ls[i].len()));
            assert(ls@[i as int]@.subrange(0, ls@[i as int]@.len() as int) =~= ls@[i as int]@);
            assert(views(kept@) =~= k0.push(lv[i as int]));
        }
        i = i + 1;
    }
    assert(lv.take(ls@.len() as int) =~= lv);
    crate::text::join_strings(&kept, "\n")
}

/// A snippet of adjacent elements, comments stripped and wrapped in a
/// fragment so the elements parse as its children.
pub fn fragment_source(source: &str) -> (r: String)
    ensures
        r@ == "<>\n"@ + join(code_lines(lines(source@)), "\n"@) + "\n</>"@,
{
    let stripped = strip_js_line_comments(source);
    let mut r = owned("<>\n");
    push_str(&mut r, stripped.as_str());
    push_str(&mut r, "\n</>");
    r
}

// ---------------------------------------------------------------------------
// Reading a JSX snippet
// ---------------------------------------------------------------------------

/// A prop value as plain values.
pub enum JsxValueView {
    Text(Seq<char>),
    Flag(bool),
    Code(Seq<char>),
}

pub open spec fn prop_value_view(p: PropValue) -> JsxValueView {
    match p {
        PropValue::String(s) => JsxValueView::Text(s@),
        PropValue::Boolean(b) => JsxValueView::Flag(b),
        PropValue::Expression(e) => JsxValueView::Code(e@),
    }
}

/// The prop value an attribute's value gives: a bare attribute is `true`,
/// a string literal its text, an expression, element or fragment its
/// source text (an empty container the empty text).
pub open spec fn attr_value(v: JsxAttrValue) -> JsxValueView {
    match v {
        JsxAttrValue::Absent => JsxValueView::Flag(true),
        JsxAttrValue::Str(s) => JsxValueView::Text(s@),
        JsxAttrValue::Empty => JsxValueView::Code(seq![]),
        JsxAttrValue::Code(t) => JsxValueView::Code(t@),
    }
}

/// The index of the first prop named `n` at or after `i`, or -1.
pub open spec fn prop_index_from(ps: Seq<(Seq<char>, JsxValueView)>, n: Seq<char>, i: int) -> int
    decreases ps.len() - i,
{
    if i < 0 || i >= ps.len() {
        -1
    } else if ps[i].0 == n {
        i
    } else {
        prop_index_from(ps, n, i + 1)
    }
}

/// The props after one more attribute: a repeated name keeps its place and
/// takes the later value.
pub open spec fn set_prop(ps: Seq<(Seq<char>, JsxValueView)>, n: Seq<char>, v: JsxValueView) -> Seq<(Seq<char>, JsxValueView)> {
    let k = prop_index_from(ps, n, 0);
    if k >= 0 {
        ps.update(k, (n, v))
    } else {
        ps.push((n, v))
    }
}

/// The props of an element's attributes, in order (spreads left out).
pub open spec fn props_of(attrs: Seq<Option<(String, JsxAttrValue)>>) -> Seq<(Seq<char>, JsxValueView)>
    decreases attrs.len(),
{
    if attrs.len() == 0 {
        seq![]
    } else {
        let rest = props_of(attrs.drop_last());
        match attrs.last() {
            Some(a) => set_prop(rest, a.0@, attr_value(a.1)),
            None => rest,
        }
    }
}

/// An element's children as text: none without children or when only
/// white space; a lone text child trimmed; otherwise the trimmed source
/// text of all children.
pub open spec fn children_of(n: JsxNode) -> Option<Seq<char>> {
    if n.children@.len() == 0 {
        None
    } else {
        let t = if n.children@.len() == 1 && n.children@[0] is Text {
            crate::text::trim(n.children@[0]->Text_0@)
        } else {
            crate::text::trim(n.children_text@)
        };
        if t.len() == 0 {
            None
        } else {
            Some(t)
        }
    }
}

/// An element as plain values: component, props, children, self-closing.
pub open spec fn node_view(n: JsxNode) -> (Seq<char>, Seq<(Seq<char>, JsxValueView)>, Option<Seq<char>>, bool) {
    (n.name@, props_of(n.attributes@), children_of(n), n.self_closing)
}

pub open spec fn inline_view(j: InlineJsx) -> (Seq<char>, Seq<(Seq<char>, JsxValueView)>, Option<Seq<char>>, bool) {
    (j.component@, j.props@.map_values(|p: (String, PropValue)| (p.0@, prop_value_view(p.1))), match j.children {
        Some(c) => Some(c@),
        None => None,
    }, j.self_closing)
}

pub open spec fn inline_views(js: Seq<InlineJsx>) -> Seq<(Seq<char>, Seq<(Seq<char>, JsxValueView)>, Option<Seq<char>>, bool)> {
    js.map_values(|j: InlineJsx| inline_view(j))
}

/// The elements of a fragment's children, in order.
pub open spec fn fragment_nodes(cs: Seq<Option<JsxNode>>) -> Seq<(Seq<char>, Seq<(Seq<char>, JsxValueView)>, Option<Seq<char>>, bool)>
    decreases cs.len(),
{
    if cs.len() == 0 {
        seq![]
    } else {
        match cs.last() {
            Some(n) => fragment_nodes(cs.drop_last()).push(node_view(n)),
            None => fragment_nodes(cs.drop_last()),
        }
    }
}

/// The top-level elements of a snippet's statements: an element itself, a
/// fragment's element children.
pub open spec fn top_nodes(ts: Seq<JsxTop>) -> Seq<(Seq<char>, Seq<(Seq<char>, JsxValueView)>, Option<Seq<char>>, bool)>
    decreases ts.len(),
{
    if ts.len() == 0 {
        seq![]
    } else {
        let rest = top_nodes(ts.drop_last());
        match ts.last() {
            JsxTop::Element(n) => rest.push(node_view(n)),
            JsxTop::Fragment(cs) => rest + fragment_nodes(cs@),
            JsxTop::Other => rest,
        }
    }
}

/// The top-level elements of a snippet as parsed; none when the parser
/// gave up.
pub open spec fn elements_of(source: Seq<char>) -> Seq<(Seq<char>, Seq<(Seq<char>, JsxValueView)>, Option<Seq<char>>, bool)> {
    match parsed_jsx(source) {
        Some(ts) => top_nodes(ts@),
        None => seq![],
    }
}

fn prop_index(ps: &Vec<(String, PropValue)>, n: &str) -> (r: Option<usize>)
    ensures
        match r {
            Some(k) => k < ps@.len() && k == prop_index_from(inline_props(ps@), n@, 0),
            None => prop_index_from(inline_props(ps@), n@, 0) == -1,
        },
{
    let ghost pv = inline_props(ps@);
    let mut i: usize = 0;
    while i < ps.len()
        invariant
            i <= ps@.len(),
            pv == inline_props(ps@),
            prop_index_from(pv, n@, 0) == prop_index_from(pv, n@, i as int),
        decreases ps@.len() - i,
    {
        if crate::text::str_eq(ps[i].0.as_str(), n) {
            return Some(i);
        }
        i = i + 1;
    }
    None
}

pub open spec fn inline_props(ps: Seq<(String, PropValue)>) -> Seq<(Seq<char>, JsxValueView)> {
    ps.map_values(|p: (String, PropValue)| (p.0@, prop_value_view(p.1)))
}

fn value_of_attr(v: &JsxAttrValue) -> (r: PropValue)
    ensures
        prop_value_view(r) == attr_value(*v),
{
    match v {
        JsxAttrValue::Absent => PropValue::Boolean(true),
        JsxAttrValue::Str(s) => PropValue::String(owned(s.as_str())),
        JsxAttrValue::Empty => {
            let e = String::new();
            PropValue::Expression(e)
        },
        JsxAttrValue::Code(t) => PropValue::Expression(owned(t.as_str())),
    }
}

fn inline_of(n: &JsxNode) -> (r: InlineJsx)
    ensures
        inline_view(r) == node_view(*n),
{
    let mut props: Vec<(String, PropValue)> = Vec::new();
    assert(inline_props(props@) =~= seq![]);
    let mut i: usize = 0;
    while i < n.attributes.len()
        invariant
            i <= n.attributes@.len(),
            inline_props(props@) == props_of(n.attributes@.take(i as int)),
        decreases n.attributes@.len() - i,
    {
        assert(n.attributes@.take(i + 1).drop_last() =~= n.attributes@.take(i as int));
        if let Some(a) = &n.attributes[i] {
            let value = value_of_attr(&a.1);
            let ghost before = inline_props(props@);
            match prop_index(&props, a.0.as_str()) {
                Some(k) => {
                    props.set(k, (owned(a.0.as_str()), value));
                    assert(inline_props(props@) =~= before.update(k as int, (a.0@, prop_value_view(value))));
                },
                None => {
                    props.push((owned(a.0.as_str()), value));
                    assert(inline_props(props@) =~= before.push((a.0@, prop_value_view(value))));
                },
            }
        }
        i = i + 1;
    }
    assert(n.attributes@.take(n.attributes@.len() as int) =~= n.attributes@);
    let children = if n.children.len() == 0 {
        None
    } else {
        let t = if n.children.len() == 1 && matches!(n.children[0], JsxChildNode::Text(_)) {
            match &n.children[0] {
                JsxChildNode::Text(v) => crate::text::trim_str(v.as_str()),
                JsxChildNode::Other => crate::text::trim_str(n.children_text.as_str()),
            }
        } else {
            crate::text::trim_str(n.children_text.as_str())
        };
        if t.as_str().unicode_len() == 0 {
            None
        } else {
            Some(t)
        }
    };
    let r = InlineJsx { component: owned(n.name.as_str()), props, children, self_closing: n.self_closing };
    assert(inline_view(r).1 =~= inline_props(r.props@));
    r
}

fn push_inline(out: &mut Vec<InlineJsx>, n: &JsxNode)
    ensures
        inline_views(final(out)@) == inline_views(old(out)@).push(node_view(*n)),
{
    let j = inline_of(n);
    let ghost before = inline_views(out@);
    out.push(j);
    assert(inline_views(out@) =~= before.push(inline_view(j)));
}

fn try_parse_jsx_elements(source: &str) -> (r: Vec<InlineJsx>)
    ensures
        inline_views(r@) == elements_of(source@),
{
    match parse_jsx(source) {
        Some(tops) => inline_elements(&tops),
        None => {
            let out: Vec<InlineJsx> = Vec::new();
            assert(inline_views(out@) =~= seq![]);
            out
        },
    }
}

/// The top-level elements of a parsed snippet's statements: each element
/// statement, and each element child of a fragment statement, in order.
pub fn inline_elements(tops: &Vec<JsxTop>) -> (r: Vec<InlineJsx>)
    ensures
        inline_views(r@) == top_nodes(tops@),
{
    let mut out: Vec<InlineJsx> = Vec::new();
    assert(inline_views(out@) =~= seq![]);
    let mut i: usize = 0;
    while i < tops.len()
        invariant
            i <= tops@.len(),
            inline_views(out@) == top_nodes(tops@.take(i as int)),
        decreases tops@.len() - i,
    {
        assert(tops@.take(i + 1).drop_last() =~= tops@.take(i as int));
        match &tops[i] {
            JsxTop::Element(n) => push_inline(&mut out, n),
            JsxTop::Fragment(cs) => {
                let ghost o0 = inline_views(out@);
                let mut j: usize = 0;
                while j < cs.len()
                    invariant
                        j <= cs@.len(),
                        inline_views(out@) == o0 + fragment_nodes(cs@.take(j as int)),
                    decreases cs@.len() - j,
                {
                    assert(cs@.take(j + 1).drop_last() =~= cs@.take(j as int));
                    if let Some(n) = &cs[j] {
                        push_inline(&mut out, n);
                        assert(o0 + fragment_nodes(cs@.take(j + 1)) =~= (o0 + fragment_nodes(cs@.take(j as int))).push(
                            node_view(*n),
                        ));
                    }
                    j = j + 1;
                }
                assert(cs@.take(cs@.len() as int) =~= cs@);
            },
            JsxTop::Other => {},
        }
        i = i + 1;
    }
    assert(tops@.take(tops@.len() as int) =~= tops@);
    out
}

/// Every top-level JSX element of a snippet (trimmed): read as written, or
/// when that gives none, read as the children of a fragment with its line
/// comments stripped.
pub fn parse_inline_jsx_all(source: &str) -> (r: Vec<InlineJsx>)
    ensures
        ({
            let t = crate::text::trim(source@);
            inline_views(r@) == if elements_of(t).len() > 0 {
                elements_of(t)
            } else {
                elements_of("<>\n"@ + join(code_lines(lines(t)), "\n"@) + "\n</>"@)
            }
        }),
{
    let trimmed = crate::text::trim_str(source);
    let results = try_parse_jsx_elements(trimmed.as_str());
    if results.len() > 0 {
        return results;
    }
    try_parse_jsx_elements(fragment_source(trimmed.as_str()).as_str())
}

/// The first top-level JSX element of a snippet (see `parse_inline_jsx_all`).
pub fn parse_inline_jsx(source: &str) -> (r: Option<InlineJsx>)
    ensures
        ({
            let t = crate::text::trim(source@);
            let all = if elements_of(t).len() > 0 {
                elements_of(t)
            } else {
                elements_of("<>\n"@ + join(code_lines(lines(t)), "\n"@) + "\n</>"@)
            };
            match r {
                Some(j) => all.len() > 0 && inline_view(j) == all[0],
                None => all.len() == 0,
            }
        }),
{
    let mut all = parse_inline_jsx_all(source);
    if all.len() == 0 {
        None
    } else {
        let ghost v = inline_views(all@);
        let first = all.remove(0);
        assert(inline_view(first) == v[0]);
        Some(first)
    }
}

} // verus!
