//! Design tokens read from a DTCG token file.

use vstd::prelude::*;
use crate::text::{owned, push_str, starts_with, str_eq, str_starts_with, views};

verus! {

/// Errors from token parsing.
#[derive(Debug, Clone, PartialEq, Eq)]
pub enum TokenParseError {
    InvalidJson(String),
    InvalidFormat(String),
}

pub open spec fn token_error_message(e: TokenParseError) -> Seq<char> {
    match e {
        TokenParseError::InvalidJson(m) => "Invalid JSON: "@ + m@,
        TokenParseError::InvalidFormat(m) => "Invalid DTCG format: "@ + m@,
    }
}

impl TokenParseError {
    /// The error's message.
    pub fn message(&self) -> (r: String)
        ensures
            r@ == token_error_message(*self),
    {
        match self {
            TokenParseError::InvalidJson(m) => {
                let mut out = owned("Invalid JSON: ");
                push_str(&mut out, m.as_str());
                out
            },
            TokenParseError::InvalidFormat(m) => {
                let mut out = owned("Invalid DTCG format: ");
                push_str(&mut out, m.as_str());
                out
            },
        }
    }
}


/// A parsed JSON value, as the token walk reads it. Object entries keep
/// the order the parser gave them.
#[derive(Debug)]
pub enum JsonValue {
    Null,
    Bool(bool),
    /// A number, as its JSON text.
    Number(String),
    Str(String),
    Array(Vec<JsonValue>),
    Object(Vec<(String, JsonValue)>),
}

/// A JSON value as plain values.
pub enum JsonModel {
    Null,
    Bool(bool),
    Number(Seq<char>),
    Str(Seq<char>),
    Array(Seq<JsonModel>),
    Object(Seq<(Seq<char>, JsonModel)>),
}

/// The plain value a JSON value is.
pub open spec fn json_view(v: JsonValue) -> JsonModel
    decreases v, 2nat, 0nat,
{
    match v {
        JsonValue::Null => JsonModel::Null,
        JsonValue::Bool(b) => JsonModel::Bool(b),
        JsonValue::Number(t) => JsonModel::Number(t@),
        JsonValue::Str(t) => JsonModel::Str(t@),
        JsonValue::Array(xs) => {
            proof {
                assert(decreases_to!(xs => xs@));
            }
            JsonModel::Array(items_view(xs@, xs@.len()))
        },
        JsonValue::Object(es) => {
            proof {
                assert(decreases_to!(es => es@));
            }
            JsonModel::Object(entries_view(es@, es@.len()))
        },
    }
}

/// The plain values of the first `n` items.
pub open spec fn items_view(xs: Seq<JsonValue>, n: nat) -> Seq<JsonModel>
    decreases xs, 1nat, n,
{
    if n == 0 || n > xs.len() {
        seq![]
    } else {
        items_view(xs, (n - 1) as nat).push(json_view(xs[n - 1]))
    }
}

/// The plain values of the first `n` entries.
pub open spec fn entries_view(es: Seq<(String, JsonValue)>, n: nat) -> Seq<(Seq<char>, JsonModel)>
    decreases es, 1nat, n,
{
    if n == 0 || n > es.len() {
        seq![]
    } else {
        proof {
            assert(decreases_to!(es => es[n - 1]));
        }
        entries_view(es, (n - 1) as nat).push((es[n - 1].0@, json_view(es[n - 1].1)))
    }
}

/// One token leaf found by the walk: the object that holds `$value`, read
/// field by field. `value` is the raw `$value`.
#[derive(Debug)]
pub struct TokenLeaf {
    pub path: Vec<String>,
    pub value: JsonValue,
    pub token_type: String,
    pub description: String,
    pub extensions: Vec<(String, JsonValue)>,
}

/// The value under the first entry named `key`.
pub open spec fn lookup(es: Seq<(String, JsonValue)>, key: Seq<char>) -> Option<JsonValue>
    decreases es.len(),
{
    if es.len() == 0 {
        None
    } else if es[0].0@ == key {
        Some(es[0].1)
    } else {
        lookup(es.drop_first(), key)
    }
}

/// A string entry's text; empty when absent or not a string.
pub open spec fn str_field(es: Seq<(String, JsonValue)>, key: Seq<char>) -> Seq<char> {
    match lookup(es, key) {
        Some(JsonValue::Str(t)) => t@,
        _ => seq![],
    }
}

/// The entries of an object entry; none when absent or not an object.
pub open spec fn object_field(es: Seq<(String, JsonValue)>, key: Seq<char>) -> Seq<(String, JsonValue)> {
    match lookup(es, key) {
        Some(JsonValue::Object(x)) => x@,
        _ => seq![],
    }
}

/// A token leaf as plain values: path, value, type, description,
/// extensions.
pub open spec fn leaf_view(l: TokenLeaf) -> (Seq<Seq<char>>, JsonModel, Seq<char>, Seq<char>, Seq<(Seq<char>, JsonModel)>) {
    (views(l.path@), json_view(l.value), l.token_type@, l.description@, entries_view(l.extensions@, l.extensions@.len()))
}

pub open spec fn leaf_views(ls: Seq<TokenLeaf>) -> Seq<(Seq<Seq<char>>, JsonModel, Seq<char>, Seq<char>, Seq<(Seq<char>, JsonModel)>)> {
    ls.map_values(|l: TokenLeaf| leaf_view(l))
}

/// The leaf that an object holding `$value` at `path` is.
pub open spec fn leaf_of(es: Seq<(String, JsonValue)>, path: Seq<Seq<char>>) -> (Seq<Seq<char>>, JsonModel, Seq<char>, Seq<char>, Seq<(Seq<char>, JsonModel)>) {
    let ext = object_field(es, "$extensions"@);
    (path, json_view(lookup(es, "$value"@).unwrap()), str_field(es, "$type"@), str_field(es, "$description"@), entries_view(ext, ext.len()))
}

/// The token leaves under an object at `path`: itself when it holds
/// `$value`, else those of its object children, skipping `$` keys.
pub open spec fn leaves_of(es: Seq<(String, JsonValue)>, path: Seq<Seq<char>>) -> Seq<(Seq<Seq<char>>, JsonModel, Seq<char>, Seq<char>, Seq<(Seq<char>, JsonModel)>)>
    decreases es, 1nat,
{
    if lookup(es, "$value"@) is Some {
        seq![leaf_of(es, path)]
    } else {
        children_leaves(es, path, es.len())
    }
}

/// The leaves under the first `n` children of an object at `path`.
pub open spec fn children_leaves(es: Seq<(String, JsonValue)>, path: Seq<Seq<char>>, n: nat) -> Seq<(Seq<Seq<char>>, JsonModel, Seq<char>, Seq<char>, Seq<(Seq<char>, JsonModel)>)>
    decreases es, 0nat, n,
{
    if n == 0 || n > es.len() {
        seq![]
    } else {
        let k = es[n - 1].0@;
        let before = children_leaves(es, path, (n - 1) as nat);
        if k.len() > 0 && k[0] == '$' {
            before
        } else {
            match es[n - 1].1 {
                JsonValue::Object(x) => {
                    proof {
                        assert(decreases_to!(es => es[n - 1]));
                    }
                    before + leaves_of(x@, path.push(k))
                },
                _ => before,
            }
        }
    }
}


proof fn lemma_lookup(es: Seq<(String, JsonValue)>, key: Seq<char>, j: int)
    requires
        0 <= j <= es.len(),
        forall|m: int| 0 <= m < j ==> (#[trigger] es[m]).0@ != key,
        j < es.len() ==> es[j].0@ == key,
    ensures
        lookup(es, key) == (if j < es.len() { Some(es[j].1) } else { None::<JsonValue> }),
    decreases j,
{
    if es.len() > 0 && j > 0 {
        assert forall|m: int| 0 <= m < j - 1 implies (#[trigger] es.drop_first()[m]).0@ != key by {
            assert(es.drop_first()[m] == es[m + 1]);
        }
        assert(es[0].0@ != key);
        lemma_lookup(es.drop_first(), key, j - 1);
        if j < es.len() {
            assert(es.drop_first()[j - 1] == es[j]);
        }
    }
}

fn find_key(es: &Vec<(String, JsonValue)>, key: &str) -> (r: Option<usize>)
    ensures
        match r {
            Some(j) => j < es@.len() && lookup(es@, key@) == Some(es@[j as int].1),
            None => lookup(es@, key@) is None,
        },
{
    let mut i: usize = 0;
    while i < es.len()
        invariant
            i <= es@.len(),
            forall|m: int| 0 <= m < i ==> (#[trigger] es@[m]).0@ != key@,
        decreases es@.len() - i,
    {
        if str_eq(es[i].0.as_str(), key) {
            proof {
                lemma_lookup(es@, key@, i as int);
            }
            return Some(i);
        }
        i = i + 1;
    }
    proof {
        lemma_lookup(es@, key@, es@.len() as int);
    }
    None
}


proof fn lemma_items_view_push(s: Seq<JsonValue>, x: JsonValue, n: nat)
    requires
        n <= s.len(),
    ensures
        items_view(s.push(x), n) == items_view(s, n),
    decreases n,
{
    if n > 0 {
        lemma_items_view_push(s, x, (n - 1) as nat);
        assert(s.push(x)[n - 1] == s[n - 1]);
    }
}

proof fn lemma_entries_view_push(s: Seq<(String, JsonValue)>, x: (String, JsonValue), n: nat)
    requires
        n <= s.len(),
    ensures
        entries_view(s.push(x), n) == entries_view(s, n),
    decreases n,
{
    if n > 0 {
        lemma_entries_view_push(s, x, (n - 1) as nat);
        assert(s.push(x)[n - 1] == s[n - 1]);
    }
}

/// A copy of a JSON value.
pub fn copy_value(v: &JsonValue) -> (r: JsonValue)
    ensures
        json_view(r) == json_view(*v),
    decreases v, 2nat,
{
    match v {
        JsonValue::Null => JsonValue::Null,
        JsonValue::Bool(b) => JsonValue::Bool(*b),
        JsonValue::Number(t) => JsonValue::Number(t.clone()),
        JsonValue::Str(t) => JsonValue::Str(t.clone()),
        JsonValue::Array(xs) => {
            let mut out: Vec<JsonValue> = Vec::new();
            let mut i: usize = 0;
            while i < xs.len()
                invariant
                    i <= xs@.len(),
                    *v == JsonValue::Array(*xs),
                    out@.len() == i,
                    items_view(out@, i as nat) == items_view(xs@, i as nat),
                decreases xs@.len() - i,
            {
                proof {
                    assert(decreases_to!(*xs => xs[i as int]));
                    assert(decreases_to!(*v => (*v)->Array_0));
                    assert(decreases_to!(*v => xs[i as int]));
                }
                let c = copy_value(&xs[i]);
                let ghost before = out@;
                out.push(c);
                proof {
                    lemma_items_view_push(before, c, i as nat);
                    assert(out@[i as int] == c);
                }
                i = i + 1;
            }
            let r = JsonValue::Array(out);
            r
        },
        JsonValue::Object(es) => JsonValue::Object(copy_entries(v, es)),
    }
}

/// A copy of an object's entries.
fn copy_entries(owner: &JsonValue, es: &Vec<(String, JsonValue)>) -> (r: Vec<(String, JsonValue)>)
    requires
        *owner == JsonValue::Object(*es),
    ensures
        r@.len() == es@.len(),
        entries_view(r@, r@.len()) == entries_view(es@, es@.len()),
    decreases owner, 1nat,
{
    let mut out: Vec<(String, JsonValue)> = Vec::new();
    let mut i: usize = 0;
    while i < es.len()
        invariant
            i <= es@.len(),
            *owner == JsonValue::Object(*es),
            out@.len() == i,
            entries_view(out@, i as nat) == entries_view(es@, i as nat),
        decreases es@.len() - i,
    {
        proof {
            assert(decreases_to!(*es => es[i as int]));
            assert(decreases_to!(*owner => (*owner)->Object_0));
            assert(decreases_to!(*owner => es[i as int].1));
        }
        let c = copy_value(&es[i].1);
        let e = (es[i].0.clone(), c);
        let ghost before = out@;
        out.push(e);
        proof {
            lemma_entries_view_push(before, e, i as nat);
            assert(out@[i as int] == e);
        }
        i = i + 1;
    }
    out
}


fn str_entry(es: &Vec<(String, JsonValue)>, key: &str) -> (r: String)
    ensures
        r@ == str_field(es@, key@),
{
    match find_key(es, key) {
        Some(j) => match &es[j].1 {
            JsonValue::Str(t) => t.clone(),
            _ => String::new(),
        },
        None => String::new(),
    }
}

fn object_entry(owner: &JsonValue, es: &Vec<(String, JsonValue)>, key: &str) -> (r: Vec<(String, JsonValue)>)
    requires
        *owner == JsonValue::Object(*es),
    ensures
        entries_view(r@, r@.len()) == ({
            let x = object_field(es@, key@);
            entries_view(x, x.len())
        }),
{
    match find_key(es, key) {
        Some(j) => match &es[j].1 {
            JsonValue::Object(x) => copy_entries(&es[j].1, x),
            _ => Vec::new(),
        },
        None => Vec::new(),
    }
}

fn walk(owner: &JsonValue, es: &Vec<(String, JsonValue)>, path: &Vec<String>, out: &mut Vec<TokenLeaf>)
    requires
        *owner == JsonValue::Object(*es),
    ensures
        leaf_views(final(out)@) == leaf_views(old(out)@) + leaves_of(es@, views(path@)),
    decreases owner,
{
    let ghost out0 = leaf_views(out@);
    match find_key(es, "$value") {
        Some(j) => {
            let value = copy_value(&es[j].1);
            let token_type = str_entry(es, "$type");
            let description = str_entry(es, "$description");
            let extensions = object_entry(owner, es, "$extensions");
            let mut p: Vec<String> = Vec::new();
            let mut k: usize = 0;
            while k < path.len()
                invariant
                    k <= path@.len(),
                    p@ == path@.take(k as int),
                decreases path@.len() - k,
            {
                p.push(path[k].clone());
                assert(p@ =~= path@.take(k + 1));
                k = k + 1;
            }
            assert(path@.take(path@.len() as int) =~= path@);
            let leaf = TokenLeaf { path: p, value, token_type, description, extensions };
            let ghost before = out@;
            out.push(leaf);
            assert(leaf_views(out@) =~= leaf_views(before).push(leaf_view(leaf)));
            assert(leaves_of(es@, views(path@)) =~= seq![leaf_of(es@, views(path@))]);
        },
        None => {
            let mut i: usize = 0;
            while i < es.len()
                invariant
                    i <= es@.len(),
                    *owner == JsonValue::Object(*es),
                    lookup(es@, "$value"@) is None,
                    leaf_views(out@) == out0 + children_leaves(es@, views(path@), i as nat),
                decreases es@.len() - i,
            {
                proof {
                    reveal_strlit("$");
                }
                let key = &es[i].0;
                let dollar = str_starts_with(key.as_str(), "$");
                assert(dollar == (key@.len() > 0 && key@[0] == '$')) by {
                    if key@.len() > 0 && key@[0] == '$' {
                        assert(key@.take(1) =~= "$"@);
                    }
                    if dollar {
                        assert(key@.take(1)[0] == "$"@[0]);
                    }
                }
                assert(es@[i as int].0 == *key);
                if dollar {
                    assert(children_leaves(es@, views(path@), (i + 1) as nat) == children_leaves(es@, views(path@), i as nat));
                }
                if !dollar {
                    match &es[i].1 {
                        JsonValue::Object(x) => {
                            let mut child: Vec<String> = Vec::new();
                            let mut k: usize = 0;
                            while k < path.len()
                                invariant
                                    k <= path@.len(),
                                    child@ == path@.take(k as int),
                                decreases path@.len() - k,
                            {
                                child.push(path[k].clone());
                                assert(child@ =~= path@.take(k + 1));
                                k = k + 1;
                            }
                            child.push(key.clone());
                            assert(views(child@) =~= views(path@).push(key@));
                            proof {
                                assert(decreases_to!(*es => es[i as int]));
                                assert(decreases_to!(*owner => (*owner)->Object_0));
                                assert(decreases_to!(*owner => es[i as int].1));
                            }
                            walk(&es[i].1, x, &child, out);
                            assert(children_leaves(es@, views(path@), (i + 1) as nat) == children_leaves(es@, views(path@), i as nat)
                                + leaves_of(x@, views(path@).push(key@)));
                            assert(out0 + children_leaves(es@, views(path@), i as nat) + leaves_of(x@, views(path@).push(key@))
                                =~= out0 + children_leaves(es@, views(path@), (i + 1) as nat));
                        },
                        _ => {
                            assert(children_leaves(es@, views(path@), (i + 1) as nat) == children_leaves(es@, views(path@), i as nat));
                        },
                    }
                }
                i = i + 1;
            }
        },
    }
}

/// The token leaves of a parsed DTCG document: every object holding
/// `$value`, at its path of group names; groups are walked in entry order
/// and `$`-prefixed group keys are skipped. The root must be an object.
pub fn token_leaves(root: &JsonValue) -> (r: Result<Vec<TokenLeaf>, TokenParseError>)
    ensures
        match root {
            JsonValue::Object(es) => r matches Ok(ls) && leaf_views(ls@) == leaves_of(es@, seq![]),
            _ => r matches Err(TokenParseError::InvalidFormat(m)) && m@ == "Root must be a JSON object"@,
        },
{
    match root {
        JsonValue::Object(es) => {
            let mut out: Vec<TokenLeaf> = Vec::new();
            let path: Vec<String> = Vec::new();
            assert(views(path@) =~= Seq::<Seq<char>>::empty());
            walk(root, es, &path, &mut out);
            assert(leaf_views(out@) =~= leaves_of(es@, seq![]));
            Ok(out)
        },
        _ => Err(TokenParseError::InvalidFormat(owned("Root must be a JSON object"))),
    }
}


/// A single design token.
#[derive(Debug)]
pub struct DesignToken {
    /// Token path (for example `["color", "neutral", "50"]`).
    pub path: Vec<String>,
    /// Token value: a string `$value` verbatim, any other `$value` as its
    /// JSON text.
    pub value: String,
    /// Token type (`color`, `dimension`, ...); empty when not declared.
    pub token_type: String,
    /// Description; empty when not declared.
    pub description: String,
    /// Extensions (vendor-specific metadata), by vendor key.
    pub extensions: Vec<(String, JsonValue)>,
}

/// The flattened tokens of a DTCG file.
#[derive(Debug)]
pub struct DesignTokens {
    pub tokens: Vec<DesignToken>,
}

impl Default for DesignTokens {
    /// No tokens.
    fn default() -> (r: Self)
        ensures
            r.tokens@.len() == 0,
    {
        DesignTokens { tokens: Vec::new() }
    }
}

impl DesignToken {
    /// The token a leaf is. `rendered` is the JSON text of the leaf's
    /// `$value`, used when that value is not a string.
    pub fn from_leaf(leaf: TokenLeaf, rendered: String) -> (r: DesignToken)
        ensures
            views(r.path@) == views(leaf.path@),
            r.value@ == (match json_view(leaf.value) {
                JsonModel::Str(t) => t,
                _ => rendered@,
            }),
            r.token_type@ == leaf.token_type@,
            r.description@ == leaf.description@,
            r.extensions@ == leaf.extensions@,
    {
        let value = match leaf.value {
            JsonValue::Str(t) => t,
            _ => rendered,
        };
        DesignToken {
            path: leaf.path,
            value,
            token_type: leaf.token_type,
            description: leaf.description,
            extensions: leaf.extensions,
        }
    }
}

/// `prefix` is a leading run of `path`'s segments.
pub open spec fn path_starts_with(path: Seq<Seq<char>>, prefix: Seq<Seq<char>>) -> bool {
    prefix.len() <= path.len() && forall|i: int| 0 <= i < prefix.len() ==> path[i] == prefix[i]
}

pub open spec fn refs_of_tokens(r: Seq<&DesignToken>) -> Seq<DesignToken> {
    r.map_values(|d: &DesignToken| *d)
}

impl DesignTokens {
    /// The tokens whose `$type` is `token_type`, in order.
    pub fn by_type(&self, token_type: &str) -> (r: Vec<&DesignToken>)
        ensures
            refs_of_tokens(r@) == self.tokens@.filter(|d: DesignToken| d.token_type@ == token_type@),
    {
        let mut r: Vec<&DesignToken> = Vec::new();
        let mut i: usize = 0;
        while i < self.tokens.len()
            invariant
                i <= self.tokens@.len(),
                refs_of_tokens(r@) == self.tokens@.take(i as int).filter(|d: DesignToken| d.token_type@ == token_type@),
            decreases self.tokens@.len() - i,
        {
            let ghost pred = |d: DesignToken| d.token_type@ == token_type@;
            assert(self.tokens@.take(i + 1) =~= self.tokens@.take(i as int).push(self.tokens@[i as int]));
            proof {
                self.tokens@.take(i as int).lemma_filter_push(self.tokens@[i as int], pred);
            }
            let t = &self.tokens[i];
            if str_eq(t.token_type.as_str(), token_type) {
                let ghost before = r@;
                r.push(t);
                assert(refs_of_tokens(r@) =~= refs_of_tokens(before).push(*t));
            }
            i = i + 1;
        }
        assert(self.tokens@.take(self.tokens@.len() as int) =~= self.tokens@);
        r
    }

    /// The tokens whose path starts with the segments `prefix`, in order.
    pub fn by_path_prefix(&self, prefix: &[&str]) -> (r: Vec<&DesignToken>)
        ensures
            refs_of_tokens(r@) == self.tokens@.filter(
                |d: DesignToken| path_starts_with(views(d.path@), prefix@.map_values(|p: &str| p@)),
            ),
    {
        let ghost pv = prefix@.map_values(|p: &str| p@);
        let ghost pred = |d: DesignToken| path_starts_with(views(d.path@), pv);
        let mut r: Vec<&DesignToken> = Vec::new();
        let mut i: usize = 0;
        while i < self.tokens.len()
            invariant
                i <= self.tokens@.len(),
                pv == prefix@.map_values(|p: &str| p@),
                pred == (|d: DesignToken| path_starts_with(views(d.path@), pv)),
                refs_of_tokens(r@) == self.tokens@.take(i as int).filter(pred),
            decreases self.tokens@.len() - i,
        {
            assert(self.tokens@.take(i + 1) =~= self.tokens@.take(i as int).push(self.tokens@[i as int]));
            proof {
                self.tokens@.take(i as int).lemma_filter_push(self.tokens@[i as int], pred);
            }
            let t = &self.tokens[i];
            let mut ok = t.path.len() >= prefix.len();
            let mut k: usize = 0;
            while ok && k < prefix.len()
                invariant
                    k <= prefix@.len(),
                    pv == prefix@.map_values(|p: &str| p@),
                    ok ==> prefix@.len() <= t.path@.len(),
                    ok ==> forall|m: int| 0 <= m < k ==> t.path@[m]@ == pv[m],
                    !ok ==> !path_starts_with(views(t.path@), pv),
                decreases prefix@.len() - k + (if ok { 1int } else { 0int }),
            {
                if !str_eq(t.path[k].as_str(), prefix[k]) {
                    ok = false;
                    assert(views(t.path@)[k as int] != pv[k as int]);
                } else {
                    k = k + 1;
                }
            }
            assert(ok == path_starts_with(views(t.path@), pv)) by {
                if ok {
                    assert forall|m: int| 0 <= m < pv.len() implies views(t.path@)[m] == pv[m] by {
                        assert(t.path@[m]@ == pv[m]);
                    }
                }
            }
            if ok {
                let ghost before = r@;
                r.push(t);
                assert(refs_of_tokens(r@) =~= refs_of_tokens(before).push(*t));
            }
            i = i + 1;
        }
        assert(self.tokens@.take(self.tokens@.len() as int) =~= self.tokens@);
        r
    }

    /// Each token that carries an extension under `vendor`, paired with
    /// that extension's value, in order.
    pub fn get_extensions(&self, vendor: &str) -> (r: Vec<(&DesignToken, &JsonValue)>)
        ensures
            r@.len() <= self.tokens@.len(),
            r@.map_values(|e: (&DesignToken, &JsonValue)| (*e.0, *e.1)) == extension_hits(self.tokens@, vendor@),
    {
        let ghost want = extension_hits(self.tokens@, vendor@);
        let mut r: Vec<(&DesignToken, &JsonValue)> = Vec::new();
        let mut i: usize = 0;
        while i < self.tokens.len()
            invariant
                i <= self.tokens@.len(),
                r@.len() <= i,
                r@.map_values(|e: (&DesignToken, &JsonValue)| (*e.0, *e.1)) == extension_hits(self.tokens@.take(i as int), vendor@),
            decreases self.tokens@.len() - i,
        {
            assert(self.tokens@.take(i + 1).drop_last() =~= self.tokens@.take(i as int));
            let t = &self.tokens[i];
            match find_key(&t.extensions, vendor) {
                Some(j) => {
                    let ghost before = r@;
                    r.push((t, &t.extensions[j].1));
                    assert(r@.map_values(|e: (&DesignToken, &JsonValue)| (*e.0, *e.1)) =~= before.map_values(
                        |e: (&DesignToken, &JsonValue)| (*e.0, *e.1),
                    ).push((*t, t.extensions@[j as int].1)));
                },
                None => {},
            }
            i = i + 1;
        }
        assert(self.tokens@.take(self.tokens@.len() as int) =~= self.tokens@);
        r
    }
}

/// The tokens carrying an extension under `vendor`, each with its value.
pub open spec fn extension_hits(ts: Seq<DesignToken>, vendor: Seq<char>) -> Seq<(DesignToken, JsonValue)>
    decreases ts.len(),
{
    if ts.len() == 0 {
        seq![]
    } else {
        let before = extension_hits(ts.drop_last(), vendor);
        match lookup(ts.last().extensions@, vendor) {
            Some(v) => before.push((ts.last(), v)),
            None => before,
        }
    }
}

} // verus!
