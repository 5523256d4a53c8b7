//! CSS scoping for Web Components using Shadow DOM.
//!
//! Extracts the minimal set of CSS rules from a Tailwind v4 stylesheet so that
//! a Web Component can load only what it needs via a constructable stylesheet:
//! the `@utility` blocks its classes name, and the `@theme` custom-property
//! declarations those blocks reference.
//!
//! The stylesheet grammar read here is this project's:
//!
//! - a utility block opens with `@utility`, white space, a name of word
//!   characters and `-`, optional white space, and `{`; its body runs to the
//!   matching `}`;
//! - a theme block opens with `@theme`, optional white space and `{`;
//! - a variable reference is `var(`, optional white space, `--` and a name;
//! - a theme declaration is `--name`, optional white space, `:`, at least one
//!   character other than `;`, and `;`.
//!
//! Occurrences are found left to right without overlap, each search
//! resuming after the previous occurrence.

use vstd::prelude::*;
use vstd::string::*;
use crate::cli_parser::{is_name_char, lemma_next_not_name, next_not_name};
use crate::ts_syntax::{parse_ts_module, parsed_module, TsArrowStatement, TsDeclarator, TsElement, TsExpr, TsModule, TsProperty, TsStatement};
use crate::ts_read::{template_value, template_value_exec};
use crate::ts_helpers::{scopable, scopable_class_token};
use crate::text::{
    chars_of, find_char, is_whitespace, join, join_strings, lemma_next_char, lemma_next_non_ws,
    matches_at, next_char, next_non_ws, occurs_at, owned, push_char, push_range, push_str,
    starts_with, string_of, str_eq, trim, trim_end, trim_range, views, words, split_whitespace,
    skip_ws_from,
};

verus! {

// ---------------------------------------------------------------------------
// Public types
// ---------------------------------------------------------------------------

/// Failure to extract scoped CSS for a component. Always names the component
/// so a preview never goes missing its styles silently.
#[derive(Debug, Clone, PartialEq, Eq)]
pub enum ScopeError {
    EmptyStylesheet { component: String, classes: String },
    NoRulesMatched { component: String, missing: String },
}

/// Browser-ready scoped CSS for one component's shadow root.
#[derive(Debug, Clone, PartialEq, Eq)]
pub struct ShadowCss {
    /// Plain CSS (`:host` custom properties plus `.class` rules) valid for
    /// `CSSStyleSheet.replaceSync` -- no Tailwind at-rules remain.
    pub css: String,
    /// Requested classes with no matching `@utility` block. Sorted.
    pub unmatched: Vec<String>,
}

pub open spec fn scope_error_message(e: ScopeError) -> Seq<char> {
    match e {
        ScopeError::EmptyStylesheet { component, classes } => "cannot extract scoped CSS for component '"@
            + component@ + "': the project stylesheet is empty (classes requested: "@ + classes@ + ")"@,
        ScopeError::NoRulesMatched { component, missing } => "cannot extract scoped CSS for component '"@
            + component@ + "': no CSS rules matched any of its classes ("@ + missing@
            + "); refusing to emit a preview silently missing its styles"@,
    }
}

impl ScopeError {
    /// The error's message.
    pub fn message(&self) -> (r: String)
        ensures
            r@ == scope_error_message(*self),
    {
        match self {
            ScopeError::EmptyStylesheet { component, classes } => {
                let mut out = owned("cannot extract scoped CSS for component '");
                push_str(&mut out, component.as_str());
                push_str(&mut out, "': the project stylesheet is empty (classes requested: ");
                push_str(&mut out, classes.as_str());
                push_str(&mut out, ")");
                out
            },
            ScopeError::NoRulesMatched { component, missing } => {
                let mut out = owned("cannot extract scoped CSS for component '");
                push_str(&mut out, component.as_str());
                push_str(&mut out, "': no CSS rules matched any of its classes (");
                push_str(&mut out, missing.as_str());
                push_str(&mut out, "); refusing to emit a preview silently missing its styles");
                out
            },
        }
    }
}

// ---------------------------------------------------------------------------
// Ordering and sorted sets of strings
// ---------------------------------------------------------------------------

/// Lexicographic order on character sequences (the order of `String`).
pub open spec fn seq_lt(a: Seq<char>, b: Seq<char>) -> bool
    decreases a.len(),
{
    if a.len() == 0 {
        b.len() > 0
    } else if b.len() == 0 {
        false
    } else if a[0] != b[0] {
        (a[0] as u32) < (b[0] as u32)
    } else {
        seq_lt(a.drop_first(), b.drop_first())
    }
}

pub fn str_lt(a: &Vec<char>, b: &Vec<char>) -> (r: bool)
    ensures
        r == seq_lt(a@, b@),
{
    let mut i: usize = 0;
    assert(a@.skip(0) =~= a@);
    assert(b@.skip(0) =~= b@);
    while i < a.len() && i < b.len() && a[i] == b[i]
        invariant
            i <= a@.len(),
            i <= b@.len(),
            seq_lt(a@.skip(i as int), b@.skip(i as int)) == seq_lt(a@, b@),
        decreases a@.len() - i,
    {
        assert(a@.skip(i as int).drop_first() =~= a@.skip(i + 1));
        assert(b@.skip(i as int).drop_first() =~= b@.skip(i + 1));
        i = i + 1;
    }
    if i == a.len() {
        assert(a@.skip(i as int).len() == 0);
        i < b.len()
    } else if i == b.len() {
        false
    } else {
        assert(a@.skip(i as int)[0] == a@[i as int]);
        assert(b@.skip(i as int)[0] == b@[i as int]);
        (a[i] as u32) < (b[i] as u32)
    }
}

/// `x` inserted into the sorted, repeat-free `r`, unless present.
pub open spec fn sorted_insert(r: Seq<Seq<char>>, x: Seq<char>) -> Seq<Seq<char>>
    decreases r.len(),
{
    if r.len() == 0 {
        seq![x]
    } else if r.last() == x {
        r
    } else if seq_lt(r.last(), x) {
        r.push(x)
    } else {
        sorted_insert(r.drop_last(), x).push(r.last())
    }
}

/// The distinct values of `xs`, sorted (`sort` + `dedup`, or a set read
/// out in order).
pub open spec fn sorted_set(xs: Seq<Seq<char>>) -> Seq<Seq<char>>
    decreases xs.len(),
{
    if xs.len() == 0 {
        seq![]
    } else {
        sorted_insert(sorted_set(xs.drop_last()), xs.last())
    }
}

pub fn insert_sorted(r: &mut Vec<String>, x: String)
    ensures
        views(final(r)@) == sorted_insert(views(old(r)@), x@),
{
    let xv = chars_of(x.as_str());
    let ghost r0 = views(r@);
    let mut k = r.len();
    let mut stop = false;
    assert(r0.take(k as int) =~= r0);
    assert(r0.skip(k as int) =~= Seq::<Seq<char>>::empty());
    while k > 0 && !stop
        invariant
            k <= r@.len(),
            views(r@) == r0,
            r0.len() == r@.len(),
            xv@ == x@,
            sorted_insert(r0, x@) == sorted_insert(r0.take(k as int), x@) + r0.skip(k as int),
            stop ==> k > 0 && r0[k - 1] != x@ && seq_lt(r0[k - 1], x@),
        decreases k + (if stop { 0int } else { 1int }),
    {
        let lv = chars_of(r[k - 1].as_str());
        assert(lv@ == r0[k - 1]);
        if vec_eq_chars(&lv, &xv) {
            assert(r0.take(k as int).last() == x@);
            assert(sorted_insert(r0.take(k as int), x@) == r0.take(k as int));
            assert(r0.take(k as int) + r0.skip(k as int) =~= r0);
            return;
        }
        if str_lt(&lv, &xv) {
            stop = true;
        } else {
            assert(r0.take(k as int).drop_last() =~= r0.take(k - 1));
            assert(r0.take(k as int).last() == r0[k - 1]);
            assert(sorted_insert(r0.take(k - 1), x@).push(r0[k - 1]) + r0.skip(k as int)
                =~= sorted_insert(r0.take(k - 1), x@) + r0.skip(k - 1));
            k = k - 1;
        }
    }
    assert(sorted_insert(r0.take(k as int), x@) == r0.take(k as int).push(x@)) by {
        if k > 0 {
            assert(r0.take(k as int).last() == r0[k - 1]);
        } else {
            assert(r0.take(0) =~= Seq::<Seq<char>>::empty());
        }
    }
    r.insert(k, x);
    assert(views(r@) =~= r0.take(k as int).push(x@) + r0.skip(k as int));
}

fn vec_eq_chars(a: &Vec<char>, b: &Vec<char>) -> (r: bool)
    ensures
        r == (a@ == b@),
{
    crate::text::vec_eq(a, b)
}

/// The distinct values of `xs`, sorted.
pub fn sort_dedup(xs: &Vec<String>) -> (r: Vec<String>)
    ensures
        views(r@) == sorted_set(views(xs@)),
{
    let ghost x0 = views(xs@);
    let mut r: Vec<String> = Vec::new();
    let mut i: usize = 0;
    assert(views(r@) =~= Seq::<Seq<char>>::empty());
    while i < xs.len()
        invariant
            i <= xs@.len(),
            x0 == views(xs@),
            views(r@) == sorted_set(x0.take(i as int)),
        decreases xs@.len() - i,
    {
        insert_sorted(&mut r, xs[i].clone());
        assert(x0.take(i + 1).drop_last() =~= x0.take(i as int));
        i = i + 1;
    }
    assert(x0.take(xs@.len() as int) =~= x0);
    r
}

/// Every element precedes every later one.
pub open spec fn strictly_sorted(s: Seq<Seq<char>>) -> bool {
    forall|i: int, j: int| 0 <= i < j < s.len() ==> seq_lt(#[trigger] s[i], #[trigger] s[j])
}

/// No string precedes itself.
pub proof fn lemma_seq_lt_irreflexive(a: Seq<char>)
    ensures
        !seq_lt(a, a),
    decreases a.len(),
{
    if a.len() > 0 {
        lemma_seq_lt_irreflexive(a.drop_first());
    }
}

/// The order on strings is transitive.
pub proof fn lemma_seq_lt_transitive(a: Seq<char>, b: Seq<char>, c: Seq<char>)
    requires
        seq_lt(a, b),
        seq_lt(b, c),
    ensures
        seq_lt(a, c),
    decreases a.len(),
{
    if a.len() > 0 && a[0] == b[0] && b[0] == c[0] {
        lemma_seq_lt_transitive(a.drop_first(), b.drop_first(), c.drop_first());
    }
}

proof fn lemma_char_code_injective(c: char, d: char)
    requires
        c != d,
    ensures
        (c as u32) != (d as u32),
{
}

/// Of two different strings, one precedes the other.
pub proof fn lemma_seq_lt_total(a: Seq<char>, b: Seq<char>)
    requires
        a != b,
    ensures
        seq_lt(a, b) || seq_lt(b, a),
    decreases a.len(),
{
    if a.len() == 0 || b.len() == 0 {
        if a.len() == 0 && b.len() == 0 {
            assert(a =~= b);
        }
    } else if a[0] != b[0] {
        lemma_char_code_injective(a[0], b[0]);
    } else {
        let ta = a.drop_first();
        let tb = b.drop_first();
        if ta =~= tb {
            assert(a.len() == b.len());
            assert forall|k: int| 0 <= k < a.len() implies a[k] == b[k] by {
                if k > 0 {
                    assert(a[k] == ta[k - 1]);
                    assert(b[k] == tb[k - 1]);
                }
            }
            assert(a =~= b);
        }
        lemma_seq_lt_total(ta, tb);
    }
}

/// Inserting into a strictly sorted sequence keeps it strictly sorted and
/// adds exactly the inserted string.
pub proof fn lemma_sorted_insert(r: Seq<Seq<char>>, x: Seq<char>)
    requires
        strictly_sorted(r),
    ensures
        strictly_sorted(sorted_insert(r, x)),
        forall|y: Seq<char>| #[trigger] sorted_insert(r, x).contains(y) <==> (r.contains(y) || y == x),
    decreases r.len(),
{
    if r.len() == 0 {
        assert(sorted_insert(r, x) =~= seq![x]);
        assert forall|y: Seq<char>| sorted_insert(r, x).contains(y) <==> (r.contains(y) || y == x) by {
            if sorted_insert(r, x).contains(y) {
                let k = choose|k: int| 0 <= k < sorted_insert(r, x).len() && sorted_insert(r, x)[k] == y;
                assert(k == 0);
            }
            if y == x {
                assert(sorted_insert(r, x)[0] == x);
            }
        }
    } else if r.last() == x {
        assert(r.contains(x)) by {
            assert(r[r.len() - 1] == x);
        }
    } else if seq_lt(r.last(), x) {
        let s = r.push(x);
        assert forall|i: int, j: int| 0 <= i < j < s.len() implies seq_lt(#[trigger] s[i], #[trigger] s[j]) by {
            if j == r.len() {
                if i < r.len() - 1 {
                    assert(seq_lt(r[i], r[r.len() - 1]));
                    lemma_seq_lt_transitive(r[i], r.last(), x);
                }
            } else {
                assert(s[i] == r[i] && s[j] == r[j]);
            }
        }
        assert forall|y: Seq<char>| s.contains(y) <==> (r.contains(y) || y == x) by {
            if s.contains(y) {
                let k = choose|k: int| 0 <= k < s.len() && s[k] == y;
                if k < r.len() {
                    assert(r[k] == y);
                }
            }
            if r.contains(y) {
                let k = choose|k: int| 0 <= k < r.len() && r[k] == y;
                assert(s[k] == y);
            }
            if y == x {
                assert(s[r.len() as int] == x);
            }
        }
    } else {
        let p = r.drop_last();
        let l = r.last();
        assert(strictly_sorted(p)) by {
            assert forall|i: int, j: int| 0 <= i < j < p.len() implies seq_lt(#[trigger] p[i], #[trigger] p[j]) by {
                assert(p[i] == r[i] && p[j] == r[j]);
            }
        }
        lemma_sorted_insert(p, x);
        lemma_seq_lt_total(l, x);
        let q = sorted_insert(p, x);
        assert(q.contains(x));
        let s = q.push(l);
        assert forall|i: int, j: int| 0 <= i < j < s.len() implies seq_lt(#[trigger] s[i], #[trigger] s[j]) by {
            if j == q.len() {
                assert(q.contains(q[i]));
                if q[i] != x {
                    assert(p.contains(q[i]));
                    let k = choose|k: int| 0 <= k < p.len() && p[k] == q[i];
                    assert(seq_lt(r[k], r[r.len() - 1]));
                }
            } else {
                assert(s[i] == q[i] && s[j] == q[j]);
            }
        }
        assert forall|y: Seq<char>| s.contains(y) <==> (r.contains(y) || y == x) by {
            if s.contains(y) {
                let k = choose|k: int| 0 <= k < s.len() && s[k] == y;
                if k < q.len() {
                    assert(q.contains(y));
                    if y != x {
                        assert(p.contains(y));
                        let m = choose|m: int| 0 <= m < p.len() && p[m] == y;
                        assert(r[m] == y);
                    }
                } else {
                    assert(r[r.len() - 1] == y);
                }
            }
            if r.contains(y) {
                let k = choose|k: int| 0 <= k < r.len() && r[k] == y;
                if k < r.len() - 1 {
                    assert(p[k] == y);
                    assert(p.contains(y));
                    assert(q.contains(y));
                    let m = choose|m: int| 0 <= m < q.len() && q[m] == y;
                    assert(s[m] == y);
                } else {
                    assert(s[q.len() as int] == y);
                }
            }
            if y == x {
                let m = choose|m: int| 0 <= m < q.len() && q[m] == x;
                assert(s[m] == x);
            }
        }
    }
}

/// The sorted set of a list is strictly sorted (so repeat-free) and holds
/// exactly the strings the list holds.
pub proof fn lemma_sorted_set(xs: Seq<Seq<char>>)
    ensures
        strictly_sorted(sorted_set(xs)),
        forall|y: Seq<char>| #[trigger] sorted_set(xs).contains(y) <==> xs.contains(y),
    decreases xs.len(),
{
    if xs.len() > 0 {
        let p = xs.drop_last();
        lemma_sorted_set(p);
        lemma_sorted_insert(sorted_set(p), xs.last());
        assert forall|y: Seq<char>| sorted_set(xs).contains(y) <==> xs.contains(y) by {
            if p.contains(y) {
                let k = choose|k: int| 0 <= k < p.len() && p[k] == y;
                assert(xs[k] == y);
            }
            if xs.contains(y) {
                let k = choose|k: int| 0 <= k < xs.len() && xs[k] == y;
                if k < xs.len() - 1 {
                    assert(p[k] == y);
                }
            }
            if y == xs.last() {
                assert(xs[xs.len() - 1] == y);
            }
        }
    }
}

// ---------------------------------------------------------------------------
// Stylesheet grammar
// ---------------------------------------------------------------------------

pub open spec fn utility_kw() -> Seq<char> {
    seq!['@', 'u', 't', 'i', 'l', 'i', 't', 'y']
}

pub open spec fn theme_kw() -> Seq<char> {
    seq!['@', 't', 'h', 'e', 'm', 'e']
}

pub open spec fn var_kw() -> Seq<char> {
    seq!['v', 'a', 'r', '(']
}

/// `@utility\s+([\w-]+)\s*\{` at `i`: the name bounds and the body start.
pub open spec fn utility_at(s: Seq<char>, i: int) -> Option<(int, int, int)> {
    let a = i + 8;
    if occurs_at(s, utility_kw(), i) && a < s.len() && crate::text::is_ws(s[a]) {
        let n0 = next_non_ws(s, a);
        if n0 < s.len() && is_name_char(s[n0]) {
            let n1 = next_not_name(s, n0);
            let b = next_non_ws(s, n1);
            if b < s.len() && s[b] == '{' {
                Some((n0, n1, b + 1))
            } else {
                None
            }
        } else {
            None
        }
    } else {
        None
    }
}

/// The first position at or after `p` where a utility header matches, or
/// `s.len()`.
pub open spec fn next_utility(s: Seq<char>, p: int) -> int
    decreases s.len() - p,
{
    if p < 0 || p >= s.len() {
        s.len() as int
    } else if utility_at(s, p) is Some {
        p
    } else {
        next_utility(s, p + 1)
    }
}

/// The index of the `}` closing a block whose body starts at `j` with
/// `depth` braces open, if any.
pub open spec fn closing_brace(s: Seq<char>, j: int, depth: nat) -> Option<int>
    decreases s.len() - j,
{
    if j < 0 || j >= s.len() {
        None
    } else if s[j] == '{' {
        closing_brace(s, j + 1, depth + 1)
    } else if s[j] == '}' {
        if depth <= 1 {
            Some(j)
        } else {
            closing_brace(s, j + 1, (depth - 1) as nat)
        }
    } else {
        closing_brace(s, j + 1, depth)
    }
}

/// The net count of braces in `t`: each `{` adds one, each `}` takes one
/// away.
pub open spec fn net_braces(t: Seq<char>) -> int
    decreases t.len(),
{
    if t.len() == 0 {
        0
    } else {
        net_braces(t.drop_last()) + if t.last() == '{' {
            1int
        } else if t.last() == '}' {
            -1int
        } else {
            0int
        }
    }
}

/// `t` has balanced braces: as many `{` as `}`, and no prefix closes more
/// braces than it opened.
pub open spec fn balanced_braces(t: Seq<char>) -> bool {
    &&& net_braces(t) == 0
    &&& forall|k: int| 0 <= k <= t.len() ==> net_braces(#[trigger] t.take(k)) >= 0
}

proof fn lemma_net_braces_front(s: Seq<char>, j: int, k: int)
    requires
        0 <= j < k <= s.len(),
    ensures
        net_braces(s.subrange(j, k)) == net_braces(s.subrange(j + 1, k)) + if s[j] == '{' {
            1int
        } else if s[j] == '}' {
            -1int
        } else {
            0int
        },
    decreases k - j,
{
    if k > j + 1 {
        lemma_net_braces_front(s, j, k - 1);
        assert(s.subrange(j, k).drop_last() =~= s.subrange(j, k - 1));
        assert(s.subrange(j + 1, k).drop_last() =~= s.subrange(j + 1, k - 1));
    } else {
        assert(s.subrange(j, k).drop_last() =~= s.subrange(j + 1, k));
        assert(s.subrange(j + 1, k) =~= Seq::<char>::empty());
    }
}

/// From `j` with `depth` braces open, `closing_brace` stops at the first `}`
/// that brings the count of open braces to zero.
proof fn lemma_closing_brace_depth(s: Seq<char>, j: int, depth: nat)
    requires
        0 <= j <= s.len(),
        depth >= 1,
    ensures
        match closing_brace(s, j, depth) {
            Some(e) => {
                &&& j <= e < s.len()
                &&& s[e] == '}'
                &&& depth + net_braces(s.subrange(j, e)) == 1
                &&& forall|k: int| j <= k <= e ==> depth + net_braces(#[trigger] s.subrange(j, k)) >= 1
            },
            None => forall|k: int| j <= k <= s.len() ==> depth + net_braces(#[trigger] s.subrange(j, k)) >= 1,
        },
    decreases s.len() - j,
{
    assert(s.subrange(j, j) =~= Seq::<char>::empty());
    if j < s.len() {
        let d2: nat = if s[j] == '{' {
            depth + 1
        } else if s[j] == '}' {
            if depth <= 1 {
                depth
            } else {
                (depth - 1) as nat
            }
        } else {
            depth
        };
        if !(s[j] == '}' && depth <= 1) {
            lemma_closing_brace_depth(s, j + 1, d2);
            assert forall|k: int| j + 1 <= k <= s.len() implies net_braces(#[trigger] s.subrange(j, k))
                == net_braces(s.subrange(j + 1, k)) + d2 - depth by {
                lemma_net_braces_front(s, j, k);
            }
        }
    }
}

/// A block body found from `j`, with its opening `{` just before `j`, has
/// balanced braces and ends at the `}` that closes that opening `{`: every
/// `{` inside it is matched by a `}` inside it. When no such `}` exists, no
/// prefix of the rest closes the opening brace.
pub proof fn lemma_block_body_balanced(s: Seq<char>, j: int)
    requires
        0 <= j <= s.len(),
    ensures
        match closing_brace(s, j, 1) {
            Some(e) => {
                &&& j <= e < s.len()
                &&& s[e] == '}'
                &&& balanced_braces(s.subrange(j, e))
            },
            None => forall|k: int| j <= k <= s.len() ==> net_braces(#[trigger] s.subrange(j, k)) >= 0,
        },
{
    lemma_closing_brace_depth(s, j, 1);
    if let Some(e) = closing_brace(s, j, 1) {
        assert forall|k: int| 0 <= k <= s.subrange(j, e).len() implies net_braces(
            #[trigger] s.subrange(j, e).take(k),
        ) >= 0 by {
            assert(s.subrange(j, e).take(k) =~= s.subrange(j, j + k));
        }
    }
}

/// One `@utility` block: its name and body.
pub struct BlockView {
    pub name: Seq<char>,
    pub body: Seq<char>,
}

/// A utility rule found at `i` has its name bounds and body start in order after `i`.
pub proof fn lemma_utility_at(s: Seq<char>, i: int)
    requires
        0 <= i,
        utility_at(s, i) is Some,
    ensures
        i < utility_at(s, i).unwrap().0 < utility_at(s, i).unwrap().1 < utility_at(s, i).unwrap().2 <= s.len(),
{
    lemma_next_non_ws(s, i + 8);
    let n0 = next_non_ws(s, i + 8);
    lemma_next_not_name(s, n0 + 1);
    assert(next_not_name(s, n0) == next_not_name(s, n0 + 1));
    let n1 = next_not_name(s, n0);
    lemma_next_non_ws(s, n1);
}

/// The next utility rule from `p` is at or after `p`, and is one when it is before the end.
pub proof fn lemma_next_utility(s: Seq<char>, p: int)
    requires
        0 <= p <= s.len(),
    ensures
        p <= next_utility(s, p) <= s.len(),
        next_utility(s, p) < s.len() ==> utility_at(s, next_utility(s, p)) is Some,
    decreases s.len() - p,
{
    if p < s.len() && utility_at(s, p) is None {
        lemma_next_utility(s, p + 1);
    }
}

/// The `@utility` blocks of `s[p..]` whose braces close, in order.
pub open spec fn blocks_from(s: Seq<char>, p: int) -> Seq<BlockView>
    decreases s.len() - p,
{
    if p < 0 || p >= s.len() {
        seq![]
    } else {
        let i = next_utility(s, p);
        if i >= s.len() {
            seq![]
        } else {
            proof {
                lemma_next_utility(s, p);
                lemma_utility_at(s, i);
            }
            let (n0, n1, bs) = utility_at(s, i).unwrap();
            let rest = blocks_from(s, bs);
            match closing_brace(s, bs, 1) {
                Some(e) => seq![BlockView { name: s.subrange(n0, n1), body: s.subrange(bs, e) }] + rest,
                None => rest,
            }
        }
    }
}

/// Every `@utility` block read from a stylesheet has a body with balanced
/// braces: the block runs to the `}` that closes its own opening `{`, with
/// any nested rule inside it whole.
pub proof fn lemma_blocks_balanced(s: Seq<char>, p: int)
    ensures
        forall|i: int| 0 <= i < blocks_from(s, p).len() ==> balanced_braces(#[trigger] blocks_from(s, p)[i].body),
    decreases s.len() - p,
{
    if 0 <= p < s.len() {
        let i = next_utility(s, p);
        lemma_next_utility(s, p);
        if i < s.len() {
            lemma_utility_at(s, i);
            let (n0, n1, bs) = utility_at(s, i).unwrap();
            lemma_blocks_balanced(s, bs);
            lemma_block_body_balanced(s, bs);
            let rest = blocks_from(s, bs);
            match closing_brace(s, bs, 1) {
                Some(e) => {
                    let b = BlockView { name: s.subrange(n0, n1), body: s.subrange(bs, e) };
                    assert(blocks_from(s, p) == seq![b] + rest);
                    assert forall|k: int| 0 <= k < blocks_from(s, p).len() implies balanced_braces(
                        #[trigger] blocks_from(s, p)[k].body,
                    ) by {
                        if k > 0 {
                            assert(blocks_from(s, p)[k] == rest[k - 1]);
                        }
                    }
                },
                None => {},
            }
        }
    }
}

/// `var\(\s*(--[\w-]+)` at `i`: the bounds of the variable name.
pub open spec fn var_at(s: Seq<char>, i: int) -> Option<(int, int)> {
    if occurs_at(s, var_kw(), i) {
        let j = next_non_ws(s, i + 4);
        if j + 2 < s.len() && s[j] == '-' && s[j + 1] == '-' && is_name_char(s[j + 2]) {
            Some((j, next_not_name(s, j + 2)))
        } else {
            None
        }
    } else {
        None
    }
}

pub open spec fn next_var(s: Seq<char>, p: int) -> int
    decreases s.len() - p,
{
    if p < 0 || p >= s.len() {
        s.len() as int
    } else if var_at(s, p) is Some {
        p
    } else {
        next_var(s, p + 1)
    }
}

/// The next variable reference from `p` is at or after `p`, and is one when it is before the end.
pub proof fn lemma_next_var(s: Seq<char>, p: int)
    requires
        0 <= p <= s.len(),
    ensures
        p <= next_var(s, p) <= s.len(),
        next_var(s, p) < s.len() ==> var_at(s, next_var(s, p)) is Some,
    decreases s.len() - p,
{
    if p < s.len() && var_at(s, p) is None {
        lemma_next_var(s, p + 1);
    }
}

/// A variable reference found at `i` has its name bounds in order after `i`.
pub proof fn lemma_var_at(s: Seq<char>, i: int)
    requires
        0 <= i,
        var_at(s, i) is Some,
    ensures
        i < var_at(s, i).unwrap().0 < var_at(s, i).unwrap().1 <= s.len(),
{
    lemma_next_non_ws(s, i + 4);
    let j = next_non_ws(s, i + 4);
    lemma_next_not_name(s, j + 2);
}

/// The variable names referenced in `s[p..]`, in order.
pub open spec fn var_refs_from(s: Seq<char>, p: int) -> Seq<Seq<char>>
    decreases s.len() - p,
{
    if p < 0 || p >= s.len() {
        seq![]
    } else {
        let i = next_var(s, p);
        if i >= s.len() {
            seq![]
        } else {
            proof {
                lemma_next_var(s, p);
                lemma_var_at(s, i);
            }
            let (a, b) = var_at(s, i).unwrap();
            seq![s.subrange(a, b)] + var_refs_from(s, b)
        }
    }
}

/// `@theme\s*\{` at `i`: the body start.
pub open spec fn theme_at(s: Seq<char>, i: int) -> Option<int> {
    if occurs_at(s, theme_kw(), i) {
        let j = next_non_ws(s, i + 6);
        if j < s.len() && s[j] == '{' {
            Some(j + 1)
        } else {
            None
        }
    } else {
        None
    }
}

pub open spec fn next_theme(s: Seq<char>, p: int) -> int
    decreases s.len() - p,
{
    if p < 0 || p >= s.len() {
        s.len() as int
    } else if theme_at(s, p) is Some {
        p
    } else {
        next_theme(s, p + 1)
    }
}

/// The next `@theme` block from `p` is at or after `p`, and is one when it is before the end.
pub proof fn lemma_next_theme(s: Seq<char>, p: int)
    requires
        0 <= p <= s.len(),
    ensures
        p <= next_theme(s, p) <= s.len(),
        next_theme(s, p) < s.len() ==> theme_at(s, next_theme(s, p)) is Some,
    decreases s.len() - p,
{
    if p < s.len() && theme_at(s, p) is None {
        lemma_next_theme(s, p + 1);
    }
}

/// A `@theme` block found at `i` has its body start after `i`.
pub proof fn lemma_theme_at(s: Seq<char>, i: int)
    requires
        0 <= i,
        theme_at(s, i) is Some,
    ensures
        i < theme_at(s, i).unwrap() <= s.len(),
{
    lemma_next_non_ws(s, i + 6);
}

/// `(--[\w-]+)\s*:[^;]+;` at `i`: the name bounds and the match end.
pub open spec fn decl_at(s: Seq<char>, i: int) -> Option<(int, int, int)> {
    if 0 <= i && i + 2 < s.len() && s[i] == '-' && s[i + 1] == '-' && is_name_char(s[i + 2]) {
        let n1 = next_not_name(s, i + 2);
        let c = next_non_ws(s, n1);
        if c < s.len() && s[c] == ':' {
            let semi = next_char(s, ';', c + 1);
            if semi < s.len() && semi > c + 1 {
                Some((i, n1, semi + 1))
            } else {
                None
            }
        } else {
            None
        }
    } else {
        None
    }
}

pub open spec fn next_decl(s: Seq<char>, p: int) -> int
    decreases s.len() - p,
{
    if p < 0 || p >= s.len() {
        s.len() as int
    } else if decl_at(s, p) is Some {
        p
    } else {
        next_decl(s, p + 1)
    }
}

/// The next custom-property declaration from `p` is at or after `p`, and is one when it is before the end.
pub proof fn lemma_next_decl(s: Seq<char>, p: int)
    requires
        0 <= p <= s.len(),
    ensures
        p <= next_decl(s, p) <= s.len(),
        next_decl(s, p) < s.len() ==> decl_at(s, next_decl(s, p)) is Some,
    decreases s.len() - p,
{
    if p < s.len() && decl_at(s, p) is None {
        lemma_next_decl(s, p + 1);
    }
}

/// A declaration found at `i` has its name end and match end in order after `i`.
pub proof fn lemma_decl_at(s: Seq<char>, i: int)
    requires
        decl_at(s, i) is Some,
    ensures
        i < decl_at(s, i).unwrap().1 < decl_at(s, i).unwrap().2 <= s.len(),
{
    lemma_next_not_name(s, i + 2);
    let n1 = next_not_name(s, i + 2);
    lemma_next_non_ws(s, n1);
    let c = next_non_ws(s, n1);
    lemma_next_char(s, ';', c + 1);
}

/// The trimmed declarations of `s[p..]` whose name is in `vars`, in order.
pub open spec fn decls_from(s: Seq<char>, p: int, vars: Seq<Seq<char>>) -> Seq<Seq<char>>
    decreases s.len() - p,
{
    if p < 0 || p >= s.len() {
        seq![]
    } else {
        let i = next_decl(s, p);
        if i >= s.len() {
            seq![]
        } else {
            proof {
                lemma_next_decl(s, p);
                lemma_decl_at(s, i);
            }
            let (a, b, e) = decl_at(s, i).unwrap();
            let rest = decls_from(s, e, vars);
            if vars.contains(s.subrange(a, b)) {
                seq![trim(s.subrange(i, e))] + rest
            } else {
                rest
            }
        }
    }
}

/// The relevant declarations of every `@theme` block of `s[p..]`, in order.
pub open spec fn theme_decls_from(s: Seq<char>, p: int, vars: Seq<Seq<char>>) -> Seq<Seq<char>>
    decreases s.len() - p,
{
    if p < 0 || p >= s.len() {
        seq![]
    } else {
        let i = next_theme(s, p);
        if i >= s.len() {
            seq![]
        } else {
            proof {
                lemma_next_theme(s, p);
                lemma_theme_at(s, i);
            }
            let bs = theme_at(s, i).unwrap();
            let rest = theme_decls_from(s, bs, vars);
            match closing_brace(s, bs, 1) {
                Some(e) => decls_from(s.subrange(bs, e), 0, vars) + rest,
                None => rest,
            }
        }
    }
}

/// The `@theme` declarations that define any of `vars`: trimmed, distinct,
/// sorted.
pub open spec fn relevant_theme_decls(s: Seq<char>, vars: Seq<Seq<char>>) -> Seq<Seq<char>> {
    if vars.len() == 0 {
        seq![]
    } else {
        sorted_set(theme_decls_from(s, 0, vars))
    }
}

// ---- executable scanners ----

fn next_non_ws_at(v: &Vec<char>, from: usize) -> (r: usize)
    requires
        from <= v@.len(),
    ensures
        r == next_non_ws(v@, from as int),
        from <= r <= v@.len(),
{
    let r = skip_ws_from(v, from, v.len());
    proof {
        lemma_next_non_ws(v@, from as int);
        if r < v@.len() {
            assert(!crate::text::is_ws(v@[r as int]));
        }
        lemma_skip_is_next(v@, from as int, r as int);
    }
    r
}

/// Skipping white space from `from` lands on `r` when only white space lies between and `r` is not white space.
pub proof fn lemma_skip_is_next(s: Seq<char>, from: int, r: int)
    requires
        0 <= from <= r <= s.len(),
        forall|k: int| from <= k < r ==> crate::text::is_ws(#[trigger] s[k]),
        r < s.len() ==> !crate::text::is_ws(s[r]),
    ensures
        next_non_ws(s, from) == r,
    decreases r - from,
{
    if from < r {
        lemma_skip_is_next(s, from + 1, r);
    }
}

fn next_not_name_at(v: &Vec<char>, from: usize) -> (r: usize)
    requires
        from <= v@.len(),
    ensures
        r == next_not_name(v@, from as int),
        from <= r <= v@.len(),
{
    let mut i = from;
    while i < v.len() && (crate::text::is_word_char(v[i]) || v[i] == '-')
        invariant
            from <= i <= v@.len(),
            next_not_name(v@, i as int) == next_not_name(v@, from as int),
        decreases v@.len() - i,
    {
        i = i + 1;
    }
    proof {
        lemma_next_not_name(v@, from as int);
    }
    i
}

fn utility_at_exec(v: &Vec<char>, kw: &Vec<char>, i: usize) -> (r: Option<(usize, usize, usize)>)
    requires
        kw@ == utility_kw(),
        i <= v@.len(),
    ensures
        match r {
            Some((a, b, c)) => utility_at(v@, i as int) == Some((a as int, b as int, c as int)) && c <= v@.len(),
            None => utility_at(v@, i as int) is None,
        },
{
    if !matches_at(v, kw, i) {
        return None;
    }
    let n = v.len();
    assert(i + 8 <= n);
    let a = i + 8;
    if a < n && is_whitespace(v[a]) {
        let n0 = next_non_ws_at(v, a);
        if n0 < n && (crate::text::is_word_char(v[n0]) || v[n0] == '-') {
            let n1 = next_not_name_at(v, n0);
            let b = next_non_ws_at(v, n1);
            if b < n && v[b] == '{' {
                return Some((n0, n1, b + 1));
            }
        }
    }
    None
}

fn closing_brace_exec(v: &Vec<char>, start: usize) -> (r: Option<usize>)
    requires
        start <= v@.len(),
    ensures
        match r {
            Some(e) => closing_brace(v@, start as int, 1) == Some(e as int) && start <= e < v@.len(),
            None => closing_brace(v@, start as int, 1) is None,
        },
{
    // `extra` counts the braces opened after the first one.
    let mut extra: usize = 0;
    let mut j = start;
    while j < v.len()
        invariant
            start <= j <= v@.len(),
            extra <= j - start,
            closing_brace(v@, j as int, (extra + 1) as nat) == closing_brace(v@, start as int, 1),
        decreases v@.len() - j,
    {
        if v[j] == '{' {
            extra = extra + 1;
        } else if v[j] == '}' {
            if extra == 0 {
                return Some(j);
            }
            extra = extra - 1;
        }
        j = j + 1;
    }
    None
}

/// One `@utility` block.
struct UtilityBlock {
    name: String,
    body: String,
}

spec fn block_views(v: Seq<UtilityBlock>) -> Seq<BlockView> {
    v.map_values(|b: UtilityBlock| BlockView { name: b.name@, body: b.body@ })
}

/// Extract all `@utility name { ... }` blocks from a stylesheet, in order.
/// Unclosed blocks are skipped.
fn extract_utility_blocks(v: &Vec<char>) -> (r: Vec<UtilityBlock>)
    ensures
        block_views(r@) == blocks_from(v@, 0),
{
    let kw: Vec<char> = vec!['@', 'u', 't', 'i', 'l', 'i', 't', 'y'];
    assert(kw@ =~= utility_kw());
    let mut blocks: Vec<UtilityBlock> = Vec::new();
    let mut p: usize = 0;
    let mut i: usize = 0;
    while i < v.len()
        invariant
            kw@ == utility_kw(),
            p <= i <= v@.len(),
            next_utility(v@, p as int) == next_utility(v@, i as int),
            block_views(blocks@) + blocks_from(v@, p as int) == blocks_from(v@, 0),
        decreases v@.len() - i,
    {
        match utility_at_exec(v, &kw, i) {
            None => {
                i = i + 1;
            },
            Some((n0, n1, bs)) => {
                proof {
                    lemma_utility_at(v@, i as int);
                    lemma_next_utility(v@, p as int);
                }
                let ghost before = block_views(blocks@);
                match closing_brace_exec(v, bs) {
                    Some(e) => {
                        blocks.push(UtilityBlock { name: string_of(v, n0, n1), body: string_of(v, bs, e) });
                        assert(block_views(blocks@) =~= before.push(BlockView { name: v@.subrange(n0 as int, n1 as int), body: v@.subrange(bs as int, e as int) }));
                        assert(block_views(blocks@) + blocks_from(v@, bs as int) =~= before + blocks_from(v@, p as int));
                    },
                    None => {},
                }
                p = bs;
                i = bs;
            },
        }
    }
    proof {
        lemma_next_utility(v@, p as int);
    }
    assert(block_views(blocks@) + blocks_from(v@, p as int) =~= block_views(blocks@));
    blocks
}

fn var_at_exec(v: &Vec<char>, kw: &Vec<char>, i: usize) -> (r: Option<(usize, usize)>)
    requires
        kw@ == var_kw(),
        i <= v@.len(),
    ensures
        match r {
            Some((a, b)) => var_at(v@, i as int) == Some((a as int, b as int)) && b <= v@.len(),
            None => var_at(v@, i as int) is None,
        },
{
    if !matches_at(v, kw, i) {
        return None;
    }
    let n = v.len();
    assert(i + 4 <= n);
    let j = next_non_ws_at(v, i + 4);
    if n > 2 && j < n - 2 && v[j] == '-' && v[j + 1] == '-' && (crate::text::is_word_char(v[j + 2]) || v[j + 2] == '-') {
        let e = next_not_name_at(v, j + 2);
        return Some((j, e));
    }
    None
}

/// Collect all `var(--xxx)` references from a CSS body, in order.
fn collect_var_references(v: &Vec<char>, out: &mut Vec<String>)
    ensures
        views(final(out)@) == views(old(out)@) + var_refs_from(v@, 0),
{
    let kw: Vec<char> = vec!['v', 'a', 'r', '('];
    assert(kw@ =~= var_kw());
    let ghost o0 = views(out@);
    let mut p: usize = 0;
    let mut i: usize = 0;
    while i < v.len()
        invariant
            kw@ == var_kw(),
            p <= i <= v@.len(),
            next_var(v@, p as int) == next_var(v@, i as int),
            views(out@) + var_refs_from(v@, p as int) == o0 + var_refs_from(v@, 0),
        decreases v@.len() - i,
    {
        match var_at_exec(v, &kw, i) {
            None => {
                i = i + 1;
            },
            Some((a, b)) => {
                proof {
                    lemma_var_at(v@, i as int);
                    lemma_next_var(v@, p as int);
                }
                let ghost before = views(out@);
                out.push(string_of(v, a, b));
                assert(views(out@) =~= before.push(v@.subrange(a as int, b as int)));
                assert(views(out@) + var_refs_from(v@, b as int) =~= before + var_refs_from(v@, p as int));
                p = b;
                i = b;
            },
        }
    }
    proof {
        lemma_next_var(v@, p as int);
    }
    assert(views(out@) + var_refs_from(v@, p as int) =~= views(out@));
}

fn theme_at_exec(v: &Vec<char>, kw: &Vec<char>, i: usize) -> (r: Option<usize>)
    requires
        kw@ == theme_kw(),
        i <= v@.len(),
    ensures
        match r {
            Some(b) => theme_at(v@, i as int) == Some(b as int) && b <= v@.len(),
            None => theme_at(v@, i as int) is None,
        },
{
    if !matches_at(v, kw, i) {
        return None;
    }
    let n = v.len();
    assert(i + 6 <= n);
    let j = next_non_ws_at(v, i + 6);
    if j < n && v[j] == '{' {
        return Some(j + 1);
    }
    None
}

fn decl_at_exec(v: &Vec<char>, i: usize) -> (r: Option<(usize, usize, usize)>)
    requires
        i <= v@.len(),
    ensures
        match r {
            Some((a, b, e)) => decl_at(v@, i as int) == Some((a as int, b as int, e as int)) && e <= v@.len(),
            None => decl_at(v@, i as int) is None,
        },
{
    let n = v.len();
    if n > 2 && i < n - 2 && v[i] == '-' && v[i + 1] == '-' && (crate::text::is_word_char(v[i + 2]) || v[i + 2] == '-') {
        let n1 = next_not_name_at(v, i + 2);
        let c = next_non_ws_at(v, n1);
        if c < n && v[c] == ':' {
            let semi = find_char(v, ';', c + 1);
            if semi < n && semi > c + 1 {
                return Some((i, n1, semi + 1));
            }
        }
    }
    None
}

fn relevant_decls(b: &Vec<char>, vars: &Vec<String>, out: &mut Vec<String>)
    ensures
        views(final(out)@) == views(old(out)@) + decls_from(b@, 0, views(vars@)),
{
    let ghost o0 = views(out@);
    let ghost vs = views(vars@);
    let mut p: usize = 0;
    let mut i: usize = 0;
    while i < b.len()
        invariant
            p <= i <= b@.len(),
            vs == views(vars@),
            next_decl(b@, p as int) == next_decl(b@, i as int),
            views(out@) + decls_from(b@, p as int, vs) == o0 + decls_from(b@, 0, vs),
        decreases b@.len() - i,
    {
        match decl_at_exec(b, i) {
            None => {
                i = i + 1;
            },
            Some((x, y, e)) => {
                proof {
                    lemma_decl_at(b@, i as int);
                    lemma_next_decl(b@, p as int);
                }
                let ghost before = views(out@);
                let name = string_of(b, x, y);
                if crate::text::contains_string(vars, name.as_str()) {
                    let (ta, tb) = trim_range(b, i, e);
                    out.push(string_of(b, ta, tb));
                    assert(views(out@) =~= before.push(trim(b@.subrange(i as int, e as int))));
                    assert(views(out@) + decls_from(b@, e as int, vs) =~= before + decls_from(b@, p as int, vs));
                } else {
                    assert(views(out@) + decls_from(b@, e as int, vs) =~= before + decls_from(b@, p as int, vs));
                }
                p = e;
                i = e;
            },
        }
    }
    proof {
        lemma_next_decl(b@, p as int);
    }
    assert(views(out@) + decls_from(b@, p as int, vs) =~= views(out@));
}


/// Extract `@theme` custom property declarations that define any of the
/// requested variable names: trimmed, sorted, without repeats.
fn extract_relevant_theme_decls(v: &Vec<char>, vars: &Vec<String>) -> (r: Vec<String>)
    ensures
        views(r@) == relevant_theme_decls(v@, views(vars@)),
{
    if vars.len() == 0 {
        let r: Vec<String> = Vec::new();
        assert(views(r@) =~= Seq::<Seq<char>>::empty());
        return r;
    }
    let kw: Vec<char> = vec!['@', 't', 'h', 'e', 'm', 'e'];
    assert(kw@ =~= theme_kw());
    let ghost vs = views(vars@);
    let mut found: Vec<String> = Vec::new();
    assert(views(found@) =~= Seq::<Seq<char>>::empty());
    let mut p: usize = 0;
    let mut i: usize = 0;
    while i < v.len()
        invariant
            kw@ == theme_kw(),
            vs == views(vars@),
            p <= i <= v@.len(),
            next_theme(v@, p as int) == next_theme(v@, i as int),
            views(found@) + theme_decls_from(v@, p as int, vs) == theme_decls_from(v@, 0, vs),
        decreases v@.len() - i,
    {
        match theme_at_exec(v, &kw, i) {
            None => {
                i = i + 1;
            },
            Some(bs) => {
                proof {
                    lemma_theme_at(v@, i as int);
                    lemma_next_theme(v@, p as int);
                }
                let ghost before = views(found@);
                match closing_brace_exec(v, bs) {
                    Some(e) => {
                        let body = crate::text::sub_chars(v, bs, e);
                        relevant_decls(&body, vars, &mut found);
                        assert(views(found@) + theme_decls_from(v@, bs as int, vs) =~= before + theme_decls_from(v@, p as int, vs));
                    },
                    None => {},
                }
                p = bs;
                i = bs;
            },
        }
    }
    proof {
        lemma_next_theme(v@, p as int);
    }
    assert(views(found@) + theme_decls_from(v@, p as int, vs) =~= views(found@));
    sort_dedup(&found)
}

// ---------------------------------------------------------------------------
// Matching classes against utility blocks
// ---------------------------------------------------------------------------

/// The index of the last `c` in `s`, or -1.
pub open spec fn last_index(s: Seq<char>, c: char) -> int
    decreases s.len(),
{
    if s.len() == 0 {
        -1
    } else if s.last() == c {
        s.len() - 1
    } else {
        last_index(s.drop_last(), c)
    }
}

/// A class token without its modifier prefixes: the part after the last
/// `:` (`hover:bg-primary` -> `bg-primary`).
pub open spec fn strip_mod(class: Seq<char>) -> Seq<char> {
    class.skip(last_index(class, ':') + 1)
}

/// The last index of a character is -1 or an index of the sequence.
pub proof fn lemma_last_index(s: Seq<char>, c: char)
    ensures
        -1 <= last_index(s, c) < s.len(),
    decreases s.len(),
{
    if s.len() > 0 && s.last() != c {
        lemma_last_index(s.drop_last(), c);
    }
}

/// Strip all variant/modifier prefixes from a class token, returning the
/// base utility name.
pub fn strip_modifiers(class: &str) -> (r: String)
    ensures
        r@ == strip_mod(class@),
{
    let v = chars_of(class);
    let mut k = v.len();
    assert(v@.take(v@.len() as int) =~= v@);
    while k > 0 && v[k - 1] != ':'
        invariant
            k <= v@.len(),
            last_index(v@.take(k as int), ':') == last_index(v@, ':'),
        decreases k,
    {
        assert(v@.take(k as int).drop_last() =~= v@.take(k - 1));
        k = k - 1;
    }
    proof {
        if k > 0 {
            assert(v@.take(k as int).last() == ':');
        }
        assert(v@.take(v@.len() as int) =~= v@);
    }
    let r = string_of(&v, k, v.len());
    assert(v@.subrange(k as int, v@.len() as int) =~= v@.skip(k as int));
    r
}

/// Every white-space separated token of every class string, in order.
pub open spec fn class_tokens(classes: Seq<Seq<char>>) -> Seq<Seq<char>>
    decreases classes.len(),
{
    if classes.len() == 0 {
        seq![]
    } else {
        class_tokens(classes.drop_last()) + words(classes.last())
    }
}

/// The distinct base names the classes request, sorted.
pub open spec fn base_names(classes: Seq<Seq<char>>) -> Seq<Seq<char>> {
    sorted_set(class_tokens(classes).map_values(|t: Seq<char>| strip_mod(t)))
}

/// A `prefix*` pattern for dynamically composed classes.
pub open spec fn is_pattern(n: Seq<char>) -> bool {
    n.len() > 0 && n.last() == '*'
}

/// The pattern's prefix: every trailing `*` removed.
pub open spec fn trim_stars(n: Seq<char>) -> Seq<char>
    decreases n.len(),
{
    if n.len() > 0 && n.last() == '*' {
        trim_stars(n.drop_last())
    } else {
        n
    }
}

/// A utility is kept when a requested name equals it or a requested
/// pattern's prefix starts it.
pub open spec fn keeps(base: Seq<Seq<char>>, name: Seq<char>) -> bool {
    ||| exists|i: int| 0 <= i < base.len() && !is_pattern(base[i]) && base[i] == name
    ||| exists|i: int| 0 <= i < base.len() && is_pattern(base[i]) && starts_with(name, trim_stars(base[i]))
}

/// The kept blocks, in stylesheet order.
pub open spec fn kept_blocks(base: Seq<Seq<char>>, blocks: Seq<BlockView>) -> Seq<BlockView>
    decreases blocks.len(),
{
    if blocks.len() == 0 {
        seq![]
    } else {
        kept_blocks(base, blocks.drop_last()) + if keeps(base, blocks.last().name) {
            seq![blocks.last()]
        } else {
            seq![]
        }
    }
}

/// A prefix is matched when it is a requested pattern's prefix and some
/// utility starts with it.
pub open spec fn prefix_matched(base: Seq<Seq<char>>, blocks: Seq<BlockView>, p: Seq<char>) -> bool {
    &&& exists|i: int| 0 <= i < base.len() && is_pattern(base[i]) && trim_stars(base[i]) == p
    &&& exists|j: int| 0 <= j < blocks.len() && starts_with(blocks[j].name, p)
}

/// A requested name is unmatched when, as a pattern, its prefix matched
/// nothing, or, as a name, no kept utility has it.
pub open spec fn is_unmatched(base: Seq<Seq<char>>, blocks: Seq<BlockView>, n: Seq<char>) -> bool {
    if is_pattern(n) {
        !prefix_matched(base, blocks, n.drop_last())
    } else {
        !exists|j: int| 0 <= j < kept_blocks(base, blocks).len() && kept_blocks(base, blocks)[j].name == n
    }
}

pub open spec fn unmatched_names(base: Seq<Seq<char>>, blocks: Seq<BlockView>, names: Seq<Seq<char>>) -> Seq<Seq<char>>
    decreases names.len(),
{
    if names.len() == 0 {
        seq![]
    } else {
        unmatched_names(base, blocks, names.drop_last()) + if is_unmatched(base, blocks, names.last()) {
            seq![names.last()]
        } else {
            seq![]
        }
    }
}

/// The variables the kept blocks reference, in order.
pub open spec fn referenced_vars(kept: Seq<BlockView>) -> Seq<Seq<char>>
    decreases kept.len(),
{
    if kept.len() == 0 {
        seq![]
    } else {
        referenced_vars(kept.drop_last()) + var_refs_from(kept.last().body, 0)
    }
}

/// The rules a class list selects out of a stylesheet.
pub struct ScopedView {
    pub utilities: Seq<BlockView>,
    pub theme_decls: Seq<Seq<char>>,
    pub unmatched: Seq<Seq<char>>,
}

pub open spec fn scoped_rules(classes: Seq<Seq<char>>, css: Seq<char>) -> ScopedView {
    let base = base_names(classes);
    let blocks = blocks_from(css, 0);
    let kept = kept_blocks(base, blocks);
    ScopedView {
        utilities: kept,
        theme_decls: relevant_theme_decls(css, referenced_vars(kept)),
        unmatched: unmatched_names(base, blocks, base),
    }
}

struct ScopedRules {
    utilities: Vec<UtilityBlock>,
    theme_decls: Vec<String>,
    unmatched: Vec<String>,
}

spec fn scoped_view(r: ScopedRules) -> ScopedView {
    ScopedView { utilities: block_views(r.utilities@), theme_decls: views(r.theme_decls@), unmatched: views(r.unmatched@) }
}

fn keeps_exec(base: &Vec<String>, name: &Vec<char>) -> (b: bool)
    ensures
        b == keeps(views(base@), name@),
{
    let ghost bv = views(base@);
    let mut i: usize = 0;
    while i < base.len()
        invariant
            i <= base@.len(),
            bv == views(base@),
            forall|j: int| 0 <= j < i ==> !(!is_pattern(bv[j]) && bv[j] == name@),
            forall|j: int| 0 <= j < i ==> !(is_pattern(bv[j]) && starts_with(name@, trim_stars(bv[j]))),
        decreases base@.len() - i,
    {
        let n = chars_of(base[i].as_str());
        assert(n@ == bv[i as int]);
        let pat = n.len() > 0 && n[n.len() - 1] == '*';
        if !pat {
            if crate::text::vec_eq(&n, name) {
                return true;
            }
        } else {
            let p = trim_stars_exec(&n);
            if crate::text::vec_starts_with(name, &p) {
                return true;
            }
        }
        i = i + 1;
    }
    false
}

fn trim_stars_exec(n: &Vec<char>) -> (r: Vec<char>)
    ensures
        r@ == trim_stars(n@),
{
    let mut k = n.len();
    assert(n@.take(n@.len() as int) =~= n@);
    while k > 0 && n[k - 1] == '*'
        invariant
            k <= n@.len(),
            trim_stars(n@.take(k as int)) == trim_stars(n@),
        decreases k,
    {
        assert(n@.take(k as int).drop_last() =~= n@.take(k - 1));
        k = k - 1;
    }
    assert(n@.take(n@.len() as int) =~= n@);
    crate::text::sub_chars(n, 0, k)
}

fn prefix_matched_exec(base: &Vec<String>, blocks: &Vec<UtilityBlock>, p: &Vec<char>) -> (b: bool)
    ensures
        b == prefix_matched(views(base@), block_views(blocks@), p@),
{
    let ghost bv = views(base@);
    let ghost kv = block_views(blocks@);
    let mut in_base = false;
    let mut i: usize = 0;
    while i < base.len()
        invariant
            i <= base@.len(),
            bv == views(base@),
            in_base == exists|j: int| 0 <= j < i && is_pattern(bv[j]) && trim_stars(bv[j]) == p@,
        decreases base@.len() - i,
    {
        let n = chars_of(base[i].as_str());
        assert(n@ == bv[i as int]);
        if n.len() > 0 && n[n.len() - 1] == '*' {
            let t = trim_stars_exec(&n);
            if crate::text::vec_eq(&t, p) {
                in_base = true;
            }
        }
        i = i + 1;
    }
    if !in_base {
        return false;
    }
    let mut k: usize = 0;
    while k < blocks.len()
        invariant
            k <= blocks@.len(),
            kv == block_views(blocks@),
            bv == views(base@),
            exists|j: int| 0 <= j < bv.len() && is_pattern(bv[j]) && trim_stars(bv[j]) == p@,
            forall|j: int| 0 <= j < k ==> !starts_with(kv[j].name, p@),
        decreases blocks@.len() - k,
    {
        let nm = chars_of(blocks[k].name.as_str());
        assert(nm@ == kv[k as int].name);
        if crate::text::vec_starts_with(&nm, p) {
            assert(starts_with(kv[k as int].name, p@));
            return true;
        }
        k = k + 1;
    }
    false
}

fn has_block_named(kept: &Vec<UtilityBlock>, n: &Vec<char>) -> (b: bool)
    ensures
        b == exists|j: int| 0 <= j < kept@.len() && block_views(kept@)[j].name == n@,
{
    let mut k: usize = 0;
    while k < kept.len()
        invariant
            k <= kept@.len(),
            forall|j: int| 0 <= j < k ==> block_views(kept@)[j].name != n@,
        decreases kept@.len() - k,
    {
        let nm = chars_of(kept[k].name.as_str());
        assert(nm@ == block_views(kept@)[k as int].name);
        if crate::text::vec_eq(&nm, n) {
            return true;
        }
        k = k + 1;
    }
    false
}

fn match_rules(classes: &[String], css: &Vec<char>) -> (r: ScopedRules)
    ensures
        scoped_view(r) == scoped_rules(views(classes@), css@),
{
    let ghost cv = views(classes@);
    // Base names of every requested token.
    let mut stripped: Vec<String> = Vec::new();
    let mut c: usize = 0;
    while c < classes.len()
        invariant
            c <= classes@.len(),
            cv == views(classes@),
            views(stripped@) == class_tokens(cv.take(c as int)).map_values(|t: Seq<char>| strip_mod(t)),
        decreases classes@.len() - c,
    {
        let cc = chars_of(classes[c].as_str());
        let toks = split_whitespace(&cc);
        let ghost s0 = views(stripped@);
        let mut t: usize = 0;
        while t < toks.len()
            invariant
                t <= toks@.len(),
                views(stripped@) == s0 + views(toks@).take(t as int).map_values(|x: Seq<char>| strip_mod(x)),
            decreases toks@.len() - t,
        {
            let ghost before = views(stripped@);
            stripped.push(strip_modifiers(toks[t].as_str()));
            assert(views(stripped@) =~= before.push(strip_mod(toks@[t as int]@)));
            assert(views(toks@).take(t + 1).map_values(|x: Seq<char>| strip_mod(x)) =~= views(toks@).take(t as int).map_values(|x: Seq<char>| strip_mod(x)).push(strip_mod(toks@[t as int]@)));
            t = t + 1;
        }
        assert(views(toks@).take(toks@.len() as int) =~= views(toks@));
        assert(cv.take(c + 1).drop_last() =~= cv.take(c as int));
        assert(class_tokens(cv.take(c + 1)).map_values(|x: Seq<char>| strip_mod(x)) =~= class_tokens(cv.take(c as int)).map_values(|x: Seq<char>| strip_mod(x)) + words(cv[c as int]).map_values(|x: Seq<char>| strip_mod(x)));
        c = c + 1;
    }
    assert(cv.take(classes@.len() as int) =~= cv);
    let base = sort_dedup(&stripped);
    let ghost bv = views(base@);
    let blocks = extract_utility_blocks(css);
    let ghost kb = block_views(blocks@);
    // The utilities some requested name or pattern selects.
    let mut utilities: Vec<UtilityBlock> = Vec::new();
    let mut refs: Vec<String> = Vec::new();
    let mut u: usize = 0;
    while u < blocks.len()
        invariant
            u <= blocks@.len(),
            bv == views(base@),
            kb == block_views(blocks@),
            block_views(utilities@) == kept_blocks(bv, kb.take(u as int)),
            views(refs@) == referenced_vars(kept_blocks(bv, kb.take(u as int))),
        decreases blocks@.len() - u,
    {
        let nm = chars_of(blocks[u].name.as_str());
        assert(kb.take(u + 1).drop_last() =~= kb.take(u as int));
        assert(kb.take(u + 1).last() == kb[u as int]);
        if keeps_exec(&base, &nm) {
            let ghost before = block_views(utilities@);
            utilities.push(UtilityBlock { name: blocks[u].name.clone(), body: blocks[u].body.clone() });
            assert(block_views(utilities@) =~= before.push(kb[u as int]));
            let body = chars_of(blocks[u].body.as_str());
            collect_var_references(&body, &mut refs);
            assert(kept_blocks(bv, kb.take(u + 1)) =~= before.push(kb[u as int]));
            assert(kept_blocks(bv, kb.take(u + 1)).drop_last() =~= before);
        } else {
            assert(kept_blocks(bv, kb.take(u + 1)) =~= kept_blocks(bv, kb.take(u as int)));
        }
        u = u + 1;
    }
    assert(kb.take(blocks@.len() as int) =~= kb);
    // The requested names that found nothing.
    let mut unmatched: Vec<String> = Vec::new();
    let mut b: usize = 0;
    while b < base.len()
        invariant
            b <= base@.len(),
            bv == views(base@),
            kb == block_views(blocks@),
            block_views(utilities@) == kept_blocks(bv, kb),
            views(unmatched@) == unmatched_names(bv, kb, bv.take(b as int)),
        decreases base@.len() - b,
    {
        let n = chars_of(base[b].as_str());
        assert(n@ == bv[b as int]);
        assert(bv.take(b + 1).drop_last() =~= bv.take(b as int));
        assert(bv.take(b + 1).last() == bv[b as int]);
        let un = if n.len() > 0 && n[n.len() - 1] == '*' {
            let p = crate::text::sub_chars(&n, 0, n.len() - 1);
            assert(p@ =~= n@.drop_last());
            !prefix_matched_exec(&base, &blocks, &p)
        } else {
            !has_block_named(&utilities, &n)
        };
        if un {
            let ghost before = views(unmatched@);
            unmatched.push(base[b].clone());
            assert(views(unmatched@) =~= before.push(bv[b as int]));
        }
        assert(views(unmatched@) =~= unmatched_names(bv, kb, bv.take(b + 1)));
        b = b + 1;
    }
    assert(bv.take(base@.len() as int) =~= bv);
    let theme_decls = extract_relevant_theme_decls(css, &refs);
    ScopedRules { utilities, theme_decls, unmatched }
}

// ---------------------------------------------------------------------------
// Assembling scoped CSS
// ---------------------------------------------------------------------------

/// The theme declarations, one indented line each.
pub open spec fn decl_lines(decls: Seq<Seq<char>>) -> Seq<char>
    decreases decls.len(),
{
    if decls.len() == 0 {
        seq![]
    } else {
        decl_lines(decls.drop_last()) + "  "@ + decls.last() + "\n"@
    }
}

/// The selector of a utility block: `.name` for a shadow root, or
/// `@utility name` for Tailwind source.
pub open spec fn utility_selector(name: Seq<char>, shadow: bool) -> Seq<char> {
    if shadow {
        "."@ + name
    } else {
        "@utility "@ + name
    }
}

pub open spec fn utility_rules(blocks: Seq<BlockView>, shadow: bool) -> Seq<char>
    decreases blocks.len(),
{
    if blocks.len() == 0 {
        seq![]
    } else {
        utility_rules(blocks.drop_last(), shadow) + utility_selector(blocks.last().name, shadow) + " {\n"@
            + blocks.last().body + "}\n\n"@
    }
}

/// One block of theme declarations (when any) under `:host` or `@theme`,
/// then one rule per utility, trailing white space trimmed.
pub open spec fn assembled(r: ScopedView, shadow: bool) -> Seq<char> {
    let theme = if r.theme_decls.len() > 0 {
        (if shadow {
            ":host"@
        } else {
            "@theme"@
        }) + " {\n"@ + decl_lines(r.theme_decls) + "}\n\n"@
    } else {
        seq![]
    };
    trim_end(theme + utility_rules(r.utilities, shadow))
}

fn assemble_css(scoped: &ScopedRules, shadow: bool) -> (r: String)
    ensures
        r@ == assembled(scoped_view(*scoped), shadow),
{
    let ghost sv = scoped_view(*scoped);
    let mut out = String::new();
    if scoped.theme_decls.len() > 0 {
        if shadow {
            push_str(&mut out, ":host");
        } else {
            push_str(&mut out, "@theme");
        }
        push_str(&mut out, " {\n");
        let ghost o1 = out@;
        let mut d: usize = 0;
        while d < scoped.theme_decls.len()
            invariant
                d <= scoped.theme_decls@.len(),
                sv == scoped_view(*scoped),
                out@ == o1 + decl_lines(sv.theme_decls.take(d as int)),
            decreases scoped.theme_decls@.len() - d,
        {
            push_str(&mut out, "  ");
            push_str(&mut out, scoped.theme_decls[d].as_str());
            push_str(&mut out, "\n");
            assert(sv.theme_decls.take(d + 1).drop_last() =~= sv.theme_decls.take(d as int));
            assert(out@ =~= o1 + decl_lines(sv.theme_decls.take(d + 1)));
            d = d + 1;
        }
        assert(sv.theme_decls.take(scoped.theme_decls@.len() as int) =~= sv.theme_decls);
        push_str(&mut out, "}\n\n");
    }
    let ghost o2 = out@;
    let mut u: usize = 0;
    while u < scoped.utilities.len()
        invariant
            u <= scoped.utilities@.len(),
            sv == scoped_view(*scoped),
            out@ == o2 + utility_rules(sv.utilities.take(u as int), shadow),
        decreases scoped.utilities@.len() - u,
    {
        if shadow {
            push_str(&mut out, ".");
        } else {
            push_str(&mut out, "@utility ");
        }
        push_str(&mut out, scoped.utilities[u].name.as_str());
        push_str(&mut out, " {\n");
        push_str(&mut out, scoped.utilities[u].body.as_str());
        push_str(&mut out, "}\n\n");
        assert(sv.utilities.take(u + 1).drop_last() =~= sv.utilities.take(u as int));
        assert(out@ =~= o2 + utility_rules(sv.utilities.take(u + 1), shadow));
        u = u + 1;
    }
    assert(sv.utilities.take(scoped.utilities@.len() as int) =~= sv.utilities);
    let r = crate::text::trim_end_str(out.as_str());
    assert(out@ =~= (if sv.theme_decls.len() > 0 {
        (if shadow {
            ":host"@
        } else {
            "@theme"@
        }) + " {\n"@ + decl_lines(sv.theme_decls) + "}\n\n"@
    } else {
        seq![]
    }) + utility_rules(sv.utilities, shadow));
    r
}

// ---------------------------------------------------------------------------
// Entry points
// ---------------------------------------------------------------------------

/// What `shadow_css_for_component` yields: the CSS and unmatched classes,
/// or the error naming the component.
pub open spec fn shadow_css(component: Seq<char>, classes: Seq<Seq<char>>, css: Seq<char>) -> Result<(Seq<char>, Seq<Seq<char>>), (bool, Seq<char>, Seq<char>)> {
    if classes.len() == 0 {
        Ok((seq![], seq![]))
    } else if trim(css).len() == 0 {
        Err((true, component, join(classes, " "@)))
    } else {
        let r = scoped_rules(classes, css);
        if r.utilities.len() == 0 {
            Err((false, component, join(r.unmatched, " "@)))
        } else {
            Ok((assembled(r, true), r.unmatched))
        }
    }
}

pub open spec fn error_view(e: ScopeError) -> (bool, Seq<char>, Seq<char>) {
    match e {
        ScopeError::EmptyStylesheet { component, classes } => (true, component@, classes@),
        ScopeError::NoRulesMatched { component, missing } => (false, component@, missing@),
    }
}

/// Extract browser-ready CSS for one component, scoped to the classes it
/// resolves to at render (including `prefix*` patterns): `@theme`
/// declarations become `:host` custom properties and each matched
/// `@utility name` block becomes a `.name` rule.
///
/// Errors when the component declares classes but nothing can be
/// extracted: an empty (all white space) stylesheet, or no utility matched.
/// An empty class list yields empty CSS.
pub fn shadow_css_for_component(component: &str, classes: &[String], full_css: &str) -> (r: Result<ShadowCss, ScopeError>)
    ensures
        match r {
            Ok(s) => shadow_css(component@, views(classes@), full_css@) == Ok::<(Seq<char>, Seq<Seq<char>>), (bool, Seq<char>, Seq<char>)>((s.css@, views(s.unmatched@))),
            Err(e) => shadow_css(component@, views(classes@), full_css@) == Err::<(Seq<char>, Seq<Seq<char>>), (bool, Seq<char>, Seq<char>)>(error_view(e)),
        },
{
    if classes.len() == 0 {
        let un: Vec<String> = Vec::new();
        assert(views(un@) =~= Seq::<Seq<char>>::empty());
        return Ok(ShadowCss { css: String::new(), unmatched: un });
    }
    let v = chars_of(full_css);
    let (a, b) = trim_range(&v, 0, v.len());
    assert(v@.subrange(0, v@.len() as int) =~= v@);
    if a == b {
        proof {
            reveal_strlit(" ");
        }
        return Err(ScopeError::EmptyStylesheet { component: owned(component), classes: join_strings(classes, " ") });
    }
    let scoped = match_rules(classes, &v);
    if scoped.utilities.len() == 0 {
        return Err(ScopeError::NoRulesMatched { component: owned(component), missing: join_strings(&scoped.unmatched, " ") });
    }
    let css = assemble_css(&scoped, true);
    Ok(ShadowCss { css, unmatched: scoped.unmatched })
}

/// What `scope_css` yields: the `@theme`/`@utility` source text of the
/// rules the classes select (empty when none), and the names that matched
/// no utility.
pub open spec fn scoped_source(classes: Seq<Seq<char>>, css: Seq<char>) -> (Seq<char>, Seq<Seq<char>>) {
    if classes.len() == 0 || css.len() == 0 {
        (seq![], seq![])
    } else {
        let r = scoped_rules(classes, css);
        (if r.utilities.len() == 0 {
            seq![]
        } else {
            assembled(r, false)
        }, r.unmatched)
    }
}

/// Extract only the CSS rules matching the given class names from a full
/// stylesheet, in Tailwind source form: the matched `@utility` blocks plus
/// the `@theme` declarations they reference. Also returns the class names
/// with no matching `@utility` block, for the caller to report.
pub fn scope_css(classes: &[String], full_css: &str) -> (r: (String, Vec<String>))
    ensures
        (r.0@, views(r.1@)) == scoped_source(views(classes@), full_css@),
{
    let v = chars_of(full_css);
    if classes.len() == 0 || v.len() == 0 {
        let un: Vec<String> = Vec::new();
        assert(views(un@) =~= Seq::<Seq<char>>::empty());
        return (String::new(), un);
    }
    let scoped = match_rules(classes, &v);
    if scoped.utilities.len() == 0 {
        return (String::new(), scoped.unmatched);
    }
    let css = assemble_css(&scoped, false);
    (css, scoped.unmatched)
}

// ---------------------------------------------------------------------------
// Classes a `.classes.ts` module declares
// ---------------------------------------------------------------------------

/// Every string-shaped value an expression (under type wrappers) can
/// resolve to at render.
pub open spec fn collect_under(e: TsExpr) -> Seq<Seq<char>>
    decreases e, 1int,
{
    match e {
        TsExpr::Wrapped(x) => collect_under(*x),
        TsExpr::Asserted(x) => collect_under(*x),
        _ => collect_strings(e),
    }
}

/// Every string-shaped value an expression can resolve to at render: its
/// own class-shaped text, or else those of an object's property values, an
/// array's elements, a conditional's arms, or an arrow body's expression
/// statements and returned values.
pub open spec fn collect_strings(e: TsExpr) -> Seq<Seq<char>>
    decreases e, 0int,
{
    match template_value(e) {
        Some(t) => seq![t],
        None => match e {
            TsExpr::Object(ps) => prop_strings(ps@),
            TsExpr::Array(xs) => elem_strings(xs@),
            TsExpr::Conditional(a, b) => collect_under(*a) + collect_under(*b),
            TsExpr::Arrow(ss) => arrow_strings(ss@),
            _ => seq![],
        },
    }
}

pub open spec fn prop_strings(ps: Seq<TsProperty>) -> Seq<Seq<char>>
    decreases ps, 0int,
{
    if ps.len() == 0 {
        seq![]
    } else {
        prop_strings(ps.subrange(0, ps.len() - 1)) + match ps[ps.len() - 1] {
            TsProperty::Prop(_, v) => collect_under(v),
            TsProperty::Spread => seq![],
        }
    }
}

pub open spec fn elem_strings(xs: Seq<TsElement>) -> Seq<Seq<char>>
    decreases xs, 0int,
{
    if xs.len() == 0 {
        seq![]
    } else {
        elem_strings(xs.subrange(0, xs.len() - 1)) + match xs[xs.len() - 1] {
            TsElement::Expr(v) => collect_under(v),
            _ => seq![],
        }
    }
}

pub open spec fn arrow_strings(ss: Seq<TsArrowStatement>) -> Seq<Seq<char>>
    decreases ss, 0int,
{
    if ss.len() == 0 {
        seq![]
    } else {
        arrow_strings(ss.subrange(0, ss.len() - 1)) + match ss[ss.len() - 1] {
            TsArrowStatement::Expr(v) => collect_under(v),
            TsArrowStatement::Return(Some(v)) => collect_under(v),
            _ => seq![],
        }
    }
}

fn append_all(out: &mut Vec<String>, more: Vec<String>)
    ensures
        views(final(out)@) == views(old(out)@) + views(more@),
{
    let mut i: usize = 0;
    let ghost o0 = views(out@);
    while i < more.len()
        invariant
            i <= more@.len(),
            views(out@) == o0 + views(more@).take(i as int),
        decreases more@.len() - i,
    {
        let ghost before = views(out@);
        out.push(owned(more[i].as_str()));
        assert(views(out@) =~= before.push(more@[i as int]@));
        assert(views(more@).take(i + 1) =~= views(more@).take(i as int).push(more@[i as int]@));
        i = i + 1;
    }
    assert(views(more@).take(more@.len() as int) =~= views(more@));
}

/// The string-shaped values of an expression under type wrappers (see
/// `collect_strings`).
pub fn collect_class_strings(e: &TsExpr) -> (r: Vec<String>)
    ensures
        views(r@) == collect_under(*e),
    decreases e, 1int,
{
    match e {
        TsExpr::Wrapped(x) => collect_class_strings(x),
        TsExpr::Asserted(x) => collect_class_strings(x),
        _ => collect_own(e),
    }
}

fn collect_own(e: &TsExpr) -> (r: Vec<String>)
    ensures
        views(r@) == collect_strings(*e),
    decreases e, 0int,
{
    if let Some(t) = template_value_exec(e) {
        let r = vec![t];
        assert(views(r@) =~= seq![t@]);
        return r;
    }
    let mut out: Vec<String> = Vec::new();
    assert(views(out@) =~= Seq::<Seq<char>>::empty());
    match e {
        TsExpr::Object(ps) => {
            let mut i: usize = 0;
            while i < ps.len()
                invariant
                    *e == TsExpr::Object(*ps),
                    i <= ps@.len(),
                    views(out@) == prop_strings(ps@.subrange(0, i as int)),
                decreases ps@.len() - i,
            {
                assert(ps@.subrange(0, i + 1).subrange(0, i as int) =~= ps@.subrange(0, i as int));
                if let TsProperty::Prop(_, v) = &ps[i] {
                    proof {
                        assert(decreases_to!(*e => ps@[i as int])) by {
                            assert(decreases_to!(*e => (*e)->Object_0));
                            assert((*e)->Object_0 == *ps);
                            assert(decreases_to!(*ps => ps@));
                            assert(decreases_to!(ps@ => ps@[i as int]));
                        }
                        assert(decreases_to!(ps@[i as int] => (ps@[i as int])->Prop_1));
                    }
                    append_all(&mut out, collect_class_strings(v));
                }
                i = i + 1;
            }
            assert(ps@.subrange(0, ps@.len() as int) =~= ps@);
        },
        TsExpr::Array(xs) => {
            let mut i: usize = 0;
            while i < xs.len()
                invariant
                    *e == TsExpr::Array(*xs),
                    i <= xs@.len(),
                    views(out@) == elem_strings(xs@.subrange(0, i as int)),
                decreases xs@.len() - i,
            {
                assert(xs@.subrange(0, i + 1).subrange(0, i as int) =~= xs@.subrange(0, i as int));
                if let TsElement::Expr(v) = &xs[i] {
                    proof {
                        assert(decreases_to!(*e => xs@[i as int])) by {
                            assert(decreases_to!(*e => (*e)->Array_0));
                            assert((*e)->Array_0 == *xs);
                            assert(decreases_to!(*xs => xs@));
                            assert(decreases_to!(xs@ => xs@[i as int]));
                        }
                        assert(decreases_to!(xs@[i as int] => (xs@[i as int])->Expr_0));
                    }
                    append_all(&mut out, collect_class_strings(v));
                }
                i = i + 1;
            }
            assert(xs@.subrange(0, xs@.len() as int) =~= xs@);
        },
        TsExpr::Conditional(a, b) => {
            append_all(&mut out, collect_class_strings(a));
            append_all(&mut out, collect_class_strings(b));
        },
        TsExpr::Arrow(ss) => {
            let mut i: usize = 0;
            while i < ss.len()
                invariant
                    *e == TsExpr::Arrow(*ss),
                    i <= ss@.len(),
                    views(out@) == arrow_strings(ss@.subrange(0, i as int)),
                decreases ss@.len() - i,
            {
                assert(ss@.subrange(0, i + 1).subrange(0, i as int) =~= ss@.subrange(0, i as int));
                proof {
                    assert(decreases_to!(*e => ss@[i as int])) by {
                        assert(decreases_to!(*e => (*e)->Arrow_0));
                        assert((*e)->Arrow_0 == *ss);
                        assert(decreases_to!(*ss => ss@));
                        assert(decreases_to!(ss@ => ss@[i as int]));
                    }
                }
                match &ss[i] {
                    TsArrowStatement::Expr(v) => {
                        proof {
                            assert(decreases_to!(ss@[i as int] => (ss@[i as int])->Expr_0));
                        }
                        append_all(&mut out, collect_class_strings(v));
                    },
                    TsArrowStatement::Return(Some(v)) => {
                        proof {
                            assert(decreases_to!(ss@[i as int] => (ss@[i as int])->Return_0));
                            assert(decreases_to!((ss@[i as int])->Return_0 => (ss@[i as int])->Return_0->Some_0));
                        }
                        append_all(&mut out, collect_class_strings(v));
                    },
                    _ => {},
                }
                i = i + 1;
            }
            assert(ss@.subrange(0, ss@.len() as int) =~= ss@);
        },
        _ => {},
    }
    out
}

/// The scopable class tokens of each word, in order.
pub open spec fn word_tokens(ws: Seq<Seq<char>>) -> Seq<Seq<char>>
    decreases ws.len(),
{
    if ws.len() == 0 {
        seq![]
    } else {
        match scopable(ws.last()) {
            Some(t) => word_tokens(ws.drop_last()).push(t),
            None => word_tokens(ws.drop_last()),
        }
    }
}

/// The scopable class tokens of each value's words, in order.
pub open spec fn value_tokens(vs: Seq<Seq<char>>) -> Seq<Seq<char>>
    decreases vs.len(),
{
    if vs.len() == 0 {
        seq![]
    } else {
        value_tokens(vs.drop_last()) + word_tokens(words(vs.last()))
    }
}

/// The string-shaped values of every variable initializer, in order.
pub open spec fn module_class_strings(ss: Seq<TsStatement>) -> Seq<Seq<char>>
    decreases ss.len(),
{
    if ss.len() == 0 {
        seq![]
    } else {
        module_class_strings(ss.drop_last()) + match ss.last() {
            TsStatement::Variables(_, ds) => init_strings(ds@),
            _ => seq![],
        }
    }
}

pub open spec fn init_strings(ds: Seq<TsDeclarator>) -> Seq<Seq<char>>
    decreases ds.len(),
{
    if ds.len() == 0 {
        seq![]
    } else {
        init_strings(ds.drop_last()) + match ds.last().init {
            Some(x) => collect_under(x),
            None => seq![],
        }
    }
}

fn push_tokens(out: &mut Vec<String>, value: &str)
    ensures
        views(final(out)@) == views(old(out)@) + word_tokens(words(value@)),
{
    let ws = split_whitespace(&chars_of(value));
    let ghost wv = views(ws@);
    let ghost o0 = views(out@);
    let mut i: usize = 0;
    while i < ws.len()
        invariant
            i <= ws@.len(),
            wv == views(ws@),
            views(out@) == o0 + word_tokens(wv.take(i as int)),
        decreases ws@.len() - i,
    {
        assert(wv.take(i + 1).drop_last() =~= wv.take(i as int));
        assert(wv.take(i + 1).last() == ws@[i as int]@);
        if let Some(t) = scopable_class_token(ws[i].as_str()) {
            let ghost before = views(out@);
            out.push(t);
            assert(views(out@) =~= before.push(t@));
        }
        i = i + 1;
    }
    assert(wv.take(ws@.len() as int) =~= wv);
}

/// The class tokens a `.classes.ts` file declares, each once, sorted:
/// every scopable token of the string-shaped values its variable
/// initializers resolve to (a dynamically composed token as its `prefix*`
/// pattern); empty when the parser gave up.
pub fn extract_classes_from_ts(source: &str) -> (r: Vec<String>)
    ensures
        match parsed_module(source@, false) {
            Some(m) => views(r@) == sorted_set(value_tokens(module_class_strings(m.statements@))),
            None => r@.len() == 0,
        },
{
    match parse_ts_module(source, false) {
        Some(m) => classes_of_module(&m),
        None => Vec::new(),
    }
}

/// The class tokens a parsed `.classes.ts` module declares, each once,
/// sorted (see `extract_classes_from_ts`).
pub fn classes_of_module(m: &TsModule) -> (r: Vec<String>)
    ensures
        views(r@) == sorted_set(value_tokens(module_class_strings(m.statements@))),
{
    let ss = &m.statements;
    let mut raw: Vec<String> = Vec::new();
    let mut i: usize = 0;
    while i < ss.len()
        invariant
            i <= ss@.len(),
            views(raw@) == module_class_strings(ss@.take(i as int)),
        decreases ss@.len() - i,
    {
        assert(ss@.take(i + 1).drop_last() =~= ss@.take(i as int));
        if let TsStatement::Variables(_, ds) = &ss[i] {
            let ghost r0 = views(raw@);
            let mut j: usize = 0;
            while j < ds.len()
                invariant
                    j <= ds@.len(),
                    views(raw@) == r0 + init_strings(ds@.take(j as int)),
                decreases ds@.len() - j,
            {
                assert(ds@.take(j + 1).drop_last() =~= ds@.take(j as int));
                let ghost before = views(raw@);
                if let Some(x) = &ds[j].init {
                    append_all(&mut raw, collect_class_strings(x));
                }
                assert(r0 + init_strings(ds@.take(j + 1)) =~= before + match ds@[j as int].init {
                    Some(x) => collect_under(x),
                    None => seq![],
                });
                j = j + 1;
            }
            assert(ds@.take(ds@.len() as int) =~= ds@);
        }
        i = i + 1;
    }
    assert(ss@.take(ss@.len() as int) =~= ss@);
    let ghost rv = views(raw@);
    let mut tokens: Vec<String> = Vec::new();
    let mut k: usize = 0;
    while k < raw.len()
        invariant
            k <= raw@.len(),
            rv == views(raw@),
            views(tokens@) == value_tokens(rv.take(k as int)),
        decreases raw@.len() - k,
    {
        assert(rv.take(k + 1).drop_last() =~= rv.take(k as int));
        assert(rv.take(k + 1).last() == raw@[k as int]@);
        push_tokens(&mut tokens, raw[k].as_str());
        k = k + 1;
    }
    assert(rv.take(raw@.len() as int) =~= rv);
    sort_dedup(&tokens)
}

} // verus!
