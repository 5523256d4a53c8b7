//! What the library reads out of a parsed expression: the expression under
//! type wrappers, a static string, a class-shaped string with holes for
//! its dynamic parts, and an object's static-string entries.

use vstd::prelude::*;
use vstd::string::*;
use crate::text::{has_char, join, join_strings, owned, push_char, push_str, str_has_char, views};
use crate::ts_helpers::DYNAMIC_HOLE;
use crate::ts_syntax::{TsExpr, TsKey, TsProperty};
use crate::react::{opt_view, pair_views};

verus! {

/// The expression under any `as`, `satisfies`, type assertion or
/// parentheses.
pub open spec fn unwrapped(e: TsExpr) -> TsExpr
    decreases e,
{
    match e {
        TsExpr::Wrapped(x) => unwrapped(*x),
        TsExpr::Asserted(x) => unwrapped(*x),
        _ => e,
    }
}

pub fn unwrap_expr(e: &TsExpr) -> (r: &TsExpr)
    ensures
        *r == unwrapped(*e),
    decreases e,
{
    match e {
        TsExpr::Wrapped(x) => unwrap_expr(x),
        TsExpr::Asserted(x) => unwrap_expr(x),
        _ => e,
    }
}

/// The name of a plain identifier or string key.
pub open spec fn key_name(k: TsKey) -> Option<Seq<char>> {
    match k {
        TsKey::Ident(s) => Some(s@),
        TsKey::Str(s) => Some(s@),
        _ => None,
    }
}

pub fn key_name_exec(k: &TsKey) -> (r: Option<String>)
    ensures
        opt_view(r) == key_name(*k),
{
    match k {
        TsKey::Ident(s) => Some(owned(s.as_str())),
        TsKey::Str(s) => Some(owned(s.as_str())),
        _ => None,
    }
}

/// A fully static string: a literal, a template without expressions, or a
/// concatenation of static strings, seen through `as`, `satisfies` and
/// parentheses.
pub open spec fn static_text(e: TsExpr) -> Option<Seq<char>>
    decreases e,
{
    match e {
        TsExpr::Str(s) => Some(s@),
        TsExpr::Template(qs, es) => if es@.len() == 0 && qs@.len() > 0 {
            Some(join(views(qs@), seq![]))
        } else {
            None
        },
        TsExpr::Add(l, r) => match (static_text(*l), static_text(*r)) {
            (Some(a), Some(b)) => Some(a + b),
            _ => None,
        },
        TsExpr::Wrapped(x) => static_text(*x),
        _ => None,
    }
}

pub fn static_text_exec(e: &TsExpr) -> (r: Option<String>)
    ensures
        opt_view(r) == static_text(*e),
    decreases e,
{
    match e {
        TsExpr::Str(s) => Some(owned(s.as_str())),
        TsExpr::Template(qs, es) => {
            if es.len() == 0 && qs.len() > 0 {
                proof {
                    reveal_strlit("");
                    assert(""@ =~= Seq::<char>::empty());
                }
                Some(join_strings(qs.as_slice(), ""))
            } else {
                None
            }
        },
        TsExpr::Add(l, r) => match (static_text_exec(l), static_text_exec(r)) {
            (Some(a), Some(b)) => {
                let mut t = a;
                push_str(&mut t, b.as_str());
                Some(t)
            },
            _ => None,
        },
        TsExpr::Wrapped(x) => static_text_exec(x),
        _ => None,
    }
}

/// A part's text, or the hole marker where it has none.
pub open spec fn hole_or(v: Option<Seq<char>>) -> Seq<char> {
    match v {
        Some(t) => t,
        None => seq![DYNAMIC_HOLE],
    }
}

/// The text a class-shaped expression resolves to, each dynamic part a
/// hole: a literal; a template's quasis with each expression's text (or a
/// hole) between them; a concatenation with at least one such part; all
/// seen through `as`, `satisfies` and parentheses.
pub open spec fn template_value(e: TsExpr) -> Option<Seq<char>>
    decreases e, 0int,
{
    match e {
        TsExpr::Str(s) => Some(s@),
        TsExpr::Template(qs, es) => Some(template_text(qs@, es@, qs@.len() as int)),
        TsExpr::Add(l, r) => {
            let a = template_value(*l);
            let b = template_value(*r);
            if a is None && b is None {
                None
            } else {
                Some(hole_or(a) + hole_or(b))
            }
        },
        TsExpr::Wrapped(x) => template_value(*x),
        _ => None,
    }
}

/// The first `n` quasis of a template, each followed by its expression's
/// text when there is one.
pub open spec fn template_text(qs: Seq<String>, es: Seq<TsExpr>, n: int) -> Seq<char>
    decreases es, n,
{
    if n <= 0 || n > qs.len() {
        seq![]
    } else if n - 1 < es.len() {
        template_text(qs, es, n - 1) + qs[n - 1]@ + hole_or(template_value(es[n - 1]))
    } else {
        template_text(qs, es, n - 1) + qs[n - 1]@
    }
}

fn push_hole_or(out: &mut String, v: Option<String>)
    ensures
        final(out)@ == old(out)@ + hole_or(opt_view(v)),
{
    match v {
        Some(t) => push_str(out, t.as_str()),
        None => push_char(out, DYNAMIC_HOLE),
    }
}

pub fn template_value_exec(e: &TsExpr) -> (r: Option<String>)
    ensures
        opt_view(r) == template_value(*e),
    decreases e,
{
    match e {
        TsExpr::Str(s) => Some(owned(s.as_str())),
        TsExpr::Template(qs, es) => {
            let mut out = String::new();
            let mut i: usize = 0;
            while i < qs.len()
                invariant
                    *e == TsExpr::Template(*qs, *es),
                    i <= qs@.len(),
                    out@ == template_text(qs@, es@, i as int),
                decreases qs@.len() - i,
            {
                push_str(&mut out, qs[i].as_str());
                if i < es.len() {
                    proof {
                        assert(decreases_to!(*e => es@[i as int])) by {
                            assert(decreases_to!(*e => (*e)->Template_1));
                            assert((*e)->Template_1 == *es);
                            assert(decreases_to!(*es => es@));
                            assert(decreases_to!(es@ => es@[i as int]));
                        }
                    }
                    let inner = template_value_exec(&es[i]);
                    push_hole_or(&mut out, inner);
                }
                i = i + 1;
            }
            Some(out)
        },
        TsExpr::Add(l, r) => {
            let a = template_value_exec(l);
            let b = template_value_exec(r);
            if a.is_none() && b.is_none() {
                None
            } else {
                let mut out = String::new();
                push_hole_or(&mut out, a);
                push_hole_or(&mut out, b);
                Some(out)
            }
        },
        TsExpr::Wrapped(x) => template_value_exec(x),
        _ => None,
    }
}

/// A class-shaped string with no dynamic part.
pub open spec fn string_value(e: TsExpr) -> Option<Seq<char>> {
    match template_value(e) {
        Some(t) => if has_char(t, DYNAMIC_HOLE) {
            None
        } else {
            Some(t)
        },
        None => None,
    }
}

pub fn string_value_exec(e: &TsExpr) -> (r: Option<String>)
    ensures
        opt_view(r) == string_value(*e),
{
    match template_value_exec(e) {
        Some(t) => if str_has_char(t.as_str(), DYNAMIC_HOLE) {
            None
        } else {
            Some(t)
        },
        None => None,
    }
}

/// Whether an expression is an arrow function or a function expression.
pub open spec fn is_function_expr(e: TsExpr) -> bool {
    e is Arrow || e is Function
}

/// The entries of an object's properties whose key has a name and whose
/// value (under type wrappers) is a static string, in order.
pub open spec fn static_entries(ps: Seq<TsProperty>) -> Seq<(Seq<char>, Seq<char>)>
    decreases ps.len(),
{
    if ps.len() == 0 {
        seq![]
    } else {
        let rest = static_entries(ps.drop_last());
        match ps.last() {
            TsProperty::Prop(k, v) => match (key_name(k), static_text(unwrapped(v))) {
                (Some(n), Some(t)) => rest.push((n, t)),
                _ => rest,
            },
            TsProperty::Spread => rest,
        }
    }
}

/// An object literal's static-string entries; `None` for another
/// expression.
pub open spec fn object_entries(e: TsExpr) -> Option<Seq<(Seq<char>, Seq<char>)>> {
    match e {
        TsExpr::Object(ps) => Some(static_entries(ps@)),
        _ => None,
    }
}

pub open spec fn opt_pairs(o: Option<Vec<(String, String)>>) -> Option<Seq<(Seq<char>, Seq<char>)>> {
    match o {
        Some(v) => Some(pair_views(v@)),
        None => None,
    }
}

pub fn object_entries_exec(e: &TsExpr) -> (r: Option<Vec<(String, String)>>)
    ensures
        opt_pairs(r) == object_entries(*e),
{
    match e {
        TsExpr::Object(ps) => {
            let mut out: Vec<(String, String)> = Vec::new();
            let mut i: usize = 0;
            while i < ps.len()
                invariant
                    i <= ps@.len(),
                    pair_views(out@) == static_entries(ps@.take(i as int)),
                decreases ps@.len() - i,
            {
                assert(ps@.take(i + 1).drop_last() =~= ps@.take(i as int));
                assert(ps@.take(i + 1).last() == ps@[i as int]);
                if let TsProperty::Prop(k, v) = &ps[i] {
                    match (key_name_exec(k), static_text_exec(unwrap_expr(v))) {
                        (Some(n), Some(t)) => {
                            let ghost o0 = pair_views(out@);
                            out.push((n, t));
                            assert(pair_views(out@) =~= o0.push((n@, t@)));
                        },
                        _ => {},
                    }
                }
                i = i + 1;
            }
            assert(ps@.take(ps@.len() as int) =~= ps@);
            Some(out)
        },
        _ => None,
    }
}

} // verus!
