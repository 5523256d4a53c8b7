//! Name-shape utilities used across the extraction pipeline.

use vstd::prelude::*;
use vstd::string::*;
use crate::text::{
    char_is_upper, char_lower, chars_of, has_char, is_uppercase, join, join_strings, push_char,
    push_lower, push_range, split_whitespace, str_has_char, views, words,
};

verus! {

/// Marker for the dynamic part of a string composed at render time (for
/// example the `${tint}` hole in `` `text-quality-${tint}` ``). Internal to
/// extraction; never appears in returned class tokens.
pub const DYNAMIC_HOLE: char = '\u{FFFC}';

/// The kebab-cased name after reading one more character: an upper-case
/// character starts a new word (a dash, unless at the start or after a
/// dash) and is lower-cased; `_` and space become that dash; anything else
/// is kept.
pub open spec fn kebab_step(k: Seq<char>, c: char) -> Seq<char> {
    let sep = if k.len() > 0 && k.last() != '-' {
        k.push('-')
    } else {
        k
    };
    if char_is_upper(c) {
        sep + char_lower(c)
    } else if c == '_' || c == ' ' {
        sep
    } else {
        k.push(c)
    }
}

/// Kebab-case an item name: `SplitPanel` -> `split-panel`,
/// `hero-banner` -> `hero-banner`.
pub open spec fn kebab(s: Seq<char>) -> Seq<char>
    decreases s.len(),
{
    if s.len() == 0 {
        seq![]
    } else {
        kebab_step(kebab(s.drop_last()), s.last())
    }
}

/// Kebab-case an item name: `SplitPanel` -> `split-panel`,
/// `hero-banner` -> `hero-banner`. Underscores and spaces become dashes;
/// consecutive separators collapse.
pub fn kebab_case(name: &str) -> (r: String)
    ensures
        r@ == kebab(name@),
{
    let v = chars_of(name);
    let mut k = String::new();
    let mut last: Option<char> = None;
    let mut i: usize = 0;
    while i < v.len()
        invariant
            i <= v@.len(),
            v@ == name@,
            k@ == kebab(v@.take(i as int)),
            last == if k@.len() > 0 {
                Some(k@.last())
            } else {
                None::<char>
            },
        decreases v@.len() - i,
    {
        let c = v[i];
        assert(v@.take(i + 1).drop_last() =~= v@.take(i as int));
        let ghost k0 = k@;
        let up = is_uppercase(c);
        if up || c == '_' || c == ' ' {
            let needs_dash = match last {
                Some(l) => l != '-',
                None => false,
            };
            if needs_dash {
                push_char(&mut k, '-');
            }
            if up {
                push_lower(&mut k, c);
            }
        } else {
            push_char(&mut k, c);
        }
        last = last_char(&k);
        i = i + 1;
    }
    assert(v@.take(v@.len() as int) =~= v@);
    k
}

/// The last character of a string, if any.
fn last_char(s: &String) -> (r: Option<char>)
    ensures
        r == if s@.len() > 0 {
            Some(s@.last())
        } else {
            None::<char>
        },
{
    let v = chars_of(s.as_str());
    if v.len() == 0 {
        None
    } else {
        Some(v[v.len() - 1])
    }
}

/// The scopable form of a class token: a hole-free token as is, static text
/// before a hole as a `prefix*` pattern, nothing for a token that starts
/// with a hole.
pub open spec fn scopable(token: Seq<char>) -> Option<Seq<char>> {
    let i = crate::text::next_char(token, DYNAMIC_HOLE, 0);
    if i == 0 && token.len() > 0 {
        None
    } else if i < token.len() {
        Some(token.take(i) + seq!['*'])
    } else {
        Some(token)
    }
}

/// Convert one class token that may contain a [`DYNAMIC_HOLE`] into its
/// scopable form: a hole-free token passes through, a token with static
/// text before the hole becomes a `prefix-*` pattern, and a token with no
/// static prefix cannot be scoped (`None`).
pub fn scopable_class_token(token: &str) -> (r: Option<String>)
    ensures
        match r {
            Some(t) => scopable(token@) == Some(t@),
            None => scopable(token@) is None,
        },
{
    let v = chars_of(token);
    let i = crate::text::find_char(&v, DYNAMIC_HOLE, 0);
    if i == 0 && v.len() > 0 {
        None
    } else if i < v.len() {
        let mut r = String::new();
        push_range(&mut r, &v, 0, i);
        push_char(&mut r, '*');
        assert(v@.subrange(0, i as int) =~= v@.take(i as int));
        Some(r)
    } else {
        Some(crate::text::owned(token))
    }
}

/// A class-shaped value split into its two scoping halves.
#[derive(Debug)]
pub struct ClassValue {
    /// Space-joined tokens that are fully static in source.
    pub static_classes: String,
    /// `prefix*` patterns for tokens composed dynamically at render.
    pub patterns: Vec<String>,
}

/// The tokens of `ws` that hold no hole, in order.
pub open spec fn static_tokens(ws: Seq<Seq<char>>) -> Seq<Seq<char>>
    decreases ws.len(),
{
    if ws.len() == 0 {
        seq![]
    } else if has_char(ws.last(), DYNAMIC_HOLE) {
        static_tokens(ws.drop_last())
    } else {
        static_tokens(ws.drop_last()).push(ws.last())
    }
}

/// The scopable patterns of the tokens of `ws` that hold a hole, in order.
pub open spec fn hole_patterns(ws: Seq<Seq<char>>) -> Seq<Seq<char>>
    decreases ws.len(),
{
    if ws.len() == 0 {
        seq![]
    } else if has_char(ws.last(), DYNAMIC_HOLE) {
        match scopable(ws.last()) {
            Some(p) => hole_patterns(ws.drop_last()).push(p),
            None => hole_patterns(ws.drop_last()),
        }
    } else {
        hole_patterns(ws.drop_last())
    }
}

/// Split a class-shaped value whose dynamic parts are [`DYNAMIC_HOLE`]
/// markers: static tokens are joined with single spaces, dynamically
/// composed tokens become `prefix*` patterns (or are dropped when nothing
/// static precedes the hole).
pub fn class_value_of(value: &str) -> (r: ClassValue)
    ensures
        r.static_classes@ == join(static_tokens(words(value@)), seq![' ']),
        views(r.patterns@) == hole_patterns(words(value@)),
{
    let ws = split_whitespace(&chars_of(value));
    let ghost w = views(ws@);
    let mut statics: Vec<String> = Vec::new();
    let mut patterns: Vec<String> = Vec::new();
    let mut i: usize = 0;
    while i < ws.len()
        invariant
            i <= ws@.len(),
            w == views(ws@),
            w == words(value@),
            views(statics@) == static_tokens(w.take(i as int)),
            views(patterns@) == hole_patterns(w.take(i as int)),
        decreases ws@.len() - i,
    {
        assert(w.take(i + 1).drop_last() =~= w.take(i as int));
        assert(w.take(i + 1).last() == w[i as int]);
        let t = ws[i].as_str();
        if str_has_char(t, DYNAMIC_HOLE) {
            match scopable_class_token(t) {
                Some(p) => {
                    patterns.push(p);
                },
                None => {},
            }
        } else {
            statics.push(crate::text::owned(t));
        }
        proof {
            assert(views(statics@) =~= static_tokens(w.take(i + 1)));
            assert(views(patterns@) =~= hole_patterns(w.take(i + 1)));
        }
        i = i + 1;
    }
    assert(w.take(w.len() as int) =~= w);
    let static_classes = join_strings(&statics, " ");
    proof {
        reveal_strlit(" ");
        assert(" "@ =~= seq![' ']);
    }
    ClassValue { static_classes, patterns }
}

} // verus!
