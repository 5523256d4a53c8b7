//! Compiled component intelligence: what a component's source declares
//! about itself (props, variants, cognitive load, do/never rules, token
//! references, dependencies), read from JSDoc tags, `*Props` interfaces,
//! imports and composite manifests. Every field holds exactly what the
//! source declares: an empty list or `None` means nothing was declared.

use vstd::prelude::*;
use vstd::string::*;
use crate::rafters_source::UsagePatterns;
use crate::text::{
    extend_unique, find_seq, find_ws, join, join_strings, next_occ, next_ws, str_lower,
    to_lowercase, words, split_whitespace, str_eq, push_string_unique, chars_of, is_ascii_digit, is_digit, lines, normalize_whitespace, normalize_ws, owned,
    prefix_slice_ok, push_char, push_str, skip_ws_from, split_lines, starts_ci, starts_with,
    str_starts_with, string_of, ends_with, trim, trim_range, trim_start, vec_starts_ci, views, vviews,
};
use crate::traits::TransformedBlock;
use crate::react::pair_views;
use crate::ts_syntax::{parse_ts_module, parsed_module, TsModule, TsStatement};
use crate::config_interface::{add_prop, add_prop_doc, interface_props, member_props, prop_doc_views};
use crate::scope::{
    insert_sorted, lemma_seq_lt_irreflexive, lemma_seq_lt_total, lemma_seq_lt_transitive, lemma_sorted_insert, seq_lt,
    sorted_insert, str_lt, strictly_sorted, strip_mod, strip_modifiers,
};
use crate::ts_helpers::{kebab, kebab_case};

verus! {

/// One property a `*Props` TypeScript interface declares.
#[derive(Debug, Clone, PartialEq, Eq)]
pub struct PropDoc {
    /// Declared property name.
    pub name: String,
    /// The declared type annotation, verbatim from source (white space
    /// normalized). `None` when the declaration has no annotation.
    pub type_text: Option<String>,
    /// Whether the property is declared optional (`name?:`).
    pub optional: bool,
}

/// One variant the component source declares, with the classes it maps to.
#[derive(Debug, Clone, PartialEq, Eq)]
pub struct VariantDoc {
    /// Variant key as declared in the variant record.
    pub name: String,
    /// The class string that variant maps to, verbatim from source.
    pub classes: String,
}

/// Cognitive load as declared in source: the `@cognitive-load N/10 - desc`
/// JSDoc tag on components, or the bare `cognitiveLoad` number a composite
/// manifest declares (which carries no description).
#[derive(Debug, Clone, PartialEq, Eq)]
pub struct CognitiveLoad {
    /// Declared score on the 0-10 scale.
    pub score: u8,
    /// The prose after the score, when the source declares one.
    pub description: Option<String>,
}

/// Whether a constraint is a DO or a NEVER.
#[derive(Debug, Clone, Copy, PartialEq, Eq, Structural)]
pub enum ConstraintKind {
    Do,
    Never,
}

/// One do/never usage constraint.
#[derive(Debug, Clone, PartialEq, Eq)]
pub struct Constraint {
    pub kind: ConstraintKind,
    pub text: String,
}

/// A namespace token the component's classes reference by exact name.
#[derive(Debug, Clone, PartialEq, Eq)]
pub struct TokenRef {
    /// Token name as declared in the namespace source.
    pub token: String,
    /// Namespace that declares the token (for example "semantic").
    pub namespace: String,
    /// The component classes that reference the token, sorted.
    pub referenced_by: Vec<String>,
}

/// Where a dependency declaration comes from.
#[derive(Debug, Clone, Copy, PartialEq, Eq, Structural)]
pub enum DependencyOrigin {
    /// An `import ... from '<package>'` statement in the source file.
    Import,
    /// A `@dependencies` JSDoc tag.
    JsDocTag,
}

/// One dependency the component source declares.
#[derive(Debug, Clone, PartialEq, Eq)]
pub struct DependencyRef {
    /// Package name as declared.
    pub name: String,
    pub origin: DependencyOrigin,
}

/// The compiled intelligence of one component or composite.
#[derive(Debug, Clone, PartialEq, Eq)]
pub struct CompiledIntelligence {
    pub props: Vec<PropDoc>,
    /// The `Config` interfaces the prop surface extends, by name and
    /// unresolved (each lives in another file).
    pub config_extends: Vec<String>,
    pub variants: Vec<VariantDoc>,
    pub cognitive_load: Option<CognitiveLoad>,
    pub do_never: Vec<Constraint>,
    pub tokens: Vec<TokenRef>,
    pub dependencies: Vec<DependencyRef>,
}

impl Default for CompiledIntelligence {
    /// Nothing declared.
    fn default() -> (r: Self)
        ensures
            r.props@.len() == 0,
            r.config_extends@.len() == 0,
            r.variants@.len() == 0,
            r.cognitive_load is None,
            r.do_never@.len() == 0,
            r.tokens@.len() == 0,
            r.dependencies@.len() == 0,
    {
        CompiledIntelligence {
            props: Vec::new(),
            config_extends: Vec::new(),
            variants: Vec::new(),
            cognitive_load: None,
            do_never: Vec::new(),
            tokens: Vec::new(),
            dependencies: Vec::new(),
        }
    }
}

/// A rendered component: the framework-less Web Component preview plus its
/// compiled intelligence.
#[derive(Debug, Clone)]
pub struct RenderedComponent {
    /// Web Component preview from the generation pipeline.
    pub preview: TransformedBlock,
    pub intelligence: CompiledIntelligence,
}

// ---------------------------------------------------------------------------
// Small pieces of the compile step
// ---------------------------------------------------------------------------

/// Custom element tag for an item's preview: the kebab-cased item name plus
/// a `-preview` suffix (which also gives the dash a custom element name
/// needs).
pub fn preview_tag_name(name: &str) -> (r: String)
    ensures
        r@ == kebab(name@) + "-preview"@,
{
    let mut r = kebab_case(name);
    push_str(&mut r, "-preview");
    r
}

/// A constraint as its kind and text.
pub open spec fn rule_views(cs: Seq<Constraint>) -> Seq<(ConstraintKind, Seq<char>)> {
    cs.map_values(|c: Constraint| (c.kind, c.text@))
}

/// A dependency as its name and origin.
pub open spec fn dependency_views(ds: Seq<DependencyRef>) -> Seq<(Seq<char>, DependencyOrigin)> {
    ds.map_values(|d: DependencyRef| (d.name@, d.origin))
}

/// The do patterns as DO rules followed by the never patterns as NEVER
/// rules.
pub open spec fn pattern_rules(p: UsagePatterns) -> Seq<(ConstraintKind, Seq<char>)> {
    views(p.do_patterns@).map_values(|t: Seq<char>| (ConstraintKind::Do, t)) + views(
        p.never@,
    ).map_values(|t: Seq<char>| (ConstraintKind::Never, t))
}

/// The rules a composite manifest's usage patterns declare: every DO, then
/// every NEVER, in order.
pub fn constraints_from_patterns(patterns: UsagePatterns) -> (r: Vec<Constraint>)
    ensures
        rule_views(r@) == pattern_rules(patterns),
{
    let ghost target = pattern_rules(patterns);
    let mut r: Vec<Constraint> = Vec::new();
    let mut i: usize = 0;
    while i < patterns.do_patterns.len()
        invariant
            i <= patterns.do_patterns@.len(),
            rule_views(r@) == views(patterns.do_patterns@).take(i as int).map_values(
                |t: Seq<char>| (ConstraintKind::Do, t),
            ),
        decreases patterns.do_patterns@.len() - i,
    {
        let ghost r0 = r@;
        r.push(Constraint { kind: ConstraintKind::Do, text: owned(patterns.do_patterns[i].as_str()) });
        assert(views(patterns.do_patterns@)[i as int] == patterns.do_patterns@[i as int]@);
        assert(rule_views(r@) =~= rule_views(r0).push((ConstraintKind::Do, patterns.do_patterns@[i as int]@)));
        assert(rule_views(r@) =~= views(patterns.do_patterns@).take(i + 1).map_values(
            |t: Seq<char>| (ConstraintKind::Do, t),
        ));
        i = i + 1;
    }
    assert(views(patterns.do_patterns@).take(i as int) =~= views(patterns.do_patterns@));
    let ghost dos = rule_views(r@);
    let mut j: usize = 0;
    while j < patterns.never.len()
        invariant
            j <= patterns.never@.len(),
            rule_views(r@) == dos + views(patterns.never@).take(j as int).map_values(
                |t: Seq<char>| (ConstraintKind::Never, t),
            ),
        decreases patterns.never@.len() - j,
    {
        let ghost r0 = r@;
        r.push(Constraint { kind: ConstraintKind::Never, text: owned(patterns.never[j].as_str()) });
        assert(views(patterns.never@)[j as int] == patterns.never@[j as int]@);
        assert(rule_views(r@) =~= rule_views(r0).push((ConstraintKind::Never, patterns.never@[j as int]@)));
        assert(rule_views(r@) =~= dos + views(patterns.never@).take(j + 1).map_values(
            |t: Seq<char>| (ConstraintKind::Never, t),
        ));
        j = j + 1;
    }
    assert(views(patterns.never@).take(j as int) =~= views(patterns.never@));
    r
}

/// `(name, origin)` appended unless an equal pair is already there.
pub open spec fn push_unique_dep(ds: Seq<(Seq<char>, DependencyOrigin)>, d: (Seq<char>, DependencyOrigin)) -> Seq<(Seq<char>, DependencyOrigin)> {
    if ds.contains(d) {
        ds
    } else {
        ds.push(d)
    }
}

/// Record a dependency unless the same name with the same origin is already
/// recorded.
pub fn push_unique_dependency(dependencies: &mut Vec<DependencyRef>, name: String, origin: DependencyOrigin)
    ensures
        dependency_views(final(dependencies)@) == push_unique_dep(dependency_views(old(dependencies)@), (name@, origin)),
{
    let ghost dv = dependency_views(dependencies@);
    let nv = chars_of(name.as_str());
    let mut i: usize = 0;
    while i < dependencies.len()
        invariant
            i <= dependencies@.len(),
            dv == dependency_views(dependencies@),
            nv@ == name@,
            forall|k: int| 0 <= k < i ==> dv[k] != (name@, origin),
        decreases dependencies@.len() - i,
    {
        let dn = chars_of(dependencies[i].name.as_str());
        assert(dv[i as int] == (dn@, dependencies@[i as int].origin));
        if crate::text::vec_eq(&dn, &nv) && dependencies[i].origin == origin {
            assert(dv[i as int] == (name@, origin));
            return;
        }
        i = i + 1;
    }
    assert(!dv.contains((name@, origin)));
    dependencies.push(DependencyRef { name, origin });
    assert(dependency_views(dependencies@) =~= dv.push((name@, origin)));
}

// ---------------------------------------------------------------------------
// Cognitive load
// ---------------------------------------------------------------------------

/// The first index at or after `i` whose character is not an ASCII digit.
pub open spec fn digit_run(s: Seq<char>, i: int) -> int
    decreases s.len() - i,
{
    if i < 0 || i >= s.len() {
        s.len() as int
    } else if is_ascii_digit(s[i]) {
        digit_run(s, i + 1)
    } else {
        i
    }
}

/// The number a string of ASCII digits spells.
pub open spec fn digits_value(s: Seq<char>) -> nat
    decreases s.len(),
{
    if s.len() == 0 {
        0
    } else {
        digits_value(s.drop_last()) * 10 + (s.last() as int - '0' as int) as nat
    }
}

/// `s` without its leading `p`, when it has one.
pub open spec fn strip_lead(s: Seq<char>, p: Seq<char>) -> Seq<char> {
    if starts_with(s, p) {
        s.skip(p.len() as int)
    } else {
        s
    }
}

/// A `@cognitive-load` value read as `N`, `N/10` or `N/10 - description`:
/// the score (0-10) and the description, white space normalized and absent
/// when empty. A value with no leading digits, or a score above 10, is no
/// declaration.
pub open spec fn load_of(value: Seq<char>) -> Option<(nat, Option<Seq<char>>)> {
    let t = trim(value);
    let d = digit_run(t, 0);
    let n = digits_value(t.take(d));
    if d == 0 || n > 10 {
        None
    } else {
        let rest = strip_lead(trim_start(strip_lead(trim_start(t.skip(d)), "/10"@)), "-"@);
        let desc = normalize_ws(rest);
        Some((n, if desc.len() == 0 {
            None
        } else {
            Some(desc)
        }))
    }
}

proof fn lemma_digit_run(s: Seq<char>, i: int, d: int)
    requires
        0 <= i <= d <= s.len(),
        forall|k: int| i <= k < d ==> is_ascii_digit(#[trigger] s[k]),
        d == s.len() || !is_ascii_digit(s[d]),
    ensures
        digit_run(s, i) == d,
    decreases d - i,
{
    if i < d {
        lemma_digit_run(s, i + 1, d);
    }
}

proof fn lemma_digits_grow(s: Seq<char>, c: char)
    requires
        is_ascii_digit(c),
    ensures
        digits_value(s.push(c)) == digits_value(s) * 10 + (c as int - '0' as int),
        digits_value(s.push(c)) >= digits_value(s),
{
    assert(s.push(c).drop_last() =~= s);
}

fn trim_start_str(s: &str) -> (r: String)
    ensures
        r@ == trim_start(s@),
{
    let v = chars_of(s);
    let a = skip_ws_from(&v, 0, v.len());
    assert(v@.subrange(0, v@.len() as int) =~= v@);
    string_of(&v, a, v.len())
}

fn strip_lead_str(s: &str, p: &str) -> (r: String)
    ensures
        r@ == strip_lead(s@, p@),
{
    if str_starts_with(s, p) {
        let v = chars_of(s);
        let n = chars_of(p).len();
        let r = string_of(&v, n, v.len());
        assert(v@.subrange(n as int, v@.len() as int) =~= v@.skip(n as int));
        r
    } else {
        owned(s)
    }
}

/// Parse a `@cognitive-load` value: `N`, `N/10`, or `N/10 - description`.
/// Scores outside 0-10 are not a valid declaration and yield `None`.
pub fn parse_cognitive_load(value: &str) -> (r: Option<CognitiveLoad>)
    ensures
        match r {
            Some(l) => load_of(value@) == Some((l.score as nat, match l.description {
                Some(d) => Some(d@),
                None => None::<Seq<char>>,
            })),
            None => load_of(value@) is None,
        },
{
    let ts = crate::text::trim_str(value);
    let t = chars_of(ts.as_str());
    let mut d: usize = 0;
    let mut v: u64 = 0;
    while d < t.len() && is_digit(t[d])
        invariant
            d <= t@.len(),
            forall|k: int| 0 <= k < d ==> is_ascii_digit(#[trigger] t@[k]),
            v <= 110,
            digits_value(t@.take(d as int)) <= 10 ==> v == digits_value(t@.take(d as int)),
            digits_value(t@.take(d as int)) > 10 ==> v > 10,
        decreases t@.len() - d,
    {
        proof {
            assert(t@.take(d + 1) =~= t@.take(d as int).push(t@[d as int]));
            lemma_digits_grow(t@.take(d as int), t@[d as int]);
        }
        let dig = (t[d] as u32 - '0' as u32) as u64;
        if v <= 10 {
            v = v * 10 + dig;
        }
        d = d + 1;
    }
    proof {
        lemma_digit_run(t@, 0, d as int);
    }
    if d == 0 || v > 10 {
        return None;
    }
    let rest0 = string_of(&t, d, t.len());
    assert(t@.subrange(d as int, t@.len() as int) =~= t@.skip(d as int));
    let rest1 = trim_start_str(rest0.as_str());
    let rest2 = strip_lead_str(rest1.as_str(), "/10");
    let rest3 = trim_start_str(rest2.as_str());
    let rest4 = strip_lead_str(rest3.as_str(), "-");
    let desc = normalize_whitespace(rest4.as_str());
    let dv = chars_of(desc.as_str());
    let description = if dv.len() == 0 {
        None
    } else {
        Some(desc)
    };
    Some(CognitiveLoad { score: v as u8, description })
}

// ---------------------------------------------------------------------------
// Do/never lines
// ---------------------------------------------------------------------------

/// A `@usage-patterns` line does not make the byte-offset prefix checks
/// panic: slicing at the length of `DO:`, and, when that does not match,
/// at the length of `NEVER:`, falls on a character boundary.
pub open spec fn rule_line_ok(line: Seq<char>) -> bool {
    let t = trim(line);
    prefix_slice_ok(t, 3) && (starts_ci(t, "DO:"@) || prefix_slice_ok(t, 6))
}

/// The rules after reading one more `@usage-patterns` line: `DO:` or
/// `NEVER:` (any case) starts a rule; any other non-blank line continues
/// the last rule, after a space.
pub open spec fn rule_step(rules: Seq<(ConstraintKind, Seq<char>)>, line: Seq<char>) -> Seq<(ConstraintKind, Seq<char>)> {
    let t = trim(line);
    if starts_ci(t, "DO:"@) {
        rules.push((ConstraintKind::Do, trim(t.skip(3))))
    } else if starts_ci(t, "NEVER:"@) {
        rules.push((ConstraintKind::Never, trim(t.skip(6))))
    } else if rules.len() > 0 && t.len() > 0 {
        rules.update(rules.len() - 1, (rules.last().0, rules.last().1 + seq![' '] + t))
    } else {
        rules
    }
}

pub open spec fn rules_after(rules: Seq<(ConstraintKind, Seq<char>)>, ls: Seq<Seq<char>>) -> Seq<(ConstraintKind, Seq<char>)>
    decreases ls.len(),
{
    if ls.len() == 0 {
        rules
    } else {
        rule_step(rules_after(rules, ls.drop_last()), ls.last())
    }
}

/// Read `DO:` / `NEVER:` lines from a `@usage-patterns` value onto
/// `constraints`. A line that starts with neither marker continues the
/// previous constraint.
pub fn parse_do_never_lines(value: &str, constraints: &mut Vec<Constraint>)
    requires
        forall|i: int| 0 <= i < lines(value@).len() ==> rule_line_ok(#[trigger] lines(value@)[i]),
    ensures
        rule_views(final(constraints)@) == rules_after(rule_views(old(constraints)@), lines(value@)),
{
    let ls = split_lines(&chars_of(value));
    let ghost lv = vviews(ls@);
    let ghost r0 = rule_views(constraints@);
    let mut i: usize = 0;
    while i < ls.len()
        invariant
            i <= ls@.len(),
            lv == vviews(ls@),
            lv == lines(value@),
            rule_views(constraints@) == rules_after(r0, lv.take(i as int)),
        decreases ls@.len() - i,
    {
        assert(lv.take(i + 1).drop_last() =~= lv.take(i as int));
        assert(lv.take(i + 1).last() == lv[i as int]);
        rule_line(&ls[i], constraints);
        i = i + 1;
    }
    assert(lv.take(ls@.len() as int) =~= lv);
}

fn rule_line(line: &Vec<char>, constraints: &mut Vec<Constraint>)
    ensures
        rule_views(final(constraints)@) == rule_step(rule_views(old(constraints)@), line@),
{
    let ghost rv = rule_views(constraints@);
    proof {
        reveal_strlit("DO:");
        reveal_strlit("NEVER:");
    }
    let (a, b) = trim_range(line, 0, line.len());
    assert(line@.subrange(0, line@.len() as int) =~= line@);
    let t = crate::text::sub_chars(line, a, b);
    let ts = string_of(line, a, b);
    if vec_starts_ci(&t, "DO:") {
        let rest = string_of(&t, 3, t.len());
        assert(t@.subrange(3, t@.len() as int) =~= t@.skip(3));
        constraints.push(Constraint { kind: ConstraintKind::Do, text: crate::text::trim_str(rest.as_str()) });
        assert(rule_views(constraints@) =~= rv.push((ConstraintKind::Do, trim(t@.skip(3)))));
    } else if vec_starts_ci(&t, "NEVER:") {
        let rest = string_of(&t, 6, t.len());
        assert(t@.subrange(6, t@.len() as int) =~= t@.skip(6));
        constraints.push(Constraint { kind: ConstraintKind::Never, text: crate::text::trim_str(rest.as_str()) });
        assert(rule_views(constraints@) =~= rv.push((ConstraintKind::Never, trim(t@.skip(6)))));
    } else if constraints.len() > 0 && t.len() > 0 {
        let last = constraints.len() - 1;
        let ghost c0 = constraints@;
        let mut prev = constraints.pop().unwrap();
        assert(prev == c0[last as int]);
        assert(constraints@ =~= c0.take(last as int));
        push_char(&mut prev.text, ' ');
        push_str(&mut prev.text, ts.as_str());
        assert(prev.text@ == c0[last as int].text@ + seq![' '] + t@);
        constraints.push(prev);
        assert(constraints@ =~= c0.update(last as int, prev));
        assert(rv.last() == (c0[last as int].kind, c0[last as int].text@));
        assert(rule_views(constraints@) =~= rv.update(last as int, (rv.last().0, rv.last().1 + seq![' '] + t@)));
    }
}

// ---------------------------------------------------------------------------
// JSDoc blocks and tags
// ---------------------------------------------------------------------------

pub open spec fn doc_open() -> Seq<char> {
    seq!['/', '*', '*']
}

pub open spec fn doc_close() -> Seq<char> {
    seq!['*', '/']
}

/// A JSDoc line without its decoration: leading white space, then one `*`,
/// then one space, each removed when present.
pub open spec fn clean_line(l: Seq<char>) -> Seq<char> {
    let t = trim_start(l);
    let u = if t.len() > 0 && t[0] == '*' {
        t.skip(1)
    } else {
        t
    };
    if u.len() > 0 && u[0] == ' ' {
        u.skip(1)
    } else {
        u
    }
}

/// The text of a block body: its lines cleaned, joined by newlines.
pub open spec fn block_text(body: Seq<char>) -> Seq<char> {
    join(lines(body).map_values(|l: Seq<char>| clean_line(l)), seq!['\n'])
}

/// The texts of the closed `/** ... */` blocks of `s[p..]`, in order.
pub open spec fn blocks_from(s: Seq<char>, p: int) -> Seq<Seq<char>>
    decreases s.len() - p,
{
    if p < 0 || p > s.len() {
        seq![]
    } else {
        let st = next_occ(s, doc_open(), p);
        if st < 0 {
            seq![]
        } else {
            let e = next_occ(s, doc_close(), st + 3);
            if e < 0 {
                seq![]
            } else {
                proof {
                    crate::text::lemma_next_occ(s, doc_open(), p);
                    crate::text::lemma_next_occ(s, doc_close(), st + 3);
                }
                seq![block_text(s.subrange(st + 3, e))] + blocks_from(s, e + 2)
            }
        }
    }
}

fn clean_line_exec(l: &Vec<char>) -> (r: String)
    ensures
        r@ == clean_line(l@),
{
    let mut a = skip_ws_from(l, 0, l.len());
    assert(l@.subrange(0, l@.len() as int) =~= l@);
    let ghost t = l@.subrange(a as int, l@.len() as int);
    if a < l.len() && l[a] == '*' {
        a = a + 1;
        assert(l@.subrange(a as int, l@.len() as int) =~= t.skip(1));
    }
    let ghost u = l@.subrange(a as int, l@.len() as int);
    if a < l.len() && l[a] == ' ' {
        a = a + 1;
        assert(l@.subrange(a as int, l@.len() as int) =~= u.skip(1));
    }
    string_of(l, a, l.len())
}

fn block_text_exec(body: &Vec<char>) -> (r: String)
    ensures
        r@ == block_text(body@),
{
    let ls = split_lines(body);
    let ghost lv = vviews(ls@);
    let mut cleaned: Vec<String> = Vec::new();
    let mut i: usize = 0;
    while i < ls.len()
        invariant
            i <= ls@.len(),
            lv == vviews(ls@),
            lv == lines(body@),
            views(cleaned@) == lv.take(i as int).map_values(|l: Seq<char>| clean_line(l)),
        decreases ls@.len() - i,
    {
        let c = clean_line_exec(&ls[i]);
        let ghost c0 = views(cleaned@);
        assert(lv[i as int] == ls@[i as int]@);
        cleaned.push(c);
        assert(views(cleaned@) =~= c0.push(clean_line(lv[i as int])));
        assert(views(cleaned@) =~= lv.take(i + 1).map_values(|l: Seq<char>| clean_line(l)));
        i = i + 1;
    }
    assert(lv.take(ls@.len() as int) =~= lv);
    let r = join_strings(&cleaned, "\n");
    proof {
        reveal_strlit("\n");
        assert("\n"@ =~= seq!['\n']);
    }
    r
}

/// Extract the text of every `/** ... */` block, with comment decoration
/// (a leading `*`) stripped per line.
pub fn jsdoc_blocks(source: &str) -> (r: Vec<String>)
    ensures
        views(r@) == blocks_from(source@, 0),
{
    let v = chars_of(source);
    let open = chars_of("/**");
    let close = chars_of("*/");
    proof {
        reveal_strlit("/**");
        reveal_strlit("*/");
        assert(open@ =~= doc_open());
        assert(close@ =~= doc_close());
    }
    let mut blocks: Vec<String> = Vec::new();
    let mut p: usize = 0;
    loop
        invariant
            p <= v@.len(),
            v@ == source@,
            open@ == doc_open(),
            close@ == doc_close(),
            views(blocks@) + blocks_from(v@, p as int) == blocks_from(v@, 0),
        decreases v@.len() - p,
    {
        let st = match find_seq(&v, &open, p) {
            Some(st) => st,
            None => {
                assert(views(blocks@) =~= blocks_from(v@, 0));
                return blocks;
            },
        };
        proof {
            crate::text::lemma_next_occ(v@, doc_open(), p as int);
        }
        let n = v.len();
        assert(doc_open().len() == 3);
        assert(st + 3 <= n);
        let e = match find_seq(&v, &close, st + 3) {
            Some(e) => e,
            None => {
                assert(views(blocks@) =~= blocks_from(v@, 0));
                return blocks;
            },
        };
        proof {
            crate::text::lemma_next_occ(v@, doc_close(), st + 3);
        }
        assert(doc_close().len() == 2);
        assert(e + 2 <= n);
        let body = crate::text::sub_chars(&v, st + 3, e);
        let text = block_text_exec(&body);
        let ghost b0 = views(blocks@);
        blocks.push(text);
        assert(views(blocks@) =~= b0.push(block_text(v@.subrange(st + 3, e as int))));
        assert(blocks_from(v@, p as int) == seq![block_text(v@.subrange(st + 3, e as int))] + blocks_from(v@, e + 2));
        assert(b0 + blocks_from(v@, p as int) =~= views(blocks@) + blocks_from(v@, e + 2));
        p = e + 2;
    }
}

/// One `@tag value` from a JSDoc block; `value` spans until the next tag.
#[derive(Debug, Clone)]
pub struct JsDocTag {
    pub name: String,
    pub value: String,
}

pub open spec fn tag_views(ts: Seq<JsDocTag>) -> Seq<(Seq<char>, Seq<char>)> {
    ts.map_values(|t: JsDocTag| (t.name@, t.value@))
}

/// The tags after reading one more block line: a line starting `@` (after
/// white space) opens a tag named by the lower-cased word up to the first
/// white space, valued by the trimmed rest; any other line continues the
/// last tag's value on a new line.
pub open spec fn tag_step(tags: Seq<(Seq<char>, Seq<char>)>, line: Seq<char>) -> Seq<(Seq<char>, Seq<char>)> {
    let t = trim_start(line);
    if t.len() > 0 && t[0] == '@' {
        let tl = t.skip(1);
        let k = next_ws(tl, 0);
        if k < tl.len() {
            tags.push((str_lower(tl.take(k)), trim(tl.skip(k + 1))))
        } else {
            tags.push((str_lower(tl), seq![]))
        }
    } else if tags.len() > 0 {
        let cur = tags.last();
        let v = if cur.1.len() > 0 {
            cur.1.push('\n')
        } else {
            cur.1
        };
        tags.update(tags.len() - 1, (cur.0, v + trim(line)))
    } else {
        tags
    }
}

pub open spec fn tags_after(tags: Seq<(Seq<char>, Seq<char>)>, ls: Seq<Seq<char>>) -> Seq<(Seq<char>, Seq<char>)>
    decreases ls.len(),
{
    if ls.len() == 0 {
        tags
    } else {
        tag_step(tags_after(tags, ls.drop_last()), ls.last())
    }
}

/// The tags of a block.
pub open spec fn tags_of(block: Seq<char>) -> Seq<(Seq<char>, Seq<char>)> {
    tags_after(seq![], lines(block))
}

/// The `@tag value` entries of a block, in order.
pub fn jsdoc_tags(block: &str) -> (r: Vec<JsDocTag>)
    ensures
        tag_views(r@) == tags_of(block@),
{
    let ls = split_lines(&chars_of(block));
    let ghost lv = vviews(ls@);
    let mut tags: Vec<JsDocTag> = Vec::new();
    let mut i: usize = 0;
    assert(tag_views(tags@) =~= Seq::<(Seq<char>, Seq<char>)>::empty());
    while i < ls.len()
        invariant
            i <= ls@.len(),
            lv == vviews(ls@),
            lv == lines(block@),
            tag_views(tags@) == tags_after(seq![], lv.take(i as int)),
        decreases ls@.len() - i,
    {
        assert(lv.take(i + 1).drop_last() =~= lv.take(i as int));
        assert(lv.take(i + 1).last() == lv[i as int]);
        tag_line(&ls[i], &mut tags);
        i = i + 1;
    }
    assert(lv.take(ls@.len() as int) =~= lv);
    tags
}

fn tag_line(line: &Vec<char>, tags: &mut Vec<JsDocTag>)
    ensures
        tag_views(final(tags)@) == tag_step(tag_views(old(tags)@), line@),
{
    let ghost tv = tag_views(tags@);
    let a = skip_ws_from(line, 0, line.len());
    assert(line@.subrange(0, line@.len() as int) =~= line@);
    let ghost t = line@.subrange(a as int, line@.len() as int);
    if a < line.len() && line[a] == '@' {
        let tl = crate::text::sub_chars(line, a + 1, line.len());
        assert(tl@ =~= t.skip(1));
        let k = find_ws(&tl, 0);
        if k < tl.len() {
            let name_raw = string_of(&tl, 0, k);
            assert(tl@.subrange(0, k as int) =~= tl@.take(k as int));
            let name = to_lowercase(name_raw.as_str());
            let rest = string_of(&tl, k + 1, tl.len());
            assert(tl@.subrange(k + 1, tl@.len() as int) =~= tl@.skip(k + 1));
            let value = crate::text::trim_str(rest.as_str());
            tags.push(JsDocTag { name, value });
            assert(tag_views(tags@) =~= tv.push((str_lower(tl@.take(k as int)), trim(tl@.skip(k + 1)))));
        } else {
            let name_raw = string_of(&tl, 0, tl.len());
            assert(tl@.subrange(0, tl@.len() as int) =~= tl@);
            let name = to_lowercase(name_raw.as_str());
            tags.push(JsDocTag { name, value: String::new() });
            assert(tag_views(tags@) =~= tv.push((str_lower(tl@), Seq::<char>::empty())));
        }
    } else if tags.len() > 0 {
        let last = tags.len() - 1;
        let ghost c0 = tags@;
        let mut cur = tags.pop().unwrap();
        assert(cur == c0[last as int]);
        assert(tags@ =~= c0.take(last as int));
        let cv = chars_of(cur.value.as_str());
        if cv.len() > 0 {
            push_char(&mut cur.value, '\n');
        }
        let (ta, tb) = trim_range(line, 0, line.len());
        let piece = string_of(line, ta, tb);
        push_str(&mut cur.value, piece.as_str());
        tags.push(cur);
        assert(tags@ =~= c0.update(last as int, cur));
        assert(tv.last() == (c0[last as int].name@, c0[last as int].value@));
        assert(tag_views(tags@) =~= tv.update(last as int, (tv.last().0, (if tv.last().1.len() > 0 {
            tv.last().1.push('\n')
        } else {
            tv.last().1
        }) + trim(line@))));
    }
}

// ---------------------------------------------------------------------------
// JSDoc intelligence
// ---------------------------------------------------------------------------

/// Intelligence read from JSDoc blocks: `@cognitive-load`,
/// `@usage-patterns` with `DO:`/`NEVER:` lines, legacy `@do`/`@never`, and
/// `@dependencies`.
#[derive(Debug)]
pub struct JsDocIntelligence {
    pub cognitive_load: Option<CognitiveLoad>,
    pub do_never: Vec<Constraint>,
    pub dependencies: Vec<String>,
}

impl Default for JsDocIntelligence {
    /// Nothing read yet.
    fn default() -> (r: Self)
        ensures
            r.cognitive_load is None,
            r.do_never@.len() == 0,
            r.dependencies@.len() == 0,
    {
        JsDocIntelligence { cognitive_load: None, do_never: Vec::new(), dependencies: Vec::new() }
    }
}

pub open spec fn load_view(l: Option<CognitiveLoad>) -> Option<(nat, Option<Seq<char>>)> {
    match l {
        Some(c) => Some((c.score as nat, match c.description {
            Some(d) => Some(d@),
            None => None::<Seq<char>>,
        })),
        None => None,
    }
}

/// The intelligence as plain values: the load, the rules, the packages.
pub open spec fn jsdoc_view(j: JsDocIntelligence) -> (Option<(nat, Option<Seq<char>>)>, Seq<(ConstraintKind, Seq<char>)>, Seq<Seq<char>>) {
    (load_view(j.cognitive_load), rule_views(j.do_never@), views(j.dependencies@))
}

/// The index of the first word that opens a parenthesized remark.
pub open spec fn first_remark(ws: Seq<Seq<char>>, i: int) -> int
    decreases ws.len() - i,
{
    if i < 0 || i >= ws.len() {
        ws.len() as int
    } else if ws[i].len() > 0 && ws[i][0] == '(' {
        i
    } else {
        first_remark(ws, i + 1)
    }
}

/// The packages a `@dependencies` value lists: its words up to a
/// parenthesized remark.
pub open spec fn dependency_words(value: Seq<char>) -> Seq<Seq<char>> {
    words(value).take(first_remark(words(value), 0))
}

pub open spec fn is_load_tag(name: Seq<char>) -> bool {
    name == "cognitive-load"@ || name == "cognitiveload"@
}

pub open spec fn is_usage_tag(name: Seq<char>) -> bool {
    name == "usage-patterns"@ || name == "usagepatterns"@
}

/// The intelligence after one more tag. The first cognitive load wins;
/// rules append in encounter order; packages append without repeats.
pub open spec fn intel_step(
    acc: (Option<(nat, Option<Seq<char>>)>, Seq<(ConstraintKind, Seq<char>)>, Seq<Seq<char>>),
    tag: (Seq<char>, Seq<char>),
) -> (Option<(nat, Option<Seq<char>>)>, Seq<(ConstraintKind, Seq<char>)>, Seq<Seq<char>>) {
    let (name, value) = tag;
    if is_load_tag(name) && acc.0 is None {
        (load_of(value), acc.1, acc.2)
    } else if is_usage_tag(name) {
        (acc.0, rules_after(acc.1, lines(value)), acc.2)
    } else if name == "do"@ {
        (acc.0, acc.1.push((ConstraintKind::Do, normalize_ws(value))), acc.2)
    } else if name == "never"@ {
        (acc.0, acc.1.push((ConstraintKind::Never, normalize_ws(value))), acc.2)
    } else if name == "dependencies"@ {
        (acc.0, acc.1, extend_unique(acc.2, dependency_words(value)))
    } else {
        acc
    }
}

pub open spec fn intel_over_tags(
    acc: (Option<(nat, Option<Seq<char>>)>, Seq<(ConstraintKind, Seq<char>)>, Seq<Seq<char>>),
    tags: Seq<(Seq<char>, Seq<char>)>,
) -> (Option<(nat, Option<Seq<char>>)>, Seq<(ConstraintKind, Seq<char>)>, Seq<Seq<char>>)
    decreases tags.len(),
{
    if tags.len() == 0 {
        acc
    } else {
        intel_step(intel_over_tags(acc, tags.drop_last()), tags.last())
    }
}

pub open spec fn intel_over_blocks(
    acc: (Option<(nat, Option<Seq<char>>)>, Seq<(ConstraintKind, Seq<char>)>, Seq<Seq<char>>),
    blocks: Seq<Seq<char>>,
) -> (Option<(nat, Option<Seq<char>>)>, Seq<(ConstraintKind, Seq<char>)>, Seq<Seq<char>>)
    decreases blocks.len(),
{
    if blocks.len() == 0 {
        acc
    } else {
        intel_over_tags(intel_over_blocks(acc, blocks.drop_last()), tags_of(blocks.last()))
    }
}

/// What later tags may do to the do/never list `a` to give `b`: entries
/// are never removed or reordered and keep their kind; only the last one
/// may be extended.
pub open spec fn rules_grow(a: Seq<(ConstraintKind, Seq<char>)>, b: Seq<(ConstraintKind, Seq<char>)>) -> bool {
    &&& a.len() <= b.len()
    &&& forall|i: int| 0 <= i < a.len() ==> (#[trigger] b[i]).0 == a[i].0
    &&& forall|i: int| 0 <= i < a.len() - 1 ==> #[trigger] b[i] == a[i]
}

/// What merging later blocks may do to an accumulated result `a` to give
/// `b`: a cognitive load, once found, stays; the do/never list only grows;
/// the packages keep their place and gain no repeat.
pub open spec fn intel_grows(
    a: (Option<(nat, Option<Seq<char>>)>, Seq<(ConstraintKind, Seq<char>)>, Seq<Seq<char>>),
    b: (Option<(nat, Option<Seq<char>>)>, Seq<(ConstraintKind, Seq<char>)>, Seq<Seq<char>>),
) -> bool {
    &&& a.0 is Some ==> b.0 == a.0
    &&& rules_grow(a.1, b.1)
    &&& a.2.is_prefix_of(b.2)
    &&& a.2.no_duplicates() ==> b.2.no_duplicates()
}

proof fn lemma_rules_after_grows(rules: Seq<(ConstraintKind, Seq<char>)>, ls: Seq<Seq<char>>)
    ensures
        rules_grow(rules, rules_after(rules, ls)),
    decreases ls.len(),
{
    if ls.len() > 0 {
        lemma_rules_after_grows(rules, ls.drop_last());
        let m = rules_after(rules, ls.drop_last());
        let r = rule_step(m, ls.last());
        assert forall|i: int| 0 <= i < rules.len() implies (#[trigger] r[i]).0 == rules[i].0 by {
            assert(m[i].0 == rules[i].0);
        }
        assert forall|i: int| 0 <= i < rules.len() - 1 implies #[trigger] r[i] == rules[i] by {
            assert(m[i] == rules[i]);
        }
    }
}

proof fn lemma_intel_grows_trans(
    a: (Option<(nat, Option<Seq<char>>)>, Seq<(ConstraintKind, Seq<char>)>, Seq<Seq<char>>),
    b: (Option<(nat, Option<Seq<char>>)>, Seq<(ConstraintKind, Seq<char>)>, Seq<Seq<char>>),
    c: (Option<(nat, Option<Seq<char>>)>, Seq<(ConstraintKind, Seq<char>)>, Seq<Seq<char>>),
)
    requires
        intel_grows(a, b),
        intel_grows(b, c),
    ensures
        intel_grows(a, c),
{
    assert forall|i: int| 0 <= i < a.1.len() implies (#[trigger] c.1[i]).0 == a.1[i].0 by {
        assert(b.1[i].0 == a.1[i].0);
    }
    assert forall|i: int| 0 <= i < a.1.len() - 1 implies #[trigger] c.1[i] == a.1[i] by {
        assert(b.1[i] == a.1[i]);
    }
    assert forall|i: int| 0 <= i < a.2.len() implies a.2[i] == c.2[i] by {
        assert(a.2[i] == b.2[i]);
    }
}

proof fn lemma_intel_step_grows(
    acc: (Option<(nat, Option<Seq<char>>)>, Seq<(ConstraintKind, Seq<char>)>, Seq<Seq<char>>),
    tag: (Seq<char>, Seq<char>),
)
    ensures
        intel_grows(acc, intel_step(acc, tag)),
{
    let r = intel_step(acc, tag);
    lemma_rules_after_grows(acc.1, lines(tag.1));
    crate::text::lemma_extend_unique(acc.2, dependency_words(tag.1));
    assert(acc.2.is_prefix_of(acc.2));
    assert forall|i: int| 0 <= i < acc.1.len() implies (#[trigger] acc.1.push((ConstraintKind::Do, normalize_ws(tag.1)))[i]).0 == acc.1[i].0 by {}
    assert forall|i: int| 0 <= i < acc.1.len() implies (#[trigger] acc.1.push((ConstraintKind::Never, normalize_ws(tag.1)))[i]).0 == acc.1[i].0 by {}
}

proof fn lemma_intel_over_tags_grows(
    acc: (Option<(nat, Option<Seq<char>>)>, Seq<(ConstraintKind, Seq<char>)>, Seq<Seq<char>>),
    tags: Seq<(Seq<char>, Seq<char>)>,
)
    ensures
        intel_grows(acc, intel_over_tags(acc, tags)),
    decreases tags.len(),
{
    if tags.len() == 0 {
        assert(acc.2.is_prefix_of(acc.2));
    } else {
        lemma_intel_over_tags_grows(acc, tags.drop_last());
        lemma_intel_step_grows(intel_over_tags(acc, tags.drop_last()), tags.last());
        lemma_intel_grows_trans(acc, intel_over_tags(acc, tags.drop_last()), intel_over_tags(acc, tags));
    }
}

/// Merging the intelligence of more blocks keeps what was found: the first
/// cognitive load wins, do/never entries are only appended (the latest may
/// take a continuation line), and packages keep their place with no repeat.
pub proof fn lemma_intel_over_blocks_grows(
    acc: (Option<(nat, Option<Seq<char>>)>, Seq<(ConstraintKind, Seq<char>)>, Seq<Seq<char>>),
    blocks: Seq<Seq<char>>,
)
    ensures
        intel_grows(acc, intel_over_blocks(acc, blocks)),
    decreases blocks.len(),
{
    if blocks.len() == 0 {
        assert(acc.2.is_prefix_of(acc.2));
    } else {
        lemma_intel_over_blocks_grows(acc, blocks.drop_last());
        let m = intel_over_blocks(acc, blocks.drop_last());
        lemma_intel_over_tags_grows(m, tags_of(blocks.last()));
        lemma_intel_grows_trans(acc, m, intel_over_blocks(acc, blocks));
    }
}

/// Every line of a `@usage-patterns` value is one whose rule markers can be
/// read without a panic.
pub open spec fn usage_lines_ok(value: Seq<char>) -> bool {
    forall|i: int| 0 <= i < lines(value).len() ==> rule_line_ok(#[trigger] lines(value)[i])
}

pub open spec fn tags_ok(tags: Seq<(Seq<char>, Seq<char>)>) -> bool {
    forall|i: int| 0 <= i < tags.len() ==> (is_usage_tag(#[trigger] tags[i].0) ==> usage_lines_ok(tags[i].1))
}

/// The source's JSDoc can be read without a panic: in each block, each
/// `@usage-patterns` value has readable rule lines.
pub open spec fn jsdoc_source_ok(source: Seq<char>) -> bool {
    forall|i: int| 0 <= i < blocks_from(source, 0).len() ==> tags_ok(tags_of(#[trigger] blocks_from(source, 0)[i]))
}

/// Whether a `@usage-patterns` line can be read without a panic.
pub fn rule_line_readable(line: &Vec<char>) -> (b: bool)
    ensures
        b == rule_line_ok(line@),
{
    proof {
        reveal_strlit("DO:");
    }
    let (a, e) = trim_range(line, 0, line.len());
    assert(line@.subrange(0, line@.len() as int) =~= line@);
    let t = crate::text::sub_chars(line, a, e);
    crate::text::prefix_slice_ok_exec(&t, 3) && (vec_starts_ci(&t, "DO:") || crate::text::prefix_slice_ok_exec(&t, 6))
}

/// Whether every line of a `@usage-patterns` value can be read without a
/// panic.
pub fn usage_value_readable(value: &str) -> (b: bool)
    ensures
        b == usage_lines_ok(value@),
{
    let ls = split_lines(&chars_of(value));
    let ghost lv = vviews(ls@);
    let mut i: usize = 0;
    while i < ls.len()
        invariant
            i <= ls@.len(),
            lv == vviews(ls@),
            lv == lines(value@),
            forall|j: int| 0 <= j < i ==> rule_line_ok(#[trigger] lines(value@)[j]),
        decreases ls@.len() - i,
    {
        assert(lv[i as int] == ls@[i as int]@);
        if !rule_line_readable(&ls[i]) {
            return false;
        }
        i = i + 1;
    }
    true
}

/// Whether the JSDoc of a source can be read without a panic (see
/// [`collect_jsdoc_intelligence`]).
pub fn jsdoc_source_readable(source: &str) -> (b: bool)
    ensures
        b == jsdoc_source_ok(source@),
{
    proof {
        reveal_strlit("usage-patterns");
        reveal_strlit("usagepatterns");
    }
    let blocks = jsdoc_blocks(source);
    let ghost bv = views(blocks@);
    let mut i: usize = 0;
    while i < blocks.len()
        invariant
            i <= blocks@.len(),
            bv == views(blocks@),
            bv == blocks_from(source@, 0),
            forall|j: int| 0 <= j < i ==> tags_ok(tags_of(#[trigger] blocks_from(source@, 0)[j])),
        decreases blocks@.len() - i,
    {
        let tags = jsdoc_tags(blocks[i].as_str());
        let ghost tv = tag_views(tags@);
        assert(bv[i as int] == blocks@[i as int]@);
        let mut k: usize = 0;
        while k < tags.len()
            invariant
                k <= tags@.len(),
                tv == tag_views(tags@),
                tv == tags_of(bv[i as int]),
                bv == blocks_from(source@, 0),
                i < bv.len(),
                forall|m: int| 0 <= m < k ==> (is_usage_tag(#[trigger] tv[m].0) ==> usage_lines_ok(tv[m].1)),
            decreases tags@.len() - k,
        {
            assert(tv[k as int] == (tags@[k as int].name@, tags@[k as int].value@));
            let name = tags[k].name.as_str();
            if str_eq(name, "usage-patterns") || str_eq(name, "usagepatterns") {
                if !usage_value_readable(tags[k].value.as_str()) {
                    assert(is_usage_tag(tv[k as int].0));
                    assert(!usage_lines_ok(tv[k as int].1));
                    assert(!tags_ok(tv));
                    assert(!tags_ok(tags_of(blocks_from(source@, 0)[i as int])));
                    return false;
                }
            }
            k = k + 1;
        }
        assert(tags_ok(tags_of(blocks_from(source@, 0)[i as int])));
        i = i + 1;
    }
    true
}

fn add_dependencies(deps: &mut Vec<String>, value: &str)
    ensures
        views(final(deps)@) == extend_unique(views(old(deps)@), dependency_words(value@)),
{
    let ws = split_whitespace(&chars_of(value));
    let ghost wv = views(ws@);
    let ghost d0 = views(deps@);
    let mut i: usize = 0;
    while i < ws.len()
        invariant
            i <= ws@.len(),
            wv == views(ws@),
            wv == words(value@),
            first_remark(wv, 0) == first_remark(wv, i as int),
            d0 == views(old(deps)@),
            views(deps@) == extend_unique(d0, wv.take(i as int)),
        decreases ws@.len() - i,
    {
        let w = chars_of(ws[i].as_str());
        assert(w@ == wv[i as int]);
        if w.len() > 0 && w[0] == '(' {
            assert(first_remark(wv, i as int) == i);
            assert(dependency_words(value@) =~= wv.take(i as int));
            return;
        }
        assert(first_remark(wv, i as int) == first_remark(wv, i + 1));
        assert(wv.take(i + 1).drop_last() =~= wv.take(i as int));
        push_string_unique(deps, crate::text::owned(ws[i].as_str()));
        i = i + 1;
    }
    assert(first_remark(wv, i as int) == wv.len());
    assert(dependency_words(value@) =~= wv.take(i as int));
}

fn apply_tag(intel: &mut JsDocIntelligence, tag: &JsDocTag)
    requires
        is_usage_tag(tag.name@) ==> usage_lines_ok(tag.value@),
    ensures
        jsdoc_view(*final(intel)) == intel_step(jsdoc_view(*old(intel)), (tag.name@, tag.value@)),
{
    proof {
        reveal_strlit("cognitive-load");
        reveal_strlit("cognitiveload");
        reveal_strlit("usage-patterns");
        reveal_strlit("usagepatterns");
        reveal_strlit("do");
        reveal_strlit("never");
        reveal_strlit("dependencies");
    }
    let name = tag.name.as_str();
    let value = tag.value.as_str();
    if (str_eq(name, "cognitive-load") || str_eq(name, "cognitiveload")) && intel.cognitive_load.is_none() {
        intel.cognitive_load = parse_cognitive_load(value);
    } else if str_eq(name, "usage-patterns") || str_eq(name, "usagepatterns") {
        parse_do_never_lines(value, &mut intel.do_never);
    } else if str_eq(name, "do") {
        let ghost r0 = rule_views(intel.do_never@);
        intel.do_never.push(Constraint { kind: ConstraintKind::Do, text: normalize_whitespace(value) });
        assert(rule_views(intel.do_never@) =~= r0.push((ConstraintKind::Do, normalize_ws(value@))));
    } else if str_eq(name, "never") {
        let ghost r0 = rule_views(intel.do_never@);
        intel.do_never.push(Constraint { kind: ConstraintKind::Never, text: normalize_whitespace(value) });
        assert(rule_views(intel.do_never@) =~= r0.push((ConstraintKind::Never, normalize_ws(value@))));
    } else if str_eq(name, "dependencies") {
        add_dependencies(&mut intel.dependencies, value);
    }
}

/// Scan every `/** ... */` block of a source file for the intelligence
/// tags, merging into `intelligence`: the first cognitive load wins;
/// do/never entries append in encounter order without deduplication;
/// packages append without repeats.
pub fn collect_jsdoc_intelligence(source: &str, intelligence: &mut JsDocIntelligence)
    requires
        jsdoc_source_ok(source@),
    ensures
        jsdoc_view(*final(intelligence)) == intel_over_blocks(jsdoc_view(*old(intelligence)), blocks_from(source@, 0)),
        intel_grows(jsdoc_view(*old(intelligence)), jsdoc_view(*final(intelligence))),
{
    proof {
        lemma_intel_over_blocks_grows(jsdoc_view(*intelligence), blocks_from(source@, 0));
    }
    let blocks = jsdoc_blocks(source);
    let ghost bv = views(blocks@);
    let ghost acc0 = jsdoc_view(*intelligence);
    let mut b: usize = 0;
    while b < blocks.len()
        invariant
            b <= blocks@.len(),
            bv == views(blocks@),
            bv == blocks_from(source@, 0),
            jsdoc_source_ok(source@),
            jsdoc_view(*intelligence) == intel_over_blocks(acc0, bv.take(b as int)),
        decreases blocks@.len() - b,
    {
        let tags = jsdoc_tags(blocks[b].as_str());
        let ghost tv = tag_views(tags@);
        assert(bv[b as int] == blocks@[b as int]@);
        assert(tags_ok(tags_of(bv[b as int])));
        let ghost mid = jsdoc_view(*intelligence);
        let mut k: usize = 0;
        while k < tags.len()
            invariant
                k <= tags@.len(),
                tv == tag_views(tags@),
                tags_ok(tv),
                jsdoc_view(*intelligence) == intel_over_tags(mid, tv.take(k as int)),
            decreases tags@.len() - k,
        {
            assert(tv[k as int] == (tags@[k as int].name@, tags@[k as int].value@));
            assert(is_usage_tag(tv[k as int].0) ==> usage_lines_ok(tv[k as int].1));
            apply_tag(intelligence, &tags[k]);
            assert(tv.take(k + 1).drop_last() =~= tv.take(k as int));
            assert(tv.take(k + 1).last() == tv[k as int]);
            k = k + 1;
        }
        assert(tv.take(tags@.len() as int) =~= tv);
        assert(bv.take(b + 1).drop_last() =~= bv.take(b as int));
        assert(bv.take(b + 1).last() == bv[b as int]);
        b = b + 1;
    }
    assert(bv.take(blocks@.len() as int) =~= bv);
}


// ---------------------------------------------------------------------------
// Token references: classes joined to declared namespace tokens
// ---------------------------------------------------------------------------

/// A class's utility part `u` names token `t`: it is `t`, or ends with
/// `-t`.
pub open spec fn token_matches(u: Seq<char>, t: Seq<char>) -> bool {
    ||| u == t
    ||| t.len() < u.len() && crate::text::ends_with(u, t) && u[u.len() - t.len() - 1] == '-'
}

/// The length of the longest declared token that `u` names; -1 if none.
pub open spec fn longest_match(u: Seq<char>, ds: Seq<(Seq<char>, Seq<char>)>) -> int
    decreases ds.len(),
{
    if ds.len() == 0 {
        -1
    } else {
        let m = longest_match(u, ds.drop_last());
        if token_matches(u, ds.last().0) && ds.last().0.len() > m {
            ds.last().0.len() as int
        } else {
            m
        }
    }
}

/// The declared `(token, namespace)` pairs a class references: those its
/// utility part names, keeping only the longest token names.
pub open spec fn class_hits(c: Seq<char>, ds: Seq<(Seq<char>, Seq<char>)>) -> Seq<(Seq<char>, Seq<char>)> {
    ds.filter(hit_pred(c, ds))
}

/// Whether class `c` references the declared pair `d`.
pub open spec fn hit_pred(c: Seq<char>, ds: Seq<(Seq<char>, Seq<char>)>) -> spec_fn((Seq<char>, Seq<char>)) -> bool {
    |d: (Seq<char>, Seq<char>)| token_matches(strip_mod(c), d.0) && d.0.len() == longest_match(strip_mod(c), ds)
}

/// The order of token references: by token, then by namespace.
pub open spec fn key_lt(a: (Seq<char>, Seq<char>), b: (Seq<char>, Seq<char>)) -> bool {
    ||| seq_lt(a.0, b.0)
    ||| a.0 == b.0 && seq_lt(a.1, b.1)
}

/// A token reference as plain values: token, namespace, referencing classes.
pub open spec fn ref_view(r: TokenRef) -> (Seq<char>, Seq<char>, Seq<Seq<char>>) {
    (r.token@, r.namespace@, views(r.referenced_by@))
}

pub open spec fn ref_views(rs: Seq<TokenRef>) -> Seq<(Seq<char>, Seq<char>, Seq<Seq<char>>)> {
    rs.map_values(|r: TokenRef| ref_view(r))
}

/// Class `c` recorded as referencing `k` in the key-ordered `rs`.
pub open spec fn add_ref(
    rs: Seq<(Seq<char>, Seq<char>, Seq<Seq<char>>)>,
    k: (Seq<char>, Seq<char>),
    c: Seq<char>,
) -> Seq<(Seq<char>, Seq<char>, Seq<Seq<char>>)>
    decreases rs.len(),
{
    if rs.len() == 0 {
        seq![(k.0, k.1, seq![c])]
    } else if (rs.last().0, rs.last().1) == k {
        rs.update(rs.len() - 1, (k.0, k.1, sorted_insert(rs.last().2, c)))
    } else if key_lt((rs.last().0, rs.last().1), k) {
        rs.push((k.0, k.1, seq![c]))
    } else {
        add_ref(rs.drop_last(), k, c).push(rs.last())
    }
}

/// Class `c` recorded against each of the keys `hs`.
pub open spec fn add_refs(
    rs: Seq<(Seq<char>, Seq<char>, Seq<Seq<char>>)>,
    hs: Seq<(Seq<char>, Seq<char>)>,
    c: Seq<char>,
) -> Seq<(Seq<char>, Seq<char>, Seq<Seq<char>>)>
    decreases hs.len(),
{
    if hs.len() == 0 {
        rs
    } else {
        add_ref(add_refs(rs, hs.drop_last(), c), hs.last(), c)
    }
}

/// The token references of the classes, keyed and ordered by
/// `(token, namespace)`, each listing its classes sorted.
pub open spec fn refs_of(
    classes: Seq<Seq<char>>,
    ds: Seq<(Seq<char>, Seq<char>)>,
) -> Seq<(Seq<char>, Seq<char>, Seq<Seq<char>>)>
    decreases classes.len(),
{
    if classes.len() == 0 {
        seq![]
    } else {
        add_refs(refs_of(classes.drop_last(), ds), class_hits(classes.last(), ds), classes.last())
    }
}

/// The reference order is irreflexive, transitive and total on keys.
pub proof fn lemma_key_lt_order(a: (Seq<char>, Seq<char>), b: (Seq<char>, Seq<char>), c: (Seq<char>, Seq<char>))
    ensures
        !key_lt(a, a),
        key_lt(a, b) && key_lt(b, c) ==> key_lt(a, c),
        a != b ==> key_lt(a, b) || key_lt(b, a),
{
    lemma_seq_lt_irreflexive(a.0);
    lemma_seq_lt_irreflexive(a.1);
    if seq_lt(a.0, b.0) && seq_lt(b.0, c.0) {
        lemma_seq_lt_transitive(a.0, b.0, c.0);
    }
    if seq_lt(a.1, b.1) && seq_lt(b.1, c.1) {
        lemma_seq_lt_transitive(a.1, b.1, c.1);
    }
    if a != b {
        if a.0 != b.0 {
            lemma_seq_lt_total(a.0, b.0);
        } else {
            lemma_seq_lt_total(a.1, b.1);
        }
    }
}

/// Keys strictly ascending, each class list strictly sorted.
pub open spec fn refs_sorted(rs: Seq<(Seq<char>, Seq<char>, Seq<Seq<char>>)>) -> bool {
    &&& forall|i: int, j: int| 0 <= i < j < rs.len() ==> key_lt((#[trigger] rs[i].0, rs[i].1), (#[trigger] rs[j].0, rs[j].1))
    &&& forall|i: int| 0 <= i < rs.len() ==> strictly_sorted(#[trigger] rs[i].2)
}

/// `rs` records class `c` as referencing key `k`.
pub open spec fn recorded(rs: Seq<(Seq<char>, Seq<char>, Seq<Seq<char>>)>, k: (Seq<char>, Seq<char>), c: Seq<char>) -> bool {
    exists|i: int| 0 <= i < rs.len() && (rs[i].0, rs[i].1) == k && #[trigger] rs[i].2.contains(c)
}

proof fn lemma_add_ref(rs: Seq<(Seq<char>, Seq<char>, Seq<Seq<char>>)>, k: (Seq<char>, Seq<char>), c: Seq<char>)
    requires
        refs_sorted(rs),
    ensures
        refs_sorted(add_ref(rs, k, c)),
        forall|k2: (Seq<char>, Seq<char>), c2: Seq<char>| #[trigger] recorded(add_ref(rs, k, c), k2, c2)
            <==> recorded(rs, k2, c2) || (k2 == k && c2 == c),
    decreases rs.len(),
{
    let r = add_ref(rs, k, c);
    if rs.len() == 0 {
        assert(strictly_sorted(seq![c]));
        assert forall|k2: (Seq<char>, Seq<char>), c2: Seq<char>| #[trigger] recorded(r, k2, c2)
            <==> recorded(rs, k2, c2) || (k2 == k && c2 == c) by {
            if k2 == k && c2 == c {
                assert(r[0].2[0] == c);
                assert(r[0].2.contains(c));
            }
            if recorded(r, k2, c2) {
                let i = choose|i: int| 0 <= i < r.len() && (r[i].0, r[i].1) == k2 && #[trigger] r[i].2.contains(c2);
                assert(i == 0);
                let m = choose|m: int| 0 <= m < r[0].2.len() && r[0].2[m] == c2;
                assert(m == 0);
            }
        }
    } else if (rs.last().0, rs.last().1) == k {
        let n = rs.len() - 1;
        lemma_sorted_insert(rs.last().2, c);
        assert forall|i: int, j: int| 0 <= i < j < r.len() implies key_lt((#[trigger] r[i].0, r[i].1), (#[trigger] r[j].0, r[j].1)) by {
            assert(key_lt((rs[i].0, rs[i].1), (rs[j].0, rs[j].1)));
        }
        assert forall|i: int| 0 <= i < r.len() implies strictly_sorted(#[trigger] r[i].2) by {
            if i < n {
                assert(r[i] == rs[i]);
            }
        }
        assert forall|k2: (Seq<char>, Seq<char>), c2: Seq<char>| #[trigger] recorded(r, k2, c2)
            <==> recorded(rs, k2, c2) || (k2 == k && c2 == c) by {
            if recorded(r, k2, c2) {
                let i = choose|i: int| 0 <= i < r.len() && (r[i].0, r[i].1) == k2 && #[trigger] r[i].2.contains(c2);
                if i < n {
                    assert(r[i] == rs[i]);
                } else if c2 != c {
                    assert(rs[n].2.contains(c2));
                }
            }
            if recorded(rs, k2, c2) {
                let i = choose|i: int| 0 <= i < rs.len() && (rs[i].0, rs[i].1) == k2 && #[trigger] rs[i].2.contains(c2);
                if i < n {
                    assert(r[i] == rs[i]);
                } else {
                    assert(r[n].2.contains(c2));
                }
            }
            if k2 == k && c2 == c {
                assert(r[n].2.contains(c));
            }
        }
    } else if key_lt((rs.last().0, rs.last().1), k) {
        let n = rs.len() as int;
        assert(strictly_sorted(seq![c]));
        assert forall|i: int, j: int| 0 <= i < j < r.len() implies key_lt((#[trigger] r[i].0, r[i].1), (#[trigger] r[j].0, r[j].1)) by {
            if j == n {
                if i < n - 1 {
                    assert(key_lt((rs[i].0, rs[i].1), (rs[n - 1].0, rs[n - 1].1)));
                    lemma_key_lt_order((rs[i].0, rs[i].1), (rs[n - 1].0, rs[n - 1].1), k);
                }
            } else {
                assert(r[i] == rs[i] && r[j] == rs[j]);
            }
        }
        assert forall|i: int| 0 <= i < r.len() implies strictly_sorted(#[trigger] r[i].2) by {
            if i < n {
                assert(r[i] == rs[i]);
            }
        }
        assert forall|k2: (Seq<char>, Seq<char>), c2: Seq<char>| #[trigger] recorded(r, k2, c2)
            <==> recorded(rs, k2, c2) || (k2 == k && c2 == c) by {
            if recorded(r, k2, c2) {
                let i = choose|i: int| 0 <= i < r.len() && (r[i].0, r[i].1) == k2 && #[trigger] r[i].2.contains(c2);
                if i < n {
                    assert(r[i] == rs[i]);
                } else {
                    let m = choose|m: int| 0 <= m < r[n].2.len() && r[n].2[m] == c2;
                    assert(m == 0);
                }
            }
            if recorded(rs, k2, c2) {
                let i = choose|i: int| 0 <= i < rs.len() && (rs[i].0, rs[i].1) == k2 && #[trigger] rs[i].2.contains(c2);
                assert(r[i] == rs[i]);
            }
            if k2 == k && c2 == c {
                assert(r[n].2[0] == c);
                assert(r[n].2.contains(c));
            }
        }
    } else {
        let p = rs.drop_last();
        let l = rs.last();
        let n = rs.len() - 1;
        assert(refs_sorted(p)) by {
            assert forall|i: int, j: int| 0 <= i < j < p.len() implies key_lt((#[trigger] p[i].0, p[i].1), (#[trigger] p[j].0, p[j].1)) by {
                assert(p[i] == rs[i] && p[j] == rs[j]);
            }
            assert forall|i: int| 0 <= i < p.len() implies strictly_sorted(#[trigger] p[i].2) by {
                assert(p[i] == rs[i]);
            }
        }
        lemma_add_ref(p, k, c);
        let q = add_ref(p, k, c);
        lemma_key_lt_order((l.0, l.1), k, (l.0, l.1));
        assert(key_lt(k, (l.0, l.1)));
        assert forall|i: int, j: int| 0 <= i < j < r.len() implies key_lt((#[trigger] r[i].0, r[i].1), (#[trigger] r[j].0, r[j].1)) by {
            if j == q.len() {
                let e = q[i];
                lemma_add_ref_keys(p, k, c);
                assert(q_key_from(q, i, p, k));
                if (e.0, e.1) != k {
                    let m = choose|m: int| 0 <= m < p.len() && (p[m].0, p[m].1) == (e.0, e.1);
                    assert(key_lt((rs[m].0, rs[m].1), (rs[n].0, rs[n].1)));
                }
            } else {
                assert(r[i] == q[i] && r[j] == q[j]);
            }
        }
        assert forall|i: int| 0 <= i < r.len() implies strictly_sorted(#[trigger] r[i].2) by {
            if i < q.len() {
                assert(r[i] == q[i]);
            }
        }
        assert forall|k2: (Seq<char>, Seq<char>), c2: Seq<char>| #[trigger] recorded(r, k2, c2)
            <==> recorded(rs, k2, c2) || (k2 == k && c2 == c) by {
            if recorded(r, k2, c2) {
                let i = choose|i: int| 0 <= i < r.len() && (r[i].0, r[i].1) == k2 && #[trigger] r[i].2.contains(c2);
                if i < q.len() {
                    assert(r[i] == q[i]);
                    assert(recorded(q, k2, c2));
                    if recorded(p, k2, c2) {
                        let m = choose|m: int| 0 <= m < p.len() && (p[m].0, p[m].1) == k2 && #[trigger] p[m].2.contains(c2);
                        assert(rs[m] == p[m]);
                    }
                } else {
                    assert(rs[n].2.contains(c2));
                }
            }
            if recorded(rs, k2, c2) {
                let i = choose|i: int| 0 <= i < rs.len() && (rs[i].0, rs[i].1) == k2 && #[trigger] rs[i].2.contains(c2);
                if i < n {
                    assert(p[i] == rs[i]);
                    assert(recorded(p, k2, c2));
                    assert(recorded(q, k2, c2));
                    let m = choose|m: int| 0 <= m < q.len() && (q[m].0, q[m].1) == k2 && #[trigger] q[m].2.contains(c2);
                    assert(r[m] == q[m]);
                } else {
                    assert(r[q.len() as int] == l);
                }
            }
            if k2 == k && c2 == c {
                assert(recorded(q, k, c));
                let m = choose|m: int| 0 <= m < q.len() && (q[m].0, q[m].1) == k && #[trigger] q[m].2.contains(c);
                assert(r[m] == q[m]);
            }
        }
    }
}

proof fn lemma_add_ref_keys(p: Seq<(Seq<char>, Seq<char>, Seq<Seq<char>>)>, k: (Seq<char>, Seq<char>), c: Seq<char>)
    ensures
        forall|i: int| 0 <= i < add_ref(p, k, c).len() ==> #[trigger] q_key_from(add_ref(p, k, c), i, p, k),
    decreases p.len(),
{
    let q = add_ref(p, k, c);
    if p.len() == 0 {
    } else if (p.last().0, p.last().1) == k {
        assert forall|i: int| 0 <= i < q.len() implies #[trigger] q_key_from(q, i, p, k) by {
            assert((p[i].0, p[i].1) == (q[i].0, q[i].1));
        }
    } else if key_lt((p.last().0, p.last().1), k) {
        assert forall|i: int| 0 <= i < q.len() implies #[trigger] q_key_from(q, i, p, k) by {
            if i < p.len() {
                assert((p[i].0, p[i].1) == (q[i].0, q[i].1));
            }
        }
    } else {
        let p0 = p.drop_last();
        lemma_add_ref_keys(p0, k, c);
        let q0 = add_ref(p0, k, c);
        assert forall|i: int| 0 <= i < q.len() implies #[trigger] q_key_from(q, i, p, k) by {
            if i < q0.len() {
                assert(q[i] == q0[i]);
                assert(q_key_from(q0, i, p0, k));
                if (q[i].0, q[i].1) != k {
                    let m = choose|m: int| 0 <= m < p0.len() && (p0[m].0, p0[m].1) == (q0[i].0, q0[i].1);
                    assert(p[m] == p0[m]);
                }
            } else {
                assert(q[i] == p[p.len() - 1]);
            }
        }
    }
}

/// Every key in `add_ref(p, k, c)` is `k` or a key of `p`.
spec fn q_key_from(
    q: Seq<(Seq<char>, Seq<char>, Seq<Seq<char>>)>,
    i: int,
    p: Seq<(Seq<char>, Seq<char>, Seq<Seq<char>>)>,
    k: (Seq<char>, Seq<char>),
) -> bool {
    (q[i].0, q[i].1) == k || exists|m: int| 0 <= m < p.len() && (p[m].0, p[m].1) == (q[i].0, q[i].1)
}

proof fn lemma_add_refs(rs: Seq<(Seq<char>, Seq<char>, Seq<Seq<char>>)>, hs: Seq<(Seq<char>, Seq<char>)>, c: Seq<char>)
    requires
        refs_sorted(rs),
    ensures
        refs_sorted(add_refs(rs, hs, c)),
        forall|k2: (Seq<char>, Seq<char>), c2: Seq<char>| #[trigger] recorded(add_refs(rs, hs, c), k2, c2)
            <==> recorded(rs, k2, c2) || (c2 == c && hs.contains(k2)),
    decreases hs.len(),
{
    if hs.len() > 0 {
        let h0 = hs.drop_last();
        lemma_add_refs(rs, h0, c);
        lemma_add_ref(add_refs(rs, h0, c), hs.last(), c);
        assert forall|k2: (Seq<char>, Seq<char>), c2: Seq<char>| #[trigger] recorded(add_refs(rs, hs, c), k2, c2)
            <==> recorded(rs, k2, c2) || (c2 == c && hs.contains(k2)) by {
            assert(recorded(add_refs(rs, hs, c), k2, c2) == (recorded(add_refs(rs, h0, c), k2, c2) || (k2 == hs.last() && c2 == c)));
            assert(recorded(add_refs(rs, h0, c), k2, c2) == (recorded(rs, k2, c2) || (c2 == c && h0.contains(k2))));
            if h0.contains(k2) {
                let m = choose|m: int| 0 <= m < h0.len() && h0[m] == k2;
                assert(hs[m] == k2);
            }
            if hs.contains(k2) {
                let m = choose|m: int| 0 <= m < hs.len() && hs[m] == k2;
                if m < hs.len() - 1 {
                    assert(h0[m] == k2);
                }
            }
            if k2 == hs.last() {
                assert(hs[hs.len() - 1] == k2);
            }
        }
    }
}

proof fn lemma_refs_of(classes: Seq<Seq<char>>, ds: Seq<(Seq<char>, Seq<char>)>)
    ensures
        refs_sorted(refs_of(classes, ds)),
        forall|k2: (Seq<char>, Seq<char>), c2: Seq<char>| #[trigger] recorded(refs_of(classes, ds), k2, c2)
            <==> classes.contains(c2) && class_hits(c2, ds).contains(k2),
    decreases classes.len(),
{
    let r = refs_of(classes, ds);
    if classes.len() == 0 {
        assert forall|k2: (Seq<char>, Seq<char>), c2: Seq<char>| #[trigger] recorded(r, k2, c2)
            <==> classes.contains(c2) && class_hits(c2, ds).contains(k2) by {}
    } else {
        let c0 = classes.drop_last();
        let c = classes.last();
        lemma_refs_of(c0, ds);
        lemma_add_refs(refs_of(c0, ds), class_hits(c, ds), c);
        assert forall|k2: (Seq<char>, Seq<char>), c2: Seq<char>| #[trigger] recorded(r, k2, c2)
            <==> classes.contains(c2) && class_hits(c2, ds).contains(k2) by {
            assert(recorded(r, k2, c2) == (recorded(refs_of(c0, ds), k2, c2) || (c2 == c && class_hits(c, ds).contains(k2))));
            assert(recorded(refs_of(c0, ds), k2, c2) == (c0.contains(c2) && class_hits(c2, ds).contains(k2)));
            if c0.contains(c2) {
                let m = choose|m: int| 0 <= m < c0.len() && c0[m] == c2;
                assert(classes[m] == c2);
            }
            if classes.contains(c2) {
                let m = choose|m: int| 0 <= m < classes.len() && classes[m] == c2;
                if m < classes.len() - 1 {
                    assert(c0[m] == c2);
                }
            }
            if c2 == c {
                assert(classes[classes.len() - 1] == c2);
            }
        }
    }
}

/// The token references are exactly the declared tokens the classes name
/// with the longest matching names: their keys strictly ascend by
/// `(token, namespace)`, each class list is sorted without repeats, and a
/// class is listed under a key exactly when the class is used, the key is
/// declared, the class's utility part names the token, and no declared
/// token it names is longer.
pub proof fn lemma_token_references(classes: Seq<Seq<char>>, ds: Seq<(Seq<char>, Seq<char>)>)
    ensures
        refs_sorted(refs_of(classes, ds)),
        forall|k: (Seq<char>, Seq<char>), c: Seq<char>| #[trigger] recorded(refs_of(classes, ds), k, c)
            <==> classes.contains(c) && ds.contains(k) && token_matches(strip_mod(c), k.0)
                && k.0.len() == longest_match(strip_mod(c), ds),
{
    broadcast use vstd::seq_lib::group_filter_ensures;

    lemma_refs_of(classes, ds);
    assert forall|k: (Seq<char>, Seq<char>), c: Seq<char>| #[trigger] recorded(refs_of(classes, ds), k, c)
        <==> classes.contains(c) && ds.contains(k) && token_matches(strip_mod(c), k.0)
            && k.0.len() == longest_match(strip_mod(c), ds) by {
        let h = class_hits(c, ds);
        if h.contains(k) {
            ds.lemma_filter_contains_rev(hit_pred(c, ds), k);
            let m = choose|m: int| 0 <= m < h.len() && h[m] == k;
            ds.lemma_filter_pred(hit_pred(c, ds), m);
        }
        if ds.contains(k) && hit_pred(c, ds)(k) {
            let m = choose|m: int| 0 <= m < ds.len() && ds[m] == k;
            ds.lemma_filter_contains(hit_pred(c, ds), m);
        }
    }
}

fn token_matches_exec(u: &Vec<char>, t: &str) -> (b: bool)
    ensures
        b == token_matches(u@, t@),
{
    let tv = chars_of(t);
    if crate::text::vec_eq(u, &tv) {
        return true;
    }
    if tv.len() < u.len() {
        let us = string_of(u, 0, u.len());
        assert(u@.subrange(0, u@.len() as int) =~= u@);
        crate::text::str_ends_with(us.as_str(), t) && u[u.len() - tv.len() - 1] == '-'
    } else {
        false
    }
}

fn class_hits_exec(c: &str, ds: &Vec<(String, String)>) -> (r: Vec<(String, String)>)
    ensures
        pair_views(r@) == class_hits(c@, pair_views(ds@)),
{
    let ghost dv = pair_views(ds@);
    let u = chars_of(strip_modifiers(c).as_str());
    let mut found = false;
    let mut best: usize = 0;
    let mut i: usize = 0;
    while i < ds.len()
        invariant
            i <= ds@.len(),
            dv == pair_views(ds@),
            u@ == strip_mod(c@),
            longest_match(u@, dv.take(i as int)) == (if found { best as int } else { -1 }),
        decreases ds@.len() - i,
    {
        assert(dv.take(i + 1).drop_last() =~= dv.take(i as int));
        assert(dv[i as int] == (ds@[i as int].0@, ds@[i as int].1@));
        let t = &ds[i].0;
        let n = chars_of(t.as_str()).len();
        if token_matches_exec(&u, t.as_str()) && (!found || n > best) {
            found = true;
            best = n;
        }
        i = i + 1;
    }
    assert(dv.take(ds@.len() as int) =~= dv);
    let mut r: Vec<(String, String)> = Vec::new();
    let mut j: usize = 0;
    while j < ds.len()
        invariant
            j <= ds@.len(),
            dv == pair_views(ds@),
            u@ == strip_mod(c@),
            longest_match(u@, dv) == (if found { best as int } else { -1 }),
            pair_views(r@) == dv.take(j as int).filter(hit_pred(c@, dv)),
        decreases ds@.len() - j,
    {
        assert(dv.take(j + 1).drop_last() =~= dv.take(j as int));
        assert(dv[j as int] == (ds@[j as int].0@, ds@[j as int].1@));
        assert(dv.take(j + 1) =~= dv.take(j as int).push(dv[j as int]));
        proof {
            dv.take(j as int).lemma_filter_push(dv[j as int], hit_pred(c@, dv));
        }
        let t = &ds[j].0;
        let n = chars_of(t.as_str()).len();
        if token_matches_exec(&u, t.as_str()) && found && n == best {
            r.push((ds[j].0.clone(), ds[j].1.clone()));
            assert(pair_views(r@) =~= dv.take(j as int).filter(hit_pred(c@, dv)).push(dv[j as int]));
        } else {
            assert(!hit_pred(c@, dv)(dv[j as int]));
        }
        j = j + 1;
    }
    assert(dv.take(ds@.len() as int) =~= dv);
    r
}

fn key_lt_exec(a: &(String, String), b: &(String, String)) -> (r: bool)
    ensures
        r == key_lt((a.0@, a.1@), (b.0@, b.1@)),
{
    let a0 = chars_of(a.0.as_str());
    let b0 = chars_of(b.0.as_str());
    if str_lt(&a0, &b0) {
        return true;
    }
    let a1 = chars_of(a.1.as_str());
    let b1 = chars_of(b.1.as_str());
    crate::text::vec_eq(&a0, &b0) && str_lt(&a1, &b1)
}

#[verifier::spinoff_prover]
#[verifier::rlimit(40)]
fn add_ref_exec(rs: &mut Vec<TokenRef>, k: &(String, String), c: &String)
    ensures
        ref_views(final(rs)@) == add_ref(ref_views(old(rs)@), (k.0@, k.1@), c@),
{
    let ghost r0 = ref_views(rs@);
    let ghost kv = (k.0@, k.1@);
    let mut i = rs.len();
    let mut stop = false;
    assert(r0.take(i as int) =~= r0);
    assert(r0.skip(i as int) =~= Seq::<(Seq<char>, Seq<char>, Seq<Seq<char>>)>::empty());
    while i > 0 && !stop
        invariant
            i <= rs@.len(),
            ref_views(rs@) == r0,
            add_ref(r0, kv, c@) == add_ref(r0.take(i as int), kv, c@) + r0.skip(i as int),
            kv == (k.0@, k.1@),
            stop ==> i > 0 && ((r0[i - 1].0, r0[i - 1].1) == kv || key_lt((r0[i - 1].0, r0[i - 1].1), kv)),
        decreases i + (if stop { 0int } else { 1int }),
    {
        let last = (rs[i - 1].token.clone(), rs[i - 1].namespace.clone());
        assert(r0.take(i as int).last() == r0[i - 1]);
        assert(r0[i - 1].0 == last.0@ && r0[i - 1].1 == last.1@);
        if str_eq(last.0.as_str(), k.0.as_str()) && str_eq(last.1.as_str(), k.1.as_str()) {
            stop = true;
        } else if key_lt_exec(&last, k) {
            stop = true;
        } else {
            assert(r0.take(i as int).drop_last() =~= r0.take(i - 1));
            assert((r0[i - 1].0, r0[i - 1].1) != kv);
            assert(!key_lt((r0[i - 1].0, r0[i - 1].1), kv));
            assert(add_ref(r0.take(i as int), kv, c@) == add_ref(r0.take(i - 1), kv, c@).push(r0[i - 1]));
            assert(add_ref(r0.take(i - 1), kv, c@).push(r0[i - 1]) + r0.skip(i as int)
                =~= add_ref(r0.take(i - 1), kv, c@) + r0.skip(i - 1));
            i = i - 1;
        }
    }
    if i > 0 && str_eq(rs[i - 1].token.as_str(), k.0.as_str()) && str_eq(rs[i - 1].namespace.as_str(), k.1.as_str()) {
        let mut e = rs.remove(i - 1);
        insert_sorted(&mut e.referenced_by, c.clone());
        rs.insert(i - 1, e);
        assert(r0.take(i as int).last() == r0[i - 1]);
        assert(ref_views(rs@) =~= r0.take(i as int).update(i - 1, (kv.0, kv.1, sorted_insert(r0[i - 1].2, c@))) + r0.skip(i as int));
    } else {
        proof {
            if i > 0 {
                assert(r0.take(i as int).last() == r0[i - 1]);
            } else {
                assert(r0.take(0) =~= Seq::<(Seq<char>, Seq<char>, Seq<Seq<char>>)>::empty());
            }
        }
        let mut classes: Vec<String> = Vec::new();
        classes.push(c.clone());
        let e = TokenRef { token: k.0.clone(), namespace: k.1.clone(), referenced_by: classes };
        assert(views(e.referenced_by@) =~= seq![c@]);
        rs.insert(i, e);
        assert(ref_views(rs@) =~= r0.take(i as int).push((kv.0, kv.1, seq![c@])) + r0.skip(i as int));
    }
}

/// Join the classes a component uses to the tokens the namespace source
/// declares (`declared`: each token with its namespace, `None` without a
/// namespace source), by exact name: a class references token `t` when
/// its utility part (after the last `:`) is `t` or ends with `-t`. When
/// several declared tokens match one class the longest names win. The
/// references come ordered by `(token, namespace)`, each with its classes
/// sorted and without repeats.
pub fn token_references(classes: &Vec<String>, declared: Option<&Vec<(String, String)>>) -> (r: Vec<TokenRef>)
    ensures
        match declared {
            None => r@.len() == 0,
            Some(ds) => ref_views(r@) == refs_of(views(classes@), pair_views(ds@)),
        },
{
    let ds = match declared {
        None => {
            return Vec::new();
        },
        Some(ds) => ds,
    };
    let ghost cv = views(classes@);
    let ghost dv = pair_views(ds@);
    let mut rs: Vec<TokenRef> = Vec::new();
    let mut i: usize = 0;
    assert(ref_views(rs@) =~= refs_of(cv.take(0), dv));
    while i < classes.len()
        invariant
            i <= classes@.len(),
            cv == views(classes@),
            dv == pair_views(ds@),
            ref_views(rs@) == refs_of(cv.take(i as int), dv),
        decreases classes@.len() - i,
    {
        assert(cv.take(i + 1).drop_last() =~= cv.take(i as int));
        assert(cv.take(i + 1).last() == classes@[i as int]@);
        let c = &classes[i];
        let hits = class_hits_exec(c.as_str(), ds);
        let ghost hv = pair_views(hits@);
        let ghost base = ref_views(rs@);
        let mut j: usize = 0;
        while j < hits.len()
            invariant
                j <= hits@.len(),
                hv == pair_views(hits@),
                ref_views(rs@) == add_refs(base, hv.take(j as int), c@),
            decreases hits@.len() - j,
        {
            assert(hv.take(j + 1).drop_last() =~= hv.take(j as int));
            add_ref_exec(&mut rs, &hits[j], c);
            j = j + 1;
        }
        assert(hv.take(hits@.len() as int) =~= hv);
        i = i + 1;
    }
    assert(cv.take(classes@.len() as int) =~= cv);
    rs
}

// ---------------------------------------------------------------------------
// Compiled intelligence
// ---------------------------------------------------------------------------

/// `names` recorded one after another with `origin`, each (name, origin)
/// pair once.
pub open spec fn push_all_deps(
    ds: Seq<(Seq<char>, DependencyOrigin)>,
    names: Seq<Seq<char>>,
    origin: DependencyOrigin,
) -> Seq<(Seq<char>, DependencyOrigin)>
    decreases names.len(),
{
    if names.len() == 0 {
        ds
    } else {
        push_unique_dep(push_all_deps(ds, names.drop_last(), origin), (names.last(), origin))
    }
}

/// The dependencies a component declares: its external imports first, then
/// the packages its JSDoc names, each (name, origin) pair once.
pub open spec fn declared_dependencies(imports: Seq<Seq<char>>, named: Seq<Seq<char>>) -> Seq<
    (Seq<char>, DependencyOrigin),
> {
    push_all_deps(push_all_deps(seq![], imports, DependencyOrigin::Import), named, DependencyOrigin::JsDocTag)
}

/// A variant as its key and class string.
pub open spec fn variant_views(vs: Seq<VariantDoc>) -> Seq<(Seq<char>, Seq<char>)> {
    vs.map_values(|v: VariantDoc| (v.name@, v.classes@))
}

proof fn lemma_push_all_deps(ds: Seq<(Seq<char>, DependencyOrigin)>, names: Seq<Seq<char>>, origin: DependencyOrigin)
    requires
        ds.no_duplicates(),
    ensures
        push_all_deps(ds, names, origin).no_duplicates(),
        forall|k: int| 0 <= k < names.len() ==> push_all_deps(ds, names, origin).contains((#[trigger] names[k], origin)),
        forall|d: (Seq<char>, DependencyOrigin)| ds.contains(d) ==> #[trigger] push_all_deps(ds, names, origin).contains(d),
        forall|d: (Seq<char>, DependencyOrigin)| #[trigger] push_all_deps(ds, names, origin).contains(d) ==> ds.contains(d)
            || (d.1 == origin && names.contains(d.0)),
    decreases names.len(),
{
    if names.len() > 0 {
        let init = names.drop_last();
        let prev = push_all_deps(ds, init, origin);
        let d = (names.last(), origin);
        lemma_push_all_deps(ds, init, origin);
        let r = push_all_deps(ds, names, origin);
        assert(r == push_unique_dep(prev, d));
        assert forall|x: (Seq<char>, DependencyOrigin)| prev.contains(x) implies r.contains(x) by {
            if !prev.contains(d) {
                let j = choose|j: int| 0 <= j < prev.len() && prev[j] == x;
                assert(r[j] == x);
            }
        }
        if !prev.contains(d) {
            assert(r[prev.len() as int] == d);
            assert forall|i: int, j: int| 0 <= i < r.len() && 0 <= j < r.len() && i != j implies r[i] != r[j] by {
                if i < prev.len() && j < prev.len() {
                    assert(r[i] == prev[i] && r[j] == prev[j]);
                } else if i < prev.len() {
                    assert(r[i] == prev[i]);
                } else if j < prev.len() {
                    assert(r[j] == prev[j]);
                }
            }
        }
        assert forall|k: int| 0 <= k < names.len() implies r.contains((#[trigger] names[k], origin)) by {
            if k < names.len() - 1 {
                assert(init[k] == names[k]);
                assert(prev.contains((init[k], origin)));
            } else {
                if !prev.contains(d) {
                    assert(r[prev.len() as int] == d);
                }
            }
        }
        assert forall|x: (Seq<char>, DependencyOrigin)| #[trigger] r.contains(x) implies ds.contains(x) || (x.1
            == origin && names.contains(x.0)) by {
            if prev.contains(x) {
                if !ds.contains(x) {
                    let k = choose|k: int| 0 <= k < init.len() && init[k] == x.0;
                    assert(names[k] == x.0);
                }
            } else {
                let j = choose|j: int| 0 <= j < r.len() && r[j] == x;
                if j < prev.len() {
                    assert(r[j] == prev[j]);
                } else {
                    assert(x == d);
                    assert(names[names.len() - 1] == x.0);
                }
            }
        }
    }
}

/// The dependencies a component declares hold each (name, origin) pair
/// once; every external import is among them as an import and every
/// JSDoc-named package as a JSDoc tag, and nothing else is.
pub proof fn lemma_declared_dependencies(imports: Seq<Seq<char>>, named: Seq<Seq<char>>)
    ensures
        declared_dependencies(imports, named).no_duplicates(),
        forall|k: int| 0 <= k < imports.len() ==> declared_dependencies(imports, named).contains(
            (#[trigger] imports[k], DependencyOrigin::Import),
        ),
        forall|k: int| 0 <= k < named.len() ==> declared_dependencies(imports, named).contains(
            (#[trigger] named[k], DependencyOrigin::JsDocTag),
        ),
        forall|d: (Seq<char>, DependencyOrigin)| #[trigger] declared_dependencies(imports, named).contains(d) ==> (
        d.1 == DependencyOrigin::Import && imports.contains(d.0)) || (d.1 == DependencyOrigin::JsDocTag
            && named.contains(d.0)),
{
    let e: Seq<(Seq<char>, DependencyOrigin)> = seq![];
    lemma_push_all_deps(e, imports, DependencyOrigin::Import);
    lemma_push_all_deps(push_all_deps(e, imports, DependencyOrigin::Import), named, DependencyOrigin::JsDocTag);
    let mid = push_all_deps(e, imports, DependencyOrigin::Import);
    assert forall|k: int| 0 <= k < imports.len() implies declared_dependencies(imports, named).contains(
        (#[trigger] imports[k], DependencyOrigin::Import),
    ) by {
        assert(mid.contains((imports[k], DependencyOrigin::Import)));
    }
    assert forall|d: (Seq<char>, DependencyOrigin)| #[trigger] declared_dependencies(imports, named).contains(d)
        implies (d.1 == DependencyOrigin::Import && imports.contains(d.0)) || (d.1 == DependencyOrigin::JsDocTag
        && named.contains(d.0)) by {
        if mid.contains(d) {
            assert(!e.contains(d));
        }
    }
}

fn push_all_dependencies(deps: &mut Vec<DependencyRef>, names: Vec<String>, origin: DependencyOrigin)
    ensures
        dependency_views(final(deps)@) == push_all_deps(dependency_views(old(deps)@), views(names@), origin),
{
    let ghost d0 = dependency_views(deps@);
    let ghost nv = views(names@);
    let mut i: usize = 0;
    while i < names.len()
        invariant
            i <= names@.len(),
            nv == views(names@),
            dependency_views(deps@) == push_all_deps(d0, nv.take(i as int), origin),
        decreases names@.len() - i,
    {
        assert(nv.take(i + 1).drop_last() =~= nv.take(i as int));
        assert(nv.take(i + 1).last() == names@[i as int]@);
        push_unique_dependency(deps, names[i].clone(), origin);
        i = i + 1;
    }
    assert(nv.take(names@.len() as int) =~= nv);
}

/// The variant docs of a variant record, one per entry, in order.
pub fn variant_docs(variant_lookup: &Vec<(String, String)>) -> (r: Vec<VariantDoc>)
    ensures
        variant_views(r@) == pair_views(variant_lookup@),
{
    let mut r: Vec<VariantDoc> = Vec::new();
    let mut i: usize = 0;
    while i < variant_lookup.len()
        invariant
            i <= variant_lookup@.len(),
            variant_views(r@) == pair_views(variant_lookup@).take(i as int),
        decreases variant_lookup@.len() - i,
    {
        let ghost r0 = r@;
        r.push(VariantDoc { name: variant_lookup[i].0.clone(), classes: variant_lookup[i].1.clone() });
        assert(variant_views(r@) =~= variant_views(r0).push(pair_views(variant_lookup@)[i as int]));
        assert(pair_views(variant_lookup@).take(i + 1) =~= pair_views(variant_lookup@).take(i as int).push(
            pair_views(variant_lookup@)[i as int],
        ));
        i = i + 1;
    }
    assert(pair_views(variant_lookup@).take(variant_lookup@.len() as int) =~= pair_views(variant_lookup@));
    r
}

/// The intelligence of a component source file, from what was read of it:
/// the prop surface (`props`, and the `Config` bases it leaves unresolved),
/// the module's external imports, its family's JSDoc, its variant record,
/// the classes its preview uses, and the project's declared tokens. Every
/// field holds exactly what the source declares.
pub fn compile_intelligence(
    props: Vec<PropDoc>,
    config_extends: Vec<String>,
    external_imports: Vec<String>,
    jsdoc: JsDocIntelligence,
    variant_lookup: &Vec<(String, String)>,
    classes_used: &Vec<String>,
    declared: Option<&Vec<(String, String)>>,
) -> (r: CompiledIntelligence)
    ensures
        r.props == props,
        r.config_extends == config_extends,
        variant_views(r.variants@) == pair_views(variant_lookup@),
        r.cognitive_load == jsdoc.cognitive_load,
        r.do_never == jsdoc.do_never,
        dependency_views(r.dependencies@) == declared_dependencies(
            views(external_imports@),
            views(jsdoc.dependencies@),
        ),
        match declared {
            None => r.tokens@.len() == 0,
            Some(ds) => ref_views(r.tokens@) == refs_of(views(classes_used@), pair_views(ds@)),
        },
{
    let mut dependencies: Vec<DependencyRef> = Vec::new();
    assert(dependency_views(dependencies@) =~= seq![]);
    push_all_dependencies(&mut dependencies, external_imports, DependencyOrigin::Import);
    push_all_dependencies(&mut dependencies, jsdoc.dependencies, DependencyOrigin::JsDocTag);
    let variants = variant_docs(variant_lookup);
    let tokens = token_references(classes_used, declared);
    CompiledIntelligence {
        props,
        config_extends,
        variants,
        cognitive_load: jsdoc.cognitive_load,
        do_never: jsdoc.do_never,
        tokens,
        dependencies,
    }
}

/// The intelligence a composite manifest declares: its bare cognitive-load
/// number (with no description) and the rules of its usage patterns; a
/// manifest declares no props, variants, imports or classes.
pub fn manifest_intelligence(cognitive_load: Option<u8>, usage_patterns: Option<UsagePatterns>) -> (r:
    CompiledIntelligence)
    ensures
        r.props@.len() == 0,
        r.config_extends@.len() == 0,
        r.variants@.len() == 0,
        r.tokens@.len() == 0,
        r.dependencies@.len() == 0,
        cognitive_load is None ==> r.cognitive_load is None,
        cognitive_load is Some ==> (r.cognitive_load is Some && r.cognitive_load.unwrap().score
            == cognitive_load.unwrap() && r.cognitive_load.unwrap().description is None),
        match usage_patterns {
            None => r.do_never@.len() == 0,
            Some(p) => rule_views(r.do_never@) == pattern_rules(p),
        },
{
    let mut r = CompiledIntelligence::default();
    r.cognitive_load = match cognitive_load {
        Some(score) => Some(CognitiveLoad { score, description: None }),
        None => None,
    };
    r.do_never = match usage_patterns {
        Some(p) => constraints_from_patterns(p),
        None => Vec::new(),
    };
    r
}

// ---------------------------------------------------------------------------
// Props and imports of a component module
// ---------------------------------------------------------------------------

/// The props of a module's `*Props` interfaces and its external imports.
#[derive(Debug)]
pub struct ModuleFacts {
    pub props: Vec<PropDoc>,
    pub external_imports: Vec<String>,
}

/// Each of `qs` added unless a property of its name is already there.
pub open spec fn add_all_props(
    ps: Seq<(Seq<char>, Option<Seq<char>>, bool)>,
    qs: Seq<(Seq<char>, Option<Seq<char>>, bool)>,
) -> Seq<(Seq<char>, Option<Seq<char>>, bool)>
    decreases qs.len(),
{
    if qs.len() == 0 {
        ps
    } else {
        add_prop(add_all_props(ps, qs.drop_last()), qs.last())
    }
}

/// Whether an import specifier names a package (not a relative or
/// absolute path).
pub open spec fn is_external(spec: Seq<char>) -> bool {
    !starts_with(spec, "."@) && !starts_with(spec, "/"@)
}

/// The props of the module's `*Props` interfaces, each name once.
pub open spec fn facts_props(ss: Seq<TsStatement>) -> Seq<(Seq<char>, Option<Seq<char>>, bool)>
    decreases ss.len(),
{
    if ss.len() == 0 {
        seq![]
    } else {
        let rest = facts_props(ss.drop_last());
        match ss.last() {
            TsStatement::Interface(_, i) => if ends_with(i.name@, "Props"@) {
                add_all_props(rest, member_props(i.members@))
            } else {
                rest
            },
            _ => rest,
        }
    }
}

/// The module's external import specifiers, each once, in order.
pub open spec fn facts_imports(ss: Seq<TsStatement>) -> Seq<Seq<char>>
    decreases ss.len(),
{
    if ss.len() == 0 {
        seq![]
    } else {
        let rest = facts_imports(ss.drop_last());
        match ss.last() {
            TsStatement::Import(spec, _) => if is_external(spec@) && !rest.contains(spec@) {
                rest.push(spec@)
            } else {
                rest
            },
            _ => rest,
        }
    }
}

/// Whether a module path is read as TSX.
pub open spec fn reads_as_tsx(path: Seq<char>) -> bool {
    ends_with(path, ".tsx"@) || ends_with(path, ".jsx"@)
}

/// Read a component module's `*Props` interfaces and external imports;
/// an error naming the path when it does not parse cleanly.
pub fn parse_module_facts(path: &str, source: &str) -> (r: Result<ModuleFacts, String>)
    ensures
        match parsed_module(source@, reads_as_tsx(path@)) {
            Some(m) => if m.clean {
                r matches Ok(f) && prop_doc_views(f.props@) == facts_props(m.statements@)
                    && views(f.external_imports@) == facts_imports(m.statements@)
            } else {
                r matches Err(e) && e@ == "failed to parse "@ + path@ + " while reading props and imports"@
            },
            None => r matches Err(e) && e@ == "failed to parse "@ + path@ + " while reading props and imports"@,
        },
{
    let tsx = crate::text::str_ends_with(path, ".tsx") || crate::text::str_ends_with(path, ".jsx");
    match parse_ts_module(source, tsx) {
        Some(m) => facts_of_module(path, &m),
        None => Err(parse_failure(path)),
    }
}

fn parse_failure(path: &str) -> (r: String)
    ensures
        r@ == "failed to parse "@ + path@ + " while reading props and imports"@,
{
    let mut failed = owned("failed to parse ");
    crate::text::push_str(&mut failed, path);
    crate::text::push_str(&mut failed, " while reading props and imports");
    failed
}

/// The props of a parsed module's `*Props` interfaces and its external
/// imports; an error naming `path` when it did not parse cleanly.
pub fn facts_of_module(path: &str, m: &TsModule) -> (r: Result<ModuleFacts, String>)
    ensures
        m.clean ==> (r matches Ok(f) && prop_doc_views(f.props@) == facts_props(m.statements@)
            && views(f.external_imports@) == facts_imports(m.statements@)),
        !m.clean ==> (r matches Err(e) && e@ == "failed to parse "@ + path@ + " while reading props and imports"@),
{
    if !m.clean {
        return Err(parse_failure(path));
    }
    let ss = &m.statements;
    let mut props: Vec<PropDoc> = Vec::new();
    let mut imports: Vec<String> = Vec::new();
    assert(prop_doc_views(props@) =~= seq![]);
    assert(views(imports@) =~= seq![]);
    let mut i: usize = 0;
    while i < ss.len()
        invariant
            i <= ss@.len(),
            prop_doc_views(props@) == facts_props(ss@.take(i as int)),
            views(imports@) == facts_imports(ss@.take(i as int)),
        decreases ss@.len() - i,
    {
        assert(ss@.take(i + 1).drop_last() =~= ss@.take(i as int));
        match &ss[i] {
            TsStatement::Interface(_, iface) => {
                if crate::text::str_ends_with(iface.name.as_str(), "Props") {
                    let own = interface_props(&iface.members);
                    let ghost p0 = prop_doc_views(props@);
                    let ghost ov = prop_doc_views(own@);
                    let mut j: usize = 0;
                    while j < own.len()
                        invariant
                            j <= own@.len(),
                            ov == prop_doc_views(own@),
                            prop_doc_views(props@) == add_all_props(p0, ov.take(j as int)),
                        decreases own@.len() - j,
                    {
                        assert(ov.take(j + 1).drop_last() =~= ov.take(j as int));
                        add_prop_doc(&mut props, crate::config_interface::copy_prop(&own[j]));
                        j = j + 1;
                    }
                    assert(ov.take(own@.len() as int) =~= ov);
                }
            },
            TsStatement::Import(spec, _) => {
                proof {
                    reveal_strlit(".");
                    reveal_strlit("/");
                }
                let external = !crate::text::str_starts_with(spec.as_str(), ".")
                    && !crate::text::str_starts_with(spec.as_str(), "/");
                if external && !crate::text::contains_string(&imports, spec.as_str()) {
                    let ghost before = views(imports@);
                    imports.push(owned(spec.as_str()));
                    assert(views(imports@) =~= before.push(spec@));
                }
            },
            _ => {},
        }
        i = i + 1;
    }
    assert(ss@.take(ss@.len() as int) =~= ss@);
    Ok(ModuleFacts { props, external_imports: imports })
}

} // verus!
