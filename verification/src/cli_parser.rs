//! CLI help parser: structured command data from clap v4 `--help` text.
//!
//! [`parse_help_text`] reads one help page. Running the binary for each
//! page is the caller's I/O; the parse itself is a pure function of the
//! help text, stated as a fold of [`help_step`] over the text's lines.

use vstd::prelude::*;
use vstd::string::*;
use crate::text::{
    chars_of, contains, find_char, find_seq, has_char, is_whitespace, is_word, is_word_char,
    is_ws, join, join_strings, lemma_next_char, lemma_next_non_ws, lemma_next_occ, lines,
    matches_at, next_char, next_non_ws, next_occ, owned, push_char, push_range, split_lines,
    lemma_trim_empty, starts_with, string_of, strip_all_prefix, strip_all_prefix_from, trim, trim_range,
    vec_is, vec_starts_with, views, vviews,
};

verus! {

/// A parsed CLI command with its flags and subcommands.
#[derive(Debug)]
pub struct ParsedCommand {
    /// Command name (e.g., "reflect", "kanban create")
    pub name: String,
    /// Description from help text
    pub description: String,
    /// Flags/options
    pub flags: Vec<ParsedFlag>,
    /// Subcommands (recursive)
    pub subcommands: Vec<ParsedCommand>,
    /// Usage string
    pub usage: String,
    /// Aliases if any
    pub aliases: Vec<String>,
}

/// A parsed flag/option from --help output.
#[derive(Debug, Clone)]
pub struct ParsedFlag {
    /// Long name (e.g., "--repo")
    pub long: Option<String>,
    /// Short name (e.g., "-v")
    pub short: Option<String>,
    /// Value placeholder (e.g., "REPO")
    pub value_name: Option<String>,
    /// Description
    pub description: String,
    /// Whether the flag is required
    pub required: bool,
    /// Default value if any
    pub default: Option<String>,
}

/// Errors from CLI help parsing.
#[derive(Debug, Clone, PartialEq, Eq)]
pub enum CliParseError {
    BinaryNotFound(String),
    ExecutionError(String),
    NonZeroExit { stderr: String },
}

/// The model of an optional string.
pub open spec fn opt_view(o: Option<String>) -> Option<Seq<char>> {
    match o {
        Some(s) => Some(s@),
        None => None,
    }
}

/// The model of a flag.
pub struct FlagView {
    pub long: Option<Seq<char>>,
    pub short: Option<Seq<char>>,
    pub value_name: Option<Seq<char>>,
    pub description: Seq<char>,
    pub required: bool,
    pub default: Option<Seq<char>>,
}

impl View for ParsedFlag {
    type V = FlagView;

    open spec fn view(&self) -> FlagView {
        FlagView {
            long: opt_view(self.long),
            short: opt_view(self.short),
            value_name: opt_view(self.value_name),
            description: self.description@,
            required: self.required,
            default: opt_view(self.default),
        }
    }
}

/// The model of a command and, recursively, its subcommands.
pub struct CommandView {
    pub name: Seq<char>,
    pub description: Seq<char>,
    pub flags: Seq<FlagView>,
    pub subcommands: Seq<CommandView>,
    pub usage: Seq<char>,
    pub aliases: Seq<Seq<char>>,
}

pub open spec fn flag_views(v: Seq<ParsedFlag>) -> Seq<FlagView> {
    v.map_values(|f: ParsedFlag| f@)
}

impl View for ParsedCommand {
    type V = CommandView;

    open spec fn view(&self) -> CommandView
        decreases self,
    {
        CommandView {
            name: self.name@,
            description: self.description@,
            flags: flag_views(self.flags@),
            subcommands: Seq::new(
                self.subcommands@.len(),
                |i: int|
                    {
                        if 0 <= i < self.subcommands@.len() {
                            self.subcommands@[i].view()
                        } else {
                            arbitrary()
                        }
                    },
            ),
            usage: self.usage@,
            aliases: views(self.aliases@),
        }
    }
}

/// The view of a command unfolds to its fields' views.
pub proof fn lemma_command_view(c: ParsedCommand)
    ensures
        c@.subcommands.len() == c.subcommands@.len(),
        forall|i: int| 0 <= i < c.subcommands@.len() ==> #[trigger] c@.subcommands[i] == c.subcommands@[i]@,
        c@.name == c.name@,
        c@.usage == c.usage@,
        c@.flags == flag_views(c.flags@),
        c@.description == c.description@,
        c@.aliases == views(c.aliases@),
{
    reveal_with_fuel(<ParsedCommand as View>::view, 2);
}

/// A command that carries only a name and a description.
pub open spec fn leaf_command(name: Seq<char>, description: Seq<char>) -> CommandView {
    CommandView {
        name,
        description,
        flags: seq![],
        subcommands: seq![],
        usage: seq![],
        aliases: seq![],
    }
}

impl Default for ParsedCommand {
    fn default() -> (r: Self)
        ensures
            r@ == leaf_command(seq![], seq![]),
    {
        let r = ParsedCommand {
            name: String::new(),
            description: String::new(),
            flags: Vec::new(),
            subcommands: Vec::new(),
            usage: String::new(),
            aliases: Vec::new(),
        };
        assert(r@.subcommands =~= Seq::<CommandView>::empty());
        assert(r@.flags =~= Seq::<FlagView>::empty());
        assert(r@.aliases =~= Seq::<Seq<char>>::empty());
        r
    }
}

impl Default for ParsedFlag {
    fn default() -> (r: Self)
        ensures
            r@ == (FlagView {
                long: None,
                short: None,
                value_name: None,
                description: seq![],
                required: false,
                default: None,
            }),
    {
        ParsedFlag {
            long: None,
            short: None,
            value_name: None,
            description: String::new(),
            required: false,
            default: None,
        }
    }
}

// ---------------------------------------------------------------------------
// The flag-line grammar
// ---------------------------------------------------------------------------
//
// A flag line of clap's help output, after trimming, has the shape
//
//   [-s, ] --long[ <VALUE>]  description[ [default: D]]
//
// The three patterns the parser tries, in order, are
//
//   1. ^(?:(-\w),\s+)?(--[\w-]+)(?:\s+<([^>]+)>)?\s{2,}(.+?)(?:\s+\[default:\s+([^\]]+)\])?$
//   2. ^(-\w),\s+(--[\w-]+)\s{2,}(.+?)(?:\s+\[default:\s+([^\]]+)\])?$
//   3. ^(--[\w-]+)(?:\s+<([^>]+)>)?\s{2,}(.+?)(?:\s+\[default:\s+([^\]]+)\])?$
//
// read with leftmost-first priority: greedy parts take as much as they can,
// the description takes as little as it can, and an optional part is tried
// before its absence. `\w` is a word character (`is_word`), `\s` white space
// (`is_ws`). The spec functions below state each part's match position.

/// A character of a long flag name: a word character or `-`.
pub open spec fn is_name_char(c: char) -> bool {
    is_word(c) || c == '-'
}

/// The first index at or after `i` that is not a flag-name character.
pub open spec fn next_not_name(s: Seq<char>, i: int) -> int
    decreases s.len() - i,
{
    if i < 0 || i >= s.len() {
        s.len() as int
    } else if !is_name_char(s[i]) {
        i
    } else {
        next_not_name(s, i + 1)
    }
}

/// The end of a flag name lies between its start and the end of the line.
pub proof fn lemma_next_not_name(s: Seq<char>, i: int)
    requires
        0 <= i <= s.len(),
    ensures
        i <= next_not_name(s, i) <= s.len(),
    decreases s.len() - i,
{
    if i < s.len() && is_name_char(s[i]) {
        lemma_next_not_name(s, i + 1);
    }
}

/// `(-\w),\s+` at the start: the position after the white space.
pub open spec fn short_end(s: Seq<char>) -> Option<int> {
    if s.len() >= 4 && s[0] == '-' && is_word(s[1]) && s[2] == ',' && is_ws(s[3]) {
        Some(next_non_ws(s, 3))
    } else {
        None
    }
}

/// `(--[\w-]+)` at `p`: the position after the name.
pub open spec fn long_end(s: Seq<char>, p: int) -> Option<int> {
    if 0 <= p && p + 2 < s.len() && s[p] == '-' && s[p + 1] == '-' && is_name_char(s[p + 2]) {
        Some(next_not_name(s, p + 2))
    } else {
        None
    }
}

/// `\s+<([^>]+)>` at `q`: the bounds of the value name (the match ends one
/// past the second bound).
pub open spec fn value_at(s: Seq<char>, q: int) -> Option<(int, int)> {
    if 0 <= q < s.len() && is_ws(s[q]) {
        let a = next_non_ws(s, q);
        if a < s.len() && s[a] == '<' {
            let b = next_char(s, '>', a + 1);
            if b < s.len() && b > a + 1 {
                Some((a + 1, b))
            } else {
                None
            }
        } else {
            None
        }
    } else {
        None
    }
}

/// The literal `[default:`.
pub open spec fn default_open() -> Seq<char> {
    seq!['[', 'd', 'e', 'f', 'a', 'u', 'l', 't', ':']
}

/// `\s+\[default:\s+([^\]]+)\]$` at `e`: the bounds of the default value.
pub open spec fn default_at(s: Seq<char>, e: int) -> Option<(int, int)> {
    if 0 <= e < s.len() && is_ws(s[e]) {
        let a = next_non_ws(s, e);
        let b = a + 9;
        if b < s.len() && s.subrange(a, b) == default_open() && is_ws(s[b]) {
            let c = next_non_ws(s, b);
            let x = if c < s.len() - 1 {
                c
            } else if c == s.len() - 1 && c - b >= 2 {
                c - 1
            } else {
                -1
            };
            if x >= 0 && s.last() == ']' && !has_char(s.subrange(x, s.len() - 1), ']') {
                Some((x, s.len() - 1))
            } else {
                None
            }
        } else {
            None
        }
    } else {
        None
    }
}

/// The first position at or after `e` where the default part matches, or
/// `s.len()`: where the lazily matched description ends.
pub open spec fn first_default(s: Seq<char>, e: int) -> int
    decreases s.len() - e,
{
    if e < 0 || e >= s.len() {
        s.len() as int
    } else if default_at(s, e) is Some {
        e
    } else {
        first_default(s, e + 1)
    }
}

/// Where the parts after the name (and value) match.
pub struct TailMatch {
    /// Description bounds.
    pub desc: (int, int),
    /// Default value bounds, if the default part matched.
    pub default: Option<(int, int)>,
}

/// `\s{2,}(.+?)(?:\s+\[default:\s+([^\]]+)\])?$` at `q`.
pub open spec fn tail_at(s: Seq<char>, q: int) -> Option<TailMatch> {
    if q < 0 || q > s.len() {
        None
    } else {
        let r = next_non_ws(s, q);
        let d = if r - q >= 2 && r < s.len() {
            r
        } else if r - q >= 3 && r == s.len() {
            s.len() - 1
        } else {
            -1
        };
        if d < 0 {
            None
        } else {
            let e = first_default(s, d + 1);
            Some(
                TailMatch {
                    desc: (d, e),
                    default: if e < s.len() {
                        default_at(s, e)
                    } else {
                        None
                    },
                },
            )
        }
    }
}

/// A whole flag-line match: the bounds of each captured part.
pub struct FlagMatch {
    pub short: Option<(int, int)>,
    pub long: (int, int),
    pub value: Option<(int, int)>,
    pub tail: TailMatch,
}

/// The parts from the long name on, starting at `p0`, trying the value part
/// before its absence.
pub open spec fn match_from_long(s: Seq<char>, p0: int, short: Option<(int, int)>, with_value: bool) -> Option<FlagMatch> {
    match long_end(s, p0) {
        None => None,
        Some(q0) => {
            let v = if with_value {
                value_at(s, q0)
            } else {
                None
            };
            let with = match v {
                Some((va, vb)) => tail_at(s, vb + 1),
                None => None,
            };
            if with is Some {
                Some(FlagMatch { short, long: (p0, q0), value: v, tail: with.unwrap() })
            } else {
                match tail_at(s, q0) {
                    Some(t) => Some(FlagMatch { short, long: (p0, q0), value: None, tail: t }),
                    None => None,
                }
            }
        },
    }
}

/// Pattern 1: optional short name, long name, optional value.
pub open spec fn pattern_full(s: Seq<char>) -> Option<FlagMatch> {
    let with_short = match short_end(s) {
        Some(p) => match_from_long(s, p, Some((0, 2)), true),
        None => None,
    };
    if with_short is Some {
        with_short
    } else {
        match_from_long(s, 0, None, true)
    }
}

/// Pattern 2: short name and long name, no value.
pub open spec fn pattern_short(s: Seq<char>) -> Option<FlagMatch> {
    match short_end(s) {
        Some(p) => match_from_long(s, p, Some((0, 2)), false),
        None => None,
    }
}

/// Pattern 3: long name, optional value.
pub open spec fn pattern_long(s: Seq<char>) -> Option<FlagMatch> {
    match_from_long(s, 0, None, true)
}

pub open spec fn sub_opt(s: Seq<char>, r: Option<(int, int)>) -> Option<Seq<char>> {
    match r {
        Some((a, b)) => Some(s.subrange(a, b)),
        None => None,
    }
}

/// The flag a match of pattern 1 or 3 describes.
pub open spec fn flag_of_match(s: Seq<char>, m: FlagMatch) -> FlagView {
    FlagView {
        long: Some(s.subrange(m.long.0, m.long.1)),
        short: sub_opt(s, m.short),
        value_name: sub_opt(s, m.value),
        description: trim(s.subrange(m.tail.desc.0, m.tail.desc.1)),
        required: false,
        default: sub_opt(s, m.tail.default),
    }
}

/// `parse_flag_line`: the flag a (joined) flag line declares, if any.
pub open spec fn flag_of_line(line: Seq<char>) -> Option<FlagView> {
    let t = trim(line);
    if t.len() == 0 {
        None
    } else if pattern_full(t) is Some {
        Some(flag_of_match(t, pattern_full(t).unwrap()))
    } else if pattern_short(t) is Some {
        Some(flag_of_match(t, pattern_short(t).unwrap()))
    } else if pattern_long(t) is Some {
        Some(flag_of_match(t, pattern_long(t).unwrap()))
    } else {
        None
    }
}

// ---- executable grammar ----

fn next_not_name_exec(v: &Vec<char>, from: usize) -> (r: usize)
    requires
        from <= v@.len(),
    ensures
        r == next_not_name(v@, from as int),
        from <= r <= v@.len(),
{
    let mut i = from;
    while i < v.len() && (is_word_char(v[i]) || v[i] == '-')
        invariant
            from <= i <= v@.len(),
            next_not_name(v@, i as int) == next_not_name(v@, from as int),
        decreases v@.len() - i,
    {
        i = i + 1;
    }
    proof {
        lemma_next_not_name(v@, from as int);
    }
    i
}

fn next_non_ws_exec(v: &Vec<char>, from: usize) -> (r: usize)
    requires
        from <= v@.len(),
    ensures
        r == next_non_ws(v@, from as int),
        from <= r <= v@.len(),
{
    let mut i = from;
    while i < v.len() && is_whitespace(v[i])
        invariant
            from <= i <= v@.len(),
            next_non_ws(v@, i as int) == next_non_ws(v@, from as int),
        decreases v@.len() - i,
    {
        i = i + 1;
    }
    proof {
        lemma_next_non_ws(v@, from as int);
    }
    i
}

fn short_end_exec(v: &Vec<char>) -> (r: Option<usize>)
    ensures
        match r {
            Some(p) => short_end(v@) == Some(p as int) && p <= v@.len(),
            None => short_end(v@) is None,
        },
{
    if v.len() >= 4 && v[0] == '-' && is_word_char(v[1]) && v[2] == ',' && is_whitespace(v[3]) {
        Some(next_non_ws_exec(v, 3))
    } else {
        None
    }
}

fn long_end_exec(v: &Vec<char>, p: usize) -> (r: Option<usize>)
    requires
        p <= v@.len(),
    ensures
        match r {
            Some(q) => long_end(v@, p as int) == Some(q as int) && p + 2 <= q <= v@.len(),
            None => long_end(v@, p as int) is None,
        },
{
    if v.len() > 2 && p < v.len() - 2 && v[p] == '-' && v[p + 1] == '-' && (is_word_char(v[p + 2])
        || v[p + 2] == '-') {
        let q = next_not_name_exec(v, p + 2);
        Some(q)
    } else {
        None
    }
}

fn value_at_exec(v: &Vec<char>, q: usize) -> (r: Option<(usize, usize)>)
    requires
        q <= v@.len(),
    ensures
        match r {
            Some((a, b)) => value_at(v@, q as int) == Some((a as int, b as int)) && a < b
                < v@.len(),
            None => value_at(v@, q as int) is None,
        },
{
    if q < v.len() && is_whitespace(v[q]) {
        let a = next_non_ws_exec(v, q);
        if a < v.len() && v[a] == '<' {
            let b = find_char(v, '>', a + 1);
            if b < v.len() && b > a + 1 {
                return Some((a + 1, b));
            }
        }
    }
    None
}

fn default_at_exec(v: &Vec<char>, open: &Vec<char>, e: usize) -> (r: Option<(usize, usize)>)
    requires
        e <= v@.len(),
        open@ == default_open(),
    ensures
        match r {
            Some((x, y)) => default_at(v@, e as int) == Some((x as int, y as int)) && x <= y
                < v@.len(),
            None => default_at(v@, e as int) is None,
        },
{
    if e < v.len() && is_whitespace(v[e]) {
        let a = next_non_ws_exec(v, e);
        if a < v.len() && v.len() - a > 9 && matches_at(v, open, a) && is_whitespace(v[a + 9]) {
            let b = a + 9;
            assert(v@.subrange(a as int, a + open@.len()) == default_open());
            let c = next_non_ws_exec(v, b);
            let last = v.len() - 1;
            let x: usize;
            if c < last {
                x = c;
            } else if c == last && c - b >= 2 {
                x = c - 1;
            } else {
                return None;
            }
            if v[last] == ']' && find_char(v, ']', x) >= last {
                proof {
                    lemma_next_char(v@, ']', x as int);
                    if has_char(v@.subrange(x as int, last as int), ']') {
                        let k = choose|k: int|
                            0 <= k < v@.subrange(x as int, last as int).len() && v@.subrange(
                                x as int,
                                last as int,
                            )[k] == ']';
                        assert(v@[x + k] == ']');
                    }
                }
                return Some((x, last));
            } else {
                proof {
                    lemma_next_char(v@, ']', x as int);
                    let f = next_char(v@, ']', x as int);
                    if v@[last as int] == ']' {
                        assert(v@.subrange(x as int, last as int)[f - x] == ']');
                    }
                }
                return None;
            }
        } else {
            proof {
                if a < v@.len() && a + 9 < v@.len() && v@.subrange(a as int, a + 9)
                    == default_open() {
                    assert(v@.subrange(a as int, a + open@.len()) =~= open@);
                }
            }
        }
    }
    None
}

fn first_default_exec(v: &Vec<char>, open: &Vec<char>, from: usize) -> (r: usize)
    requires
        from <= v@.len(),
        open@ == default_open(),
    ensures
        r == first_default(v@, from as int),
        from <= r <= v@.len(),
{
    let mut e = from;
    while e < v.len()
        invariant
            open@ == default_open(),
            from <= e <= v@.len(),
            first_default(v@, e as int) == first_default(v@, from as int),
        decreases v@.len() - e,
    {
        if default_at_exec(v, open, e).is_some() {
            return e;
        }
        e = e + 1;
    }
    e
}

/// Exec form of `tail_at`: `(d, e, default)`.
fn tail_at_exec(v: &Vec<char>, open: &Vec<char>, q: usize) -> (r: Option<(usize, usize, Option<(usize, usize)>)>)
    requires
        open@ == default_open(),
    ensures
        match r {
            Some((d, e, dv)) => tail_at(v@, q as int) is Some && tail_at(v@, q as int).unwrap()
                == (TailMatch {
                desc: (d as int, e as int),
                default: match dv {
                    Some((x, y)) => Some((x as int, y as int)),
                    None => None,
                },
            }) && d <= e <= v@.len() && (dv matches Some((x, y)) ==> x <= y <= v@.len()),
            None => tail_at(v@, q as int) is None,
        },
{
    if q > v.len() {
        return None;
    }
    let r = next_non_ws_exec(v, q);
    let d: usize;
    if r - q >= 2 && r < v.len() {
        d = r;
    } else if r - q >= 3 && r == v.len() {
        d = v.len() - 1;
    } else {
        return None;
    }
    let e = first_default_exec(v, open, d + 1);
    let dv = if e < v.len() {
        default_at_exec(v, open, e)
    } else {
        None
    };
    Some((d, e, dv))
}

/// Exec form of `match_from_long`.
fn match_from_long_exec(
    v: &Vec<char>,
    open: &Vec<char>,
    p0: usize,
    with_short: bool,
    with_value: bool,
) -> (r: Option<ParsedFlag>)
    requires
        open@ == default_open(),
        p0 <= v@.len(),
        with_short ==> v@.len() >= 2,
    ensures
        match r {
            Some(f) => match_from_long(
                v@,
                p0 as int,
                if with_short {
                    Some((0int, 2int))
                } else {
                    None
                },
                with_value,
            ) is Some && f@ == flag_of_match(
                v@,
                match_from_long(
                    v@,
                    p0 as int,
                    if with_short {
                        Some((0int, 2int))
                    } else {
                        None
                    },
                    with_value,
                ).unwrap(),
            ),
            None => match_from_long(
                v@,
                p0 as int,
                if with_short {
                    Some((0int, 2int))
                } else {
                    None
                },
                with_value,
            ) is None,
        },
{
    let q0 = match long_end_exec(v, p0) {
        Some(q0) => q0,
        None => return None,
    };
    let vm = if with_value {
        value_at_exec(v, q0)
    } else {
        None
    };
    let mut value: Option<(usize, usize)> = None;
    let mut tail: Option<(usize, usize, Option<(usize, usize)>)> = None;
    if let Some((va, vb)) = vm {
        let n = v.len();
        assert(vb < n);
        let t = tail_at_exec(v, open, vb + 1);
        if t.is_some() {
            value = Some((va, vb));
            tail = t;
        }
    }
    if tail.is_none() {
        tail = tail_at_exec(v, open, q0);
    }
    match tail {
        None => None,
        Some((d, e, dv)) => {
            let (ta, tb) = trim_range(v, d, e);
            let short = if with_short {
                Some(string_of(v, 0, 2))
            } else {
                None
            };
            let value_name = match value {
                Some((a, b)) => Some(string_of(v, a, b)),
                None => None,
            };
            let default = match dv {
                Some((x, y)) => Some(string_of(v, x, y)),
                None => None,
            };
            Some(
                ParsedFlag {
                    long: Some(string_of(v, p0, q0)),
                    short,
                    value_name,
                    description: string_of(v, ta, tb),
                    required: false,
                    default,
                },
            )
        },
    }
}

/// Parse a flag line like "  -v, --verbose      Show informational messages"
/// or "      --repo <REPO>  Repository name(s), comma-separated".
pub fn parse_flag_line(line: &Vec<char>) -> (r: Option<ParsedFlag>)
    ensures
        match r {
            Some(f) => flag_of_line(line@) == Some(f@),
            None => flag_of_line(line@) is None,
        },
{
    let (a, b) = trim_range(line, 0, line.len());
    assert(line@.subrange(0, line@.len() as int) =~= line@);
    if a == b {
        return None;
    }
    let mut t: Vec<char> = Vec::new();
    let mut k = a;
    while k < b
        invariant
            a <= k <= b <= line@.len(),
            t@ == line@.subrange(a as int, k as int),
        decreases b - k,
    {
        t.push(line[k]);
        assert(line@.subrange(a as int, k + 1) =~= line@.subrange(a as int, k as int).push(
            line@[k as int],
        ));
        k = k + 1;
    }
    let open: Vec<char> = vec!['[', 'd', 'e', 'f', 'a', 'u', 'l', 't', ':'];
    assert(open@ =~= default_open());
    // Pattern 1, with its optional short name taken first.
    if let Some(p) = short_end_exec(&t) {
        if let Some(f) = match_from_long_exec(&t, &open, p, true, true) {
            return Some(f);
        }
    }
    if let Some(f) = match_from_long_exec(&t, &open, 0, false, true) {
        return Some(f);
    }
    // Pattern 2.
    if let Some(p) = short_end_exec(&t) {
        if let Some(f) = match_from_long_exec(&t, &open, p, true, false) {
            return Some(f);
        }
    }
    // Pattern 3.
    match_from_long_exec(&t, &open, 0, false, true)
}

// ---------------------------------------------------------------------------
// Command lines
// ---------------------------------------------------------------------------

/// `parse_command_line`: a "name  description" line of the Commands
/// section, split at its first double space; a single word with no
/// description is a command too.
pub open spec fn command_of_line(line: Seq<char>) -> Option<(Seq<char>, Seq<char>)> {
    let k = next_occ(line, seq![' ', ' '], 0);
    if k >= 0 && trim(line.take(k)).len() > 0 {
        Some((trim(line.take(k)), trim(line.skip(k + 2))))
    } else {
        let name = trim(line);
        if name.len() > 0 && !has_char(name, ' ') {
            Some((name, seq![]))
        } else {
            None
        }
    }
}

/// Parse a command line like "  reflect   Store a reflection from a completed session".
pub fn parse_command_line(line: &Vec<char>) -> (r: Option<(String, String)>)
    ensures
        match r {
            Some((n, d)) => command_of_line(line@) == Some((n@, d@)),
            None => command_of_line(line@) is None,
        },
{
    let two: Vec<char> = vec![' ', ' '];
    assert(two@ =~= seq![' ', ' ']);
    if let Some(k) = find_seq(line, &two, 0) {
        proof {
            lemma_next_occ(line@, two@, 0);
        }
        let n = line.len();
        assert(k + 2 <= n);
        let (a, b) = trim_range(line, 0, k);
        assert(line@.subrange(0, k as int) =~= line@.take(k as int));
        if a < b {
            let (c, d) = trim_range(line, k + 2, line.len());
            assert(line@.subrange(k + 2, line@.len() as int) =~= line@.skip(k + 2));
            return Some((string_of(line, a, b), string_of(line, c, d)));
        }
    }
    let (a, b) = trim_range(line, 0, line.len());
    assert(line@.subrange(0, line@.len() as int) =~= line@);
    if a < b {
        let sp = find_char(line, ' ', a);
        proof {
            lemma_next_char(line@, ' ', a as int);
        }
        if sp >= b {
            assert(!has_char(line@.subrange(a as int, b as int), ' ')) by {
                if has_char(line@.subrange(a as int, b as int), ' ') {
                    let j = choose|j: int|
                        0 <= j < line@.subrange(a as int, b as int).len() && line@.subrange(
                            a as int,
                            b as int,
                        )[j] == ' ';
                    assert(line@[a + j] == ' ');
                }
            }
            return Some((string_of(line, a, b), String::new()));
        } else {
            assert(line@.subrange(a as int, b as int)[sp - a] == ' ');
        }
    }
    None
}

// ---------------------------------------------------------------------------
// The help-page state machine
// ---------------------------------------------------------------------------

/// The section of a help page a line belongs to.
#[derive(Debug, Clone, Copy, PartialEq, Eq)]
pub enum Section {
    Preamble,
    Usage,
    Commands,
    Options,
    Arguments,
}

/// The parser's state after some lines.
pub struct HelpState {
    pub section: Section,
    /// Non-empty trimmed preamble lines.
    pub description: Seq<Seq<char>>,
    pub usage: Seq<char>,
    /// Subcommand names and descriptions.
    pub subcommands: Seq<(Seq<char>, Seq<char>)>,
    pub flags: Seq<FlagView>,
    /// Lines of the flag being read.
    pub pending: Seq<Seq<char>>,
}

pub open spec fn help_start() -> HelpState {
    HelpState {
        section: Section::Preamble,
        description: seq![],
        usage: seq![],
        subcommands: seq![],
        flags: seq![],
        pending: seq![],
    }
}

/// The flags after the pending lines are read as one flag line.
pub open spec fn flushed(flags: Seq<FlagView>, pending: Seq<Seq<char>>) -> Seq<FlagView> {
    if pending.len() == 0 {
        flags
    } else {
        match flag_of_line(join(pending, seq![' '])) {
            Some(f) => flags.push(f),
            None => flags,
        }
    }
}

/// Enter `section`, reading out any pending flag.
pub open spec fn enter(st: HelpState, section: Section) -> HelpState {
    HelpState { section, flags: flushed(st.flags, st.pending), pending: seq![], ..st }
}

/// One line of a help page.
pub open spec fn help_step(st: HelpState, line: Seq<char>) -> HelpState {
    if line == "Commands:"@ {
        enter(st, Section::Commands)
    } else if line == "Options:"@ {
        enter(st, Section::Options)
    } else if starts_with(line, "Usage:"@) {
        HelpState { usage: trim(strip_all_prefix(line, "Usage:"@)), ..enter(st, Section::Usage) }
    } else if line == "Arguments:"@ {
        enter(st, Section::Arguments)
    } else {
        let t = trim(line);
        match st.section {
            Section::Preamble => if t.len() > 0 {
                HelpState { description: st.description.push(t), ..st }
            } else {
                st
            },
            Section::Usage => if t.len() > 0 && starts_with(line, seq![' ']) {
                HelpState { usage: st.usage + seq![' '] + t, ..st }
            } else {
                st
            },
            Section::Commands => if t.len() == 0 {
                st
            } else {
                match command_of_line(t) {
                    Some((n, d)) => if n != "help"@ {
                        HelpState { subcommands: st.subcommands.push((n, d)), ..st }
                    } else {
                        st
                    },
                    None => st,
                }
            },
            Section::Options => if t.len() == 0 {
                HelpState { flags: flushed(st.flags, st.pending), pending: seq![], ..st }
            } else if !starts_with(line, "  -"@) && !starts_with(line, "      --"@)
                && st.pending.len() > 0 {
                HelpState { pending: st.pending.push(line), ..st }
            } else {
                HelpState {
                    flags: flushed(st.flags, st.pending),
                    pending: seq![line],
                    ..st
                }
            },
            Section::Arguments => st,
        }
    }
}

/// A line that opens a section of a help page.
pub open spec fn is_section_header(line: Seq<char>) -> bool {
    line == "Commands:"@ || line == "Options:"@ || line == "Arguments:"@ || starts_with(line, "Usage:"@)
}

/// A line of the Options section that starts a flag.
pub open spec fn is_flag_start(line: Seq<char>) -> bool {
    starts_with(line, "  -"@) || starts_with(line, "      --"@)
}

proof fn lemma_flag_start_line(line: Seq<char>)
    requires
        is_flag_start(line),
    ensures
        !is_section_header(line),
        trim(line).len() > 0,
{
    reveal_strlit("  -");
    reveal_strlit("      --");
    reveal_strlit("Commands:");
    reveal_strlit("Options:");
    reveal_strlit("Arguments:");
    reveal_strlit("Usage:");
    lemma_trim_empty(line);
    if starts_with(line, "  -"@) {
        assert(line[0] == line.take(3)[0]);
        assert(line[2] == line.take(3)[2]);
        assert(!is_ws(line[2]));
    } else {
        assert(line[0] == line.take(8)[0]);
        assert(line[6] == line.take(8)[6]);
        assert(!is_ws(line[6]));
    }
    assert(line[0] == ' ');
    assert(line != "Commands:"@ && line != "Options:"@ && line != "Arguments:"@) by {
        assert("Commands:"@[0] == 'C');
        assert("Options:"@[0] == 'O');
        assert("Arguments:"@[0] == 'A');
    }
    if starts_with(line, "Usage:"@) {
        assert(line[0] == line.take(6)[0]);
    }
}

/// In the Options section, a non-blank line that starts no flag and no
/// section, read while a flag is pending, is appended to that flag's lines;
/// nothing else changes.
pub proof fn lemma_continuation_appends(st: HelpState, line: Seq<char>)
    requires
        st.section == Section::Options,
        st.pending.len() > 0,
        !is_section_header(line),
        !is_flag_start(line),
        trim(line).len() > 0,
    ensures
        help_step(st, line).pending == st.pending.push(line),
        help_step(st, line).flags == st.flags,
        help_step(st, line).section == Section::Options,
{
}

/// A flag line followed by a continuation line in the Options section is
/// read, at the next blank line, as the one flag that the flag-line parser
/// reads from the two lines joined by a space: the continuation is part of
/// the flag (its description), not dropped.
pub proof fn lemma_flag_continuation_read(st: HelpState, flag_line: Seq<char>, more: Seq<char>)
    requires
        st.section == Section::Options,
        is_flag_start(flag_line),
        !is_section_header(more),
        !is_flag_start(more),
        trim(more).len() > 0,
    ensures
        ({
            let after = help_step(help_step(help_step(st, flag_line), more), seq![]);
            &&& after.section == Section::Options
            &&& after.pending.len() == 0
            &&& after.flags == flushed(st.flags, st.pending) + match flag_of_line(flag_line + seq![' '] + more) {
                Some(f) => seq![f],
                None => seq![],
            }
        }),
{
    lemma_flag_start_line(flag_line);
    let s1 = help_step(st, flag_line);
    assert(s1.pending == seq![flag_line]);
    let s2 = help_step(s1, more);
    assert(s2.pending == seq![flag_line, more]);
    let blank: Seq<char> = seq![];
    reveal_strlit("Commands:");
    reveal_strlit("Options:");
    reveal_strlit("Arguments:");
    reveal_strlit("Usage:");
    assert(trim(blank) =~= blank);
    assert(!starts_with(blank, "Usage:"@));
    assert(blank != "Commands:"@ && blank != "Options:"@ && blank != "Arguments:"@);
    assert(join(s2.pending, seq![' ']) =~= flag_line + seq![' '] + more) by {
        assert(s2.pending.drop_last() =~= seq![flag_line]);
    }
    let after = help_step(s2, blank);
    match flag_of_line(flag_line + seq![' '] + more) {
        Some(f) => {
            assert(after.flags =~= flushed(st.flags, st.pending) + seq![f]);
        },
        None => {
            assert(after.flags =~= flushed(st.flags, st.pending) + Seq::<FlagView>::empty());
        },
    }
}

/// The state after reading `lines` in order.
pub open spec fn help_fold(lines: Seq<Seq<char>>) -> HelpState
    decreases lines.len(),
{
    if lines.len() == 0 {
        help_start()
    } else {
        help_step(help_fold(lines.drop_last()), lines.last())
    }
}

/// A help page that ends with its Options header, a flag line and that
/// flag's continuation line describes, as its last flag, the flag that the
/// flag-line parser reads from the two lines joined by a space.
pub proof fn lemma_help_page_flag_continuation(
    name: Seq<char>,
    text: Seq<char>,
    before: Seq<Seq<char>>,
    flag_line: Seq<char>,
    more: Seq<char>,
)
    requires
        lines(text) == before + seq!["Options:"@, flag_line, more],
        is_flag_start(flag_line),
        !is_section_header(more),
        !is_flag_start(more),
        trim(more).len() > 0,
    ensures
        help_command(name, text).flags == flushed(help_fold(before).flags, help_fold(before).pending) + match flag_of_line(
            flag_line + seq![' '] + more,
        ) {
            Some(f) => seq![f],
            None => seq![],
        },
{
    let ls = lines(text);
    let st0 = help_fold(before);
    assert(ls.drop_last().drop_last().drop_last() =~= before);
    assert(ls.drop_last().drop_last().last() == "Options:"@);
    assert(ls.drop_last().last() == flag_line);
    assert(ls.last() == more);
    let s0 = help_step(st0, "Options:"@);
    assert("Options:"@ != "Commands:"@) by {
        reveal_strlit("Options:");
        reveal_strlit("Commands:");
        assert("Options:"@[0] != "Commands:"@[0]);
    }
    assert(help_fold(ls.drop_last().drop_last()) == s0);
    assert(s0.section == Section::Options && s0.pending.len() == 0);
    assert(s0.flags == flushed(st0.flags, st0.pending));
    lemma_flag_start_line(flag_line);
    let s1 = help_step(s0, flag_line);
    assert(help_fold(ls.drop_last()) == s1);
    assert(s1.pending == seq![flag_line] && s1.flags == s0.flags);
    let s2 = help_step(s1, more);
    assert(help_fold(ls) == s2);
    assert(s2.pending == seq![flag_line, more] && s2.flags == s0.flags);
    assert(join(s2.pending, seq![' ']) =~= flag_line + seq![' '] + more) by {
        assert(s2.pending.drop_last() =~= seq![flag_line]);
    }
    match flag_of_line(flag_line + seq![' '] + more) {
        Some(f) => {
            assert(flushed(s2.flags, s2.pending) =~= s0.flags + seq![f]);
        },
        None => {
            assert(flushed(s2.flags, s2.pending) =~= s0.flags + Seq::<FlagView>::empty());
        },
    }
}

/// `parse_help_text(name, text)`: the command a help page describes.
pub open spec fn help_command(name: Seq<char>, text: Seq<char>) -> CommandView {
    let st = help_fold(lines(text));
    CommandView {
        name,
        description: join(st.description, seq![' ']),
        flags: flushed(st.flags, st.pending),
        subcommands: st.subcommands.map_values(
            |p: (Seq<char>, Seq<char>)| leaf_command(p.0, p.1),
        ),
        usage: st.usage,
        aliases: seq![],
    }
}

/// The executable parser state.
struct HelpParser {
    section: Section,
    description: Vec<String>,
    usage: String,
    subcommands: Vec<(String, String)>,
    flags: Vec<ParsedFlag>,
    pending: Vec<String>,
}

impl HelpParser {
    spec fn model(&self) -> HelpState {
        HelpState {
            section: self.section,
            description: views(self.description@),
            usage: self.usage@,
            subcommands: self.subcommands@.map_values(|p: (String, String)| (p.0@, p.1@)),
            flags: flag_views(self.flags@),
            pending: views(self.pending@),
        }
    }

    /// Flush accumulated flag lines into a ParsedFlag and push to the vec.
    fn flush_flag(&mut self)
        ensures
            final(self)@ == (HelpState {
                flags: flushed(old(self)@.flags, old(self)@.pending),
                pending: seq![],
                ..old(self)@
            }),
    {
        if self.pending.len() == 0 {
            assert(views(self.pending@) =~= Seq::<Seq<char>>::empty());
            return;
        }
        let joined = join_strings(&self.pending, " ");
        proof {
            reveal_strlit(" ");
            assert(" "@ =~= seq![' ']);
        }
        self.pending = Vec::new();
        let jv = chars_of(joined.as_str());
        let parsed = parse_flag_line(&jv);
        if let Some(flag) = parsed {
            let ghost before = self.flags@;
            self.flags.push(flag);
            assert(flag_views(self.flags@) =~= flag_views(before).push(flag@));
        }
        assert(views(self.pending@) =~= Seq::<Seq<char>>::empty());
    }

    fn enter(&mut self, section: Section)
        ensures
            final(self)@ == enter(old(self)@, section),
    {
        self.flush_flag();
        self.section = section;
    }

    fn step(&mut self, line: &Vec<char>)
        ensures
            final(self)@ == help_step(old(self)@, line@),
    {
        let usage_tag = chars_of("Usage:");
        if vec_is(line, "Commands:") {
            self.enter(Section::Commands);
            return;
        }
        if vec_is(line, "Options:") {
            self.enter(Section::Options);
            return;
        }
        if vec_starts_with(line, &usage_tag) {
            self.enter(Section::Usage);
            let start = strip_all_prefix_from(line, &usage_tag, 0);
            assert(line@.skip(0) =~= line@);
            let (a, b) = trim_range(line, start, line.len());
            assert(line@.subrange(start as int, line@.len() as int) =~= line@.skip(start as int));
            self.usage = string_of(line, a, b);
            assert(self.usage@ == trim(strip_all_prefix(line@, "Usage:"@)));
            return;
        }
        if vec_is(line, "Arguments:") {
            self.enter(Section::Arguments);
            return;
        }
        let (a, b) = trim_range(line, 0, line.len());
        assert(line@.subrange(0, line@.len() as int) =~= line@);
        match self.section {
            Section::Preamble => {
                if a < b {
                    let t = string_of(line, a, b);
                    let ghost before = self.description@;
                    self.description.push(t);
                    assert(views(self.description@) =~= views(before).push(
                        trim(line@),
                    ));
                }
            },
            Section::Usage => {
                if a < b && line.len() > 0 && line[0] == ' ' {
                    let ghost u0 = self.usage@;
                    push_char(&mut self.usage, ' ');
                    push_range(&mut self.usage, line, a, b);
                    assert(self.usage@ =~= u0 + seq![' '] + trim(line@));
                    assert(line@.take(1) =~= seq![' ']);
                } else {
                    proof {
                        if a < b {
                            assert(!starts_with(line@, seq![' '])) by {
                                if starts_with(line@, seq![' ']) {
                                    assert(line@.take(1)[0] == ' ');
                                }
                            }
                        }
                    }
                }
                proof {
                    if a < b && line@.len() > 0 && line@[0] == ' ' {
                        assert(line@.take(1) =~= seq![' ']);
                    }
                }
            },
            Section::Commands => {
                if a < b {
                    let mut t: Vec<char> = Vec::new();
                    let mut k = a;
                    while k < b
                        invariant
                            a <= k <= b <= line@.len(),
                            t@ == line@.subrange(a as int, k as int),
                        decreases b - k,
                    {
                        t.push(line[k]);
                        assert(line@.subrange(a as int, k + 1) =~= line@.subrange(
                            a as int,
                            k as int,
                        ).push(line@[k as int]));
                        k = k + 1;
                    }
                    match parse_command_line(&t) {
                        Some((n, d)) => {
                            let nv = chars_of(n.as_str());
                            if !vec_is(&nv, "help") {
                                let ghost before = self.subcommands@;
                                self.subcommands.push((n, d));
                                assert(self.subcommands@.map_values(
                                    |p: (String, String)| (p.0@, p.1@),
                                ) =~= before.map_values(|p: (String, String)| (p.0@, p.1@)).push(
                                    (nv@, d@),
                                ));
                            }
                        },
                        None => {},
                    }
                }
            },
            Section::Options => {
                if a == b {
                    self.flush_flag();
                } else {
                    let dash = chars_of("  -");
                    let dashdash = chars_of("      --");
                    let ls = string_of(line, 0, line.len());
                    if !vec_starts_with(line, &dash) && !vec_starts_with(line, &dashdash)
                        && self.pending.len() > 0 {
                        let ghost before = self.pending@;
                        self.pending.push(ls);
                        assert(views(self.pending@) =~= views(before).push(line@));
                    } else {
                        self.flush_flag();
                        self.pending.push(ls);
                        assert(views(self.pending@) =~= seq![line@]);
                    }
                }
            },
            Section::Arguments => {},
        }
    }
}

impl View for HelpParser {
    type V = HelpState;

    closed spec fn view(&self) -> HelpState {
        self.model()
    }
}

/// Parse a single --help text into a ParsedCommand.
pub fn parse_help_text(name: &str, help_text: &str) -> (r: ParsedCommand)
    ensures
        r@ == help_command(name@, help_text@),
{
    let text = chars_of(help_text);
    let all = split_lines(&text);
    let mut p = HelpParser {
        section: Section::Preamble,
        description: Vec::new(),
        usage: String::new(),
        subcommands: Vec::new(),
        flags: Vec::new(),
        pending: Vec::new(),
    };
    assert(p@ == help_start()) by {
        assert(views(p.description@) =~= Seq::<Seq<char>>::empty());
        assert(p.subcommands@.map_values(|q: (String, String)| (q.0@, q.1@)) =~= Seq::<
            (Seq<char>, Seq<char>),
        >::empty());
        assert(flag_views(p.flags@) =~= Seq::<FlagView>::empty());
        assert(views(p.pending@) =~= Seq::<Seq<char>>::empty());
    }
    let mut i: usize = 0;
    while i < all.len()
        invariant
            i <= all@.len(),
            vviews(all@) == lines(help_text@),
            p@ == help_fold(vviews(all@).take(i as int)),
        decreases all@.len() - i,
    {
        p.step(&all[i]);
        assert(vviews(all@).take(i + 1).drop_last() =~= vviews(all@).take(i as int));
        i = i + 1;
    }
    assert(vviews(all@).take(all@.len() as int) =~= vviews(all@));
    p.flush_flag();
    let description = join_strings(&p.description, " ");
    proof {
        reveal_strlit(" ");
        assert(" "@ =~= seq![' ']);
    }
    let mut subcommands: Vec<ParsedCommand> = Vec::new();
    let mut k: usize = 0;
    while k < p.subcommands.len()
        invariant
            k <= p.subcommands@.len(),
            subcommands@.len() == k,
            forall|j: int|
                0 <= j < k ==> #[trigger] subcommands@[j]@ == leaf_command(
                    p.subcommands@[j].0@,
                    p.subcommands@[j].1@,
                ),
        decreases p.subcommands@.len() - k,
    {
        let (n, d) = (p.subcommands[k].0.clone(), p.subcommands[k].1.clone());
        let mut c = ParsedCommand::default();
        c.name = n;
        c.description = d;
        subcommands.push(c);
        assert(subcommands@[k as int]@ =~~= leaf_command(
            p.subcommands@[k as int].0@,
            p.subcommands@[k as int].1@,
        ));
        k = k + 1;
    }
    let r = ParsedCommand {
        name: owned(name),
        description,
        flags: p.flags,
        subcommands,
        usage: p.usage,
        aliases: Vec::new(),
    };
    proof {
        lemma_command_view(r);
    }
    assert(r@.subcommands =~= help_fold(lines(help_text@)).subcommands.map_values(
        |q: (Seq<char>, Seq<char>)| leaf_command(q.0, q.1),
    ));
    assert(r@.aliases =~= Seq::<Seq<char>>::empty());
    r
}

// ---------------------------------------------------------------------------
// Required flags
// ---------------------------------------------------------------------------

/// A flag is required when the usage names `--name` and never `[--name`.
pub open spec fn required_in(usage: Seq<char>, long: Seq<char>) -> bool {
    let name = strip_all_prefix(long, seq!['-']);
    contains(usage, seq!['-', '-'] + name) && !contains(usage, seq!['[', '-', '-'] + name)
}

pub open spec fn mark_flag(usage: Seq<char>, f: FlagView) -> FlagView {
    match f.long {
        Some(long) => if required_in(usage, long) {
            FlagView { required: true, ..f }
        } else {
            f
        },
        None => f,
    }
}

/// `mark_required_flags` on a command model: every flag marked against the
/// command's own usage, recursively through subcommands.
pub open spec fn marked(c: CommandView) -> CommandView
    decreases c,
{
    CommandView {
        flags: c.flags.map_values(|f: FlagView| mark_flag(c.usage, f)),
        subcommands: Seq::new(
            c.subcommands.len(),
            |i: int|
                {
                    if 0 <= i < c.subcommands.len() {
                        marked(c.subcommands[i])
                    } else {
                        arbitrary()
                    }
                },
        ),
        ..c
    }
}

fn is_required(usage: &Vec<char>, long: &str) -> (b: bool)
    ensures
        b == required_in(usage@, long@),
{
    let lv = chars_of(long);
    let dash: Vec<char> = vec!['-'];
    assert(dash@ =~= seq!['-']);
    let start = strip_all_prefix_from(&lv, &dash, 0);
    assert(lv@.skip(0) =~= lv@);
    let mut req: Vec<char> = vec!['-', '-'];
    let mut opt: Vec<char> = vec!['[', '-', '-'];
    let mut k = start;
    while k < lv.len()
        invariant
            start <= k <= lv@.len(),
            req@ == seq!['-', '-'] + lv@.subrange(start as int, k as int),
            opt@ == seq!['[', '-', '-'] + lv@.subrange(start as int, k as int),
        decreases lv@.len() - k,
    {
        req.push(lv[k]);
        opt.push(lv[k]);
        assert(lv@.subrange(start as int, k + 1) =~= lv@.subrange(start as int, k as int).push(
            lv@[k as int],
        ));
        k = k + 1;
    }
    assert(lv@.subrange(start as int, lv@.len() as int) =~= lv@.skip(start as int));
    let has_req = find_seq(usage, &req, 0);
    let has_opt = find_seq(usage, &opt, 0);
    proof {
        lemma_next_occ(usage@, req@, 0);
        lemma_next_occ(usage@, opt@, 0);
    }
    has_req.is_some() && has_opt.is_none()
}

/// Determine if a flag is required by checking the usage string.
pub fn mark_required_flags(cmd: &mut ParsedCommand)
    ensures
        final(cmd)@ == marked(old(cmd)@),
    decreases *old(cmd),
{
    proof {
        lemma_command_view(*old(cmd));
    }
    let usage = chars_of(cmd.usage.as_str());
    let n = cmd.flags.len();
    let mut i: usize = 0;
    while i < n
        invariant
            n == cmd.flags@.len() == old(cmd).flags@.len(),
            i <= n,
            usage@ == old(cmd).usage@,
            cmd.usage == old(cmd).usage,
            cmd.name == old(cmd).name,
            cmd.description == old(cmd).description,
            cmd.subcommands == old(cmd).subcommands,
            cmd.aliases == old(cmd).aliases,
            forall|j: int|
                0 <= j < i ==> #[trigger] cmd.flags@[j]@ == mark_flag(
                    usage@,
                    old(cmd).flags@[j]@,
                ),
            forall|j: int| i <= j < n ==> #[trigger] cmd.flags@[j] == old(cmd).flags@[j],
        decreases n - i,
    {
        let req = match &cmd.flags[i].long {
            Some(long) => is_required(&usage, long.as_str()),
            None => false,
        };
        if req {
            let f = &mut cmd.flags[i];
            f.required = true;
        }
        i = i + 1;
    }
    assert(flag_views(cmd.flags@) =~= old(cmd)@.flags.map_values(
        |f: FlagView| mark_flag(old(cmd)@.usage, f),
    ));
    let m = cmd.subcommands.len();
    let mut j: usize = 0;
    while j < m
        invariant
            m == cmd.subcommands@.len() == old(cmd).subcommands@.len(),
            j <= m,
            cmd.usage == old(cmd).usage,
            cmd.name == old(cmd).name,
            cmd.description == old(cmd).description,
            cmd.aliases == old(cmd).aliases,
            flag_views(cmd.flags@) == old(cmd)@.flags.map_values(
                |f: FlagView| mark_flag(old(cmd)@.usage, f),
            ),
            forall|k: int|
                0 <= k < j ==> #[trigger] cmd.subcommands@[k]@ == marked(
                    old(cmd).subcommands@[k]@,
                ),
            forall|k: int| j <= k < m ==> #[trigger] cmd.subcommands@[k] == old(cmd).subcommands@[k],
        decreases m - j,
    {
        assert(decreases_to!(*old(cmd) => old(cmd).subcommands));
        assert(decreases_to!(old(cmd).subcommands => old(cmd).subcommands@));
        assert(decreases_to!(old(cmd).subcommands@ => old(cmd).subcommands@[j as int]));
        let sub = &mut cmd.subcommands[j];
        mark_required_flags(sub);
        j = j + 1;
    }
    proof {
        lemma_command_view(*cmd);
    }
    assert(cmd@.subcommands =~= marked(old(cmd)@).subcommands);
}


// ---------------------------------------------------------------------------
// Crawling a binary's help, one `--help` run at a time
// ---------------------------------------------------------------------------

/// A subcommand whose nested subcommands are being read.
#[verifier::ext_equal]
pub struct SubView {
    pub command: CommandView,
    pub nested: Seq<Seq<char>>,
    pub next: int,
    pub parsed: Seq<CommandView>,
}

/// Where a crawl stands: the root command, its subcommand names, the next
/// one to read, the one being read, and those read so far.
#[verifier::ext_equal]
pub struct CrawlView {
    pub root: CommandView,
    pub names: Seq<Seq<char>>,
    pub next: int,
    pub current: Option<SubView>,
    pub done: Seq<CommandView>,
}

pub open spec fn command_views(v: Seq<ParsedCommand>) -> Seq<CommandView> {
    v.map_values(|c: ParsedCommand| c@)
}

pub open spec fn sub_names(c: CommandView) -> Seq<Seq<char>> {
    c.subcommands.map_values(|s: CommandView| s.name)
}

pub open spec fn with_subs(c: CommandView, subs: Seq<CommandView>) -> CommandView {
    CommandView { subcommands: subs, ..c }
}

pub open spec fn crawl_wf(v: CrawlView) -> bool {
    &&& 0 <= v.next <= v.names.len()
    &&& v.current matches Some(s) ==> v.next < v.names.len() && 0 <= s.next < s.nested.len()
}

/// The arguments of the next `--help` run, if the crawl needs one:
/// `[sub]` to read a subcommand, `[sub, nested]` to read a nested one.
pub open spec fn crawl_request(v: CrawlView) -> Option<Seq<Seq<char>>> {
    match v.current {
        Some(s) => Some(seq![v.names[v.next], s.nested[s.next]]),
        None => if v.next < v.names.len() {
            Some(seq![v.names[v.next]])
        } else {
            None
        },
    }
}

/// The crawl after the requested run: a help text (`Some`) is parsed; a
/// failed run (`None`) skips that command. A subcommand's nested
/// subcommands are read one level deep, then it joins the done list.
pub open spec fn crawl_step(v: CrawlView, out: Option<Seq<char>>) -> CrawlView {
    match v.current {
        None => match out {
            None => CrawlView { next: v.next + 1, ..v },
            Some(h) => {
                let c = help_command(v.names[v.next], h);
                if sub_names(c).len() == 0 {
                    CrawlView { next: v.next + 1, done: v.done.push(with_subs(c, seq![])), ..v }
                } else {
                    CrawlView { current: Some(SubView { command: c, nested: sub_names(c), next: 0, parsed: seq![] }), ..v }
                }
            },
        },
        Some(s) => {
            let parsed = match out {
                Some(h) => s.parsed.push(help_command(s.nested[s.next], h)),
                None => s.parsed,
            };
            if s.next + 1 < s.nested.len() {
                CrawlView { current: Some(SubView { next: s.next + 1, parsed, ..s }), ..v }
            } else {
                CrawlView { next: v.next + 1, current: None, done: v.done.push(with_subs(s.command, parsed)), ..v }
            }
        },
    }
}

/// A subcommand being read.
struct SubCrawl {
    command: ParsedCommand,
    nested: Vec<String>,
    next: usize,
    parsed: Vec<ParsedCommand>,
}

/// A crawl of a binary's `--help` output: the root help, then each
/// subcommand's, then each of their subcommands'. The caller runs the
/// binary with the arguments `next_args` names and feeds back what it
/// printed (or that it failed); `finish` gives the parsed tree.
pub struct HelpCrawl {
    root: ParsedCommand,
    names: Vec<String>,
    next: usize,
    current: Option<SubCrawl>,
    done: Vec<ParsedCommand>,
}

impl View for HelpCrawl {
    type V = CrawlView;

    closed spec fn view(&self) -> CrawlView {
        CrawlView {
            root: self.root@,
            names: views(self.names@),
            next: self.next as int,
            current: match self.current {
                Some(s) => Some(SubView {
                    command: s.command@,
                    nested: views(s.nested@),
                    next: s.next as int,
                    parsed: command_views(s.parsed@),
                }),
                None => None,
            },
            done: command_views(self.done@),
        }
    }
}

fn subcommand_names(c: &ParsedCommand) -> (r: Vec<String>)
    ensures
        views(r@) == sub_names(c@),
{
    proof {
        lemma_command_view(*c);
    }
    let mut r: Vec<String> = Vec::new();
    let mut i: usize = 0;
    while i < c.subcommands.len()
        invariant
            i <= c.subcommands@.len(),
            c@.subcommands.len() == c.subcommands@.len(),
            forall|k: int| 0 <= k < c.subcommands@.len() ==> #[trigger] c@.subcommands[k] == c.subcommands@[k]@,
            views(r@) == sub_names(c@).take(i as int),
        decreases c.subcommands@.len() - i,
    {
        let ghost r0 = views(r@);
        proof {
            lemma_command_view(c.subcommands@[i as int]);
        }
        r.push(owned(c.subcommands[i].name.as_str()));
        assert(views(r@) =~= r0.push(sub_names(c@)[i as int]));
        assert(sub_names(c@).take(i + 1) =~= sub_names(c@).take(i as int).push(sub_names(c@)[i as int]));
        i = i + 1;
    }
    assert(sub_names(c@).take(c.subcommands@.len() as int) =~= sub_names(c@));
    r
}

fn set_subcommands(c: ParsedCommand, subs: Vec<ParsedCommand>) -> (r: ParsedCommand)
    ensures
        r@ == with_subs(c@, command_views(subs@)),
{
    proof {
        lemma_command_view(c);
    }
    let r = ParsedCommand {
        name: c.name,
        description: c.description,
        flags: c.flags,
        subcommands: subs,
        usage: c.usage,
        aliases: c.aliases,
    };
    proof {
        lemma_command_view(r);
        assert(r@.subcommands =~= command_views(subs@));
    }
    r
}

fn args1(a: &String) -> (r: Vec<String>)
    ensures
        views(r@) == seq![a@],
{
    let r = vec![owned(a.as_str())];
    assert(views(r@) =~= seq![a@]);
    r
}

fn args2(a: &String, b: &String) -> (r: Vec<String>)
    ensures
        views(r@) == seq![a@, b@],
{
    let r = vec![owned(a.as_str()), owned(b.as_str())];
    assert(views(r@) =~= seq![a@, b@]);
    r
}

impl HelpCrawl {
    /// Begin a crawl from the root's help text, read under the binary's
    /// name.
    pub fn start(name: &str, root_help: &str) -> (r: Self)
        ensures
            r@.root == help_command(name@, root_help@),
            r@.names == sub_names(help_command(name@, root_help@)),
            r@.next == 0,
            r@.current is None,
            r@.done.len() == 0,
            crawl_wf(r@),
    {
        let root = parse_help_text(name, root_help);
        let names = subcommand_names(&root);
        let r = HelpCrawl { root, names, next: 0, current: None, done: Vec::new() };
        assert(command_views(r.done@) =~= Seq::<CommandView>::empty());
        r
    }

    /// The arguments of the next `--help` run, or `None` when the crawl is
    /// complete.
    pub fn next_args(&self) -> (r: Option<Vec<String>>)
        requires
            crawl_wf(self@),
        ensures
            match r {
                Some(a) => crawl_request(self@) == Some(views(a@)),
                None => crawl_request(self@) is None,
            },
    {
        match &self.current {
            Some(s) => Some(args2(&self.names[self.next], &s.nested[s.next])),
            None => if self.next < self.names.len() {
                Some(args1(&self.names[self.next]))
            } else {
                None
            },
        }
    }

    /// Feed back what the requested run printed, or `None` when it failed.
    pub fn feed(&mut self, output: Option<&str>)
        requires
            crawl_wf(old(self)@),
            crawl_request(old(self)@) is Some,
        ensures
            crawl_wf(final(self)@),
            final(self)@ == crawl_step(old(self)@, match output {
                Some(h) => Some(h@),
                None => None,
            }),
    {
        let ghost v0 = self@;
        let n = self.names.len();
        assert(v0.names.len() == n);
        match self.current.take() {
            None => {
                assert(self.next < n);
                match output {
                    None => {
                        self.next = self.next + 1;
                    },
                    Some(h) => {
                        let c = parse_help_text(self.names[self.next].as_str(), h);
                        let nested = subcommand_names(&c);
                        if nested.len() == 0 {
                            let empty: Vec<ParsedCommand> = Vec::new();
                            assert(command_views(empty@) =~= Seq::<CommandView>::empty());
                            let finished = set_subcommands(c, empty);
                            let ghost d0 = command_views(self.done@);
                            self.done.push(finished);
                            assert(command_views(self.done@) =~= d0.push(finished@));
                            self.next = self.next + 1;
                        } else {
                            self.current = Some(SubCrawl { command: c, nested, next: 0, parsed: Vec::new() });
                        }
                    },
                }
            },
            Some(mut s) => {
                let m = s.nested.len();
                assert(v0.current.unwrap().nested.len() == m);
                assert(s.next < m);
                assert(self.next < n);
                match output {
                    Some(h) => {
                        let p = parse_help_text(s.nested[s.next].as_str(), h);
                        let ghost p0 = command_views(s.parsed@);
                        s.parsed.push(p);
                        assert(command_views(s.parsed@) =~= p0.push(p@));
                    },
                    None => {},
                }
                if s.next + 1 < s.nested.len() {
                    s.next = s.next + 1;
                    self.current = Some(s);
                } else {
                    let finished = set_subcommands(s.command, s.parsed);
                    let ghost d0 = command_views(self.done@);
                    self.done.push(finished);
                    assert(command_views(self.done@) =~= d0.push(finished@));
                    self.next = self.next + 1;
                }
            },
        }
        assert(self@ =~= crawl_step(v0, match output {
            Some(h) => Some(h@),
            None => None,
        }));
    }

    /// The parsed tree: the root with the subcommands read so far.
    pub fn finish(self) -> (r: ParsedCommand)
        ensures
            r@ == with_subs(self@.root, self@.done),
    {
        set_subcommands(self.root, self.done)
    }
}

} // verus!
