//! Character-level text primitives shared by every generator and parser.
//!
//! Strings are modelled by their character sequences (`s@: Seq<char>`). Each
//! operation below has a spec function that states its result on sequences
//! and an executable function proved against it.

use vstd::prelude::*;
use vstd::string::*;

verus! {

// ---------------------------------------------------------------------------
// Character classes
// ---------------------------------------------------------------------------

/// The Unicode `White_Space` property, which `char::is_whitespace`, `str::trim`
/// and `str::split_whitespace` use.
pub open spec fn is_ws(c: char) -> bool {
    ||| ('\t' <= c && c <= '\r')
    ||| c == ' '
    ||| c == '\u{85}'
    ||| c == '\u{a0}'
    ||| c == '\u{1680}'
    ||| ('\u{2000}' <= c && c <= '\u{200a}')
    ||| c == '\u{2028}'
    ||| c == '\u{2029}'
    ||| c == '\u{202f}'
    ||| c == '\u{205f}'
    ||| c == '\u{3000}'
}

pub fn is_whitespace(c: char) -> (b: bool)
    ensures
        b == is_ws(c),
{
    ('\t' <= c && c <= '\r') || c == ' ' || c == '\u{85}' || c == '\u{a0}' || c == '\u{1680}'
        || ('\u{2000}' <= c && c <= '\u{200a}') || c == '\u{2028}' || c == '\u{2029}' || c
        == '\u{202f}' || c == '\u{205f}' || c == '\u{3000}'
}

pub open spec fn is_ascii_char(c: char) -> bool {
    (c as u32) < 128
}

pub open spec fn is_ascii_upper(c: char) -> bool {
    'A' <= c && c <= 'Z'
}

pub open spec fn is_ascii_lower(c: char) -> bool {
    'a' <= c && c <= 'z'
}

pub open spec fn is_ascii_digit(c: char) -> bool {
    '0' <= c && c <= '9'
}

pub open spec fn is_ascii_alnum(c: char) -> bool {
    is_ascii_upper(c) || is_ascii_lower(c) || is_ascii_digit(c)
}

/// ASCII upper-casing of one character; other characters are unchanged.
pub open spec fn ascii_upper(c: char) -> char {
    if is_ascii_lower(c) {
        ((c as u32) - 32) as char
    } else {
        c
    }
}

/// ASCII lower-casing of one character; other characters are unchanged.
pub open spec fn ascii_lower(c: char) -> char {
    if is_ascii_upper(c) {
        ((c as u32) + 32) as char
    } else {
        c
    }
}

/// Equality ignoring ASCII case (`char::eq_ignore_ascii_case`).
pub open spec fn ci_eq(c: char, p: char) -> bool {
    ||| c == p
    ||| is_ascii_upper(p) && c as u32 == p as u32 + 32
    ||| is_ascii_lower(p) && c as u32 + 32 == p as u32
}

pub fn eq_ignore_ascii_case(c: char, p: char) -> (b: bool)
    ensures
        b == ci_eq(c, p),
{
    c == p || ('A' <= p && p <= 'Z' && c as u32 == p as u32 + 32) || ('a' <= p && p <= 'z'
        && c as u32 + 32 == p as u32)
}

/// `s` starts with `p`, ASCII case ignored.
pub open spec fn starts_ci(s: Seq<char>, p: Seq<char>) -> bool {
    p.len() <= s.len() && forall|k: int| 0 <= k < p.len() ==> ci_eq(#[trigger] s[k], p[k])
}

pub fn vec_starts_ci(v: &Vec<char>, p: &str) -> (b: bool)
    ensures
        b == starts_ci(v@, p@),
{
    let pv = chars_of(p);
    if pv.len() > v.len() {
        return false;
    }
    let mut k: usize = 0;
    while k < pv.len()
        invariant
            pv@ == p@,
            pv@.len() <= v@.len(),
            k <= pv@.len(),
            forall|j: int| 0 <= j < k ==> ci_eq(#[trigger] v@[j], pv@[j]),
        decreases pv@.len() - k,
    {
        if !eq_ignore_ascii_case(v[k], pv[k]) {
            return false;
        }
        k = k + 1;
    }
    true
}

/// Bytes a character takes in UTF-8.
pub open spec fn utf8_width(c: char) -> nat {
    if (c as u32) < 0x80 {
        1
    } else if (c as u32) < 0x800 {
        2
    } else if (c as u32) < 0x10000 {
        3
    } else {
        4
    }
}

/// Bytes a string takes in UTF-8 (`str::len`).
pub open spec fn byte_len(s: Seq<char>) -> nat
    decreases s.len(),
{
    if s.len() == 0 {
        0
    } else {
        byte_len(s.drop_last()) + utf8_width(s.last())
    }
}

/// Byte offset `n` of `s` falls between two characters.
pub open spec fn is_char_boundary(s: Seq<char>, n: nat) -> bool {
    exists|k: int| 0 <= k <= s.len() && byte_len(#[trigger] s.take(k)) == n
}

/// Slicing the first `n` bytes of `s`, after checking `s` holds at least
/// `n` of them, does not panic.
pub open spec fn prefix_slice_ok(s: Seq<char>, n: nat) -> bool {
    byte_len(s) < n || is_char_boundary(s, n)
}

fn char_width(c: char) -> (w: usize)
    ensures
        w == utf8_width(c),
{
    let u = c as u32;
    if u < 0x80 {
        1
    } else if u < 0x800 {
        2
    } else if u < 0x10000 {
        3
    } else {
        4
    }
}

proof fn lemma_byte_len_take(s: Seq<char>, k: int)
    requires
        0 <= k < s.len(),
    ensures
        byte_len(s.take(k + 1)) == byte_len(s.take(k)) + utf8_width(s[k]),
{
    assert(s.take(k + 1).drop_last() =~= s.take(k));
}

proof fn lemma_byte_len_grows(s: Seq<char>, a: int, b: int)
    requires
        0 <= a <= b <= s.len(),
    ensures
        byte_len(s.take(a)) + (b - a) <= byte_len(s.take(b)),
    decreases b - a,
{
    if a < b {
        lemma_byte_len_grows(s, a, b - 1);
        lemma_byte_len_take(s, b - 1);
    }
}

/// Whether slicing the first `n` bytes of the string `v` (after checking
/// it holds at least `n`) would not panic.
pub fn prefix_slice_ok_exec(v: &Vec<char>, n: usize) -> (b: bool)
    ensures
        b == prefix_slice_ok(v@, n as nat),
{
    let mut acc: usize = 0;
    let mut k: usize = 0;
    let mut over = false;
    assert(v@.take(0) =~= Seq::<char>::empty());
    while k < v.len() && acc < n && !over
        invariant
            k <= v@.len(),
            acc <= n,
            acc == byte_len(v@.take(k as int)),
            forall|j: int| 0 <= j < k ==> byte_len(#[trigger] v@.take(j)) < n,
            over ==> k < v@.len() && acc < n && byte_len(v@.take(k + 1)) > n,
        decreases v@.len() - k + (if over { 0int } else { 1int }),
    {
        proof {
            lemma_byte_len_take(v@, k as int);
        }
        let w = char_width(v[k]);
        if w > n - acc {
            over = true;
        } else {
            acc = acc + w;
            k = k + 1;
        }
    }
    assert(v@.take(v@.len() as int) =~= v@);
    if over {
        assert forall|j: int| 0 <= j <= v@.len() implies byte_len(#[trigger] v@.take(j)) != n by {
            if j > k {
                lemma_byte_len_grows(v@, k + 1, j);
            }
        }
        proof {
            lemma_byte_len_grows(v@, k + 1, v@.len() as int);
        }
        false
    } else if acc == n {
        assert(byte_len(v@.take(k as int)) == n);
        true
    } else {
        assert(k == v@.len());
        true
    }
}

pub fn is_digit(c: char) -> (b: bool)
    ensures
        b == is_ascii_digit(c),
{
    '0' <= c && c <= '9'
}

/// What `char::to_uppercase` yields for a character.
pub uninterp spec fn char_upper(c: char) -> Seq<char>;

/// What `char::to_lowercase` yields for a character.
pub uninterp spec fn char_lower(c: char) -> Seq<char>;

/// What `str::to_lowercase` yields for a string.
pub uninterp spec fn str_lower(s: Seq<char>) -> Seq<char>;

/// Whether `char::is_uppercase` holds of a character.
pub uninterp spec fn char_is_upper(c: char) -> bool;

/// Appends what `char::to_uppercase` yields for `c` (one or more characters,
/// per Unicode case mapping). For an ASCII character the documented mapping
/// is the single ASCII upper-case character.
#[verifier::external_body]
pub fn push_upper(s: &mut String, c: char)
    ensures
        final(s)@ == old(s)@ + char_upper(c),
        is_ascii_char(c) ==> final(s)@ == old(s)@.push(ascii_upper(c)),
{
    s.extend(c.to_uppercase());
}

/// Appends what `char::to_lowercase` yields for `c`. For an ASCII character
/// the documented mapping is the single ASCII lower-case character.
#[verifier::external_body]
pub fn push_lower(s: &mut String, c: char)
    ensures
        final(s)@ == old(s)@ + char_lower(c),
        is_ascii_char(c) ==> final(s)@ == old(s)@.push(ascii_lower(c)),
{
    s.extend(c.to_lowercase());
}

/// `str::to_lowercase`: lower-cases a whole string per Unicode. On an ASCII
/// string the documented result is the character-wise ASCII lower-casing.
#[verifier::external_body]
pub fn to_lowercase(s: &str) -> (r: String)
    ensures
        r@ == str_lower(s@),
        (forall|i: int| 0 <= i < s@.len() ==> is_ascii_char(#[trigger] s@[i])) ==> r@ == s@.map_values(
            |c: char| ascii_lower(c),
        ),
{
    s.to_lowercase()
}

/// `char::is_uppercase` (Unicode `Uppercase` property). On an ASCII character
/// it holds exactly of `'A'..='Z'`.
#[verifier::external_body]
pub fn is_uppercase(c: char) -> (b: bool)
    ensures
        b == char_is_upper(c),
        is_ascii_char(c) ==> (b == is_ascii_upper(c)),
{
    c.is_uppercase()
}

/// Whether a character matches the regex class `\w` (Unicode: `Alphabetic`,
/// `Mark`, `Decimal_Number`, `Connector_Punctuation` or `Join_Control`).
pub uninterp spec fn char_is_word(c: char) -> bool;

/// The word characters of this project's line and stylesheet grammars: the
/// Unicode `\w` class of regular expressions.
pub open spec fn is_word(c: char) -> bool {
    char_is_word(c)
}

/// Whether `c` matches the class `\w` of the `regex` crate
/// (`regex::Regex` over the pattern `\w`, tested on the one character).
/// The contract names the result, and states what the class is on ASCII:
/// exactly `[0-9A-Za-z_]`.
#[verifier::external_body]
pub fn is_word_char(c: char) -> (b: bool)
    ensures
        b == char_is_word(c),
        is_ascii_char(c) ==> (b == (is_ascii_alnum(c) || c == '_')),
{
    let mut buf = [0u8; 4];
    regex::Regex::new(r"\w").unwrap().is_match(c.encode_utf8(&mut buf))
}

// ---------------------------------------------------------------------------
// Conversions between strings and character vectors
// ---------------------------------------------------------------------------

/// The characters of a string slice, in order.
pub fn chars_of(s: &str) -> (v: Vec<char>)
    ensures
        v@ == s@,
{
    let mut v: Vec<char> = Vec::new();
    for c in it: s.chars()
        invariant
            v@ == it.seq().take(it.index() as int),
    {
        v.push(c);
    }
    v
}

/// Appends one character to a string (`String::push`).
#[verifier::external_body]
pub fn push_char(s: &mut String, c: char)
    ensures
        final(s)@ == old(s)@.push(c),
{
    s.push(c);
}

/// Appends `v[lo..hi]` to `out`.
pub fn push_range(out: &mut String, v: &Vec<char>, lo: usize, hi: usize)
    requires
        lo <= hi <= v@.len(),
    ensures
        final(out)@ == old(out)@ + v@.subrange(lo as int, hi as int),
{
    let mut i = lo;
    while i < hi
        invariant
            lo <= i <= hi <= v@.len(),
            out@ == old(out)@ + v@.subrange(lo as int, i as int),
        decreases hi - i,
    {
        push_char(out, v[i]);
        assert(v@.subrange(lo as int, i + 1) =~= v@.subrange(lo as int, i as int).push(v@[i as int]));
        i = i + 1;
    }
}

/// A string holding `v[lo..hi]`.
pub fn string_of(v: &Vec<char>, lo: usize, hi: usize) -> (r: String)
    requires
        lo <= hi <= v@.len(),
    ensures
        r@ == v@.subrange(lo as int, hi as int),
{
    let mut r = String::new();
    push_range(&mut r, v, lo, hi);
    r
}

/// An owned copy of a string slice.
/// The characters `v[a..b]`.
pub fn sub_chars(v: &Vec<char>, a: usize, b: usize) -> (r: Vec<char>)
    requires
        a <= b <= v@.len(),
    ensures
        r@ == v@.subrange(a as int, b as int),
{
    let mut r: Vec<char> = Vec::new();
    let mut k = a;
    while k < b
        invariant
            a <= k <= b <= v@.len(),
            r@ == v@.subrange(a as int, k as int),
        decreases b - k,
    {
        r.push(v[k]);
        assert(v@.subrange(a as int, k + 1) =~= v@.subrange(a as int, k as int).push(v@[k as int]));
        k = k + 1;
    }
    r
}

pub fn owned(s: &str) -> (r: String)
    ensures
        r@ == s@,
{
    String::from_str(s)
}

/// Appends a string slice.
pub fn push_str(out: &mut String, s: &str)
    ensures
        final(out)@ == old(out)@ + s@,
{
    out.append(s);
}

// ---------------------------------------------------------------------------
// Trimming
// ---------------------------------------------------------------------------

pub open spec fn trim_start(s: Seq<char>) -> Seq<char>
    decreases s.len(),
{
    if s.len() > 0 && is_ws(s[0]) {
        trim_start(s.drop_first())
    } else {
        s
    }
}

pub open spec fn trim_end(s: Seq<char>) -> Seq<char>
    decreases s.len(),
{
    if s.len() > 0 && is_ws(s.last()) {
        trim_end(s.drop_last())
    } else {
        s
    }
}

/// `str::trim`: leading and trailing white space removed.
pub open spec fn trim(s: Seq<char>) -> Seq<char> {
    trim_end(trim_start(s))
}

/// The first index at or after `lo` (below `hi`) that is not white space.
pub fn skip_ws_from(v: &Vec<char>, lo: usize, hi: usize) -> (a: usize)
    requires
        lo <= hi <= v@.len(),
    ensures
        lo <= a <= hi,
        v@.subrange(a as int, hi as int) == trim_start(v@.subrange(lo as int, hi as int)),
        forall|k: int| lo <= k < a ==> is_ws(#[trigger] v@[k]),
        a < hi ==> !is_ws(v@[a as int]),
{
    let mut a = lo;
    while a < hi && is_whitespace(v[a])
        invariant
            lo <= a <= hi <= v@.len(),
            trim_start(v@.subrange(a as int, hi as int)) == trim_start(
                v@.subrange(lo as int, hi as int),
            ),
            forall|k: int| lo <= k < a ==> is_ws(#[trigger] v@[k]),
        decreases hi - a,
    {
        assert(v@.subrange(a as int, hi as int).drop_first() =~= v@.subrange(a + 1, hi as int));
        a = a + 1;
    }
    a
}

/// The bounds of `trim(v[lo..hi])` inside `v`.
pub fn trim_range(v: &Vec<char>, lo: usize, hi: usize) -> (r: (usize, usize))
    requires
        lo <= hi <= v@.len(),
    ensures
        lo <= r.0 <= r.1 <= hi,
        v@.subrange(r.0 as int, r.1 as int) == trim(v@.subrange(lo as int, hi as int)),
        v@.subrange(r.0 as int, hi as int) == trim_start(v@.subrange(lo as int, hi as int)),
{
    let a = skip_ws_from(v, lo, hi);
    let mut b = hi;
    while b > a && is_whitespace(v[b - 1])
        invariant
            lo <= a <= b <= hi <= v@.len(),
            trim_end(v@.subrange(a as int, b as int)) == trim_end(
                v@.subrange(a as int, hi as int),
            ),
        decreases b - a,
    {
        assert(v@.subrange(a as int, b as int).drop_last() =~= v@.subrange(a as int, b - 1));
        b = b - 1;
    }
    (a, b)
}

/// `str::trim` as an owned string.
pub fn trim_str(s: &str) -> (r: String)
    ensures
        r@ == trim(s@),
{
    let v = chars_of(s);
    let (a, b) = trim_range(&v, 0, v.len());
    assert(v@.subrange(0, v@.len() as int) =~= v@);
    string_of(&v, a, b)
}

/// `str::trim_end` as an owned string.
pub fn trim_end_str(s: &str) -> (r: String)
    ensures
        r@ == trim_end(s@),
{
    let v = chars_of(s);
    let mut b = v.len();
    assert(v@.take(v@.len() as int) =~= v@);
    while b > 0 && is_whitespace(v[b - 1])
        invariant
            b <= v@.len(),
            trim_end(v@.take(b as int)) == trim_end(v@),
        decreases b,
    {
        assert(v@.take(b as int).drop_last() =~= v@.take(b - 1));
        b = b - 1;
    }
    assert(v@.take(v@.len() as int) =~= v@);
    let r = string_of(&v, 0, b);
    assert(v@.subrange(0, b as int) =~= v@.take(b as int));
    r
}

/// Trimming the start drops a prefix and leaves no leading white space.
pub proof fn lemma_trim_start_len(s: Seq<char>)
    ensures
        trim_start(s).len() <= s.len(),
        trim_start(s).len() == 0 || !is_ws(trim_start(s)[0]),
        trim_start(s) == s.skip(s.len() - trim_start(s).len()),
    decreases s.len(),
{
    if s.len() > 0 && is_ws(s[0]) {
        lemma_trim_start_len(s.drop_first());
        assert(s.drop_first().skip(s.drop_first().len() - trim_start(s).len()) =~= s.skip(
            s.len() - trim_start(s).len(),
        ));
    } else {
        assert(s.skip(0) =~= s);
    }
}

/// Trimming the end drops a suffix and leaves no trailing white space.
pub proof fn lemma_trim_end_len(s: Seq<char>)
    ensures
        trim_end(s).len() <= s.len(),
        trim_end(s).len() == 0 || !is_ws(trim_end(s).last()),
        trim_end(s) == s.take(trim_end(s).len() as int),
    decreases s.len(),
{
    if s.len() > 0 && is_ws(s.last()) {
        lemma_trim_end_len(s.drop_last());
        assert(s.drop_last().take(trim_end(s).len() as int) =~= s.take(trim_end(s).len() as int));
    } else {
        assert(s.take(s.len() as int) =~= s);
    }
}

/// A trimmed sequence is empty exactly when every character is white space.
pub proof fn lemma_trim_empty(s: Seq<char>)
    ensures
        (trim(s).len() == 0) <==> (forall|i: int| 0 <= i < s.len() ==> is_ws(#[trigger] s[i])),
    decreases s.len(),
{
    lemma_trim_start_len(s);
    lemma_trim_end_len(trim_start(s));
    lemma_trim_start_all_ws(s);
    if trim(s).len() == 0 {
        if trim_start(s).len() > 0 {
            assert(!is_ws(trim_start(s)[0]));
            lemma_trim_end_keeps_first(trim_start(s));
        }
    }
}

proof fn lemma_trim_start_all_ws(s: Seq<char>)
    ensures
        (trim_start(s).len() == 0) <==> (forall|i: int| 0 <= i < s.len() ==> is_ws(#[trigger] s[i])),
    decreases s.len(),
{
    if s.len() > 0 && is_ws(s[0]) {
        lemma_trim_start_all_ws(s.drop_first());
        if trim_start(s).len() == 0 {
            assert forall|i: int| 0 <= i < s.len() implies is_ws(#[trigger] s[i]) by {
                if i > 0 {
                    assert(s.drop_first()[i - 1] == s[i]);
                }
            }
        } else {
            assert(!is_ws(s.drop_first()[0]) || exists|i: int| 0 <= i < s.drop_first().len() && !is_ws(s.drop_first()[i]));
            let i = choose|i: int| 0 <= i < s.drop_first().len() && !is_ws(#[trigger] s.drop_first()[i]);
            assert(s[i + 1] == s.drop_first()[i]);
        }
    } else if s.len() > 0 {
        assert(!is_ws(s[0]));
    }
}

proof fn lemma_trim_end_keeps_first(s: Seq<char>)
    requires
        s.len() > 0,
        !is_ws(s[0]),
    ensures
        trim_end(s).len() > 0,
    decreases s.len(),
{
    if is_ws(s.last()) {
        assert(s.len() > 1);
        lemma_trim_end_keeps_first(s.drop_last());
    }
}

// ---------------------------------------------------------------------------
// Prefixes and substrings
// ---------------------------------------------------------------------------

pub open spec fn starts_with(s: Seq<char>, p: Seq<char>) -> bool {
    p.len() <= s.len() && s.take(p.len() as int) == p
}

pub open spec fn ends_with(s: Seq<char>, p: Seq<char>) -> bool {
    p.len() <= s.len() && s.skip(s.len() - p.len()) == p
}

/// `p` occurs in `s` starting at index `i`.
pub open spec fn occurs_at(s: Seq<char>, p: Seq<char>, i: int) -> bool {
    0 <= i && i + p.len() <= s.len() && s.subrange(i, i + p.len()) == p
}

pub open spec fn contains(s: Seq<char>, p: Seq<char>) -> bool {
    exists|i: int| occurs_at(s, p, i)
}

/// Whether `p` occurs in `v` at index `i`.
pub fn matches_at(v: &Vec<char>, p: &Vec<char>, i: usize) -> (b: bool)
    ensures
        b == occurs_at(v@, p@, i as int),
{
    if i > v.len() || p.len() > v.len() - i {
        return false;
    }
    let n = v.len();
    let mut k: usize = 0;
    while k < p.len()
        invariant
            n == v@.len(),
            i + p@.len() <= v@.len(),
            k <= p@.len(),
            forall|j: int| 0 <= j < k ==> v@[i + j] == p@[j],
        decreases p@.len() - k,
    {
        assert(i + k < n);
        if v[i + k] != p[k] {
            assert(v@.subrange(i as int, i + p@.len())[k as int] != p@[k as int]);
            return false;
        }
        k = k + 1;
    }
    assert(v@.subrange(i as int, i + p@.len()) =~= p@);
    true
}

pub fn vec_starts_with(v: &Vec<char>, p: &Vec<char>) -> (b: bool)
    ensures
        b == starts_with(v@, p@),
{
    let b = matches_at(v, p, 0);
    assert(v@.take(p@.len() as int) =~= v@.subrange(0, p@.len() as int));
    b
}

pub fn str_starts_with(s: &str, p: &str) -> (b: bool)
    ensures
        b == starts_with(s@, p@),
{
    let v = chars_of(s);
    let q = chars_of(p);
    vec_starts_with(&v, &q)
}

pub fn str_ends_with(s: &str, p: &str) -> (b: bool)
    ensures
        b == ends_with(s@, p@),
{
    let v = chars_of(s);
    let q = chars_of(p);
    if q.len() > v.len() {
        return false;
    }
    let b = matches_at(&v, &q, v.len() - q.len());
    assert(v@.skip(v@.len() - q@.len()) =~= v@.subrange(
        v@.len() - q@.len(),
        v@.len() - q@.len() + q@.len(),
    ));
    b
}

/// The first occurrence of `p` in `v` at or after `from`, if any.
pub fn find_from(v: &Vec<char>, p: &Vec<char>, from: usize) -> (r: Option<usize>)
    ensures
        r matches Some(i) ==> from <= i && occurs_at(v@, p@, i as int) && forall|j: int|
            from <= j < i ==> !occurs_at(v@, p@, j),
        r is None ==> forall|j: int| from <= j ==> !occurs_at(v@, p@, j),
{
    if from > v.len() {
        return None;
    }
    let mut i = from;
    loop
        invariant
            from <= i <= v@.len(),
            forall|j: int| from <= j < i ==> !occurs_at(v@, p@, j),
        decreases v@.len() - i,
    {
        if matches_at(v, p, i) {
            return Some(i);
        }
        if i >= v.len() {
            assert forall|j: int| from <= j implies !occurs_at(v@, p@, j) by {
                if j > v@.len() {
                    assert(!occurs_at(v@, p@, j));
                }
            }
            return None;
        }
        i = i + 1;
    }
}

pub fn str_contains(s: &str, p: &str) -> (b: bool)
    ensures
        b == contains(s@, p@),
{
    let v = chars_of(s);
    let q = chars_of(p);
    match find_from(&v, &q, 0) {
        Some(_) => true,
        None => false,
    }
}

/// Whether character `c` occurs in `s`.
pub open spec fn has_char(s: Seq<char>, c: char) -> bool {
    exists|i: int| 0 <= i < s.len() && s[i] == c
}

/// The index of the first `c` in `s` at or after `i`, or `s.len()`.
pub open spec fn next_char(s: Seq<char>, c: char, i: int) -> int
    decreases s.len() - i,
{
    if i < 0 || i >= s.len() {
        s.len() as int
    } else if s[i] == c {
        i
    } else {
        next_char(s, c, i + 1)
    }
}

/// The next `c` from `i` is the first at or after `i`, or the end.
pub proof fn lemma_next_char(s: Seq<char>, c: char, i: int)
    requires
        0 <= i <= s.len(),
    ensures
        i <= next_char(s, c, i) <= s.len(),
        next_char(s, c, i) < s.len() ==> s[next_char(s, c, i)] == c,
        forall|k: int| i <= k < next_char(s, c, i) ==> s[k] != c,
    decreases s.len() - i,
{
    if i < s.len() && s[i] != c {
        lemma_next_char(s, c, i + 1);
    }
}

/// Exec form of `next_char`.
pub fn find_char(v: &Vec<char>, c: char, from: usize) -> (r: usize)
    requires
        from <= v@.len(),
    ensures
        r == next_char(v@, c, from as int),
        from <= r <= v@.len(),
{
    let mut i = from;
    while i < v.len() && v[i] != c
        invariant
            from <= i <= v@.len(),
            next_char(v@, c, i as int) == next_char(v@, c, from as int),
        decreases v@.len() - i,
    {
        i = i + 1;
    }
    proof {
        lemma_next_char(v@, c, from as int);
    }
    i
}

pub fn str_has_char(s: &str, c: char) -> (b: bool)
    ensures
        b == has_char(s@, c),
{
    let v = chars_of(s);
    let i = find_char(&v, c, 0);
    proof {
        lemma_next_char(v@, c, 0);
    }
    i < v.len()
}


/// Whether two character vectors are equal.
pub fn vec_eq(a: &Vec<char>, b: &Vec<char>) -> (r: bool)
    ensures
        r == (a@ == b@),
{
    if a.len() != b.len() {
        return false;
    }
    let mut i: usize = 0;
    while i < a.len()
        invariant
            a@.len() == b@.len(),
            i <= a@.len(),
            forall|j: int| 0 <= j < i ==> a@[j] == b@[j],
        decreases a@.len() - i,
    {
        if a[i] != b[i] {
            return false;
        }
        i = i + 1;
    }
    assert(a@ =~= b@);
    true
}

/// Whether a character vector spells the string `s`.
pub fn vec_is(a: &Vec<char>, s: &str) -> (r: bool)
    ensures
        r == (a@ == s@),
{
    let b = chars_of(s);
    vec_eq(a, &b)
}

/// The index of the first occurrence of `p` in `s` at or after `i`, or -1.
pub open spec fn next_occ(s: Seq<char>, p: Seq<char>, i: int) -> int
    decreases s.len() + 1 - i,
{
    if i < 0 || i + p.len() > s.len() {
        -1
    } else if occurs_at(s, p, i) {
        i
    } else {
        next_occ(s, p, i + 1)
    }
}

/// The next occurrence of `p` from `i` is the first at or after `i`, or -1 when there is none.
pub proof fn lemma_next_occ(s: Seq<char>, p: Seq<char>, i: int)
    requires
        0 <= i,
    ensures
        next_occ(s, p, i) == -1 || (i <= next_occ(s, p, i) && occurs_at(s, p, next_occ(s, p, i))),
        next_occ(s, p, i) == -1 ==> forall|j: int| i <= j ==> !occurs_at(s, p, j),
        next_occ(s, p, i) != -1 ==> forall|j: int| i <= j < next_occ(s, p, i) ==> !occurs_at(s, p, j),
    decreases s.len() + 1 - i,
{
    if i + p.len() <= s.len() && !occurs_at(s, p, i) {
        lemma_next_occ(s, p, i + 1);
        assert forall|j: int| i <= j && (next_occ(s, p, i) == -1 || j < next_occ(s, p, i)) implies !occurs_at(s, p, j) by {
            if j > i {
            }
        }
    }
}

/// Exec form of `next_occ`.
pub fn find_seq(v: &Vec<char>, p: &Vec<char>, from: usize) -> (r: Option<usize>)
    ensures
        match r {
            Some(i) => i as int == next_occ(v@, p@, from as int),
            None => next_occ(v@, p@, from as int) == -1,
        },
{
    if p.len() > v.len() || from > v.len() - p.len() {
        return None;
    }
    let last = v.len() - p.len();
    let mut i = from;
    while i < last && !matches_at(v, p, i)
        invariant
            from <= i <= last,
            last + p@.len() == v@.len(),
            next_occ(v@, p@, i as int) == next_occ(v@, p@, from as int),
        decreases last - i,
    {
        i = i + 1;
    }
    if matches_at(v, p, i) {
        Some(i)
    } else {
        assert(next_occ(v@, p@, i + 1) == -1);
        None
    }
}

/// `s` with every leading copy of `p` removed (`str::trim_start_matches`).
pub open spec fn strip_all_prefix(s: Seq<char>, p: Seq<char>) -> Seq<char>
    decreases s.len(),
{
    if p.len() > 0 && starts_with(s, p) {
        strip_all_prefix(s.skip(p.len() as int), p)
    } else {
        s
    }
}

/// The start of `strip_all_prefix(v[from..], p)` inside `v`.
pub fn strip_all_prefix_from(v: &Vec<char>, p: &Vec<char>, from: usize) -> (r: usize)
    requires
        from <= v@.len(),
    ensures
        from <= r <= v@.len(),
        v@.skip(r as int) == strip_all_prefix(v@.skip(from as int), p@),
{
    if p.len() == 0 {
        return from;
    }
    let mut i = from;
    let n = v.len();
    while matches_at(v, p, i)
        invariant
            n == v@.len(),
            from <= i <= v@.len(),
            p@.len() > 0,
            strip_all_prefix(v@.skip(i as int), p@) == strip_all_prefix(v@.skip(from as int), p@),
        decreases v@.len() - i,
    {
        assert(v@.skip(i as int).take(p@.len() as int) =~= v@.subrange(i as int, i + p@.len()));
        assert(v@.skip(i as int).skip(p@.len() as int) =~= v@.skip(i + p@.len()));
        assert(i + p@.len() <= n);
        i = i + p.len();
    }
    assert(!starts_with(v@.skip(i as int), p@)) by {
        if p@.len() <= v@.skip(i as int).len() {
            assert(v@.skip(i as int).take(p@.len() as int) =~= v@.subrange(i as int, i + p@.len()));
        }
    }
    i
}

// ---------------------------------------------------------------------------
// Character-wise escaping
// ---------------------------------------------------------------------------

/// The escaping schemes the generators apply to text they embed.
#[derive(Clone, Copy, PartialEq, Eq)]
pub enum Escape {
    /// JavaScript single-quoted string body: `\`, `'` and newline escaped.
    JsString,
    /// HTML attribute text: `& < > " '` as entities.
    Html,
    /// MDX free text: `& < > { }` as entities.
    MdxText,
    /// Markdown table cell: `|` backslash-escaped.
    TableCell,
    /// YAML double-quoted scalar: `"` backslash-escaped.
    Quote,
}

/// The replacement text for one character under an escaping scheme.
pub open spec fn escape_char(e: Escape, c: char) -> Seq<char> {
    match e {
        Escape::JsString => if c == '\\' {
            seq!['\\', '\\']
        } else if c == '\'' {
            seq!['\\', '\'']
        } else if c == '\n' {
            seq!['\\', 'n']
        } else {
            seq![c]
        },
        Escape::Html => if c == '&' {
            seq!['&', 'a', 'm', 'p', ';']
        } else if c == '<' {
            seq!['&', 'l', 't', ';']
        } else if c == '>' {
            seq!['&', 'g', 't', ';']
        } else if c == '"' {
            seq!['&', 'q', 'u', 'o', 't', ';']
        } else if c == '\'' {
            seq!['&', '#', 'x', '2', '7', ';']
        } else {
            seq![c]
        },
        Escape::MdxText => if c == '&' {
            seq!['&', 'a', 'm', 'p', ';']
        } else if c == '<' {
            seq!['&', 'l', 't', ';']
        } else if c == '>' {
            seq!['&', 'g', 't', ';']
        } else if c == '{' {
            seq!['&', '#', '1', '2', '3', ';']
        } else if c == '}' {
            seq!['&', '#', '1', '2', '5', ';']
        } else {
            seq![c]
        },
        Escape::TableCell => if c == '|' {
            seq!['\\', '|']
        } else {
            seq![c]
        },
        Escape::Quote => if c == '"' {
            seq!['\\', '"']
        } else {
            seq![c]
        },
    }
}

/// Every character of `s` replaced by its escape.
pub open spec fn escaped(e: Escape, s: Seq<char>) -> Seq<char>
    decreases s.len(),
{
    if s.len() == 0 {
        seq![]
    } else {
        escaped(e, s.drop_last()) + escape_char(e, s.last())
    }
}

fn push_seq_chars(out: &mut String, cs: &[char])
    ensures
        final(out)@ == old(out)@ + cs@,
{
    let mut i: usize = 0;
    while i < cs.len()
        invariant
            i <= cs@.len(),
            out@ == old(out)@ + cs@.take(i as int),
        decreases cs@.len() - i,
    {
        push_char(out, cs[i]);
        assert(cs@.take(i + 1) =~= cs@.take(i as int).push(cs@[i as int]));
        i = i + 1;
    }
    assert(cs@.take(cs@.len() as int) =~= cs@);
}

fn push_escaped_char(out: &mut String, e: Escape, c: char)
    ensures
        final(out)@ == old(out)@ + escape_char(e, c),
{
    match e {
        Escape::JsString => {
            if c == '\\' {
                push_seq_chars(out, &['\\', '\\']);
            } else if c == '\'' {
                push_seq_chars(out, &['\\', '\'']);
            } else if c == '\n' {
                push_seq_chars(out, &['\\', 'n']);
            } else {
                push_char(out, c);
            }
        },
        Escape::Html => {
            if c == '&' {
                push_seq_chars(out, &['&', 'a', 'm', 'p', ';']);
            } else if c == '<' {
                push_seq_chars(out, &['&', 'l', 't', ';']);
            } else if c == '>' {
                push_seq_chars(out, &['&', 'g', 't', ';']);
            } else if c == '"' {
                push_seq_chars(out, &['&', 'q', 'u', 'o', 't', ';']);
            } else if c == '\'' {
                push_seq_chars(out, &['&', '#', 'x', '2', '7', ';']);
            } else {
                push_char(out, c);
            }
        },
        Escape::MdxText => {
            if c == '&' {
                push_seq_chars(out, &['&', 'a', 'm', 'p', ';']);
            } else if c == '<' {
                push_seq_chars(out, &['&', 'l', 't', ';']);
            } else if c == '>' {
                push_seq_chars(out, &['&', 'g', 't', ';']);
            } else if c == '{' {
                push_seq_chars(out, &['&', '#', '1', '2', '3', ';']);
            } else if c == '}' {
                push_seq_chars(out, &['&', '#', '1', '2', '5', ';']);
            } else {
                push_char(out, c);
            }
        },
        Escape::TableCell => {
            if c == '|' {
                push_seq_chars(out, &['\\', '|']);
            } else {
                push_char(out, c);
            }
        },
        Escape::Quote => {
            if c == '"' {
                push_seq_chars(out, &['\\', '"']);
            } else {
                push_char(out, c);
            }
        },
    }
}

/// Appends `s` escaped under `e`.
pub fn push_escaped(out: &mut String, e: Escape, s: &str)
    ensures
        final(out)@ == old(out)@ + escaped(e, s@),
{
    let v = chars_of(s);
    let mut i: usize = 0;
    while i < v.len()
        invariant
            i <= v@.len(),
            v@ == s@,
            out@ == old(out)@ + escaped(e, v@.take(i as int)),
        decreases v@.len() - i,
    {
        push_escaped_char(out, e, v[i]);
        assert(v@.take(i + 1).drop_last() =~= v@.take(i as int));
        i = i + 1;
    }
    assert(v@.take(v@.len() as int) =~= v@);
}

/// `s` escaped under `e`.
pub fn escape(e: Escape, s: &str) -> (r: String)
    ensures
        r@ == escaped(e, s@),
{
    let mut r = String::new();
    push_escaped(&mut r, e, s);
    r
}

/// Escaping leaves a text unchanged when it escapes none of its characters.
pub proof fn lemma_escaped_identity(e: Escape, s: Seq<char>)
    requires
        forall|i: int| 0 <= i < s.len() ==> escape_char(e, #[trigger] s[i]) == seq![s[i]],
    ensures
        escaped(e, s) == s,
    decreases s.len(),
{
    if s.len() > 0 {
        lemma_escaped_identity(e, s.drop_last());
        assert(escape_char(e, s[s.len() - 1]) == seq![s[s.len() - 1]]);
        assert(s.drop_last().push(s.last()) =~= s);
    }
}

/// Escaping distributes over concatenation.
pub proof fn lemma_escaped_append(e: Escape, a: Seq<char>, b: Seq<char>)
    ensures
        escaped(e, a + b) == escaped(e, a) + escaped(e, b),
    decreases b.len(),
{
    if b.len() == 0 {
        assert(a + b =~= a);
    } else {
        lemma_escaped_append(e, a, b.drop_last());
        assert((a + b).drop_last() =~= a + b.drop_last());
    }
}

// ---------------------------------------------------------------------------
// Splitting and joining
// ---------------------------------------------------------------------------

/// `parts` joined with `sep` between consecutive parts (`[T]::join`).
pub open spec fn join(parts: Seq<Seq<char>>, sep: Seq<char>) -> Seq<char>
    decreases parts.len(),
{
    if parts.len() == 0 {
        seq![]
    } else if parts.len() == 1 {
        parts[0]
    } else {
        join(parts.drop_last(), sep) + sep + parts.last()
    }
}

/// The character sequences of a vector of strings.
/// The parts one after another.
pub open spec fn concat(parts: Seq<Seq<char>>) -> Seq<char>
    decreases parts.len(),
{
    if parts.len() == 0 {
        seq![]
    } else {
        concat(parts.drop_last()) + parts.last()
    }
}

pub open spec fn views(v: Seq<String>) -> Seq<Seq<char>> {
    v.map_values(|s: String| s@)
}

pub fn join_strings(parts: &[String], sep: &str) -> (r: String)
    ensures
        r@ == join(views(parts@), sep@),
{
    let mut r = String::new();
    let mut i: usize = 0;
    while i < parts.len()
        invariant
            i <= parts@.len(),
            r@ == join(views(parts@).take(i as int), sep@),
        decreases parts@.len() - i,
    {
        if i > 0 {
            push_str(&mut r, sep);
        }
        push_str(&mut r, parts[i].as_str());
        assert(views(parts@).take(i + 1).drop_last() =~= views(parts@).take(i as int));
        i = i + 1;
    }
    assert(views(parts@).take(parts@.len() as int) =~= views(parts@));
    r
}

/// Joining one more part appends the separator and the part, unless it is the first.
pub proof fn lemma_join_push(parts: Seq<Seq<char>>, sep: Seq<char>, x: Seq<char>)
    ensures
        join(parts.push(x), sep) == if parts.len() == 0 {
            x
        } else {
            join(parts, sep) + sep + x
        },
{
    assert(parts.push(x).drop_last() =~= parts);
}

/// The pieces of `s[i..]` between occurrences of `c` (`str::split(c)`).
pub open spec fn split_from(s: Seq<char>, c: char, i: int) -> Seq<Seq<char>>
    decreases s.len() + 1 - i,
{
    if i < 0 || i > s.len() {
        seq![]
    } else {
        let e = next_char(s, c, i);
        if e >= s.len() {
            seq![s.subrange(i, s.len() as int)]
        } else {
            proof {
                lemma_next_char(s, c, i);
            }
            seq![s.subrange(i, e)] + split_from(s, c, e + 1)
        }
    }
}

/// `str::split(c)`.
pub open spec fn split(s: Seq<char>, c: char) -> Seq<Seq<char>> {
    split_from(s, c, 0)
}

/// A vector of character vectors, viewed as a sequence of sequences.
pub open spec fn vviews(v: Seq<Vec<char>>) -> Seq<Seq<char>> {
    v.map_values(|x: Vec<char>| x@)
}

pub fn split_chars(v: &Vec<char>, c: char) -> (r: Vec<Vec<char>>)
    ensures
        vviews(r@) == split(v@, c),
{
    let mut r: Vec<Vec<char>> = Vec::new();
    let mut i: usize = 0;
    loop
        invariant
            i <= v@.len(),
            vviews(r@) + split_from(v@, c, i as int) == split(v@, c),
        decreases v@.len() - i,
    {
        let e = find_char(v, c, i);
        let mut piece: Vec<char> = Vec::new();
        let mut k = i;
        while k < e
            invariant
                i <= k <= e <= v@.len(),
                piece@ == v@.subrange(i as int, k as int),
            decreases e - k,
        {
            piece.push(v[k]);
            assert(v@.subrange(i as int, k + 1) =~= v@.subrange(i as int, k as int).push(v@[k as int]));
            k = k + 1;
        }
        let ghost before = r@;
        r.push(piece);
        assert(vviews(r@) =~= vviews(before).push(v@.subrange(i as int, e as int)));
        if e >= v.len() {
            assert(vviews(r@) =~= vviews(before) + split_from(v@, c, i as int));
            return r;
        }
        assert(vviews(r@) + split_from(v@, c, e + 1) =~= vviews(before) + split_from(v@, c, i as int));
        i = e + 1;
    }
}

/// The first index at or after `i` that is not white space, or `s.len()`.
pub open spec fn next_non_ws(s: Seq<char>, i: int) -> int
    decreases s.len() - i,
{
    if i < 0 || i >= s.len() {
        s.len() as int
    } else if !is_ws(s[i]) {
        i
    } else {
        next_non_ws(s, i + 1)
    }
}

/// The first index at or after `i` that is white space, or `s.len()`.
pub open spec fn next_ws(s: Seq<char>, i: int) -> int
    decreases s.len() - i,
{
    if i < 0 || i >= s.len() {
        s.len() as int
    } else if is_ws(s[i]) {
        i
    } else {
        next_ws(s, i + 1)
    }
}

/// The next non-white-space character from `i` is the first at or after `i`, or the end.
pub proof fn lemma_next_non_ws(s: Seq<char>, i: int)
    requires
        0 <= i <= s.len(),
    ensures
        i <= next_non_ws(s, i) <= s.len(),
        next_non_ws(s, i) < s.len() ==> !is_ws(s[next_non_ws(s, i)]),
        forall|k: int| i <= k < next_non_ws(s, i) ==> is_ws(s[k]),
    decreases s.len() - i,
{
    if i < s.len() && is_ws(s[i]) {
        lemma_next_non_ws(s, i + 1);
    }
}

/// The next white-space character from `i` is the first at or after `i`, or the end.
pub proof fn lemma_next_ws(s: Seq<char>, i: int)
    requires
        0 <= i <= s.len(),
    ensures
        i <= next_ws(s, i) <= s.len(),
        next_ws(s, i) < s.len() ==> is_ws(s[next_ws(s, i)]),
        forall|k: int| i <= k < next_ws(s, i) ==> !is_ws(s[k]),
    decreases s.len() - i,
{
    if i < s.len() && !is_ws(s[i]) {
        lemma_next_ws(s, i + 1);
    }
}

/// The white-space separated words of `s[i..]` (`str::split_whitespace`).
pub open spec fn words_from(s: Seq<char>, i: int) -> Seq<Seq<char>>
    decreases s.len() - i,
{
    if i < 0 || i >= s.len() {
        seq![]
    } else if is_ws(s[i]) {
        words_from(s, i + 1)
    } else {
        let e = next_ws(s, i + 1);
        proof {
            lemma_next_ws(s, i + 1);
        }
        seq![s.subrange(i, e)] + words_from(s, e)
    }
}

/// `str::split_whitespace`.
pub open spec fn words(s: Seq<char>) -> Seq<Seq<char>> {
    words_from(s, 0)
}

/// Exec form of `next_ws`.
pub fn find_ws(v: &Vec<char>, from: usize) -> (r: usize)
    requires
        from <= v@.len(),
    ensures
        r == next_ws(v@, from as int),
        from <= r <= v@.len(),
{
    let mut i = from;
    while i < v.len() && !is_whitespace(v[i])
        invariant
            from <= i <= v@.len(),
            next_ws(v@, i as int) == next_ws(v@, from as int),
        decreases v@.len() - i,
    {
        i = i + 1;
    }
    proof {
        lemma_next_ws(v@, from as int);
    }
    i
}

/// The words of `v` as strings.
pub fn split_whitespace(v: &Vec<char>) -> (r: Vec<String>)
    ensures
        views(r@) == words(v@),
{
    let mut r: Vec<String> = Vec::new();
    let mut i: usize = 0;
    while i < v.len()
        invariant
            i <= v@.len(),
            views(r@) + words_from(v@, i as int) == words(v@),
        decreases v@.len() - i,
    {
        if is_whitespace(v[i]) {
            i = i + 1;
        } else {
            let e = find_ws(v, i + 1);
            let w = string_of(v, i, e);
            let ghost before = r@;
            r.push(w);
            assert(views(r@) =~= views(before).push(v@.subrange(i as int, e as int)));
            assert(views(r@) + words_from(v@, e as int) =~= views(before) + words_from(v@, i as int));
            i = e;
        }
    }
    assert(views(r@) + words_from(v@, i as int) =~= views(r@));
    r
}

/// `str::split_whitespace` followed by `join(" ")`: runs of white space
/// collapsed to one space, leading and trailing white space dropped.
pub open spec fn normalize_ws(s: Seq<char>) -> Seq<char> {
    join(words(s), seq![' '])
}

pub fn normalize_whitespace(s: &str) -> (r: String)
    ensures
        r@ == normalize_ws(s@),
{
    let v = chars_of(s);
    let ws = split_whitespace(&v);
    let r = join_strings(&ws, " ");
    proof {
        reveal_strlit(" ");
        assert(" "@ =~= seq![' ']);
    }
    r
}

// ---------------------------------------------------------------------------
// Lines
// ---------------------------------------------------------------------------

/// One line without its `\r` of a `\r\n` ending.
pub open spec fn strip_cr(l: Seq<char>) -> Seq<char> {
    if l.len() > 0 && l.last() == '\r' {
        l.drop_last()
    } else {
        l
    }
}

/// The lines of `s[i..]` (`str::lines`): split at `\n`, a `\r` before the
/// `\n` dropped, and no empty line after a final `\n`.
pub open spec fn lines_from(s: Seq<char>, i: int) -> Seq<Seq<char>>
    decreases s.len() - i,
{
    if i < 0 || i >= s.len() {
        seq![]
    } else {
        let e = next_char(s, '\n', i);
        if e >= s.len() {
            seq![s.subrange(i, s.len() as int)]
        } else {
            proof {
                lemma_next_char(s, '\n', i);
            }
            seq![strip_cr(s.subrange(i, e))] + lines_from(s, e + 1)
        }
    }
}

/// `str::lines`.
pub open spec fn lines(s: Seq<char>) -> Seq<Seq<char>> {
    lines_from(s, 0)
}

/// The lines of `v`, as character vectors.
pub fn split_lines(v: &Vec<char>) -> (r: Vec<Vec<char>>)
    ensures
        vviews(r@) == lines(v@),
{
    let mut r: Vec<Vec<char>> = Vec::new();
    let mut i: usize = 0;
    while i < v.len()
        invariant
            i <= v@.len(),
            vviews(r@) + lines_from(v@, i as int) == lines(v@),
        decreases v@.len() - i,
    {
        let e = find_char(v, '\n', i);
        let mut end = e;
        if e < v.len() && e > i && v[e - 1] == '\r' {
            end = e - 1;
        }
        let mut piece: Vec<char> = Vec::new();
        let mut k = i;
        while k < end
            invariant
                i <= k <= end <= e <= v@.len(),
                piece@ == v@.subrange(i as int, k as int),
            decreases end - k,
        {
            piece.push(v[k]);
            assert(v@.subrange(i as int, k + 1) =~= v@.subrange(i as int, k as int).push(v@[k as int]));
            k = k + 1;
        }
        let ghost before = r@;
        r.push(piece);
        if e >= v.len() {
            assert(vviews(r@) =~= vviews(before).push(v@.subrange(i as int, v@.len() as int)));
            assert(vviews(r@) =~= vviews(before) + lines_from(v@, i as int));
            i = v.len();
        } else {
            assert(piece@ == strip_cr(v@.subrange(i as int, e as int))) by {
                if e > i && v@[e - 1] == '\r' {
                    assert(v@.subrange(i as int, e as int).drop_last() =~= v@.subrange(
                        i as int,
                        e - 1,
                    ));
                }
            }
            assert(vviews(r@) =~= vviews(before).push(strip_cr(v@.subrange(i as int, e as int))));
            assert(vviews(r@) + lines_from(v@, e + 1) =~= vviews(before) + lines_from(
                v@,
                i as int,
            ));
            i = e + 1;
        }
    }
    assert(vviews(r@) + lines_from(v@, i as int) =~= vviews(r@));
    r
}

// ---------------------------------------------------------------------------
// Numbers
// ---------------------------------------------------------------------------

/// The decimal digits of `n`, most significant first (`n.to_string()`).
pub open spec fn decimal(n: nat) -> Seq<char>
    decreases n,
{
    if n < 10 {
        seq![('0' as u32 + n) as char]
    } else {
        decimal(n / 10) + seq![('0' as u32 + (n % 10)) as char]
    }
}

pub fn push_decimal(out: &mut String, n: u64)
    ensures
        final(out)@ == old(out)@ + decimal(n as nat),
    decreases n,
{
    if n < 10 {
        let c = char_of_digit(n as u32);
        push_char(out, c);
    } else {
        push_decimal(out, n / 10);
        let c = char_of_digit((n % 10) as u32);
        push_char(out, c);
    }
}

fn char_of_digit(d: u32) -> (c: char)
    requires
        d < 10,
    ensures
        c == ('0' as u32 + d) as char,
{
    if d == 0 {
        '0'
    } else if d == 1 {
        '1'
    } else if d == 2 {
        '2'
    } else if d == 3 {
        '3'
    } else if d == 4 {
        '4'
    } else if d == 5 {
        '5'
    } else if d == 6 {
        '6'
    } else if d == 7 {
        '7'
    } else if d == 8 {
        '8'
    } else {
        '9'
    }
}

} // verus!

verus! {

// ---------------------------------------------------------------------------
// Paths
// ---------------------------------------------------------------------------

/// `Path::join` on `/`-separated paths: an absolute `b` replaces `a`,
/// otherwise `b` is appended after one separator.
pub open spec fn path_join(a: Seq<char>, b: Seq<char>) -> Seq<char> {
    if b.len() > 0 && b[0] == '/' {
        b
    } else if a.len() == 0 {
        b
    } else if a.last() == '/' {
        a + b
    } else {
        a + seq!['/'] + b
    }
}

pub fn join_path(a: &str, b: &str) -> (r: String)
    ensures
        r@ == path_join(a@, b@),
{
    let av = chars_of(a);
    let bv = chars_of(b);
    if bv.len() > 0 && bv[0] == '/' {
        return owned(b);
    }
    if av.len() == 0 {
        return owned(b);
    }
    let mut r = owned(a);
    if av[av.len() - 1] != '/' {
        push_char(&mut r, '/');
    }
    push_str(&mut r, b);
    r
}

} // verus!

verus! {

/// Whether two string slices are equal.
pub fn str_eq(a: &str, b: &str) -> (r: bool)
    ensures
        r == (a@ == b@),
{
    let av = chars_of(a);
    let bv = chars_of(b);
    vec_eq(&av, &bv)
}

} // verus!

verus! {

// ---------------------------------------------------------------------------
// Ordered sets of strings
// ---------------------------------------------------------------------------

/// `x` appended unless already present.
pub open spec fn push_unique(acc: Seq<Seq<char>>, x: Seq<char>) -> Seq<Seq<char>> {
    if acc.contains(x) {
        acc
    } else {
        acc.push(x)
    }
}

/// Each of `xs` appended in order unless already present.
pub open spec fn extend_unique(acc: Seq<Seq<char>>, xs: Seq<Seq<char>>) -> Seq<Seq<char>>
    decreases xs.len(),
{
    if xs.len() == 0 {
        acc
    } else {
        push_unique(extend_unique(acc, xs.drop_last()), xs.last())
    }
}

/// Extending without repeats keeps what was there, in place, and adds no
/// repeat.
pub proof fn lemma_extend_unique(acc: Seq<Seq<char>>, xs: Seq<Seq<char>>)
    ensures
        acc.is_prefix_of(extend_unique(acc, xs)),
        acc.no_duplicates() ==> extend_unique(acc, xs).no_duplicates(),
    decreases xs.len(),
{
    if xs.len() > 0 {
        lemma_extend_unique(acc, xs.drop_last());
        let e = extend_unique(acc, xs.drop_last());
        let x = xs.last();
        if !e.contains(x) {
            let r = e.push(x);
            assert(acc.is_prefix_of(r)) by {
                assert forall|i: int| 0 <= i < acc.len() implies acc[i] == r[i] by {
                    assert(acc[i] == e[i]);
                }
            }
            if e.no_duplicates() {
                assert forall|i: int, j: int| 0 <= i < r.len() && 0 <= j < r.len() && i != j implies r[i] != r[j] by {
                    if j == e.len() {
                        assert(r[i] == e[i]);
                    } else if i == e.len() {
                        assert(r[j] == e[j]);
                    }
                }
            }
        }
    }
}

/// Extending without repeats keeps every string already there and adds
/// every string extended with.
pub proof fn lemma_extend_unique_contains(acc: Seq<Seq<char>>, xs: Seq<Seq<char>>)
    ensures
        forall|x: Seq<char>| acc.contains(x) ==> #[trigger] extend_unique(acc, xs).contains(x),
        forall|k: int| 0 <= k < xs.len() ==> extend_unique(acc, xs).contains(#[trigger] xs[k]),
    decreases xs.len(),
{
    if xs.len() > 0 {
        let init = xs.drop_last();
        lemma_extend_unique_contains(acc, init);
        let e = extend_unique(acc, init);
        let r = extend_unique(acc, xs);
        let x = xs.last();
        assert forall|y: Seq<char>| e.contains(y) implies r.contains(y) by {
            if !e.contains(x) {
                let j = choose|j: int| 0 <= j < e.len() && e[j] == y;
                assert(r[j] == y);
            }
        }
        assert forall|y: Seq<char>| acc.contains(y) implies #[trigger] r.contains(y) by {
            assert(e.contains(y));
        }
        assert forall|k: int| 0 <= k < xs.len() implies r.contains(#[trigger] xs[k]) by {
            if k < xs.len() - 1 {
                assert(init[k] == xs[k]);
                assert(e.contains(init[k]));
            } else if !e.contains(x) {
                assert(r[e.len() as int] == x);
            }
        }
    }
}

/// Whether `v` holds a string equal to `s`.
pub fn contains_string(v: &Vec<String>, s: &str) -> (b: bool)
    ensures
        b == views(v@).contains(s@),
{
    let mut i: usize = 0;
    while i < v.len()
        invariant
            i <= v@.len(),
            forall|j: int| 0 <= j < i ==> v@[j]@ != s@,
        decreases v@.len() - i,
    {
        if str_eq(v[i].as_str(), s) {
            assert(views(v@)[i as int] == s@);
            return true;
        }
        i = i + 1;
    }
    assert(!views(v@).contains(s@)) by {
        if views(v@).contains(s@) {
            let j = choose|j: int| 0 <= j < v@.len() && #[trigger] views(v@)[j] == s@;
            assert(v@[j]@ == s@);
        }
    }
    false
}

/// Appends `s` unless `v` already holds it.
pub fn push_string_unique(v: &mut Vec<String>, s: String)
    ensures
        views(final(v)@) == push_unique(views(old(v)@), s@),
{
    if !contains_string(v, s.as_str()) {
        let ghost before = v@;
        v.push(s);
        assert(views(v@) =~= views(before).push(s@));
    }
}

/// Appends each of `xs` unless already held.
pub fn extend_strings_unique(v: &mut Vec<String>, xs: &Vec<String>)
    ensures
        views(final(v)@) == extend_unique(views(old(v)@), views(xs@)),
{
    let ghost x0 = views(xs@);
    let mut i: usize = 0;
    while i < xs.len()
        invariant
            i <= xs@.len(),
            x0 == views(xs@),
            views(v@) == extend_unique(views(old(v)@), x0.take(i as int)),
        decreases xs@.len() - i,
    {
        push_string_unique(v, xs[i].clone());
        assert(x0.take(i + 1).drop_last() =~= x0.take(i as int));
        i = i + 1;
    }
    assert(x0.take(xs@.len() as int) =~= x0);
}

/// A copy of each string, in order.
pub fn copy_strings(v: &Vec<String>) -> (r: Vec<String>)
    ensures
        views(r@) == views(v@),
{
    let mut r: Vec<String> = Vec::new();
    let mut i: usize = 0;
    while i < v.len()
        invariant
            i <= v@.len(),
            views(r@) == views(v@).take(i as int),
        decreases v@.len() - i,
    {
        let ghost r0 = views(r@);
        r.push(owned(v[i].as_str()));
        assert(views(r@) =~= r0.push(views(v@)[i as int]));
        assert(views(v@).take(i + 1) =~= views(v@).take(i as int).push(views(v@)[i as int]));
        i = i + 1;
    }
    assert(views(v@).take(v@.len() as int) =~= views(v@));
    r
}

} // verus!
