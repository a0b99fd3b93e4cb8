//! Character-level helpers shared by the views and widgets: whitespace,
//! trimming, case folding, searching and decimal rendering.
use vstd::prelude::*;

verus! {

// ---------------------------------------------------------------------------
// Building strings
// ---------------------------------------------------------------------------

/// Appends one character to a string (`String::push`).
#[verifier::external_body]
pub(crate) fn push_char(s: &mut String, c: char)
    ensures
        final(s)@ == old(s)@.push(c),
{
    s.push(c);
}

/// Appends a string slice to a string.
pub fn push_str(s: &mut String, t: &str)
    ensures
        final(s)@ == old(s)@ + t@,
{
    s.append(t);
}

/// The characters of a string slice, in order.
pub fn chars_of(s: &str) -> (out: Vec<char>)
    ensures
        out@ == s@,
{
    let mut out: Vec<char> = Vec::new();
    for c in it: s.chars()
        invariant
            out@ == it.seq().take(it.index() as int),
            it.seq() == s@,
    {
        out.push(c);
    }
    out
}

/// The string made of `chars[start..end]`.
pub fn string_from_range(chars: &Vec<char>, start: usize, end: usize) -> (out: String)
    requires
        start <= end <= chars@.len(),
    ensures
        out@ == chars@.subrange(start as int, end as int),
{
    let mut out = String::new();
    let mut i = start;
    while i < end
        invariant
            start <= i <= end <= chars@.len(),
            out@ == chars@.subrange(start as int, i as int),
        decreases end - i,
    {
        push_char(&mut out, chars[i]);
        assert(chars@.subrange(start as int, i + 1) == chars@.subrange(start as int, i as int).push(chars@[i as int]));
        i += 1;
    }
    out
}

/// The string made of all of `chars`.
pub fn string_from_chars(chars: &Vec<char>) -> (out: String)
    ensures
        out@ == chars@,
{
    let out = string_from_range(chars, 0, chars.len());
    assert(chars@.subrange(0, chars@.len() as int) == chars@);
    out
}

/// An owned copy of a string slice.
pub fn owned(s: &str) -> (out: String)
    ensures
        out@ == s@,
{
    s.to_owned()
}

// ---------------------------------------------------------------------------
// Whitespace and trimming
// ---------------------------------------------------------------------------

/// Unicode `White_Space`, as `char::is_whitespace` defines it.
pub open spec fn is_white(c: char) -> bool {
    ||| c == ' '
    ||| ('\t' <= c && c <= '\r')
    ||| c == '\u{85}'
    ||| c == '\u{a0}'
    ||| c == '\u{1680}'
    ||| ('\u{2000}' <= c && c <= '\u{200a}')
    ||| c == '\u{2028}'
    ||| c == '\u{2029}'
    ||| c == '\u{202f}'
    ||| c == '\u{205f}'
    ||| c == '\u{3000}'
}

/// Number of leading whitespace characters.
pub open spec fn lead_white(s: Seq<char>) -> nat
    decreases s.len(),
{
    if s.len() > 0 && is_white(s[0]) {
        1 + lead_white(s.drop_first())
    } else {
        0
    }
}

/// Number of trailing whitespace characters.
pub open spec fn trail_white(s: Seq<char>) -> nat
    decreases s.len(),
{
    if s.len() > 0 && is_white(s.last()) {
        1 + trail_white(s.drop_last())
    } else {
        0
    }
}

/// `s` without its leading whitespace.
pub open spec fn trim_start(s: Seq<char>) -> Seq<char> {
    s.skip(lead_white(s) as int)
}

/// `s` without its trailing whitespace.
pub open spec fn trim_end(s: Seq<char>) -> Seq<char> {
    s.take(s.len() - trail_white(s))
}

/// `s` without leading nor trailing whitespace (`str::trim`).
pub open spec fn trim(s: Seq<char>) -> Seq<char> {
    trim_end(trim_start(s))
}

/// True when the sequence holds whitespace only.
pub open spec fn all_white(s: Seq<char>) -> bool {
    forall|k: int| 0 <= k < s.len() ==> is_white(#[trigger] s[k])
}

pub fn is_white_char(c: char) -> (b: bool)
    ensures
        b == is_white(c),
{
    c == ' ' || ('\t' <= c && c <= '\r') || c == '\u{85}' || c == '\u{a0}' || c == '\u{1680}'
        || ('\u{2000}' <= c && c <= '\u{200a}') || c == '\u{2028}' || c == '\u{2029}'
        || c == '\u{202f}' || c == '\u{205f}' || c == '\u{3000}'
}

pub(crate) proof fn lemma_lead_white(s: Seq<char>, i: int)
    requires
        0 <= i <= s.len(),
        forall|k: int| 0 <= k < i ==> is_white(#[trigger] s[k]),
        i == s.len() || !is_white(s[i]),
    ensures
        lead_white(s) == i,
    decreases i,
{
    if i > 0 {
        let t = s.drop_first();
        assert forall|k: int| 0 <= k < i - 1 implies is_white(#[trigger] t[k]) by {
            assert(t[k] == s[k + 1]);
        }
        if i - 1 < t.len() {
            assert(t[i - 1] == s[i]);
        }
        lemma_lead_white(t, i - 1);
    }
}

pub(crate) proof fn lemma_trail_white(s: Seq<char>, j: int)
    requires
        0 <= j <= s.len(),
        forall|k: int| j <= k < s.len() ==> is_white(#[trigger] s[k]),
        j == 0 || !is_white(s[j - 1]),
    ensures
        trail_white(s) == s.len() - j,
    decreases s.len() - j,
{
    if j < s.len() {
        let t = s.drop_last();
        assert forall|k: int| j <= k < t.len() implies is_white(#[trigger] t[k]) by {
            assert(t[k] == s[k]);
        }
        if j > 0 {
            assert(t[j - 1] == s[j - 1]);
        }
        lemma_trail_white(t, j);
    }
}

/// Bounds of the trimmed part of `chars`: `chars[start..end] == trim(chars)`.
pub fn trim_bounds(chars: &Vec<char>) -> (r: (usize, usize))
    ensures
        r.0 <= r.1 <= chars@.len(),
        chars@.subrange(r.0 as int, r.1 as int) == trim(chars@),
        r.0 == lead_white(chars@),
{
    let n = chars.len();
    let mut i: usize = 0;
    while i < n && is_white_char(chars[i])
        invariant
            i <= n == chars@.len(),
            forall|k: int| 0 <= k < i ==> is_white(#[trigger] chars@[k]),
        decreases n - i,
    {
        i += 1;
    }
    proof {
        lemma_lead_white(chars@, i as int);
    }
    let ghost t = chars@.skip(i as int);
    let mut j: usize = n;
    while j > i && is_white_char(chars[j - 1])
        invariant
            i <= j <= n == chars@.len(),
            forall|k: int| j <= k < n ==> is_white(#[trigger] chars@[k]),
        decreases j,
    {
        j -= 1;
    }
    proof {
        assert forall|k: int| j - i <= k < t.len() implies is_white(#[trigger] t[k]) by {
            assert(t[k] == chars@[k + i]);
        }
        if j > i {
            assert(t[j - i - 1] == chars@[j - 1]);
        }
        lemma_trail_white(t, j - i);
        assert(chars@.subrange(i as int, j as int) == t.take(j - i));
    }
    (i, j)
}

/// `str::trim`, as an owned string.
pub fn trimmed(s: &str) -> (out: String)
    ensures
        out@ == trim(s@),
{
    let chars = chars_of(s);
    let (a, b) = trim_bounds(&chars);
    string_from_range(&chars, a, b)
}

/// True when `trim(s)` is empty.
pub fn is_blank(s: &str) -> (b: bool)
    ensures
        b == (trim(s@).len() == 0),
{
    let chars = chars_of(s);
    let (a, b) = trim_bounds(&chars);
    a == b
}

// ---------------------------------------------------------------------------
// Case folding
// ---------------------------------------------------------------------------

/// ASCII lower case of one character (`char::to_ascii_lowercase`).
pub open spec fn ascii_lower(c: char) -> char {
    if 'A' <= c && c <= 'Z' {
        ((c as u32) + 32) as char
    } else {
        c
    }
}

/// ASCII lower case of a sequence (`str::to_ascii_lowercase`).
pub open spec fn ascii_lower_seq(s: Seq<char>) -> Seq<char> {
    s.map_values(|c: char| ascii_lower(c))
}

/// ASCII lower case of one byte (`u8::to_ascii_lowercase`).
pub open spec fn ascii_lower_byte(b: u8) -> u8 {
    if 65 <= b && b <= 90 {
        (b + 32) as u8
    } else {
        b
    }
}

pub fn ascii_lower_char(c: char) -> (r: char)
    ensures
        r == ascii_lower(c),
{
    if 'A' <= c && c <= 'Z' {
        let code = c as u32 + 32;
        char_from_ascii_code(code)
    } else {
        c
    }
}

/// The character of an ASCII code point.
fn char_from_ascii_code(code: u32) -> (c: char)
    requires
        code < 128,
    ensures
        c == code as char,
{
    let b: u8 = code as u8;
    b as char
}

pub fn ascii_lower_u8(b: u8) -> (r: u8)
    ensures
        r == ascii_lower_byte(b),
{
    if 65 <= b && b <= 90 {
        b + 32
    } else {
        b
    }
}

/// ASCII lower case of `chars[from..to]`, as a new string.
pub fn ascii_lowercase_range(chars: &Vec<char>, from: usize, to: usize) -> (out: String)
    requires
        from <= to <= chars@.len(),
    ensures
        out@ == ascii_lower_seq(chars@.subrange(from as int, to as int)),
{
    let mut out = String::new();
    let mut i = from;
    while i < to
        invariant
            from <= i <= to <= chars@.len(),
            out@ == ascii_lower_seq(chars@.subrange(from as int, i as int)),
        decreases to - i,
    {
        let c = ascii_lower_char(chars[i]);
        push_char(&mut out, c);
        assert(ascii_lower_seq(chars@.subrange(from as int, i + 1)) =~= ascii_lower_seq(
            chars@.subrange(from as int, i as int),
        ).push(c));
        i += 1;
    }
    out
}

/// The Unicode lower case of `s`, as `str::to_lowercase` computes it.
pub uninterp spec fn unicode_lower(s: Seq<char>) -> Seq<char>;

/// `str::to_lowercase`: the lower-case mapping of the Unicode character
/// database. Its result is named, not restated: it depends on `s` alone.
#[verifier::external_body]
pub(crate) fn to_lowercase(s: &str) -> (out: String)
    ensures
        out@ == unicode_lower(s@),
{
    s.to_lowercase()
}

// ---------------------------------------------------------------------------
// Searching
// ---------------------------------------------------------------------------

/// `needle` occurs in `hay` at position `i`.
pub open spec fn occurs_at<T>(hay: Seq<T>, needle: Seq<T>, i: int) -> bool {
    0 <= i && i + needle.len() <= hay.len() && hay.subrange(i, i + needle.len()) == needle
}

/// `needle` occurs somewhere in `hay` (`str::contains`).
pub open spec fn contains_seq<T>(hay: Seq<T>, needle: Seq<T>) -> bool {
    exists|i: int| occurs_at(hay, needle, i)
}

/// Whether `needle` occurs in `hay` at position `i`, element by element.
fn matches_at(hay: &Vec<char>, needle: &Vec<char>, i: usize) -> (b: bool)
    requires
        i + needle@.len() <= hay@.len(),
    ensures
        b == occurs_at(hay@, needle@, i as int),
{
    let m = needle.len();
    let mut k: usize = 0;
    while k < m
        invariant
            k <= m == needle@.len(),
            i + m <= hay.len(),
            forall|q: int| 0 <= q < k ==> hay@[i + q] == needle@[q],
        decreases m - k,
    {
        if hay[i + k] != needle[k] {
            proof {
                assert(hay@.subrange(i as int, i + m)[k as int] != needle@[k as int]);
            }
            return false;
        }
        k += 1;
    }
    assert(hay@.subrange(i as int, i + m) == needle@);
    true
}

/// `str::contains` on character sequences.
pub fn contains_chars(hay: &Vec<char>, needle: &Vec<char>) -> (b: bool)
    ensures
        b == contains_seq(hay@, needle@),
{
    let n = hay.len();
    let m = needle.len();
    if m > n {
        return false;
    }
    if m == 0 {
        assert(hay@.subrange(0, 0) == needle@);
        assert(occurs_at(hay@, needle@, 0));
        return true;
    }
    let mut i: usize = 0;
    while i <= n - m
        invariant
            1 <= m <= n,
            n == hay@.len(),
            m == needle@.len(),
            forall|p: int| 0 <= p < i ==> !occurs_at(hay@, needle@, p),
        decreases n - i,
    {
        if matches_at(hay, needle, i) {
            return true;
        }
        i += 1;
    }
    false
}

/// `str::contains` on string slices.
pub fn contains_str(hay: &str, needle: &str) -> (b: bool)
    ensures
        b == contains_seq(hay@, needle@),
{
    let h = chars_of(hay);
    let n = chars_of(needle);
    contains_chars(&h, &n)
}

/// View of an optional string.
pub open spec fn opt_view(v: Option<String>) -> Option<Seq<char>> {
    match v {
        Some(s) => Some(s@),
        None => None,
    }
}

/// True when both optional strings hold the same text.
pub fn same_opt_text(a: &Option<String>, b: &Option<String>) -> (r: bool)
    ensures
        r == (opt_view(*a) == opt_view(*b)),
{
    match (a, b) {
        (Some(x), Some(y)) => same_text(x.as_str(), y.as_str()),
        (None, None) => true,
        _ => false,
    }
}

/// A copy of an optional string.
pub fn clone_opt(a: &Option<String>) -> (r: Option<String>)
    ensures
        opt_view(r) == opt_view(*a),
{
    match a {
        Some(x) => Some(x.clone()),
        None => None,
    }
}

/// True when both texts hold the same characters.
pub fn same_text(a: &str, b: &str) -> (r: bool)
    ensures
        r == (a@ == b@),
{
    let x = chars_of(a);
    let y = chars_of(b);
    if x.len() != y.len() {
        return false;
    }
    let mut i: usize = 0;
    while i < x.len()
        invariant
            x@.len() == y@.len(),
            x@ == a@,
            y@ == b@,
            i <= x@.len(),
            forall|k: int| 0 <= k < i ==> x@[k] == y@[k],
        decreases x@.len() - i,
    {
        if x[i] != y[i] {
            assert(x@[i as int] != y@[i as int]);
            return false;
        }
        i += 1;
    }
    assert(x@ =~= y@);
    true
}

/// Sign of the comparison of two texts in the order of `str::cmp`: character
/// by character on code points (UTF-8 keeps that order), a prefix first.
pub open spec fn lex_sign(a: Seq<char>, b: Seq<char>) -> int
    decreases a.len(),
{
    if a.len() == 0 {
        if b.len() == 0 {
            0
        } else {
            -1
        }
    } else if b.len() == 0 {
        1
    } else if a[0] < b[0] {
        -1
    } else if a[0] > b[0] {
        1
    } else {
        lex_sign(a.drop_first(), b.drop_first())
    }
}

/// Swapping the two texts flips the sign of their comparison.
pub proof fn lemma_lex_sign_flip(a: Seq<char>, b: Seq<char>)
    ensures
        lex_sign(a, b) == -lex_sign(b, a),
        -1 <= lex_sign(a, b) <= 1,
    decreases a.len(),
{
    if a.len() > 0 && b.len() > 0 && a[0] == b[0] {
        lemma_lex_sign_flip(a.drop_first(), b.drop_first());
    }
}

/// A text compared with itself gives `0`.
pub proof fn lemma_lex_sign_refl(a: Seq<char>)
    ensures
        lex_sign(a, a) == 0,
    decreases a.len(),
{
    if a.len() > 0 {
        lemma_lex_sign_refl(a.drop_first());
    }
}

/// Two texts compare equal only when they are the same.
pub proof fn lemma_lex_sign_zero(a: Seq<char>, b: Seq<char>)
    requires
        lex_sign(a, b) == 0,
    ensures
        a == b,
    decreases a.len(),
{
    if a.len() > 0 && b.len() > 0 {
        lemma_lex_sign_zero(a.drop_first(), b.drop_first());
        assert(a[0] == b[0]);
        assert(a =~= seq![a[0]] + a.drop_first());
        assert(b =~= seq![b[0]] + b.drop_first());
    } else {
        assert(a.len() == 0 && b.len() == 0);
        assert(a =~= b);
    }
}

/// The lexicographic order is transitive, and two steps compare equal only
/// when both do.
pub proof fn lemma_lex_sign_trans(a: Seq<char>, b: Seq<char>, c: Seq<char>)
    requires
        lex_sign(a, b) <= 0,
        lex_sign(b, c) <= 0,
    ensures
        lex_sign(a, c) <= 0,
        lex_sign(a, c) == 0 ==> lex_sign(a, b) == 0 && lex_sign(b, c) == 0,
    decreases a.len(),
{
    if a.len() > 0 && b.len() > 0 && c.len() > 0 {
        if a[0] == b[0] && b[0] == c[0] {
            lemma_lex_sign_trans(a.drop_first(), b.drop_first(), c.drop_first());
        }
    }
}

/// Lexicographic comparison from position `i` on.
proof fn lemma_lex_sign_skip(a: Seq<char>, b: Seq<char>, i: int)
    requires
        0 <= i < a.len(),
        i < b.len(),
    ensures
        lex_sign(a.skip(i), b.skip(i)) == if a[i] < b[i] {
            -1
        } else if a[i] > b[i] {
            1
        } else {
            lex_sign(a.skip(i + 1), b.skip(i + 1))
        },
{
    assert(a.skip(i).drop_first() =~= a.skip(i + 1));
    assert(b.skip(i).drop_first() =~= b.skip(i + 1));
}

/// Compares two texts as `str::cmp` does: `-1`, `0` or `1`.
pub fn lex_compare(a: &str, b: &str) -> (r: i8)
    ensures
        r == lex_sign(a@, b@),
{
    let x = chars_of(a);
    let y = chars_of(b);
    let mut i: usize = 0;
    assert(x@.skip(0) =~= x@);
    assert(y@.skip(0) =~= y@);
    while i < x.len() && i < y.len()
        invariant
            x@ == a@,
            y@ == b@,
            i <= x@.len(),
            i <= y@.len(),
            lex_sign(a@, b@) == lex_sign(x@.skip(i as int), y@.skip(i as int)),
        decreases x@.len() - i,
    {
        proof {
            lemma_lex_sign_skip(x@, y@, i as int);
        }
        if x[i] < y[i] {
            return -1;
        }
        if x[i] > y[i] {
            return 1;
        }
        i += 1;
    }
    if i < x.len() {
        1
    } else if i < y.len() {
        -1
    } else {
        0
    }
}

/// The texts of `parts` separated by `sep` (`slice::join`).
pub open spec fn joined(parts: Seq<Seq<char>>, sep: Seq<char>) -> Seq<char>
    decreases parts.len(),
{
    if parts.len() == 0 {
        Seq::empty()
    } else if parts.len() == 1 {
        parts[0]
    } else {
        joined(parts.drop_last(), sep) + sep + parts.last()
    }
}

/// The views of a sequence of strings.
pub open spec fn views_of(v: Seq<String>) -> Seq<Seq<char>> {
    v.map_values(|s: String| s@)
}

/// `joined` read from the front.
pub proof fn lemma_joined_front(parts: Seq<Seq<char>>, sep: Seq<char>)
    requires
        parts.len() >= 2,
    ensures
        joined(parts, sep) == parts[0] + sep + joined(parts.drop_first(), sep),
    decreases parts.len(),
{
    if parts.len() == 2 {
        assert(parts.drop_last() =~= seq![parts[0]]);
        assert(parts.drop_first() =~= seq![parts[1]]);
        assert(joined(parts.drop_last(), sep) == parts[0]);
        assert(joined(parts.drop_first(), sep) == parts[1]);
        assert(joined(parts, sep) == joined(parts.drop_last(), sep) + sep + parts.last());
    } else {
        lemma_joined_front(parts.drop_last(), sep);
        assert(parts.drop_last().drop_first() =~= parts.drop_first().drop_last());
        assert(parts.drop_last()[0] == parts[0]);
        assert(parts.drop_first().last() == parts.last());
        let j = joined(parts.drop_first().drop_last(), sep);
        assert(joined(parts.drop_first(), sep) == j + sep + parts.last());
        assert(joined(parts, sep) == joined(parts.drop_last(), sep) + sep + parts.last());
        assert(parts[0] + sep + j + sep + parts.last() =~= parts[0] + sep + (j + sep
            + parts.last()));
    }
}

/// Joins strings with a separator (`[String]::join`).
pub fn join_strings(parts: &Vec<String>, sep: &str) -> (out: String)
    ensures
        out@ == joined(views_of(parts@), sep@),
{
    let mut out = String::new();
    let mut i: usize = 0;
    while i < parts.len()
        invariant
            i <= parts@.len(),
            out@ == joined(views_of(parts@.take(i as int)), sep@),
        decreases parts@.len() - i,
    {
        let ghost before = views_of(parts@.take(i as int));
        if i > 0 {
            push_str(&mut out, sep);
        }
        push_str(&mut out, parts[i].as_str());
        proof {
            let now = views_of(parts@.take(i + 1));
            assert(now.drop_last() =~= before);
            assert(now.last() == parts@[i as int]@);
            if i == 0 {
                assert(before.len() == 0);
            }
        }
        i += 1;
    }
    assert(parts@.take(parts@.len() as int) =~= parts@);
    out
}

/// `s` starts with `prefix`.
pub open spec fn starts_with_seq<T>(s: Seq<T>, prefix: Seq<T>) -> bool {
    prefix.len() <= s.len() && s.take(prefix.len() as int) == prefix
}

pub fn starts_with_chars(s: &Vec<char>, prefix: &Vec<char>) -> (b: bool)
    ensures
        b == starts_with_seq(s@, prefix@),
{
    if prefix.len() > s.len() {
        return false;
    }
    let r = matches_at(s, prefix, 0);
    assert(s@.subrange(0, prefix@.len() as int) == s@.take(prefix@.len() as int));
    r
}

// ---------------------------------------------------------------------------
// Separators
// ---------------------------------------------------------------------------

/// The part of `s` before the first `sep`, or all of `s` (`split(sep).next()`).
pub open spec fn before_first(s: Seq<char>, sep: char) -> Seq<char>
    decreases s.len(),
{
    if s.len() == 0 {
        s
    } else if s[0] == sep {
        Seq::empty()
    } else {
        seq![s[0]] + before_first(s.drop_first(), sep)
    }
}

/// The part of `s` after the last `sep`, or all of `s` (`rsplit(sep).next()`).
pub open spec fn after_last(s: Seq<char>, sep: char) -> Seq<char>
    decreases s.len(),
{
    if s.len() == 0 {
        s
    } else if s.last() == sep {
        Seq::empty()
    } else {
        after_last(s.drop_last(), sep).push(s.last())
    }
}

/// Number of leading copies of `c`.
pub open spec fn lead_count(s: Seq<char>, c: char) -> nat
    decreases s.len(),
{
    if s.len() > 0 && s[0] == c {
        1 + lead_count(s.drop_first(), c)
    } else {
        0
    }
}

/// Number of trailing copies of `c`.
pub open spec fn trail_count(s: Seq<char>, c: char) -> nat
    decreases s.len(),
{
    if s.len() > 0 && s.last() == c {
        1 + trail_count(s.drop_last(), c)
    } else {
        0
    }
}

/// `s` without its trailing copies of `c` (`trim_end_matches(c)`).
pub open spec fn strip_end(s: Seq<char>, c: char) -> Seq<char> {
    s.take(s.len() - trail_count(s, c))
}

/// `s` without its leading nor trailing copies of `c` (`trim_matches(c)`).
pub open spec fn strip_both(s: Seq<char>, c: char) -> Seq<char> {
    strip_end(s.skip(lead_count(s, c) as int), c)
}

proof fn lemma_before_first(s: Seq<char>, sep: char, i: int)
    requires
        0 <= i <= s.len(),
        forall|k: int| 0 <= k < i ==> s[k] != sep,
        i == s.len() || s[i] == sep,
    ensures
        before_first(s, sep) == s.take(i),
    decreases i,
{
    if i > 0 {
        let t = s.drop_first();
        assert forall|k: int| 0 <= k < i - 1 implies t[k] != sep by {
            assert(t[k] == s[k + 1]);
        }
        if i < s.len() {
            assert(t[i - 1] == s[i]);
        }
        lemma_before_first(t, sep, i - 1);
        assert(seq![s[0]] + t.take(i - 1) =~= s.take(i));
    } else if s.len() > 0 {
        assert(s.take(0) =~= Seq::<char>::empty());
    }
}

proof fn lemma_after_last(s: Seq<char>, sep: char, j: int)
    requires
        0 <= j <= s.len(),
        forall|k: int| j <= k < s.len() ==> s[k] != sep,
        j == 0 || s[j - 1] == sep,
    ensures
        after_last(s, sep) == s.skip(j),
    decreases s.len() - j,
{
    if j < s.len() {
        let t = s.drop_last();
        assert forall|k: int| j <= k < t.len() implies t[k] != sep by {
            assert(t[k] == s[k]);
        }
        if j > 0 {
            assert(t[j - 1] == s[j - 1]);
        }
        lemma_after_last(t, sep, j);
        assert(t.skip(j).push(s.last()) =~= s.skip(j));
    } else {
        assert(s.skip(j) =~= Seq::<char>::empty());
    }
}

/// Index of the first `sep` in `chars[from..]`, or `chars.len()`.
pub fn find_char(chars: &Vec<char>, from: usize, sep: char) -> (i: usize)
    requires
        from <= chars@.len(),
    ensures
        from <= i <= chars@.len(),
        forall|k: int| from <= k < i ==> chars@[k] != sep,
        i == chars@.len() || chars@[i as int] == sep,
{
    let mut i = from;
    while i < chars.len() && chars[i] != sep
        invariant
            from <= i <= chars@.len(),
            forall|k: int| from <= k < i ==> chars@[k] != sep,
        decreases chars@.len() - i,
    {
        i += 1;
    }
    i
}

/// Bounds of `before_first(chars[from..to], sep)` within `chars`.
pub fn before_first_bounds(chars: &Vec<char>, from: usize, to: usize, sep: char) -> (e: usize)
    requires
        from <= to <= chars@.len(),
    ensures
        from <= e <= to,
        chars@.subrange(from as int, e as int) == before_first(
            chars@.subrange(from as int, to as int),
            sep,
        ),
{
    let ghost s = chars@.subrange(from as int, to as int);
    let mut i = from;
    while i < to && chars[i] != sep
        invariant
            from <= i <= to <= chars@.len(),
            forall|k: int| from <= k < i ==> chars@[k] != sep,
        decreases to - i,
    {
        i += 1;
    }
    proof {
        assert forall|k: int| 0 <= k < i - from implies s[k] != sep by {
            assert(s[k] == chars@[k + from]);
        }
        if i < to {
            assert(s[i - from] == chars@[i as int]);
        }
        lemma_before_first(s, sep, i - from);
        assert(s.take(i - from) =~= chars@.subrange(from as int, i as int));
    }
    i
}

/// Bounds of `after_last(chars[from..to], sep)` within `chars`.
pub fn after_last_bounds(chars: &Vec<char>, from: usize, to: usize, sep: char) -> (b: usize)
    requires
        from <= to <= chars@.len(),
    ensures
        from <= b <= to,
        chars@.subrange(b as int, to as int) == after_last(
            chars@.subrange(from as int, to as int),
            sep,
        ),
{
    let ghost s = chars@.subrange(from as int, to as int);
    let mut j = to;
    while j > from && chars[j - 1] != sep
        invariant
            from <= j <= to <= chars@.len(),
            forall|k: int| j <= k < to ==> chars@[k] != sep,
        decreases j,
    {
        j -= 1;
    }
    proof {
        assert forall|k: int| j - from <= k < s.len() implies s[k] != sep by {
            assert(s[k] == chars@[k + from]);
        }
        if j > from {
            assert(s[j - from - 1] == chars@[j - 1]);
        }
        lemma_after_last(s, sep, j - from);
        assert(s.skip(j - from) =~= chars@.subrange(j as int, to as int));
    }
    j
}

pub proof fn lemma_lead_count(s: Seq<char>, c: char, i: int)
    requires
        0 <= i <= s.len(),
        forall|k: int| 0 <= k < i ==> s[k] == c,
        i == s.len() || s[i] != c,
    ensures
        lead_count(s, c) == i,
    decreases i,
{
    if i > 0 {
        let t = s.drop_first();
        assert forall|k: int| 0 <= k < i - 1 implies t[k] == c by {
            assert(t[k] == s[k + 1]);
        }
        if i < s.len() {
            assert(t[i - 1] == s[i]);
        }
        lemma_lead_count(t, c, i - 1);
    }
}

pub(crate) proof fn lemma_trail_count(s: Seq<char>, c: char, j: int)
    requires
        0 <= j <= s.len(),
        forall|k: int| j <= k < s.len() ==> s[k] == c,
        j == 0 || s[j - 1] != c,
    ensures
        trail_count(s, c) == s.len() - j,
    decreases s.len() - j,
{
    if j < s.len() {
        let t = s.drop_last();
        assert forall|k: int| j <= k < t.len() implies t[k] == c by {
            assert(t[k] == s[k]);
        }
        if j > 0 {
            assert(t[j - 1] == s[j - 1]);
        }
        lemma_trail_count(t, c, j);
    }
}

/// End of `strip_end(chars[from..to], c)` within `chars`.
pub fn strip_end_bound(chars: &Vec<char>, from: usize, to: usize, c: char) -> (e: usize)
    requires
        from <= to <= chars@.len(),
    ensures
        from <= e <= to,
        chars@.subrange(from as int, e as int) == strip_end(
            chars@.subrange(from as int, to as int),
            c,
        ),
{
    let ghost s = chars@.subrange(from as int, to as int);
    let mut j = to;
    while j > from && chars[j - 1] == c
        invariant
            from <= j <= to <= chars@.len(),
            forall|k: int| j <= k < to ==> chars@[k] == c,
        decreases j,
    {
        j -= 1;
    }
    proof {
        assert forall|k: int| j - from <= k < s.len() implies s[k] == c by {
            assert(s[k] == chars@[k + from]);
        }
        if j > from {
            assert(s[j - from - 1] == chars@[j - 1]);
        }
        lemma_trail_count(s, c, j - from);
        assert(s.take(j - from) =~= chars@.subrange(from as int, j as int));
    }
    j
}

/// Bounds of `strip_both(chars, c)` within `chars`.
pub fn strip_both_bounds(chars: &Vec<char>, c: char) -> (r: (usize, usize))
    ensures
        r.0 <= r.1 <= chars@.len(),
        chars@.subrange(r.0 as int, r.1 as int) == strip_both(chars@, c),
{
    let n = chars.len();
    let mut i: usize = 0;
    while i < n && chars[i] == c
        invariant
            i <= n == chars@.len(),
            forall|k: int| 0 <= k < i ==> chars@[k] == c,
        decreases n - i,
    {
        i += 1;
    }
    proof {
        lemma_lead_count(chars@, c, i as int);
        assert(chars@.skip(i as int) =~= chars@.subrange(i as int, n as int));
    }
    let e = strip_end_bound(chars, i, n, c);
    (i, e)
}

// ---------------------------------------------------------------------------
// Decimal rendering
// ---------------------------------------------------------------------------

/// The decimal digit character of `d < 10`.
pub open spec fn digit_char(d: nat) -> char {
    ((d + 48) as u32) as char
}

/// Decimal rendering of a natural number, without sign or padding.
pub open spec fn decimal(n: nat) -> Seq<char>
    decreases n,
{
    if n < 10 {
        seq![digit_char(n)]
    } else {
        decimal(n / 10).push(digit_char(n % 10))
    }
}

/// Decimal rendering of a signed number, with `-` in front of negatives.
pub open spec fn decimal_signed(n: int) -> Seq<char> {
    if n < 0 {
        seq!['-'] + decimal((-n) as nat)
    } else {
        decimal(n as nat)
    }
}

/// Decimal rendering of `n`, left-padded with zeros to at least two digits.
pub open spec fn decimal2(n: nat) -> Seq<char> {
    if n < 10 {
        seq!['0', digit_char(n)]
    } else {
        decimal(n)
    }
}

fn digit(d: u64) -> (c: char)
    requires
        d < 10,
    ensures
        c == digit_char(d as nat),
{
    char_from_ascii_code((d + 48) as u32)
}

/// Appends the decimal rendering of `n`.
pub fn push_decimal(out: &mut String, n: u64)
    ensures
        final(out)@ == old(out)@ + decimal(n as nat),
    decreases n,
{
    if n < 10 {
        push_char(out, digit(n));
    } else {
        push_decimal(out, n / 10);
        push_char(out, digit(n % 10));
    }
}

/// Appends the decimal rendering of a signed number.
pub fn push_decimal_signed(out: &mut String, n: i64)
    ensures
        final(out)@ == old(out)@ + decimal_signed(n as int),
{
    if n < 0 {
        push_char(out, '-');
        let magnitude: u64 = if n == i64::MIN {
            9223372036854775808u64
        } else {
            (-n) as u64
        };
        push_decimal(out, magnitude);
    } else {
        push_decimal(out, n as u64);
    }
}

/// Appends `n` with at least two digits, zero-padded (`{:02}`).
pub fn push_decimal2(out: &mut String, n: u64)
    ensures
        final(out)@ == old(out)@ + decimal2(n as nat),
{
    if n < 10 {
        push_char(out, '0');
        push_char(out, digit(n));
    } else {
        push_decimal(out, n);
    }
}

// ---------------------------------------------------------------------------
// Decimal parsing and fields
// ---------------------------------------------------------------------------

/// True when `c` is an ASCII digit.
pub open spec fn is_digit(c: char) -> bool {
    '0' <= c && c <= '9'
}

/// Value of an ASCII digit.
pub open spec fn digit_value(c: char) -> nat {
    (c as u32 - 48) as nat
}

/// Value of a sequence of ASCII digits, most significant first.
pub open spec fn digits_value(s: Seq<char>) -> nat
    decreases s.len(),
{
    if s.len() == 0 {
        0
    } else {
        digits_value(s.drop_last()) * 10 + digit_value(s.last())
    }
}

/// True when `s` holds ASCII digits only.
pub open spec fn all_digits(s: Seq<char>) -> bool {
    forall|k: int| 0 <= k < s.len() ==> is_digit(#[trigger] s[k])
}

/// `str::parse` of an unsigned integer no larger than `max`: digits, with an
/// optional leading `+`.
pub open spec fn parsed_unsigned(s: Seq<char>, max: nat) -> Option<nat> {
    let d = if s.len() > 0 && s[0] == '+' {
        s.drop_first()
    } else {
        s
    };
    if d.len() > 0 && all_digits(d) && digits_value(d) <= max {
        Some(digits_value(d))
    } else {
        None
    }
}

proof fn lemma_digits_grow(s: Seq<char>, k: int)
    requires
        0 <= k <= s.len(),
        all_digits(s),
    ensures
        digits_value(s.take(k)) <= digits_value(s),
    decreases s.len() - k,
{
    if k < s.len() {
        lemma_digits_grow(s, k + 1);
        assert(s.take(k + 1).drop_last() == s.take(k));
    } else {
        assert(s.take(k) == s);
    }
}

/// Parses `chars` as `str::parse` parses an unsigned integer bounded by `max`.
pub fn parse_unsigned(chars: &Vec<char>, max: u64) -> (r: Option<u64>)
    ensures
        match r {
            Some(v) => parsed_unsigned(chars@, max as nat) == Some(v as nat),
            None => parsed_unsigned(chars@, max as nat) is None,
        },
{
    let n = chars.len();
    let start: usize = if n > 0 && chars[0] == '+' {
        1
    } else {
        0
    };
    let ghost d = if chars@.len() > 0 && chars@[0] == '+' {
        chars@.drop_first()
    } else {
        chars@
    };
    assert(d == chars@.skip(start as int));
    if start == n {
        return None;
    }
    let mut value: u64 = 0;
    let mut i: usize = start;
    while i < n
        invariant
            start <= i <= n == chars@.len(),
            d == chars@.skip(start as int),
            d == (if chars@.len() > 0 && chars@[0] == '+' {
                chars@.drop_first()
            } else {
                chars@
            }),
            all_digits(chars@.subrange(start as int, i as int)),
            value as nat == digits_value(chars@.subrange(start as int, i as int)),
            value <= max,
        decreases n - i,
    {
        let c = chars[i];
        if !('0' <= c && c <= '9') {
            proof {
                assert(d[i - start] == c);
                assert(!is_digit(d[i - start]));
                assert(!all_digits(d));
            }
            return None;
        }
        let dv: u64 = (c as u32 - 48) as u64;
        let ghost pre = chars@.subrange(start as int, i + 1);
        assert(pre.drop_last() == chars@.subrange(start as int, i as int));
        assert(pre.last() == c);
        if dv > max || value > (max - dv) / 10 {
            proof {
                assert(value * 10 + dv > max) by (nonlinear_arith)
                    requires
                        dv > max || value > (max - dv) / 10,
                ;
                assert(all_digits(pre));
                if all_digits(d) {
                    lemma_digits_grow(d, i + 1 - start);
                    assert(d.take(i + 1 - start) == pre);
                }
            }
            return None;
        }
        assert(value * 10 + dv <= max) by (nonlinear_arith)
            requires
                value <= (max - dv) / 10,
                dv <= 9,
                dv <= max,
        ;
        value = value * 10 + dv;
        i += 1;
    }
    assert(chars@.subrange(start as int, n as int) == d);
    Some(value)
}

/// Fields of `s` separated by `sep` (`str::split`): never empty.
pub open spec fn split_fields(s: Seq<char>, sep: char) -> Seq<Seq<char>>
    decreases s.len(),
{
    let h = before_first(s, sep);
    if h.len() >= s.len() {
        seq![s]
    } else {
        seq![h] + split_fields(s.skip(h.len() as int + 1), sep)
    }
}

pub proof fn lemma_before_first_concat(a: Seq<char>, b: Seq<char>, sep: char)
    requires
        forall|k: int| 0 <= k < a.len() ==> a[k] != sep,
    ensures
        before_first(a + b, sep) == a + before_first(b, sep),
    decreases a.len(),
{
    if a.len() > 0 {
        let t = a.drop_first();
        assert forall|k: int| 0 <= k < t.len() implies t[k] != sep by {
            assert(t[k] == a[k + 1]);
        }
        lemma_before_first_concat(t, b, sep);
        assert((a + b).drop_first() == t + b);
        assert(seq![a[0]] + (t + before_first(b, sep)) == a + before_first(b, sep));
    } else {
        assert(a + b == b);
        assert(a + before_first(b, sep) == before_first(b, sep));
    }
}

/// Splits `chars` on `sep` (`str::split`).
pub fn split_chars(chars: &Vec<char>, sep: char) -> (r: Vec<Vec<char>>)
    ensures
        r@.map_values(|f: Vec<char>| f@) == split_fields(chars@, sep),
{
    let n = chars.len();
    let mut out: Vec<Vec<char>> = Vec::new();
    let mut cur: Vec<char> = Vec::new();
    let mut i: usize = 0;
    assert(cur@ + chars@.skip(0) == chars@);
    while i < n
        invariant
            n == chars@.len(),
            i <= n,
            forall|k: int| 0 <= k < cur@.len() ==> cur@[k] != sep,
            out@.map_values(|f: Vec<char>| f@) + split_fields(cur@ + chars@.skip(i as int), sep) == split_fields(chars@, sep),
        decreases n - i,
    {
        let c = chars[i];
        let ghost rest = chars@.skip(i + 1);
        assert(chars@.skip(i as int) == seq![c] + rest);
        if c == sep {
            let ghost whole = cur@ + chars@.skip(i as int);
            proof {
                lemma_before_first_concat(cur@, seq![c] + rest, sep);
                assert(before_first(seq![c] + rest, sep) == Seq::<char>::empty());
                assert(before_first(whole, sep) == cur@);
                assert(whole.skip(cur@.len() as int + 1) == rest);
                assert(split_fields(whole, sep) == seq![cur@] + split_fields(rest, sep));
            }
            let ghost done = out@.map_values(|f: Vec<char>| f@);
            let field = cur;
            out.push(field);
            cur = Vec::new();
            assert(out@.map_values(|f: Vec<char>| f@) == done.push(field@));
            assert(cur@ + rest == rest);
        } else {
            assert((cur@ + chars@.skip(i as int)) == cur@.push(c) + rest);
            cur.push(c);
        }
        i += 1;
    }
    proof {
        let whole = cur@ + chars@.skip(n as int);
        assert(whole == cur@);
        lemma_before_first_concat(cur@, Seq::<char>::empty(), sep);
        assert(cur@ + Seq::<char>::empty() == cur@);
        assert(split_fields(cur@, sep) == seq![cur@]);
    }
    let ghost done = out@.map_values(|f: Vec<char>| f@);
    let field = cur;
    out.push(field);
    assert(out@.map_values(|f: Vec<char>| f@) == done.push(field@));
    out
}

// ---------------------------------------------------------------------------
// UTF-8
// ---------------------------------------------------------------------------

/// Length of the invalid byte sequence that `std::str::from_utf8` reports in
/// `bytes` (`Utf8Error::error_len`): `None` when the input ends inside a
/// character.
pub uninterp spec fn utf8_error_len(bytes: Seq<u8>) -> Option<nat>;

/// `v` is the length of the longest prefix of `bytes` that is valid UTF-8.
pub open spec fn is_valid_up_to(bytes: Seq<u8>, v: nat) -> bool {
    &&& v <= bytes.len()
    &&& vstd::utf8::valid_utf8(bytes.take(v as int))
    &&& forall|k: int| v < k <= bytes.len() ==> !vstd::utf8::valid_utf8(#[trigger] bytes.take(k))
}

/// The UTF-8 encoding of one character.
pub open spec fn char_bytes(c: char) -> Seq<u8> {
    vstd::utf8::encode_utf8(seq![c])
}

/// `t` is the start of a character cut short: not empty, and a proper
/// prefix of the UTF-8 encoding of some character.
pub open spec fn cut_char(t: Seq<u8>) -> bool {
    exists|c: char|
        0 < t.len() < char_bytes(c).len() && #[trigger] char_bytes(c).take(t.len() as int) == t
}

/// An optional index as a natural number.
pub open spec fn opt_nat(o: Option<usize>) -> Option<nat> {
    match o {
        Some(n) => Some(n as nat),
        None => None,
    }
}

/// `std::str::from_utf8`. On valid UTF-8 (as `vstd::utf8::valid_utf8` states
/// it) it gives the string whose encoding is `bytes`; otherwise the error's
/// `valid_up_to`, the longest valid prefix, and its `error_len`: absent
/// exactly when the input ends inside a character (the bytes after the valid
/// prefix begin a character and stop short), else the length of the invalid
/// sequence, inside the input.
#[verifier::external_body]
pub(crate) fn utf8_from(bytes: &[u8]) -> (r: Result<&str, (usize, Option<usize>)>)
    ensures
        match r {
            Ok(text) => vstd::utf8::valid_utf8(bytes@) && vstd::utf8::encode_utf8(text@) == bytes@,
            Err(e) => {
                &&& !vstd::utf8::valid_utf8(bytes@)
                &&& is_valid_up_to(bytes@, e.0 as nat)
                &&& opt_nat(e.1) == utf8_error_len(bytes@)
                &&& (e.1 matches Some(n) ==> 1 <= n && e.0 + n <= bytes@.len())
                &&& (e.1 is None <==> cut_char(bytes@.skip(e.0 as int)))
            },
        },
{
    match std::str::from_utf8(bytes) {
        Ok(text) => Ok(text),
        Err(e) => Err((e.valid_up_to(), e.error_len())),
    }
}


/// Splitting on a separator undoes joining with it, when no part holds the
/// separator.
pub proof fn lemma_split_joined(parts: Seq<Seq<char>>, sep: char)
    requires
        parts.len() >= 1,
        forall|i: int, k: int|
            0 <= i < parts.len() && 0 <= k < parts[i].len() ==> #[trigger] parts[i][k] != sep,
    ensures
        split_fields(joined(parts, seq![sep]), sep) == parts,
    decreases parts.len(),
{
    let p0 = parts[0];
    assert forall|k: int| 0 <= k < p0.len() implies p0[k] != sep by {
        assert(parts[0][k] != sep);
    }
    if parts.len() == 1 {
        lemma_before_first_concat(p0, Seq::<char>::empty(), sep);
        assert(p0 + Seq::<char>::empty() =~= p0);
        assert(split_fields(p0, sep) =~= seq![p0]);
        assert(parts =~= seq![p0]);
    } else {
        let rest = parts.drop_first();
        assert forall|i: int, k: int| 0 <= i < rest.len() && 0 <= k < rest[i].len() implies #[trigger] rest[i][k]
            != sep by {
            assert(rest[i] == parts[i + 1]);
            assert(parts[i + 1][k] != sep);
        }
        lemma_split_joined(rest, sep);
        lemma_joined_front(parts, seq![sep]);
        let j = joined(rest, seq![sep]);
        let s = p0 + seq![sep] + j;
        lemma_before_first_concat(p0, seq![sep] + j, sep);
        assert(s =~= p0 + (seq![sep] + j));
        assert((seq![sep] + j)[0] == sep);
        assert(before_first(seq![sep] + j, sep) == Seq::<char>::empty());
        assert(before_first(s, sep) =~= p0);
        assert(s.skip(p0.len() as int + 1) =~= j);
        assert(split_fields(s, sep) == seq![p0] + split_fields(j, sep));
        assert(seq![p0] + rest =~= parts);
    }
}

} // verus!
