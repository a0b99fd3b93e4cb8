//! Hub screen: image references, deployable names and the formatting helpers
//! shared with the other hub screens.
use vstd::prelude::*;

use crate::text::{
    after_last, after_last_bounds, ascii_lower_char, ascii_lower_seq, before_first,
    before_first_bounds, chars_of, lead_count, push_char, push_decimal, starts_with_chars,
    starts_with_seq, strip_both, strip_both_bounds, strip_end, strip_end_bound,
    string_from_range, trim, trim_bounds,
};
use crate::units::{as_f64, binary_unit, f64_value, push_tenths, push_unit, scaled_text, unit_from};
use crate::text::decimal;

pub mod label;
pub mod request;

pub use self::request::{DeployRequest, PortSpec, PvcSpec};

verus! {

/// Active tab of the hub.
#[derive(Debug, Clone, Copy, PartialEq, Eq, Default)]
pub enum HubTab {
    /// Container image search.
    #[default]
    Images,
    /// Helm chart search.
    Charts,
    /// Ready-to-deploy applications embedded in the binary.
    Catalog,
}

/// `ghcr.io/o/depot:1.2` → `depot`: the digest, the registry path and the tag
/// are cut off.
pub open spec fn short_name(reference: Seq<char>) -> Seq<char> {
    before_first(after_last(before_first(reference, '@'), '/'), ':')
}

/// `ghcr.io/o/depot:1.2` → `depot`.
pub fn nom_court_depuis_reference(reference: &str) -> (r: &str)
    ensures
        r@ == short_name(reference@),
{
    let chars = chars_of(reference);
    let n = chars.len();
    assert(chars@.subrange(0, n as int) == reference@);
    let e1 = before_first_bounds(&chars, 0, n, '@');
    let b2 = after_last_bounds(&chars, 0, e1, '/');
    let e3 = before_first_bounds(&chars, b2, e1, ':');
    reference.substring_char(b2, e3)
}

/// ASCII letter or digit.
pub open spec fn is_ascii_alnum(c: char) -> bool {
    ('a' <= c && c <= 'z') || ('A' <= c && c <= 'Z') || ('0' <= c && c <= '9')
}

/// Letters and digits kept, every other run of characters turned into a
/// single `-`.
pub open spec fn collapse_to_label(s: Seq<char>) -> Seq<char>
    decreases s.len(),
{
    if s.len() == 0 {
        Seq::empty()
    } else {
        let prev = collapse_to_label(s.drop_last());
        let c = s.last();
        if is_ascii_alnum(c) {
            prev.push(c)
        } else if prev.len() > 0 && prev.last() == '-' {
            prev
        } else {
            prev.push('-')
        }
    }
}

/// Longest DNS-1123 label.
pub const MAX_LABEL: usize = 63;

/// The DNS-1123 label that a free text becomes.
pub open spec fn label_of(raw: Seq<char>) -> Seq<char> {
    let collapsed = collapse_to_label(ascii_lower_seq(trim(raw)));
    let stripped = strip_both(collapsed, '-');
    let taken = if stripped.len() <= MAX_LABEL { stripped } else { stripped.take(MAX_LABEL as int) };
    let out = strip_end(taken, '-');
    if out.len() == 0 {
        "application"@
    } else {
        out
    }
}

fn is_alnum_char(c: char) -> (b: bool)
    ensures
        b == is_ascii_alnum(c),
{
    ('a' <= c && c <= 'z') || ('A' <= c && c <= 'Z') || ('0' <= c && c <= '9')
}

/// `collapse_to_label` of the lower-cased `chars[from..to]`.
pub fn collapse_lowered(chars: &Vec<char>, from: usize, to: usize) -> (out: Vec<char>)
    requires
        from <= to <= chars@.len(),
    ensures
        out@ == collapse_to_label(ascii_lower_seq(chars@.subrange(from as int, to as int))),
{
    let mut out: Vec<char> = Vec::new();
    let mut i = from;
    while i < to
        invariant
            from <= i <= to <= chars@.len(),
            out@ == collapse_to_label(ascii_lower_seq(chars@.subrange(from as int, i as int))),
        decreases to - i,
    {
        let c = ascii_lower_char(chars[i]);
        let ghost prefix = ascii_lower_seq(chars@.subrange(from as int, i + 1));
        proof {
            assert(prefix.drop_last() =~= ascii_lower_seq(chars@.subrange(from as int, i as int)));
            assert(prefix.last() == c);
        }
        if is_alnum_char(c) {
            out.push(c);
        } else if out.len() > 0 && out[out.len() - 1] == '-' {
        } else {
            out.push('-');
        }
        i += 1;
    }
    out
}

/// Brings any text to a DNS-1123 label usable as a name.
pub fn sanitize_name(raw: &str) -> (out: String)
    ensures
        out@ == label_of(raw@),
{
    let chars = chars_of(raw);
    let (a, b) = trim_bounds(&chars);
    let collapsed = collapse_lowered(&chars, a, b);
    assert(chars@.subrange(a as int, b as int) == trim(raw@));
    let (s, e) = strip_both_bounds(&collapsed, '-');
    let cut = if e - s <= MAX_LABEL {
        e
    } else {
        s + MAX_LABEL
    };
    let ghost stripped = collapsed@.subrange(s as int, e as int);
    assert(collapsed@.subrange(s as int, cut as int) == (if stripped.len() <= MAX_LABEL {
        stripped
    } else {
        stripped.take(MAX_LABEL as int)
    }));
    let end = strip_end_bound(&collapsed, s, cut, '-');
    if end == s {
        return "application".to_owned();
    }
    string_from_range(&collapsed, s, end)
}

/// The text trimmed, then cut to `max` characters with a final `…`.
pub open spec fn truncated(s: Seq<char>, max: nat) -> Seq<char> {
    let t = trim(s);
    if t.len() <= max {
        t
    } else {
        t.take(if max >= 1 { max - 1 } else { 0 }) + seq!['…']
    }
}

/// Cuts cleanly on a character boundary.
pub fn truncate(s: &str, max: usize) -> (out: String)
    ensures
        out@ == truncated(s@, max as nat),
{
    let chars = chars_of(s);
    let (a, b) = trim_bounds(&chars);
    if b - a <= max {
        return string_from_range(&chars, a, b);
    }
    let keep = if max >= 1 {
        max - 1
    } else {
        0
    };
    let mut out = string_from_range(&chars, a, a + keep);
    push_char(&mut out, '…');
    assert(chars@.subrange(a as int, (a + keep) as int) == trim(s@).take(keep as int));
    out
}

/// A byte count in binary units, as the hub shows it (up to `Tio`).
pub open spec fn human_bytes_text(octets: int) -> Seq<char> {
    if octets < 0 {
        "—"@
    } else {
        let f = as_f64(octets as nat);
        let i = unit_from(f, 0, 4);
        if i == 0 {
            decimal(octets as nat) + " o"@
        } else {
            scaled_text(f, i)
        }
    }
}

/// Readable size in binary units.
pub fn human_bytes(octets: i64) -> (out: String)
    ensures
        out@ == human_bytes_text(octets as int),
{
    if octets < 0 {
        return "—".to_owned();
    }
    let f = f64_value(octets as u64);
    let (i, q) = binary_unit(f, 4);
    let mut out = String::new();
    if i == 0 {
        push_decimal(&mut out, octets as u64);
        out.append(" o");
    } else {
        proof {
            crate::units::lemma_tenths_bound(f as nat, i as nat);
        }
        push_tenths(&mut out, q);
        push_char(&mut out, ' ');
        push_unit(&mut out, i);
        assert(out@ =~= scaled_text(f as nat, i as nat));
    }
    out
}

/// Where a source repository lives: a full URL is kept, `owner/repo` is
/// resolved on GitHub.
pub open spec fn repo_url_of(raw: Seq<char>) -> Seq<char> {
    let r = trim(raw);
    if starts_with_seq(r, "http://"@) || starts_with_seq(r, "https://"@) {
        r
    } else {
        "https://github.com/"@ + r.skip(lead_count(r, '/') as int)
    }
}

/// URL of the source repository.
pub fn repo_url(raw: &str) -> (out: String)
    ensures
        out@ == repo_url_of(raw@),
{
    let chars = chars_of(raw);
    let (a, b) = trim_bounds(&chars);
    let r = string_from_range(&chars, a, b);
    let rc = chars_of(r.as_str());
    let http = chars_of("http://");
    let https = chars_of("https://");
    if starts_with_chars(&rc, &http) || starts_with_chars(&rc, &https) {
        return r;
    }
    let mut i: usize = 0;
    while i < rc.len() && rc[i] == '/'
        invariant
            i <= rc@.len(),
            forall|k: int| 0 <= k < i ==> rc@[k] == '/',
        decreases rc@.len() - i,
    {
        i += 1;
    }
    proof {
        crate::text::lemma_lead_count(rc@, '/', i as int);
    }
    let mut out = "https://github.com/".to_owned();
    let rest = string_from_range(&rc, i, rc.len());
    out.append(rest.as_str());
    assert(rc@.subrange(i as int, rc@.len() as int) =~= rc@.skip(i as int));
    out
}

} // verus!
