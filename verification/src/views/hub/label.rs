//! The names that free texts become are DNS-1123 labels, and a label is
//! left as it is.
use vstd::prelude::*;

use crate::text::{
    ascii_lower, ascii_lower_seq, is_white, lead_count, lemma_lead_count, lemma_lead_white,
    lemma_trail_count, lemma_trail_white, strip_both, strip_end, trail_count, trim,
};
use crate::views::hub::{collapse_to_label, is_ascii_alnum, label_of, MAX_LABEL};

verus! {

/// A character of a DNS-1123 label: a lower-case ASCII letter, a digit, or
/// `-`.
pub open spec fn label_char(c: char) -> bool {
    ('a' <= c && c <= 'z') || ('0' <= c && c <= '9') || c == '-'
}

/// No two `-` follow each other in `s`.
pub open spec fn no_double_dash(s: Seq<char>) -> bool {
    forall|k: int| 0 <= k < s.len() - 1 ==> !(#[trigger] s[k] == '-' && s[k + 1] == '-')
}

/// Label characters only, no two `-` in a row.
pub open spec fn label_body(s: Seq<char>) -> bool {
    &&& forall|k: int| 0 <= k < s.len() ==> label_char(#[trigger] s[k])
    &&& no_double_dash(s)
}

/// A DNS-1123 label: one to 63 label characters, starting and ending with a
/// letter or a digit, without two `-` in a row.
pub open spec fn dns_label(s: Seq<char>) -> bool {
    &&& 1 <= s.len() <= MAX_LABEL
    &&& label_body(s)
    &&& s[0] != '-'
    &&& s.last() != '-'
}

/// No ASCII capital in `s`.
pub open spec fn no_capital(s: Seq<char>) -> bool {
    forall|k: int| 0 <= k < s.len() ==> !('A' <= #[trigger] s[k] && s[k] <= 'Z')
}

proof fn lemma_lower_has_no_capital(s: Seq<char>)
    ensures
        no_capital(ascii_lower_seq(s)),
{
    assert forall|k: int| 0 <= k < ascii_lower_seq(s).len() implies !('A' <= #[trigger] ascii_lower_seq(s)[k]
        && ascii_lower_seq(s)[k] <= 'Z') by {
        let c = s[k];
        assert(ascii_lower_seq(s)[k] == ascii_lower(c));
    }
}

proof fn lemma_collapse_body(s: Seq<char>)
    requires
        no_capital(s),
    ensures
        label_body(collapse_to_label(s)),
        collapse_to_label(s).len() <= s.len(),
    decreases s.len(),
{
    if s.len() > 0 {
        let t = s.drop_last();
        assert(no_capital(t)) by {
            assert forall|k: int| 0 <= k < t.len() implies !('A' <= #[trigger] t[k] && t[k] <= 'Z') by {
                assert(t[k] == s[k]);
            }
        }
        lemma_collapse_body(t);
        let prev = collapse_to_label(t);
        let c = s.last();
        assert(!('A' <= s[s.len() - 1] && s[s.len() - 1] <= 'Z'));
        let r = collapse_to_label(s);
        assert forall|k: int| 0 <= k < r.len() implies label_char(#[trigger] r[k]) by {
            if k < prev.len() {
                assert(r[k] == prev[k]);
            }
        }
        assert forall|k: int| 0 <= k < r.len() - 1 implies !(#[trigger] r[k] == '-' && r[k + 1] == '-') by {
            if k + 1 < prev.len() {
                assert(r[k] == prev[k] && r[k + 1] == prev[k + 1]);
            } else {
                assert(r[k] == prev[k]);
            }
        }
    }
}

/// A piece of a label body is a label body.
proof fn lemma_body_sub(s: Seq<char>, a: int, b: int)
    requires
        label_body(s),
        0 <= a <= b <= s.len(),
    ensures
        label_body(s.subrange(a, b)),
{
    let t = s.subrange(a, b);
    assert forall|k: int| 0 <= k < t.len() implies label_char(#[trigger] t[k]) by {
        assert(t[k] == s[a + k]);
    }
    assert forall|k: int| 0 <= k < t.len() - 1 implies !(#[trigger] t[k] == '-' && t[k + 1] == '-') by {
        assert(t[k] == s[a + k] && t[k + 1] == s[a + k + 1]);
    }
}

proof fn lemma_lead_count_stop(s: Seq<char>, c: char)
    ensures
        lead_count(s, c) <= s.len(),
        lead_count(s, c) < s.len() ==> s[lead_count(s, c) as int] != c,
    decreases s.len(),
{
    if s.len() > 0 && s[0] == c {
        lemma_lead_count_stop(s.drop_first(), c);
    }
}

proof fn lemma_trail_count_stop(s: Seq<char>, c: char)
    ensures
        trail_count(s, c) <= s.len(),
        trail_count(s, c) < s.len() ==> s[s.len() - trail_count(s, c) - 1] != c,
    decreases s.len(),
{
    if s.len() > 0 && s.last() == c {
        lemma_trail_count_stop(s.drop_last(), c);
    }
}

/// What the name of any text is: a DNS-1123 label.
pub proof fn lemma_label_of_is_dns(raw: Seq<char>)
    ensures
        dns_label(label_of(raw)),
{
    let low = ascii_lower_seq(trim(raw));
    lemma_lower_has_no_capital(trim(raw));
    lemma_collapse_body(low);
    let collapsed = collapse_to_label(low);
    lemma_lead_count_stop(collapsed, '-');
    let l = lead_count(collapsed, '-') as int;
    let rest = collapsed.skip(l);
    lemma_body_sub(collapsed, l, collapsed.len() as int);
    assert(rest == collapsed.subrange(l, collapsed.len() as int));
    lemma_trail_count_stop(rest, '-');
    let stripped = strip_both(collapsed, '-');
    assert(stripped == rest.take(rest.len() - trail_count(rest, '-')));
    lemma_body_sub(rest, 0, rest.len() - trail_count(rest, '-'));
    assert(stripped == rest.subrange(0, rest.len() - trail_count(rest, '-')));
    let taken = if stripped.len() <= MAX_LABEL { stripped } else { stripped.take(MAX_LABEL as int) };
    lemma_body_sub(stripped, 0, taken.len() as int);
    assert(taken == stripped.subrange(0, taken.len() as int));
    lemma_trail_count_stop(taken, '-');
    let out = strip_end(taken, '-');
    lemma_body_sub(taken, 0, out.len() as int);
    assert(out == taken.subrange(0, out.len() as int));
    if out.len() == 0 {
        reveal_strlit("application");
        let app = "application"@;
        assert forall|k: int| 0 <= k < app.len() implies label_char(#[trigger] app[k]) by {}
        assert forall|k: int| 0 <= k < app.len() - 1 implies !(#[trigger] app[k] == '-' && app[k + 1] == '-') by {}
    } else {
        assert(out[0] == stripped[0]);
        assert(stripped[0] == rest[0]);
    }
}

/// A label body without leading `-` collapses to itself.
proof fn lemma_collapse_fixed(s: Seq<char>)
    requires
        label_body(s),
        s.len() > 0 ==> s[0] != '-',
    ensures
        collapse_to_label(s) == s,
    decreases s.len(),
{
    if s.len() > 0 {
        let t = s.drop_last();
        lemma_body_sub(s, 0, s.len() - 1);
        assert(t == s.subrange(0, s.len() - 1));
        if t.len() > 0 {
            assert(t[0] == s[0]);
        }
        lemma_collapse_fixed(t);
        let c = s.last();
        if !is_ascii_alnum(c) {
            assert(c == '-');
            assert(s.len() >= 2);
            assert(s[s.len() - 2] != '-');
            assert(t.last() == s[s.len() - 2]);
        }
        assert(t.push(c) == s);
    }
}

/// A label is its own name: naming a name changes nothing.
pub proof fn lemma_label_of_idempotent(raw: Seq<char>)
    ensures
        label_of(label_of(raw)) == label_of(raw),
{
    lemma_label_of_is_dns(raw);
    let x = label_of(raw);
    let n = x.len() as int;
    assert(!is_white(x[0]));
    assert(!is_white(x[n - 1]));
    lemma_lead_white(x, 0);
    assert(x.skip(0) == x);
    lemma_trail_white(x, n);
    assert(x.take(n) == x);
    assert(trim(x) == x);
    assert forall|k: int| 0 <= k < n implies #[trigger] ascii_lower_seq(x)[k] == x[k] by {
        assert(label_char(x[k]));
    }
    assert(ascii_lower_seq(x) == x);
    lemma_collapse_fixed(x);
    lemma_lead_count(x, '-', 0);
    assert(x.skip(0) == x);
    lemma_trail_count(x, '-', n);
    assert(strip_end(x, '-') == x);
    assert(strip_both(x, '-') == x);
}

} // verus!
