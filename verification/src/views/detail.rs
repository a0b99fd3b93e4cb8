//! Detail panel: the command typed for a terminal session and the short form
//! of container states.
use vstd::prelude::*;

use crate::text::{
    ascii_lower_seq, ascii_lowercase_range, before_first, chars_of, find_char, is_white,
    is_white_char, same_text, string_from_chars, trim, trim_bounds,
};
use crate::text::{opt_view, same_opt_text};
use crate::views::graph::ObjectSummary;
use crate::widgets::confirm::ResourceRef;

verus! {

/// Whitespace-separated words of `rest`, the current word being `cur`
/// (`str::split_whitespace`).
pub open spec fn words_from(rest: Seq<char>, cur: Seq<char>) -> Seq<Seq<char>>
    decreases rest.len(),
{
    if rest.len() == 0 {
        if cur.len() > 0 {
            seq![cur]
        } else {
            Seq::empty()
        }
    } else if is_white(rest[0]) {
        (if cur.len() > 0 {
            seq![cur]
        } else {
            Seq::empty()
        }) + words_from(rest.drop_first(), Seq::empty())
    } else {
        words_from(rest.drop_first(), cur.push(rest[0]))
    }
}

/// The words of `s`.
pub open spec fn words(s: Seq<char>) -> Seq<Seq<char>> {
    words_from(s, Seq::empty())
}

/// The command run by a terminal session: the typed words, or `/bin/sh`
/// when nothing was typed.
pub open spec fn command_words(typed: Seq<char>) -> Seq<Seq<char>> {
    if words(typed).len() == 0 {
        seq!["/bin/sh"@]
    } else {
        words(typed)
    }
}

/// Splits a typed command on whitespace; an empty input opens `/bin/sh`.
pub fn decouper_commande(saisie: &str) -> (r: Vec<String>)
    ensures
        r@.len() == command_words(saisie@).len(),
        forall|k: int| 0 <= k < r@.len() ==> #[trigger] r@[k]@ == command_words(saisie@)[k],
{
    let chars = chars_of(saisie);
    let n = chars.len();
    let mut out: Vec<String> = Vec::new();
    let mut cur: Vec<char> = Vec::new();
    let mut i: usize = 0;
    assert(chars@.skip(0) == chars@);
    while i < n
        invariant
            n == chars@.len(),
            chars@ == saisie@,
            i <= n,
            ({
                let done = out@.map_values(|s: String| s@);
                done + words_from(chars@.skip(i as int), cur@) == words(saisie@)
            }),
        decreases n - i,
    {
        let c = chars[i];
        let ghost rest = chars@.skip(i as int);
        let ghost done = out@.map_values(|s: String| s@);
        assert(rest.drop_first() == chars@.skip(i + 1));
        if is_white_char(c) {
            if cur.len() > 0 {
                let w = string_from_chars(&cur);
                out.push(w);
                assert(out@.map_values(|s: String| s@) == done + seq![cur@]);
            } else {
                assert(out@.map_values(|s: String| s@) == done + Seq::<Seq<char>>::empty());
            }
            cur = Vec::new();
            assert(cur@ == Seq::<char>::empty());
        } else {
            cur.push(c);
        }
        i += 1;
    }
    let ghost done = out@.map_values(|s: String| s@);
    assert(chars@.skip(n as int).len() == 0);
    if cur.len() > 0 {
        let w = string_from_chars(&cur);
        out.push(w);
        assert(out@.map_values(|s: String| s@) == done + seq![cur@]);
    } else {
        assert(done + Seq::<Seq<char>>::empty() == done);
    }
    assert(out@.map_values(|s: String| s@) == words(saisie@));
    if out.len() == 0 {
        let mut d: Vec<String> = Vec::new();
        d.push("/bin/sh".to_owned());
        assert(d@.map_values(|s: String| s@) =~= command_words(saisie@));
        assert(forall|k: int| 0 <= k < d@.len() ==> #[trigger] d@[k]@ == d@.map_values(|s: String| s@)[k]);
        d
    } else {
        assert(forall|k: int| 0 <= k < out@.len() ==> #[trigger] out@[k]@ == out@.map_values(|s: String| s@)[k]);
        out
    }
}

/// `waiting: CrashLoopBackOff` → `CrashLoopBackOff`: the trimmed part after the
/// first `:`, or the whole state trimmed.
pub open spec fn short_state(s: Seq<char>) -> Seq<char> {
    let head = before_first(s, ':');
    if head.len() < s.len() {
        trim(s.skip(head.len() as int + 1))
    } else {
        trim(s)
    }
}

proof fn lemma_before_first_found(s: Seq<char>, i: int)
    requires
        0 <= i <= s.len(),
        forall|k: int| 0 <= k < i ==> s[k] != ':',
        i == s.len() || s[i] == ':',
    ensures
        before_first(s, ':').len() == i,
    decreases i,
{
    if i > 0 {
        let t = s.drop_first();
        assert forall|k: int| 0 <= k < i - 1 implies t[k] != ':' by {
            assert(t[k] == s[k + 1]);
        }
        if i < s.len() {
            assert(t[i - 1] == s[i]);
        }
        lemma_before_first_found(t, i - 1);
    }
}

/// Short form of a container state.
pub fn etat_court(etat: &str) -> (r: &str)
    ensures
        r@ == short_state(etat@),
{
    let chars = chars_of(etat);
    let n = chars.len();
    let i = find_char(&chars, 0, ':');
    proof {
        lemma_before_first_found(chars@, i as int);
    }
    let from: usize = if i < n {
        i + 1
    } else {
        0
    };
    let mut sub: Vec<char> = Vec::new();
    let mut k: usize = from;
    while k < n
        invariant
            from <= k <= n == chars@.len(),
            sub@ == chars@.subrange(from as int, k as int),
        decreases n - k,
    {
        sub.push(chars[k]);
        k += 1;
    }
    let (a, b) = trim_bounds(&sub);
    assert(chars@.subrange((from + a) as int, (from + b) as int) == sub@.subrange(a as int, b as int));
    assert(chars@.skip(from as int) == sub@);
    assert(sub@.subrange(a as int, b as int) == trim(sub@));
    if i < n {
        assert(short_state(etat@) == trim(etat@.skip(i + 1)));
    } else {
        assert(etat@.skip(0) == etat@);
        assert(short_state(etat@) == trim(etat@));
    }
    etat.substring_char(from + a, from + b)
}


/// How an event of the cluster is shown, by its type.
#[derive(Debug, Clone, Copy, PartialEq, Eq)]
pub enum EventTone {
    /// `Warning`.
    Warning,
    /// `Error`.
    Error,
    /// Anything else.
    Info,
}

/// The tone of an event type, ASCII letters compared case-insensitively.
pub open spec fn tone_of(type_: Seq<char>) -> EventTone {
    if ascii_lower_seq(type_) == "warning"@ {
        EventTone::Warning
    } else if ascii_lower_seq(type_) == "error"@ {
        EventTone::Error
    } else {
        EventTone::Info
    }
}

/// ASCII lower case of a text.
fn lowered(s: &str) -> (out: String)
    ensures
        out@ == ascii_lower_seq(s@),
{
    let chars = chars_of(s);
    assert(chars@.subrange(0, chars@.len() as int) =~= chars@);
    ascii_lowercase_range(&chars, 0, chars.len())
}

/// Tone of an event of the cluster, by its type.
pub fn ton_evenement(type_: &str) -> (t: EventTone)
    ensures
        t == tone_of(type_@),
{
    let low = lowered(type_);
    if same_text(low.as_str(), "warning") {
        EventTone::Warning
    } else if same_text(low.as_str(), "error") {
        EventTone::Error
    } else {
        EventTone::Info
    }
}

/// True when the reference designates a pod.
pub fn est_pod(reference: &ResourceRef) -> (b: bool)
    ensures
        b == (ascii_lower_seq(reference.kind@) == "pod"@),
{
    let low = lowered(reference.kind.as_str());
    same_text(low.as_str(), "pod")
}


/// The row of the table that a reference designates: same name, same
/// namespace, and the same kind unless the row does not say.
pub open spec fn row_designated(row: ObjectSummary, reference: ResourceRef) -> bool {
    &&& row.name@ == reference.name@
    &&& opt_view(row.namespace) == opt_view(reference.namespace)
    &&& (row.kind@.len() == 0 || row.kind@ == reference.kind@)
}

/// The first row of the table that the selected reference designates.
pub fn ligne_courante<'a>(rows: &'a Vec<ObjectSummary>, reference: &ResourceRef) -> (r: Option<
    &'a ObjectSummary,
>)
    ensures
        match r {
            Some(row) => exists|i: int|
                0 <= i < rows@.len() && *row == rows@[i] && row_designated(rows@[i], *reference)
                    && forall|j: int| 0 <= j < i ==> !row_designated(rows@[j], *reference),
            None => forall|j: int| 0 <= j < rows@.len() ==> !row_designated(rows@[j], *reference),
        },
{
    let mut i: usize = 0;
    while i < rows.len()
        invariant
            i <= rows@.len(),
            forall|j: int| 0 <= j < i ==> !row_designated(rows@[j], *reference),
        decreases rows@.len() - i,
    {
        let row = &rows[i];
        if same_text(row.name.as_str(), reference.name.as_str()) && same_opt_text(
            &row.namespace,
            &reference.namespace,
        ) && (row.kind.as_str().is_empty() || same_text(row.kind.as_str(), reference.kind.as_str())) {
            return Some(row);
        }
        i += 1;
    }
    None
}

} // verus!
