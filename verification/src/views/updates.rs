//! Updates screen: tabs, pending confirmations and the cleaning of release
//! notes fetched from the Internet before they are displayed.
use vstd::prelude::*;

use crate::text::push_char;

pub mod watchers;

pub use self::watchers::{
    UpdateChannel, UpdatePolicy, UpdateSource, WatchTarget, WatcherSpec,
};

verus! {

/// Active tab.
#[derive(Debug, Clone, Copy, PartialEq, Eq, Default)]
pub enum UpdatesTab {
    /// Declared watchers.
    #[default]
    Watchers,
    /// Detected updates.
    Findings,
    /// Cluster inventory and suggested watchers.
    Discovery,
    /// History of applied updates.
    History,
    /// Settings of the update module.
    Settings,
}

/// The three mutually exclusive origins of an upstream version.
#[derive(Debug, Clone, Copy, PartialEq, Eq, Default)]
pub enum SourceMode {
    /// Releases (or tags) of a GitHub repository.
    #[default]
    Github,
    /// Tags of a container image.
    Image,
    /// Versions of a Helm chart.
    Chart,
}

/// A destructive or risky action waiting for a confirmation.
#[derive(Debug, Clone, PartialEq, Eq)]
pub enum UpdatesConfirm {
    /// Removal of a watcher.
    RemoveWatcher {
        /// Identifier of the watcher.
        id: String,
        /// Name shown in the question.
        name: String,
    },
    /// Application of a detected update.
    ApplyFinding {
        /// Identifier of the finding.
        id: String,
        /// Readable target (`namespace/Kind/name`).
        target: String,
        /// Exact image that will be deployed.
        image: String,
    },
}

/// Size limit of cleaned release notes, in UTF-8 bytes.
pub const NOTES_MAX: usize = 20000;

/// Unicode control characters (`char::is_control`): C0, DEL and C1.
pub open spec fn is_control(c: char) -> bool {
    c <= '\u{1f}' || ('\u{7f}' <= c && c <= '\u{9f}')
}

/// Characters kept in release notes: line feeds, tabs and every character
/// that is not a control character.
pub open spec fn kept_in_notes(c: char) -> bool {
    c == '\n' || c == '\t' || !is_control(c)
}

/// Number of bytes of the UTF-8 encoding of `c`.
pub open spec fn utf8_width(c: char) -> nat {
    if c <= '\u{7f}' {
        1
    } else if c <= '\u{7ff}' {
        2
    } else if c <= '\u{ffff}' {
        3
    } else {
        4
    }
}

/// Number of bytes of the UTF-8 encoding of `s`.
pub open spec fn utf8_size(s: Seq<char>) -> nat
    decreases s.len(),
{
    if s.len() == 0 {
        0
    } else {
        utf8_size(s.drop_last()) + utf8_width(s.last())
    }
}

/// The marker appended to notes that were cut.
pub open spec fn notes_cut_marker() -> Seq<char> {
    "\n… (notes tronquées)"@
}

/// Cleaning of `rest` after `out` was produced: control characters are
/// dropped, and once `out` reaches the size limit the marker ends the text.
pub open spec fn notes_from(rest: Seq<char>, out: Seq<char>) -> Seq<char>
    decreases rest.len(),
{
    if rest.len() == 0 {
        out
    } else if utf8_size(out) >= NOTES_MAX {
        out + notes_cut_marker()
    } else if kept_in_notes(rest[0]) {
        notes_from(rest.drop_first(), out.push(rest[0]))
    } else {
        notes_from(rest.drop_first(), out)
    }
}

/// Release notes as displayed: raw text, without control characters, bounded.
pub open spec fn plain_notes(raw: Seq<char>) -> Seq<char> {
    notes_from(raw, Seq::empty())
}

fn is_control_char(c: char) -> (b: bool)
    ensures
        b == is_control(c),
{
    c <= '\u{1f}' || ('\u{7f}' <= c && c <= '\u{9f}')
}

fn utf8_width_of(c: char) -> (w: usize)
    ensures
        w == utf8_width(c),
{
    if c <= '\u{7f}' {
        1
    } else if c <= '\u{7ff}' {
        2
    } else if c <= '\u{ffff}' {
        3
    } else {
        4
    }
}

/// Makes a text that comes from the Internet safe to display: control
/// characters are removed and the length is bounded.
pub fn texte_brut(brut: &str) -> (out: String)
    ensures
        out@ == plain_notes(brut@),
{
    let mut out = String::new();
    let mut size: usize = 0;
    let ghost raw = brut@;
    let mut i: usize = 0;
    let chars = crate::text::chars_of(brut);
    let n = chars.len();
    assert(raw.skip(0) == raw);
    while i < n
        invariant
            n == chars@.len(),
            chars@ == raw,
            raw == brut@,
            i <= n,
            size == utf8_size(out@),
            size < NOTES_MAX + 4,
            notes_from(raw.skip(i as int), out@) == plain_notes(raw),
        decreases n - i,
    {
        let c = chars[i];
        assert(raw.skip(i as int).drop_first() == raw.skip(i as int + 1));
        if size >= NOTES_MAX {
            let ghost before = out@;
            out.append("\n… (notes tronquées)");
            assert(notes_from(raw.skip(i as int), before) == before + notes_cut_marker());
            return out;
        }
        if c == '\n' || c == '\t' || !is_control_char(c) {
            let ghost before = out@;
            push_char(&mut out, c);
            assert(out@.drop_last() == before);
            size = size + utf8_width_of(c);
        }
        i += 1;
    }
    assert(raw.skip(i as int).len() == 0);
    out
}

/// Cleaned notes never exceed the size limit by more than one character and
/// the marker.
pub proof fn lemma_notes_bounded(rest: Seq<char>, out: Seq<char>)
    requires
        utf8_size(out) < NOTES_MAX + 4,
    ensures
        utf8_size(notes_from(rest, out)) < NOTES_MAX + 4 + utf8_size(notes_cut_marker()),
    decreases rest.len(),
{
    if rest.len() == 0 {
    } else if utf8_size(out) >= NOTES_MAX {
        lemma_utf8_size_concat(out, notes_cut_marker());
    } else if kept_in_notes(rest[0]) {
        assert(out.push(rest[0]).drop_last() == out);
        lemma_notes_bounded(rest.drop_first(), out.push(rest[0]));
    } else {
        lemma_notes_bounded(rest.drop_first(), out);
    }
}

/// Cleaned notes hold no control character but line feeds and tabs.
pub proof fn lemma_notes_clean(rest: Seq<char>, out: Seq<char>)
    requires
        forall|k: int| 0 <= k < out.len() ==> kept_in_notes(#[trigger] out[k]),
    ensures
        forall|k: int|
            0 <= k < notes_from(rest, out).len() ==> kept_in_notes(#[trigger] notes_from(rest, out)[k]),
    decreases rest.len(),
{
    if rest.len() == 0 {
    } else if utf8_size(out) >= NOTES_MAX {
        let m = notes_cut_marker();
        assert(notes_from(rest, out) == out + m);
        reveal_strlit("\n… (notes tronquées)");
        assert(m =~= seq!['\n', '…', ' ', '(', 'n', 'o', 't', 'e', 's', ' ', 't', 'r', 'o', 'n', 'q', 'u', 'é', 'e', 's', ')']);
        assert forall|k: int| 0 <= k < (out + m).len() implies kept_in_notes(#[trigger] (out + m)[k]) by {
            if k >= out.len() {
                assert((out + m)[k] == m[k - out.len()]);
            }
        }
        assert(forall|k: int| 0 <= k < notes_from(rest, out).len() ==> #[trigger] notes_from(rest, out)[k] == (out + m)[k]);
    } else if kept_in_notes(rest[0]) {
        let o2 = out.push(rest[0]);
        assert forall|k: int| 0 <= k < o2.len() implies kept_in_notes(#[trigger] o2[k]) by {
            if k < out.len() {
                assert(o2[k] == out[k]);
            }
        }
        lemma_notes_clean(rest.drop_first(), o2);
        assert(notes_from(rest, out) == notes_from(rest.drop_first(), o2));
    } else {
        lemma_notes_clean(rest.drop_first(), out);
        assert(notes_from(rest, out) == notes_from(rest.drop_first(), out));
    }
}

proof fn lemma_utf8_size_concat(a: Seq<char>, b: Seq<char>)
    ensures
        utf8_size(a + b) == utf8_size(a) + utf8_size(b),
    decreases b.len(),
{
    if b.len() > 0 {
        assert((a + b).drop_last() == a + b.drop_last());
        lemma_utf8_size_concat(a, b.drop_last());
    } else {
        assert(a + b == a);
    }
}

} // verus!
