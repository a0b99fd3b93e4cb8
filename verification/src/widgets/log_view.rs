//! Log viewer: a bounded ring of lines, a case-insensitive filter and the
//! severity heuristic that colours each line.
use std::collections::VecDeque;

use vstd::prelude::*;
use vstd::utf8::*;

use crate::text::{
    ascii_lower_byte, ascii_lower_u8, contains_seq, contains_str, joined, lemma_split_joined,
    push_char, push_str, split_fields, to_lowercase, trim, trimmed, unicode_lower, views_of,
};

verus! {

/// Number of lines kept by default.
pub const DEFAULT_MAX_LINES: usize = 5000;

/// With line wrapping on, rendering cannot be virtualised: at most this many
/// lines are drawn.
pub const WRAP_MAX_ROWS: usize = 1000;

/// Number of bytes of a line that the severity heuristic looks at.
pub const SEVERITY_SCAN_BYTES: usize = 200;

/// Log viewer state.
#[derive(Debug, Clone)]
pub struct LogView {
    /// Ring of received lines, oldest first.
    pub lines: VecDeque<String>,
    /// The view sticks to the bottom of the stream.
    pub follow: bool,
    /// Case-insensitive filter, applied to display only.
    pub filter: String,
    /// Long lines are wrapped.
    pub wrap: bool,
    /// Capacity of the ring.
    pub max_lines: usize,
}

/// What the ring holds after appending to `lines`: the last `max` entries.
pub open spec fn ring_keep(lines: Seq<String>, max: nat) -> Seq<String> {
    let keep = if lines.len() <= max { lines.len() } else { max };
    lines.skip(lines.len() - keep)
}

/// The lines joined with `\n`, without a trailing newline.
pub open spec fn join_lines(lines: Seq<String>) -> Seq<char>
    decreases lines.len(),
{
    if lines.len() == 0 {
        Seq::empty()
    } else if lines.len() == 1 {
        lines[0]@
    } else {
        join_lines(lines.drop_last()) + seq!['\n'] + lines.last()@
    }
}

/// The exported text is the lines joined with `\n`.
proof fn lemma_join_lines_joined(lines: Seq<String>)
    ensures
        join_lines(lines) == joined(views_of(lines), seq!['\n']),
    decreases lines.len(),
{
    if lines.len() > 1 {
        lemma_join_lines_joined(lines.drop_last());
        assert(views_of(lines.drop_last()) =~= views_of(lines).drop_last());
    }
}

/// The export gives its lines back: cut at each `\n`, it is the lines of the
/// ring, in order, when no line holds a newline itself.
pub proof fn lemma_export_lines(lines: Seq<String>)
    requires
        lines.len() >= 1,
        forall|i: int, k: int| 0 <= i < lines.len() && 0 <= k < lines[i]@.len() ==> #[trigger] lines[i]@[k] != '\n',
    ensures
        split_fields(join_lines(lines), '\n') == views_of(lines),
{
    lemma_join_lines_joined(lines);
    let parts = views_of(lines);
    assert forall|i: int, k: int| 0 <= i < parts.len() && 0 <= k < parts[i].len() implies #[trigger] parts[i][k] != '\n' by {
        assert(parts[i] == lines[i]@);
    }
    lemma_split_joined(parts, '\n');
}

/// The keywords of an error, as ASCII bytes: `error`, `erreur`, `fatal`,
/// `panic`.
pub open spec fn error_word(head: Seq<u8>) -> bool {
    ||| contains_ci(head, seq![101u8, 114u8, 114u8, 111u8, 114u8])
    ||| contains_ci(head, seq![101u8, 114u8, 114u8, 101u8, 117u8, 114u8])
    ||| contains_ci(head, seq![102u8, 97u8, 116u8, 97u8, 108u8])
    ||| contains_ci(head, seq![112u8, 97u8, 110u8, 105u8, 99u8])
}

/// The keywords of a warning, as ASCII bytes: `warn`, `attention`,
/// `deprecat`.
pub open spec fn warning_word(head: Seq<u8>) -> bool {
    ||| contains_ci(head, seq![119u8, 97u8, 114u8, 110u8])
    ||| contains_ci(head, seq![97u8, 116u8, 116u8, 101u8, 110u8, 116u8, 105u8, 111u8, 110u8])
    ||| contains_ci(head, seq![100u8, 101u8, 112u8, 114u8, 101u8, 99u8, 97u8, 116u8])
}

proof fn lemma_ascii_word(w: Seq<char>)
    requires
        is_ascii_chars(w),
    ensures
        encode_utf8(w) == w.map_values(|c: char| c as u8),
{
    is_ascii_chars_encode_utf8(w);
    assert(encode_utf8(w) =~= w.map_values(|c: char| c as u8));
}

/// A line is an error when the head scanned holds, in any case, `error`,
/// `erreur`, `fatal` or `panic`; otherwise a warning when it holds `warn`,
/// `attention` or `deprecat`; otherwise a normal line.
pub proof fn lemma_severity_words(line: Seq<char>)
    ensures
        error_word(severity_head(line)) ==> severity_of(line) == Severity::Error,
        !error_word(severity_head(line)) && warning_word(severity_head(line)) ==> severity_of(line) == Severity::Warning,
        !error_word(severity_head(line)) && !warning_word(severity_head(line)) ==> severity_of(line) == Severity::Normal,
{
    let head = severity_head(line);
    reveal_strlit("error");
    lemma_ascii_word("error"@);
    assert(encode_utf8("error"@) == seq![101u8, 114u8, 114u8, 111u8, 114u8]);
    reveal_strlit("erreur");
    lemma_ascii_word("erreur"@);
    assert(encode_utf8("erreur"@) == seq![101u8, 114u8, 114u8, 101u8, 117u8, 114u8]);
    reveal_strlit("fatal");
    lemma_ascii_word("fatal"@);
    assert(encode_utf8("fatal"@) == seq![102u8, 97u8, 116u8, 97u8, 108u8]);
    reveal_strlit("panic");
    lemma_ascii_word("panic"@);
    assert(encode_utf8("panic"@) == seq![112u8, 97u8, 110u8, 105u8, 99u8]);
    reveal_strlit("warn");
    lemma_ascii_word("warn"@);
    assert(encode_utf8("warn"@) == seq![119u8, 97u8, 114u8, 110u8]);
    reveal_strlit("attention");
    lemma_ascii_word("attention"@);
    assert(encode_utf8("attention"@) == seq![97u8, 116u8, 116u8, 101u8, 110u8, 116u8, 105u8, 111u8, 110u8]);
    reveal_strlit("deprecat");
    lemma_ascii_word("deprecat"@);
    assert(encode_utf8("deprecat"@) == seq![100u8, 101u8, 112u8, 114u8, 101u8, 99u8, 97u8, 116u8]);
    reveal_strlit("\"level\":\"error\"");
    lemma_ascii_word("\"level\":\"error\""@);
    let level = encode_utf8("\"level\":\"error\""@);
    if contains_ci(head, level) {
        let i = choose|i: int| #[trigger] ci_match_at(head, level, i);
        assert(ci_match_at(head, seq![101u8, 114u8, 114u8, 111u8, 114u8], i + 9)) by {
            assert forall|k: int| 0 <= k < 5 implies ascii_lower_byte(#[trigger] head[i + 9 + k]) == ascii_lower_byte(seq![101u8, 114u8, 114u8, 111u8, 114u8][k]) by {
                assert(ascii_lower_byte(head[i + (9 + k)]) == ascii_lower_byte(level[9 + k]));
            }
        }
    }
}

/// `needle` occurs in `hay` at byte `i`, ASCII letters folded to lower case.
pub open spec fn ci_match_at(hay: Seq<u8>, needle: Seq<u8>, i: int) -> bool {
    0 <= i && i + needle.len() <= hay.len() && forall|k: int|
        0 <= k < needle.len() ==> ascii_lower_byte(#[trigger] hay[i + k]) == ascii_lower_byte(
            needle[k],
        )
}

/// `needle` occurs in `hay` when both are compared byte by byte, ASCII letters
/// folded to lower case.
pub open spec fn contains_ci(hay: Seq<u8>, needle: Seq<u8>) -> bool {
    exists|i: int| #[trigger] ci_match_at(hay, needle, i)
}

/// The filter rule: an empty needle matches every line; ASCII text is folded
/// byte by byte, anything else through the Unicode lower case of the line.
pub open spec fn filter_matches(line: Seq<char>, needle_lower: Seq<char>) -> bool {
    if needle_lower.len() == 0 {
        true
    } else if is_ascii_chars(needle_lower) && is_ascii_chars(line) {
        contains_ci(encode_utf8(line), encode_utf8(needle_lower))
    } else {
        contains_seq(unicode_lower(line), needle_lower)
    }
}

/// The needle that a filter text stands for: trimmed, then lower-cased.
pub open spec fn filter_needle(filter: Seq<char>) -> Seq<char> {
    unicode_lower(trim(filter))
}

/// Indices of the first `n` lines that match `needle`, in increasing order.
pub open spec fn matching_upto(lines: Seq<String>, needle: Seq<char>, n: nat) -> Seq<usize>
    decreases n,
{
    if n == 0 {
        Seq::empty()
    } else {
        let before = matching_upto(lines, needle, (n - 1) as nat);
        if filter_matches(lines[n - 1]@, needle) {
            before.push((n - 1) as usize)
        } else {
            before
        }
    }
}

/// Severity deduced from a log line.
#[derive(Debug, Clone, Copy, PartialEq, Eq)]
pub enum Severity {
    Normal,
    Warning,
    Error,
}

/// Largest byte index `<= end` that falls on a character boundary.
pub open spec fn boundary_at_or_before(bytes: Seq<u8>, end: int) -> int
    decreases end,
{
    if end <= 0 || is_char_boundary(bytes, end) {
        if end <= 0 { 0 } else { end }
    } else {
        boundary_at_or_before(bytes, end - 1)
    }
}

/// The bytes of a line that the severity heuristic reads.
pub open spec fn severity_head(line: Seq<char>) -> Seq<u8> {
    let bytes = encode_utf8(line);
    let end = if bytes.len() < SEVERITY_SCAN_BYTES { bytes.len() as int } else {
        SEVERITY_SCAN_BYTES as int
    };
    bytes.take(boundary_at_or_before(bytes, end))
}

/// Severity of a line: an error keyword anywhere in its head wins, then a
/// warning keyword.
pub open spec fn severity_of(line: Seq<char>) -> Severity {
    let head = severity_head(line);
    if contains_ci(head, encode_utf8("error"@)) || contains_ci(head, encode_utf8("erreur"@))
        || contains_ci(head, encode_utf8("fatal"@)) || contains_ci(head, encode_utf8("panic"@))
        || contains_ci(head, encode_utf8("\"level\":\"error\""@)) {
        Severity::Error
    } else if contains_ci(head, encode_utf8("warn"@)) || contains_ci(head, encode_utf8(
        "attention"@,
    )) || contains_ci(head, encode_utf8("deprecat"@)) {
        Severity::Warning
    } else {
        Severity::Normal
    }
}

impl Default for LogView {
    fn default() -> (v: Self)
        ensures
            v.lines@.len() == 0,
            v.follow,
            v.filter@.len() == 0,
            !v.wrap,
            v.max_lines == DEFAULT_MAX_LINES,
    {
        LogView {
            lines: VecDeque::new(),
            follow: true,
            filter: String::new(),
            wrap: false,
            max_lines: DEFAULT_MAX_LINES,
        }
    }
}

impl LogView {
    /// Empty viewer, following the stream.
    pub fn new() -> (v: Self)
        ensures
            v.lines@.len() == 0,
            v.follow,
            v.filter@.len() == 0,
            !v.wrap,
            v.max_lines == DEFAULT_MAX_LINES,
    {
        Self::default()
    }

    /// Appends a line and evicts the oldest ones beyond `max_lines`.
    ///
    /// This is the only way in for data: the ring stays bounded whatever
    /// happens.
    pub fn push(&mut self, line: String)
        ensures
            final(self).lines@ == ring_keep(old(self).lines@.push(line), old(self).max_lines as nat),
            final(self).follow == old(self).follow,
            final(self).filter == old(self).filter,
            final(self).wrap == old(self).wrap,
            final(self).max_lines == old(self).max_lines,
    {
        if self.max_lines == 0 {
            self.lines.clear();
            return;
        }
        let ghost all = old(self).lines@.push(line);
        self.lines.push_back(line);
        let ghost mut dropped: int = 0;
        while self.lines.len() > self.max_lines
            invariant
                0 <= dropped <= all.len(),
                self.lines@ == all.skip(dropped),
                self.max_lines >= 1,
                self.max_lines == old(self).max_lines,
                self.follow == old(self).follow,
                self.filter == old(self).filter,
                self.wrap == old(self).wrap,
                all.len() - dropped >= self.max_lines || dropped == 0,
            decreases self.lines@.len(),
        {
            self.lines.pop_front();
            proof {
                dropped = dropped + 1;
            }
        }
        assert(self.lines@ =~= ring_keep(all, self.max_lines as nat));
    }

    /// Empties the ring.
    pub fn clear(&mut self)
        ensures
            final(self).lines@.len() == 0,
            final(self).follow == old(self).follow,
            final(self).filter == old(self).filter,
            final(self).wrap == old(self).wrap,
            final(self).max_lines == old(self).max_lines,
    {
        self.lines.clear();
    }

    /// Number of lines kept.
    pub fn len(&self) -> (n: usize)
        ensures
            n == self.lines@.len(),
    {
        self.lines.len()
    }

    /// True when no line is kept.
    pub fn is_empty(&self) -> (b: bool)
        ensures
            b == (self.lines@.len() == 0),
    {
        self.lines.len() == 0
    }

    /// The whole ring as text, one line per line.
    pub fn export(&self) -> (out: String)
        ensures
            out@ == join_lines(self.lines@),
    {
        let mut out = String::new();
        let n = self.lines.len();
        let mut i: usize = 0;
        while i < n
            invariant
                i <= n == self.lines@.len(),
                out@ == join_lines(self.lines@.take(i as int)),
            decreases n - i,
        {
            proof {
                let t = self.lines@.take(i + 1);
                assert(t.drop_last() == self.lines@.take(i as int));
                assert(t.last() == self.lines@[i as int]);
            }
            if i > 0 {
                push_char(&mut out, '\n');
            }
            push_str(&mut out, self.lines[i].as_str());
            proof {
                if i == 0 {
                    assert(self.lines@.take(1) =~= seq![self.lines@[0]]);
                }
            }
            i += 1;
        }
        assert(self.lines@.take(n as int) == self.lines@);
        out
    }

    /// Indices of the lines matching the current filter.
    ///
    /// `None` stands for "every line": no index vector is built while the
    /// filter is empty.
    pub fn matching(&self) -> (r: Option<Vec<usize>>)
        ensures
            match r {
                None => filter_needle(self.filter@).len() == 0,
                Some(v) => filter_needle(self.filter@).len() > 0 && v@ == matching_upto(
                    self.lines@,
                    filter_needle(self.filter@),
                    self.lines@.len(),
                ),
            },
    {
        let trimmed_filter = trimmed(self.filter.as_str());
        let needle = to_lowercase(trimmed_filter.as_str());
        if needle.as_str().is_empty() {
            return None;
        }
        let ghost nd = needle@;
        let mut out: Vec<usize> = Vec::new();
        let n = self.lines.len();
        let mut i: usize = 0;
        while i < n
            invariant
                i <= n == self.lines@.len(),
                nd == needle@,
                out@ == matching_upto(self.lines@, nd, i as nat),
            decreases n - i,
        {
            if matches_filter(self.lines[i].as_str(), needle.as_str()) {
                out.push(i);
            }
            i += 1;
        }
        Some(out)
    }
}

/// Translates a display position into an index of the ring.
pub fn resolve(matched: Option<&Vec<usize>>, position: usize) -> (r: Option<usize>)
    ensures
        match matched {
            None => r == Some(position),
            Some(v) => if position < v@.len() {
                r == Some(v@[position as int])
            } else {
                r is None
            },
        },
{
    match matched {
        Some(indices) => {
            if position < indices.len() {
                Some(indices[position])
            } else {
                None
            }
        },
        None => Some(position),
    }
}

/// Byte-wise ASCII case-insensitive search in the first `hay_len` bytes of
/// `hay`.
fn contains_ci_bytes(hay: &[u8], hay_len: usize, needle: &[u8]) -> (b: bool)
    requires
        hay_len <= hay@.len(),
    ensures
        b == contains_ci(hay@.take(hay_len as int), needle@),
{
    let ghost h = hay@.take(hay_len as int);
    let m = needle.len();
    if m == 0 {
        assert(ci_match_at(h, needle@, 0));
        return true;
    }
    if m > hay_len {
        return false;
    }
    let mut i: usize = 0;
    while i <= hay_len - m
        invariant
            1 <= m <= hay_len <= hay@.len(),
            m == needle@.len(),
            h == hay@.take(hay_len as int),
            forall|p: int| 0 <= p < i ==> !#[trigger] ci_match_at(h, needle@, p),
        decreases hay_len - i,
    {
        let mut k: usize = 0;
        let mut same = true;
        while k < m
            invariant
                k <= m,
                i + m <= hay_len <= hay@.len(),
                m == needle@.len(),
                h == hay@.take(hay_len as int),
                same == forall|q: int|
                    0 <= q < k ==> ascii_lower_byte(#[trigger] h[i + q]) == ascii_lower_byte(
                        needle@[q],
                    ),
            decreases m - k,
        {
            let a = ascii_lower_u8(hay[i + k]);
            let c = ascii_lower_u8(needle[k]);
            proof {
                assert(h[i + k] == hay@[i + k]);
            }
            if a != c {
                same = false;
            }
            k += 1;
        }
        if same {
            assert(ci_match_at(h, needle@, i as int));
            return true;
        }
        i += 1;
    }
    proof {
        assert forall|p: int| !#[trigger] ci_match_at(h, needle@, p) by {
            if ci_match_at(h, needle@, p) {
                assert(p < i);
            }
        }
    }
    false
}

/// ASCII case-insensitive search, without allocation.
pub fn contains_ascii_ci(haystack: &str, needle_lower: &str) -> (b: bool)
    ensures
        b == contains_ci(encode_utf8(haystack@), encode_utf8(needle_lower@)),
{
    let hay = haystack.as_bytes();
    let needle = needle_lower.as_bytes();
    let r = contains_ci_bytes(hay, hay.len(), needle);
    assert(hay@.take(hay@.len() as int) == hay@);
    r
}

/// Applies the filter to a line; `needle_lower` is already lower-cased.
///
/// ASCII text, by far the usual case in logs, is searched without
/// allocation; anything else goes through a full Unicode lower-casing.
pub fn matches_filter(line: &str, needle_lower: &str) -> (b: bool)
    ensures
        b == filter_matches(line@, needle_lower@),
{
    if needle_lower.is_empty() {
        return true;
    }
    if needle_lower.is_ascii() && line.is_ascii() {
        contains_ascii_ci(line, needle_lower)
    } else {
        let lowered = to_lowercase(line);
        contains_str(lowered.as_str(), needle_lower)
    }
}

/// Severity heuristic: only the commonest keywords, and only at the start of
/// the line to keep the cost low.
pub fn severity(line: &str) -> (s: Severity)
    ensures
        s == severity_of(line@),
{
    let bytes = line.as_bytes();
    let mut end: usize = if bytes.len() < SEVERITY_SCAN_BYTES {
        bytes.len()
    } else {
        SEVERITY_SCAN_BYTES
    };
    let ghost start = end as int;
    while end > 0 && !line.is_char_boundary(end)
        invariant
            end <= bytes@.len(),
            bytes@ == encode_utf8(line@),
            boundary_at_or_before(bytes@, end as int) == boundary_at_or_before(bytes@, start),
        decreases end,
    {
        end -= 1;
    }
    assert(boundary_at_or_before(bytes@, end as int) == end);
    if contains_ci_bytes(bytes, end, "error".as_bytes()) || contains_ci_bytes(
        bytes,
        end,
        "erreur".as_bytes(),
    ) || contains_ci_bytes(bytes, end, "fatal".as_bytes()) || contains_ci_bytes(
        bytes,
        end,
        "panic".as_bytes(),
    ) || contains_ci_bytes(bytes, end, "\"level\":\"error\"".as_bytes()) {
        return Severity::Error;
    }
    if contains_ci_bytes(bytes, end, "warn".as_bytes()) || contains_ci_bytes(
        bytes,
        end,
        "attention".as_bytes(),
    ) || contains_ci_bytes(bytes, end, "deprecat".as_bytes()) {
        return Severity::Warning;
    }
    Severity::Normal
}

} // verus!
