//! YAML manifest editor: the edited text, its lines, its indentation, and the
//! validation of a multi-document manifest.
use vstd::prelude::*;

use crate::text::{chars_of, is_blank, push_decimal, push_str, split_chars, split_fields, string_from_chars, trim, decimal};

verus! {

/// An indentation is two spaces, as in Kubernetes manifests.
pub const INDENT_WIDTH: usize = 2;

/// YAML text editor.
#[derive(Debug, Clone)]
pub struct YamlEditor {
    /// Edited content.
    pub text: String,
    /// Syntax highlighting on.
    pub highlight: bool,
    /// Line number gutter shown.
    pub line_numbers: bool,
}

/// What the YAML parser says of one document of a stream.
#[derive(Debug, Clone, PartialEq, Eq)]
pub enum YamlDoc {
    /// An empty document (a lone `---` separator).
    Empty,
    /// A document that holds a value.
    Filled,
    /// A document the parser refused, with its message and position.
    Invalid {
        /// The parser's message.
        message: String,
        /// Line and column, when the parser gave them.
        location: Option<(usize, usize)>,
    },
}

/// A document outcome as values: `0` empty, `1` filled, `2` refused with a
/// message and a position.
pub type DocView = (nat, Seq<char>, Option<(usize, usize)>);

/// A document outcome as values.
pub open spec fn doc_view(d: YamlDoc) -> DocView {
    match d {
        YamlDoc::Empty => (0, Seq::empty(), None),
        YamlDoc::Filled => (1, Seq::empty(), None),
        YamlDoc::Invalid { message, location } => (2, message@, location),
    }
}

/// The documents `serde_yaml_ng` reads in `text`, in order, up to its first
/// refusal.
pub uninterp spec fn yaml_documents(text: Seq<char>) -> Seq<DocView>;

/// Reads the documents of `text` with `serde_yaml_ng::Deserializer::from_str`
/// and `serde_yaml_ng::Value::deserialize`: a `Null` value is an empty
/// document, another value a filled one, an error a refused one (with the
/// error's text and location), and the stream is not read past its first
/// error, which it would repeat. Nothing is claimed of which texts the parser
/// accepts: the outcomes are named `yaml_documents`.
#[verifier::external_body]
fn yaml_scan(text: &str) -> (r: Vec<YamlDoc>)
    ensures
        r@.map_values(|d: YamlDoc| doc_view(d)) == yaml_documents(text@),
        forall|i: int| 0 <= i < r@.len() - 1 ==> !(r@[i] is Invalid),
{
    let mut out = Vec::new();
    for document in serde_yaml_ng::Deserializer::from_str(text) {
        match <serde_yaml_ng::Value as serde::Deserialize>::deserialize(document) {
            Ok(serde_yaml_ng::Value::Null) => out.push(YamlDoc::Empty),
            Ok(_) => out.push(YamlDoc::Filled),
            Err(e) => {
                let location = e.location().map(|l| (l.line(), l.column()));
                out.push(YamlDoc::Invalid { message: e.to_string(), location });
                break;
            },
        }
    }
    out
}

/// Message of an empty editor.
pub open spec fn empty_message() -> Seq<char> {
    "Le document est vide."@
}

/// Message of a stream of empty documents only.
pub open spec fn nothing_message() -> Seq<char> {
    "Aucun document exploitable : le YAML ne contient que des sections vides."@
}

/// Message for a refused document, in French.
pub open spec fn refusal_message(message: Seq<char>, location: Option<(usize, usize)>) -> Seq<char> {
    match location {
        Some((line, column)) => "YAML invalide (ligne "@ + decimal(line as nat) + ", colonne "@ + decimal(column as nat)
            + ") : "@ + message,
        None => "YAML invalide : "@ + message,
    }
}

/// The outcome of the documents `docs`, `filled` of them counted before.
pub open spec fn tally(docs: Seq<DocView>, filled: nat) -> Result<nat, Seq<char>>
    decreases docs.len(),
{
    if docs.len() == 0 {
        if filled == 0 {
            Err(nothing_message())
        } else {
            Ok(filled)
        }
    } else if docs[0].0 == 0 {
        tally(docs.drop_first(), filled)
    } else if docs[0].0 == 1 {
        tally(docs.drop_first(), filled + 1)
    } else {
        Err(refusal_message(docs[0].1, docs[0].2))
    }
}

/// The validation of a manifest: the number of non-empty documents, or the
/// reason it is refused.
pub open spec fn validation(text: Seq<char>) -> Result<nat, Seq<char>> {
    if trim(text).len() == 0 {
        Err(empty_message())
    } else {
        tally(yaml_documents(text), 0)
    }
}

/// Number of lines shown: a final empty line counts.
pub open spec fn lines_shown(text: Seq<char>) -> nat {
    split_fields(text, '\n').len()
}

/// The message for a refused document.
pub fn describe_error(message: &String, location: Option<(usize, usize)>) -> (out: String)
    ensures
        out@ == refusal_message(message@, location),
{
    let mut out = String::new();
    match location {
        Some((line, column)) => {
            push_str(&mut out, "YAML invalide (ligne ");
            push_decimal(&mut out, line as u64);
            push_str(&mut out, ", colonne ");
            push_decimal(&mut out, column as u64);
            push_str(&mut out, ") : ");
            push_str(&mut out, message.as_str());
        },
        None => {
            push_str(&mut out, "YAML invalide : ");
            push_str(&mut out, message.as_str());
        },
    }
    out
}

/// Counts the non-empty documents of a scan, or gives the first refusal.
pub fn tally_documents(docs: &Vec<YamlDoc>) -> (r: Result<usize, String>)
    ensures
        match r {
            Ok(n) => tally(docs@.map_values(|d: YamlDoc| doc_view(d)), 0) == Ok::<nat, Seq<char>>(n as nat),
            Err(m) => tally(docs@.map_values(|d: YamlDoc| doc_view(d)), 0) == Err::<nat, Seq<char>>(m@),
        },
{
    let ghost vs = docs@.map_values(|d: YamlDoc| doc_view(d));
    let mut filled: usize = 0;
    let mut i: usize = 0;
    assert(vs.skip(0) == vs);
    while i < docs.len()
        invariant
            vs == docs@.map_values(|d: YamlDoc| doc_view(d)),
            i <= docs@.len(),
            filled <= i,
            tally(vs, 0) == tally(vs.skip(i as int), filled as nat),
        decreases docs@.len() - i,
    {
        assert(vs.skip(i as int)[0] == doc_view(docs@[i as int]));
        assert(vs.skip(i as int).drop_first() == vs.skip(i + 1));
        match &docs[i] {
            YamlDoc::Empty => {},
            YamlDoc::Filled => {
                filled += 1;
            },
            YamlDoc::Invalid { message, location } => {
                return Err(describe_error(message, *location));
            },
        }
        i += 1;
    }
    assert(vs.skip(i as int).len() == 0);
    if filled == 0 {
        return Err("Aucun document exploitable : le YAML ne contient que des sections vides.".to_owned());
    }
    Ok(filled)
}

/// `text` with each tab turned into an indentation.
pub open spec fn tabs_expanded(text: Seq<char>) -> Seq<char>
    decreases text.len(),
{
    if text.len() == 0 {
        Seq::empty()
    } else {
        tabs_expanded(text.drop_last()) + (if text.last() == '\t' {
            seq![' ', ' ']
        } else {
            seq![text.last()]
        })
    }
}

/// Number of tabs among the first `n` characters.
pub open spec fn tabs_before(text: Seq<char>, n: int) -> nat
    decreases n,
{
    if n <= 0 || text.len() == 0 {
        0
    } else {
        let k = if n <= text.len() {
            n
        } else {
            text.len() as int
        };
        tabs_before(text, k - 1) + (if text[k - 1] == '\t' {
            1nat
        } else {
            0nat
        })
    }
}

/// Start of the line holding position `cursor`.
pub open spec fn line_start(chars: Seq<char>, cursor: int) -> int
    decreases cursor,
{
    if cursor <= 0 {
        0
    } else if chars[cursor - 1] == '\n' {
        cursor
    } else {
        line_start(chars, cursor - 1)
    }
}

/// Indentation removed at the start of a line: a tab, or up to two spaces.
pub open spec fn indent_at(chars: Seq<char>, start: int) -> nat {
    if start < chars.len() && chars[start] == '\t' {
        1
    } else if start < chars.len() && chars[start] == ' ' {
        if start + 1 < chars.len() && chars[start + 1] == ' ' {
            2
        } else {
            1
        }
    } else {
        0
    }
}

/// The text and cursor after removing one indentation on the cursor line,
/// `None` when that line has none.
pub open spec fn dedent(text: Seq<char>, cursor: nat) -> Option<(Seq<char>, nat)> {
    let c = if cursor <= text.len() {
        cursor as int
    } else {
        text.len() as int
    };
    let start = line_start(text, c);
    let removed = indent_at(text, start);
    if removed == 0 {
        None
    } else {
        Some((
            text.take(start) + text.skip(start + removed),
            if c >= start + removed {
                (c - removed) as nat
            } else {
                start as nat
            },
        ))
    }
}

impl YamlEditor {
    /// An empty editor, with highlighting and line numbers.
    pub fn new() -> (e: Self)
        ensures
            e.text@.len() == 0,
            e.highlight,
            e.line_numbers,
    {
        YamlEditor { text: String::new(), highlight: true, line_numbers: true }
    }

    /// An editor holding `text`.
    pub fn with_text(text: String) -> (e: Self)
        ensures
            e.text == text,
            e.highlight,
            e.line_numbers,
    {
        YamlEditor { text, highlight: true, line_numbers: true }
    }

    /// Replaces the content.
    pub fn set_text(&mut self, text: String)
        ensures
            final(self).text == text,
            final(self).highlight == old(self).highlight,
            final(self).line_numbers == old(self).line_numbers,
    {
        self.text = text;
    }

    /// True when the editor holds whitespace only.
    pub fn is_blank(&self) -> (b: bool)
        ensures
            b == (trim(self.text@).len() == 0),
    {
        is_blank(self.text.as_str())
    }

    /// Number of lines shown (a final empty line counts).
    pub fn line_count(&self) -> (n: usize)
        ensures
            n == lines_shown(self.text@),
            n >= 1,
    {
        let chars = chars_of(self.text.as_str());
        let fields = split_chars(&chars, '\n');
        assert(fields@.map_values(|f: Vec<char>| f@).len() == fields@.len());
        proof {
            lemma_split_nonempty(chars@, '\n');
        }
        fields.len()
    }

    /// Reads the content as a multi-document manifest and gives the number of
    /// non-empty documents, or a message in French.
    pub fn validate(&self) -> (r: Result<usize, String>)
        ensures
            match r {
                Ok(n) => validation(self.text@) == Ok::<nat, Seq<char>>(n as nat),
                Err(m) => validation(self.text@) == Err::<nat, Seq<char>>(m@),
            },
    {
        if self.is_blank() {
            return Err("Le document est vide.".to_owned());
        }
        let docs = yaml_scan(self.text.as_str());
        tally_documents(&docs)
    }
}

proof fn lemma_split_nonempty(s: Seq<char>, sep: char)
    ensures
        split_fields(s, sep).len() >= 1,
    decreases s.len(),
{
    let h = crate::text::before_first(s, sep);
    if h.len() < s.len() {
        lemma_split_nonempty(s.skip(h.len() as int + 1), sep);
    }
}

/// Turns tabs into indentations and moves the cursor as many places further
/// as the tabs before it gained characters.
pub fn expand_tabs(text: &str, cursor: Option<usize>) -> (r: (String, Option<usize>))
    requires
        cursor matches Some(p) ==> p + tabs_before(text@, p as int) <= usize::MAX,
    ensures
        r.0@ == tabs_expanded(text@),
        match cursor {
            Some(p) => r.1 matches Some(q) && q as int == p + tabs_before(text@, p as int),
            None => r.1 is None,
        },
{
    let chars = chars_of(text);
    let mut out: Vec<char> = Vec::new();
    let mut i: usize = 0;
    while i < chars.len()
        invariant
            i <= chars@.len(),
            out@ == tabs_expanded(chars@.take(i as int)),
            out@.len() <= 2 * i,
        decreases chars@.len() - i,
    {
        assert(chars@.take(i + 1).drop_last() == chars@.take(i as int));
        if chars[i] == '\t' {
            out.push(' ');
            out.push(' ');
        } else {
            out.push(chars[i]);
        }
        i += 1;
    }
    assert(chars@.take(chars@.len() as int) == chars@);
    let moved = match cursor {
        Some(p) => {
            let mut tabs: usize = 0;
            let mut k: usize = 0;
            let stop = if p < chars.len() {
                p
            } else {
                chars.len()
            };
            while k < stop
                invariant
                    k <= stop <= chars@.len(),
                    tabs <= k,
                    tabs == tabs_before(chars@, k as int),
                decreases stop - k,
            {
                if chars[k] == '\t' {
                    tabs += 1;
                }
                k += 1;
            }
            proof {
                if p > chars@.len() {
                    assert(tabs_before(chars@, p as int) == tabs_before(chars@, chars@.len() as int));
                }
            }
            Some(p + tabs)
        },
        None => None,
    };
    (string_from_chars(&out), moved)
}

proof fn lemma_line_start(chars: Seq<char>, cursor: int, j: int)
    requires
        0 <= j <= cursor <= chars.len(),
        forall|k: int| j <= k < cursor ==> chars[k] != '\n',
        j == 0 || chars[j - 1] == '\n',
    ensures
        line_start(chars, cursor) == j,
    decreases cursor,
{
    if cursor > j {
        lemma_line_start(chars, cursor - 1, j);
    }
}

/// Removes one indentation at the start of the cursor line; gives the new
/// text and cursor, or `None` when the line has no indentation.
pub fn dedent_line(text: &str, cursor: usize) -> (r: Option<(String, usize)>)
    ensures
        match dedent(text@, cursor as nat) {
            Some((t, c)) => r matches Some(v) && v.0@ == t && v.1 as nat == c,
            None => r is None,
        },
{
    let chars = chars_of(text);
    let n = chars.len();
    let cur = if cursor < n {
        cursor
    } else {
        n
    };
    let mut start = cur;
    while start > 0 && chars[start - 1] != '\n'
        invariant
            start <= cur <= n == chars@.len(),
            forall|k: int| start <= k < cur ==> chars@[k] != '\n',
        decreases start,
    {
        start -= 1;
    }
    proof {
        lemma_line_start(chars@, cur as int, start as int);
    }
    let removed: usize = if start < n && chars[start] == '\t' {
        1
    } else if start < n && chars[start] == ' ' {
        if start + 1 < n && chars[start + 1] == ' ' {
            2
        } else {
            1
        }
    } else {
        0
    };
    if removed == 0 {
        return None;
    }
    let mut out: Vec<char> = Vec::new();
    let mut k: usize = 0;
    while k < start
        invariant
            k <= start <= n == chars@.len(),
            out@ == chars@.take(k as int),
        decreases start - k,
    {
        out.push(chars[k]);
        assert(chars@.take(k + 1) == chars@.take(k as int).push(chars@[k as int]));
        k += 1;
    }
    let mut k: usize = start + removed;
    while k < n
        invariant
            start + removed <= k <= n == chars@.len(),
            out@ == chars@.take(start as int) + chars@.subrange(start + removed, k as int),
        decreases n - k,
    {
        out.push(chars[k]);
        assert(chars@.subrange(start + removed, k + 1) == chars@.subrange(start + removed, k as int).push(chars@[k as int]));
        k += 1;
    }
    assert(chars@.subrange(start + removed, n as int) == chars@.skip(start + removed));
    let moved = if cur >= start + removed {
        cur - removed
    } else {
        start
    };
    Some((string_from_chars(&out), moved))
}

} // verus!
