//! YAML console: the labels of an application's outcome and the reading of a
//! unified diff, line by line.
use vstd::prelude::*;

use crate::text::{chars_of, starts_with_chars, starts_with_seq};
use crate::views::hub::request::ApplyAction;

verus! {

/// What a line of a unified diff is, which decides its colour.
#[derive(Debug, Clone, Copy, PartialEq, Eq)]
pub enum DiffLine {
    /// `+++` or `---`: the names of the two files.
    FileHeader,
    /// `+`: a line added.
    Added,
    /// `-`: a line removed.
    Removed,
    /// `@@`: the position of a hunk.
    Hunk,
    /// Anything else.
    Context,
}

/// The reading of a diff line by its first characters.
pub open spec fn diff_line_of(line: Seq<char>) -> DiffLine {
    if starts_with_seq(line, seq!['+', '+', '+']) || starts_with_seq(line, seq!['-', '-', '-']) {
        DiffLine::FileHeader
    } else if starts_with_seq(line, seq!['+']) {
        DiffLine::Added
    } else if starts_with_seq(line, seq!['-']) {
        DiffLine::Removed
    } else if starts_with_seq(line, seq!['@', '@']) {
        DiffLine::Hunk
    } else {
        DiffLine::Context
    }
}

/// What a line of a unified diff is.
pub fn diff_line_kind(line: &str) -> (k: DiffLine)
    ensures
        k == diff_line_of(line@),
{
    let chars = chars_of(line);
    let plus3 = vec!['+', '+', '+'];
    let minus3 = vec!['-', '-', '-'];
    let plus = vec!['+'];
    let minus = vec!['-'];
    let at2 = vec!['@', '@'];
    assert(plus3@ =~= seq!['+', '+', '+']);
    assert(minus3@ =~= seq!['-', '-', '-']);
    assert(plus@ =~= seq!['+']);
    assert(minus@ =~= seq!['-']);
    assert(at2@ =~= seq!['@', '@']);
    if starts_with_chars(&chars, &plus3) || starts_with_chars(&chars, &minus3) {
        DiffLine::FileHeader
    } else if starts_with_chars(&chars, &plus) {
        DiffLine::Added
    } else if starts_with_chars(&chars, &minus) {
        DiffLine::Removed
    } else if starts_with_chars(&chars, &at2) {
        DiffLine::Hunk
    } else {
        DiffLine::Context
    }
}

/// Word the console shows for an action, document by document: created,
/// configured, unchanged, simulated, deleted or failed.
pub open spec fn console_word(a: ApplyAction) -> Seq<char> {
    match a {
        ApplyAction::Created => "créé"@,
        ApplyAction::Configured => "configuré"@,
        ApplyAction::Unchanged => "inchangé"@,
        ApplyAction::DryRun => "simulé"@,
        ApplyAction::Deleted => "supprimé"@,
        ApplyAction::Failed => "échec"@,
    }
}

/// Word the console shows for an action.
pub fn libelle_action(action: ApplyAction) -> (s: &'static str)
    ensures
        s@ == console_word(action),
{
    match action {
        ApplyAction::Created => "créé",
        ApplyAction::Configured => "configuré",
        ApplyAction::Unchanged => "inchangé",
        ApplyAction::DryRun => "simulé",
        ApplyAction::Deleted => "supprimé",
        ApplyAction::Failed => "échec",
    }
}

} // verus!
