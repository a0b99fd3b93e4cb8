//! Resources screen: the columns of the table for each kind, the text of its
//! cells, the filter and the order of its rows, the kind selector's sections,
//! ages in the `kubectl` style and the default shell.
//!
//! The table is filtered and sorted here, on the client side: no request goes
//! to the server for that.
use std::cmp::Ordering;
use vstd::prelude::*;

use crate::text::{
    ascii_lower_seq, ascii_lowercase_range, before_first, before_first_bounds, chars_of,
    clone_opt, contains_seq, contains_str, decimal, decimal2, decimal_signed, join_strings,
    joined, lemma_lex_sign_flip, lemma_lex_sign_trans, lemma_lex_sign_zero, lex_compare,
    lex_sign, opt_view, push_char, push_decimal, push_decimal2, push_decimal_signed,
    same_opt_text, same_text, string_from_range, to_lowercase, trim, trimmed, unicode_lower,
    views_of,
};
use crate::views::graph::{ExtraValue, ListItem, ObjectSummary};
use crate::widgets::confirm::ResourceRef;

pub mod screen;

verus! {

// ---------------------------------------------------------------------------
// Columns
// ---------------------------------------------------------------------------

/// Content of a column of the table.
#[derive(Debug, Clone, Copy, PartialEq, Eq)]
pub enum Cell {
    Name,
    Namespace,
    Ready,
    Status,
    Restarts,
    Age,
    Node,
    Images,
    /// A value of `ObjectSummary::extra`, by key.
    Extra(&'static str),
}

/// A column: title, content, wanted width in points, and whether it takes up
/// the room left.
#[derive(Debug, Clone, Copy)]
pub struct ColumnSpec {
    pub title: &'static str,
    pub cell: Cell,
    pub width: u32,
    pub grow: bool,
}

/// A column of fixed width.
pub open spec fn fixed(title: &'static str, cell: Cell, width: u32) -> ColumnSpec {
    ColumnSpec { title, cell, width, grow: false }
}

/// A column that takes up the room left.
pub open spec fn elastic(title: &'static str, cell: Cell, width: u32) -> ColumnSpec {
    ColumnSpec { title, cell, width, grow: true }
}

fn col(title: &'static str, cell: Cell, width: u32) -> (c: ColumnSpec)
    ensures
        c == fixed(title, cell, width),
{
    ColumnSpec { title, cell, width, grow: false }
}

fn grow(title: &'static str, cell: Cell, width: u32) -> (c: ColumnSpec)
    ensures
        c == elastic(title, cell, width),
{
    ColumnSpec { title, cell, width, grow: true }
}

/// The resource of a selected kind without its API group, in ASCII lower case
/// (`deployments.apps` gives `deployments`).
pub open spec fn kind_base(kind: Seq<char>) -> Seq<char> {
    ascii_lower_seq(before_first(kind, '.'))
}

/// The columns that follow the name (and the namespace) for a resource.
pub open spec fn kind_columns(base: Seq<char>) -> Seq<ColumnSpec> {
    if base == "pods"@ {
        seq![
            fixed("Prêt", Cell::Ready, 55),
            fixed("Statut", Cell::Status, 115),
            fixed("Redém.", Cell::Restarts, 60),
            fixed("Âge", Cell::Age, 75),
            fixed("Nœud", Cell::Node, 150),
            elastic("Images", Cell::Images, 180),
        ]
    } else if base == "deployments"@ || base == "statefulsets"@ || base == "replicasets"@
        || base == "daemonsets"@ {
        seq![
            fixed("Prêt", Cell::Ready, 65),
            fixed("À jour", Cell::Extra("upToDate"), 65),
            fixed("Disponible", Cell::Extra("available"), 80),
            fixed("Statut", Cell::Status, 115),
            fixed("Âge", Cell::Age, 75),
        ]
    } else if base == "services"@ {
        seq![
            fixed("Type", Cell::Extra("type"), 110),
            fixed("ClusterIP", Cell::Extra("clusterIP"), 130),
            elastic("Ports", Cell::Extra("ports"), 150),
            fixed("Âge", Cell::Age, 75),
        ]
    } else if base == "nodes"@ {
        seq![
            fixed("Statut", Cell::Status, 115),
            fixed("Rôles", Cell::Extra("roles"), 140),
            fixed("Âge", Cell::Age, 75),
            fixed("Version", Cell::Extra("version"), 110),
        ]
    } else if base == "ingresses"@ {
        seq![
            fixed("Classe", Cell::Extra("class"), 100),
            elastic("Hôtes", Cell::Extra("hosts"), 200),
            fixed("Adresse", Cell::Extra("address"), 150),
            fixed("Âge", Cell::Age, 75),
        ]
    } else if base == "jobs"@ {
        seq![
            fixed("Complétions", Cell::Extra("completions"), 95),
            fixed("Durée", Cell::Extra("duration"), 85),
            fixed("Statut", Cell::Status, 115),
            fixed("Âge", Cell::Age, 75),
        ]
    } else {
        seq![fixed("Statut", Cell::Status, 140), fixed("Âge", Cell::Age, 75)]
    }
}

/// All the columns: the name, the namespace when every namespace is shown,
/// then those of the resource.
pub open spec fn column_layout(base: Seq<char>, with_namespace: bool) -> Seq<ColumnSpec> {
    let head = if with_namespace {
        seq![elastic("Nom", Cell::Name, 200), fixed("Namespace", Cell::Namespace, 130)]
    } else {
        seq![elastic("Nom", Cell::Name, 200)]
    };
    head + kind_columns(base)
}

/// Columns for the selected kind (`pods`, or `deployments.apps` with its
/// group). `with_namespace` is true only when every namespace is shown: the
/// column would be noise otherwise.
pub fn columns_for(kind: &str, with_namespace: bool) -> (cols: Vec<ColumnSpec>)
    ensures
        cols@ == column_layout(kind_base(kind@), with_namespace),
{
    let chars = chars_of(kind);
    let e = before_first_bounds(&chars, 0, chars.len(), '.');
    let base = ascii_lowercase_range(&chars, 0, e);
    proof {
        assert(chars@.subrange(0, chars@.len() as int) =~= chars@);
    }
    let b = base.as_str();
    let mut cols: Vec<ColumnSpec> = Vec::new();
    cols.push(grow("Nom", Cell::Name, 200));
    if with_namespace {
        cols.push(col("Namespace", Cell::Namespace, 130));
    }
    let ghost head = cols@;
    if same_text(b, "pods") {
        cols.push(col("Prêt", Cell::Ready, 55));
        cols.push(col("Statut", Cell::Status, 115));
        cols.push(col("Redém.", Cell::Restarts, 60));
        cols.push(col("Âge", Cell::Age, 75));
        cols.push(col("Nœud", Cell::Node, 150));
        cols.push(grow("Images", Cell::Images, 180));
    } else if same_text(b, "deployments") || same_text(b, "statefulsets") || same_text(
        b,
        "replicasets",
    ) || same_text(b, "daemonsets") {
        cols.push(col("Prêt", Cell::Ready, 65));
        cols.push(col("À jour", Cell::Extra("upToDate"), 65));
        cols.push(col("Disponible", Cell::Extra("available"), 80));
        cols.push(col("Statut", Cell::Status, 115));
        cols.push(col("Âge", Cell::Age, 75));
    } else if same_text(b, "services") {
        cols.push(col("Type", Cell::Extra("type"), 110));
        cols.push(col("ClusterIP", Cell::Extra("clusterIP"), 130));
        cols.push(grow("Ports", Cell::Extra("ports"), 150));
        cols.push(col("Âge", Cell::Age, 75));
    } else if same_text(b, "nodes") {
        cols.push(col("Statut", Cell::Status, 115));
        cols.push(col("Rôles", Cell::Extra("roles"), 140));
        cols.push(col("Âge", Cell::Age, 75));
        cols.push(col("Version", Cell::Extra("version"), 110));
    } else if same_text(b, "ingresses") {
        cols.push(col("Classe", Cell::Extra("class"), 100));
        cols.push(grow("Hôtes", Cell::Extra("hosts"), 200));
        cols.push(col("Adresse", Cell::Extra("address"), 150));
        cols.push(col("Âge", Cell::Age, 75));
    } else if same_text(b, "jobs") {
        cols.push(col("Complétions", Cell::Extra("completions"), 95));
        cols.push(col("Durée", Cell::Extra("duration"), 85));
        cols.push(col("Statut", Cell::Status, 115));
        cols.push(col("Âge", Cell::Age, 75));
    } else {
        cols.push(col("Statut", Cell::Status, 140));
        cols.push(col("Âge", Cell::Age, 75));
    }
    assert(cols@ =~= column_layout(kind_base(kind@), with_namespace));
    cols
}

// ---------------------------------------------------------------------------
// Cell texts
// ---------------------------------------------------------------------------

/// The dash shown for a missing value.
pub open spec fn dash() -> Seq<char> {
    "—"@
}

/// The value stored under `key`: the first entry with that key.
pub open spec fn extra_lookup(entries: Seq<(String, ExtraValue)>, key: Seq<char>) -> Option<
    ExtraValue,
>
    decreases entries.len(),
{
    if entries.len() == 0 {
        None
    } else if entries[0].0@ == key {
        Some(entries[0].1)
    } else {
        extra_lookup(entries.drop_first(), key)
    }
}

/// Text of one element of a list value.
pub open spec fn item_text(item: ListItem) -> Seq<char> {
    match item {
        ListItem::Text(s) => s@,
        ListItem::Json(t) => t@,
    }
}

/// An extra value as the table shows it: strings as they are, booleans as
/// `oui` / `non`, lists joined with `, `, a dash for what is missing or empty.
pub open spec fn extra_shown(v: Option<ExtraValue>) -> Seq<char> {
    match v {
        None => dash(),
        Some(ExtraValue::Null) => dash(),
        Some(ExtraValue::Text(s)) => if s@.len() == 0 {
            dash()
        } else {
            s@
        },
        Some(ExtraValue::Bool(b)) => if b {
            "oui"@
        } else {
            "non"@
        },
        Some(ExtraValue::Number(t)) => t@,
        Some(ExtraValue::List(items)) => if items@.len() == 0 {
            dash()
        } else {
            joined(items@.map_values(|i: ListItem| item_text(i)), ", "@)
        },
        Some(ExtraValue::Other(t)) => t@,
    }
}

/// Text of an optional string, a dash when absent.
pub open spec fn or_dash(v: Option<String>) -> Seq<char> {
    match v {
        Some(s) => s@,
        None => dash(),
    }
}

/// Text of a cell.
pub open spec fn cell_shown(item: ObjectSummary, cell: Cell) -> Seq<char> {
    match cell {
        Cell::Name => item.name@,
        Cell::Namespace => or_dash(item.namespace),
        Cell::Ready => or_dash(item.ready),
        Cell::Status => item.status@,
        Cell::Restarts => match item.restarts {
            Some(r) => decimal_signed(r as int),
            None => dash(),
        },
        Cell::Age => age_text(item.age_seconds),
        Cell::Node => or_dash(item.node),
        Cell::Images => if item.images@.len() == 0 {
            dash()
        } else {
            joined(views_of(item.images@), ", "@)
        },
        Cell::Extra(key) => extra_shown(extra_lookup(item.extra@, key@)),
    }
}

/// Text of an extra value.
fn shown_value(v: &ExtraValue) -> (out: String)
    ensures
        out@ == extra_shown(Some(*v)),
{
    match v {
        ExtraValue::Null => "—".to_owned(),
        ExtraValue::Text(s) => if s.as_str().is_empty() {
            "—".to_owned()
        } else {
            s.clone()
        },
        ExtraValue::Bool(b) => if *b {
            "oui".to_owned()
        } else {
            "non".to_owned()
        },
        ExtraValue::Number(t) => t.clone(),
        ExtraValue::List(items) => {
            if items.len() == 0 {
                return "—".to_owned();
            }
            let mut texts: Vec<String> = Vec::new();
            let mut i: usize = 0;
            while i < items.len()
                invariant
                    i <= items@.len(),
                    views_of(texts@) =~= items@.take(i as int).map_values(
                        |x: ListItem| item_text(x),
                    ),
                decreases items@.len() - i,
            {
                let t = match &items[i] {
                    ListItem::Text(s) => s.clone(),
                    ListItem::Json(j) => j.clone(),
                };
                assert(t@ == item_text(items@[i as int]));
                let ghost before = texts@;
                texts.push(t);
                proof {
                    assert(views_of(texts@) =~= views_of(before).push(t@));
                    assert(items@.take(i + 1) =~= items@.take(i as int).push(items@[i as int]));
                    assert(items@.take(i + 1).map_values(|x: ListItem| item_text(x))
                        =~= items@.take(i as int).map_values(|x: ListItem| item_text(x)).push(
                        item_text(items@[i as int]),
                    ));
                }
                i += 1;
            }
            assert(items@.take(items@.len() as int) =~= items@);
            join_strings(&texts, ", ")
        },
        ExtraValue::Other(t) => t.clone(),
    }
}

/// Readable text of the extra value under `key`.
pub fn extra_text(item: &ObjectSummary, key: &str) -> (out: String)
    ensures
        out@ == extra_shown(extra_lookup(item.extra@, key@)),
{
    let mut i: usize = 0;
    assert(item.extra@.skip(0) =~= item.extra@);
    while i < item.extra.len()
        invariant
            i <= item.extra@.len(),
            extra_lookup(item.extra@, key@) == extra_lookup(item.extra@.skip(i as int), key@),
        decreases item.extra@.len() - i,
    {
        assert(item.extra@.skip(i as int).drop_first() =~= item.extra@.skip(i + 1));
        if same_text(item.extra[i].0.as_str(), key) {
            return shown_value(&item.extra[i].1);
        }
        i += 1;
    }
    "—".to_owned()
}

/// Text shown in a cell.
pub fn cell_text(item: &ObjectSummary, cell: Cell) -> (out: String)
    ensures
        out@ == cell_shown(*item, cell),
{
    match cell {
        Cell::Name => item.name.clone(),
        Cell::Namespace => match &item.namespace {
            Some(ns) => ns.clone(),
            None => "—".to_owned(),
        },
        Cell::Ready => match &item.ready {
            Some(r) => r.clone(),
            None => "—".to_owned(),
        },
        Cell::Status => item.status.clone(),
        Cell::Restarts => match item.restarts {
            Some(r) => {
                let mut out = String::new();
                push_decimal_signed(&mut out, r);
                out
            },
            None => "—".to_owned(),
        },
        Cell::Age => format_age(item.age_seconds),
        Cell::Node => match &item.node {
            Some(n) => n.clone(),
            None => "—".to_owned(),
        },
        Cell::Images => if item.images.len() == 0 {
            "—".to_owned()
        } else {
            join_strings(&item.images, ", ")
        },
        Cell::Extra(key) => extra_text(item, key),
    }
}

// ---------------------------------------------------------------------------
// Filter and order
// ---------------------------------------------------------------------------

/// The filter rule: the lower-case needle occurs in the lower case of the
/// name, of the namespace or of the status; an empty needle keeps every row.
pub open spec fn row_matches(item: ObjectSummary, needle: Seq<char>) -> bool {
    ||| needle.len() == 0
    ||| contains_seq(unicode_lower(item.name@), needle)
    ||| (item.namespace matches Some(ns) && contains_seq(unicode_lower(ns@), needle))
    ||| contains_seq(unicode_lower(item.status@), needle)
}

/// Case-insensitive filter on the name, the namespace and the status;
/// `needle` is already in lower case.
pub fn matches_filter(item: &ObjectSummary, needle: &str) -> (b: bool)
    ensures
        b == row_matches(*item, needle@),
{
    if needle.is_empty() {
        return true;
    }
    let name = to_lowercase(item.name.as_str());
    if contains_str(name.as_str(), needle) {
        return true;
    }
    if let Some(ns) = &item.namespace {
        let low = to_lowercase(ns.as_str());
        if contains_str(low.as_str(), needle) {
            return true;
        }
    }
    let status = to_lowercase(item.status.as_str());
    contains_str(status.as_str(), needle)
}

/// Sign of the comparison of two integers.
pub open spec fn int_sign(x: i64, y: i64) -> int {
    if x < y {
        -1
    } else if x > y {
        1
    } else {
        0
    }
}

/// The age a row is sorted by: an unknown age goes last.
pub open spec fn age_key(item: ObjectSummary) -> i64 {
    match item.age_seconds {
        Some(a) => a,
        None => i64::MAX,
    }
}

/// The restart count a row is sorted by: unknown goes first.
pub open spec fn restarts_key(item: ObjectSummary) -> i64 {
    match item.restarts {
        Some(r) => r,
        None => -1i64,
    }
}

/// Comparison of two rows on a column other than `Ready`: ages and restart
/// counts as numbers, the other cells by their lower-case text.
pub open spec fn cell_sign(a: ObjectSummary, b: ObjectSummary, cell: Cell) -> int {
    match cell {
        Cell::Age => int_sign(age_key(a), age_key(b)),
        Cell::Restarts => int_sign(restarts_key(a), restarts_key(b)),
        _ => lex_sign(unicode_lower(cell_shown(a, cell)), unicode_lower(cell_shown(b, cell))),
    }
}

/// Restart counts and ages sort as numbers: two known counts, or two known
/// ages, compare as the integers they are; an unknown count comes before
/// every known one, an unknown age after every known one.
pub proof fn lemma_numeric_columns(a: ObjectSummary, b: ObjectSummary)
    ensures
        (a.restarts is Some && b.restarts is Some) ==> {
            let (x, y) = (a.restarts->0, b.restarts->0);
            &&& (cell_sign(a, b, Cell::Restarts) < 0 <==> x < y)
            &&& (cell_sign(a, b, Cell::Restarts) == 0 <==> x == y)
            &&& (cell_sign(a, b, Cell::Restarts) > 0 <==> x > y)
        },
        (a.restarts is None && b.restarts is Some && b.restarts->0 >= 0) ==> cell_sign(a, b, Cell::Restarts) < 0,
        (a.age_seconds is Some && b.age_seconds is Some) ==> {
            let (x, y) = (a.age_seconds->0, b.age_seconds->0);
            &&& (cell_sign(a, b, Cell::Age) < 0 <==> x < y)
            &&& (cell_sign(a, b, Cell::Age) == 0 <==> x == y)
            &&& (cell_sign(a, b, Cell::Age) > 0 <==> x > y)
        },
        (a.age_seconds is Some && a.age_seconds->0 < i64::MAX && b.age_seconds is None) ==> cell_sign(a, b, Cell::Age) < 0,
{
}

/// The sign an `Ordering` stands for.
pub open spec fn order_sign(o: Ordering) -> int {
    match o {
        Ordering::Less => -1,
        Ordering::Equal => 0,
        Ordering::Greater => 1,
    }
}

fn order_of(s: i8) -> (o: Ordering)
    requires
        -1 <= s <= 1,
    ensures
        order_sign(o) == s,
{
    if s < 0 {
        Ordering::Less
    } else if s > 0 {
        Ordering::Greater
    } else {
        Ordering::Equal
    }
}

fn int_order(x: i64, y: i64) -> (o: Ordering)
    ensures
        order_sign(o) == int_sign(x, y),
{
    if x < y {
        Ordering::Less
    } else if x > y {
        Ordering::Greater
    } else {
        Ordering::Equal
    }
}

/// Comparison of two rows on a column. The `Ready` column, ordered by the
/// ratio of its counter, is left to the caller.
pub fn compare(a: &ObjectSummary, b: &ObjectSummary, cell: Cell) -> (o: Ordering)
    requires
        !(cell is Ready),
    ensures
        order_sign(o) == cell_sign(*a, *b, cell),
{
    match cell {
        Cell::Age => {
            let x = match a.age_seconds {
                Some(v) => v,
                None => i64::MAX,
            };
            let y = match b.age_seconds {
                Some(v) => v,
                None => i64::MAX,
            };
            int_order(x, y)
        },
        Cell::Restarts => {
            let x = match a.restarts {
                Some(v) => v,
                None => -1,
            };
            let y = match b.restarts {
                Some(v) => v,
                None => -1,
            };
            int_order(x, y)
        },
        _ => {
            let ta = cell_text(a, cell);
            let tb = cell_text(b, cell);
            let la = to_lowercase(ta.as_str());
            let lb = to_lowercase(tb.as_str());
            let s = lex_compare(la.as_str(), lb.as_str());
            proof {
                lemma_lex_sign_flip(la@, lb@);
            }
            order_of(s)
        },
    }
}

/// Comparison of two optional texts: absent first.
pub open spec fn opt_sign(a: Option<String>, b: Option<String>) -> int {
    match (a, b) {
        (None, None) => 0,
        (None, Some(_)) => -1,
        (Some(_), None) => 1,
        (Some(x), Some(y)) => lex_sign(x@, y@),
    }
}

/// Full comparison of two rows: the column, then the name, then the namespace.
pub open spec fn row_sign(a: ObjectSummary, b: ObjectSummary, cell: Cell) -> int {
    let c = cell_sign(a, b, cell);
    if c != 0 {
        c
    } else {
        let n = lex_sign(a.name@, b.name@);
        if n != 0 {
            n
        } else {
            opt_sign(a.namespace, b.namespace)
        }
    }
}

/// The comparison in the direction of the sort.
pub open spec fn facing_sign(a: ObjectSummary, b: ObjectSummary, cell: Cell, ascending: bool) -> int {
    if ascending {
        row_sign(a, b, cell)
    } else {
        -row_sign(a, b, cell)
    }
}

/// Swapping two rows flips their comparison.
pub proof fn lemma_facing_sign_flip(a: ObjectSummary, b: ObjectSummary, cell: Cell, ascending: bool)
    ensures
        facing_sign(a, b, cell, ascending) == -facing_sign(b, a, cell, ascending),
        -1 <= facing_sign(a, b, cell, ascending) <= 1,
        -1 <= lex_sign(a.name@, b.name@) <= 1,
        -1 <= opt_sign(a.namespace, b.namespace) <= 1,
{
    lemma_lex_sign_flip(unicode_lower(cell_shown(a, cell)), unicode_lower(cell_shown(b, cell)));
    lemma_lex_sign_flip(a.name@, b.name@);
    match (a.namespace, b.namespace) {
        (Some(x), Some(y)) => lemma_lex_sign_flip(x@, y@),
        _ => {},
    }
}

fn opt_text_sign(a: &Option<String>, b: &Option<String>) -> (s: i8)
    ensures
        s == opt_sign(*a, *b),
{
    match (a, b) {
        (None, None) => 0,
        (None, Some(_)) => -1,
        (Some(_), None) => 1,
        (Some(x), Some(y)) => lex_compare(x.as_str(), y.as_str()),
    }
}

fn facing(a: &ObjectSummary, b: &ObjectSummary, cell: Cell, ascending: bool) -> (s: i8)
    requires
        !(cell is Ready),
    ensures
        s == facing_sign(*a, *b, cell, ascending),
{
    proof {
        lemma_facing_sign_flip(*a, *b, cell, ascending);
    }
    let c = compare(a, b, cell);
    let s: i8 = match c {
        Ordering::Less => -1,
        Ordering::Greater => 1,
        Ordering::Equal => {
            let n = lex_compare(a.name.as_str(), b.name.as_str());
            if n != 0 {
                n
            } else {
                opt_text_sign(&a.namespace, &b.namespace)
            }
        },
    };
    if ascending {
        s
    } else {
        -s
    }
}

/// The comparison of two rows on a column is transitive, and two steps
/// compare equal only when both do; an equal pair compares the same with any
/// third row.
proof fn lemma_cell_sign_order(x: ObjectSummary, y: ObjectSummary, z: ObjectSummary, cell: Cell)
    ensures
        cell_sign(x, y, cell) <= 0 && cell_sign(y, z, cell) <= 0 ==> cell_sign(x, z, cell) <= 0
            && (cell_sign(x, z, cell) == 0 ==> cell_sign(x, y, cell) == 0 && cell_sign(
            y,
            z,
            cell,
        ) == 0),
        cell_sign(x, y, cell) == 0 ==> cell_sign(x, z, cell) == cell_sign(y, z, cell),
        cell_sign(x, y, cell) == -cell_sign(y, x, cell),
{
    let lx = unicode_lower(cell_shown(x, cell));
    let ly = unicode_lower(cell_shown(y, cell));
    let lz = unicode_lower(cell_shown(z, cell));
    lemma_lex_sign_flip(lx, ly);
    match cell {
        Cell::Age => {},
        Cell::Restarts => {},
        _ => {
            if lex_sign(lx, ly) <= 0 && lex_sign(ly, lz) <= 0 {
                lemma_lex_sign_trans(lx, ly, lz);
            }
            if lex_sign(lx, ly) == 0 {
                lemma_lex_sign_zero(lx, ly);
            }
        },
    }
}

proof fn lemma_name_sign_order(x: ObjectSummary, y: ObjectSummary, z: ObjectSummary)
    ensures
        lex_sign(x.name@, y.name@) <= 0 && lex_sign(y.name@, z.name@) <= 0 ==> lex_sign(
            x.name@,
            z.name@,
        ) <= 0 && (lex_sign(x.name@, z.name@) == 0 ==> lex_sign(x.name@, y.name@) == 0
            && lex_sign(y.name@, z.name@) == 0),
        lex_sign(x.name@, y.name@) == 0 ==> lex_sign(x.name@, z.name@) == lex_sign(
            y.name@,
            z.name@,
        ),
        lex_sign(x.name@, y.name@) == -lex_sign(y.name@, x.name@),
{
    lemma_lex_sign_flip(x.name@, y.name@);
    if lex_sign(x.name@, y.name@) <= 0 && lex_sign(y.name@, z.name@) <= 0 {
        lemma_lex_sign_trans(x.name@, y.name@, z.name@);
    }
    if lex_sign(x.name@, y.name@) == 0 {
        lemma_lex_sign_zero(x.name@, y.name@);
    }
}

proof fn lemma_opt_sign_order(x: Option<String>, y: Option<String>, z: Option<String>)
    ensures
        opt_sign(x, y) <= 0 && opt_sign(y, z) <= 0 ==> opt_sign(x, z) <= 0 && (opt_sign(x, z)
            == 0 ==> opt_sign(x, y) == 0 && opt_sign(y, z) == 0),
        opt_sign(x, y) == -opt_sign(y, x),
{
    match (x, y, z) {
        (Some(a), Some(b), Some(c)) => {
            lemma_lex_sign_flip(a@, b@);
            if lex_sign(a@, b@) <= 0 && lex_sign(b@, c@) <= 0 {
                lemma_lex_sign_trans(a@, b@, c@);
            }
        },
        (Some(a), Some(b), None) => {
            lemma_lex_sign_flip(a@, b@);
        },
        _ => {},
    }
}

/// The full comparison of rows is transitive, and two steps compare equal
/// only when both do.
proof fn lemma_row_sign_trans(x: ObjectSummary, y: ObjectSummary, z: ObjectSummary, cell: Cell)
    requires
        row_sign(x, y, cell) <= 0,
        row_sign(y, z, cell) <= 0,
    ensures
        row_sign(x, z, cell) <= 0,
        row_sign(x, z, cell) == 0 ==> row_sign(x, y, cell) == 0 && row_sign(y, z, cell) == 0,
{
    lemma_cell_sign_order(x, y, z, cell);
    lemma_cell_sign_order(y, z, x, cell);
    lemma_cell_sign_order(x, z, y, cell);
    lemma_cell_sign_order(z, x, y, cell);
    lemma_name_sign_order(x, y, z);
    lemma_name_sign_order(y, z, x);
    lemma_name_sign_order(x, z, y);
    lemma_name_sign_order(z, x, y);
    lemma_opt_sign_order(x.namespace, y.namespace, z.namespace);
    lemma_opt_sign_order(x.namespace, z.namespace, y.namespace);
    lemma_opt_sign_order(y.namespace, z.namespace, x.namespace);
}

/// Rows in the direction of the sort compare transitively.
proof fn lemma_facing_sign_trans(
    x: ObjectSummary,
    y: ObjectSummary,
    z: ObjectSummary,
    cell: Cell,
    ascending: bool,
)
    requires
        facing_sign(x, y, cell, ascending) <= 0,
        facing_sign(y, z, cell, ascending) <= 0,
    ensures
        facing_sign(x, z, cell, ascending) <= 0,
        facing_sign(x, z, cell, ascending) == 0 ==> facing_sign(x, y, cell, ascending) == 0
            && facing_sign(y, z, cell, ascending) == 0,
{
    lemma_facing_sign_flip(x, y, cell, true);
    lemma_facing_sign_flip(y, z, cell, true);
    lemma_facing_sign_flip(x, z, cell, true);
    if ascending {
        lemma_row_sign_trans(x, y, z, cell);
    } else {
        lemma_row_sign_trans(z, y, x, cell);
    }
}

/// The rows of a sorted list come in the order of the sort: no row comes
/// after a row listed later, and rows that compare equal keep the order of
/// the table.
pub proof fn lemma_sorted_rows_in_order(
    rows: Seq<ObjectSummary>,
    order: Seq<usize>,
    cell: Cell,
    ascending: bool,
    i: int,
    j: int,
)
    requires
        sorted_rows(rows, order, cell, ascending),
        0 <= i < j < order.len(),
    ensures
        facing_sign(rows[order[i] as int], rows[order[j] as int], cell, ascending) <= 0,
        facing_sign(rows[order[i] as int], rows[order[j] as int], cell, ascending) == 0
            ==> order[i] < order[j],
    decreases j - i,
{
    assert(adjacent_in_order(rows, order, j - 1, cell, ascending));
    lemma_facing_sign_flip(rows[order[j - 1] as int], rows[order[j] as int], cell, ascending);
    if i < j - 1 {
        lemma_sorted_rows_in_order(rows, order, cell, ascending, i, j - 1);
        lemma_facing_sign_trans(
            rows[order[i] as int],
            rows[order[j - 1] as int],
            rows[order[j] as int],
            cell,
            ascending,
        );
    }
}

/// The cell a sort index designates; `Name` past the last column.
pub open spec fn sort_cell(columns: Seq<ColumnSpec>, index: int) -> Cell {
    if 0 <= index < columns.len() {
        columns[index].cell
    } else {
        Cell::Name
    }
}

/// Rows `order[i]` and `order[i + 1]` come in the order of the sort, the
/// earlier index first when they compare equal.
pub open spec fn adjacent_in_order(
    rows: Seq<ObjectSummary>,
    order: Seq<usize>,
    i: int,
    cell: Cell,
    ascending: bool,
) -> bool {
    let s = facing_sign(rows[order[i] as int], rows[order[i + 1] as int], cell, ascending);
    s < 0 || (s == 0 && order[i] < order[i + 1])
}

/// `order` lists rows in the order of the sort, stably.
pub open spec fn sorted_rows(
    rows: Seq<ObjectSummary>,
    order: Seq<usize>,
    cell: Cell,
    ascending: bool,
) -> bool {
    forall|i: int|
        0 <= i < order.len() - 1 ==> #[trigger] adjacent_in_order(rows, order, i, cell, ascending)
}

/// The needle the filter text gives: trimmed, in lower case.
pub open spec fn needle_of(filter: Seq<char>) -> Seq<char> {
    unicode_lower(trim(filter))
}

/// Indices of the rows to show: those the filter keeps, in the order of the
/// sort column (then by name, then by namespace), each once. Sorting is
/// stable. The `Ready` column, sorted by a ratio, is left to the caller.
pub fn visible_order(
    rows: &Vec<ObjectSummary>,
    filter: &str,
    columns: &Vec<ColumnSpec>,
    sort_column: usize,
    ascending: bool,
) -> (order: Vec<usize>)
    requires
        !(sort_cell(columns@, sort_column as int) is Ready),
    ensures
        forall|k: usize|
            order@.contains(k) <==> (k < rows@.len() && row_matches(
                rows@[k as int],
                needle_of(filter@),
            )),
        forall|i: int, j: int| 0 <= i < j < order@.len() ==> order@[i] != order@[j],
        sorted_rows(rows@, order@, sort_cell(columns@, sort_column as int), ascending),
{
    let t = trimmed(filter);
    let needle = to_lowercase(t.as_str());
    let cell = if sort_column < columns.len() {
        columns[sort_column].cell
    } else {
        Cell::Name
    };
    let ghost n = needle_of(filter@);
    let mut order: Vec<usize> = Vec::new();
    let mut i: usize = 0;
    while i < rows.len()
        invariant
            i <= rows@.len(),
            needle@ == n,
            cell == sort_cell(columns@, sort_column as int),
            !(cell is Ready),
            forall|j: int| 0 <= j < order@.len() ==> order@[j] < i,
            forall|k: usize|
                order@.contains(k) <==> (k < i && row_matches(rows@[k as int], n)),
            forall|a: int, b: int| 0 <= a < b < order@.len() ==> order@[a] != order@[b],
            sorted_rows(rows@, order@, cell, ascending),
        decreases rows@.len() - i,
    {
        let ghost pre = order@;
        let keep = matches_filter(&rows[i], needle.as_str());
        if keep {
            let mut pos = order.len();
            while pos > 0 && facing(&rows[order[pos - 1]], &rows[i], cell, ascending) > 0
                invariant
                    pos <= order@.len(),
                    i < rows@.len(),
                    !(cell is Ready),
                    forall|j: int| 0 <= j < order@.len() ==> order@[j] < i,
                    forall|j: int|
                        pos <= j < order@.len() ==> facing_sign(
                            rows@[order@[j] as int],
                            rows@[i as int],
                            cell,
                            ascending,
                        ) > 0,
                decreases pos,
            {
                pos -= 1;
            }
            let ghost old_order = order@;
            order.insert(pos, i);
            proof {
                lemma_insert_sorted(rows@, old_order, order@, pos as int, i, cell, ascending);
                assert forall|k: usize|
                    order@.contains(k) <==> (old_order.contains(k) || k == i) by {
                    if order@.contains(k) {
                        let j = choose|j: int| 0 <= j < order@.len() && order@[j] == k;
                        if j < pos {
                            assert(old_order[j] == k);
                        } else if j > pos {
                            assert(old_order[j - 1] == k);
                        }
                    }
                    if old_order.contains(k) {
                        let j = choose|j: int| 0 <= j < old_order.len() && old_order[j] == k;
                        if j < pos {
                            assert(order@[j] == k);
                        } else {
                            assert(order@[j + 1] == k);
                        }
                    }
                    if k == i {
                        assert(order@[pos as int] == k);
                    }
                }
            }
        }
        proof {
            assert forall|k: usize|
                order@.contains(k) <==> (k < i + 1 && row_matches(rows@[k as int], n)) by {
                assert(pre.contains(k) <==> (k < i && row_matches(rows@[k as int], n)));
                if !keep {
                    assert(order@ == pre);
                } else {
                    assert(order@.contains(k) <==> (pre.contains(k) || k == i));
                }
            }
        }
        i += 1;
    }
    order
}

/// Inserting row `x`, later than every listed row, after the last row that
/// does not come after it keeps the list sorted and free of repeats.
proof fn lemma_insert_sorted(
    rows: Seq<ObjectSummary>,
    before: Seq<usize>,
    after: Seq<usize>,
    pos: int,
    x: usize,
    cell: Cell,
    ascending: bool,
)
    requires
        0 <= pos <= before.len(),
        after == before.insert(pos, x),
        x < rows.len(),
        forall|j: int| 0 <= j < before.len() ==> before[j] < x,
        forall|j: int| 0 <= j < before.len() ==> before[j] < rows.len(),
        sorted_rows(rows, before, cell, ascending),
        forall|a: int, b: int| 0 <= a < b < before.len() ==> before[a] != before[b],
        pos > 0 ==> facing_sign(rows[before[pos - 1] as int], rows[x as int], cell, ascending) <= 0,
        forall|j: int|
            pos <= j < before.len() ==> facing_sign(rows[before[j] as int], rows[x as int], cell, ascending)
                > 0,
    ensures
        sorted_rows(rows, after, cell, ascending),
        forall|a: int, b: int| 0 <= a < b < after.len() ==> after[a] != after[b],
        forall|j: int| 0 <= j < after.len() ==> after[j] <= x,
{
    assert forall|i: int| 0 <= i < after.len() - 1 implies #[trigger] adjacent_in_order(
        rows,
        after,
        i,
        cell,
        ascending,
    ) by {
        if i < pos - 1 {
            assert(adjacent_in_order(rows, before, i, cell, ascending));
        } else if i == pos - 1 {
            assert(after[i] == before[pos - 1]);
            assert(after[i + 1] == x);
        } else if i == pos {
            assert(after[i] == x);
            assert(after[i + 1] == before[pos]);
            lemma_facing_sign_flip(rows[before[pos] as int], rows[x as int], cell, ascending);
        } else {
            assert(adjacent_in_order(rows, before, i - 1, cell, ascending));
            assert(after[i] == before[i - 1]);
            assert(after[i + 1] == before[i]);
        }
    }
    assert forall|a: int, b: int| 0 <= a < b < after.len() implies after[a] != after[b] by {
        if a < pos && b < pos {
        } else if a < pos && b == pos {
        } else if a < pos {
            assert(after[b] == before[b - 1]);
        } else if a == pos {
            assert(after[b] == before[b - 1]);
        } else {
            assert(after[a] == before[a - 1]);
            assert(after[b] == before[b - 1]);
        }
    }
}

// ---------------------------------------------------------------------------
// Objects and kinds
// ---------------------------------------------------------------------------

/// True when the row and the reference designate the same object.
pub fn same_object(item: &ObjectSummary, reference: &ResourceRef) -> (b: bool)
    ensures
        b == (item.name@ == reference.name@ && opt_view(item.namespace) == opt_view(
            reference.namespace,
        )),
{
    same_text(item.name.as_str(), reference.name.as_str()) && same_opt_text(
        &item.namespace,
        &reference.namespace,
    )
}

/// `kind` equals `expected` with ASCII letters compared case-insensitively.
fn kind_is(kind: &str, expected: &str) -> (b: bool)
    ensures
        b == (ascii_lower_seq(kind@) == expected@),
{
    let chars = chars_of(kind);
    let low = ascii_lowercase_range(&chars, 0, chars.len());
    assert(chars@.subrange(0, chars@.len() as int) =~= chars@);
    same_text(low.as_str(), expected)
}

/// A pod: the logs and the terminal apply to it.
pub fn is_pod(reference: &ResourceRef) -> (b: bool)
    ensures
        b == (ascii_lower_seq(reference.kind@) == "pod"@),
{
    kind_is(reference.kind.as_str(), "pod")
}

/// A node of the cluster, the only kind that can be cordoned and drained.
pub fn is_node(reference: &ResourceRef) -> (b: bool)
    ensures
        b == (ascii_lower_seq(reference.kind@) == "node"@),
{
    kind_is(reference.kind.as_str(), "node")
}

/// Kinds whose number of replicas can change.
pub open spec fn scalable_kind(kind: Seq<char>) -> bool {
    kind == "Deployment"@ || kind == "StatefulSet"@ || kind == "ReplicaSet"@ || kind
        == "ReplicationController"@
}

/// Kinds that accept a rolling restart and a rollback.
pub open spec fn rollable_kind(kind: Seq<char>) -> bool {
    kind == "Deployment"@ || kind == "StatefulSet"@ || kind == "DaemonSet"@
}

/// True for objects whose number of replicas can change.
pub fn is_scalable(reference: &ResourceRef) -> (b: bool)
    ensures
        b == scalable_kind(reference.kind@),
{
    let k = reference.kind.as_str();
    same_text(k, "Deployment") || same_text(k, "StatefulSet") || same_text(k, "ReplicaSet")
        || same_text(k, "ReplicationController")
}

/// True for objects that accept a rolling restart and a rollback.
pub fn is_rollable(reference: &ResourceRef) -> (b: bool)
    ensures
        b == rollable_kind(reference.kind@),
{
    let k = reference.kind.as_str();
    same_text(k, "Deployment") || same_text(k, "StatefulSet") || same_text(k, "DaemonSet")
}

/// Group and version of an `apiVersion`: `apps/v1` gives `apps` and `v1`,
/// `v1` the core group and `v1`.
pub open spec fn group_version_split(api_version: Seq<char>) -> (Seq<char>, Seq<char>) {
    let g = before_first(api_version, '/');
    if g.len() < api_version.len() {
        (g, api_version.skip(g.len() as int + 1))
    } else {
        (Seq::empty(), api_version)
    }
}

/// Reference of a row, rebuilt from the object itself and the resource
/// selected, for when the discovery of the cluster's kinds has not answered.
pub fn reference_depuis_ligne(item: &ObjectSummary, plural: &str) -> (r: ResourceRef)
    ensures
        (r.group@, r.version@) == group_version_split(item.api_version@),
        r.kind@ == item.kind@,
        r.plural@ == plural@,
        opt_view(r.namespace) == opt_view(item.namespace),
        r.name@ == item.name@,
{
    let chars = chars_of(item.api_version.as_str());
    let n = chars.len();
    let g = before_first_bounds(&chars, 0, n, '/');
    assert(chars@.subrange(0, n as int) =~= chars@);
    let (group, version) = if g < n {
        let group = string_from_range(&chars, 0, g);
        let version = string_from_range(&chars, g + 1, n);
        assert(chars@.subrange(g + 1, n as int) =~= item.api_version@.skip(g + 1));
        (group, version)
    } else {
        (String::new(), item.api_version.clone())
    };
    ResourceRef {
        group,
        version,
        kind: item.kind.clone(),
        plural: plural.to_owned(),
        namespace: clone_opt(&item.namespace),
        name: item.name.clone(),
    }
}

/// A kind the API server serves, as the kind selector lists it.
#[derive(Debug, Clone, PartialEq, Eq, Default)]
pub struct ResourceKind {
    /// API group, empty for the core group.
    pub group: String,
    /// Kind (`Deployment`).
    pub kind: String,
    /// Plural resource name (`deployments`).
    pub plural: String,
    /// True when objects of the kind live in a namespace.
    pub namespaced: bool,
    /// Abbreviations (`deploy`).
    pub short_names: Vec<String>,
}

/// The search rule of the kind selector: the lower-case needle occurs in the
/// lower case of the kind, of the plural, of the group or of an abbreviation.
pub open spec fn kind_found(kind: ResourceKind, needle: Seq<char>) -> bool {
    ||| needle.len() == 0
    ||| contains_seq(unicode_lower(kind.kind@), needle)
    ||| contains_seq(unicode_lower(kind.plural@), needle)
    ||| contains_seq(unicode_lower(kind.group@), needle)
    ||| exists|j: int|
        0 <= j < kind.short_names@.len() && contains_seq(
            unicode_lower(#[trigger] kind.short_names@[j]@),
            needle,
        )
}

/// True when the kind answers the search typed in the selector; `needle` is
/// already in lower case.
pub fn kind_matches(kind: &ResourceKind, needle: &str) -> (b: bool)
    ensures
        b == kind_found(*kind, needle@),
{
    if needle.is_empty() {
        return true;
    }
    let k = to_lowercase(kind.kind.as_str());
    if contains_str(k.as_str(), needle) {
        return true;
    }
    let p = to_lowercase(kind.plural.as_str());
    if contains_str(p.as_str(), needle) {
        return true;
    }
    let g = to_lowercase(kind.group.as_str());
    if contains_str(g.as_str(), needle) {
        return true;
    }
    let mut j: usize = 0;
    while j < kind.short_names.len()
        invariant
            j <= kind.short_names@.len(),
            forall|m: int|
                0 <= m < j ==> !contains_seq(unicode_lower(#[trigger] kind.short_names@[m]@), needle@),
        decreases kind.short_names@.len() - j,
    {
        let low = to_lowercase(kind.short_names[j].as_str());
        if contains_str(low.as_str(), needle) {
            return true;
        }
        j += 1;
    }
    false
}

/// The section of the kind selector a resource is classed in.
pub open spec fn section_of(plural: Seq<char>, group: Seq<char>) -> Seq<char> {
    if plural == "pods"@ || plural == "deployments"@ || plural == "statefulsets"@ || plural
        == "daemonsets"@ || plural == "replicasets"@ || plural == "jobs"@ || plural
        == "cronjobs"@ || plural == "replicationcontrollers"@ {
        "Charges de travail"@
    } else if plural == "services"@ || plural == "ingresses"@ || plural == "ingressclasses"@
        || plural == "endpoints"@ || plural == "endpointslices"@ || plural == "networkpolicies"@ {
        "Réseau"@
    } else if plural == "configmaps"@ || plural == "secrets"@ || plural == "serviceaccounts"@
        || plural == "resourcequotas"@ || plural == "limitranges"@ || plural
        == "horizontalpodautoscalers"@ || plural == "poddisruptionbudgets"@ {
        "Configuration"@
    } else if plural == "persistentvolumes"@ || plural == "persistentvolumeclaims"@ || plural
        == "storageclasses"@ || plural == "volumeattachments"@ || plural == "csidrivers"@
        || plural == "csinodes"@ {
        "Stockage"@
    } else if plural == "roles"@ || plural == "rolebindings"@ || plural == "clusterroles"@
        || plural == "clusterrolebindings"@ {
        "Autorisations"@
    } else if plural == "nodes"@ || plural == "namespaces"@ || plural == "events"@ || plural
        == "componentstatuses"@ || plural == "apiservices"@ || plural
        == "customresourcedefinitions"@ {
        "Cluster"@
    } else if group.len() == 0 {
        "Autres"@
    } else {
        "Extensions"@
    }
}

/// Section of the kind selector a kind is classed in.
pub fn kind_section(kind: &ResourceKind) -> (r: &'static str)
    ensures
        r@ == section_of(kind.plural@, kind.group@),
{
    let p = kind.plural.as_str();
    if same_text(p, "pods") || same_text(p, "deployments") || same_text(p, "statefulsets")
        || same_text(p, "daemonsets") || same_text(p, "replicasets") || same_text(p, "jobs")
        || same_text(p, "cronjobs") || same_text(p, "replicationcontrollers") {
        "Charges de travail"
    } else if same_text(p, "services") || same_text(p, "ingresses") || same_text(
        p,
        "ingressclasses",
    ) || same_text(p, "endpoints") || same_text(p, "endpointslices") || same_text(
        p,
        "networkpolicies",
    ) {
        "Réseau"
    } else if same_text(p, "configmaps") || same_text(p, "secrets") || same_text(
        p,
        "serviceaccounts",
    ) || same_text(p, "resourcequotas") || same_text(p, "limitranges") || same_text(
        p,
        "horizontalpodautoscalers",
    ) || same_text(p, "poddisruptionbudgets") {
        "Configuration"
    } else if same_text(p, "persistentvolumes") || same_text(p, "persistentvolumeclaims")
        || same_text(p, "storageclasses") || same_text(p, "volumeattachments") || same_text(
        p,
        "csidrivers",
    ) || same_text(p, "csinodes") {
        "Stockage"
    } else if same_text(p, "roles") || same_text(p, "rolebindings") || same_text(
        p,
        "clusterroles",
    ) || same_text(p, "clusterrolebindings") {
        "Autorisations"
    } else if same_text(p, "nodes") || same_text(p, "namespaces") || same_text(p, "events")
        || same_text(p, "componentstatuses") || same_text(p, "apiservices") || same_text(
        p,
        "customresourcedefinitions",
    ) {
        "Cluster"
    } else if kind.group.as_str().is_empty() {
        "Autres"
    } else {
        "Extensions"
    }
}

/// An age in seconds the way `kubectl` shows it: `45s`, `3m05s`, `3h20m`,
/// `12j04h`, `2a17j`; a dash when unknown.
pub open spec fn age_text(seconds: Option<i64>) -> Seq<char> {
    match seconds {
        None => "—"@,
        Some(s) => {
            let secs: nat = if s < 0 { 0 } else { s as nat };
            let minutes = secs / 60;
            let hours = minutes / 60;
            let days = hours / 24;
            if secs < 60 {
                decimal(secs) + seq!['s']
            } else if minutes < 60 {
                decimal(minutes) + seq!['m'] + decimal2(secs % 60) + seq!['s']
            } else if hours < 24 {
                decimal(hours) + seq!['h'] + decimal2(minutes % 60) + seq!['m']
            } else if days < 365 {
                decimal(days) + seq!['j'] + decimal2(hours % 24) + seq!['h']
            } else {
                decimal(days / 365) + seq!['a'] + decimal(days % 365) + seq!['j']
            }
        },
    }
}

/// Formats an age in seconds.
pub fn format_age(seconds: Option<i64>) -> (out: String)
    ensures
        out@ == age_text(seconds),
{
    let secs: u64 = match seconds {
        None => {
            return "—".to_owned();
        },
        Some(s) => if s < 0 {
            0
        } else {
            s as u64
        },
    };
    let mut out = String::new();
    if secs < 60 {
        push_decimal(&mut out, secs);
        push_char(&mut out, 's');
        return out;
    }
    let minutes = secs / 60;
    if minutes < 60 {
        push_decimal(&mut out, minutes);
        push_char(&mut out, 'm');
        push_decimal2(&mut out, secs % 60);
        push_char(&mut out, 's');
        return out;
    }
    let hours = minutes / 60;
    if hours < 24 {
        push_decimal(&mut out, hours);
        push_char(&mut out, 'h');
        push_decimal2(&mut out, minutes % 60);
        push_char(&mut out, 'm');
        return out;
    }
    let days = hours / 24;
    if days < 365 {
        push_decimal(&mut out, days);
        push_char(&mut out, 'j');
        push_decimal2(&mut out, hours % 24);
        push_char(&mut out, 'h');
        return out;
    }
    push_decimal(&mut out, days / 365);
    push_char(&mut out, 'a');
    push_decimal(&mut out, days % 365);
    push_char(&mut out, 'j');
    out
}

/// Command that opens a shell in a container: bash when present, sh otherwise.
pub fn default_shell() -> (v: Vec<String>)
    ensures
        v@.len() == 3,
        v@[0]@ == "/bin/sh"@,
        v@[1]@ == "-c"@,
        v@[2]@ == "command -v bash >/dev/null 2>&1 && exec bash || exec sh"@,
{
    let mut v = Vec::new();
    v.push("/bin/sh".to_owned());
    v.push("-c".to_owned());
    v.push("command -v bash >/dev/null 2>&1 && exec bash || exec sh".to_owned());
    v
}

} // verus!
