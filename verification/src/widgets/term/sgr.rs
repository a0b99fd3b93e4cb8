//! What a SGR sequence does to a style, read as the attributes it sets: the
//! same sequence applied twice sets them to the same values, and colours stay
//! inside the sixteen-colour palette.
use vstd::prelude::*;

use crate::text::trim;
use crate::widgets::term::{plain_style, sgr_apply, sgr_code, sgr_result, sgr_run, sgr_skip, CellStyle};

verus! {

/// The attributes a run of SGR codes sets: whether it starts from the
/// plain style, then each attribute it sets last (`None` when untouched).
pub struct StyleSet {
    pub reset: bool,
    pub fg: Option<Option<u8>>,
    pub bg: Option<Option<u8>>,
    pub bold: Option<bool>,
    pub inverse: Option<bool>,
}

/// The set that touches nothing.
pub open spec fn no_set() -> StyleSet {
    StyleSet { reset: false, fg: None, bg: None, bold: None, inverse: None }
}

/// A style with the attributes of `e` set.
pub open spec fn overlay(s: CellStyle, e: StyleSet) -> CellStyle {
    let b = if e.reset { plain_style() } else { s };
    CellStyle {
        fg: match e.fg {
            Some(v) => v,
            None => b.fg,
        },
        bg: match e.bg {
            Some(v) => v,
            None => b.bg,
        },
        bold: match e.bold {
            Some(v) => v,
            None => b.bold,
        },
        inverse: match e.inverse {
            Some(v) => v,
            None => b.inverse,
        },
    }
}

/// `e1`, then `e2`.
pub open spec fn then_set(e1: StyleSet, e2: StyleSet) -> StyleSet {
    if e2.reset {
        e2
    } else {
        StyleSet {
            reset: e1.reset,
            fg: if e2.fg is Some { e2.fg } else { e1.fg },
            bg: if e2.bg is Some { e2.bg } else { e1.bg },
            bold: if e2.bold is Some { e2.bold } else { e1.bold },
            inverse: if e2.inverse is Some { e2.inverse } else { e1.inverse },
        }
    }
}

/// The attributes one code sets.
pub open spec fn code_set(code: nat) -> StyleSet {
    if code == 0 {
        StyleSet { reset: true, ..no_set() }
    } else if code == 1 {
        StyleSet { bold: Some(true), ..no_set() }
    } else if code == 22 {
        StyleSet { bold: Some(false), ..no_set() }
    } else if code == 7 {
        StyleSet { inverse: Some(true), ..no_set() }
    } else if code == 27 {
        StyleSet { inverse: Some(false), ..no_set() }
    } else if 30 <= code <= 37 {
        StyleSet { fg: Some(Some((code - 30) as u8)), ..no_set() }
    } else if code == 39 {
        StyleSet { fg: Some(None), ..no_set() }
    } else if 40 <= code <= 47 {
        StyleSet { bg: Some(Some((code - 40) as u8)), ..no_set() }
    } else if code == 49 {
        StyleSet { bg: Some(None), ..no_set() }
    } else if 90 <= code <= 97 {
        StyleSet { fg: Some(Some((code - 90 + 8) as u8)), ..no_set() }
    } else if 100 <= code <= 107 {
        StyleSet { bg: Some(Some((code - 100 + 8) as u8)), ..no_set() }
    } else {
        no_set()
    }
}

/// The attributes the SGR fields `fields` set, read as `sgr_run` reads them.
pub open spec fn fields_set(fields: Seq<Seq<char>>) -> StyleSet
    decreases fields.len(),
{
    if fields.len() == 0 {
        no_set()
    } else {
        let code = sgr_code(fields[0]);
        let rest = fields.drop_first();
        if code == 38 || code == 48 {
            let k = if sgr_skip(rest) <= rest.len() {
                sgr_skip(rest)
            } else {
                rest.len()
            };
            fields_set(rest.skip(k as int))
        } else {
            then_set(code_set(code), fields_set(rest))
        }
    }
}

/// A palette colour, or the default one.
pub open spec fn in_palette(c: Option<u8>) -> bool {
    c matches Some(v) ==> v < 16
}

/// The colours a set gives are in the palette.
pub open spec fn set_in_palette(e: StyleSet) -> bool {
    &&& e.fg matches Some(c) ==> in_palette(c)
    &&& e.bg matches Some(c) ==> in_palette(c)
}

proof fn lemma_fields_set(s: CellStyle, fields: Seq<Seq<char>>)
    ensures
        sgr_run(s, fields) == overlay(s, fields_set(fields)),
        set_in_palette(fields_set(fields)),
    decreases fields.len(),
{
    if fields.len() == 0 {
    } else {
        let code = sgr_code(fields[0]);
        let rest = fields.drop_first();
        if code == 38 || code == 48 {
            let k = if sgr_skip(rest) <= rest.len() {
                sgr_skip(rest)
            } else {
                rest.len()
            };
            lemma_fields_set(s, rest.skip(k as int));
        } else {
            assert(sgr_apply(s, code) == overlay(s, code_set(code)));
            lemma_fields_set(sgr_apply(s, code), rest);
            assert(overlay(overlay(s, code_set(code)), fields_set(rest)) == overlay(
                s,
                then_set(code_set(code), fields_set(rest)),
            ));
        }
    }
}

/// Applying the same SGR sequence twice gives what applying it once gives.
pub proof fn lemma_sgr_idempotent(s: CellStyle, params: Seq<char>)
    ensures
        sgr_result(sgr_result(s, params), params) == sgr_result(s, params),
{
    if trim(params).len() > 0 {
        let fields = crate::text::split_fields(params, ';');
        let e = fields_set(fields);
        lemma_fields_set(s, fields);
        lemma_fields_set(sgr_run(s, fields), fields);
        assert(overlay(overlay(s, e), e) == overlay(s, e));
    }
}

/// A SGR sequence keeps colours inside the sixteen-colour palette: from a
/// style whose colours are in it, the colours it gives are in it too.
pub proof fn lemma_sgr_palette(s: CellStyle, params: Seq<char>)
    requires
        in_palette(s.fg),
        in_palette(s.bg),
    ensures
        in_palette(sgr_result(s, params).fg),
        in_palette(sgr_result(s, params).bg),
{
    if trim(params).len() > 0 {
        lemma_fields_set(s, crate::text::split_fields(params, ';'));
    }
}

} // verus!
