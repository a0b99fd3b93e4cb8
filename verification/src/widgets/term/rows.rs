//! How a row of the terminal is drawn: the colours of a cell, and the
//! grouping of the cells of a row into stretches of one look, so that a row
//! is not laid out one character at a time.
use vstd::prelude::*;

use crate::text::push_char;
use crate::widgets::term::{plain_style, Cell, CellStyle};

verus! {

/// A colour of the terminal: the theme's text or background colour, or an
/// entry of the sixteen-colour ANSI palette.
#[derive(Debug, Clone, Copy, PartialEq, Eq)]
pub enum Shade {
    /// The theme's text colour.
    Foreground,
    /// The terminal's background colour.
    Background,
    /// An entry `0..16` of the palette.
    Palette(u8),
}

/// Palette entry of a style's foreground: bold brightens the eight dark
/// colours, as on a real terminal.
pub open spec fn fg_index(style: CellStyle) -> Option<u8> {
    match style.fg {
        Some(v) => if style.bold && v < 8 {
            Some((v + 8) as u8)
        } else {
            Some(v)
        },
        None => None,
    }
}

/// Colours of a cell, text first: reverse video and the cursor each swap
/// them, and both together cancel out.
pub open spec fn shades_of(style: CellStyle, is_cursor: bool) -> (Shade, Shade) {
    let front = match fg_index(style) {
        Some(v) => Shade::Palette(v % 16),
        None => Shade::Foreground,
    };
    let back = match style.bg {
        Some(v) => Shade::Palette(v % 16),
        None => Shade::Background,
    };
    if style.inverse != is_cursor {
        (back, front)
    } else {
        (front, back)
    }
}

/// Colours a cell is drawn with, text first.
pub fn cell_shades(style: CellStyle, is_cursor: bool) -> (r: (Shade, Shade))
    ensures
        r == shades_of(style, is_cursor),
{
    let index = match style.fg {
        Some(v) => if style.bold && v < 8 {
            Some(v + 8)
        } else {
            Some(v)
        },
        None => None,
    };
    let front = match index {
        Some(v) => Shade::Palette(v % 16),
        None => Shade::Foreground,
    };
    let back = match style.bg {
        Some(v) => Shade::Palette(v % 16),
        None => Shade::Background,
    };
    if style.inverse != is_cursor {
        (back, front)
    } else {
        (front, back)
    }
}

/// A stretch of a row drawn with one look.
#[derive(Debug, Clone, PartialEq, Eq)]
pub struct Run {
    /// The characters.
    pub text: String,
    /// Their style.
    pub style: CellStyle,
    /// True for the cursor's cell.
    pub cursor: bool,
}

/// The characters a row draws, each with its style and whether the cursor is
/// on it: the cells, then, when the cursor stands past the last cell, blanks
/// up to its column and a blank under it.
pub open spec fn drawn_row(cells: Seq<Cell>, cursor: Option<usize>) -> Seq<(char, CellStyle, bool)> {
    let body = Seq::new(
        cells.len(),
        |i: int| (cells[i].ch, cells[i].style, cursor == Some(i as usize)),
    );
    if cursor is Some && cursor->0 >= cells.len() {
        body + Seq::new((cursor->0 - cells.len()) as nat, |i: int| (' ', plain_style(), false))
            + seq![(' ', plain_style(), true)]
    } else {
        body
    }
}

/// The characters of a run, each with the run's look.
pub open spec fn run_drawn(r: Run) -> Seq<(char, CellStyle, bool)> {
    r.text@.map_values(|c: char| (c, r.style, r.cursor))
}

/// The characters of runs, in order.
pub open spec fn runs_drawn(runs: Seq<Run>) -> Seq<(char, CellStyle, bool)>
    decreases runs.len(),
{
    if runs.len() == 0 {
        Seq::empty()
    } else {
        runs_drawn(runs.drop_last()) + run_drawn(runs.last())
    }
}

/// Runs are not empty, and two neighbours differ in look.
pub open spec fn runs_maximal(runs: Seq<Run>) -> bool {
    &&& forall|i: int| 0 <= i < runs.len() ==> (#[trigger] runs[i]).text@.len() > 0
    &&& forall|i: int|
        0 <= i < runs.len() - 1 ==> !(#[trigger] runs[i].style == runs[i + 1].style
            && runs[i].cursor == runs[i + 1].cursor)
}

/// Appends one drawn character, to the last run when it has the same look.
fn add_drawn(runs: &mut Vec<Run>, c: char, style: CellStyle, cursor: bool)
    requires
        runs_maximal(old(runs)@),
    ensures
        runs_maximal(final(runs)@),
        runs_drawn(final(runs)@) == runs_drawn(old(runs)@).push((c, style, cursor)),
{
    let n = runs.len();
    if n > 0 && runs[n - 1].style == style && runs[n - 1].cursor == cursor {
        let ghost before = runs@;
        let mut last = runs.pop().unwrap();
        let ghost old_last = last;
        push_char(&mut last.text, c);
        runs.push(last);
        proof {
            assert(runs@.drop_last() =~= before.drop_last());
            assert(run_drawn(runs@.last()) =~= run_drawn(old_last).push((c, style, cursor)));
            assert forall|i: int| 0 <= i < runs@.len() - 1 implies !(#[trigger] runs@[i].style
                == runs@[i + 1].style && runs@[i].cursor == runs@[i + 1].cursor) by {
                assert(runs@[i] == before[i]);
                if i + 1 < n - 1 {
                    assert(runs@[i + 1] == before[i + 1]);
                }
            }
            assert forall|i: int| 0 <= i < runs@.len() implies (#[trigger] runs@[i]).text@.len()
                > 0 by {
                if i < n - 1 {
                    assert(runs@[i] == before[i]);
                }
            }
        }
    } else {
        let mut text = String::new();
        push_char(&mut text, c);
        let ghost before = runs@;
        runs.push(Run { text, style, cursor });
        proof {
            assert(runs@.drop_last() =~= before);
            assert(run_drawn(runs@.last()) =~= seq![(c, style, cursor)]);
            assert forall|i: int| 0 <= i < runs@.len() - 1 implies !(#[trigger] runs@[i].style
                == runs@[i + 1].style && runs@[i].cursor == runs@[i + 1].cursor) by {
                assert(runs@[i] == before[i]);
                if i + 1 < n {
                    assert(runs@[i + 1] == before[i + 1]);
                }
            }
            assert forall|i: int| 0 <= i < runs@.len() implies (#[trigger] runs@[i]).text@.len()
                > 0 by {
                if i < n {
                    assert(runs@[i] == before[i]);
                }
            }
        }
    }
}

/// Splits a row into runs of one look: every character it draws, in order,
/// in as few runs as neighbours differing in look allow.
pub fn row_runs(cells: &Vec<Cell>, cursor: Option<usize>) -> (runs: Vec<Run>)
    ensures
        runs_drawn(runs@) == drawn_row(cells@, cursor),
        runs_maximal(runs@),
{
    let mut runs: Vec<Run> = Vec::new();
    let ghost body = Seq::new(
        cells@.len(),
        |i: int| (cells@[i].ch, cells@[i].style, cursor == Some(i as usize)),
    );
    let mut i: usize = 0;
    while i < cells.len()
        invariant
            i <= cells@.len(),
            runs_maximal(runs@),
            body.len() == cells@.len(),
            body == Seq::new(
                cells@.len(),
                |i: int| (cells@[i].ch, cells@[i].style, cursor == Some(i as usize)),
            ),
            runs_drawn(runs@) == body.take(i as int),
        decreases cells@.len() - i,
    {
        let on_cursor = match cursor {
            Some(col) => col == i,
            None => false,
        };
        add_drawn(&mut runs, cells[i].ch, cells[i].style, on_cursor);
        assert(body.take(i + 1) =~= body.take(i as int).push(body[i as int]));
        i += 1;
    }
    assert(body.take(cells@.len() as int) =~= body);
    if let Some(col) = cursor {
        if col >= cells.len() {
            let pad = col - cells.len();
            let ghost blanks = Seq::new(pad as nat, |k: int| (' ', plain_style(), false));
            let mut k: usize = 0;
            while k < pad
                invariant
                    k <= pad,
                    runs_maximal(runs@),
                    blanks == Seq::new(pad as nat, |k: int| (' ', plain_style(), false)),
                    runs_drawn(runs@) == body + blanks.take(k as int),
                decreases pad - k,
            {
                add_drawn(&mut runs, ' ', CellStyle { fg: None, bg: None, bold: false, inverse: false }, false);
                assert(blanks.take(k + 1) =~= blanks.take(k as int).push((' ', plain_style(), false)));
                assert(body + blanks.take(k + 1) =~= (body + blanks.take(k as int)).push(
                    (' ', plain_style(), false),
                ));
                k += 1;
            }
            assert(blanks.take(pad as int) =~= blanks);
            add_drawn(&mut runs, ' ', CellStyle { fg: None, bg: None, bold: false, inverse: false }, true);
            assert(drawn_row(cells@, cursor) =~= (body + blanks).push((' ', plain_style(), true)));
        }
    }
    runs
}

} // verus!
