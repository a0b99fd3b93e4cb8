//! Minimal terminal emulator, made for `kubectl exec`.
//!
//! It handles what an interactive shell really needs: streamed UTF-8
//! decoding, a subset of the ANSI sequences (SGR, erasing, cursor
//! positioning), a grid sized from the font, and the translation of keyboard
//! events into bytes.
use vstd::prelude::*;

use crate::text::{
    chars_of, cut_char, is_valid_up_to, parse_unsigned, parsed_unsigned, split_chars, split_fields, strip_end,
    strip_end_bound, trim, trim_bounds, utf8_error_len, utf8_from,
};

pub mod cursor;
pub mod rows;
pub mod sgr;
pub mod stream;

verus! {

/// Number of lines kept, visible screen included.
pub const SCROLLBACK: usize = 2000;

/// Largest number of commands kept in the local history.
pub const MAX_HISTORY: usize = 200;

/// Bounds of the grid, so that the cluster is never asked an absurd size.
pub const MIN_COLS: u16 = 8;
pub const MAX_COLS: u16 = 500;
pub const MIN_ROWS: u16 = 2;
pub const MAX_ROWS: u16 = 300;

/// Size before the first computation from the window.
pub const DEFAULT_COLS: u16 = 80;
pub const DEFAULT_ROWS: u16 = 24;

/// What the user produced during a frame.
#[derive(Debug, Clone, PartialEq, Eq)]
pub enum TerminalInput {
    /// Bytes to send to the remote process.
    Bytes(Vec<u8>),
    /// The grid changed size: the pseudo-terminal must be told.
    Resize {
        /// Number of columns.
        cols: u16,
        /// Number of rows.
        rows: u16,
    },
}

/// Display attributes of a cell.
#[derive(Debug, Clone, Copy, PartialEq, Eq, Structural)]
pub struct CellStyle {
    /// Index 0..16 in the ANSI palette, `None` for the default colour.
    pub fg: Option<u8>,
    /// Index 0..16 in the ANSI palette, `None` for the default background.
    pub bg: Option<u8>,
    /// Bold (and, for the dark colours, the bright variant).
    pub bold: bool,
    /// Reverse video.
    pub inverse: bool,
}

/// The style of a fresh terminal: default colours, no attribute.
pub open spec fn plain_style() -> CellStyle {
    CellStyle { fg: None, bg: None, bold: false, inverse: false }
}

impl Default for CellStyle {
    fn default() -> (s: Self)
        ensures
            s == plain_style(),
    {
        CellStyle { fg: None, bg: None, bold: false, inverse: false }
    }
}

// ---------------------------------------------------------------------------
// Control sequence parameters
// ---------------------------------------------------------------------------

/// A parameter read as `str::parse::<u16>` reads it, after trimming.
pub open spec fn sgr_value(f: Seq<char>) -> Option<nat> {
    parsed_unsigned(trim(f), 65535)
}

/// A SGR code: an empty or unreadable field is zero (ECMA-48).
pub open spec fn sgr_code(f: Seq<char>) -> nat {
    match sgr_value(f) {
        Some(v) => v,
        None => 0,
    }
}

/// The effect of one SGR code.
pub open spec fn sgr_apply(s: CellStyle, code: nat) -> CellStyle {
    if code == 0 {
        plain_style()
    } else if code == 1 {
        CellStyle { bold: true, ..s }
    } else if code == 22 {
        CellStyle { bold: false, ..s }
    } else if code == 7 {
        CellStyle { inverse: true, ..s }
    } else if code == 27 {
        CellStyle { inverse: false, ..s }
    } else if 30 <= code <= 37 {
        CellStyle { fg: Some((code - 30) as u8), ..s }
    } else if code == 39 {
        CellStyle { fg: None, ..s }
    } else if 40 <= code <= 47 {
        CellStyle { bg: Some((code - 40) as u8), ..s }
    } else if code == 49 {
        CellStyle { bg: None, ..s }
    } else if 90 <= code <= 97 {
        CellStyle { fg: Some((code - 90 + 8) as u8), ..s }
    } else if 100 <= code <= 107 {
        CellStyle { bg: Some((code - 100 + 8) as u8), ..s }
    } else {
        s
    }
}

/// Fields consumed after an extended colour code (`38`/`48`): its kind, then
/// one index for `5`, three components for `2`.
pub open spec fn sgr_skip(rest: Seq<Seq<char>>) -> nat {
    if rest.len() == 0 {
        0
    } else {
        match sgr_value(rest[0]) {
            Some(v) => if v == 5 {
                2
            } else if v == 2 {
                4
            } else {
                1
            },
            None => 1,
        }
    }
}

/// A style after the SGR fields `fields`.
pub open spec fn sgr_run(s: CellStyle, fields: Seq<Seq<char>>) -> CellStyle
    decreases fields.len(),
{
    if fields.len() == 0 {
        s
    } else {
        let code = sgr_code(fields[0]);
        let rest = fields.drop_first();
        if code == 38 || code == 48 {
            let k = if sgr_skip(rest) <= rest.len() {
                sgr_skip(rest)
            } else {
                rest.len()
            };
            sgr_run(s, rest.skip(k as int))
        } else {
            sgr_run(sgr_apply(s, code), rest)
        }
    }
}

/// A style after the SGR sequence `ESC [ params m`; no parameter resets.
pub open spec fn sgr_result(s: CellStyle, params: Seq<char>) -> CellStyle {
    if trim(params).len() == 0 {
        plain_style()
    } else {
        sgr_run(s, split_fields(params, ';'))
    }
}

/// The characters of `v`, trimmed.
fn trimmed_chars(v: &Vec<char>) -> (r: Vec<char>)
    ensures
        r@ == trim(v@),
{
    let (a, b) = trim_bounds(v);
    let mut r: Vec<char> = Vec::new();
    let mut k = a;
    while k < b
        invariant
            a <= k <= b <= v@.len(),
            r@ == v@.subrange(a as int, k as int),
        decreases b - k,
    {
        r.push(v[k]);
        k += 1;
    }
    r
}

fn field_value(f: &Vec<char>) -> (r: Option<u64>)
    ensures
        match r {
            Some(v) => sgr_value(f@) == Some(v as nat) && v <= 65535,
            None => sgr_value(f@) is None,
        },
{
    let t = trimmed_chars(f);
    parse_unsigned(&t, 65535)
}

fn apply_code(style: &mut CellStyle, code: u64)
    requires
        code <= 65535,
    ensures
        *final(style) == sgr_apply(*old(style), code as nat),
{
    if code == 0 {
        *style = CellStyle::default();
    } else if code == 1 {
        style.bold = true;
    } else if code == 22 {
        style.bold = false;
    } else if code == 7 {
        style.inverse = true;
    } else if code == 27 {
        style.inverse = false;
    } else if 30 <= code && code <= 37 {
        style.fg = Some((code - 30) as u8);
    } else if code == 39 {
        style.fg = None;
    } else if 40 <= code && code <= 47 {
        style.bg = Some((code - 40) as u8);
    } else if code == 49 {
        style.bg = None;
    } else if 90 <= code && code <= 97 {
        style.fg = Some((code - 90 + 8) as u8);
    } else if 100 <= code && code <= 107 {
        style.bg = Some((code - 100 + 8) as u8);
    }
}

/// Applies a SGR sequence (`ESC [ … m`) to a style.
///
/// Handled: reset, bold, reverse video, the sixteen foreground and background
/// colours. Extended colours (`38`/`48`) are consumed without being applied,
/// so that they do not spill over the following parameters.
pub fn apply_sgr(style: &mut CellStyle, params: &str)
    ensures
        *final(style) == sgr_result(*old(style), params@),
{
    let chars = chars_of(params);
    let (a, b) = trim_bounds(&chars);
    if a == b {
        *style = CellStyle::default();
        return;
    }
    let fields = split_chars(&chars, ';');
    let ghost fs = fields@.map_values(|f: Vec<char>| f@);
    let n = fields.len();
    let mut i: usize = 0;
    assert(fs.skip(0) == fs);
    while i < n
        invariant
            n == fields@.len(),
            fs == fields@.map_values(|f: Vec<char>| f@),
            i <= n,
            sgr_run(*old(style), fs) == sgr_run(*style, fs.skip(i as int)),
        decreases n - i,
    {
        let ghost here = fs.skip(i as int);
        let ghost rest = here.drop_first();
        assert(here[0] == fields@[i as int]@);
        assert(rest == fs.skip(i + 1));
        let code = match field_value(&fields[i]) {
            Some(v) => v,
            None => 0,
        };
        if code == 38 || code == 48 {
            let mut skip: usize = 0;
            if i + 1 < n {
                assert(rest[0] == fields@[i + 1]@);
                skip = match field_value(&fields[i + 1]) {
                    Some(v) => if v == 5 {
                        2
                    } else if v == 2 {
                        4
                    } else {
                        1
                    },
                    None => 1,
                };
            }
            let remaining = n - i - 1;
            let k = if skip <= remaining {
                skip
            } else {
                remaining
            };
            assert(rest.skip(k as int) == fs.skip(i + 1 + k));
            i = i + 1 + k;
        } else {
            apply_code(style, code);
            i += 1;
        }
    }
    assert(fs.skip(n as int).len() == 0);
}

/// The `index`-th `;`-separated parameter, `default` when it is absent, blank
/// or not a number.
pub open spec fn param_value(params: Seq<char>, index: nat, default: nat) -> nat {
    let fields = split_fields(params, ';');
    if index < fields.len() && trim(fields[index as int]).len() > 0 {
        match parsed_unsigned(trim(fields[index as int]), usize::MAX as nat) {
            Some(v) => v,
            None => default,
        }
    } else {
        default
    }
}

/// Reads the `index`-th parameter of a CSI sequence, with a default value.
pub fn param_at(params: &Vec<char>, index: usize, default: usize) -> (r: usize)
    ensures
        r == param_value(params@, index as nat, default as nat),
{
    let fields = split_chars(params, ';');
    assert(fields@.map_values(|f: Vec<char>| f@) == split_fields(params@, ';'));
    if index >= fields.len() {
        return default;
    }
    assert(fields@[index as int]@ == split_fields(params@, ';')[index as int]);
    let t = trimmed_chars(&fields[index]);
    if t.len() == 0 {
        return default;
    }
    match parse_unsigned(&t, usize::MAX as u64) {
        Some(v) => v as usize,
        None => default,
    }
}

// ---------------------------------------------------------------------------
// Keys
// ---------------------------------------------------------------------------

/// A key of the keyboard, as far as the terminal tells keys apart.
#[derive(Debug, Clone, Copy, PartialEq, Eq, Structural)]
pub enum Key {
    Enter,
    Backspace,
    Tab,
    Escape,
    ArrowUp,
    ArrowDown,
    ArrowRight,
    ArrowLeft,
    Home,
    End,
    Insert,
    Delete,
    PageUp,
    PageDown,
    Space,
    OpenBracket,
    Backslash,
    CloseBracket,
    A,
    B,
    C,
    D,
    E,
    F,
    G,
    H,
    I,
    J,
    K,
    L,
    M,
    N,
    O,
    P,
    Q,
    R,
    S,
    T,
    U,
    V,
    W,
    X,
    Y,
    Z,
    /// Any other key: digits, punctuation, function keys.
    Other,
}

/// Modifier keys held down.
#[derive(Debug, Clone, Copy, PartialEq, Eq, Structural, Default)]
pub struct Modifiers {
    /// Alt / Option.
    pub alt: bool,
    /// Control.
    pub ctrl: bool,
    /// Shift.
    pub shift: bool,
    /// Command on macOS.
    pub mac_cmd: bool,
    /// Control, or Command on macOS.
    pub command: bool,
}

/// Alphabetical rank of a letter key, from zero.
pub open spec fn letter_rank(key: Key) -> Option<u8> {
    match key {
        Key::A => Some(0u8),
        Key::B => Some(1u8),
        Key::C => Some(2u8),
        Key::D => Some(3u8),
        Key::E => Some(4u8),
        Key::F => Some(5u8),
        Key::G => Some(6u8),
        Key::H => Some(7u8),
        Key::I => Some(8u8),
        Key::J => Some(9u8),
        Key::K => Some(10u8),
        Key::L => Some(11u8),
        Key::M => Some(12u8),
        Key::N => Some(13u8),
        Key::O => Some(14u8),
        Key::P => Some(15u8),
        Key::Q => Some(16u8),
        Key::R => Some(17u8),
        Key::S => Some(18u8),
        Key::T => Some(19u8),
        Key::U => Some(20u8),
        Key::V => Some(21u8),
        Key::W => Some(22u8),
        Key::X => Some(23u8),
        Key::Y => Some(24u8),
        Key::Z => Some(25u8),
        _ => None,
    }
}

/// Alphabetical rank of a letter key, from zero.
pub fn letter_offset(key: Key) -> (r: Option<u8>)
    ensures
        r == letter_rank(key),
{
    match key {
        Key::A => Some(0),
        Key::B => Some(1),
        Key::C => Some(2),
        Key::D => Some(3),
        Key::E => Some(4),
        Key::F => Some(5),
        Key::G => Some(6),
        Key::H => Some(7),
        Key::I => Some(8),
        Key::J => Some(9),
        Key::K => Some(10),
        Key::L => Some(11),
        Key::M => Some(12),
        Key::N => Some(13),
        Key::O => Some(14),
        Key::P => Some(15),
        Key::Q => Some(16),
        Key::R => Some(17),
        Key::S => Some(18),
        Key::T => Some(19),
        Key::U => Some(20),
        Key::V => Some(21),
        Key::W => Some(22),
        Key::X => Some(23),
        Key::Y => Some(24),
        Key::Z => Some(25),
        _ => None,
    }
}

/// Bytes of a key without modifier; `None` for printable characters.
pub open spec fn plain_key_bytes(key: Key) -> Option<Seq<u8>> {
    match key {
        Key::Enter => Some(seq![0x0du8]),
        Key::Backspace => Some(seq![0x7fu8]),
        Key::Tab => Some(seq![0x09u8]),
        Key::Escape => Some(seq![0x1bu8]),
        Key::ArrowUp => Some(seq![0x1bu8, 0x5bu8, 0x41u8]),
        Key::ArrowDown => Some(seq![0x1bu8, 0x5bu8, 0x42u8]),
        Key::ArrowRight => Some(seq![0x1bu8, 0x5bu8, 0x43u8]),
        Key::ArrowLeft => Some(seq![0x1bu8, 0x5bu8, 0x44u8]),
        Key::Home => Some(seq![0x1bu8, 0x5bu8, 0x48u8]),
        Key::End => Some(seq![0x1bu8, 0x5bu8, 0x46u8]),
        Key::Insert => Some(seq![0x1bu8, 0x5bu8, 0x32u8, 0x7eu8]),
        Key::Delete => Some(seq![0x1bu8, 0x5bu8, 0x33u8, 0x7eu8]),
        Key::PageUp => Some(seq![0x1bu8, 0x5bu8, 0x35u8, 0x7eu8]),
        Key::PageDown => Some(seq![0x1bu8, 0x5bu8, 0x36u8, 0x7eu8]),
        _ => None,
    }
}

/// Bytes sent for a key: with Control (or Command), letters give their
/// control code and four punctuation keys theirs; otherwise the plain bytes.
pub open spec fn key_bytes(key: Key, m: Modifiers) -> Option<Seq<u8>> {
    if (m.ctrl || m.mac_cmd) && letter_rank(key) is Some {
        Some(seq![(letter_rank(key)->0 + 1) as u8])
    } else if (m.ctrl || m.mac_cmd) && key == Key::Space {
        Some(seq![0x00u8])
    } else if (m.ctrl || m.mac_cmd) && key == Key::OpenBracket {
        Some(seq![0x1bu8])
    } else if (m.ctrl || m.mac_cmd) && key == Key::Backslash {
        Some(seq![0x1cu8])
    } else if (m.ctrl || m.mac_cmd) && key == Key::CloseBracket {
        Some(seq![0x1du8])
    } else {
        plain_key_bytes(key)
    }
}

/// Translates a key into bytes for the pseudo-terminal.
///
/// Gives `None` for printable characters: those come as text events, which
/// know the keyboard layout.
pub fn key_to_bytes(key: Key, modifiers: Modifiers) -> (r: Option<Vec<u8>>)
    ensures
        match r {
            Some(v) => key_bytes(key, modifiers) == Some(v@),
            None => key_bytes(key, modifiers) is None,
        },
{
    if modifiers.ctrl || modifiers.mac_cmd {
        if let Some(offset) = letter_offset(key) {
            return Some(vec![offset + 1]);
        }
        match key {
            Key::Space => {
                return Some(vec![0x00]);
            },
            Key::OpenBracket => {
                return Some(vec![0x1b]);
            },
            Key::Backslash => {
                return Some(vec![0x1c]);
            },
            Key::CloseBracket => {
                return Some(vec![0x1d]);
            },
            _ => {},
        }
    }
    let bytes: Vec<u8> = match key {
        Key::Enter => vec![0x0d],
        Key::Backspace => vec![0x7f],
        Key::Tab => vec![0x09],
        Key::Escape => vec![0x1b],
        Key::ArrowUp => vec![0x1b, 0x5b, 0x41],
        Key::ArrowDown => vec![0x1b, 0x5b, 0x42],
        Key::ArrowRight => vec![0x1b, 0x5b, 0x43],
        Key::ArrowLeft => vec![0x1b, 0x5b, 0x44],
        Key::Home => vec![0x1b, 0x5b, 0x48],
        Key::End => vec![0x1b, 0x5b, 0x46],
        Key::Insert => vec![0x1b, 0x5b, 0x32, 0x7e],
        Key::Delete => vec![0x1b, 0x5b, 0x33, 0x7e],
        Key::PageUp => vec![0x1b, 0x5b, 0x35, 0x7e],
        Key::PageDown => vec![0x1b, 0x5b, 0x36, 0x7e],
        _ => {
            return None;
        },
    };
    Some(bytes)
}

// ---------------------------------------------------------------------------
// The grid
// ---------------------------------------------------------------------------

/// A character and its attributes.
#[derive(Debug, Clone, Copy, PartialEq, Eq, Structural)]
pub struct Cell {
    /// The character.
    pub ch: char,
    /// Its attributes.
    pub style: CellStyle,
}

/// An empty cell.
pub open spec fn blank_cell() -> Cell {
    Cell { ch: ' ', style: plain_style() }
}

/// State of the escape sequence parser.
#[derive(Debug, Clone, Copy, PartialEq, Eq, Structural)]
pub enum ParserState {
    /// Plain text.
    Ground,
    /// `ESC` received.
    Escape,
    /// `ESC` then an intermediate byte (character set, ...).
    EscapeIntermediate,
    /// `ESC [`: control sequence, parameters being gathered.
    Csi,
    /// Command string (`OSC`, `DCS`, `APC`, `PM`) ignored up to its end.
    Osc,
    /// `ESC` inside a command string: `\` ends it.
    OscEscape,
}

/// What a terminal shows and where it stands, as values.
pub struct Screen {
    /// Lines, oldest first; the screen is the window of the last `rows`.
    pub lines: Seq<Seq<Cell>>,
    /// Cursor line, in `lines`.
    pub row: nat,
    /// Cursor column.
    pub col: nat,
    /// Style of the next characters.
    pub style: CellStyle,
    /// Columns of the grid.
    pub cols: nat,
    /// Rows of the grid.
    pub rows: nat,
    /// Parser state.
    pub state: ParserState,
    /// Parameters of the control sequence being read.
    pub params: Seq<char>,
}

/// Number of columns, at least one.
pub open spec fn width(s: Screen) -> nat {
    if s.cols >= 1 {
        s.cols
    } else {
        1
    }
}

/// Number of rows, at least one.
pub open spec fn height(s: Screen) -> nat {
    if s.rows >= 1 {
        s.rows
    } else {
        1
    }
}

/// Index of the first visible line.
pub open spec fn screen_top(s: Screen) -> nat {
    if s.lines.len() > height(s) {
        (s.lines.len() - height(s)) as nat
    } else {
        0
    }
}

/// `n` empty lines.
pub open spec fn empty_lines(n: nat) -> Seq<Seq<Cell>> {
    Seq::new(n, |i: int| Seq::<Cell>::empty())
}

/// Lines extended so that line `row` exists, then the oldest dropped beyond
/// the scrollback; the cursor follows the content.
pub open spec fn ensure_line(s: Screen, row: nat) -> Screen {
    let ext = if s.lines.len() <= row {
        s.lines + empty_lines((row + 1 - s.lines.len()) as nat)
    } else {
        s.lines
    };
    let excess: nat = if ext.len() > SCROLLBACK {
        (ext.len() - SCROLLBACK) as nat
    } else {
        0
    };
    Screen {
        lines: ext.skip(excess as int),
        row: if s.row >= excess {
            (s.row - excess) as nat
        } else {
            0
        },
        ..s
    }
}

/// Next line, same column.
pub open spec fn line_feed(s: Screen) -> Screen {
    ensure_line(Screen { row: s.row + 1, ..s }, s.row + 1)
}

/// Cursor on an absolute line of the memory.
pub open spec fn move_abs(s: Screen, row: nat) -> Screen {
    ensure_line(Screen { row: row, ..s }, row)
}

/// Cursor at a position relative to the visible screen, clamped to the grid.
pub open spec fn move_to(s: Screen, row: nat, col: nat) -> Screen {
    let r = if row < height(s) {
        row
    } else {
        (height(s) - 1) as nat
    };
    let c = if col < width(s) {
        col
    } else {
        (width(s) - 1) as nat
    };
    Screen { col: c, ..move_abs(s, screen_top(s) + r) }
}

/// `line` padded with blank cells so that column `col` exists.
pub open spec fn padded(line: Seq<Cell>, col: nat) -> Seq<Cell> {
    if line.len() <= col {
        line + Seq::new((col + 1 - line.len()) as nat, |i: int| blank_cell())
    } else {
        line
    }
}

/// Writes a character at the cursor, wrapping at the end of the line.
pub open spec fn put(s: Screen, c: char) -> Screen {
    let s1 = if s.col >= width(s) {
        Screen { col: 0, ..line_feed(s) }
    } else {
        s
    };
    let s2 = ensure_line(s1, s1.row);
    let line = padded(s2.lines[s2.row as int], s2.col).update(s2.col as int, Cell { ch: c, style: s2.style });
    Screen { lines: s2.lines.update(s2.row as int, line), col: s2.col + 1, ..s2 }
}

/// Lines `from..to` emptied.
pub open spec fn cleared(lines: Seq<Seq<Cell>>, from: int, to: int) -> Seq<Seq<Cell>> {
    Seq::new(lines.len(), |i: int| if from <= i < to { Seq::<Cell>::empty() } else { lines[i] })
}

/// The first `n` cells of `line` blanked.
pub open spec fn blanked(line: Seq<Cell>, n: nat) -> Seq<Cell> {
    Seq::new(line.len(), |i: int| if i < n { blank_cell() } else { line[i] })
}

/// `line` cut at column `col`.
pub open spec fn cut(line: Seq<Cell>, col: nat) -> Seq<Cell> {
    if col < line.len() {
        line.take(col as int)
    } else {
        line
    }
}

/// Applies `f` to the cursor line, when it exists.
pub open spec fn cursor_line_is(s: Screen, line: Seq<Cell>) -> Seq<Seq<Cell>> {
    if s.row < s.lines.len() {
        s.lines.update(s.row as int, line)
    } else {
        s.lines
    }
}

/// Erasing in the display: `0` from the cursor to the end, `1` from the
/// beginning to the cursor, `2` and `3` the whole visible screen.
pub open spec fn erase_display(s: Screen, mode: nat) -> Screen {
    let top = screen_top(s);
    let end = s.lines.len();
    if mode == 0 {
        let l = if s.row < end {
            cursor_line_is(s, cut(s.lines[s.row as int], s.col))
        } else {
            s.lines
        };
        Screen { lines: cleared(l, s.row as int + 1, end as int), ..s }
    } else if mode == 1 {
        let l = cleared(s.lines, top as int, s.row as int);
        let l2 = if s.row < end {
            l.update(s.row as int, blanked(l[s.row as int], s.col + 1))
        } else {
            l
        };
        Screen { lines: l2, ..s }
    } else if mode == 2 || mode == 3 {
        Screen { lines: cleared(s.lines, top as int, end as int), ..s }
    } else {
        s
    }
}

/// Erasing in the line: `0` from the cursor to the end, `1` from the
/// beginning to the cursor, `2` the whole line.
pub open spec fn erase_line(s: Screen, mode: nat) -> Screen {
    if s.row < s.lines.len() {
        let line = s.lines[s.row as int];
        if mode == 0 {
            Screen { lines: s.lines.update(s.row as int, cut(line, s.col)), ..s }
        } else if mode == 1 {
            Screen { lines: s.lines.update(s.row as int, blanked(line, s.col + 1)), ..s }
        } else if mode == 2 {
            Screen { lines: s.lines.update(s.row as int, Seq::empty()), ..s }
        } else {
            s
        }
    } else {
        s
    }
}

// ---------------------------------------------------------------------------
// The terminal
// ---------------------------------------------------------------------------

/// Terminal emulator.
#[derive(Debug, Clone)]
pub struct Terminal {
    /// Lines, oldest first. The screen is the window of the last `rows` lines.
    lines: Vec<Vec<Cell>>,
    cursor_row: usize,
    cursor_col: usize,
    style: CellStyle,
    cols: u16,
    rows: u16,
    /// Bytes of a UTF-8 character still incomplete, kept from one frame to
    /// the next: that is what avoids a character cut in two.
    partial: Vec<u8>,
    state: ParserState,
    params: Vec<char>,
    history: Vec<String>,
    history_position: Option<usize>,
    current_line: String,
    /// Local history handled by the client.
    ///
    /// Off by default: on a pseudo-terminal the remote shell keeps the
    /// history, and the arrows must reach it as they are.
    pub local_history: bool,
}

impl View for Terminal {
    type V = Screen;

    closed spec fn view(&self) -> Screen {
        Screen {
            lines: self.lines@.map_values(|l: Vec<Cell>| l@),
            row: self.cursor_row as nat,
            col: self.cursor_col as nat,
            style: self.style,
            cols: self.cols as nat,
            rows: self.rows as nat,
            state: self.state,
            params: self.params@,
        }
    }
}

/// The grid fits its bounds: bounded scrollback, cursor on an existing line
/// (or at the origin of an empty memory), bounded size and buffers.
pub open spec fn screen_wf(s: Screen) -> bool {
    &&& s.lines.len() <= SCROLLBACK
    &&& (s.row < s.lines.len() || (s.lines.len() == 0 && s.row == 0))
    &&& s.col <= MAX_COLS
    &&& MIN_COLS <= s.cols <= MAX_COLS
    &&& MIN_ROWS <= s.rows <= MAX_ROWS
    &&& s.params.len() <= 64
}

/// The grid fits its bounds, wherever the cursor line stands.
pub open spec fn grid_ok(s: Screen) -> bool {
    &&& s.lines.len() <= SCROLLBACK
    &&& s.col <= MAX_COLS
    &&& MIN_COLS <= s.cols <= MAX_COLS
    &&& MIN_ROWS <= s.rows <= MAX_ROWS
    &&& s.params.len() <= 64
}

impl Terminal {
    /// Bytes of an incomplete character kept for the next frame.
    pub closed spec fn pending_bytes(&self) -> Seq<u8> {
        self.partial@
    }

    /// Commands of the local history, oldest first.
    pub closed spec fn commands(&self) -> Seq<Seq<char>> {
        self.history@.map_values(|c: String| c@)
    }

    /// Position in the local history while browsing it.
    pub closed spec fn recall(&self) -> Option<usize> {
        self.history_position
    }

    /// The line being typed, as far as the terminal followed it.
    pub closed spec fn typed(&self) -> Seq<char> {
        self.current_line@
    }

    /// True when the arrows browse the local history.
    pub closed spec fn local(&self) -> bool {
        self.local_history
    }

    /// The terminal is well formed.
    pub closed spec fn wf(&self) -> bool {
        &&& screen_wf(self@)
        &&& self.partial@.len() <= 3
        &&& self.history@.len() <= MAX_HISTORY
        &&& (self.history_position matches Some(p) ==> p < self.history@.len())
    }

    proof fn lemma_lines_view(&self)
        ensures
            self@.lines.len() == self.lines@.len(),
            forall|i: int| 0 <= i < self.lines@.len() ==> #[trigger] self@.lines[i] == self.lines@[i]@,
    {
    }

    fn screen_top(&self) -> (t: usize)
        ensures
            t == screen_top(self@),
    {
        let h: usize = if self.rows >= 1 {
            self.rows as usize
        } else {
            1
        };
        if self.lines.len() > h {
            self.lines.len() - h
        } else {
            0
        }
    }

    /// Makes sure line `row` exists, then bounds the scrollback.
    fn ensure_line(&mut self, row: usize)
        requires
            grid_ok(old(self)@),
        ensures
            final(self)@ == ensure_line(old(self)@, row as nat),
            grid_ok(final(self)@),
            old(self).cursor_row == row ==> final(self).cursor_row < final(self).lines@.len(),
            final(self).partial == old(self).partial,
            final(self).history == old(self).history,
            final(self).history_position == old(self).history_position,
            final(self).current_line == old(self).current_line,
            final(self).local_history == old(self).local_history,
    {
        let ghost s = self@;
        let len = self.lines.len();
        if row < len {
            assert(s.lines.skip(0) == s.lines);
            return;
        }
        let excess: usize = if row >= SCROLLBACK {
            row - (SCROLLBACK - 1)
        } else {
            0
        };
        let ghost ext = s.lines + empty_lines((row + 1 - len) as nat);
        let mut lines: Vec<Vec<Cell>> = Vec::new();
        if excess >= len {
            let keep: usize = if row >= SCROLLBACK {
                SCROLLBACK
            } else {
                row + 1
            };
            let mut k: usize = 0;
            while k < keep
                invariant
                    k <= keep,
                    lines@.len() == k,
                    forall|x: int| 0 <= x < k ==> (#[trigger] lines@[x])@ == Seq::<Cell>::empty(),
                decreases keep - k,
            {
                lines.push(Vec::new());
                k += 1;
            }
            assert(lines@.map_values(|l: Vec<Cell>| l@) =~= ext.skip(excess as int));
        } else {
            std::mem::swap(&mut lines, &mut self.lines);
            let tail = lines.split_off(excess);
            lines = tail;
            let mut k: usize = len;
            while k <= row
                invariant
                    len <= k <= row + 1,
                    row < SCROLLBACK + len,
                    len <= SCROLLBACK,
                    excess < len,
                    len == s.lines.len(),
                    lines@.len() == k - excess,
                    forall|x: int| 0 <= x < len - excess ==> (#[trigger] lines@[x])@ == s.lines[x + excess],
                    forall|x: int| len - excess <= x < k - excess ==> (#[trigger] lines@[x])@ == Seq::<Cell>::empty(),
                decreases row + 1 - k,
            {
                lines.push(Vec::new());
                k += 1;
            }
            assert(lines@.map_values(|l: Vec<Cell>| l@) =~= ext.skip(excess as int));
        }
        self.lines = lines;
        if self.cursor_row >= excess {
            self.cursor_row = self.cursor_row - excess;
        } else {
            self.cursor_row = 0;
        }
    }

    /// Next line, same column.
    fn line_feed(&mut self)
        requires
            screen_wf(old(self)@),
        ensures
            final(self)@ == line_feed(old(self)@),
            screen_wf(final(self)@),
            final(self).partial == old(self).partial,
            final(self).history == old(self).history,
            final(self).history_position == old(self).history_position,
            final(self).current_line == old(self).current_line,
            final(self).local_history == old(self).local_history,
    {
        self.cursor_row = self.cursor_row + 1;
        let row = self.cursor_row;
        self.ensure_line(row);
    }

    /// Cursor on an absolute line of the memory; the scrollback bound may move
    /// the cursor with the content.
    fn move_to_absolute(&mut self, row: usize)
        requires
            screen_wf(old(self)@),
        ensures
            final(self)@ == move_abs(old(self)@, row as nat),
            screen_wf(final(self)@),
            final(self).partial == old(self).partial,
            final(self).history == old(self).history,
            final(self).history_position == old(self).history_position,
            final(self).current_line == old(self).current_line,
            final(self).local_history == old(self).local_history,
    {
        self.cursor_row = row;
        self.ensure_line(row);
    }

    /// Cursor at a position relative to the visible screen.
    fn move_to(&mut self, row: usize, column: usize)
        requires
            screen_wf(old(self)@),
        ensures
            final(self)@ == move_to(old(self)@, row as nat, column as nat),
            screen_wf(final(self)@),
            final(self).partial == old(self).partial,
            final(self).history == old(self).history,
            final(self).history_position == old(self).history_position,
            final(self).current_line == old(self).current_line,
            final(self).local_history == old(self).local_history,
    {
        let last_row: usize = if self.rows >= 1 {
            self.rows as usize - 1
        } else {
            0
        };
        let last_column: usize = if self.cols >= 1 {
            self.cols as usize - 1
        } else {
            0
        };
        let r = if row < last_row {
            row
        } else {
            last_row
        };
        let target = self.screen_top() + r;
        self.move_to_absolute(target);
        self.cursor_col = if column < last_column {
            column
        } else {
            last_column
        };
    }

    /// Writes a character at the cursor, wrapping at the end of the line.
    fn put(&mut self, character: char)
        requires
            screen_wf(old(self)@),
        ensures
            final(self)@ == put(old(self)@, character),
            screen_wf(final(self)@),
            final(self).partial == old(self).partial,
            final(self).history == old(self).history,
            final(self).history_position == old(self).history_position,
            final(self).current_line == old(self).current_line,
            final(self).local_history == old(self).local_history,
    {
        let w: usize = if self.cols >= 1 {
            self.cols as usize
        } else {
            1
        };
        if self.cursor_col >= w {
            self.line_feed();
            self.cursor_col = 0;
        }
        let requested_row = self.cursor_row;
        self.ensure_line(requested_row);
        let row = self.cursor_row;
        let column = self.cursor_col;
        let style = self.style;
        let ghost s2 = self@;
        let mut line: Vec<Cell> = Vec::new();
        self.lines.set_and_swap(row, &mut line);
        let ghost orig = s2.lines[row as int];
        assert(line@ == orig);
        if line.len() <= column {
            while line.len() <= column
                invariant
                    orig.len() <= line@.len() <= column + 1,
                    line@.subrange(0, orig.len() as int) == orig,
                    forall|x: int| orig.len() <= x < line@.len() ==> #[trigger] line@[x] == blank_cell(),
                decreases column + 1 - line@.len(),
            {
                line.push(Cell { ch: ' ', style: CellStyle::default() });
            }
        }
        assert(line@ =~= padded(orig, column as nat));
        line.set(column, Cell { ch: character, style });
        self.lines.set(row, line);
        self.cursor_col = column + 1;
        proof {
            assert(self@.lines =~= s2.lines.update(row as int, padded(s2.lines[row as int], column as nat).update(column as int, Cell { ch: character, style: style })));
        }
    }
}

// ---------------------------------------------------------------------------
// The parser
// ---------------------------------------------------------------------------

/// `n` at least one.
pub open spec fn at_least_one(n: nat) -> nat {
    if n >= 1 {
        n
    } else {
        1
    }
}

/// `a - b`, or zero.
pub open spec fn minus(a: nat, b: nat) -> nat {
    if a >= b {
        (a - b) as nat
    } else {
        0
    }
}

/// `a`, at most `b`.
pub open spec fn at_most(a: nat, b: nat) -> nat {
    if a <= b {
        a
    } else {
        b
    }
}

/// A control sequence applied; private sequences (`?`, `>`, `<`, `=`) and
/// unknown ones change nothing, and nothing is ever printed for them.
#[verifier::opaque]
pub open spec fn execute_csi(s: Screen, params: Seq<char>, fin: char) -> Screen {
    let count = at_least_one(param_value(params, 0, 1));
    let last_col = (width(s) - 1) as nat;
    if params.len() > 0 && (params[0] == '?' || params[0] == '>' || params[0] == '<' || params[0] == '=') {
        s
    } else if fin == 'm' {
        Screen { style: sgr_result(s.style, params), ..s }
    } else if fin == 'J' {
        erase_display(s, param_value(params, 0, 0))
    } else if fin == 'K' {
        erase_line(s, param_value(params, 0, 0))
    } else if fin == 'H' || fin == 'f' {
        move_to(s, (at_least_one(param_value(params, 0, 1)) - 1) as nat, (at_least_one(param_value(params, 1, 1)) - 1) as nat)
    } else if fin == 'A' {
        let r = minus(s.row, count);
        Screen { row: if r >= screen_top(s) { r } else { screen_top(s) }, ..s }
    } else if fin == 'B' {
        move_abs(s, at_most(s.row + count, usize::MAX as nat))
    } else if fin == 'C' {
        Screen { col: at_most(s.col + count, last_col), ..s }
    } else if fin == 'D' {
        Screen { col: minus(s.col, count), ..s }
    } else if fin == 'G' {
        Screen { col: at_most((at_least_one(param_value(params, 0, 1)) - 1) as nat, last_col), ..s }
    } else if fin == 'd' {
        move_to(s, (at_least_one(param_value(params, 0, 1)) - 1) as nat, s.col)
    } else {
        s
    }
}

/// Plain text and simple control codes.
pub open spec fn ground(s: Screen, c: char) -> Screen {
    if c == '\u{1b}' {
        Screen { state: ParserState::Escape, ..s }
    } else if c == '\r' {
        Screen { col: 0, ..s }
    } else if c == '\n' {
        line_feed(s)
    } else if c == '\u{8}' {
        Screen { col: minus(s.col, 1), ..s }
    } else if c == '\t' {
        Screen { col: at_most((s.col / 8 + 1) * 8, (width(s) - 1) as nat), ..s }
    } else if (c as u32) < 0x20 || c == '\u{7f}' {
        s
    } else {
        put(s, c)
    }
}

/// The character after `ESC`.
pub open spec fn escape(s: Screen, c: char) -> Screen {
    if c == '[' {
        Screen { params: Seq::empty(), state: ParserState::Csi, ..s }
    } else if c == ']' || c == 'P' || c == 'X' || c == '^' || c == '_' {
        Screen { state: ParserState::Osc, ..s }
    } else if '\u{20}' <= c && c <= '\u{2f}' {
        Screen { state: ParserState::EscapeIntermediate, ..s }
    } else {
        Screen { state: ParserState::Ground, ..s }
    }
}

/// Gathering, then running, of an `ESC [` sequence.
pub open spec fn csi(s: Screen, c: char) -> Screen {
    if '\u{20}' <= c && c <= '\u{3f}' {
        Screen { params: if s.params.len() < 64 { s.params.push(c) } else { s.params }, ..s }
    } else {
        let s1 = if '\u{40}' <= c && c <= '\u{7e}' {
            execute_csi(Screen { params: Seq::empty(), ..s }, s.params, c)
        } else {
            s
        };
        Screen { params: Seq::empty(), state: ParserState::Ground, ..s1 }
    }
}

/// One character through the parser.
pub open spec fn step(s: Screen, c: char) -> Screen {
    match s.state {
        ParserState::Ground => ground(s, c),
        ParserState::Escape => escape(s, c),
        ParserState::EscapeIntermediate => Screen { state: ParserState::Ground, ..s },
        ParserState::Csi => csi(s, c),
        ParserState::Osc => if c == '\u{7}' {
            Screen { state: ParserState::Ground, ..s }
        } else if c == '\u{1b}' {
            Screen { state: ParserState::OscEscape, ..s }
        } else {
            s
        },
        ParserState::OscEscape => if c == '\\' {
            Screen { state: ParserState::Ground, ..s }
        } else if c == '\u{1b}' {
            s
        } else {
            Screen { state: ParserState::Osc, ..s }
        },
    }
}

/// Characters through the parser, in order.
pub open spec fn steps(s: Screen, cs: Seq<char>) -> Screen
    decreases cs.len(),
{
    if cs.len() == 0 {
        s
    } else {
        steps(step(s, cs[0]), cs.drop_first())
    }
}

fn clear_lines(lines: &mut Vec<Vec<Cell>>, from: usize, to: usize)
    requires
        to <= old(lines)@.len(),
    ensures
        final(lines)@.map_values(|l: Vec<Cell>| l@) == cleared(old(lines)@.map_values(|l: Vec<Cell>| l@), from as int, to as int),
{
    let ghost before = lines@.map_values(|l: Vec<Cell>| l@);
    let mut i = from;
    while i < to
        invariant
            from <= i,
            i <= to || i == from,
            to <= lines@.len(),
            lines@.len() == before.len(),
            forall|x: int| 0 <= x < lines@.len() ==> (#[trigger] lines@[x])@ == (if from <= x < i { Seq::<Cell>::empty() } else { before[x] }),
        decreases to - i,
    {
        lines.set(i, Vec::new());
        i += 1;
    }
    assert(lines@.map_values(|l: Vec<Cell>| l@) =~= cleared(before, from as int, to as int));
}

fn blank_prefix(line: &mut Vec<Cell>, n: usize)
    ensures
        final(line)@ == blanked(old(line)@, n as nat),
{
    let ghost before = line@;
    let mut k: usize = 0;
    while k < n && k < line.len()
        invariant
            line@.len() == before.len(),
            k <= n,
            forall|x: int| 0 <= x < line@.len() ==> #[trigger] line@[x] == (if x < k { blank_cell() } else { before[x] }),
        decreases line@.len() - k,
    {
        line.set(k, Cell { ch: ' ', style: CellStyle::default() });
        k += 1;
    }
    assert(line@ =~= blanked(before, n as nat));
}

impl Terminal {
    /// Erasing in the display: `0` from the cursor to the end, `1` from the
    /// beginning to the cursor, `2` and `3` the whole visible screen.
    fn erase_display(&mut self, mode: usize)
        requires
            screen_wf(old(self)@),
        ensures
            final(self)@ == erase_display(old(self)@, mode as nat),
            screen_wf(final(self)@),
            final(self).partial == old(self).partial,
            final(self).history == old(self).history,
            final(self).history_position == old(self).history_position,
            final(self).current_line == old(self).current_line,
            final(self).local_history == old(self).local_history,
    {
        let ghost s = self@;
        let top = self.screen_top();
        let end = self.lines.len();
        let row = self.cursor_row;
        let column = self.cursor_col;
        let mut lines: Vec<Vec<Cell>> = Vec::new();
        std::mem::swap(&mut lines, &mut self.lines);
        if mode == 0 {
            if row < end {
                let mut line: Vec<Cell> = Vec::new();
                lines.set_and_swap(row, &mut line);
                assert(line@ == s.lines[row as int]);
                line.truncate(column);
                assert(line@ == cut(s.lines[row as int], column as nat));
                lines.set(row, line);
                assert(lines@.map_values(|l: Vec<Cell>| l@) =~= cursor_line_is(s, cut(s.lines[row as int], column as nat)));
            }
            let from = if row < end {
                row + 1
            } else {
                end
            };
            clear_lines(&mut lines, from, end);
            proof {
                if row >= end {
                    assert(cleared(s.lines, row + 1, end as int) =~= cleared(s.lines, end as int, end as int));
                }
            }
        } else if mode == 1 {
            let upto = if row < end {
                row
            } else {
                end
            };
            let from = if top < upto {
                top
            } else {
                upto
            };
            clear_lines(&mut lines, from, upto);
            assert(lines@.map_values(|l: Vec<Cell>| l@) =~= cleared(s.lines, top as int, row as int));
            if row < end {
                let ghost l = lines@.map_values(|l: Vec<Cell>| l@);
                let mut line: Vec<Cell> = Vec::new();
                lines.set_and_swap(row, &mut line);
                blank_prefix(&mut line, column + 1);
                lines.set(row, line);
                assert(lines@.map_values(|l: Vec<Cell>| l@) =~= l.update(row as int, blanked(l[row as int], (column + 1) as nat)));
            }
        } else if mode == 2 || mode == 3 {
            clear_lines(&mut lines, top, end);
        }
        self.lines = lines;
    }

    /// Erasing in the line: `0` from the cursor to the end, `1` from the
    /// beginning to the cursor, `2` the whole line.
    fn erase_line(&mut self, mode: usize)
        requires
            screen_wf(old(self)@),
        ensures
            final(self)@ == erase_line(old(self)@, mode as nat),
            screen_wf(final(self)@),
            final(self).partial == old(self).partial,
            final(self).history == old(self).history,
            final(self).history_position == old(self).history_position,
            final(self).current_line == old(self).current_line,
            final(self).local_history == old(self).local_history,
    {
        let ghost s = self@;
        let row = self.cursor_row;
        let column = self.cursor_col;
        if row < self.lines.len() {
            let mut line: Vec<Cell> = Vec::new();
            self.lines.set_and_swap(row, &mut line);
            assert(line@ == s.lines[row as int]);
            let ghost want = if mode == 0 {
                cut(s.lines[row as int], column as nat)
            } else if mode == 1 {
                blanked(s.lines[row as int], (column + 1) as nat)
            } else if mode == 2 {
                Seq::<Cell>::empty()
            } else {
                s.lines[row as int]
            };
            if mode == 0 {
                line.truncate(column);
            } else if mode == 1 {
                blank_prefix(&mut line, column + 1);
            } else if mode == 2 {
                line.clear();
            }
            assert(line@ == want);
            self.lines.set(row, line);
            assert(self@.lines =~= s.lines.update(row as int, want));
            assert(self@.lines =~= erase_line(s, mode as nat).lines);
        }
    }
}

impl Terminal {
    /// Applies a recognised control sequence; ignores the others.
    fn execute_csi(&mut self, params: &Vec<char>, final_byte: char)
        requires
            screen_wf(old(self)@),
        ensures
            final(self)@ == execute_csi(old(self)@, params@, final_byte),
            screen_wf(final(self)@),
            final(self).partial == old(self).partial,
            final(self).history == old(self).history,
            final(self).history_position == old(self).history_position,
            final(self).current_line == old(self).current_line,
            final(self).local_history == old(self).local_history,
    {
        reveal(execute_csi);
        if params.len() > 0 && (params[0] == '?' || params[0] == '>' || params[0] == '<' || params[0] == '=') {
            return;
        }
        let last: usize = if self.cols >= 1 {
            self.cols as usize - 1
        } else {
            0
        };
        let first = param_at(params, 0, 1);
        let count: usize = if first >= 1 {
            first
        } else {
            1
        };
        if final_byte == 'm' {
            let text = chars_to_string(params);
            apply_sgr(&mut self.style, text.as_str());
        } else if final_byte == 'J' {
            let mode = param_at(params, 0, 0);
            self.erase_display(mode);
        } else if final_byte == 'K' {
            let mode = param_at(params, 0, 0);
            self.erase_line(mode);
        } else if final_byte == 'H' || final_byte == 'f' {
            let second = param_at(params, 1, 1);
            let column: usize = if second >= 1 {
                second - 1
            } else {
                0
            };
            self.move_to(count - 1, column);
        } else if final_byte == 'A' {
            let top = self.screen_top();
            let r = if self.cursor_row >= count {
                self.cursor_row - count
            } else {
                0
            };
            self.cursor_row = if r >= top {
                r
            } else {
                top
            };
        } else if final_byte == 'B' {
            let row = self.cursor_row.saturating_add(count);
            self.move_to_absolute(row);
        } else if final_byte == 'C' {
            let c = self.cursor_col.saturating_add(count);
            self.cursor_col = if c <= last {
                c
            } else {
                last
            };
        } else if final_byte == 'D' {
            self.cursor_col = if self.cursor_col >= count {
                self.cursor_col - count
            } else {
                0
            };
        } else if final_byte == 'G' {
            let column = count - 1;
            self.cursor_col = if column <= last {
                column
            } else {
                last
            };
        } else if final_byte == 'd' {
            let column = self.cursor_col;
            self.move_to(count - 1, column);
        }
    }

    /// Plain text and simple control codes.
    fn ground(&mut self, character: char)
        requires
            screen_wf(old(self)@),
        ensures
            final(self)@ == ground(old(self)@, character),
            screen_wf(final(self)@),
            final(self).partial == old(self).partial,
            final(self).history == old(self).history,
            final(self).history_position == old(self).history_position,
            final(self).current_line == old(self).current_line,
            final(self).local_history == old(self).local_history,
    {
        if character == '\u{1b}' {
            self.state = ParserState::Escape;
        } else if character == '\r' {
            self.cursor_col = 0;
        } else if character == '\n' {
            self.line_feed();
        } else if character == '\u{8}' {
            self.cursor_col = if self.cursor_col >= 1 {
                self.cursor_col - 1
            } else {
                0
            };
        } else if character == '\t' {
            let last: usize = if self.cols >= 1 {
                self.cols as usize - 1
            } else {
                0
            };
            let next = (self.cursor_col / 8 + 1) * 8;
            self.cursor_col = if next <= last {
                next
            } else {
                last
            };
        } else if (character as u32) < 0x20 || character == '\u{7f}' {
        } else {
            self.put(character);
        }
    }

    /// The character right after `ESC`.
    fn escape(&mut self, character: char)
        requires
            screen_wf(old(self)@),
        ensures
            final(self)@ == escape(old(self)@, character),
            screen_wf(final(self)@),
            final(self).partial == old(self).partial,
            final(self).history == old(self).history,
            final(self).history_position == old(self).history_position,
            final(self).current_line == old(self).current_line,
            final(self).local_history == old(self).local_history,
    {
        if character == '[' {
            self.params.clear();
            self.state = ParserState::Csi;
        } else if character == ']' || character == 'P' || character == 'X' || character == '^' || character == '_' {
            self.state = ParserState::Osc;
        } else if '\u{20}' <= character && character <= '\u{2f}' {
            self.state = ParserState::EscapeIntermediate;
        } else {
            self.state = ParserState::Ground;
        }
    }

    /// Gathering, then running, of an `ESC [` sequence.
    fn csi(&mut self, character: char)
        requires
            screen_wf(old(self)@),
        ensures
            final(self)@ == csi(old(self)@, character),
            screen_wf(final(self)@),
            final(self).partial == old(self).partial,
            final(self).history == old(self).history,
            final(self).history_position == old(self).history_position,
            final(self).current_line == old(self).current_line,
            final(self).local_history == old(self).local_history,
    {
        if '\u{20}' <= character && character <= '\u{3f}' {
            if self.params.len() < 64 {
                self.params.push(character);
            }
            return;
        }
        if '\u{40}' <= character && character <= '\u{7e}' {
            let mut params: Vec<char> = Vec::new();
            std::mem::swap(&mut params, &mut self.params);
            assert(self@ == Screen { params: Seq::empty(), ..old(self)@ });
            self.execute_csi(&params, character);
        }
        self.params.clear();
        self.state = ParserState::Ground;
    }

    /// Moves the parser one character forward.
    fn process_char(&mut self, character: char)
        requires
            screen_wf(old(self)@),
        ensures
            final(self)@ == step(old(self)@, character),
            screen_wf(final(self)@),
            final(self).partial == old(self).partial,
            final(self).history == old(self).history,
            final(self).history_position == old(self).history_position,
            final(self).current_line == old(self).current_line,
            final(self).local_history == old(self).local_history,
    {
        match self.state {
            ParserState::Ground => self.ground(character),
            ParserState::Escape => self.escape(character),
            ParserState::EscapeIntermediate => {
                self.state = ParserState::Ground;
            },
            ParserState::Csi => self.csi(character),
            ParserState::Osc => {
                if character == '\u{7}' {
                    self.state = ParserState::Ground;
                } else if character == '\u{1b}' {
                    self.state = ParserState::OscEscape;
                }
            },
            ParserState::OscEscape => {
                if character == '\\' {
                    self.state = ParserState::Ground;
                } else if character == '\u{1b}' {
                } else {
                    self.state = ParserState::Osc;
                }
            },
        }
    }
}

/// The string made of `chars`.
fn chars_to_string(chars: &Vec<char>) -> (s: String)
    ensures
        s@ == chars@,
{
    crate::text::string_from_chars(chars)
}

// ---------------------------------------------------------------------------
// Streaming input
// ---------------------------------------------------------------------------

proof fn lemma_steps_push(s: Screen, cs: Seq<char>, c: char)
    ensures
        steps(s, cs.push(c)) == step(steps(s, cs), c),
    decreases cs.len(),
{
    if cs.len() > 0 {
        assert(cs.push(c).drop_first() == cs.drop_first().push(c));
        assert(cs.push(c)[0] == cs[0]);
        lemma_steps_push(step(s, cs[0]), cs.drop_first(), c);
    } else {
        assert(cs.push(c) == seq![c]);
        assert(seq![c].drop_first() == Seq::<char>::empty());
        reveal_with_fuel(steps, 2);
    }
}

/// Length of the longest prefix of `bytes` that is valid UTF-8.
pub open spec fn valid_prefix_len(bytes: Seq<u8>) -> nat {
    choose|v: nat| is_valid_up_to(bytes, v)
}

pub(crate) proof fn lemma_valid_up_to_unique(bytes: Seq<u8>, v: nat)
    requires
        is_valid_up_to(bytes, v),
    ensures
        valid_prefix_len(bytes) == v,
{
    let w = valid_prefix_len(bytes);
    assert(is_valid_up_to(bytes, w));
    if w < v {
        assert(!vstd::utf8::valid_utf8(bytes.take(v as int)));
    } else if v < w {
        assert(!vstd::utf8::valid_utf8(bytes.take(w as int)));
    }
}

/// The screen after the bytes `buf`, and the bytes kept for the next frame
/// (the start of a character cut by the end of the input). The longest valid
/// prefix is shown; an invalid sequence shows as U+FFFD and decoding goes on
/// after it.
pub open spec fn feed_run(s: Screen, buf: Seq<u8>) -> (Screen, Seq<u8>)
    decreases buf.len(),
{
    if buf.len() == 0 {
        (s, Seq::empty())
    } else if vstd::utf8::valid_utf8(buf) {
        (steps(s, vstd::utf8::decode_utf8(buf)), Seq::empty())
    } else {
        let v = valid_prefix_len(buf);
        let s1 = steps(s, vstd::utf8::decode_utf8(buf.take(v as int)));
        if cut_char(buf.skip(v as int)) {
            (s1, buf.skip(v as int))
        } else {
            match utf8_error_len(buf) {
                Some(l) => if 1 <= l && v + l <= buf.len() {
                    feed_run(step(s1, '\u{fffd}'), buf.skip((v + l) as int))
                } else {
                    (s1, Seq::empty())
                },
                None => (s1, Seq::empty()),
            }
        }
    }
}

/// The bytes kept after a frame: at most a character's worth.
pub open spec fn kept_bytes(left: Seq<u8>) -> Seq<u8> {
    if left.len() > 3 {
        Seq::empty()
    } else {
        left
    }
}

/// `bytes[from..]`, copied.
fn tail_bytes(bytes: &Vec<u8>, from: usize, to: usize) -> (r: Vec<u8>)
    requires
        from <= to <= bytes@.len(),
    ensures
        r@ == bytes@.subrange(from as int, to as int),
{
    let mut r: Vec<u8> = Vec::new();
    let mut k = from;
    while k < to
        invariant
            from <= k <= to <= bytes@.len(),
            r@ == bytes@.subrange(from as int, k as int),
        decreases to - k,
    {
        r.push(bytes[k]);
        k += 1;
    }
    r
}

/// A fresh screen of `cols`×`rows`.
pub open spec fn fresh_screen(cols: nat, rows: nat) -> Screen {
    Screen {
        lines: Seq::empty(),
        row: 0,
        col: 0,
        style: plain_style(),
        cols: cols,
        rows: rows,
        state: ParserState::Ground,
        params: Seq::empty(),
    }
}

/// A size clamped to the bounds of the grid.
pub open spec fn clamped(v: nat, lo: nat, hi: nat) -> nat {
    if v < lo {
        lo
    } else if v > hi {
        hi
    } else {
        v
    }
}

/// Text of a line: its characters without the trailing spaces.
pub open spec fn line_text(line: Seq<Cell>) -> Seq<char> {
    strip_end(line.map_values(|c: Cell| c.ch), ' ')
}

/// Text of the lines, one per line.
pub open spec fn text_of(lines: Seq<Seq<Cell>>) -> Seq<char>
    decreases lines.len(),
{
    if lines.len() == 0 {
        Seq::empty()
    } else if lines.len() == 1 {
        line_text(lines[0])
    } else {
        text_of(lines.drop_last()) + seq!['\n'] + line_text(lines.last())
    }
}

impl Terminal {
    /// An empty 80×24 terminal.
    pub fn new() -> (t: Self)
        ensures
            t.wf(),
            t@ == fresh_screen(DEFAULT_COLS as nat, DEFAULT_ROWS as nat),
            t.pending_bytes().len() == 0,
            t.commands().len() == 0,
            t.recall() is None,
            t.typed().len() == 0,
            !t.local(),
    {
        let t = Terminal {
            lines: Vec::new(),
            cursor_row: 0,
            cursor_col: 0,
            style: CellStyle::default(),
            cols: DEFAULT_COLS,
            rows: DEFAULT_ROWS,
            partial: Vec::new(),
            state: ParserState::Ground,
            params: Vec::new(),
            history: Vec::new(),
            history_position: None,
            current_line: String::new(),
            local_history: false,
        };
        assert(t.lines@.map_values(|l: Vec<Cell>| l@) =~= Seq::<Seq<Cell>>::empty());
        t
    }

    /// Current size of the grid: `(columns, rows)`.
    pub fn size(&self) -> (r: (u16, u16))
        ensures
            r.0 as nat == self@.cols,
            r.1 as nat == self@.rows,
    {
        (self.cols, self.rows)
    }

    /// Sets a size for the grid, within its bounds, without emitting an event.
    pub fn set_size(&mut self, cols: u16, rows: u16)
        requires
            old(self).wf(),
        ensures
            final(self).wf(),
            final(self)@ == (Screen {
                cols: clamped(cols as nat, MIN_COLS as nat, MAX_COLS as nat),
                rows: clamped(rows as nat, MIN_ROWS as nat, MAX_ROWS as nat),
                ..old(self)@
            }),
            final(self).pending_bytes() == old(self).pending_bytes(),
            final(self).commands() == old(self).commands(),
            final(self).recall() == old(self).recall(),
            final(self).typed() == old(self).typed(),
            final(self).local() == old(self).local(),
    {
        self.cols = if cols < MIN_COLS {
            MIN_COLS
        } else if cols > MAX_COLS {
            MAX_COLS
        } else {
            cols
        };
        self.rows = if rows < MIN_ROWS {
            MIN_ROWS
        } else if rows > MAX_ROWS {
            MAX_ROWS
        } else {
            rows
        };
    }

    /// Empties the screen, the scrollback and the parser state.
    ///
    /// The command history is kept.
    pub fn clear(&mut self)
        requires
            old(self).wf(),
        ensures
            final(self).wf(),
            final(self)@ == fresh_screen(old(self)@.cols, old(self)@.rows),
            final(self).pending_bytes().len() == 0,
            final(self).commands() == old(self).commands(),
            final(self).recall() == old(self).recall(),
            final(self).typed() == old(self).typed(),
            final(self).local() == old(self).local(),
    {
        self.lines = Vec::new();
        self.cursor_row = 0;
        self.cursor_col = 0;
        self.style = CellStyle::default();
        self.partial = Vec::new();
        self.state = ParserState::Ground;
        self.params = Vec::new();
        assert(self.lines@.map_values(|l: Vec<Cell>| l@) =~= Seq::<Seq<Cell>>::empty());
    }

    /// Number of lines currently kept.
    pub fn line_count(&self) -> (n: usize)
        requires
            self.wf(),
        ensures
            n == self@.lines.len(),
            n <= SCROLLBACK,
    {
        self.lines.len()
    }

    /// The screen and its scrollback as plain text.
    pub fn to_text(&self) -> (out: String)
        ensures
            out@ == text_of(self@.lines),
    {
        let ghost ls = self@.lines;
        let mut out: Vec<char> = Vec::new();
        let mut index: usize = 0;
        while index < self.lines.len()
            invariant
                ls == self.lines@.map_values(|l: Vec<Cell>| l@),
                index <= self.lines@.len(),
                out@ == text_of(ls.take(index as int)),
            decreases self.lines@.len() - index,
        {
            let line = &self.lines[index];
            let ghost before = out@;
            if index > 0 {
                out.push('\n');
            }
            let mut chars: Vec<char> = Vec::new();
            let mut k: usize = 0;
            while k < line.len()
                invariant
                    k <= line@.len(),
                    chars@ == line@.take(k as int).map_values(|c: Cell| c.ch),
                decreases line@.len() - k,
            {
                chars.push(line[k].ch);
                assert(line@.take(k + 1).map_values(|c: Cell| c.ch) =~= line@.take(k as int).map_values(|c: Cell| c.ch).push(line@[k as int].ch));
                k += 1;
            }
            assert(line@.take(line@.len() as int) == line@);
            let e = strip_end_bound(&chars, 0, chars.len(), ' ');
            assert(chars@.subrange(0, chars@.len() as int) == chars@);
            let mut k: usize = 0;
            let ghost mid = out@;
            while k < e
                invariant
                    k <= e <= chars@.len(),
                    out@ == mid + chars@.subrange(0, k as int),
                decreases e - k,
            {
                out.push(chars[k]);
                k += 1;
            }
            proof {
                assert(ls.take(index + 1).drop_last() == ls.take(index as int));
                assert(ls.take(index + 1).last() == line@);
                assert(chars@.subrange(0, e as int) == line_text(line@));
                if index == 0 {
                    assert(ls.take(1).len() == 1);
                    assert(out@ == line_text(line@));
                }
            }
            index += 1;
        }
        assert(ls.take(ls.len() as int) == ls);
        crate::text::string_from_chars(&out)
    }

    /// Runs the characters through the parser.
    fn run_chars(&mut self, chars: &Vec<char>)
        requires
            old(self).wf(),
        ensures
            final(self).wf(),
            final(self)@ == steps(old(self)@, chars@),
            final(self).partial == old(self).partial,
            final(self).history == old(self).history,
            final(self).history_position == old(self).history_position,
            final(self).current_line == old(self).current_line,
            final(self).local_history == old(self).local_history,
    {
        let ghost s0 = self@;
        let mut k: usize = 0;
        while k < chars.len()
            invariant
                self.wf(),
                k <= chars@.len(),
                self@ == steps(s0, chars@.take(k as int)),
                self.partial == old(self).partial,
                self.history == old(self).history,
                self.history_position == old(self).history_position,
                self.current_line == old(self).current_line,
                self.local_history == old(self).local_history,
            decreases chars@.len() - k,
        {
            proof {
                lemma_steps_push(s0, chars@.take(k as int), chars@[k as int]);
                assert(chars@.take(k + 1) == chars@.take(k as int).push(chars@[k as int]));
            }
            self.process_char(chars[k]);
            k += 1;
        }
        assert(chars@.take(chars@.len() as int) == chars@);
    }

    /// Runs valid UTF-8 through the parser.
    fn run_utf8(&mut self, bytes: &Vec<u8>)
        requires
            old(self).wf(),
            vstd::utf8::valid_utf8(bytes@),
        ensures
            final(self).wf(),
            final(self)@ == steps(old(self)@, vstd::utf8::decode_utf8(bytes@)),
            final(self).partial == old(self).partial,
            final(self).history == old(self).history,
            final(self).history_position == old(self).history_position,
            final(self).current_line == old(self).current_line,
            final(self).local_history == old(self).local_history,
    {
        match utf8_from(bytes.as_slice()) {
            Ok(text) => {
                proof {
                    vstd::utf8::encode_utf8_decode_utf8(text@);
                }
                let chars = chars_of(text);
                self.run_chars(&chars);
            },
            Err(_) => {},
        }
    }

    /// Takes bytes coming from the cluster.
    ///
    /// UTF-8 is decoded as a stream: a multi-byte character cut between two
    /// frames is put back together, never replaced by diamonds.
    pub fn feed(&mut self, data: &[u8])
        requires
            old(self).wf(),
        ensures
            final(self).wf(),
            final(self)@ == feed_run(old(self)@, old(self).pending_bytes() + data@).0,
            final(self).pending_bytes() == kept_bytes(feed_run(old(self)@, old(self).pending_bytes() + data@).1),
            final(self).commands() == old(self).commands(),
            final(self).recall() == old(self).recall(),
            final(self).typed() == old(self).typed(),
            final(self).local() == old(self).local(),
    {
        let ghost s0 = self@;
        let ghost whole = self.partial@ + data@;
        if data.len() == 0 && self.partial.len() == 0 {
            assert(whole.len() == 0);
            return;
        }
        let mut buffer: Vec<u8> = Vec::new();
        std::mem::swap(&mut buffer, &mut self.partial);
        let mut k: usize = 0;
        while k < data.len()
            invariant
                k <= data@.len(),
                buffer@ == old(self).partial@ + data@.take(k as int),
            decreases data@.len() - k,
        {
            buffer.push(data[k]);
            assert(data@.take(k + 1) == data@.take(k as int).push(data@[k as int]));
            k += 1;
        }
        assert(data@.take(data@.len() as int) == data@);
        assert(buffer@ == whole);
        let len = buffer.len();
        let mut offset: usize = 0;
        let mut stopped = false;
        assert(buffer@.skip(0) == buffer@);
        while offset < len && !stopped
            invariant
                len == buffer@.len(),
                buffer@ == whole,
                offset <= len,
                self.wf(),
                self.partial@.len() == 0,
                self.history == old(self).history,
                self.history_position == old(self).history_position,
                self.current_line == old(self).current_line,
                self.local_history == old(self).local_history,
                stopped ==> feed_run(s0, whole) == (self@, whole.skip(offset as int)),
                !stopped ==> feed_run(s0, whole) == feed_run(self@, whole.skip(offset as int)),
            decreases (if stopped { 0 } else { len - offset + 1 }),
        {
            let rest = tail_bytes(&buffer, offset, len);
            assert(rest@ == whole.skip(offset as int));
            match utf8_from(rest.as_slice()) {
                Ok(_) => {
                    self.run_utf8(&rest);
                    offset = len;
                    assert(whole.skip(len as int).len() == 0);
                },
                Err((valid, error_len)) => {
                    proof {
                        lemma_valid_up_to_unique(rest@, valid as nat);
                    }
                    let head = tail_bytes(&rest, 0, valid);
                    assert(head@ == rest@.take(valid as int));
                    if valid > 0 {
                        self.run_utf8(&head);
                    } else {
                        assert(head@.len() == 0);
                        proof {
                            assert(vstd::utf8::decode_utf8(head@) == Seq::<char>::empty());
                        }
                    }
                    match error_len {
                        None => {
                            assert(rest@.skip(valid as int) == whole.skip(offset + valid));
                            offset = offset + valid;
                            stopped = true;
                        },
                        Some(invalid) => {
                            assert(rest@.skip((valid + invalid) as int) == whole.skip(offset + valid + invalid));
                            offset = offset + valid + invalid;
                            self.process_char('\u{fffd}');
                        },
                    }
                },
            }
        }
        if !stopped {
            assert(whole.skip(offset as int).len() == 0);
        }
        let left = buffer.split_off(offset);
        assert(left@ == whole.skip(offset as int));
        self.partial = left;
        if self.partial.len() > 3 {
            self.partial.clear();
        }
    }
}

// ---------------------------------------------------------------------------
// Keyboard and local history
// ---------------------------------------------------------------------------

/// A keyboard event of a frame.
#[derive(Debug, Clone, PartialEq, Eq)]
pub enum TermEvent {
    /// Text typed, already laid out by the keyboard.
    Text(String),
    /// Text pasted.
    Paste(String),
    /// A key pressed or released.
    Key {
        /// The key.
        key: Key,
        /// True when pressed.
        pressed: bool,
        /// Modifiers held.
        modifiers: Modifiers,
    },
    /// Any other event.
    Other,
}

/// The local history and the line being typed.
pub struct Typing {
    /// Commands, oldest first.
    pub commands: Seq<Seq<char>>,
    /// Position while browsing the history.
    pub recall: Option<usize>,
    /// The line being typed.
    pub typed: Seq<char>,
}

/// The history after `Enter` on the line `typed`: a non-blank line, trimmed,
/// is kept unless it repeats the last one; the oldest go beyond the bound.
pub open spec fn remembered(commands: Seq<Seq<char>>, typed: Seq<char>) -> Seq<Seq<char>> {
    let line = trim(typed);
    if line.len() == 0 || (commands.len() > 0 && commands.last() == line) {
        commands
    } else {
        let c2 = commands.push(line);
        if c2.len() > MAX_HISTORY {
            c2.skip(c2.len() - MAX_HISTORY)
        } else {
            c2
        }
    }
}

/// The typing state after a key that was sent.
pub open spec fn after_key(t: Typing, key: Key, m: Modifiers) -> Typing {
    if key == Key::Enter {
        Typing { commands: remembered(t.commands, t.typed), recall: None, typed: Seq::empty() }
    } else if key == Key::Backspace {
        Typing { typed: if t.typed.len() > 0 { t.typed.drop_last() } else { t.typed }, ..t }
    } else if (key == Key::C || key == Key::U) && m.ctrl {
        Typing { typed: Seq::empty(), recall: None, ..t }
    } else {
        t
    }
}

/// Where browsing the history goes with `key`, or `None` when the key does
/// not browse it; the inner `None` is the blank line after the newest.
pub open spec fn browse_target(t: Typing, key: Key) -> Option<Option<usize>> {
    let len = t.commands.len();
    if len == 0 {
        None
    } else if key == Key::ArrowUp {
        match t.recall {
            None => Some(Some((len - 1) as usize)),
            Some(p) => if p == 0 { Some(Some(0usize)) } else { Some(Some((p - 1) as usize)) },
        }
    } else if key == Key::ArrowDown {
        match t.recall {
            None => None,
            Some(p) => if p + 1 < len { Some(Some((p + 1) as usize)) } else { Some(None) },
        }
    } else {
        None
    }
}

/// The command recalled at `target`, or the empty line.
pub open spec fn recalled(t: Typing, target: Option<usize>) -> Seq<char> {
    match target {
        Some(p) => if p < t.commands.len() { t.commands[p as int] } else { Seq::empty() },
        None => Seq::empty(),
    }
}

/// Bytes sent when browsing: one erase per character typed, then the command.
pub open spec fn browse_bytes(t: Typing, target: Option<usize>) -> Seq<u8> {
    Seq::new(t.typed.len(), |i: int| 0x7fu8) + vstd::utf8::encode_utf8(recalled(t, target))
}

/// Bytes sent for one event, and the typing state after it.
pub open spec fn on_event(t: Typing, local: bool, e: TermEvent) -> (Typing, Seq<u8>) {
    match e {
        TermEvent::Text(s) => (Typing { typed: t.typed + s@, ..t }, vstd::utf8::encode_utf8(s@)),
        TermEvent::Paste(s) => (Typing { typed: t.typed + s@, ..t }, vstd::utf8::encode_utf8(s@)),
        TermEvent::Key { key, pressed, modifiers } => if !pressed {
            (t, Seq::empty())
        } else if local && !modifiers.ctrl && !modifiers.alt && (key == Key::ArrowUp || key == Key::ArrowDown) {
            match browse_target(t, key) {
                Some(target) => (Typing { recall: target, typed: recalled(t, target), ..t }, browse_bytes(t, target)),
                None => (t, Seq::empty()),
            }
        } else {
            match key_bytes(key, modifiers) {
                Some(b) => (after_key(t, key, modifiers), b),
                None => (t, Seq::empty()),
            }
        },
        TermEvent::Other => (t, Seq::empty()),
    }
}

/// Bytes sent for the events, in order, and the typing state after them.
pub open spec fn on_events(t: Typing, local: bool, es: Seq<TermEvent>) -> (Typing, Seq<u8>)
    decreases es.len(),
{
    if es.len() == 0 {
        (t, Seq::empty())
    } else {
        let (t1, b1) = on_event(t, local, es[0]);
        let (t2, b2) = on_events(t1, local, es.drop_first());
        (t2, b1 + b2)
    }
}

/// The history stays bounded and its position valid.
pub open spec fn typing_wf(t: Typing) -> bool {
    &&& t.commands.len() <= MAX_HISTORY
    &&& (t.recall matches Some(p) ==> p < t.commands.len())
}

proof fn lemma_on_events_push(t: Typing, local: bool, es: Seq<TermEvent>, e: TermEvent)
    ensures
        on_events(t, local, es.push(e)) == ({
            let (t1, b1) = on_events(t, local, es);
            let (t2, b2) = on_event(t1, local, e);
            (t2, b1 + b2)
        }),
    decreases es.len(),
{
    if es.len() > 0 {
        assert(es.push(e).drop_first() == es.drop_first().push(e));
        assert(es.push(e)[0] == es[0]);
        let (t1, b1) = on_event(t, local, es[0]);
        lemma_on_events_push(t1, local, es.drop_first(), e);
        let (t2, b2) = on_events(t1, local, es.drop_first());
        let (t3, b3) = on_event(t2, local, e);
        assert(b1 + (b2 + b3) == (b1 + b2) + b3);
    } else {
        assert(es.push(e) == seq![e]);
        assert(seq![e].drop_first() == Seq::<TermEvent>::empty());
        reveal_with_fuel(on_events, 2);
        let (t2, b2) = on_event(t, local, e);
        assert(Seq::<u8>::empty() + b2 == b2);
        assert(b2 + Seq::<u8>::empty() == b2);
    }
}

/// The bytes of a string, appended.
fn push_bytes(out: &mut Vec<u8>, s: &str)
    ensures
        final(out)@ == old(out)@ + vstd::utf8::encode_utf8(s@),
{
    let b = s.as_bytes();
    let mut k: usize = 0;
    while k < b.len()
        invariant
            k <= b@.len(),
            b@ == vstd::utf8::encode_utf8(s@),
            out@ == old(out)@ + b@.take(k as int),
        decreases b@.len() - k,
    {
        out.push(b[k]);
        assert(b@.take(k + 1) == b@.take(k as int).push(b@[k as int]));
        k += 1;
    }
    assert(b@.take(b@.len() as int) == b@);
}

impl Terminal {
    /// The typing state.
    pub closed spec fn typing(&self) -> Typing {
        Typing { commands: self.commands(), recall: self.history_position, typed: self.current_line@ }
    }

    /// Follows the line being typed, to feed the history.
    fn track_line(&mut self, key: Key, modifiers: Modifiers)
        requires
            old(self).wf(),
        ensures
            final(self).wf(),
            final(self).typing() == after_key(old(self).typing(), key, modifiers),
            final(self)@ == old(self)@,
            final(self).partial == old(self).partial,
            final(self).local_history == old(self).local_history,
    {
        let ghost t = self.typing();
        if key == Key::Enter {
            let line = crate::text::trimmed(self.current_line.as_str());
            self.current_line = String::new();
            self.history_position = None;
            if line.as_str().is_empty() {
                return;
            }
            let n = self.history.len();
            if n > 0 && crate::text::same_text(self.history[n - 1].as_str(), line.as_str()) {
                assert(t.commands.last() == self.history@[n - 1]@);
                return;
            }
            let ghost before = self.history@;
            self.history.push(line);
            assert(self.history@.map_values(|c: String| c@) =~= t.commands.push(trim(t.typed)));
            if self.history.len() > MAX_HISTORY {
                let ghost full = self.history@;
                self.history.remove(0);
                assert(self.history@.map_values(|c: String| c@) =~= full.map_values(|c: String| c@).skip(1));
            }
        } else if key == Key::Backspace {
            let mut chars = chars_of(self.current_line.as_str());
            chars.pop();
            self.current_line = crate::text::string_from_chars(&chars);
        } else if (key == Key::C || key == Key::U) && modifiers.ctrl {
            self.current_line = String::new();
            self.history_position = None;
        }
    }

    /// Replaces the line being typed by an entry of the local history.
    ///
    /// Gives the bytes to send: one erase per character already typed, then
    /// the command found.
    fn navigate_history(&mut self, key: Key) -> (r: Option<Vec<u8>>)
        requires
            old(self).wf(),
        ensures
            final(self).wf(),
            match browse_target(old(self).typing(), key) {
                Some(target) => {
                    &&& r matches Some(b) && b@ == browse_bytes(old(self).typing(), target)
                    &&& final(self).typing() == (Typing {
                        recall: target,
                        typed: recalled(old(self).typing(), target),
                        ..old(self).typing()
                    })
                },
                None => r is None && final(self).typing() == old(self).typing(),
            },
            final(self)@ == old(self)@,
            final(self).partial == old(self).partial,
            final(self).local_history == old(self).local_history,
    {
        let ghost t = self.typing();
        let len = self.history.len();
        if len == 0 {
            return None;
        }
        let next: Option<usize> = if key == Key::ArrowUp {
            match self.history_position {
                None => Some(len - 1),
                Some(p) => if p == 0 {
                    Some(0)
                } else {
                    Some(p - 1)
                },
            }
        } else if key == Key::ArrowDown {
            match self.history_position {
                None => {
                    return None;
                },
                Some(p) => if p + 1 < len {
                    Some(p + 1)
                } else {
                    None
                },
            }
        } else {
            return None;
        };
        let replacement: String = match next {
            Some(p) => self.history[p].clone(),
            None => String::new(),
        };
        assert(replacement@ == recalled(t, next));
        let typed = chars_of(self.current_line.as_str());
        let mut bytes: Vec<u8> = Vec::new();
        let mut k: usize = 0;
        while k < typed.len()
            invariant
                k <= typed@.len(),
                bytes@ == Seq::new(k as nat, |i: int| 0x7fu8),
            decreases typed@.len() - k,
        {
            bytes.push(0x7f);
            assert(bytes@ =~= Seq::new((k + 1) as nat, |i: int| 0x7fu8));
            k += 1;
        }
        push_bytes(&mut bytes, replacement.as_str());
        self.history_position = next;
        self.current_line = replacement;
        Some(bytes)
    }

    /// Translates the keyboard events of a frame into the bytes to send.
    pub fn consume_events(&mut self, events: &Vec<TermEvent>) -> (bytes: Vec<u8>)
        requires
            old(self).wf(),
        ensures
            final(self).wf(),
            (final(self).typing(), bytes@) == on_events(old(self).typing(), old(self).local(), events@),
            final(self)@ == old(self)@,
            final(self).pending_bytes() == old(self).pending_bytes(),
            final(self).local() == old(self).local(),
    {
        let ghost t0 = self.typing();
        let mut bytes: Vec<u8> = Vec::new();
        let mut i: usize = 0;
        while i < events.len()
            invariant
                self.wf(),
                i <= events@.len(),
                (self.typing(), bytes@) == on_events(t0, old(self).local(), events@.take(i as int)),
                self@ == old(self)@,
                self.partial == old(self).partial,
                self.local_history == old(self).local_history,
            decreases events@.len() - i,
        {
            let ghost t1 = self.typing();
            let ghost b1 = bytes@;
            proof {
                lemma_on_events_push(t0, old(self).local(), events@.take(i as int), events@[i as int]);
                assert(events@.take(i + 1) == events@.take(i as int).push(events@[i as int]));
            }
            match &events[i] {
                TermEvent::Text(text) => {
                    push_bytes(&mut bytes, text.as_str());
                    self.current_line.append(text.as_str());
                },
                TermEvent::Paste(text) => {
                    push_bytes(&mut bytes, text.as_str());
                    self.current_line.append(text.as_str());
                },
                TermEvent::Key { key, pressed, modifiers } => {
                    if *pressed {
                        if self.local_history && !modifiers.ctrl && !modifiers.alt && (*key == Key::ArrowUp || *key == Key::ArrowDown) {
                            if let Some(replacement) = self.navigate_history(*key) {
                                let mut k: usize = 0;
                                let ghost mid = bytes@;
                                while k < replacement.len()
                                    invariant
                                        k <= replacement@.len(),
                                        bytes@ == mid + replacement@.take(k as int),
                                    decreases replacement@.len() - k,
                                {
                                    bytes.push(replacement[k]);
                                    assert(replacement@.take(k + 1) == replacement@.take(k as int).push(replacement@[k as int]));
                                    k += 1;
                                }
                                assert(replacement@.take(replacement@.len() as int) == replacement@);
                            } else {
                                assert(b1 + Seq::<u8>::empty() == b1);
                            }
                        } else {
                            match key_to_bytes(*key, *modifiers) {
                                Some(translated) => {
                                    let mut k: usize = 0;
                                    let ghost mid = bytes@;
                                    while k < translated.len()
                                        invariant
                                            k <= translated@.len(),
                                            bytes@ == mid + translated@.take(k as int),
                                        decreases translated@.len() - k,
                                    {
                                        bytes.push(translated[k]);
                                        assert(translated@.take(k + 1) == translated@.take(k as int).push(translated@[k as int]));
                                        k += 1;
                                    }
                                    assert(translated@.take(translated@.len() as int) == translated@);
                                    self.track_line(*key, *modifiers);
                                },
                                None => {
                                    assert(b1 + Seq::<u8>::empty() == b1);
                                },
                            }
                        }
                    } else {
                        assert(b1 + Seq::<u8>::empty() == b1);
                    }
                },
                TermEvent::Other => {
                    assert(b1 + Seq::<u8>::empty() == b1);
                },
            }
            i += 1;
        }
        assert(events@.take(events@.len() as int) == events@);
        bytes
    }

    /// Line `index` of the memory, oldest first.
    pub fn line(&self, index: usize) -> (r: Option<&Vec<Cell>>)
        ensures
            match r {
                Some(l) => index < self@.lines.len() && l@ == self@.lines[index as int],
                None => index >= self@.lines.len(),
            },
    {
        if index < self.lines.len() {
            Some(&self.lines[index])
        } else {
            None
        }
    }

    /// Cursor position: `(line, column)`.
    pub fn cursor(&self) -> (r: (usize, usize))
        ensures
            r.0 as nat == self@.row,
            r.1 as nat == self@.col,
    {
        (self.cursor_row, self.cursor_col)
    }
}

} // verus!
