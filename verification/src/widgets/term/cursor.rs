//! How the cursor keys and the cursor movement sequences behave: the bytes a
//! cursor key sends, and how far a `CSI n C` / `CSI n D` moves the cursor.
use vstd::prelude::*;

use crate::text::{
    all_digits, digits_value, is_white, joined, lemma_lead_white, lemma_split_joined,
    lemma_trail_white, parsed_unsigned, split_fields, trim,
};
use crate::widgets::term::{execute_csi, key_bytes, param_value, width, Key, Modifiers, Screen};

verus! {

/// A run of decimal digits is read as the number it spells.
proof fn lemma_digits_param(params: Seq<char>)
    requires
        params.len() > 0,
        all_digits(params),
        digits_value(params) <= usize::MAX,
    ensures
        param_value(params, 0, 1) == digits_value(params),
        param_value(params, 0, 0) == digits_value(params),
{
    let n = params.len() as int;
    assert forall|k: int| 0 <= k < params.len() implies #[trigger] params[k] != ';' by {
        assert(crate::text::is_digit(params[k]));
    }
    assert forall|i: int, k: int| 0 <= i < seq![params].len() && 0 <= k < seq![params][i].len() implies #[trigger] seq![params][i][k]
        != ';' by {
        assert(seq![params][i] == params);
    }
    lemma_split_joined(seq![params], ';');
    assert(joined(seq![params], seq![';']) == params);
    assert(split_fields(params, ';') == seq![params]);
    assert(!is_white(params[0])) by {
        assert(crate::text::is_digit(params[0]));
    }
    assert(!is_white(params[n - 1])) by {
        assert(crate::text::is_digit(params[n - 1]));
    }
    lemma_lead_white(params, 0);
    lemma_trail_white(params, n);
    assert(params.skip(0) == params);
    assert(params.take(n) == params);
    assert(trim(params) == params);
    assert(params[0] != '+') by {
        assert(crate::text::is_digit(params[0]));
    }
    assert(parsed_unsigned(params, usize::MAX as nat) == Some(digits_value(params)));
}

/// The count of a movement: the number the digits spell, one without
/// digits or for zero.
proof fn lemma_count(params: Seq<char>)
    requires
        params.len() == 0 || (all_digits(params) && digits_value(params) <= usize::MAX),
    ensures
        crate::widgets::term::at_least_one(param_value(params, 0, 1)) == if params.len() == 0 || digits_value(params) == 0 {
            1
        } else {
            digits_value(params)
        },
        !(params.len() > 0 && (params[0] == '?' || params[0] == '>' || params[0] == '<' || params[0] == '=')),
{
    if params.len() > 0 {
        lemma_digits_param(params);
        assert(crate::text::is_digit(params[0]));
    } else {
        assert(crate::text::before_first(params, ';').len() >= params.len());
        assert(split_fields(params, ';') == seq![params]);
        lemma_lead_white(params, 0);
        lemma_trail_white(params, 0);
        assert(trim(params).len() == 0);
    }
}

/// `CSI n D` moves the cursor `n` columns to the left, stopping at the first
/// column, and changes nothing else; without a count, or with a zero, it
/// moves one column.
pub proof fn lemma_cursor_back(s: Screen, params: Seq<char>)
    requires
        params.len() == 0 || (all_digits(params) && digits_value(params) <= usize::MAX),
    ensures
        ({
            let n: nat = if params.len() == 0 || digits_value(params) == 0 { 1 } else { digits_value(params) };
            execute_csi(s, params, 'D') == (Screen {
                col: if s.col >= n { (s.col - n) as nat } else { 0 },
                ..s
            })
        }),
{
    lemma_count(params);
    reveal(execute_csi);
    let c = crate::widgets::term::at_least_one(param_value(params, 0, 1));
    assert(execute_csi(s, params, 'D') == (Screen { col: crate::widgets::term::minus(s.col, c), ..s }));
}

/// `CSI n C` moves the cursor `n` columns to the right, stopping at the last
/// column, and changes nothing else; without a count, or with a zero, it
/// moves one column.
pub proof fn lemma_cursor_forward(s: Screen, params: Seq<char>)
    requires
        params.len() == 0 || (all_digits(params) && digits_value(params) <= usize::MAX),
    ensures
        ({
            let n: nat = if params.len() == 0 || digits_value(params) == 0 { 1 } else { digits_value(params) };
            execute_csi(s, params, 'C') == (Screen {
                col: if s.col + n <= width(s) - 1 { s.col + n } else { (width(s) - 1) as nat },
                ..s
            })
        }),
{
    lemma_count(params);
    reveal(execute_csi);
    let c = crate::widgets::term::at_least_one(param_value(params, 0, 1));
    assert(execute_csi(s, params, 'C') == (Screen {
        col: crate::widgets::term::at_most(s.col + c, (width(s) - 1) as nat),
        ..s
    }));
}

/// The cursor keys send the xterm sequences `ESC [ A` (up), `ESC [ B`
/// (down), `ESC [ C` (right), `ESC [ D` (left), `ESC [ H` (home) and
/// `ESC [ F` (end), whatever the modifiers held.
pub proof fn lemma_cursor_keys(m: Modifiers)
    ensures
        key_bytes(Key::ArrowUp, m) == Some(seq![27u8, 91u8, 65u8]),
        key_bytes(Key::ArrowDown, m) == Some(seq![27u8, 91u8, 66u8]),
        key_bytes(Key::ArrowRight, m) == Some(seq![27u8, 91u8, 67u8]),
        key_bytes(Key::ArrowLeft, m) == Some(seq![27u8, 91u8, 68u8]),
        key_bytes(Key::Home, m) == Some(seq![27u8, 91u8, 72u8]),
        key_bytes(Key::End, m) == Some(seq![27u8, 91u8, 70u8]),
{
}

/// `CSI n A` moves the cursor `n` lines up, stopping at the top line of the
/// screen, and changes nothing else; without a count, or with a zero, it
/// moves one line.
pub proof fn lemma_cursor_up(s: Screen, params: Seq<char>)
    requires
        params.len() == 0 || (all_digits(params) && digits_value(params) <= usize::MAX),
    ensures
        ({
            let n: nat = if params.len() == 0 || digits_value(params) == 0 { 1 } else { digits_value(params) };
            let top = crate::widgets::term::screen_top(s);
            execute_csi(s, params, 'A') == (Screen {
                row: if s.row >= n && s.row - n >= top { (s.row - n) as nat } else { top },
                ..s
            })
        }),
{
    lemma_count(params);
    reveal(execute_csi);
}

/// `CSI n G` puts the cursor in column `n` (counted from one) of its line,
/// the last column at most, and changes nothing else; without a number, or
/// with a zero, in the first column.
pub proof fn lemma_cursor_column(s: Screen, params: Seq<char>)
    requires
        params.len() == 0 || (all_digits(params) && digits_value(params) <= usize::MAX),
    ensures
        ({
            let n: nat = if params.len() == 0 || digits_value(params) == 0 { 1 } else { digits_value(params) };
            execute_csi(s, params, 'G') == (Screen {
                col: if n - 1 <= width(s) - 1 { (n - 1) as nat } else { (width(s) - 1) as nat },
                ..s
            })
        }),
{
    lemma_count(params);
    reveal(execute_csi);
}

/// The editing keys send their usual bytes: carriage return for Enter, DEL
/// for Backspace, a tabulation, ESC, and the `ESC [ n ~` sequences of
/// Insert (2), Delete (3), Page Up (5) and Page Down (6), whatever the
/// modifiers held.
pub proof fn lemma_editing_keys(m: Modifiers)
    ensures
        key_bytes(Key::Enter, m) == Some(seq![13u8]),
        key_bytes(Key::Backspace, m) == Some(seq![127u8]),
        key_bytes(Key::Tab, m) == Some(seq![9u8]),
        key_bytes(Key::Escape, m) == Some(seq![27u8]),
        key_bytes(Key::Insert, m) == Some(seq![27u8, 91u8, 50u8, 126u8]),
        key_bytes(Key::Delete, m) == Some(seq![27u8, 91u8, 51u8, 126u8]),
        key_bytes(Key::PageUp, m) == Some(seq![27u8, 91u8, 53u8, 126u8]),
        key_bytes(Key::PageDown, m) == Some(seq![27u8, 91u8, 54u8, 126u8]),
{
}

/// With Control (or Command) held, a letter sends its control code, its
/// rank in the alphabet: `^A` is 1, `^C` (interrupt) 3, `^D` (end of input)
/// 4, `^L` 12, `^Z` (suspend) 26.
pub proof fn lemma_control_letters(m: Modifiers)
    requires
        m.ctrl || m.mac_cmd,
    ensures
        key_bytes(Key::A, m) == Some(seq![1u8]),
        key_bytes(Key::C, m) == Some(seq![3u8]),
        key_bytes(Key::D, m) == Some(seq![4u8]),
        key_bytes(Key::L, m) == Some(seq![12u8]),
        key_bytes(Key::Z, m) == Some(seq![26u8]),
{
}

} // verus!
