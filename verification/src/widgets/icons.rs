//! Glyphs shared by the widgets.
use vstd::prelude::*;

verus! {

/// Neutral information.
pub const INFO: &'static str = "ℹ";
/// Success.
pub const SUCCESS: &'static str = "✔";
/// Warning.
pub const WARNING: &'static str = "⚠";
/// Error.
pub const ERROR: &'static str = "✖";
/// Close button.
pub const CLOSE: &'static str = "✕";

} // verus!
