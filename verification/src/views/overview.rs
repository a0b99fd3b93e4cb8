//! Overview screen: cluster capacities rendered for people.
use vstd::prelude::*;

use crate::text::{decimal, push_char, push_decimal};
use crate::units::{as_f64, binary_unit, f64_value, push_tenths, push_unit, scaled_text, unit_from};

verus! {

/// A byte count in binary units, up to `Pio`; negative counts read as zero.
pub open spec fn bytes_text(bytes: int) -> Seq<char> {
    let value: nat = if bytes < 0 { 0 } else { bytes as nat };
    let f = as_f64(value);
    let i = unit_from(f, 0, 5);
    if i == 0 {
        decimal(f) + " o"@
    } else {
        scaled_text(f, i)
    }
}

/// Formats a byte count in binary units.
pub fn format_bytes(bytes: i64) -> (out: String)
    ensures
        out@ == bytes_text(bytes as int),
{
    let value: u64 = if bytes < 0 {
        0
    } else {
        bytes as u64
    };
    let f = f64_value(value);
    let (i, q) = binary_unit(f, 5);
    let mut out = String::new();
    if i == 0 {
        // Below 1024 the value is exact and fits 64 bits.
        push_decimal(&mut out, f as u64);
        out.append(" o");
    } else {
        proof {
            crate::units::lemma_tenths_bound(f as nat, i as nat);
        }
        push_tenths(&mut out, q);
        push_char(&mut out, ' ');
        push_unit(&mut out, i);
        assert(out@ =~= scaled_text(f as nat, i as nat));
    }
    out
}

} // verus!
