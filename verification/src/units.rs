//! Binary sizes rendered the way `format!("{:.1}", n as f64 / 1024^k)` renders
//! them, computed exactly on integers.
//!
//! `n as f64` rounds an integer to 53 significant bits, ties to even; dividing
//! by a power of two is exact; `{:.1}` rounds the exact binary value to one
//! decimal, ties to even. Each step is restated here on naturals.
use vstd::prelude::*;

use crate::text::{decimal, digit_char, push_char, push_decimal};

verus! {

/// `2^k`.
pub open spec fn p2(k: nat) -> nat
    decreases k,
{
    if k == 0 {
        1
    } else {
        2 * p2((k - 1) as nat)
    }
}

/// `1024^i`.
pub open spec fn pow1024(i: nat) -> nat
    decreases i,
{
    if i == 0 {
        1
    } else {
        1024 * pow1024((i - 1) as nat)
    }
}

/// Number of low bits that `as f64` drops from `n < 2^64`: the least `k` with
/// `n < 2^(53 + k)`, searched from `from`.
pub open spec fn dropped_bits_from(n: nat, k: nat) -> nat
    decreases 11 - k,
{
    if k >= 11 || n < p2(53 + k) {
        k
    } else {
        dropped_bits_from(n, k + 1)
    }
}

/// `n / d` rounded to the nearest integer, ties to even.
pub open spec fn round_half_even(n: nat, d: nat) -> nat
    recommends
        d > 0,
{
    let q = n / d;
    let r = n % d;
    if 2 * r > d || (2 * r == d && q % 2 == 1) {
        q + 1
    } else {
        q
    }
}

/// The value of `n as f64`, for `n < 2^64`.
pub open spec fn as_f64(n: nat) -> nat {
    let k = dropped_bits_from(n, 0);
    round_half_even(n, p2(k)) * p2(k)
}

/// Index of the binary unit used for `v`: divide by 1024 while the value is
/// at least 1024 and a larger unit exists.
pub open spec fn unit_from(v: nat, i: nat, max: nat) -> nat
    decreases max - i,
{
    if i < max && v >= pow1024(i + 1) {
        unit_from(v, i + 1, max)
    } else {
        i
    }
}

/// Name of the binary unit of index `i`.
pub open spec fn unit_name(i: nat) -> Seq<char> {
    if i == 0 {
        "o"@
    } else if i == 1 {
        "Kio"@
    } else if i == 2 {
        "Mio"@
    } else if i == 3 {
        "Gio"@
    } else if i == 4 {
        "Tio"@
    } else {
        "Pio"@
    }
}

/// A number of tenths rendered with one decimal: `15` → `1.5`.
pub open spec fn tenths_text(q: nat) -> Seq<char> {
    decimal(q / 10) + seq!['.', digit_char(q % 10)]
}

/// `v` expressed in unit `i`, in tenths, rounded half to even.
pub open spec fn tenths_in_unit(v: nat, i: nat) -> nat {
    round_half_even(v * 10, pow1024(i))
}

/// `v` rendered in unit `i > 0` with one decimal and the unit name.
pub open spec fn scaled_text(v: nat, i: nat) -> Seq<char> {
    tenths_text(tenths_in_unit(v, i)) + seq![' '] + unit_name(i)
}

/// Exact value of `n as f64` for a 64-bit `n`.
pub fn f64_value(n: u64) -> (f: u128)
    ensures
        f == as_f64(n as nat),
        f <= 0x1_0000_0000_0000_0000u128,
{
    let mut k: u64 = 0;
    let mut d: u128 = 1;
    let mut limit: u128 = 0x20_0000_0000_0000u128;
    proof {
        lemma_p2_facts();
    }
    while k < 11 && (n as u128) >= limit
        invariant
            k <= 11,
            d == p2(k as nat),
            1 <= d <= 0x800,
            limit == p2((53 + k) as nat),
            limit == p2(53) * d,
            p2(53) == 0x20_0000_0000_0000,
            p2(11) == 0x800,
            p2(64) == 0x1_0000_0000_0000_0000u128,
            dropped_bits_from(n as nat, k as nat) == dropped_bits_from(n as nat, 0),
        decreases 11 - k,
    {
        proof {
            lemma_p2_le((k + 1) as nat, 11);
            lemma_p2_add(53, (k + 1) as nat);
            assert(p2((k + 1) as nat) == 2 * p2(k as nat));
            assert(p2((53 + k + 1) as nat) == 2 * p2((53 + k) as nat));
        }
        k = k + 1;
        d = d * 2;
        limit = limit * 2;
    }
    let q: u128 = (n as u128) / d;
    let r: u128 = (n as u128) % d;
    let rq: u128 = if 2 * r > d || (2 * r == d && q % 2 == 1) {
        q + 1
    } else {
        q
    };
    proof {
        let nn = n as nat;
        assert(nn < limit) by {
            if k >= 11 {
                assert(limit == p2(64));
            }
        };
        assert(q < p2(53)) by (nonlinear_arith)
            requires
                q == nn / (d as nat),
                nn < p2(53) * d,
                d > 0,
        ;
        assert(rq <= p2(53));
        assert(rq * d <= p2(53) * d) by (nonlinear_arith)
            requires
                rq <= p2(53),
                d > 0,
        ;
        assert(dropped_bits_from(nn, k as nat) == k as nat);
    }
    rq * d
}

proof fn lemma_p2_facts()
    ensures
        p2(11) == 0x800,
        p2(53) == 0x20_0000_0000_0000,
        p2(64) == 0x1_0000_0000_0000_0000u128,
{
    reveal_with_fuel(p2, 65);
}

proof fn lemma_p2_le(a: nat, b: nat)
    requires
        a <= b,
    ensures
        p2(a) <= p2(b),
    decreases b - a,
{
    if a < b {
        lemma_p2_le(a, (b - 1) as nat);
        assert(p2(b) == 2 * p2((b - 1) as nat));
    }
}

proof fn lemma_p2_add(a: nat, b: nat)
    ensures
        p2(a + b) == p2(a) * p2(b),
    decreases b,
{
    if b > 0 {
        lemma_p2_add(a, (b - 1) as nat);
        assert(p2(a + b) == 2 * p2((a + b - 1) as nat));
        assert(p2(b) == 2 * p2((b - 1) as nat));
        assert((a + (b - 1) as nat) as nat == (a + b - 1) as nat);
        assert(p2(a) * (2 * p2((b - 1) as nat)) == 2 * (p2(a) * p2((b - 1) as nat)))
            by (nonlinear_arith);
    } else {
        assert(p2(0) == 1);
        assert(a + b == a);
        assert(p2(a) * 1 == p2(a));
    }
}

/// Unit index and value in tenths of `v`, with units up to index `max`.
pub fn binary_unit(v: u128, max: u64) -> (r: (u64, u128))
    requires
        v <= 0x1_0000_0000_0000_0000u128,
        max <= 5,
    ensures
        r.0 <= max,
        r.0 == unit_from(v as nat, 0, max as nat),
        r.1 == tenths_in_unit(v as nat, r.0 as nat),
        max > 0 && r.0 == 0 ==> v < 1024,
{
    let mut i: u64 = 0;
    let mut below: u128 = 1;
    let mut next: u128 = 1024;
    while i < max && v >= next
        invariant
            i <= max <= 5,
            below == pow1024(i as nat),
            below >= 1,
            next == pow1024((i + 1) as nat),
            next <= 0x1000_0000_0000_0000u128,
            unit_from(v as nat, i as nat, max as nat) == unit_from(v as nat, 0, max as nat),
        decreases max - i,
    {
        proof {
            lemma_pow1024_bound((i + 2) as nat);
            lemma_pow1024_pos((i + 1) as nat);
        }
        i = i + 1;
        below = next;
        next = next * 1024;
    }
    assert(i == 0 ==> next == 1024) by {
        reveal_with_fuel(pow1024, 2);
    };
    let q = v * 10 / below;
    let r = v * 10 % below;
    let rq = if 2 * r > below || (2 * r == below && q % 2 == 1) {
        q + 1
    } else {
        q
    };
    (i, rq)
}

proof fn lemma_pow1024_bound(i: nat)
    requires
        i <= 6,
    ensures
        pow1024(i) <= 0x1000_0000_0000_0000,
        pow1024(i) >= 1,
    decreases i,
{
    if i > 0 {
        lemma_pow1024_bound((i - 1) as nat);
        assert(pow1024((i - 1) as nat) <= 0x4_0000_0000_0000) by {
            lemma_pow1024_small((i - 1) as nat);
        };
    }
}

proof fn lemma_pow1024_small(i: nat)
    requires
        i <= 5,
    ensures
        pow1024(i) <= 0x4_0000_0000_0000,
    decreases i,
{
    if i > 0 {
        lemma_pow1024_small((i - 1) as nat);
        assert(pow1024(4) == 0x100_0000_0000) by {
            reveal_with_fuel(pow1024, 6);
        };
        assert(pow1024(5) == 0x4_0000_0000_0000) by {
            reveal_with_fuel(pow1024, 6);
        };
        if i <= 4 {
            lemma_pow1024_mono(i, 4);
        }
    }
}

proof fn lemma_pow1024_mono(a: nat, b: nat)
    requires
        a <= b,
    ensures
        pow1024(a) <= pow1024(b),
    decreases b - a,
{
    if a < b {
        lemma_pow1024_mono(a, (b - 1) as nat);
        lemma_pow1024_pos((b - 1) as nat);
    }
}

proof fn lemma_pow1024_pos(a: nat)
    ensures
        pow1024(a) >= 1,
    decreases a,
{
    if a > 0 {
        lemma_pow1024_pos((a - 1) as nat);
    }
}

/// A value below `2^64` has fewer than `2^64` tenths in any unit from 1 on.
pub proof fn lemma_tenths_bound(v: nat, i: nat)
    requires
        v <= 0x1_0000_0000_0000_0000,
        i >= 1,
        i <= 5,
    ensures
        tenths_in_unit(v, i) <= 0xffff_ffff_ffff_ffff,
{
    lemma_pow1024_mono(1, i);
    assert(pow1024(1) == 1024) by {
        reveal_with_fuel(pow1024, 2);
    };
    let d = pow1024(i);
    assert((v * 10) / d <= (v * 10) / 1024) by (nonlinear_arith)
        requires
            d >= 1024,
    ;
    assert((v * 10) / 1024 <= 0x280_0000_0000_0000) by (nonlinear_arith)
        requires
            v <= 0x1_0000_0000_0000_0000,
    ;
}

/// Appends `q` tenths with one decimal.
pub fn push_tenths(out: &mut String, q: u128)
    requires
        q <= 0xffff_ffff_ffff_ffffu128,
    ensures
        final(out)@ == old(out)@ + tenths_text(q as nat),
{
    let whole: u64 = (q / 10) as u64;
    let frac: u64 = (q % 10) as u64;
    push_decimal(out, whole);
    push_char(out, '.');
    let c = if frac == 0 { '0' } else if frac == 1 { '1' } else if frac == 2 { '2' } else if frac == 3 { '3' }
        else if frac == 4 { '4' } else if frac == 5 { '5' } else if frac == 6 { '6' } else if frac == 7 { '7' }
        else if frac == 8 { '8' } else { '9' };
    proof {
        assert(c == digit_char(frac as nat)) by {
            reveal_with_fuel(digit_char, 1);
        };
    }
    push_char(out, c);
    assert(old(out)@ + decimal(whole as nat) + seq!['.'] + seq![c] =~= old(out)@ + tenths_text(q as nat));
}

/// Appends the name of unit `i`.
pub fn push_unit(out: &mut String, i: u64)
    ensures
        final(out)@ == old(out)@ + unit_name(i as nat),
{
    let name = if i == 0 {
        "o"
    } else if i == 1 {
        "Kio"
    } else if i == 2 {
        "Mio"
    } else if i == 3 {
        "Gio"
    } else if i == 4 {
        "Tio"
    } else {
        "Pio"
    };
    out.append(name);
}

} // verus!
