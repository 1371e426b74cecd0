//! Sizes as they are shown.
use crate::chars::{push_text, to_text};
use crate::number;
use crate::number::push_decimal;
use vstd::prelude::*;

verus! {

/// The whole number nearest to `n / d`, the even one of two that are equally near.
pub open spec fn nearest(n: nat, d: nat) -> nat {
    let q = n / d;
    let r = n % d;
    if 2 * r > d || (2 * r == d && q % 2 == 1) {
        q + 1
    } else {
        q
    }
}

/// The least power of two in which at most 53 bits count a size.
pub open spec fn last_bit(size: nat) -> nat
    decreases size,
{
    if size < 0x20_0000_0000_0000 {
        1
    } else {
        2 * last_bit(size / 2)
    }
}

/// A size to 53 bits: the value that is shown.
pub open spec fn shown_size(size: nat) -> nat {
    nearest(size, last_bit(size)) * last_bit(size)
}

/// A size in a unit, with one digit behind the point.
pub open spec fn in_unit(size: nat, unit: nat) -> Seq<char> {
    let tenths = nearest(10 * shown_size(size), unit);
    number::decimal(tenths / 10).push('.') + number::decimal(tenths % 10)
}

/// A size as it is shown.
pub open spec fn size_text(size: u64) -> Seq<char> {
    if shown_size(size as nat) < 0x400 {
        number::decimal(shown_size(size as nat)) + " B"@
    } else if shown_size(size as nat) < 0x10_0000 {
        in_unit(size as nat, 0x400) + " KB"@
    } else if shown_size(size as nat) < 0x4000_0000 {
        in_unit(size as nat, 0x10_0000) + " MB"@
    } else {
        in_unit(size as nat, 0x4000_0000) + " GB"@
    }
}

fn round(n: u128, d: u128) -> (r: u128)
    requires
        d > 0,
        n <= 0xffff_ffff_ffff_ffff_ffff,
        d <= 0xffff_ffff_ffff_ffff,
    ensures
        r == nearest(n as nat, d as nat),
        r <= n / d + 1,
{
    let q: u128 = n / d;
    let rest: u128 = n % d;
    if 2 * rest > d || (2 * rest == d && q % 2 == 1) {
        q + 1
    } else {
        q
    }
}

/// Of a size at most the last eleven bits are not shown.
pub proof fn lemma_last_bit(size: nat)
    requires
        size <= u64::MAX,
    ensures
        1 <= last_bit(size) <= 2048,
        size >= 0x20_0000_0000_0000 ==> last_bit(size) <= size,
{
    reveal_with_fuel(last_bit, 13);
}

fn count_bits(size: u64) -> (r: u64)
    ensures
        r == last_bit(size as nat),
        1 <= r <= 2048,
    decreases size,
{
    proof {
        lemma_last_bit(size as nat);
    }
    if size < 0x20_0000_0000_0000 {
        1
    } else {
        2 * count_bits(size / 2)
    }
}

fn round_size(size: u64) -> (r: u128)
    ensures
        r == shown_size(size as nat),
        r <= 0x2_0000_0000_0000_0000,
{
    let unit: u64 = count_bits(size);
    let q: u128 = round(size as u128, unit as u128);
    assert(q * unit <= size + unit) by (nonlinear_arith)
        requires
            q <= size / unit + 1,
            unit > 0,
    ;
    q * unit as u128
}

fn push_in_unit(out: &mut Vec<char>, size: u128, unit: u128)
    requires
        size <= 0x2_0000_0000_0000_0000,
        0x400 <= unit <= 0x4000_0000,
    ensures
        final(out)@ == old(out)@ + (number::decimal(nearest(10 * size as nat, unit as nat) / 10).push(
            '.',
        ) + number::decimal(nearest(10 * size as nat, unit as nat) % 10)),
{
    let tenths: u128 = round(10 * size, unit);
    assert(tenths <= 0xffff_ffff_ffff_ffff) by (nonlinear_arith)
        requires
            tenths <= (10 * size) / (unit as int) + 1,
            size <= 0x2_0000_0000_0000_0000,
            unit >= 0x400,
    ;
    push_decimal(out, (tenths / 10) as u64);
    out.push('.');
    push_decimal(out, (tenths % 10) as u64);
    assert(out@ =~= old(out)@ + (number::decimal((tenths / 10) as nat).push('.') + number::decimal(
        (tenths % 10) as nat,
    )));
}

/// A size as it is shown.
pub fn format_size(size: u64) -> (r: String)
    ensures
        r@ == size_text(size),
{
    let shown: u128 = round_size(size);
    let mut out: Vec<char> = Vec::new();
    if shown < 0x400 {
        push_decimal(&mut out, shown as u64);
        push_text(&mut out, " B");
    } else if shown < 0x10_0000 {
        push_in_unit(&mut out, shown, 0x400);
        push_text(&mut out, " KB");
    } else if shown < 0x4000_0000 {
        push_in_unit(&mut out, shown, 0x10_0000);
        push_text(&mut out, " MB");
    } else {
        push_in_unit(&mut out, shown, 0x4000_0000);
        push_text(&mut out, " GB");
    }
    assert(out@ =~= size_text(size));
    to_text(out.as_slice())
}

/// Sizes below 2^53 bytes are not rounded before they are shown in a unit.
pub proof fn law_shown_exactly(size: nat)
    requires
        size < 0x20_0000_0000_0000,
    ensures
        shown_size(size) == size,
{
    assert(last_bit(size) == 1);
    assert(size / 1 == size && size % 1 == 0);
    assert(nearest(size, 1) == size);
}

} // verus!
