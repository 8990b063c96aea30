//! Human-scaled file sizes.

use vstd::prelude::*;
use vstd::string::*;
use vstd::arithmetic::div_mod::{
    lemma_div_is_ordered, lemma_div_is_ordered_by_denominator, lemma_div_nonincreasing,
    lemma_mod_bound, lemma_remainder_lower,
};
use crate::text::{append_decimal, decimal_text, digit_char, digit_text};

verus! {

/// Bytes in a kilobyte: the threshold between two neighbouring units.
pub const KB: u64 = 1024;

/// Bytes in a megabyte.
pub const MB: u64 = 1_048_576;

/// Bytes in a gigabyte.
pub const GB: u64 = 1_073_741_824;

/// `n / d` rounded to the nearest integer, a tie going to the even one.
pub open spec fn round_half_even(n: nat, d: nat) -> nat
    recommends
        d > 0,
{
    let q = n / d;
    let r = n % d;
    if 2 * r < d {
        q
    } else if 2 * r > d {
        q + 1
    } else if q % 2 == 0 {
        q
    } else {
        q + 1
    }
}

/// The distance between two neighbouring double-precision numbers at the
/// magnitude of `n`: 1 below 2^53, doubling with each further bit.
pub open spec fn double_spacing(n: nat) -> nat {
    if n < 0x20_0000_0000_0000 {
        1
    } else if n < 0x40_0000_0000_0000 {
        2
    } else if n < 0x80_0000_0000_0000 {
        4
    } else if n < 0x100_0000_0000_0000 {
        8
    } else if n < 0x200_0000_0000_0000 {
        16
    } else if n < 0x400_0000_0000_0000 {
        32
    } else if n < 0x800_0000_0000_0000 {
        64
    } else if n < 0x1000_0000_0000_0000 {
        128
    } else if n < 0x2000_0000_0000_0000 {
        256
    } else if n < 0x4000_0000_0000_0000 {
        512
    } else if n < 0x8000_0000_0000_0000 {
        1024
    } else {
        2048
    }
}

/// The double-precision number nearest to `n`, a tie going to the one with
/// the even mantissa. Every size below 2^53 is its own nearest double.
pub open spec fn nearest_double(n: nat) -> nat {
    round_half_even(n, double_spacing(n)) * double_spacing(n)
}

/// `size / unit` in tenths: the quotient of the nearest double by `unit`,
/// rounded to one decimal place with ties to even.
pub open spec fn scaled_tenths(size: nat, unit: nat) -> nat
    recommends
        unit > 0,
{
    round_half_even(10 * nearest_double(size), unit)
}

/// A count of tenths written with one decimal place, then `suffix`.
pub open spec fn tenths_text(tenths: nat, suffix: Seq<char>) -> Seq<char> {
    decimal_text(tenths / 10) + seq!['.'] + seq![digit_char((tenths % 10) as int)] + suffix
}

/// The text of a size: plain bytes below 1024, else the largest unit of
/// KB, MB and GB that the size reaches, with one decimal place.
pub open spec fn size_text(size: nat) -> Seq<char> {
    if size >= GB {
        tenths_text(scaled_tenths(size, GB as nat), " GB"@)
    } else if size >= MB {
        tenths_text(scaled_tenths(size, MB as nat), " MB"@)
    } else if size >= KB {
        tenths_text(scaled_tenths(size, KB as nat), " KB"@)
    } else {
        decimal_text(size) + " B"@
    }
}

/// Divides and rounds to the nearest integer, a tie going to the even one.
fn rounded_quotient(n: u128, d: u128) -> (q: u128)
    requires
        0 < d <= 0x1_0000_0000_0000_0000,
        n < 0x1_0000_0000_0000_0000_0000,
    ensures
        q == round_half_even(n as nat, d as nat),
        q <= (n as int) / (d as int) + 1,
{
    let q: u128 = n / d;
    let r: u128 = n % d;
    proof {
        lemma_div_nonincreasing(n as int, d as int);
        lemma_mod_bound(n as int, d as int);
    }
    if 2 * r < d {
        q
    } else if 2 * r > d {
        q + 1
    } else if q % 2 == 0 {
        q
    } else {
        q + 1
    }
}

/// The distance between neighbouring doubles at the magnitude of `size`.
fn spacing_of(size: u64) -> (spacing: u64)
    ensures
        spacing == double_spacing(size as nat),
        1 <= spacing <= 2048,
{
    if size < 0x20_0000_0000_0000 {
        1
    } else if size < 0x40_0000_0000_0000 {
        2
    } else if size < 0x80_0000_0000_0000 {
        4
    } else if size < 0x100_0000_0000_0000 {
        8
    } else if size < 0x200_0000_0000_0000 {
        16
    } else if size < 0x400_0000_0000_0000 {
        32
    } else if size < 0x800_0000_0000_0000 {
        64
    } else if size < 0x1000_0000_0000_0000 {
        128
    } else if size < 0x2000_0000_0000_0000 {
        256
    } else if size < 0x4000_0000_0000_0000 {
        512
    } else if size < 0x8000_0000_0000_0000 {
        1024
    } else {
        2048
    }
}

/// The size in tenths of `unit`, rounded as a double is when it is written
/// with one decimal place.
fn tenths_of(size: u64, unit: u64) -> (tenths: u64)
    requires
        unit >= 1024,
    ensures
        tenths == scaled_tenths(size as nat, unit as nat),
{
    let spacing: u64 = spacing_of(size);
    let mantissa: u128 = rounded_quotient(size as u128, spacing as u128);
    assert(mantissa * spacing <= size + spacing) by {
        lemma_remainder_lower(size as int, spacing as int);
        assert(mantissa * spacing <= (size as int / spacing as int) * spacing + spacing)
            by (nonlinear_arith)
            requires
                mantissa <= size as int / spacing as int + 1,
                spacing > 0,
        ;
    }
    let nearest: u128 = mantissa * (spacing as u128);
    let tenths: u128 = rounded_quotient(10 * nearest, unit as u128);
    assert(tenths <= u64::MAX) by {
        lemma_div_is_ordered_by_denominator(10 * nearest as int, 1024, unit as int);
        lemma_div_is_ordered(10 * nearest as int, 10 * (0x1_0000_0000_0000_0000int + 2048), 1024);
    }
    tenths as u64
}

/// Appends the size in `unit` with one decimal place, then `suffix`.
fn append_scaled(out: &mut String, size: u64, unit: u64, suffix: &str)
    requires
        unit >= 1024,
    ensures
        final(out)@ == old(out)@ + tenths_text(scaled_tenths(size as nat, unit as nat), suffix@),
{
    let tenths: u64 = tenths_of(size, unit);
    append_decimal(out, tenths / 10);
    proof {
        reveal_strlit(".");
    }
    out.append(".");
    out.append(digit_text(tenths % 10));
    out.append(suffix);
    assert(final(out)@ =~= old(out)@ + tenths_text(
        scaled_tenths(size as nat, unit as nat),
        suffix@,
    )) by {
        assert("."@ =~= seq!['.']);
    }
}

/// Writes a size for a reader: bytes below 1024, else in the largest of
/// KB, MB and GB that the size reaches, with one decimal place.
///
/// The scaled number is the one that double-precision arithmetic gives:
/// the quotient of the double nearest to the size by the unit, rounded to
/// one decimal place with a tie going to the even digit. So `1280` is
/// `1.2 KB` and `1382` is `1.3 KB`.
pub fn format_size(size: u64) -> (text: String)
    ensures
        text@ == size_text(size as nat),
{
    let mut text: String = String::new();
    if size >= GB {
        append_scaled(&mut text, size, GB, " GB");
    } else if size >= MB {
        append_scaled(&mut text, size, MB, " MB");
    } else if size >= KB {
        append_scaled(&mut text, size, KB, " KB");
    } else {
        append_decimal(&mut text, size);
        text.append(" B");
    }
    assert(text@ =~= size_text(size as nat));
    text
}

} // verus!
