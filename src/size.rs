use vstd::prelude::*;
use crate::text::{append_chars, chars_of, text_of};

verus! {

pub open spec fn digit_char(d: nat) -> char {
    if d == 0 { '0' } else if d == 1 { '1' } else if d == 2 { '2' } else if d == 3 { '3' }
    else if d == 4 { '4' } else if d == 5 { '5' } else if d == 6 { '6' } else if d == 7 { '7' }
    else if d == 8 { '8' } else { '9' }
}

/// The decimal numeral of `n`, without leading zeros.
pub open spec fn decimal(n: nat) -> Seq<char>
    decreases n,
{
    if n < 10 {
        seq![digit_char(n)]
    } else {
        decimal(n / 10).push(digit_char(n % 10))
    }
}

fn digit(d: u64) -> (r: char)
    requires
        d < 10,
    ensures
        r == digit_char(d as nat),
{
    if d == 0 { '0' } else if d == 1 { '1' } else if d == 2 { '2' } else if d == 3 { '3' }
    else if d == 4 { '4' } else if d == 5 { '5' } else if d == 6 { '6' } else if d == 7 { '7' }
    else if d == 8 { '8' } else { '9' }
}

fn push_decimal(out: &mut Vec<char>, n: u64)
    ensures
        final(out)@ == old(out)@ + decimal(n as nat),
    decreases n,
{
    if n < 10 {
        out.push(digit(n));
        assert(final(out)@ =~= old(out)@ + decimal(n as nat));
    } else {
        push_decimal(out, n / 10);
        out.push(digit(n % 10));
        assert(final(out)@ =~= old(out)@ + decimal(n as nat));
    }
}

/// `n / d` rounded to the nearest integer, a tie going to the even one; this is how
/// a fixed-precision format rounds a binary fraction whose value it holds exactly.
pub open spec fn div_round_even(n: nat, d: nat) -> nat
    recommends
        d > 0,
{
    let q = n / d;
    let r = n % d;
    if 2 * r > d || (2 * r == d && q % 2 == 1) {
        q + 1
    } else {
        q
    }
}

/// A count in tenths of a unit, written with one decimal place.
pub open spec fn tenths_text(t: nat) -> Seq<char> {
    decimal(t / 10) + seq!['.'] + seq![digit_char(t % 10)]
}

pub open spec fn size_text(bytes: nat) -> Seq<char> {
    if bytes < 1024 {
        decimal(bytes) + " B"@
    } else if bytes < 1024 * 1024 {
        tenths_text(div_round_even(bytes * 10, 1024)) + " KB"@
    } else {
        tenths_text(div_round_even(bytes * 10, 1024 * 1024)) + " MB"@
    }
}

/// The display text of a file size: "Unknown" when the size could not be read.
pub open spec fn size_label(len: Option<u64>) -> Seq<char> {
    match len {
        Some(b) => size_text(b as nat),
        None => "Unknown"@,
    }
}

fn round_tenths(bytes: u64, unit: u64) -> (r: u64)
    requires
        unit == 1024 || unit == 1024 * 1024,
        bytes >= unit,
    ensures
        r as nat == div_round_even(bytes as nat * 10, unit as nat),
{
    let n: u128 = bytes as u128 * 10;
    let q: u128 = n / unit as u128;
    let rem: u128 = n % unit as u128;
    assert(q < 0x2000_0000_0000_0000) by (nonlinear_arith)
        requires q == n / unit as u128, n == bytes as u128 * 10, unit >= 1024, bytes <= u64::MAX;
    if 2 * rem > unit as u128 || (2 * rem == unit as u128 && q % 2 == 1) {
        (q + 1) as u64
    } else {
        q as u64
    }
}

fn push_tenths(out: &mut Vec<char>, t: u64)
    ensures
        final(out)@ == old(out)@ + tenths_text(t as nat),
{
    push_decimal(out, t / 10);
    out.push('.');
    out.push(digit(t % 10));
    assert(final(out)@ =~= old(out)@ + tenths_text(t as nat));
}

/// The size of a file for display: whole bytes below one KiB, then kibibytes below one
/// MiB, then mebibytes, each of these with one decimal place; "Unknown" for `None`.
pub fn format_size(len: Option<u64>) -> (r: String)
    ensures
        r@ == size_label(len),
{
    let mut out: Vec<char> = Vec::new();
    match len {
        None => {
            return text_of(&chars_of("Unknown"));
        },
        Some(bytes) => {
            if bytes < 1024 {
                push_decimal(&mut out, bytes);
                append_chars(&mut out, &chars_of(" B"));
            } else if bytes < 1024 * 1024 {
                let t = round_tenths(bytes, 1024);
                push_tenths(&mut out, t);
                append_chars(&mut out, &chars_of(" KB"));
            } else {
                let t = round_tenths(bytes, 1024 * 1024);
                push_tenths(&mut out, t);
                append_chars(&mut out, &chars_of(" MB"));
            }
            assert(out@ =~= size_label(len));
        },
    }
    text_of(&out)
}

} // verus!
