//! Verified rendering of numbers as character sequences.
//!
//! The animation document needs decimal integers, two-digit lowercase hex
//! bytes, and fixed-point decimals with either a fixed number of fraction
//! digits or with trailing zeros trimmed.

use vstd::prelude::*;

verus! {

/// The decimal digit character for a value 0–9.
pub open spec fn digit_char(d: int) -> char {
    if d == 0 {
        '0'
    } else if d == 1 {
        '1'
    } else if d == 2 {
        '2'
    } else if d == 3 {
        '3'
    } else if d == 4 {
        '4'
    } else if d == 5 {
        '5'
    } else if d == 6 {
        '6'
    } else if d == 7 {
        '7'
    } else if d == 8 {
        '8'
    } else {
        '9'
    }
}

/// The hexadecimal digit character for a value 0–15, lowercase.
pub open spec fn hex_char(d: int) -> char {
    if d < 10 {
        digit_char(d)
    } else if d == 10 {
        'a'
    } else if d == 11 {
        'b'
    } else if d == 12 {
        'c'
    } else if d == 13 {
        'd'
    } else if d == 14 {
        'e'
    } else {
        'f'
    }
}

/// The usual decimal rendering of a non-negative integer, no sign, no
/// leading zeros (a single zero for 0).
pub open spec fn dec_str(n: int) -> Seq<char>
    decreases n,
{
    if n < 10 {
        seq![digit_char(n)]
    } else {
        dec_str(n / 10).push(digit_char(n % 10))
    }
}

/// Two lowercase hex digits of a byte, zero-padded.
pub open spec fn hex2(b: u8) -> Seq<char> {
    seq![hex_char(b as int / 16), hex_char(b as int % 16)]
}

/// Six lowercase hex digits of an RGB triple.
pub open spec fn hex_rgb(r: u8, g: u8, b: u8) -> Seq<char> {
    hex2(r) + hex2(g) + hex2(b)
}

/// `s` with every trailing `'0'` removed.
pub open spec fn trim_zeros(s: Seq<char>) -> Seq<char>
    decreases s.len(),
{
    if s.len() > 0 && s.last() == '0' {
        trim_zeros(s.drop_last())
    } else {
        s
    }
}

/// The fraction digits of `f`, zero-padded to the width of `pad` (a power
/// of ten greater than `f`).
pub open spec fn padded_frac(f: int, pad: int) -> Seq<char> {
    dec_str(pad + f).drop_first()
}

/// A quotient with a fractional part scaled by `pad`, rendered with the
/// trailing zeros of the fraction trimmed; the point itself is omitted when
/// the fraction is zero.
pub open spec fn point_trim_str(q: int, f: int, pad: int) -> Seq<char> {
    if f == 0 {
        dec_str(q)
    } else {
        dec_str(q) + seq!['.'] + trim_zeros(padded_frac(f, pad))
    }
}

/// A value in hundredths rendered with exactly two fraction digits.
pub open spec fn hundredths_str(v: int) -> Seq<char> {
    dec_str(v / 100) + seq!['.'] + seq![digit_char((v / 10) % 10), digit_char(v % 10)]
}

/// A value in tenths rendered with exactly one fraction digit.
pub open spec fn tenths_str(v: int) -> Seq<char> {
    dec_str(v / 10) + seq!['.'] + seq![digit_char(v % 10)]
}

/// The decimal digit character for a value 0–9.
pub fn digit_char_exec(d: u128) -> (c: char)
    requires
        d < 10,
    ensures
        c == digit_char(d as int),
{
    if d == 0 {
        '0'
    } else if d == 1 {
        '1'
    } else if d == 2 {
        '2'
    } else if d == 3 {
        '3'
    } else if d == 4 {
        '4'
    } else if d == 5 {
        '5'
    } else if d == 6 {
        '6'
    } else if d == 7 {
        '7'
    } else if d == 8 {
        '8'
    } else {
        '9'
    }
}

/// The hexadecimal digit character for a value 0–15.
fn hex_char_exec(d: u8) -> (c: char)
    requires
        d < 16,
    ensures
        c == hex_char(d as int),
{
    if d < 10 {
        digit_char_exec(d as u128)
    } else if d == 10 {
        'a'
    } else if d == 11 {
        'b'
    } else if d == 12 {
        'c'
    } else if d == 13 {
        'd'
    } else if d == 14 {
        'e'
    } else {
        'f'
    }
}

/// Render a non-negative integer in decimal.
pub fn dec(n: u128) -> (v: Vec<char>)
    ensures
        v@ == dec_str(n as int),
    decreases n,
{
    if n < 10 {
        let mut v: Vec<char> = Vec::new();
        v.push(digit_char_exec(n));
        assert(v@ =~= dec_str(n as int));
        v
    } else {
        let mut v = dec(n / 10);
        v.push(digit_char_exec(n % 10));
        v
    }
}

/// Append the two hex digits of a byte.
pub fn push_hex2(v: &mut Vec<char>, b: u8)
    ensures
        final(v)@ == old(v)@ + hex2(b),
{
    v.push(hex_char_exec(b / 16));
    v.push(hex_char_exec(b % 16));
    assert(v@ =~= old(v)@ + hex2(b));
}

/// Append the six hex digits of an RGB triple.
pub fn push_hex_rgb(v: &mut Vec<char>, r: u8, g: u8, b: u8)
    ensures
        final(v)@ == old(v)@ + hex_rgb(r, g, b),
{
    push_hex2(v, r);
    push_hex2(v, g);
    push_hex2(v, b);
    assert(v@ =~= old(v)@ + hex_rgb(r, g, b));
}

/// Render `q` + `f`/`pad` with the fraction's trailing zeros trimmed.
pub fn point_trim(q: u128, f: u128, pad: u128) -> (v: Vec<char>)
    requires
        f < pad,
        pad + f <= u128::MAX,
    ensures
        v@ == point_trim_str(q as int, f as int, pad as int),
{
    let mut v = dec(q);
    if f == 0 {
        return v;
    }
    v.push('.');
    let padded = dec(pad + f);
    let mut frac: Vec<char> = Vec::new();
    let mut i: usize = 1;
    while i < padded.len()
        invariant
            1 <= i <= padded.len(),
            frac@ == padded@.subrange(1, i as int),
        decreases padded.len() - i,
    {
        frac.push(padded[i]);
        i += 1;
        assert(frac@ =~= padded@.subrange(1, i as int));
    }
    assert(frac@ =~= padded_frac(f as int, pad as int));
    while frac.len() > 0 && frac[frac.len() - 1] == '0'
        invariant
            trim_zeros(frac@) == trim_zeros(padded_frac(f as int, pad as int)),
        decreases frac.len(),
    {
        frac.pop();
    }
    assert(frac@ == trim_zeros(padded_frac(f as int, pad as int)));
    let mut j: usize = 0;
    let ghost mid = v@;
    while j < frac.len()
        invariant
            0 <= j <= frac.len(),
            v@ == mid + frac@.subrange(0, j as int),
        decreases frac.len() - j,
    {
        v.push(frac[j]);
        j += 1;
        assert(v@ =~= mid + frac@.subrange(0, j as int));
    }
    assert(frac@.subrange(0, frac@.len() as int) =~= frac@);
    assert(v@ =~= point_trim_str(q as int, f as int, pad as int));
    v
}

/// Render a value in hundredths with exactly two fraction digits.
pub fn hundredths(v: u128) -> (r: Vec<char>)
    ensures
        r@ == hundredths_str(v as int),
{
    let mut r = dec(v / 100);
    r.push('.');
    r.push(digit_char_exec((v / 10) % 10));
    r.push(digit_char_exec(v % 10));
    assert(r@ =~= hundredths_str(v as int));
    r
}

/// Render a value in tenths with exactly one fraction digit.
pub fn tenths(v: u128) -> (r: Vec<char>)
    ensures
        r@ == tenths_str(v as int),
{
    let mut r = dec(v / 10);
    r.push('.');
    r.push(digit_char_exec(v % 10));
    assert(r@ =~= tenths_str(v as int));
    r
}

} // verus!
