//! Hexadecimal texts.

use vstd::prelude::*;

verus! {

/// The character of a hexadecimal digit.
pub open spec fn hex_digit(d: int, upper: bool) -> u8 {
    if d < 10 {
        (48 + d) as u8
    } else if upper {
        (55 + d) as u8
    } else {
        (87 + d) as u8
    }
}

/// The hexadecimal digits of a number.
pub open spec fn hex(n: nat, upper: bool) -> Seq<u8>
    decreases n,
{
    if n < 16 {
        seq![hex_digit(n as int, upper)]
    } else {
        hex(n / 16, upper).push(hex_digit((n % 16) as int, upper))
    }
}

/// Zeroes.
pub open spec fn zero_digits(n: nat) -> Seq<u8> {
    Seq::new(n, |i: int| 48u8)
}

/// The hexadecimal digits of a number, with zeroes before them up to a width.
pub open spec fn padded_hex(n: nat, width: nat, upper: bool) -> Seq<u8> {
    let digits = hex(n, upper);
    if digits.len() >= width {
        digits
    } else {
        zero_digits((width - digits.len()) as nat) + digits
    }
}

fn digit(d: u64, upper: bool) -> (c: u8)
    requires
        d < 16,
    ensures
        c == hex_digit(d as int, upper),
{
    if d < 10 {
        48 + d as u8
    } else if upper {
        55 + d as u8
    } else {
        87 + d as u8
    }
}

/// Append the hexadecimal digits of a number.
pub fn push_hex(out: &mut Vec<u8>, n: u64, upper: bool)
    ensures
        final(out)@ == old(out)@ + hex(n as nat, upper),
    decreases n,
{
    if n < 16 {
        out.push(digit(n, upper));
        assert(out@ =~= old(out)@ + hex(n as nat, upper));
    } else {
        push_hex(out, n / 16, upper);
        out.push(digit(n % 16, upper));
        assert(out@ =~= old(out)@ + hex(n as nat, upper));
    }
}

/// The number of hexadecimal digits of a number.
fn hex_len(n: u64) -> (len: usize)
    ensures
        len == hex(n as nat, true).len(),
        len == hex(n as nat, false).len(),
        len <= 16,
{
    let mut len: usize = 1;
    let mut rest: u64 = n;
    let mut left: usize = 15;
    assert(pow16(15) == 0x1000_0000_0000_0000) by {
        reveal_with_fuel(pow16, 16);
    }
    while rest >= 16
        invariant
            hex(n as nat, true).len() + 1 == len + hex(rest as nat, true).len(),
            hex(n as nat, false).len() + 1 == len + hex(rest as nat, false).len(),
            len + left == 16,
            rest < pow16(left as nat) * 16,
        decreases rest,
    {
        proof {
            if left == 0 {
                assert(pow16(0) == 1);
            }
            assert(pow16(left as nat) == 16 * pow16((left - 1) as nat));
        }
        rest = rest / 16;
        len = len + 1;
        left = left - 1;
    }
    len
}

/// A power of sixteen.
spec fn pow16(n: nat) -> nat
    decreases n,
{
    if n == 0 {
        1
    } else {
        16 * pow16((n - 1) as nat)
    }
}

/// Append the hexadecimal digits of a number, with zeroes before them up to a
/// width.
pub fn push_padded_hex(out: &mut Vec<u8>, n: u64, width: usize, upper: bool)
    ensures
        final(out)@ == old(out)@ + padded_hex(n as nat, width as nat, upper),
{
    let len: usize = hex_len(n);
    let ghost before = out@;
    let mut missing: usize = if len < width {
        width - len
    } else {
        0
    };
    let ghost zeroes: nat = missing as nat;
    let mut done: usize = 0;
    assert(before =~= before + zero_digits(0));
    while done < missing
        invariant
            done <= missing,
            out@ == before + zero_digits(done as nat),
        decreases missing - done,
    {
        out.push(48);
        assert(before + zero_digits((done + 1) as nat) =~= (before + zero_digits(done as nat)).push(
            48u8,
        ));
        done = done + 1;
    }
    push_hex(out, n, upper);
    assert(out@ =~= before + padded_hex(n as nat, width as nat, upper));
}

} // verus!
