//! Building record text: hexadecimal and fixed-point decimal digits.
use vstd::prelude::*;

verus! {

/// The lower-case hexadecimal digit of `n` (for `n < 16`).
pub open spec fn hex_char(n: int) -> char {
    seq!['0', '1', '2', '3', '4', '5', '6', '7', '8', '9', 'a', 'b', 'c', 'd', 'e', 'f'][n]
}

/// A byte as two lower-case hexadecimal digits.
pub open spec fn byte_hex(b: u8) -> Seq<char> {
    seq![hex_char(b as int / 16), hex_char(b as int % 16)]
}

fn hex_digit(n: u8) -> (r: &'static str)
    requires
        n < 16,
    ensures
        r@ == seq![hex_char(n as int)],
{
    if n == 0 { proof { reveal_strlit("0"); } "0" }
    else if n == 1 { proof { reveal_strlit("1"); } "1" }
    else if n == 2 { proof { reveal_strlit("2"); } "2" }
    else if n == 3 { proof { reveal_strlit("3"); } "3" }
    else if n == 4 { proof { reveal_strlit("4"); } "4" }
    else if n == 5 { proof { reveal_strlit("5"); } "5" }
    else if n == 6 { proof { reveal_strlit("6"); } "6" }
    else if n == 7 { proof { reveal_strlit("7"); } "7" }
    else if n == 8 { proof { reveal_strlit("8"); } "8" }
    else if n == 9 { proof { reveal_strlit("9"); } "9" }
    else if n == 10 { proof { reveal_strlit("a"); } "a" }
    else if n == 11 { proof { reveal_strlit("b"); } "b" }
    else if n == 12 { proof { reveal_strlit("c"); } "c" }
    else if n == 13 { proof { reveal_strlit("d"); } "d" }
    else if n == 14 { proof { reveal_strlit("e"); } "e" }
    else { proof { reveal_strlit("f"); } "f" }
}

/// Appends the two hexadecimal digits of `b`.
pub fn push_byte_hex(out: &mut String, b: u8)
    ensures
        final(out)@ == old(out)@ + byte_hex(b),
{
    out.append(hex_digit(b / 16));
    out.append(hex_digit(b % 16));
    assert(final(out)@ =~= old(out)@ + byte_hex(b));
}

/// The decimal digits of `n`, without leading zeros.
pub open spec fn decimal_text(n: nat) -> Seq<char>
    decreases n,
{
    if n < 10 {
        seq![hex_char(n as int)]
    } else {
        decimal_text(n / 10) + seq![hex_char(n as int % 10)]
    }
}

/// The last `w` decimal digits of `n`, zero-padded to width `w`.
pub open spec fn padded_text(n: nat, w: nat) -> Seq<char>
    decreases w,
{
    if w == 0 {
        Seq::empty()
    } else {
        padded_text(n / 10, (w - 1) as nat) + seq![hex_char(n as int % 10)]
    }
}

/// The fraction digits `n` of width `w`, trailing zeros dropped.
pub open spec fn trimmed_text(n: nat, w: nat) -> Seq<char>
    decreases w,
{
    if w > 0 && n % 10 == 0 {
        trimmed_text(n / 10, (w - 1) as nat)
    } else {
        padded_text(n, w)
    }
}

/// Appends the decimal digits of `n`.
pub fn push_decimal(out: &mut String, n: u64)
    ensures
        final(out)@ == old(out)@ + decimal_text(n as nat),
    decreases n,
{
    if n >= 10 {
        push_decimal(out, n / 10);
    }
    out.append(hex_digit((n % 10) as u8));
    assert(final(out)@ =~= old(out)@ + decimal_text(n as nat));
}

/// Appends the last `w` decimal digits of `n`, zero-padded.
pub fn push_padded(out: &mut String, n: u64, w: u32)
    ensures
        final(out)@ == old(out)@ + padded_text(n as nat, w as nat),
    decreases w,
{
    if w > 0 {
        push_padded(out, n / 10, w - 1);
        out.append(hex_digit((n % 10) as u8));
    }
    assert(final(out)@ =~= old(out)@ + padded_text(n as nat, w as nat));
}

/// Appends the fraction digits `n` of width `w` without trailing zeros.
pub fn push_trimmed(out: &mut String, n: u64, w: u32)
    ensures
        final(out)@ == old(out)@ + trimmed_text(n as nat, w as nat),
    decreases w,
{
    if w > 0 && n % 10 == 0 {
        push_trimmed(out, n / 10, w - 1);
    } else {
        push_padded(out, n, w);
    }
}

} // verus!
