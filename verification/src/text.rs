//! Numbers as text, for listings and diagnostics.

use vstd::prelude::*;
use vstd::string::StringExecFns;

verus! {

/// The character for the digit `d` in bases up to sixteen.
pub open spec fn digit_char(d: int) -> char {
    if d == 0 {
        '0'
    } else if d == 1 {
        '1'
    } else if d == 2 {
        '2'
    } else if d == 3 {
        '3'
    } else if d == 4 {
        '4'
    } else if d == 5 {
        '5'
    } else if d == 6 {
        '6'
    } else if d == 7 {
        '7'
    } else if d == 8 {
        '8'
    } else if d == 9 {
        '9'
    } else if d == 10 {
        'a'
    } else if d == 11 {
        'b'
    } else if d == 12 {
        'c'
    } else if d == 13 {
        'd'
    } else if d == 14 {
        'e'
    } else {
        'f'
    }
}

/// The digits of `n` in base sixteen, the most significant first, without
/// leading zeros.
pub open spec fn hex_digits(n: nat) -> Seq<char>
    decreases n,
{
    if n < 16 {
        seq![digit_char(n as int)]
    } else {
        hex_digits(n / 16).push(digit_char((n % 16) as int))
    }
}

/// The digits of `n` in base ten, the most significant first, without
/// leading zeros.
pub open spec fn decimal_digits(n: nat) -> Seq<char>
    decreases n,
{
    if n < 10 {
        seq![digit_char(n as int)]
    } else {
        decimal_digits(n / 10).push(digit_char((n % 10) as int))
    }
}

/// `n` in base ten, with a minus sign where it is negative.
pub open spec fn decimal_text(n: int) -> Seq<char> {
    if n < 0 {
        seq!['-'] + decimal_digits((-n) as nat)
    } else {
        decimal_digits(n as nat)
    }
}

/// `digits` with zeros before it until it has four characters.
pub open spec fn padded_to_four(digits: Seq<char>) -> Seq<char> {
    if digits.len() >= 4 {
        digits
    } else {
        Seq::new((4 - digits.len()) as nat, |i: int| '0') + digits
    }
}

/// The text of the digit `d`.
fn digit_text(d: usize) -> (s: &'static str)
    requires
        d < 16,
    ensures
        s@ == seq![digit_char(d as int)],
{
    proof {
        reveal_strlit("0");
        reveal_strlit("1");
        reveal_strlit("2");
        reveal_strlit("3");
        reveal_strlit("4");
        reveal_strlit("5");
        reveal_strlit("6");
        reveal_strlit("7");
        reveal_strlit("8");
        reveal_strlit("9");
        reveal_strlit("a");
        reveal_strlit("b");
        reveal_strlit("c");
        reveal_strlit("d");
        reveal_strlit("e");
        reveal_strlit("f");
    }
    let s = match d {
        0 => "0",
        1 => "1",
        2 => "2",
        3 => "3",
        4 => "4",
        5 => "5",
        6 => "6",
        7 => "7",
        8 => "8",
        9 => "9",
        10 => "a",
        11 => "b",
        12 => "c",
        13 => "d",
        14 => "e",
        _ => "f",
    };
    s
}

/// Appends `n` in base sixteen to `out`.
pub fn push_hex(out: &mut String, n: usize)
    ensures
        final(out)@ == old(out)@ + hex_digits(n as nat),
    decreases n,
{
    if n >= 16 {
        push_hex(out, n / 16);
    }
    out.append(digit_text(n % 16));
}

/// Appends `n` in base ten to `out`.
pub fn push_decimal_digits(out: &mut String, n: usize)
    ensures
        final(out)@ == old(out)@ + decimal_digits(n as nat),
    decreases n,
{
    if n >= 10 {
        push_decimal_digits(out, n / 10);
    }
    out.append(digit_text(n % 10));
}

/// Appends `n` in base ten to `out`, with a minus sign where it is negative.
pub fn push_decimal(out: &mut String, n: isize)
    ensures
        final(out)@ == old(out)@ + decimal_text(n as int),
{
    if n < 0 {
        proof {
            reveal_strlit("-");
        }
        out.append("-");
        let magnitude: usize = ((-(n + 1)) as usize) + 1;
        push_decimal_digits(out, magnitude);
    } else {
        push_decimal_digits(out, n as usize);
    }
}

/// Number of digits of `n` in base sixteen, counted up to four.
fn hex_width(n: usize) -> (w: usize)
    ensures
        1 <= w <= 4,
        w < 4 ==> hex_digits(n as nat).len() == w,
        w == 4 ==> hex_digits(n as nat).len() >= 4,
{
    proof {
        reveal_with_fuel(hex_digits, 5);
        lemma_hex_len(n as nat / 0x1000);
    }
    if n < 0x10 {
        1
    } else if n < 0x100 {
        2
    } else if n < 0x1000 {
        3
    } else {
        4
    }
}

proof fn lemma_hex_len(n: nat)
    ensures
        hex_digits(n).len() >= 1,
    decreases n,
{
    if n >= 16 {
        lemma_hex_len(n / 16);
    }
}

/// Appends `n` in base sixteen to `out`, with zeros before it until it has
/// four digits.
pub fn push_hex_padded(out: &mut String, n: usize)
    ensures
        final(out)@ == old(out)@ + padded_to_four(hex_digits(n as nat)),
{
    let width = hex_width(n);
    let mut i: usize = width;
    proof {
        reveal_strlit("0");
    }
    while i < 4
        invariant
            width <= i <= 4,
            out@ == old(out)@ + Seq::new((i - width) as nat, |k: int| '0'),
        decreases 4 - i,
    {
        out.append("0");
        proof {
            reveal_strlit("0");
        }
        i += 1;
    }
    push_hex(out, n);
}

} // verus!
