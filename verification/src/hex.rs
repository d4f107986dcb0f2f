//! Numbers as lower-case hexadecimal text.

use vstd::prelude::*;

verus! {

/// The hexadecimal digit of a number below sixteen.
pub open spec fn hex_digit(d: int) -> char {
    if d == 0 {
        '0'
    } else if d == 1 {
        '1'
    } else if d == 2 {
        '2'
    } else if d == 3 {
        '3'
    } else if d == 4 {
        '4'
    } else if d == 5 {
        '5'
    } else if d == 6 {
        '6'
    } else if d == 7 {
        '7'
    } else if d == 8 {
        '8'
    } else if d == 9 {
        '9'
    } else if d == 10 {
        'a'
    } else if d == 11 {
        'b'
    } else if d == 12 {
        'c'
    } else if d == 13 {
        'd'
    } else if d == 14 {
        'e'
    } else {
        'f'
    }
}

/// The hexadecimal digits of `n`, the most significant first, without
/// leading zeros; a single `0` for zero.
pub open spec fn hex_digits(n: nat) -> Seq<char>
    decreases n,
{
    if n < 16 {
        seq![hex_digit(n as int)]
    } else {
        hex_digits(n / 16).push(hex_digit((n % 16) as int))
    }
}

/// The digits of `low`, given the least significant first, as text with the
/// most significant first.
pub open spec fn digits_reversed(low: Seq<u8>) -> Seq<char> {
    Seq::new(low.len(), |i: int| hex_digit(low[low.len() - 1 - i] as int))
}

fn digit_text(d: u8) -> (text: &'static str)
    requires
        d < 16,
    ensures
        text@ == seq![hex_digit(d as int)],
{
    proof {
        reveal_strlit("0");
        reveal_strlit("1");
        reveal_strlit("2");
        reveal_strlit("3");
        reveal_strlit("4");
        reveal_strlit("5");
        reveal_strlit("6");
        reveal_strlit("7");
        reveal_strlit("8");
        reveal_strlit("9");
        reveal_strlit("a");
        reveal_strlit("b");
        reveal_strlit("c");
        reveal_strlit("d");
        reveal_strlit("e");
        reveal_strlit("f");
    }
    let text: &'static str = match d {
        0 => "0",
        1 => "1",
        2 => "2",
        3 => "3",
        4 => "4",
        5 => "5",
        6 => "6",
        7 => "7",
        8 => "8",
        9 => "9",
        10 => "a",
        11 => "b",
        12 => "c",
        13 => "d",
        14 => "e",
        _ => "f",
    };
    assert(text@ =~= seq![hex_digit(d as int)]);
    text
}

/// Writes a number in lower-case hexadecimal, without prefix or leading
/// zeros.
pub fn to_hex(n: u128) -> (text: String)
    ensures
        text@ == hex_digits(n as nat),
{
    let mut low: Vec<u8> = Vec::new();
    let mut rest: u128 = n;
    while rest >= 16
        invariant
            hex_digits(n as nat) == hex_digits(rest as nat) + digits_reversed(low@),
            forall|i: int| 0 <= i < low.len() ==> low@[i] < 16,
        decreases rest,
    {
        let ghost before = low@;
        low.push((rest % 16) as u8);
        proof {
            assert(digits_reversed(low@) =~= seq![hex_digit((rest % 16) as int)] + digits_reversed(
                before,
            ));
            assert(hex_digits(rest as nat) == hex_digits((rest / 16) as nat).push(
                hex_digit((rest % 16) as int),
            ));
            assert(hex_digits((rest / 16) as nat).push(hex_digit((rest % 16) as int))
                + digits_reversed(before) =~= hex_digits((rest / 16) as nat) + digits_reversed(
                low@,
            ));
        }
        rest = rest / 16;
    }
    let mut text: String = String::from_str(digit_text(rest as u8));
    let mut k: usize = low.len();
    while k > 0
        invariant
            k <= low.len(),
            forall|i: int| 0 <= i < low.len() ==> low@[i] < 16,
            text@ == hex_digits(rest as nat) + digits_reversed(low@).subrange(0, low.len() - k),
        decreases k,
    {
        k = k - 1;
        let ghost before = text@;
        text.append(digit_text(low[k]));
        assert(text@ =~= hex_digits(rest as nat) + digits_reversed(low@).subrange(
            0,
            low.len() - k,
        ));
    }
    assert(digits_reversed(low@).subrange(0, low.len() as int) =~= digits_reversed(low@));
    text
}

} // verus!
