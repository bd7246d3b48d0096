//! Unsigned integer literals: reading them in base two or ten, and writing
//! them in base ten.

use vstd::prelude::*;
use vstd::slice::slice_subrange;

verus! {

/// The value of `c` as a digit in base `radix` (at most ten), if it is one.
pub open spec fn digit_value(c: char, radix: nat) -> Option<nat> {
    let d = c as u32 - 0x30;
    if 0 <= d < radix && d < 10 {
        Some(d as nat)
    } else {
        None
    }
}

/// Whether every character of `s` is a digit in base `radix`.
pub open spec fn all_digits(s: Seq<char>, radix: nat) -> bool {
    forall|i: int| 0 <= i < s.len() ==> (#[trigger] digit_value(s[i], radix)) is Some
}

/// The number that the digits `s` write in base `radix`, most significant
/// digit first.
pub open spec fn digits_value(s: Seq<char>, radix: nat) -> nat
    decreases s.len(),
{
    if s.len() == 0 {
        0
    } else {
        digits_value(s.drop_last(), radix) * radix + digit_value(s.last(), radix).unwrap()
    }
}

/// `s` without one leading plus sign.
pub open spec fn unsigned_part(s: Seq<char>) -> Seq<char> {
    if s.len() > 0 && s[0] == '+' {
        s.drop_first()
    } else {
        s
    }
}

/// The number that the literal `s` writes in base `radix`: an optional plus
/// sign, then one or more digits and nothing else.
pub open spec fn literal_value(s: Seq<char>, radix: nat) -> Option<nat> {
    let d = unsigned_part(s);
    if d.len() > 0 && all_digits(d, radix) {
        Some(digits_value(d, radix))
    } else {
        None
    }
}

/// The value of the literal `s` in base `radix`, provided it is a literal and
/// its value is at most `max`.
pub open spec fn bounded_value(s: Seq<char>, radix: nat, max: nat) -> Option<nat> {
    match literal_value(s, radix) {
        Some(v) => if v <= max {
            Some(v)
        } else {
            None
        },
        None => None,
    }
}

/// What a 32-bit word list item or a 32-bit decimal literal stands for.
pub open spec fn decimal_u32(s: Seq<char>) -> Option<nat> {
    bounded_value(s, 10, u32::MAX as nat)
}

/// What an 8-bit decimal literal stands for.
pub open spec fn decimal_u8(s: Seq<char>) -> Option<nat> {
    bounded_value(s, 10, u8::MAX as nat)
}

/// What a 32-bit binary literal stands for.
pub open spec fn binary_u32(s: Seq<char>) -> Option<nat> {
    bounded_value(s, 2, u32::MAX as nat)
}

/// The character that writes the digit `d`.
pub open spec fn digit_char(d: int) -> char {
    if d == 0 {
        '0'
    } else if d == 1 {
        '1'
    } else if d == 2 {
        '2'
    } else if d == 3 {
        '3'
    } else if d == 4 {
        '4'
    } else if d == 5 {
        '5'
    } else if d == 6 {
        '6'
    } else if d == 7 {
        '7'
    } else if d == 8 {
        '8'
    } else {
        '9'
    }
}

/// `n` written in base ten, without sign or leading zeros.
pub open spec fn decimal(n: nat) -> Seq<char>
    decreases n,
{
    if n < 10 {
        seq![digit_char(n as int)]
    } else {
        decimal(n / 10).push(digit_char((n % 10) as int))
    }
}

/// A written number is made of decimal digits, at least one, and they write
/// that number.
pub proof fn lemma_decimal_digits(n: nat)
    ensures
        decimal(n).len() > 0,
        decimal(n)[0] != '+',
        all_digits(decimal(n), 10),
        digits_value(decimal(n), 10) == n,
    decreases n,
{
    let written = decimal(n);
    if n < 10 {
        assert(digit_value(digit_char(n as int), 10) == Some(n));
        assert(written.drop_last() =~= Seq::<char>::empty());
        assert(digits_value(written.drop_last(), 10) == 0);
    } else {
        let head = decimal(n / 10);
        let last = digit_char((n % 10) as int);
        lemma_decimal_digits(n / 10);
        assert(digit_value(last, 10) == Some(n % 10));
        assert(written.drop_last() =~= head);
        assert(written[0] == head[0]);
        assert forall|i: int| 0 <= i < written.len() implies (#[trigger] digit_value(
            written[i],
            10,
        )) is Some by {
            if i < head.len() {
                assert(written[i] == head[i]);
            }
        }
    }
}

/// A number that is written and read again is the same number.
pub proof fn law_decimal_round_trip(n: nat)
    ensures
        literal_value(decimal(n), 10) == Some(n),
        n <= u32::MAX ==> decimal_u32(decimal(n)) == Some(n),
        n <= u8::MAX ==> decimal_u8(decimal(n)) == Some(n),
{
    lemma_decimal_digits(n);
}

/// A literal is made of digits, but for a plus sign that may stand first.
pub proof fn lemma_literal_chars(s: Seq<char>, radix: nat)
    requires
        literal_value(s, radix) is Some,
    ensures
        forall|i: int|
            0 <= i < s.len() ==> (#[trigger] s[i]) == '+' || digit_value(s[i], radix) is Some,
{
    let digits = unsigned_part(s);
    assert forall|i: int| 0 <= i < s.len() implies (#[trigger] s[i]) == '+' || digit_value(
        s[i],
        radix,
    ) is Some by {
        if s[0] == '+' {
            if i > 0 {
                assert(digits[i - 1] == s[i]);
                assert(digit_value(digits[i - 1], radix) is Some);
            }
        } else {
            assert(digit_value(digits[i], radix) is Some);
        }
    }
}

/// The digit that `c` writes in base `radix`.
pub fn digit_of(c: char, radix: u32) -> (r: Option<u32>)
    requires
        radix <= 10,
    ensures
        match r {
            Some(d) => digit_value(c, radix as nat) == Some(d as nat),
            None => digit_value(c, radix as nat) is None,
        },
{
    let n: u32 = c as u32;
    if n >= 0x30 && n - 0x30 < radix {
        Some(n - 0x30)
    } else {
        None
    }
}

/// Reads the literal `s` in base `radix`, accepting values up to `max`.
pub fn parse_unsigned(s: &[char], radix: u32, max: u32) -> (r: Option<u32>)
    requires
        2 <= radix <= 10,
    ensures
        match r {
            Some(v) => bounded_value(s@, radix as nat, max as nat) == Some(v as nat),
            None => bounded_value(s@, radix as nat, max as nat) is None,
        },
{
    let digits = if s.len() > 0 && s[0] == '+' {
        slice_subrange(s, 1, s.len())
    } else {
        s
    };
    assert(digits@ =~= unsigned_part(s@));
    if digits.len() == 0 {
        return None;
    }
    let mut acc: u64 = 0;
    let mut over = false;
    let mut i: usize = 0;
    while i < digits.len()
        invariant
            i <= digits.len(),
            2 <= radix <= 10,
            digits@ == unsigned_part(s@),
            digits@.len() > 0,
            all_digits(digits@.take(i as int), radix as nat),
            !over ==> acc == digits_value(digits@.take(i as int), radix as nat) && acc <= max,
            over ==> digits_value(digits@.take(i as int), radix as nat) > max,
        decreases digits.len() - i,
    {
        let ghost before = digits@.take(i as int);
        let ghost now = digits@.take(i + 1);
        assert(now.drop_last() =~= before);
        match digit_of(digits[i], radix) {
            None => {
                assert(digit_value(digits@[i as int], radix as nat) is None);
                return None;
            },
            Some(d) => {
                assert forall|j: int| 0 <= j < now.len() implies (#[trigger] digit_value(
                    now[j],
                    radix as nat,
                )) is Some by {
                    if j < i {
                        assert(now[j] == before[j]);
                    }
                }
                if !over {
                    assert(acc * radix + d <= 0xffff_ffff * 10 + 9) by (nonlinear_arith)
                        requires
                            acc <= 0xffff_ffff,
                            radix <= 10,
                            d <= 9,
                    ;
                    acc = acc * (radix as u64) + (d as u64);
                    if acc > max as u64 {
                        over = true;
                    }
                } else {
                    proof {
                        let a = digits_value(before, radix as nat);
                        assert(a * radix + d >= a) by (nonlinear_arith)
                            requires
                                a >= 0,
                                radix >= 1,
                                d >= 0,
                        ;
                    }
                }
            },
        }
        i += 1;
    }
    assert(digits@.take(digits.len() as int) =~= digits@);
    if over {
        None
    } else {
        Some(acc as u32)
    }
}

/// Reads a decimal literal that fits in 32 bits.
pub fn parse_u32(s: &[char]) -> (r: Option<u32>)
    ensures
        match r {
            Some(v) => decimal_u32(s@) == Some(v as nat),
            None => decimal_u32(s@) is None,
        },
{
    parse_unsigned(s, 10, u32::MAX)
}

/// Reads a decimal literal that fits in 8 bits.
pub fn parse_u8(s: &[char]) -> (r: Option<u8>)
    ensures
        match r {
            Some(v) => decimal_u8(s@) == Some(v as nat),
            None => decimal_u8(s@) is None,
        },
{
    match parse_unsigned(s, 10, 255) {
        Some(v) => Some(v as u8),
        None => None,
    }
}

/// Reads a binary literal that fits in 32 bits.
pub fn parse_binary(s: &[char]) -> (r: Option<u32>)
    ensures
        match r {
            Some(v) => binary_u32(s@) == Some(v as nat),
            None => binary_u32(s@) is None,
        },
{
    parse_unsigned(s, 2, u32::MAX)
}

/// The character that writes the digit `d`.
pub fn digit_to_char(d: u8) -> (c: char)
    requires
        d < 10,
    ensures
        c == digit_char(d as int),
{
    if d == 0 {
        '0'
    } else if d == 1 {
        '1'
    } else if d == 2 {
        '2'
    } else if d == 3 {
        '3'
    } else if d == 4 {
        '4'
    } else if d == 5 {
        '5'
    } else if d == 6 {
        '6'
    } else if d == 7 {
        '7'
    } else if d == 8 {
        '8'
    } else {
        '9'
    }
}

/// Appends `n`, written in base ten, to `out`.
pub fn push_decimal(out: &mut Vec<char>, n: u64)
    ensures
        final(out)@ == old(out)@ + decimal(n as nat),
    decreases n,
{
    if n >= 10 {
        push_decimal(out, n / 10);
    }
    out.push(digit_to_char((n % 10) as u8));
    proof {
        let head = decimal((n / 10) as nat);
        let last = digit_char((n % 10) as int);
        if n >= 10 {
            assert(final(out)@ =~= old(out)@ + head.push(last));
        } else {
            assert(final(out)@ =~= old(out)@ + seq![last]);
        }
    }
}

/// `n` written in base ten.
pub fn to_decimal(n: u64) -> (r: Vec<char>)
    ensures
        r@ == decimal(n as nat),
{
    let mut out: Vec<char> = Vec::new();
    push_decimal(&mut out, n);
    assert(out@ =~= decimal(n as nat));
    out
}

} // verus!
