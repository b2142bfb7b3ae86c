//! Numbers as text.

use crate::text;
use vstd::prelude::*;
use vstd::slice::*;

verus! {

// ---- writing --------------------------------------------------------------------------------

/// The character of a digit below sixteen, in lower case.
pub open spec fn digit_char(d: nat) -> char {
    if d < 10 {
        ('0' as u32 + d) as char
    } else {
        ('a' as u32 + (d - 10)) as char
    }
}

/// `n` in decimal, without leading zeros.
pub open spec fn decimal(n: nat) -> Seq<char>
    decreases n,
{
    if n < 10 {
        seq![digit_char(n)]
    } else {
        decimal(n / 10).push(digit_char(n % 10))
    }
}

/// The character of a digit below sixteen.
pub fn digit_as_char(d: u8) -> (r: char)
    requires
        d < 16,
    ensures
        r == digit_char(d as nat),
{
    if d < 10 {
        (48u8 + d) as char
    } else {
        (97u8 + (d - 10)) as char
    }
}

/// Writes `n` in decimal.
pub fn decimal_text(n: u64) -> (r: String)
    ensures
        r@ == decimal(n as nat),
{
    let cs = decimal_chars(n);
    text::to_text(cs.as_slice())
}

/// The decimal digits of `n`.
pub fn decimal_chars(n: u64) -> (r: Vec<char>)
    ensures
        r@ == decimal(n as nat),
    decreases n,
{
    if n < 10 {
        let mut out: Vec<char> = Vec::new();
        out.push(digit_as_char(n as u8));
        out
    } else {
        let mut out = decimal_chars(n / 10);
        out.push(digit_as_char((n % 10) as u8));
        out
    }
}

/// `n`, which is below 256, as four hexadecimal digits.
pub open spec fn hex4(n: nat) -> Seq<char> {
    seq!['0', '0', digit_char(n / 16), digit_char(n % 16)]
}

/// Writes `n` as four hexadecimal digits.
pub fn hex4_chars(n: u8) -> (r: Vec<char>)
    ensures
        r@ == hex4(n as nat),
{
    let mut out: Vec<char> = Vec::new();
    out.push('0');
    out.push('0');
    out.push(digit_as_char(n / 16));
    out.push(digit_as_char(n % 16));
    out
}

// ---- reading --------------------------------------------------------------------------------

/// The value of `c` as a digit to the base `radix`.
pub open spec fn digit_value(c: char, radix: nat) -> Option<nat> {
    let n = c as u32 as int;
    let v = if '0' <= c && c <= '9' {
        n - '0' as u32
    } else if 'a' <= c && c <= 'f' {
        n - 'a' as u32 + 10
    } else if 'A' <= c && c <= 'F' {
        n - 'A' as u32 + 10
    } else {
        radix as int
    };
    if v < radix {
        Some(v as nat)
    } else {
        None
    }
}

/// Whether `s` is a number to the base `radix`: at least one digit and nothing else.
pub open spec fn is_number(s: Seq<char>, radix: nat) -> bool {
    s.len() > 0 && forall|i: int| 0 <= i < s.len() ==> digit_value(#[trigger] s[i], radix) is Some
}

/// The number whose digits to the base `radix` are `s`.
pub open spec fn number_value(s: Seq<char>, radix: nat) -> nat
    decreases s.len(),
{
    if s.len() == 0 {
        0
    } else {
        number_value(s.drop_last(), radix) * radix + digit_value(s.last(), radix)->0
    }
}

/// `s` without the plus sign that an unsigned number may begin with.
pub open spec fn unsigned_digits(s: Seq<char>) -> Seq<char> {
    if s.len() > 0 && s[0] == '+' {
        s.skip(1)
    } else {
        s
    }
}

/// The unsigned number that `s` writes to the base `radix`, where it writes one that is not above
/// `max`.
pub open spec fn unsigned_value(s: Seq<char>, radix: nat, max: nat) -> Option<nat> {
    let d = unsigned_digits(s);
    if is_number(d, radix) && number_value(d, radix) <= max {
        Some(number_value(d, radix))
    } else {
        None
    }
}

/// The number that `s` writes in decimal as an `i32`, where it writes one.
pub open spec fn i32_value(s: Seq<char>) -> Option<int> {
    if s.len() > 0 && s[0] == '-' {
        let d = s.skip(1);
        if is_number(d, 10) && number_value(d, 10) <= 0x8000_0000 {
            Some(-(number_value(d, 10) as int))
        } else {
            None
        }
    } else {
        match unsigned_value(s, 10, 0x7fff_ffff) {
            Some(v) => Some(v as int),
            None => None,
        }
    }
}

/// The value of `c` as a digit, or none.
pub fn char_as_digit(c: char, radix: u32) -> (r: Option<u32>)
    requires
        radix == 10 || radix == 16,
    ensures
        match r {
            Some(v) => digit_value(c, radix as nat) == Some(v as nat) && v < radix,
            None => digit_value(c, radix as nat) is None,
        },
{
    let n = c as u32;
    let v: u32 = if '0' <= c && c <= '9' {
        n - '0' as u32
    } else if 'a' <= c && c <= 'f' {
        n - 'a' as u32 + 10
    } else if 'A' <= c && c <= 'F' {
        n - 'A' as u32 + 10
    } else {
        radix
    };
    if v < radix {
        Some(v)
    } else {
        None
    }
}

proof fn number_value_grows(s: Seq<char>, i: int, radix: nat)
    requires
        0 <= i <= s.len(),
        radix > 0,
    ensures
        number_value(s.take(i), radix) <= number_value(s, radix),
    decreases s.len(),
{
    if i == s.len() {
        assert(s.take(i) =~= s);
    } else {
        assert(s.drop_last().take(i) =~= s.take(i));
        number_value_grows(s.drop_last(), i, radix);
        let v = number_value(s.drop_last(), radix);
        assert(v * radix >= v) by (nonlinear_arith)
            requires
                radix > 0,
        ;
    }
}

/// Reads digits to the base `radix`, up to `max`.
pub fn read_number(s: &[char], radix: u32, max: u64) -> (r: Option<u64>)
    requires
        radix == 10 || radix == 16,
    ensures
        match r {
            Some(v) => is_number(s@, radix as nat) && v == number_value(s@, radix as nat) && v
                <= max,
            None => !is_number(s@, radix as nat) || number_value(s@, radix as nat) > max,
        },
{
    if s.len() == 0 {
        return None;
    }
    let mut v: u64 = 0;
    let mut i: usize = 0;
    while i < s.len()
        invariant
            radix == 10 || radix == 16,
            i <= s@.len(),
            forall|j: int| 0 <= j < i ==> digit_value(#[trigger] s@[j], radix as nat) is Some,
            v == number_value(s@.take(i as int), radix as nat),
            v <= max,
        decreases s@.len() - i,
    {
        match char_as_digit(s[i], radix) {
            None => {
                return None;
            },
            Some(d) => {
                let next: u128 = if radix == 10 {
                    v as u128 * 10 + d as u128
                } else {
                    v as u128 * 16 + d as u128
                };
                proof {
                    assert(s@.take(i + 1).drop_last() =~= s@.take(i as int));
                    number_value_grows(s@, i + 1, radix as nat);
                }
                if next > max as u128 {
                    return None;
                }
                v = next as u64;
            },
        }
        i += 1;
    }
    assert(s@.take(i as int) =~= s@);
    Some(v)
}

/// Reads an unsigned number, up to `max`, with or without a plus sign.
pub fn read_unsigned(s: &[char], radix: u32, max: u64) -> (r: Option<u64>)
    requires
        radix == 10 || radix == 16,
    ensures
        match r {
            Some(v) => unsigned_value(s@, radix as nat, max as nat) == Some(v as nat) && v <= max,
            None => unsigned_value(s@, radix as nat, max as nat) is None,
        },
{
    if s.len() > 0 && s[0] == '+' {
        read_number(slice_subrange(s, 1, s.len()), radix, max)
    } else {
        read_number(s, radix, max)
    }
}

/// Reads a decimal `u32`.
pub fn read_u32(s: &[char]) -> (r: Option<u32>)
    ensures
        match r {
            Some(v) => unsigned_value(s@, 10, u32::MAX as nat) == Some(v as nat),
            None => unsigned_value(s@, 10, u32::MAX as nat) is None,
        },
{
    match read_unsigned(s, 10, 0xffff_ffff) {
        Some(v) => Some(v as u32),
        None => None,
    }
}

/// Reads a decimal `i32`.
pub fn read_i32(s: &[char]) -> (r: Option<i32>)
    ensures
        match r {
            Some(v) => i32_value(s@) == Some(v as int),
            None => i32_value(s@) is None,
        },
{
    if s.len() > 0 && s[0] == '-' {
        match read_number(slice_subrange(s, 1, s.len()), 10, 0x8000_0000) {
            Some(v) => Some((0 - v as i64) as i32),
            None => None,
        }
    } else {
        match read_unsigned(s, 10, 0x7fff_ffff) {
            Some(v) => Some(v as i32),
            None => None,
        }
    }
}

/// Reading a number that was written in decimal gives the number back.
pub proof fn decimal_reads_back(n: nat)
    ensures
        is_number(decimal(n), 10),
        number_value(decimal(n), 10) == n,
        decimal(n)[0] != '+',
        unsigned_value(decimal(n), 10, n) == Some(n),
    decreases n,
{
    if n < 10 {
        assert(decimal(n).drop_last() =~= Seq::empty());
        assert(number_value(decimal(n).drop_last(), 10) == 0);
        assert(digit_value(digit_char(n), 10) == Some(n));
    } else {
        decimal_reads_back(n / 10);
        let d = decimal(n);
        assert(d.drop_last() =~= decimal(n / 10));
        assert(digit_value(digit_char(n % 10), 10) == Some(n % 10));
        assert forall|i: int| 0 <= i < d.len() implies digit_value(#[trigger] d[i], 10) is Some by {
            if i < d.len() - 1 {
                assert(d[i] == decimal(n / 10)[i]);
            }
        }
        assert(d[0] == decimal(n / 10)[0]);
    }
}

} // verus!
