//! Decimal integers: parsing as `str::parse` does, and formatting.

use crate::text::push_char;
use vstd::prelude::*;

verus! {

/// Whether `c` is an ASCII decimal digit.
pub open spec fn is_digit(c: char) -> bool {
    '0' <= c && c <= '9'
}

/// Whether `s` is a non-empty run of ASCII decimal digits.
pub open spec fn all_digits(s: Seq<char>) -> bool {
    s.len() > 0 && forall|i: int| 0 <= i < s.len() ==> is_digit(#[trigger] s[i])
}

/// The value of a digit character.
pub open spec fn digit_value(c: char) -> nat {
    ((c as u32) - ('0' as u32)) as nat
}

/// The value of a run of decimal digits.
pub open spec fn decimal_value(s: Seq<char>) -> nat
    decreases s.len(),
{
    if s.len() == 0 {
        0
    } else {
        decimal_value(s.drop_last()) * 10 + digit_value(s.last())
    }
}

/// The digits of an unsigned number, after an optional leading '+'.
pub open spec fn unsigned_digits(s: Seq<char>) -> Seq<char> {
    if s.len() > 0 && s[0] == '+' {
        s.drop_first()
    } else {
        s
    }
}

/// `s.parse::<u64>().ok()`: an optional '+', then at least one digit, with
/// the value in range.
pub open spec fn parse_u64_spec(s: Seq<char>) -> Option<u64> {
    let d = unsigned_digits(s);
    if all_digits(d) && decimal_value(d) <= u64::MAX {
        Some(decimal_value(d) as u64)
    } else {
        None
    }
}

/// `s.parse::<u32>().ok()`.
pub open spec fn parse_u32_spec(s: Seq<char>) -> Option<u32> {
    let d = unsigned_digits(s);
    if all_digits(d) && decimal_value(d) <= u32::MAX {
        Some(decimal_value(d) as u32)
    } else {
        None
    }
}

/// `s.parse::<i32>().ok()`: an optional sign, then at least one digit, with
/// the value in range.
pub open spec fn parse_i32_spec(s: Seq<char>) -> Option<i32> {
    if s.len() > 0 && s[0] == '-' {
        let d = s.drop_first();
        if all_digits(d) && decimal_value(d) <= 0x8000_0000 {
            Some((-(decimal_value(d) as int)) as i32)
        } else {
            None
        }
    } else {
        let d = unsigned_digits(s);
        if all_digits(d) && decimal_value(d) <= i32::MAX {
            Some(decimal_value(d) as i32)
        } else {
            None
        }
    }
}

/// A longer digit run is worth at least as much as its prefix.
pub proof fn lemma_decimal_value_monotone(s: Seq<char>, i: int)
    requires
        0 <= i <= s.len(),
    ensures
        decimal_value(s.take(i)) <= decimal_value(s),
    decreases s.len() - i,
{
    if i < s.len() {
        lemma_decimal_value_monotone(s, i + 1);
        assert(s.take(i + 1).drop_last() =~= s.take(i));
    } else {
        assert(s.take(i) =~= s);
    }
}

/// The value of `s` when it is a digit run of value at most `limit`.
fn digits_value(s: &Vec<char>, from: usize, limit: u64) -> (r: Option<u64>)
    requires
        from <= s.len(),
        limit >= 9,
    ensures
        match r {
            Some(v) => all_digits(s@.skip(from as int)) && decimal_value(s@.skip(from as int))
                <= limit && v == decimal_value(s@.skip(from as int)),
            None => !(all_digits(s@.skip(from as int)) && decimal_value(s@.skip(from as int))
                <= limit),
        },
{
    let ghost d = s@.skip(from as int);
    if from == s.len() {
        return None;
    }
    let mut acc: u64 = 0;
    let mut i: usize = from;
    proof {
        assert(d.take(0) =~= Seq::<char>::empty());
    }
    while i < s.len()
        invariant
            from <= i <= s.len(),
            from < s.len(),
            d == s@.skip(from as int),
            forall|j: int| 0 <= j < i - from ==> is_digit(#[trigger] d[j]),
            acc == decimal_value(d.take(i - from)),
            acc <= limit,
            limit >= 9,
        decreases s.len() - i,
    {
        let c = s[i];
        proof {
            assert(d[i - from] == c);
        }
        if !('0' <= c && c <= '9') {
            return None;
        }
        let dv = (c as u32 - '0' as u32) as u64;
        proof {
            assert(d.take(i - from + 1).drop_last() =~= d.take(i - from));
            assert(d.take(i - from + 1).last() == c);
            assert(decimal_value(d.take(i - from + 1)) == acc * 10 + dv);
        }
        if acc > limit / 10 {
            proof {
                assert(acc * 10 + dv > limit) by (nonlinear_arith)
                    requires
                        acc > limit / 10,
                ;
                lemma_decimal_value_monotone(d, i - from + 1);
            }
            return None;
        }
        proof {
            assert(acc * 10 <= limit) by (nonlinear_arith)
                requires
                    acc <= limit / 10,
            ;
        }
        if acc * 10 > limit - dv {
            proof {
                lemma_decimal_value_monotone(d, i - from + 1);
            }
            return None;
        }
        acc = acc * 10 + dv;
        i = i + 1;
    }
    proof {
        assert(d.take(i - from) =~= d);
    }
    Some(acc)
}

/// `s.parse::<u64>().ok()`.
pub fn parse_u64(s: &str) -> (r: Option<u64>)
    ensures
        r == parse_u64_spec(s@),
{
    let v = crate::text::chars_of(s);
    let from: usize = if v.len() > 0 && v[0] == '+' {
        1
    } else {
        0
    };
    proof {
        assert(unsigned_digits(s@) =~= s@.skip(from as int));
    }
    digits_value(&v, from, u64::MAX)
}

/// `s.parse::<u32>().ok()`.
pub fn parse_u32(s: &str) -> (r: Option<u32>)
    ensures
        r == parse_u32_spec(s@),
{
    let v = crate::text::chars_of(s);
    let from: usize = if v.len() > 0 && v[0] == '+' {
        1
    } else {
        0
    };
    proof {
        assert(unsigned_digits(s@) =~= s@.skip(from as int));
    }
    match digits_value(&v, from, u32::MAX as u64) {
        Some(x) => Some(x as u32),
        None => None,
    }
}

/// `s.parse::<i32>().ok()`.
pub fn parse_i32(s: &str) -> (r: Option<i32>)
    ensures
        r == parse_i32_spec(s@),
{
    let v = crate::text::chars_of(s);
    if v.len() > 0 && v[0] == '-' {
        proof {
            assert(s@.drop_first() =~= s@.skip(1));
        }
        match digits_value(&v, 1, 0x8000_0000) {
            Some(x) => {
                let r: i64 = -(x as i64);
                Some(r as i32)
            },
            None => None,
        }
    } else {
        let from: usize = if v.len() > 0 && v[0] == '+' {
            1
        } else {
            0
        };
        proof {
            assert(unsigned_digits(s@) =~= s@.skip(from as int));
        }
        match digits_value(&v, from, i32::MAX as u64) {
            Some(x) => Some(x as i32),
            None => None,
        }
    }
}

/// The character of a decimal digit value.
pub open spec fn digit_of(d: nat) -> char {
    (('0' as u32) + d) as char
}

/// The decimal representation of `n`, without leading zeros.
pub open spec fn decimal_string(n: nat) -> Seq<char>
    decreases n,
{
    if n < 10 {
        seq![digit_of(n)]
    } else {
        decimal_string(n / 10).push(digit_of(n % 10))
    }
}

/// `format!("{:02}", n)`: at least two digits, zero-padded.
pub open spec fn two_digit_string(n: nat) -> Seq<char> {
    if n < 10 {
        seq!['0', digit_of(n)]
    } else {
        decimal_string(n)
    }
}

/// `format!("{}", n)` for a signed number.
pub open spec fn signed_string(n: int) -> Seq<char> {
    if n < 0 {
        seq!['-'] + decimal_string((-n) as nat)
    } else {
        decimal_string(n as nat)
    }
}

fn digit_char_of(d: u64) -> (c: char)
    requires
        d < 10,
    ensures
        c == digit_of(d as nat),
{
    let b: u8 = (48 + d) as u8;
    let c = b as char;
    proof {
        assert(c == (48 + d) as char);
        assert(('0' as u32) == 48);
    }
    c
}

/// Appends the decimal representation of `n`.
pub fn push_decimal(s: &mut String, n: u64)
    ensures
        final(s)@ == old(s)@ + decimal_string(n as nat),
    decreases n,
{
    if n >= 10 {
        push_decimal(s, n / 10);
    }
    push_char(s, digit_char_of(n % 10));
    proof {
        if n >= 10 {
            assert(old(s)@ + decimal_string((n / 10) as nat) + seq![digit_of((n % 10) as nat)]
                =~= old(s)@ + decimal_string(n as nat));
        } else {
            assert(old(s)@.push(digit_of(n as nat)) =~= old(s)@ + decimal_string(n as nat));
        }
    }
}

/// Appends `n` zero-padded to two digits (`{:02}`).
pub fn push_two_digits(s: &mut String, n: u32)
    ensures
        final(s)@ == old(s)@ + two_digit_string(n as nat),
{
    if n < 10 {
        push_char(s, '0');
        push_char(s, digit_char_of(n as u64));
        proof {
            assert(old(s)@.push('0').push(digit_of(n as nat)) =~= old(s)@ + two_digit_string(
                n as nat,
            ));
        }
    } else {
        push_decimal(s, n as u64);
    }
}

/// Appends the decimal representation of the signed `n` (`{}`).
pub fn push_signed(s: &mut String, n: i32)
    ensures
        final(s)@ == old(s)@ + signed_string(n as int),
{
    if n < 0 {
        push_char(s, '-');
        let m: i64 = -(n as i64);
        push_decimal(s, m as u64);
        proof {
            assert(old(s)@.push('-') + decimal_string((-n) as nat) =~= old(s)@ + signed_string(
                n as int,
            ));
        }
    } else {
        push_decimal(s, n as u64);
    }
}

/// Appends `format!("{}", n)` for a 64-bit signed number.
pub fn push_i64(s: &mut String, n: i64)
    ensures
        final(s)@ == old(s)@ + signed_string(n as int),
{
    if n < 0 {
        push_char(s, '-');
        let m: u64 = ((-(n + 1)) as u64) + 1;
        push_decimal(s, m);
        proof {
            assert(m as int == -n);
            assert(old(s)@.push('-') + decimal_string((-n) as nat) =~= old(s)@ + signed_string(
                n as int,
            ));
        }
    } else {
        push_decimal(s, n as u64);
    }
}

} // verus!
