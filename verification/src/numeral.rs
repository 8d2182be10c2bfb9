//! Decimal numerals: the mathematical value of a digit string, and verified
//! parsers for the integer widths the library supports.
//!
//! A numeral is an optional sign followed by one or more ASCII digits, with
//! no other characters. Unsigned targets accept an optional `+`; signed
//! targets accept `+` or `-`. A numeral whose value does not fit the target
//! width is rejected, just like a malformed one.

use vstd::prelude::*;

verus! {

/// Whether the character is an ASCII decimal digit.
pub open spec fn is_digit(c: char) -> bool {
    '0' <= c && c <= '9'
}

/// Numeric value of a single decimal digit.
pub open spec fn digit_val(c: char) -> nat
    recommends
        is_digit(c),
{
    (c as nat - '0' as nat) as nat
}

/// Whether every character of the sequence is a decimal digit.
pub open spec fn all_digits(s: Seq<char>) -> bool {
    forall|i: int| 0 <= i < s.len() ==> is_digit(s[i])
}

/// The value of a digit string read in base ten.
pub open spec fn digits_val(s: Seq<char>) -> nat
    decreases s.len(),
{
    if s.len() == 0 {
        0
    } else {
        digits_val(s.drop_last()) * 10 + digit_val(s.last())
    }
}

/// The value of an unsigned numeral: an optional `+` then one or more
/// digits. `None` when the text has any other shape.
pub open spec fn unsigned_numeral_val(s: Seq<char>) -> Option<nat> {
    let body = if s.len() > 0 && s[0] == '+' {
        s.skip(1)
    } else {
        s
    };
    if body.len() > 0 && all_digits(body) {
        Some(digits_val(body))
    } else {
        None
    }
}

/// The value of a signed numeral: an optional `+` or `-` then one or more
/// digits. `None` when the text has any other shape.
pub open spec fn signed_numeral_val(s: Seq<char>) -> Option<int> {
    if s.len() > 0 && s[0] == '-' {
        let body = s.skip(1);
        if body.len() > 0 && all_digits(body) {
            Some(-(digits_val(body) as int))
        } else {
            None
        }
    } else {
        match unsigned_numeral_val(s) {
            Some(v) => Some(v as int),
            None => None,
        }
    }
}

/// Reads one digit character as a number.
fn char_digit(c: char) -> (d: u64)
    requires
        is_digit(c),
    ensures
        d == digit_val(c),
        d <= 9,
{
    ((c as u8) - 48) as u64
}

/// Tests whether a character is a decimal digit.
pub fn digit_check(c: char) -> (r: bool)
    ensures
        r == is_digit(c),
{
    '0' <= c && c <= '9'
}

/// A longer digit string never has a smaller value.
proof fn lemma_digits_prefix_le(s: Seq<char>, k: int)
    requires
        0 <= k <= s.len(),
    ensures
        digits_val(s.take(k)) <= digits_val(s),
    decreases s.len() - k,
{
    if k == s.len() {
        assert(s.take(k) =~= s);
    } else {
        assert(s.take(k + 1).drop_last() =~= s.take(k));
        assert(digits_val(s.take(k + 1)) == digits_val(s.take(k)) * 10 + digit_val(s[k]));
        lemma_digits_prefix_le(s, k + 1);
    }
}

/// Reads the digits of `s` from position `from` to the end as a base-ten
/// value that fits in a `u64`.
fn digits_to_u64(s: &str, from: usize) -> (r: Option<u64>)
    requires
        from <= s@.len(),
    ensures
        ({
            let body = s@.skip(from as int);
            match r {
                Some(v) => body.len() > 0 && all_digits(body) && digits_val(body) == v,
                None => !(body.len() > 0 && all_digits(body) && digits_val(body) <= u64::MAX),
            }
        }),
{
    let n = s.unicode_len();
    if from >= n {
        return None;
    }
    let mut acc: u64 = 0;
    let mut i: usize = from;
    while i < n
        invariant
            from <= i <= n,
            n == s@.len(),
            all_digits(s@.subrange(from as int, i as int)),
            acc == digits_val(s@.subrange(from as int, i as int)),
        decreases n - i,
    {
        let c = s.get_char(i);
        if !digit_check(c) {
            proof {
                assert(s@.skip(from as int)[i - from] == s@[i as int]);
            }
            return None;
        }
        let d = char_digit(c);
        if acc > 1844674407370955161 || (acc == 1844674407370955161 && d > 5) {
            proof {
                let body = s@.skip(from as int);
                let pre = s@.subrange(from as int, i + 1);
                assert(pre.drop_last() =~= s@.subrange(from as int, i as int));
                assert(digits_val(pre) == acc * 10 + d);
                assert(digits_val(pre) > u64::MAX);
                assert(body.take(i + 1 - from) =~= pre);
                lemma_digits_prefix_le(body, i + 1 - from);
            }
            return None;
        }
        proof {
            let pre = s@.subrange(from as int, i + 1);
            assert(pre.drop_last() =~= s@.subrange(from as int, i as int));
            assert(digits_val(pre) == acc * 10 + d);
        }
        acc = acc * 10 + d;
        i = i + 1;
    }
    proof {
        assert(s@.subrange(from as int, n as int) =~= s@.skip(from as int));
    }
    Some(acc)
}

/// Parses an unsigned 64-bit numeral, as the spec sees it.
pub open spec fn parse_u64_spec(s: Seq<char>) -> Option<u64> {
    match unsigned_numeral_val(s) {
        Some(v) => if v <= u64::MAX {
            Some(v as u64)
        } else {
            None
        },
        None => None,
    }
}

/// Parses an unsigned 64-bit numeral.
pub fn parse_u64(s: &str) -> (r: Option<u64>)
    ensures
        r == parse_u64_spec(s@),
{
    let n = s.unicode_len();
    if n > 0 && s.get_char(0) == '+' {
        digits_to_u64(s, 1)
    } else {
        proof {
            assert(s@.skip(0) =~= s@);
        }
        digits_to_u64(s, 0)
    }
}

/// Parses a signed 64-bit numeral, as the spec sees it.
pub open spec fn parse_i64_spec(s: Seq<char>) -> Option<i64> {
    match signed_numeral_val(s) {
        Some(v) => if i64::MIN <= v <= i64::MAX {
            Some(v as i64)
        } else {
            None
        },
        None => None,
    }
}

/// Parses a signed 64-bit numeral.
pub fn parse_i64(s: &str) -> (r: Option<i64>)
    ensures
        r == parse_i64_spec(s@),
{
    let n = s.unicode_len();
    if n > 0 && s.get_char(0) == '-' {
        match digits_to_u64(s, 1) {
            Some(mag) => {
                if mag == 9223372036854775808 {
                    Some(i64::MIN)
                } else if mag <= 9223372036854775807 {
                    Some(-(mag as i64))
                } else {
                    None
                }
            },
            None => {
                proof {
                    let body = s@.skip(1);
                    if body.len() > 0 && all_digits(body) {
                        assert(digits_val(body) > u64::MAX);
                    }
                }
                None
            },
        }
    } else {
        match parse_u64(s) {
            Some(v) => if v <= 9223372036854775807 {
                Some(v as i64)
            } else {
                None
            },
            None => {
                proof {
                    let body = if s@.len() > 0 && s@[0] == '+' {
                        s@.skip(1)
                    } else {
                        s@
                    };
                    if body.len() > 0 && all_digits(body) {
                        assert(digits_val(body) > u64::MAX);
                    }
                }
                None
            },
        }
    }
}

} // verus!

verus! {

/// Parses an unsigned 8-bit numeral, as the spec sees it.
pub open spec fn parse_u8_spec(s: Seq<char>) -> Option<u8> {
    match unsigned_numeral_val(s) {
        Some(v) => if v <= u8::MAX {
            Some(v as u8)
        } else {
            None
        },
        None => None,
    }
}

/// Parses an unsigned 8-bit numeral.
pub fn parse_u8(s: &str) -> (r: Option<u8>)
    ensures
        r == parse_u8_spec(s@),
{
    match parse_u64(s) {
        Some(v) => if v <= 255 {
            Some(v as u8)
        } else {
            None
        },
        None => None,
    }
}

/// Parses an unsigned 16-bit numeral, as the spec sees it.
pub open spec fn parse_u16_spec(s: Seq<char>) -> Option<u16> {
    match unsigned_numeral_val(s) {
        Some(v) => if v <= u16::MAX {
            Some(v as u16)
        } else {
            None
        },
        None => None,
    }
}

/// Parses an unsigned 16-bit numeral.
pub fn parse_u16(s: &str) -> (r: Option<u16>)
    ensures
        r == parse_u16_spec(s@),
{
    match parse_u64(s) {
        Some(v) => if v <= 65535 {
            Some(v as u16)
        } else {
            None
        },
        None => None,
    }
}

/// Parses an unsigned 32-bit numeral, as the spec sees it.
pub open spec fn parse_u32_spec(s: Seq<char>) -> Option<u32> {
    match unsigned_numeral_val(s) {
        Some(v) => if v <= u32::MAX {
            Some(v as u32)
        } else {
            None
        },
        None => None,
    }
}

/// Parses an unsigned 32-bit numeral.
pub fn parse_u32(s: &str) -> (r: Option<u32>)
    ensures
        r == parse_u32_spec(s@),
{
    match parse_u64(s) {
        Some(v) => if v <= 4294967295 {
            Some(v as u32)
        } else {
            None
        },
        None => None,
    }
}

/// Parses an unsigned pointer-width numeral, as the spec sees it.
pub open spec fn parse_usize_spec(s: Seq<char>) -> Option<usize> {
    match unsigned_numeral_val(s) {
        Some(v) => if v <= usize::MAX {
            Some(v as usize)
        } else {
            None
        },
        None => None,
    }
}

/// Parses an unsigned pointer-width numeral.
pub fn parse_usize(s: &str) -> (r: Option<usize>)
    ensures
        r == parse_usize_spec(s@),
{
    match parse_u64(s) {
        Some(v) => if v <= usize::MAX as u64 {
            Some(v as usize)
        } else {
            None
        },
        None => None,
    }
}

/// Parses a signed 8-bit numeral, as the spec sees it.
pub open spec fn parse_i8_spec(s: Seq<char>) -> Option<i8> {
    match signed_numeral_val(s) {
        Some(v) => if i8::MIN <= v <= i8::MAX {
            Some(v as i8)
        } else {
            None
        },
        None => None,
    }
}

/// Parses a signed 8-bit numeral.
pub fn parse_i8(s: &str) -> (r: Option<i8>)
    ensures
        r == parse_i8_spec(s@),
{
    match parse_i64(s) {
        Some(v) => if -128 <= v && v <= 127 {
            Some(v as i8)
        } else {
            None
        },
        None => None,
    }
}

/// Parses a signed 16-bit numeral, as the spec sees it.
pub open spec fn parse_i16_spec(s: Seq<char>) -> Option<i16> {
    match signed_numeral_val(s) {
        Some(v) => if i16::MIN <= v <= i16::MAX {
            Some(v as i16)
        } else {
            None
        },
        None => None,
    }
}

/// Parses a signed 16-bit numeral.
pub fn parse_i16(s: &str) -> (r: Option<i16>)
    ensures
        r == parse_i16_spec(s@),
{
    match parse_i64(s) {
        Some(v) => if -32768 <= v && v <= 32767 {
            Some(v as i16)
        } else {
            None
        },
        None => None,
    }
}

/// Parses a signed 32-bit numeral, as the spec sees it.
pub open spec fn parse_i32_spec(s: Seq<char>) -> Option<i32> {
    match signed_numeral_val(s) {
        Some(v) => if i32::MIN <= v <= i32::MAX {
            Some(v as i32)
        } else {
            None
        },
        None => None,
    }
}

/// Parses a signed 32-bit numeral.
pub fn parse_i32(s: &str) -> (r: Option<i32>)
    ensures
        r == parse_i32_spec(s@),
{
    match parse_i64(s) {
        Some(v) => if -2147483648 <= v && v <= 2147483647 {
            Some(v as i32)
        } else {
            None
        },
        None => None,
    }
}

} // verus!
