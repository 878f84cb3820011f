//! Decimal integer parsing for argument tokens, with an exact account of
//! which strings are accepted: an optional sign, then one or more digits,
//! and a value that fits the target type. A token that fails this test is
//! reported by the caller instead of aborting the shell.

use vstd::prelude::*;

verus! {

/// A decimal digit.
pub open spec fn is_digit_char(c: char) -> bool {
    '0' as u32 <= c as u32 && c as u32 <= '9' as u32
}

/// The value of one digit.
pub open spec fn digit_val(c: char) -> nat {
    (c as u32 - '0' as u32) as nat
}

/// Every character is a digit.
pub open spec fn all_digits(s: Seq<char>) -> bool {
    forall|j: int| 0 <= j < s.len() ==> is_digit_char(#[trigger] s[j])
}

/// The value of a digit string read in base ten.
pub open spec fn dec_val(s: Seq<char>) -> nat
    decreases s.len(),
{
    if s.len() == 0 {
        0
    } else {
        10 * dec_val(s.drop_last()) + digit_val(s.last())
    }
}

/// The digits of a numeral after its optional sign.
pub open spec fn magnitude_of(s: Seq<char>) -> Seq<char> {
    if s.len() > 0 && (s[0] == '+' || s[0] == '-') {
        s.drop_first()
    } else {
        s
    }
}

/// Whether a numeral is negative: a leading minus sign.
pub open spec fn is_negative(s: Seq<char>) -> bool {
    s.len() > 0 && s[0] == '-'
}

/// A well-formed unsigned numeral with a value `u32` can hold: an
/// optional plus sign, then at least one digit.
pub open spec fn is_u32_numeral(s: Seq<char>) -> bool {
    &&& !is_negative(s)
    &&& magnitude_of(s).len() > 0
    &&& all_digits(magnitude_of(s))
    &&& dec_val(magnitude_of(s)) <= u32::MAX
}

/// The value of a well-formed unsigned numeral.
pub open spec fn u32_numeral_val(s: Seq<char>) -> nat {
    dec_val(magnitude_of(s))
}

/// A well-formed signed numeral with a value `i32` can hold.
pub open spec fn is_i32_numeral(s: Seq<char>) -> bool {
    &&& magnitude_of(s).len() > 0
    &&& all_digits(magnitude_of(s))
    &&& if is_negative(s) {
        dec_val(magnitude_of(s)) <= 0x8000_0000
    } else {
        dec_val(magnitude_of(s)) <= i32::MAX
    }
}

/// The value of a well-formed signed numeral.
pub open spec fn i32_numeral_val(s: Seq<char>) -> int {
    if is_negative(s) {
        -(dec_val(magnitude_of(s)) as int)
    } else {
        dec_val(magnitude_of(s)) as int
    }
}

/// A longer digit string never has a smaller value.
proof fn lemma_dec_val_prefix(s: Seq<char>, k: int)
    requires
        0 <= k <= s.len(),
    ensures
        dec_val(s.take(k)) <= dec_val(s),
    decreases s.len() - k,
{
    if k == s.len() {
        assert(s.take(k) =~= s);
    } else {
        lemma_dec_val_prefix(s, k + 1);
        assert(s.take(k + 1).drop_last() =~= s.take(k));
        assert(dec_val(s.take(k + 1)) == 10 * dec_val(s.take(k)) + digit_val(s.take(k + 1).last()));
    }
}

/// Reads the digits of `s` from position `start` on as a base-ten value,
/// if they are digits and the value fits.
fn parse_digits(s: &str, start: usize) -> (r: Option<u32>)
    requires
        start <= s@.len(),
    ensures
        r is Some <==> (s@.skip(start as int).len() > 0 && all_digits(s@.skip(start as int))
            && dec_val(s@.skip(start as int)) <= u32::MAX),
        r matches Some(n) ==> n == dec_val(s@.skip(start as int)),
{
    let ghost digits = s@.skip(start as int);
    let n = s.unicode_len();
    if start == n {
        return None;
    }
    let mut acc: u32 = 0;
    let mut i: usize = start;
    proof {
        assert(digits.take(0) =~= Seq::<char>::empty());
    }
    while i < n
        invariant
            n == s@.len(),
            start <= i <= n,
            digits == s@.skip(start as int),
            forall|j: int| 0 <= j < i - start ==> is_digit_char(#[trigger] digits[j]),
            acc == dec_val(digits.take(i - start)),
        decreases n - i,
    {
        let c = s.get_char(i);
        let u = c as u32;
        if u < 0x30 || u > 0x39 {
            proof {
                assert(digits[i - start] == s@[i as int]);
                assert(!is_digit_char(digits[i - start]));
            }
            return None;
        }
        let d = u - 0x30;
        proof {
            assert(digits[i - start] == s@[i as int]);
            assert(is_digit_char(digits[i - start]));
            assert(digit_val(digits[i - start]) == d);
        }
        if acc > (u32::MAX - d) / 10 {
            proof {
                // the prefix read so far is already too large, so the
                // whole digit string is too
                assert(digits.take(i - start + 1).drop_last() =~= digits.take(i - start));
                assert(digits.take(i - start + 1).last() == digits[i - start]);
                assert(dec_val(digits.take(i - start + 1)) == 10 * (acc as nat) + d);
                assert(10 * (acc as nat) + d > u32::MAX);
                lemma_dec_val_prefix(digits, i - start + 1);
            }
            return None;
        }
        proof {
            assert(acc <= (u32::MAX - d) / 10);
            assert(10 * (acc as nat) + d <= u32::MAX);
            assert(digits.take(i - start + 1).drop_last() =~= digits.take(i - start));
            assert(digits.take(i - start + 1).last() == digits[i - start]);
        }
        acc = acc * 10 + d;
        i += 1;
    }
    proof {
        assert(digits.take(n - start) =~= digits);
    }
    Some(acc)
}

/// Parses a `u32` out of a token, as the repeat count is read: an
/// optional `+`, then digits; `None` on anything else or on overflow.
pub fn parse_u32(s: &str) -> (r: Option<u32>)
    ensures
        r is Some <==> is_u32_numeral(s@),
        r matches Some(n) ==> n == u32_numeral_val(s@),
{
    let n = s.unicode_len();
    let start: usize = if n > 0 && s.get_char(0) == '+' {
        1
    } else {
        0
    };
    if n > 0 && s.get_char(0) == '-' {
        return None;
    }
    proof {
        assert(s@.skip(start as int) =~= magnitude_of(s@));
    }
    parse_digits(s, start)
}

/// Parses an `i32` out of a token, as a process id is read: an optional
/// `+` or `-`, then digits; `None` on anything else or on overflow.
pub fn parse_i32(s: &str) -> (r: Option<i32>)
    ensures
        r is Some <==> is_i32_numeral(s@),
        r matches Some(v) ==> v == i32_numeral_val(s@),
{
    let n = s.unicode_len();
    let negative = n > 0 && s.get_char(0) == '-';
    let start: usize = if n > 0 && (s.get_char(0) == '+' || s.get_char(0) == '-') {
        1
    } else {
        0
    };
    proof {
        assert(s@.skip(start as int) =~= magnitude_of(s@));
    }
    match parse_digits(s, start) {
        None => None,
        Some(mag) => {
            if negative {
                if mag > 0x8000_0000 {
                    None
                } else if mag == 0x8000_0000 {
                    Some(i32::MIN)
                } else {
                    Some(-(mag as i32))
                }
            } else {
                if mag > i32::MAX as u32 {
                    None
                } else {
                    Some(mag as i32)
                }
            }
        },
    }
}

} // verus!
