//! Parsing of base-10 signed 64-bit integers from raw field bytes, and the
//! single error kind of the load path.

use vstd::prelude::*;

verus! {

/// The one error kind of the load path: it covers a malformed row, a missing
/// required column, and non-integer column content, with no distinguishing
/// payload.
#[derive(Debug)]
pub struct ParseError;

/// Whether `c` is an ASCII decimal digit.
pub open spec fn is_ascii_digit(c: u8) -> bool {
    48 <= c <= 57
}

/// Whether every byte of `s` is an ASCII decimal digit.
pub open spec fn all_digits(s: Seq<u8>) -> bool {
    forall|i: int| 0 <= i < s.len() ==> is_ascii_digit(#[trigger] s[i])
}

/// The value of a sequence of ASCII decimal digits, most significant first.
pub open spec fn digits_value(s: Seq<u8>) -> int
    decreases s.len(),
{
    if s.len() == 0 {
        0
    } else {
        digits_value(s.drop_last()) * 10 + (s.last() - 48)
    }
}

/// Whether `s` is a base-10 integer literal: an optional leading `+` or `-`
/// sign followed by one or more ASCII decimal digits and nothing else.
pub open spec fn is_int_literal(s: Seq<u8>) -> bool {
    if s.len() == 0 {
        false
    } else if s[0] == 43 || s[0] == 45 {
        s.len() >= 2 && all_digits(s.skip(1))
    } else {
        all_digits(s)
    }
}

/// The mathematical value of an integer literal (meaningful when
/// `is_int_literal(s)` holds).
pub open spec fn int_literal_value(s: Seq<u8>) -> int {
    if s.len() > 0 && s[0] == 45 {
        -digits_value(s.skip(1))
    } else if s.len() > 0 && s[0] == 43 {
        digits_value(s.skip(1))
    } else {
        digits_value(s)
    }
}

/// Whether the field bytes `s` denote a value representable as an `i64`.
pub open spec fn is_i64_field(s: Seq<u8>) -> bool {
    &&& is_int_literal(s)
    &&& i64::MIN <= int_literal_value(s) <= i64::MAX
}

/// The value of a digit sequence is nonnegative, and no smaller than the
/// value of any of its prefixes.
proof fn lemma_digits_prefix_le(s: Seq<u8>, k: int)
    requires
        all_digits(s),
        0 <= k <= s.len(),
    ensures
        0 <= digits_value(s.subrange(0, k)) <= digits_value(s),
    decreases s.len(),
{
    if s.len() == 0 {
    } else {
        lemma_digits_prefix_le(s.drop_last(), if k < s.len() { k } else { k - 1 });
        if k < s.len() {
            assert(s.subrange(0, k) == s.drop_last().subrange(0, k));
        } else {
            assert(s.subrange(0, k) == s);
            assert(s.drop_last().subrange(0, k - 1) == s.drop_last());
        }
    }
}

/// Parses the magnitude digits of `s` from index `from` on, accumulating
/// into a `u64` and rejecting values above `limit`.
fn parse_digits(s: &[u8], from: usize, limit: u64) -> (r: Result<u64, ParseError>)
    requires
        from < s@.len(),
    ensures
        r is Ok <==> (all_digits(s@.skip(from as int)) && digits_value(s@.skip(from as int))
            <= limit),
        r is Ok ==> r->Ok_0 == digits_value(s@.skip(from as int)),
    {
        let ghost digits = s@.skip(from as int);
        let n: usize = s.len();
        let mut i: usize = from;
        let mut mag: u64 = 0;
        while i < n
            invariant
                from <= i <= n,
                n == s@.len(),
                digits == s@.skip(from as int),
                all_digits(digits.subrange(0, i - from)),
                mag == digits_value(digits.subrange(0, i - from)),
                mag <= limit,
            decreases n - i,
        {
            let c: u8 = s[i];
            if c < 48 || c > 57 {
                proof {
                    assert(digits[i - from] == c);
                }
                return Err(ParseError);
            }
            let next: u128 = mag as u128 * 10 + (c - 48) as u128;
            proof {
                assert(digits.subrange(0, i + 1 - from).drop_last() == digits.subrange(
                    0,
                    i - from,
                ));
                assert(digits.subrange(0, i + 1 - from).last() == c);
            }
            if next > limit as u128 {
                proof {
                    lemma_digits_prefix_le_or_bad(digits, i + 1 - from, limit as int);
                }
                return Err(ParseError);
            }
            mag = next as u64;
            i = i + 1;
        }
        proof {
            assert(digits.subrange(0, n - from) == digits);
        }
        Ok(mag)
    }

/// If some prefix of `s` already exceeds `limit`, then either `s` is not all
/// digits or its full value exceeds `limit`.
proof fn lemma_digits_prefix_le_or_bad(s: Seq<u8>, k: int, limit: int)
    requires
        0 <= k <= s.len(),
        all_digits(s.subrange(0, k)),
        digits_value(s.subrange(0, k)) > limit,
    ensures
        !(all_digits(s) && digits_value(s) <= limit),
{
    if all_digits(s) {
        lemma_digits_prefix_le(s, k);
    }
}

/// Parses the bytes of one field as a base-10 signed 64-bit integer:
/// an optional sign followed by one or more decimal digits, with the value in
/// `i64` range; anything else is a parse error.
pub fn parse_i64(s: &[u8]) -> (r: Result<i64, ParseError>)
    ensures
        r is Ok <==> is_i64_field(s@),
        r is Ok ==> r->Ok_0 == int_literal_value(s@),
{
    if s.len() == 0 {
        return Err(ParseError);
    }
    let c0: u8 = s[0];
    if c0 == 45 {
        if s.len() == 1 {
            return Err(ParseError);
        }
        let mag: u64 = parse_digits(s, 1, 9223372036854775808u64)?;
        if mag == 9223372036854775808u64 {
            Ok(i64::MIN)
        } else {
            Ok(-(mag as i64))
        }
    } else if c0 == 43 {
        if s.len() == 1 {
            return Err(ParseError);
        }
        let mag: u64 = parse_digits(s, 1, 9223372036854775807u64)?;
        Ok(mag as i64)
    } else {
        proof {
            assert(s@.skip(0) =~= s@);
        }
        let mag: u64 = parse_digits(s, 0, 9223372036854775807u64)?;
        Ok(mag as i64)
    }
}

} // verus!
