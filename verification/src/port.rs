//! Reading a port word as a 16-bit unsigned integer, the way
//! `u16::from_str` does: an optional leading `+`, then at least one decimal
//! digit, denoting a value of at most `u16::MAX`.

use vstd::prelude::*;
use vstd::string::StrSliceExecFns;

verus! {

/// An ASCII decimal digit.
pub open spec fn is_digit(c: char) -> bool {
    48 <= c as u32 <= 57
}

pub open spec fn digit_val(c: char) -> int {
    c as u32 - 48
}

pub open spec fn all_digits(s: Seq<char>) -> bool {
    forall|i: int| 0 <= i < s.len() ==> is_digit(s[i])
}

/// The non-negative integer denoted by a sequence of decimal digits.
pub open spec fn dec_value(s: Seq<char>) -> int
    decreases s.len(),
{
    if s.len() == 0 {
        0
    } else {
        dec_value(s.drop_last()) * 10 + digit_val(s.last())
    }
}

/// The port number a word denotes, if any.
pub open spec fn spec_parse_u16(s: Seq<char>) -> Option<u16> {
    let digits = if s.len() > 0 && s[0] == '+' {
        s.subrange(1, s.len() as int)
    } else {
        s
    };
    if digits.len() == 0 {
        None
    } else if !all_digits(digits) {
        None
    } else if dec_value(digits) > 65535 {
        None
    } else {
        Some(dec_value(digits) as u16)
    }
}

pub proof fn lemma_dec_value_nonneg(s: Seq<char>)
    requires
        all_digits(s),
    ensures
        dec_value(s) >= 0,
    decreases s.len(),
{
    if s.len() > 0 {
        assert(all_digits(s.drop_last()));
        lemma_dec_value_nonneg(s.drop_last());
    }
}

/// A proper prefix of a digit string never denotes more than the whole.
pub proof fn lemma_dec_value_prefix(s: Seq<char>, k: int)
    requires
        all_digits(s),
        0 <= k <= s.len(),
    ensures
        dec_value(s.subrange(0, k)) <= dec_value(s),
    decreases s.len() - k,
{
    if k == s.len() {
        assert(s.subrange(0, k) =~= s);
    } else {
        lemma_dec_value_prefix(s, k + 1);
        let p = s.subrange(0, k + 1);
        assert(p.drop_last() =~= s.subrange(0, k));
        assert(all_digits(s.subrange(0, k)));
        lemma_dec_value_nonneg(s.subrange(0, k));
        assert(dec_value(p) == dec_value(s.subrange(0, k)) * 10 + digit_val(s[k]));
    }
}

/// Reads a word as a 16-bit unsigned port number.
pub fn parse_port_word(s: &str) -> (r: Option<u16>)
    ensures
        r == spec_parse_u16(s@),
{
    let len = s.unicode_len();
    let start: usize = if len > 0 && s.get_char(0) == '+' {
        1
    } else {
        0
    };
    let ghost digits = if s@.len() > 0 && s@[0] == '+' {
        s@.subrange(1, s@.len() as int)
    } else {
        s@
    };
    proof {
        assert(digits =~= s@.subrange(start as int, len as int));
    }
    if start >= len {
        return None;
    }
    let mut val: u32 = 0;
    let mut j: usize = start;
    while j < len
        invariant
            len == s@.len(),
            start <= j <= len,
            start < len,
            start <= 1,
            digits == s@.subrange(start as int, len as int),
            digits.len() == len - start,
            digits == (if s@.len() > 0 && s@[0] == '+' {
                s@.subrange(1, s@.len() as int)
            } else {
                s@
            }),
            all_digits(digits.subrange(0, j - start)),
            val == dec_value(digits.subrange(0, j - start)),
            val <= 65535,
        decreases len - j,
    {
        let c = s.get_char(j);
        let u = c as u32;
        if u < 48 || u > 57 {
            proof {
                assert(digits[j - start] == s@[j as int]);
                assert(!is_digit(digits[j - start]));
            }
            return None;
        }
        proof {
            assert(digits.subrange(0, j + 1 - start)
                =~= digits.subrange(0, j - start).push(digits[j - start]));
            assert(digits.subrange(0, j + 1 - start).drop_last() =~= digits.subrange(0, j - start));
        }
        val = val * 10 + (u - 48);
        j = j + 1;
        if val > 65535 {
            proof {
                if all_digits(digits) {
                    lemma_dec_value_prefix(digits, j - start);
                }
                assert(spec_parse_u16(s@) is None);
            }
            return None;
        }
    }
    proof {
        assert(digits.subrange(0, len - start) =~= digits);
        assert(spec_parse_u16(s@) == Some(val as u16));
    }
    Some(val as u16)
}

} // verus!
