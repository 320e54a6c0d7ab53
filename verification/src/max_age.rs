//! The Max-Age attribute value: an optional sign followed by decimal
//! digits. Negative values clamp to zero.

use vstd::prelude::*;

use crate::digits::{digits_val, is_digit_seq, parse_u64};

verus! {

/// The stored Max-Age of an attribute value. A leading `-` followed by
/// digits (or by nothing) clamps to zero. A leading `+` is accepted only
/// when `allow_plus` holds. Anything else must be all digits and fit in a
/// `u64`, or the attribute is ignored (`None`).
pub open spec fn max_age_spec(s: Seq<char>, allow_plus: bool) -> Option<u64> {
    if s.len() == 0 {
        None
    } else if s[0] == '-' {
        if is_digit_seq(s.drop_first()) {
            Some(0u64)
        } else {
            None
        }
    } else if s[0] == '+' {
        if allow_plus && s.len() > 1 && is_digit_seq(s.drop_first()) && digits_val(s.drop_first())
            <= u64::MAX {
            Some(digits_val(s.drop_first()) as u64)
        } else {
            None
        }
    } else {
        if is_digit_seq(s) && digits_val(s) <= u64::MAX {
            Some(digits_val(s) as u64)
        } else {
            None
        }
    }
}

/// Parses a Max-Age attribute value under the strict rule: no leading
/// `+`. `None` means the attribute is ignored.
pub fn parse_max_age(attribute: &str) -> (r: Option<u64>)
    ensures
        r == max_age_spec(attribute@, false),
{
    parse_max_age_with(attribute, false)
}

/// Parses a Max-Age attribute value; `allow_plus` admits a leading `+`.
pub(crate) fn parse_max_age_with(attribute: &str, allow_plus: bool) -> (r: Option<u64>)
    ensures
        r == max_age_spec(attribute@, allow_plus),
{
    let n = attribute.unicode_len();
    if n == 0 {
        return None;
    }
    let c0 = attribute.get_char(0);
    if c0 == '-' {
        let rest = attribute.substring_char(1, n);
        proof {
            assert(rest@ =~= attribute@.drop_first());
        }
        if all_digits(rest) {
            Some(0)
        } else {
            None
        }
    } else if c0 == '+' {
        if !allow_plus || n == 1 {
            return None;
        }
        let rest = attribute.substring_char(1, n);
        proof {
            assert(rest@ =~= attribute@.drop_first());
        }
        parse_u64(rest)
    } else {
        parse_u64(attribute)
    }
}

/// True when every character is an ASCII digit; the empty string passes.
fn all_digits(s: &str) -> (r: bool)
    ensures
        r == is_digit_seq(s@),
{
    let n = s.unicode_len();
    let mut i: usize = 0;
    while i < n
        invariant
            0 <= i <= n,
            n == s@.len(),
            forall|j: int| 0 <= j < i ==> crate::digits::is_digit(#[trigger] s@[j]),
        decreases n - i,
    {
        let c = s.get_char(i);
        if !('0' <= c && c <= '9') {
            return false;
        }
        i = i + 1;
    }
    true
}

} // verus!
