//! Parsing of component-requirement quantities.
//!
//! A quantity attribute is a base-10, non-negative integer. Anything else —
//! an empty string, a sign, a non-digit character, or a value too large for
//! the quantity type — is a parse failure, which is fatal for the run.

use vstd::prelude::*;

verus! {

/// A decimal digit `'0'..='9'`.
pub open spec fn is_digit(c: char) -> bool {
    48 <= c as u32 <= 57
}

/// The numeric value of a decimal digit.
pub open spec fn digit_value(c: char) -> int {
    c as u32 - 48
}

/// Every character of `s` is a decimal digit.
pub open spec fn all_digits(s: Seq<char>) -> bool {
    forall|i: int| 0 <= i < s.len() ==> is_digit(#[trigger] s[i])
}

/// The base-10 value denoted by a digit string (0 for the empty string).
pub open spec fn dec_value(s: Seq<char>) -> int
    decreases s.len(),
{
    if s.len() == 0 {
        0
    } else {
        dec_value(s.drop_last()) * 10 + digit_value(s.last())
    }
}

/// What parsing a quantity string yields: its base-10 value if the string is
/// a non-empty run of digits whose value fits in `u64`, and nothing otherwise.
pub open spec fn spec_parse_quantity(s: Seq<char>) -> Option<u64> {
    if s.len() > 0 && all_digits(s) && dec_value(s) <= u64::MAX {
        Some(dec_value(s) as u64)
    } else {
        None
    }
}

/// A digit string denotes a non-negative value.
proof fn lemma_dec_value_nonneg(s: Seq<char>)
    requires
        all_digits(s),
    ensures
        dec_value(s) >= 0,
    decreases s.len(),
{
    if s.len() > 0 {
        assert(all_digits(s.drop_last())) by {
            assert(forall|i: int|
                0 <= i < s.len() - 1 ==> #[trigger] s.drop_last()[i] == s[i]);
        }
        lemma_dec_value_nonneg(s.drop_last());
    }
}

/// Extending a digit string never decreases its value: the value of a prefix
/// bounds the value of the whole from below.
proof fn lemma_dec_value_prefix_le(s: Seq<char>, k: int)
    requires
        all_digits(s),
        0 <= k <= s.len(),
    ensures
        dec_value(s.take(k)) <= dec_value(s),
    decreases s.len() - k,
{
    if k < s.len() {
        let t = s.take(k + 1);
        assert(t.drop_last() =~= s.take(k));
        assert(all_digits(s.take(k))) by {
            assert(forall|i: int| 0 <= i < k ==> #[trigger] s.take(k)[i] == s[i]);
        }
        lemma_dec_value_nonneg(s.take(k));
        assert(dec_value(t) == dec_value(s.take(k)) * 10 + digit_value(t.last()));
        assert(dec_value(s.take(k)) * 10 >= dec_value(s.take(k)));
        lemma_dec_value_prefix_le(s, k + 1);
        assert(s.take(s.len() as int) =~= s);
    } else {
        assert(s.take(k) =~= s);
    }
}

/// Parse a quantity string.
///
/// Returns exactly what [`spec_parse_quantity`] describes: `Some` of the
/// base-10 value of a non-empty all-digit string that fits in `u64`,
/// otherwise `None`.
pub fn parse_quantity(s: &str) -> (r: Option<u64>)
    ensures
        r == spec_parse_quantity(s@),
{
    let n = s.unicode_len();
    if n == 0 {
        return None;
    }
    let mut acc: u64 = 0;
    let mut i: usize = 0;
    while i < n
        invariant
            0 < n == s@.len(),
            i <= n,
            all_digits(s@.take(i as int)),
            acc as int == dec_value(s@.take(i as int)),
        decreases n - i,
    {
        let c = s.get_char(i);
        let u = c as u32;
        if u < 48 || u > 57 {
            return None;
        }
        let d: u64 = (u - 48) as u64;
        let ghost prev = s@.take(i as int);
        let ghost cur = s@.take(i + 1 as int);
        proof {
            assert(cur.drop_last() =~= prev);
            assert(cur.last() == s@[i as int]);
            assert(all_digits(cur)) by {
                assert(forall|j: int| 0 <= j < i ==> #[trigger] cur[j] == prev[j]);
            }
        }
        let shifted = match acc.checked_mul(10) {
            Some(a) => a,
            None => {
                proof {
                    lemma_dec_value_nonneg(prev);
                    if all_digits(s@) {
                        lemma_dec_value_prefix_le(s@, i + 1);
                        assert(dec_value(cur) == acc as int * 10 + digit_value(cur.last()));
                    }
                }
                return None;
            },
        };
        acc = match shifted.checked_add(d) {
            Some(b) => b,
            None => {
                proof {
                    lemma_dec_value_nonneg(prev);
                    if all_digits(s@) {
                        lemma_dec_value_prefix_le(s@, i + 1);
                        assert(dec_value(cur) == acc as int * 10 + digit_value(cur.last()));
                    }
                }
                return None;
            },
        };
        i = i + 1;
    }
    proof {
        assert(s@.take(n as int) =~= s@);
    }
    Some(acc)
}

} // verus!
