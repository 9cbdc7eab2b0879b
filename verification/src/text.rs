//! Small verified text utilities: character classification, string equality,
//! and decimal parsing, shared by the environment and datetime modules.

use vstd::prelude::*;

verus! {

/// A decimal digit in ASCII.
pub open spec fn is_digit(c: char) -> bool {
    '0' <= c && c <= '9'
}

/// Numeric value of a decimal digit.
pub open spec fn digit_val(c: char) -> int {
    c as int - '0' as int
}

/// Every character of the sequence is a decimal digit.
pub open spec fn all_digits(s: Seq<char>) -> bool {
    forall|i: int| 0 <= i < s.len() ==> is_digit(#[trigger] s[i])
}

/// Value of a sequence of decimal digits, most significant first.
pub open spec fn digits_val(s: Seq<char>) -> int
    decreases s.len(),
{
    if s.len() == 0 {
        0
    } else {
        digits_val(s.drop_last()) * 10 + digit_val(s.last())
    }
}

/// The value of an all-digit sequence is nonnegative.
pub proof fn lemma_digits_val_nonneg(s: Seq<char>)
    requires
        all_digits(s),
    ensures
        digits_val(s) >= 0,
    decreases s.len(),
{
    if s.len() > 0 {
        lemma_digits_val_nonneg(s.drop_last());
    }
}

/// Extending an all-digit sequence never decreases its value.
pub proof fn lemma_digits_val_prefix_le(s: Seq<char>, i: int, j: int)
    requires
        all_digits(s),
        0 <= i <= j <= s.len(),
    ensures
        digits_val(s.subrange(0, i)) <= digits_val(s.subrange(0, j)),
    decreases j - i,
{
    if i < j {
        lemma_digits_val_prefix_le(s, i, j - 1);
        let p = s.subrange(0, j - 1);
        let q = s.subrange(0, j);
        assert(q.drop_last() =~= p);
        assert(all_digits(p)) by {
            assert(forall|k: int| 0 <= k < p.len() ==> p[k] == s[k]);
        }
        lemma_digits_val_nonneg(p);
        assert(digits_val(q) == digits_val(p) * 10 + digit_val(q.last()));
        assert(digits_val(p) * 10 >= digits_val(p)) by (nonlinear_arith)
            requires digits_val(p) >= 0;
    }
}

/// Character-by-character equality of two string slices.
pub fn str_eq(a: &str, b: &str) -> (r: bool)
    ensures
        r == (a@ == b@),
{
    let n = a.unicode_len();
    if n != b.unicode_len() {
        proof {
            if a@ == b@ {
                assert(a@.len() == b@.len());
            }
        }
        return false;
    }
    let mut i: usize = 0;
    while i < n
        invariant
            n == a@.len(),
            n == b@.len(),
            0 <= i <= n,
            forall|j: int| 0 <= j < i ==> a@[j] == b@[j],
        decreases n - i,
    {
        if a.get_char(i) != b.get_char(i) {
            proof {
                if a@ == b@ {
                    assert(a@[i as int] == b@[i as int]);
                }
            }
            return false;
        }
        i += 1;
    }
    proof {
        assert(a@ =~= b@);
    }
    true
}

/// Parses a nonempty all-digit string as a `u32`.
///
/// Returns `Some` exactly when the string is nonempty, holds decimal digits
/// only, and its value fits in a `u32`. Unlike the standard library's
/// integer parsing, no sign character is accepted; the callers only ever
/// parse plain unsigned decimals.
pub fn parse_decimal_u32(s: &str) -> (r: Option<u32>)
    ensures
        r is Some <==> (s@.len() > 0 && all_digits(s@) && digits_val(s@) <= u32::MAX),
        r matches Some(v) ==> v as int == digits_val(s@),
{
    let n = s.unicode_len();
    if n == 0 {
        return None;
    }
    let mut acc: u32 = 0;
    let mut i: usize = 0;
    while i < n
        invariant
            0 < n == s@.len(),
            0 <= i <= n,
            forall|j: int| 0 <= j < i ==> is_digit(#[trigger] s@[j]),
            acc as int == digits_val(s@.subrange(0, i as int)),
        decreases n - i,
    {
        let c = s.get_char(i);
        if c < '0' || c > '9' {
            assert(!is_digit(s@[i as int]));
            return None;
        }
        let d: u32 = (c as u32) - 48;
        proof {
            assert(s@.subrange(0, i + 1).drop_last() =~= s@.subrange(0, i as int));
            assert(digit_val(s@[i as int]) == d as int);
        }
        if acc > (0xffff_ffffu32 - d) / 10 {
            // The value of this prefix already exceeds u32::MAX, and appending
            // further digits can only increase it.
            proof {
                assert(acc as int * 10 + d as int > u32::MAX) by (nonlinear_arith)
                    requires
                        acc as int > (u32::MAX - d as int) / 10,
                        0 <= d as int <= 9;
                assert(digits_val(s@.subrange(0, i + 1)) > u32::MAX);
                if all_digits(s@) {
                    lemma_digits_val_prefix_le(s@, i + 1, s@.len() as int);
                    assert(s@.subrange(0, s@.len() as int) =~= s@);
                }
            }
            return None;
        }
        proof {
            assert(acc as int * 10 + d as int <= u32::MAX) by (nonlinear_arith)
                requires
                    acc as int <= (u32::MAX - d as int) / 10,
                    0 <= d as int <= 9;
        }
        acc = acc * 10 + d;
        i += 1;
    }
    proof {
        assert(s@.subrange(0, n as int) =~= s@);
    }
    Some(acc)
}

/// Parses a nonempty all-digit string as a `u16`.
pub fn parse_decimal_u16(s: &str) -> (r: Option<u16>)
    ensures
        r is Some <==> (s@.len() > 0 && all_digits(s@) && digits_val(s@) <= u16::MAX),
        r matches Some(v) ==> v as int == digits_val(s@),
{
    match parse_decimal_u32(s) {
        Some(v) => {
            if v <= 0xffffu32 {
                Some(v as u16)
            } else {
                None
            }
        },
        None => {
            proof {
                if s@.len() > 0 && all_digits(s@) && digits_val(s@) <= u16::MAX {
                    assert(digits_val(s@) <= u32::MAX);
                }
            }
            None
        },
    }
}

} // verus!
