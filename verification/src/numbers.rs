//! Decimal rendering and parsing of block numbers.
//!
//! Output filenames and tabular rows carry block numbers in decimal; the
//! block-interval argument and the filenames of a prior run are read back
//! the same way. Parsing accepts what `u64` string parsing accepts: an
//! optional leading `+`, then one or more decimal digits, with the value
//! fitting in a `u64`.

use vstd::arithmetic::div_mod::{lemma_fundamental_div_mod, lemma_mod_bound};
use vstd::prelude::*;

verus! {

/// The character for one decimal digit value.
pub open spec fn digit_char(d: nat) -> char {
    if d == 0 {
        '0'
    } else if d == 1 {
        '1'
    } else if d == 2 {
        '2'
    } else if d == 3 {
        '3'
    } else if d == 4 {
        '4'
    } else if d == 5 {
        '5'
    } else if d == 6 {
        '6'
    } else if d == 7 {
        '7'
    } else if d == 8 {
        '8'
    } else {
        '9'
    }
}

/// The value of one decimal digit character, or `-1` for any other character.
pub open spec fn digit_val(c: char) -> int {
    if c == '0' {
        0
    } else if c == '1' {
        1
    } else if c == '2' {
        2
    } else if c == '3' {
        3
    } else if c == '4' {
        4
    } else if c == '5' {
        5
    } else if c == '6' {
        6
    } else if c == '7' {
        7
    } else if c == '8' {
        8
    } else if c == '9' {
        9
    } else {
        -1
    }
}

pub open spec fn is_digit(c: char) -> bool {
    digit_val(c) >= 0
}

/// The decimal digits of `n`, most significant first, no sign and no
/// leading zero (except for `n == 0` itself).
pub open spec fn spec_dec(n: nat) -> Seq<char>
    decreases n,
{
    if n < 10 {
        seq![digit_char(n)]
    } else {
        spec_dec(n / 10).push(digit_char(n % 10))
    }
}

pub open spec fn all_digits(s: Seq<char>) -> bool {
    forall|i: int| 0 <= i < s.len() ==> is_digit(#[trigger] s[i])
}

/// The numeric value of a digit string, most significant digit first.
pub open spec fn spec_val(s: Seq<char>) -> int
    decreases s.len(),
{
    if s.len() == 0 {
        0
    } else {
        spec_val(s.drop_last()) * 10 + digit_val(s.last())
    }
}

/// The digit part of a numeric argument: a single leading `+` is skipped.
pub open spec fn u64_digits(s: Seq<char>) -> Seq<char> {
    if s.len() >= 1 && s[0] == '+' {
        s.skip(1)
    } else {
        s
    }
}

/// Acceptance of a digit string that has already had its sign stripped:
/// at least one character, only digits, value no larger than `u64::MAX`.
pub open spec fn is_u64_string_tail(d: Seq<char>) -> bool {
    d.len() >= 1 && all_digits(d) && spec_val(d) <= u64::MAX
}

/// Whether `s` is accepted as a `u64`: at least one digit after the
/// optional sign, only digits, and a value no larger than `u64::MAX`.
pub open spec fn is_u64_string(s: Seq<char>) -> bool {
    is_u64_string_tail(u64_digits(s))
}

pub open spec fn u64_string_val(s: Seq<char>) -> int {
    spec_val(u64_digits(s))
}

pub proof fn lemma_spec_val_nonneg(s: Seq<char>)
    requires
        all_digits(s),
    ensures
        spec_val(s) >= 0,
    decreases s.len(),
{
    if s.len() > 0 {
        assert(all_digits(s.drop_last()));
        lemma_spec_val_nonneg(s.drop_last());
    }
}

/// A digit string is worth at least any of its prefixes.
pub proof fn lemma_spec_val_prefix_le(s: Seq<char>, k: int)
    requires
        all_digits(s),
        0 <= k <= s.len(),
    ensures
        spec_val(s.take(k)) <= spec_val(s),
    decreases s.len() - k,
{
    if k < s.len() {
        assert(all_digits(s.take(k + 1)));
        assert(s.take(k + 1).drop_last() =~= s.take(k));
        lemma_spec_val_nonneg(s.take(k));
        lemma_spec_val_prefix_le(s, k + 1);
    } else {
        assert(s.take(k) =~= s);
    }
}

/// Rendering is faithful: the digits of `n` are digits, start with no
/// sign, and parse back to `n`.
pub proof fn lemma_dec_roundtrip(n: nat)
    ensures
        spec_dec(n).len() >= 1,
        all_digits(spec_dec(n)),
        spec_dec(n)[0] != '+',
        spec_val(spec_dec(n)) == n,
        n <= u64::MAX ==> is_u64_string(spec_dec(n)) && u64_string_val(spec_dec(n)) == n,
    decreases n,
{
    if n < 10 {
        assert(spec_val(seq![digit_char(n)].drop_last()) == 0);
    } else {
        lemma_dec_roundtrip(n / 10);
        lemma_fundamental_div_mod(n as int, 10);
        lemma_mod_bound(n as int, 10);
        let s = spec_dec(n);
        assert(s.drop_last() =~= spec_dec(n / 10));
        assert(s[0] == spec_dec(n / 10)[0]);
        assert forall|i: int| 0 <= i < s.len() implies is_digit(#[trigger] s[i]) by {
            if i < s.len() - 1 {
                assert(s[i] == spec_dec(n / 10)[i]);
            }
        }
    }
    if n <= u64::MAX {
        assert(u64_digits(spec_dec(n)) =~= spec_dec(n));
    }
}

/// One digit as a borrowed string slice.
fn digit_str(d: u64) -> (r: &'static str)
    requires
        d < 10,
    ensures
        r@ =~= seq![digit_char(d as nat)],
{
    let digits = "0123456789";
    proof {
        reveal_strlit("0123456789");
    }
    let r = digits.substring_ascii(d as usize, d as usize + 1);
    proof {
        assert(r@ =~= seq![digit_char(d as nat)]);
    }
    r
}

/// Renders `n` in decimal.
pub fn u64_to_dec(n: u64) -> (r: String)
    ensures
        r@ == spec_dec(n as nat),
    decreases n,
{
    if n < 10 {
        String::from_str(digit_str(n))
    } else {
        let mut s = u64_to_dec(n / 10);
        s.append(digit_str(n % 10));
        proof {
            assert(s@ =~= spec_dec((n / 10) as nat).push(digit_char((n % 10) as nat)));
        }
        s
    }
}

/// The value of a digit character, or `10` for any other character.
fn char_digit(c: char) -> (r: u64)
    ensures
        is_digit(c) ==> r == digit_val(c),
        !is_digit(c) ==> r == 10,
{
    if c == '0' {
        0
    } else if c == '1' {
        1
    } else if c == '2' {
        2
    } else if c == '3' {
        3
    } else if c == '4' {
        4
    } else if c == '5' {
        5
    } else if c == '6' {
        6
    } else if c == '7' {
        7
    } else if c == '8' {
        8
    } else if c == '9' {
        9
    } else {
        10
    }
}

/// Parses `s` as a `u64`, exactly as the run's numeric arguments and the
/// numeric filename tokens are read: `Some` on precisely the strings
/// `is_u64_string` admits, carrying their value.
pub fn parse_u64(s: &str) -> (r: Option<u64>)
    ensures
        r is Some <==> is_u64_string(s@),
        r is Some ==> r->0 == u64_string_val(s@),
{
    let len = s.unicode_len();
    let ghost digits: Seq<char> = u64_digits(s@);
    let mut j: usize = 0;
    if len >= 1 && s.get_char(0) == '+' {
        j = 1;
    }
    let ghost base: int = j as int;
    if j == len {
        proof {
            assert(digits.len() == 0);
        }
        return None;
    }
    let mut acc: u64 = 0;
    while j < len
        invariant
            base <= j <= len,
            len == s@.len(),
            base == (if s@.len() >= 1 && s@[0] == '+' {
                1int
            } else {
                0int
            }),
            digits == u64_digits(s@),
            digits.len() == len - base,
            all_digits(digits.take(j - base)),
            acc == spec_val(digits.take(j - base)),
        decreases len - j,
    {
        let c = s.get_char(j);
        proof {
            assert(digits[j - base] == s@[j as int]);
        }
        let d = char_digit(c);
        if d == 10 {
            proof {
                assert(!is_digit(digits[j - base]));
            }
            return None;
        }
        let shifted = match acc.checked_mul(10) {
            Some(v) => v,
            None => {
                proof {
                    lemma_overflow_means_reject(digits, j - base, acc as int, d as int);
                }
                return None;
            },
        };
        let next = match shifted.checked_add(d) {
            Some(v) => v,
            None => {
                proof {
                    lemma_overflow_means_reject(digits, j - base, acc as int, d as int);
                }
                return None;
            },
        };
        proof {
            assert(digits.take(j - base + 1).drop_last() =~= digits.take(j - base));
            assert(all_digits(digits.take(j - base + 1)));
        }
        acc = next;
        j = j + 1;
    }
    proof {
        assert(digits.take(j - base) =~= digits);
    }
    Some(acc)
}

/// If appending digit `d` to a prefix worth `acc` leaves the `u64` range,
/// the whole digit string is worth too much to be accepted.
proof fn lemma_overflow_means_reject(digits: Seq<char>, k: int, acc: int, d: int)
    requires
        0 <= k < digits.len(),
        all_digits(digits.take(k)),
        is_digit(digits[k]),
        acc == spec_val(digits.take(k)),
        d == digit_val(digits[k]),
        acc * 10 + d > u64::MAX,
    ensures
        !is_u64_string_tail(digits),
{
    assert(digits.take(k + 1).drop_last() =~= digits.take(k));
    assert(spec_val(digits.take(k + 1)) == acc * 10 + d);
    if all_digits(digits) {
        lemma_spec_val_prefix_le(digits, k + 1);
    }
}

} // verus!
