//! Decimal text form of fixed-point values: parsing user-entered amounts
//! such as `"58.1130"` into scaled integers, and rounding for two-decimal
//! display. A literal is one to fourteen integer digits, optionally
//! followed by a dot and one to four fraction digits.

use crate::fixed::SCALE;
use vstd::prelude::*;

verus! {

/// A decimal digit character.
pub open spec fn is_digit(c: char) -> bool {
    48 <= c as u32 <= 57
}

/// Numeric value of a digit character.
pub open spec fn digit_val(c: char) -> int {
    c as u32 - 48
}

/// Every character of the sequence is a decimal digit.
pub open spec fn all_digits(s: Seq<char>) -> bool {
    forall|i: int| 0 <= i < s.len() ==> is_digit(#[trigger] s[i])
}

/// Value of a digit string read most significant first.
pub open spec fn digits_val(s: Seq<char>) -> int
    decreases s.len(),
{
    if s.len() == 0 {
        0
    } else {
        digits_val(s.drop_last()) * 10 + digit_val(s.last())
    }
}

/// Ten to the `n`.
pub open spec fn pow10(n: nat) -> int
    decreases n,
{
    if n == 0 {
        1
    } else {
        10 * pow10((n - 1) as nat)
    }
}

/// Position of the first `'.'`, or the length when there is none.
pub open spec fn first_dot(s: Seq<char>) -> int
    decreases s.len(),
{
    if s.len() == 0 {
        0
    } else if s[0] == '.' {
        0
    } else {
        1 + first_dot(s.drop_first())
    }
}

/// A fixed-point literal: one to fourteen integer digits, optionally
/// followed by a dot and one to four fraction digits. Fourteen integer
/// digits keep every literal's value inside `i64`.
pub open spec fn valid_fixed_literal(s: Seq<char>) -> bool {
    let k = first_dot(s);
    &&& 1 <= k <= 14
    &&& all_digits(s.take(k))
    &&& (k < s.len() ==> 1 <= s.len() - k - 1 <= 4 && all_digits(s.skip(k + 1)))
}

/// Value of a valid literal as a fixed-point integer: the integer part
/// scaled by `SCALE` plus the fraction digits padded to four places.
pub open spec fn fixed_literal_value(s: Seq<char>) -> int {
    let k = first_dot(s);
    if k == s.len() {
        digits_val(s) * SCALE
    } else {
        digits_val(s.take(k)) * SCALE + digits_val(s.skip(k + 1)) * pow10(
            (4 - (s.len() - k - 1)) as nat,
        )
    }
}

/// Powers of ten are positive.
proof fn lemma_pow10_pos(n: nat)
    ensures
        pow10(n) >= 1,
    decreases n,
{
    if n > 0 {
        lemma_pow10_pos((n - 1) as nat);
    }
}

/// Larger exponents give larger powers.
proof fn lemma_pow10_monotone(a: nat, b: nat)
    requires
        a <= b,
    ensures
        pow10(a) <= pow10(b),
    decreases b,
{
    if a < b {
        lemma_pow10_monotone(a, (b - 1) as nat);
        lemma_pow10_pos((b - 1) as nat);
    }
}

/// A digit string's value is nonnegative and below ten to its length.
proof fn lemma_digits_val_bound(s: Seq<char>)
    requires
        all_digits(s),
    ensures
        0 <= digits_val(s) < pow10(s.len()),
    decreases s.len(),
{
    if s.len() > 0 {
        assert(all_digits(s.drop_last())) by {
            assert(forall|i: int|
                0 <= i < s.len() - 1 ==> #[trigger] s.drop_last()[i] == s[i]);
        }
        lemma_digits_val_bound(s.drop_last());
    }
}

/// `first_dot` is the position reached by a first-match scan.
proof fn lemma_first_dot_at(s: Seq<char>, i: int)
    requires
        0 <= i <= s.len(),
        forall|j: int| 0 <= j < i ==> s[j] != '.',
        i < s.len() ==> s[i] == '.',
    ensures
        first_dot(s) == i,
    decreases s.len(),
{
    if s.len() > 0 && s[0] != '.' {
        let rest = s.drop_first();
        assert(forall|j: int| 0 <= j < i - 1 ==> rest[j] == s[j + 1]);
        lemma_first_dot_at(rest, i - 1);
    }
}

/// Reads a digit string `digits` from position `from` to `to` of `s`,
/// returning its value; refuses a non-digit.
fn scan_digits(s: &str, from: usize, to: usize) -> (r: Option<u64>)
    requires
        from <= to <= s@.len(),
        to - from <= 14,
    ensures
        match r {
            Some(v) => all_digits(s@.subrange(from as int, to as int)) && v == digits_val(
                s@.subrange(from as int, to as int),
            ),
            None => !all_digits(s@.subrange(from as int, to as int)),
        },
{
    let ghost digits = s@.subrange(from as int, to as int);
    let mut acc: u64 = 0;
    let mut i: usize = from;
    while i < to
        invariant
            from <= i <= to <= s@.len(),
            to - from <= 14,
            digits == s@.subrange(from as int, to as int),
            all_digits(digits.take(i - from)),
            acc == digits_val(digits.take(i - from)),
            acc < 100_000_000_000_000,
        decreases to - i,
    {
        let c = s.get_char(i);
        let u = c as u32;
        proof {
            assert(digits[i - from] == s@[i as int]);
        }
        if u < 48 || u > 57 {
            proof {
                assert(!is_digit(digits[i - from]));
            }
            return None;
        }
        let d = (u - 48) as u64;
        proof {
            let prefix = digits.take(i - from + 1);
            assert(prefix.drop_last() =~= digits.take(i - from));
            assert(prefix.last() == digits[i - from]);
            assert(all_digits(prefix)) by {
                assert(forall|j: int| 0 <= j < prefix.len() ==> prefix[j] == digits[j]);
            }
            lemma_digits_val_bound(prefix);
            lemma_pow10_monotone(prefix.len(), 14nat);
            assert(pow10(14nat) == 100_000_000_000_000) by {
                reveal_with_fuel(pow10, 15);
            }
        }
        acc = acc * 10 + d;
        i = i + 1;
    }
    proof {
        assert(digits.take(to - from) =~= digits);
    }
    Some(acc)
}

/// Parses a fixed-point literal: one to fourteen integer digits,
/// optionally a dot and one to four fraction digits. Returns the scaled
/// value, or `None` for any other text.
pub fn parse_fixed(s: &str) -> (r: Option<i64>)
    ensures
        match r {
            Some(v) => valid_fixed_literal(s@) && v == fixed_literal_value(s@),
            None => !valid_fixed_literal(s@),
        },
{
    let n = s.unicode_len();
    let mut dot: usize = n;
    let mut i: usize = 0;
    while i < n && dot == n
        invariant
            0 <= i <= n,
            n == s@.len(),
            dot == n || (dot < i && s@[dot as int] == '.'),
            dot == n ==> forall|j: int| 0 <= j < i ==> s@[j] != '.',
            dot < n ==> forall|j: int| 0 <= j < dot ==> s@[j] != '.',
        decreases n - i,
    {
        if s.get_char(i) == '.' {
            dot = i;
        }
        i = i + 1;
    }
    proof {
        lemma_first_dot_at(s@, dot as int);
    }
    if dot < 1 || dot > 14 {
        return None;
    }
    let int_val = match scan_digits(s, 0, dot) {
        Some(v) => v,
        None => {
            proof {
                assert(s@.subrange(0, dot as int) =~= s@.take(dot as int));
            }
            return None;
        },
    };
    proof {
        assert(s@.subrange(0, dot as int) =~= s@.take(dot as int));
        lemma_digits_val_bound(s@.take(dot as int));
        lemma_pow10_monotone(s@.take(dot as int).len(), 14nat);
        assert(pow10(14nat) == 100_000_000_000_000) by {
            reveal_with_fuel(pow10, 15);
        }
    }
    if dot == n {
        proof {
            assert(s@.take(dot as int) =~= s@);
        }
        return Some((int_val * SCALE) as i64);
    }
    let frac_len = n - dot - 1;
    if frac_len < 1 || frac_len > 4 {
        return None;
    }
    let frac_val = match scan_digits(s, dot + 1, n) {
        Some(v) => v,
        None => {
            proof {
                assert(s@.subrange(dot + 1, n as int) =~= s@.skip(dot + 1));
            }
            return None;
        },
    };
    let frac_scale: u64 = if frac_len == 1 {
        1000
    } else if frac_len == 2 {
        100
    } else if frac_len == 3 {
        10
    } else {
        1
    };
    proof {
        assert(s@.subrange(dot + 1, n as int) =~= s@.skip(dot + 1));
        lemma_digits_val_bound(s@.skip(dot + 1));
        lemma_pow10_monotone(s@.skip(dot + 1).len(), 4nat);
        assert(pow10(4nat) == 10_000 && pow10(3nat) == 1_000 && pow10(2nat) == 100 && pow10(1nat)
            == 10 && pow10(0nat) == 1) by {
            reveal_with_fuel(pow10, 5);
        }
        assert(frac_scale == pow10((4 - frac_len) as nat));
    }
    Some((int_val * SCALE + frac_val * frac_scale) as i64)
}

/// Rounds a nonnegative fixed-point value half up to hundredths, for
/// two-decimal display: the result counts hundredths of a unit.
pub fn round_to_cents(v: i64) -> (r: i64)
    requires
        v >= 0,
    ensures
        r == (v + 50) / 100,
{
    (((v as u64) + 50) / 100) as i64
}

} // verus!
