//! Decimal integers: Rust's `FromStr` for integers and `Display` for them.

use vstd::prelude::*;
use crate::text::push_char;

verus! {

/// An ASCII decimal digit.
pub open spec fn is_digit(c: char) -> bool {
    '0' <= c && c <= '9'
}

/// Every character is a decimal digit.
pub open spec fn all_digits(s: Seq<char>) -> bool {
    forall|i: int| 0 <= i < s.len() ==> #[trigger] is_digit(s[i])
}

/// The value of a decimal digit.
pub open spec fn digit_val(c: char) -> int {
    (c as int) - ('0' as int)
}

/// The value of a string of decimal digits.
pub open spec fn digits_val(s: Seq<char>) -> int
    decreases s.len(),
{
    if s.len() == 0 {
        0
    } else {
        10 * digits_val(s.drop_last()) + digit_val(s.last())
    }
}

/// What `str::parse` reads as an integer, before the range check of the target type:
/// an optional `+` (or `-` when `signed`), then one or more decimal digits.
pub open spec fn parse_decimal(s: Seq<char>, signed: bool) -> Option<int> {
    if s.len() == 0 {
        None
    } else {
        let neg = signed && s[0] == '-';
        let digits = if s[0] == '+' || neg {
            s.drop_first()
        } else {
            s
        };
        if digits.len() == 0 || !all_digits(digits) {
            None
        } else if neg {
            Some(-digits_val(digits))
        } else {
            Some(digits_val(digits))
        }
    }
}

/// `str::parse::<i64>()`, as an option.
pub open spec fn parse_i64_spec(s: Seq<char>) -> Option<i64> {
    match parse_decimal(s, true) {
        Some(v) => if i64::MIN <= v <= i64::MAX {
            Some(v as i64)
        } else {
            None
        },
        None => None,
    }
}

/// `str::parse::<u64>()`, as an option.
pub open spec fn parse_u64_spec(s: Seq<char>) -> Option<u64> {
    match parse_decimal(s, false) {
        Some(v) => if 0 <= v <= u64::MAX {
            Some(v as u64)
        } else {
            None
        },
        None => None,
    }
}

/// The value of a digit string is not negative.
pub proof fn lemma_digits_val_nonneg(s: Seq<char>)
    requires
        all_digits(s),
    ensures
        digits_val(s) >= 0,
    decreases s.len(),
{
    if s.len() > 0 {
        assert(is_digit(s[s.len() - 1]));
        lemma_digits_val_nonneg(s.drop_last());
    }
}

/// A longer digit string is worth at least as much as its prefix.
pub proof fn lemma_digits_val_mono(s: Seq<char>, k: int)
    requires
        all_digits(s),
        0 <= k <= s.len(),
    ensures
        digits_val(s.take(k)) <= digits_val(s),
    decreases s.len(),
{
    if k < s.len() {
        assert(s.drop_last().take(k) =~= s.take(k));
        assert(is_digit(s[s.len() - 1]));
        lemma_digits_val_nonneg(s.drop_last());
        lemma_digits_val_mono(s.drop_last(), k);
    } else {
        assert(s.take(k) =~= s);
    }
}

/// The value of `v[lo..]` read as decimal digits, if it is non-empty, all digits and
/// at most `limit`.
fn parse_magnitude(v: &Vec<char>, lo: usize, limit: u64) -> (r: Option<u64>)
    requires
        lo <= v.len(),
        limit >= 9,
    ensures
        ({
            let d = v@.skip(lo as int);
            match r {
                Some(m) => d.len() > 0 && all_digits(d) && digits_val(d) == m as int && m <= limit,
                None => d.len() == 0 || !all_digits(d) || digits_val(d) > limit,
            }
        }),
{
    let ghost d = v@.skip(lo as int);
    if lo == v.len() {
        return None;
    }
    let mut m: u64 = 0;
    let mut i: usize = lo;
    while i < v.len()
        invariant
            lo <= i <= v.len(),
            d == v@.skip(lo as int),
            all_digits(d.take(i - lo)),
            digits_val(d.take(i - lo)) == m as int,
            m <= limit,
            limit >= 9,
        decreases v.len() - i,
    {
        let c = v[i];
        assert(d.take(i + 1 - lo).drop_last() =~= d.take(i - lo));
        assert(d.take(i + 1 - lo).last() == c);
        if c < '0' || c > '9' {
            assert(!is_digit(d[i - lo]));
            return None;
        }
        let dig = (c as u32 - '0' as u32) as u64;
        assert(all_digits(d.take(i + 1 - lo)));
        if m > (limit - dig) / 10 {
            proof {
                assert(digits_val(d.take(i + 1 - lo)) > limit) by (nonlinear_arith)
                    requires
                        digits_val(d.take(i + 1 - lo)) == 10 * (m as int) + dig,
                        m > (limit - dig) / 10,
                        dig <= 9,
                        dig <= limit || m > 0,
                ;
                if all_digits(d) {
                    lemma_digits_val_mono(d, i + 1 - lo);
                }
            }
            return None;
        }
        proof {
            assert(10 * (m as int) + dig <= limit) by (nonlinear_arith)
                requires
                    m <= (limit - dig) / 10,
                    dig <= limit,
            ;
        }
        m = m * 10 + dig;
        i = i + 1;
    }
    assert(d.take(v.len() - lo) =~= d);
    Some(m)
}

/// `str::parse::<i64>()` on a character vector, as an option.
pub fn parse_i64(v: &Vec<char>) -> (r: Option<i64>)
    ensures
        r == parse_i64_spec(v@),
{
    if v.len() == 0 {
        return None;
    }
    let neg = v[0] == '-';
    let lo: usize = if v[0] == '+' || neg {
        1
    } else {
        0
    };
    let ghost digits = v@.skip(lo as int);
    assert(lo == 1 ==> digits =~= v@.drop_first());
    assert(lo == 0 ==> digits =~= v@);
    let limit: u64 = if neg {
        0x8000_0000_0000_0000
    } else {
        0x7fff_ffff_ffff_ffff
    };
    match parse_magnitude(v, lo, limit) {
        Some(m) => {
            if neg {
                if m == 0x8000_0000_0000_0000 {
                    Some(i64::MIN)
                } else {
                    Some(-(m as i64))
                }
            } else {
                Some(m as i64)
            }
        },
        None => None,
    }
}

/// `str::parse::<u64>()` on a character vector, as an option.
pub fn parse_u64(v: &Vec<char>) -> (r: Option<u64>)
    ensures
        r == parse_u64_spec(v@),
{
    if v.len() == 0 {
        return None;
    }
    let lo: usize = if v[0] == '+' {
        1
    } else {
        0
    };
    let ghost digits = v@.skip(lo as int);
    assert(lo == 1 ==> digits =~= v@.drop_first());
    assert(lo == 0 ==> digits =~= v@);
    match parse_magnitude(v, lo, u64::MAX) {
        Some(m) => Some(m),
        None => None,
    }
}

/// The decimal digits of `n`, without leading zeros ("0" for zero).
pub open spec fn decimal(n: nat) -> Seq<char>
    decreases n,
{
    if n < 10 {
        seq![digit_char(n)]
    } else {
        decimal(n / 10).push(digit_char(n % 10))
    }
}

/// The digit character for a value below ten.
pub open spec fn digit_char(d: nat) -> char {
    (('0' as nat) + d) as char
}

/// `Display` of a signed integer: a `-` before the digits of a negative number.
pub open spec fn decimal_int(n: int) -> Seq<char> {
    if n < 0 {
        seq!['-'] + decimal((-n) as nat)
    } else {
        decimal(n as nat)
    }
}

/// Every number has at least one digit.
pub proof fn lemma_decimal_nonempty(n: nat)
    ensures
        decimal(n).len() >= 1,
    decreases n,
{
    if n >= 10 {
        lemma_decimal_nonempty(n / 10);
    }
}

/// Different numbers are written differently.
pub proof fn lemma_decimal_injective(a: nat, b: nat)
    requires
        decimal(a) == decimal(b),
    ensures
        a == b,
    decreases a,
{
    if a < 10 && b < 10 {
        assert(decimal(a)[0] == digit_char(a));
        assert(decimal(b)[0] == digit_char(b));
    } else if a < 10 {
        lemma_decimal_nonempty(b / 10);
        assert(decimal(a).len() == 1);
    } else if b < 10 {
        lemma_decimal_nonempty(a / 10);
        assert(decimal(b).len() == 1);
    } else {
        assert(decimal(a).last() == digit_char(a % 10));
        assert(decimal(b).last() == digit_char(b % 10));
        assert(decimal(a).drop_last() =~= decimal(a / 10));
        assert(decimal(b).drop_last() =~= decimal(b / 10));
        lemma_decimal_injective(a / 10, b / 10);
    }
}

/// Appends the decimal digits of `n` to `s`.
pub fn push_decimal(s: &mut String, n: u64)
    ensures
        final(s)@ == old(s)@ + decimal(n as nat),
    decreases n,
{
    if n >= 10 {
        push_decimal(s, n / 10);
    }
    let d = (n % 10) as u32;
    let c = char_from_digit(d);
    push_char(s, c);
    proof {
        if n >= 10 {
            assert(old(s)@ + decimal(n as nat) =~= old(s)@ + decimal((n / 10) as nat) + seq![c]);
        } else {
            assert(old(s)@ + decimal(n as nat) =~= old(s)@ + seq![c]);
        }
    }
}

fn char_from_digit(d: u32) -> (c: char)
    requires
        d < 10,
    ensures
        c == digit_char(d as nat),
{
    if d == 0 { '0' } else if d == 1 { '1' } else if d == 2 { '2' } else if d == 3 { '3' } else if d
        == 4 { '4' } else if d == 5 { '5' } else if d == 6 { '6' } else if d == 7 { '7' } else if d
        == 8 { '8' } else { '9' }
}

/// Appends `n.to_string()` for a signed integer.
pub fn push_decimal_i64(s: &mut String, n: i64)
    ensures
        final(s)@ == old(s)@ + decimal_int(n as int),
{
    if n < 0 {
        push_char(s, '-');
        let m: u64 = if n == i64::MIN {
            0x8000_0000_0000_0000
        } else {
            (-n) as u64
        };
        push_decimal(s, m);
        assert(final(s)@ =~= old(s)@ + decimal_int(n as int));
    } else {
        push_decimal(s, n as u64);
    }
}


/// Appends the decimal digits of a 128-bit `n` to `s`.
pub fn push_decimal_u128(s: &mut String, n: u128)
    ensures
        final(s)@ == old(s)@ + decimal(n as nat),
    decreases n,
{
    if n >= 10 {
        push_decimal_u128(s, n / 10);
    }
    let d = (n % 10) as u32;
    let c = char_from_digit(d);
    push_char(s, c);
    proof {
        if n >= 10 {
            assert(old(s)@ + decimal(n as nat) =~= old(s)@ + decimal((n / 10) as nat) + seq![c]);
        } else {
            assert(old(s)@ + decimal(n as nat) =~= old(s)@ + seq![c]);
        }
    }
}

/// `2^n`.
pub open spec fn pow2(n: nat) -> nat
    decreases n,
{
    if n == 0 {
        1
    } else {
        2 * pow2((n - 1) as nat)
    }
}

/// The number of binary digits of `n`.
pub open spec fn bit_len(n: nat) -> nat
    decreases n,
{
    if n == 0 {
        0
    } else {
        1 + bit_len(n / 2)
    }
}

/// `n / d` rounded to the nearest integer, ties to even.
pub open spec fn round_half_even(n: nat, d: nat) -> nat {
    let q = n / d;
    let r = n % d;
    if 2 * r > d || (2 * r == d && q % 2 == 1) {
        q + 1
    } else {
        q
    }
}

/// The value of `n as f64`: `n` rounded to 53 significant bits, ties to even.
pub open spec fn as_f64(n: nat) -> nat {
    if bit_len(n) <= 53 {
        n
    } else {
        let s = (bit_len(n) - 53) as nat;
        round_half_even(n, pow2(s)) * pow2(s)
    }
}

proof fn lemma_pow2_pos(n: nat)
    ensures
        pow2(n) >= 1,
    decreases n,
{
    if n > 0 {
        lemma_pow2_pos((n - 1) as nat);
    }
}

proof fn lemma_pow2_mono(i: nat, k: nat)
    requires
        i <= k,
    ensures
        pow2(i) <= pow2(k),
    decreases k,
{
    if i < k {
        lemma_pow2_mono(i, (k - 1) as nat);
        lemma_pow2_pos((k - 1) as nat);
    }
}

proof fn lemma_bit_len_bound(n: nat, k: nat)
    requires
        n < pow2(k),
    ensures
        bit_len(n) <= k,
    decreases k,
{
    if n > 0 {
        if k == 0 {
        } else {
            lemma_bit_len_bound(n / 2, (k - 1) as nat);
        }
    }
}

proof fn lemma_pow2_values()
    ensures
        pow2(11) == 2048,
        pow2(63) == 0x8000_0000_0000_0000,
{
    reveal_with_fuel(pow2, 64);
}

/// `n as f64`, as an integer, for `n` below `2^63`.
pub fn as_f64_exec(n: u64) -> (r: u128)
    requires
        n < 0x8000_0000_0000_0000,
    ensures
        r as nat == as_f64(n as nat),
        r <= 0x1_0000_0000_0000_0000,
{
    let mut m: u64 = n;
    let mut len: u64 = 0;
    while m > 0
        invariant
            bit_len(n as nat) == len + bit_len(m as nat),
            len <= 64,
            m <= n,
            n < 0x8000_0000_0000_0000,
        decreases m,
    {
        proof {
            lemma_pow2_values();
            lemma_bit_len_bound(n as nat, 63);
        }
        m = m / 2;
        len = len + 1;
    }
    if len <= 53 {
        return n as u128;
    }
    proof {
        lemma_pow2_values();
        lemma_bit_len_bound(n as nat, 63);
    }
    let s = len - 53;
    let mut d: u128 = 1;
    let mut i: u64 = 0;
    while i < s
        invariant
            i <= s <= 10,
            d as nat == pow2(i as nat),
        decreases s - i,
    {
        proof {
            lemma_pow2_mono(i as nat, 10);
            reveal_with_fuel(pow2, 11);
        }
        d = d * 2;
        i = i + 1;
    }
    proof {
        lemma_pow2_pos(s as nat);
        lemma_pow2_mono(s as nat, 10);
        reveal_with_fuel(pow2, 11);
    }
    let nn = n as u128;
    let q = nn / d;
    let rem = nn % d;
    let q2 = if 2 * rem > d || (2 * rem == d && q % 2 == 1) {
        q + 1
    } else {
        q
    };
    proof {
        vstd::arithmetic::div_mod::lemma_fundamental_div_mod(nn as int, d as int);
        assert(q2 * d <= nn + d) by (nonlinear_arith)
            requires
                nn == d * q + rem,
                q2 <= q + 1,
                d > 0,
        ;
    }
    q2 * d
}

} // verus!
