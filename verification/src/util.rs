//! The confidence score used to rank builds.
//!
//! The score is the Wilson lower confidence bound of a win rate at a fixed
//! high confidence level (z = 4.265, about 99.999% one-sided), which
//! penalizes small samples relative to the raw win percentage. It is
//! computed in fixed-point arithmetic, everything scaled by one million:
//! `18_190_225` is the scaled z^2, `9_095_112` the scaled z^2 / 2 rounded
//! down, `18_190_225_000_000` the scaled z^2 times the scale, and
//! `82_721_071_387_656` (= 9_095_112^2 + 9_095_112) the floor of the
//! scaled z^4 / 4. The result lies in `0 ..= 1_000_000` and stands for a
//! fraction of one.

use vstd::prelude::*;
use vstd::arithmetic::div_mod::lemma_div_is_ordered;
use vstd::arithmetic::div_mod::lemma_div_nonincreasing;
use vstd::arithmetic::div_mod::lemma_div_of0;
use vstd::arithmetic::div_mod::lemma_fundamental_div_mod;
use vstd::arithmetic::div_mod::lemma_mod_division_less_than_divisor;
use vstd::arithmetic::div_mod::lemma_multiply_divide_le;
use vstd::arithmetic::div_mod::lemma_multiply_divide_lt;

verus! {

/// The fixed-point scale: a score of `WIN_RATE_SCALE` stands for 1.0.
pub const WIN_RATE_SCALE: u64 = 1_000_000;

/// The integer square root: the largest `r` with `r * r <= x`.
pub open spec fn isqrt_spec(x: int) -> int
    decreases x,
{
    if x < 1 {
        0
    } else {
        let r = isqrt_spec(x - 1);
        if (r + 1) * (r + 1) <= x {
            r + 1
        } else {
            r
        }
    }
}

/// `isqrt_spec` is sound: it is the floor of the real square root.
pub proof fn lemma_isqrt_bounds(x: int)
    requires
        x >= 0,
    ensures
        isqrt_spec(x) >= 0,
        isqrt_spec(x) * isqrt_spec(x) <= x,
        x < (isqrt_spec(x) + 1) * (isqrt_spec(x) + 1),
    decreases x,
{
    if x == 0 {
        assert(isqrt_spec(0) == 0);
    } else {
        lemma_isqrt_bounds(x - 1);
        let r = isqrt_spec(x - 1);
        if (r + 1) * (r + 1) <= x {
            assert(x - 1 < (r + 1) * (r + 1));
            assert(x < (r + 2) * (r + 2)) by (nonlinear_arith)
                requires
                    x <= (r + 1) * (r + 1),
                    r >= 0,
            {}
        } else {
            assert(r * r <= x - 1);
        }
    }
}

/// The integer square root is determined by its defining bounds.
pub proof fn lemma_isqrt_unique(x: int, r: int)
    requires
        x >= 0,
        r >= 0,
        r * r <= x,
        x < (r + 1) * (r + 1),
    ensures
        r == isqrt_spec(x),
{
    lemma_isqrt_bounds(x);
    let s = isqrt_spec(x);
    if r < s {
        assert(s * s > x) by (nonlinear_arith)
            requires
                0 <= r < s,
                x < (r + 1) * (r + 1),
        {}
    }
    if s < r {
        assert(r * r > x) by (nonlinear_arith)
            requires
                0 <= s < r,
                x < (s + 1) * (s + 1),
        {}
    }
}

/// The integer square root never decreases.
pub proof fn lemma_isqrt_monotonic(x: int, y: int)
    requires
        0 <= x <= y,
    ensures
        isqrt_spec(x) <= isqrt_spec(y),
{
    lemma_isqrt_bounds(x);
    lemma_isqrt_bounds(y);
    let a = isqrt_spec(x);
    let b = isqrt_spec(y);
    if b < a {
        assert(a * a > y) by (nonlinear_arith)
            requires
                0 <= b < a,
                y < (b + 1) * (b + 1),
        {}
    }
}

/// The Wilson lower-bound score, scaled by one million. Wins beyond the
/// number of games played count as the number played; zero games played
/// scores zero.
pub open spec fn win_rate_spec(won: nat, played: nat) -> int {
    if played == 0 {
        0
    } else {
        let w = if won > played {
            played as int
        } else {
            won as int
        };
        let n = played as int;
        let t = (18_190_225_000_000 * w * (n - w)) / n;
        let s = isqrt_spec(t + 82_721_071_387_656);
        let num = w * 1_000_000 + 9_095_112 - s;
        (num * 1_000_000) / (n * 1_000_000 + 18_190_225)
    }
}

/// The largest `r` with `r * r <= x`, for inputs below 2^110.
fn isqrt(x: u128) -> (r: u128)
    requires
        x < 0x4000_0000_0000_0000_0000_0000_0000,
    ensures
        r == isqrt_spec(x as int),
{
    let mut lo: u128 = 0;
    let mut hi: u128 = 0x80_0000_0000_0000;
    while lo + 1 < hi
        invariant
            x < 0x4000_0000_0000_0000_0000_0000_0000,
            lo < hi,
            hi <= 0x80_0000_0000_0000,
            (lo as int) * (lo as int) <= x,
            x < (hi as int) * (hi as int),
        decreases hi - lo,
    {
        let mid = lo + (hi - lo) / 2;
        assert(lo < mid < hi);
        proof {
            assert((mid as int) * (mid as int) < 0x4000_0000_0000_0000_0000_0000_0000)
                by (nonlinear_arith)
                requires
                    0 <= (mid as int) < 0x80_0000_0000_0000,
            {}
        }
        let sq = mid * mid;
        if sq <= x {
            lo = mid;
        } else {
            hi = mid;
        }
    }
    proof {
        lemma_isqrt_unique(x as int, lo as int);
    }
    lo
}

/// The Wilson lower-bound confidence score for `games_won` out of
/// `games_played`, scaled by one million. Pure; zero games played gives
/// zero, and the result always lies in `0 ..= WIN_RATE_SCALE`.
pub fn calc_win_rate(games_won: u32, games_played: u32) -> (r: u64)
    ensures
        r == win_rate_spec(games_won as nat, games_played as nat),
        0 <= r <= WIN_RATE_SCALE,
        games_played == 0 ==> r == 0,
{
    if games_played == 0 {
        return 0;
    }
    let w128: u128 = if games_won > games_played {
        games_played as u128
    } else {
        games_won as u128
    };
    let n128: u128 = games_played as u128;
    let ghost w = w128 as int;
    let ghost n = n128 as int;
    let ghost prod = 18_190_225_000_000 * w * (n - w);

    proof {
        assert(prod < 0x4000_0000_0000_0000_0000_0000_0000 - 82_721_071_387_656)
            by (nonlinear_arith)
            requires
                prod == 18_190_225_000_000 * w * (n - w),
                0 <= w < 0x1_0000_0000,
                0 <= n - w < 0x1_0000_0000,
        {}
    }
    let t: u128 = (18_190_225_000_000u128 * w128 * (n128 - w128)) / n128;
    proof {
        lemma_div_nonincreasing(prod, n);
    }
    let s: u128 = isqrt(t + 82_721_071_387_656);
    proof {
        // The numerator cannot go negative: (w * 10^6 + z^2/2)^2 bounds
        // t + z^4/4, so the square root is at most w * 10^6 + z^2/2.
        let g: int = t + 82_721_071_387_656;
        if w == 0 {
            assert(prod == 0) by (nonlinear_arith)
                requires
                    prod == 18_190_225_000_000 * w * (n - w),
                    w == 0,
            {}
            lemma_div_of0(n);
            lemma_isqrt_unique(82_721_071_387_656, 9_095_112);
            assert(s == 9_095_112);
        } else {
            assert(prod <= n * (18_190_225_000_000 * w)) by (nonlinear_arith)
                requires
                    prod == 18_190_225_000_000 * w * (n - w),
                    0 <= w <= n,
            {}
            lemma_multiply_divide_le(prod, n, 18_190_225_000_000 * w);
            assert(g <= (w * 1_000_000 + 9_095_112) * (w * 1_000_000 + 9_095_112))
                by (nonlinear_arith)
                requires
                    g == t + 82_721_071_387_656,
                    t <= 18_190_225_000_000 * w,
                    w >= 1,
            {}
            lemma_isqrt_bounds(g);
            assert(isqrt_spec(g) <= w * 1_000_000 + 9_095_112) by (nonlinear_arith)
                requires
                    isqrt_spec(g) >= 0,
                    isqrt_spec(g) * isqrt_spec(g) <= g,
                    g <= (w * 1_000_000 + 9_095_112) * (w * 1_000_000 + 9_095_112),
                    w >= 0,
            {}
        }
    }
    let num: u128 = w128 * 1_000_000 + 9_095_112 - s;
    let den: u128 = n128 * 1_000_000 + 18_190_225;
    proof {
        assert(num < den);
        assert(num * 1_000_000 < den * 1_000_000) by (nonlinear_arith)
            requires
                0 <= num < den,
        {}
        lemma_multiply_divide_lt(num * 1_000_000, den as int, 1_000_000int);
    }
    let r128: u128 = (num * 1_000_000) / den;
    r128 as u64
}

/// A nonnegative value divided by a positive one stays nonnegative.
proof fn lemma_div_nonnegative(x: int, d: int)
    requires
        x >= 0,
        d >= 1,
    ensures
        x / d >= 0,
{
    lemma_fundamental_div_mod(x, d);
    lemma_mod_division_less_than_divisor(x, d);
    assert(x / d >= 0) by (nonlinear_arith)
        requires
            x == d * (x / d) + x % d,
            0 <= x % d < d,
            x >= 0,
            d >= 1,
    {}
}

/// Whether `c` is a decimal digit.
pub open spec fn is_digit_char(c: char) -> bool {
    48 <= c as int <= 57
}

/// Whether every character of `s` is a decimal digit.
pub open spec fn all_digits(s: Seq<char>) -> bool {
    forall|k: int| 0 <= k < s.len() ==> is_digit_char(s[k])
}

/// The value of a run of decimal digits, most significant first.
pub open spec fn digits_val(s: Seq<char>) -> int
    decreases s.len(),
{
    if s.len() == 0 {
        0
    } else {
        digits_val(s.drop_last()) * 10 + (s.last() as int - 48)
    }
}

/// A run of digits has a nonnegative value.
proof fn lemma_digits_val_nonneg(s: Seq<char>)
    requires
        all_digits(s),
    ensures
        digits_val(s) >= 0,
    decreases s.len(),
{
    if s.len() > 0 {
        assert(all_digits(s.drop_last()));
        lemma_digits_val_nonneg(s.drop_last());
        assert(is_digit_char(s.last()));
    }
}

/// Dropping trailing digits can only shrink the value.
proof fn lemma_digits_val_prefix_le(s: Seq<char>, i: int)
    requires
        all_digits(s),
        0 <= i <= s.len(),
    ensures
        digits_val(s.subrange(0, i)) <= digits_val(s),
    decreases s.len() - i,
{
    if i == s.len() {
        assert(s.subrange(0, i) =~= s);
    } else {
        lemma_digits_val_prefix_le(s, i + 1);
        let shorter = s.subrange(0, i);
        let longer = s.subrange(0, i + 1);
        assert(longer.drop_last() =~= shorter);
        assert(longer.last() == s[i]);
        assert(all_digits(shorter));
        lemma_digits_val_nonneg(shorter);
        assert(is_digit_char(s[i]));
    }
}

/// What `str::parse::<i64>` accepts: an optional sign, then at least one
/// digit, the whole value fitting in an `i64`.
pub open spec fn parse_i64_spec(s: Seq<char>) -> Option<i64> {
    if s.len() == 0 {
        None
    } else {
        let neg = s[0] == '-';
        let signed = s[0] == '-' || s[0] == '+';
        let digits = if signed {
            s.drop_first()
        } else {
            s
        };
        if digits.len() == 0 || !all_digits(digits) {
            None
        } else {
            let v = digits_val(digits);
            if neg {
                if v <= 0x8000_0000_0000_0000 {
                    Some((-v) as i64)
                } else {
                    None
                }
            } else {
                if v <= 0x7fff_ffff_ffff_ffff {
                    Some(v as i64)
                } else {
                    None
                }
            }
        }
    }
}

/// Parses a signed decimal integer exactly as `str::parse::<i64>` does:
/// an optional `+` or `-` sign, then one or more digits, rejecting
/// anything else and values out of range.
pub fn parse_i64(s: &str) -> (r: Option<i64>)
    ensures
        r == parse_i64_spec(s@),
{
    let len = s.unicode_len();
    if len == 0 {
        return None;
    }
    let first = s.get_char(0);
    let first_code = first as u32;
    let neg = first_code == 45;
    let signed = first_code == 45 || first_code == 43;
    proof {
        assert(neg == (s@[0] == '-'));
        assert(signed == (s@[0] == '-' || s@[0] == '+'));
    }
    let start: usize = if signed {
        1
    } else {
        0
    };
    let ghost digits: Seq<char> = if signed {
        s@.drop_first()
    } else {
        s@
    };
    if len == start {
        return None;
    }
    let mut acc: u128 = 0;
    let mut i: usize = start;
    proof {
        assert(digits =~= s@.subrange(start as int, s@.len() as int));
        assert(s@.subrange(start as int, start as int) =~= Seq::<char>::empty());
    }
    while i < len
        invariant
            start <= i <= len,
            len == s@.len(),
            s@.len() > 0,
            neg == (s@[0] == '-'),
            signed == (s@[0] == '-' || s@[0] == '+'),
            start == (if signed { 1int } else { 0int }),
            start < len,
            digits == s@.subrange(start as int, s@.len() as int),
            digits.len() > 0,
            all_digits(s@.subrange(start as int, i as int)),
            acc == digits_val(s@.subrange(start as int, i as int)),
            acc <= 0x8000_0000_0000_0000,
        decreases len - i,
    {
        let c = s.get_char(i);
        let code = c as u32;
        if code < 48 || code > 57 {
            proof {
                assert(s@[i as int] == c);
                assert(!is_digit_char(c));
                assert(digits[i - start] == s@[i as int]);
                assert(!all_digits(digits));
            }
            return None;
        }
        let d: u128 = (code - 48) as u128;
        acc = acc * 10 + d;
        proof {
            let prev = s@.subrange(start as int, i as int);
            let cur = s@.subrange(start as int, i as int + 1);
            assert(cur.drop_last() =~= prev);
            assert(cur.last() == s@[i as int]);
            assert(is_digit_char(s@[i as int]));
            assert(all_digits(cur));
            assert(d == s@[i as int] as int - 48);
            assert(acc == digits_val(cur));
        }
        i = i + 1;
        if acc > 0x8000_0000_0000_0000 {
            proof {
                // Even if the remaining characters are digits, the value
                // can only grow, so the parse is out of range either way.
                let cur = s@.subrange(start as int, i as int);
                assert(acc == digits_val(cur));
                assert(s@.drop_first() =~= s@.subrange(1, s@.len() as int));
                assert(s@.subrange(0, s@.len() as int) =~= s@);
                if all_digits(digits) {
                    lemma_digits_val_prefix_le(digits, i - start);
                    assert(digits.subrange(0, i - start) =~= cur);
                    assert(digits_val(digits) >= acc);
                }
            }
            return None;
        }
    }
    proof {
        assert(s@.subrange(start as int, i as int) =~= digits);
        lemma_digits_val_nonneg(digits);
    }
    if neg {
        if acc == 0x8000_0000_0000_0000 {
            Some(i64::MIN)
        } else {
            Some(-(acc as i64))
        }
    } else {
        if acc > 0x7fff_ffff_ffff_ffff {
            None
        } else {
            Some(acc as i64)
        }
    }
}

/// Relies on `String::push`: appends exactly the one character.
#[verifier::external_body]
pub fn push_char(s: &mut String, c: char)
    ensures
        final(s)@ == old(s)@.push(c),
{
    s.push(c);
}

/// The decimal digit character for a value below ten.
pub open spec fn digit_char(d: int) -> char {
    if d == 0 {
        '0'
    } else if d == 1 {
        '1'
    } else if d == 2 {
        '2'
    } else if d == 3 {
        '3'
    } else if d == 4 {
        '4'
    } else if d == 5 {
        '5'
    } else if d == 6 {
        '6'
    } else if d == 7 {
        '7'
    } else if d == 8 {
        '8'
    } else {
        '9'
    }
}

/// The decimal rendering of a nonnegative number, most significant
/// digit first, with no leading zeros (a lone zero for zero).
pub open spec fn dec_str_of(n: nat) -> Seq<char>
    decreases n,
{
    if n < 10 {
        seq![digit_char(n as int)]
    } else {
        dec_str_of(n / 10).push(digit_char((n % 10) as int))
    }
}

/// The decimal digit character for `d`, which must be below ten.
pub fn digit_to_char(d: u8) -> (c: char)
    requires
        d < 10,
    ensures
        c == digit_char(d as int),
{
    match d {
        0 => '0',
        1 => '1',
        2 => '2',
        3 => '3',
        4 => '4',
        5 => '5',
        6 => '6',
        7 => '7',
        8 => '8',
        _ => '9',
    }
}

/// Appends the decimal rendering of `n` to `out`.
pub fn append_u128(out: &mut String, n: u128)
    ensures
        final(out)@ == old(out)@ + dec_str_of(n as nat),
    decreases n,
{
    if n < 10 {
        push_char(out, digit_to_char(n as u8));
        proof {
            assert(old(out)@ + dec_str_of(n as nat) =~= old(out)@.push(digit_char(n as int)));
        }
    } else {
        append_u128(out, n / 10);
        push_char(out, digit_to_char((n % 10) as u8));
        proof {
            assert(old(out)@ + dec_str_of(n as nat) =~= (old(out)@ + dec_str_of(
                n as nat / 10,
            )).push(digit_char((n as nat % 10) as int)));
        }
    }
}

/// The decimal rendering of a signed number: a minus sign for negative
/// values, then the digits of the magnitude.
pub open spec fn dec_str_of_i64(v: i64) -> Seq<char> {
    if v < 0 {
        seq!['-'] + dec_str_of((-(v as int)) as nat)
    } else {
        dec_str_of(v as nat)
    }
}

/// Appends the decimal rendering of `v` to `out`, as `i64::to_string`
/// writes it.
pub fn append_i64(out: &mut String, v: i64)
    ensures
        final(out)@ == old(out)@ + dec_str_of_i64(v),
{
    if v < 0 {
        push_char(out, '-');
        let mag: u128 = (-(v as i128)) as u128;
        append_u128(out, mag);
        proof {
            assert(old(out)@ + dec_str_of_i64(v) =~= old(out)@.push('-') + dec_str_of(
                (-(v as int)) as nat,
            ));
        }
    } else {
        append_u128(out, v as u128);
    }
}

/// The score is monotonically non-decreasing in the number of wins, for a
/// fixed number of games played.
pub proof fn lemma_win_rate_monotonic(won1: nat, won2: nat, played: nat)
    requires
        won1 <= won2,
    ensures
        win_rate_spec(won1, played) <= win_rate_spec(won2, played),
{
    if played == 0 {
        return;
    }
    let n = played as int;
    let c1: int = if won1 > played {
        played as int
    } else {
        won1 as int
    };
    let c2: int = if won2 > played {
        played as int
    } else {
        won2 as int
    };
    assert(0 <= c1 <= c2 <= n);
    if c1 == c2 {
        return;
    }
    let d = c2 - c1;
    let x1 = 18_190_225_000_000 * c1 * (n - c1);
    let x2 = 18_190_225_000_000 * c2 * (n - c2);
    let t1 = x1 / n;
    let t2 = x2 / n;
    let g1 = t1 + 82_721_071_387_656;
    let g2 = t2 + 82_721_071_387_656;
    let s1 = isqrt_spec(g1);
    let s2 = isqrt_spec(g2);
    let num1 = c1 * 1_000_000 + 9_095_112 - s1;
    let num2 = c2 * 1_000_000 + 9_095_112 - s2;
    let den = n * 1_000_000 + 18_190_225;

    assert(x1 >= 0) by (nonlinear_arith)
        requires
            x1 == 18_190_225_000_000 * c1 * (n - c1),
            0 <= c1 <= n,
    {}
    assert(x2 >= 0) by (nonlinear_arith)
        requires
            x2 == 18_190_225_000_000 * c2 * (n - c2),
            0 <= c2 <= n,
    {}
    lemma_div_nonnegative(x1, n);
    lemma_div_nonnegative(x2, n);
    lemma_isqrt_bounds(g1);
    lemma_isqrt_bounds(g2);

    if g2 <= g1 {
        lemma_isqrt_monotonic(g2, g1);
        assert(num1 <= num2);
    } else {
        // First, the growth of t is bounded: t2 - t1 <= z^2 * 10^6 * d.
        lemma_fundamental_div_mod(x1, n);
        lemma_fundamental_div_mod(x2, n);
        lemma_mod_division_less_than_divisor(x1, n);
        lemma_mod_division_less_than_divisor(x2, n);
        assert(n * t2 <= x2);
        assert(x1 <= n * t1 + n - 1);
        assert(t2 - t1 <= 18_190_225_000_000 * d) by (nonlinear_arith)
            requires
                n * t2 <= x2,
                x1 <= n * t1 + n - 1,
                x1 == 18_190_225_000_000 * c1 * (n - c1),
                x2 == 18_190_225_000_000 * c2 * (n - c2),
                d == c2 - c1,
                0 <= c1 < c2 <= n,
                n >= 1,
        {}
        // The root of g1 is at least the scaled z^2 / 2 ...
        lemma_isqrt_monotonic(82_721_071_387_656, g1);
        assert(isqrt_spec(82_721_071_387_656int) == 9_095_112) by {
            lemma_isqrt_unique(82_721_071_387_656, 9_095_112);
        }
        // ... so the root can grow by at most d * 10^6.
        assert((s1 + d * 1_000_000) * (s1 + d * 1_000_000) >= g2) by (nonlinear_arith)
            requires
                g1 < (s1 + 1) * (s1 + 1),
                s1 >= 9_095_112,
                g2 - g1 <= 18_190_225_000_000 * d,
                d >= 1,
                g1 >= 0,
        {}
        assert(s2 <= s1 + d * 1_000_000) by (nonlinear_arith)
            requires
                s2 * s2 <= g2,
                g2 <= (s1 + d * 1_000_000) * (s1 + d * 1_000_000),
                s2 >= 0,
                s1 >= 0,
                d >= 1,
        {}
        assert(num1 <= num2);
    }
    assert(num1 * 1_000_000 <= num2 * 1_000_000) by (nonlinear_arith)
        requires
            num1 <= num2,
    {}
    lemma_div_is_ordered(num1 * 1_000_000, num2 * 1_000_000, den);
}

} // verus!
