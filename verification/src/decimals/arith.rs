//! Shared spec-level arithmetic for the fixed-point decimal types:
//! 64-bit saturation and the truncating division and remainder that Rust's
//! `/` and `%` perform on signed integers.

use vstd::prelude::*;

verus! {

/// Clamp an unbounded integer into the representable range of `i64`.
pub open spec fn sat_i64(x: int) -> int {
    if x > i64::MAX {
        i64::MAX as int
    } else if x < i64::MIN {
        i64::MIN as int
    } else {
        x
    }
}

/// Division truncating toward zero, the semantics of `/` on Rust's signed
/// integers (spec-level `/` on `int` rounds toward negative infinity).
pub open spec fn tdiv(x: int, d: int) -> int
    recommends
        d != 0,
{
    if x == 0 {
        0
    } else if x > 0 && d > 0 {
        x / d
    } else if x < 0 && d < 0 {
        (x * -1) / (d * -1)
    } else if x < 0 {
        ((x * -1) / d) * -1
    } else {
        (x / (d * -1)) * -1
    }
}

/// Remainder with the sign of the dividend, the semantics of `%` on Rust's
/// signed integers.
pub open spec fn trem(x: int, d: int) -> int
    recommends
        d != 0,
{
    if x == 0 {
        0
    } else if x > 0 && d > 0 {
        x % d
    } else if x < 0 && d < 0 {
        ((x * -1) % (d * -1)) * -1
    } else if x < 0 {
        ((x * -1) % d) * -1
    } else {
        x % (d * -1)
    }
}

/// `tdiv` never grows the magnitude of the dividend when the divisor is a
/// nonzero integer.
pub proof fn lemma_tdiv_magnitude(x: int, d: int)
    requires
        d != 0,
    ensures
        x >= 0 ==> -x <= tdiv(x, d) <= x,
        x < 0 ==> x <= tdiv(x, d) <= -x,
{
    if x != 0 {
        let m = if x > 0 {
            x
        } else {
            x * -1
        };
        let dm = if d > 0 {
            d
        } else {
            d * -1
        };
        vstd::arithmetic::div_mod::lemma_div_pos_is_pos(m, dm);
        vstd::arithmetic::div_mod::lemma_div_nonincreasing(m, dm);
    }
}

/// `10^n`.
pub open spec fn pow10(n: nat) -> int
    decreases n,
{
    if n == 0 {
        1
    } else {
        10 * pow10((n - 1) as nat)
    }
}

/// `10^n` is positive.
pub proof fn lemma_pow10_positive(n: nat)
    ensures
        pow10(n) >= 1,
    decreases n,
{
    if n > 0 {
        lemma_pow10_positive((n - 1) as nat);
    }
}

/// One unfolding of [`pow10`].
pub proof fn lemma_pow10_step(n: nat)
    ensures
        pow10(n + 1) == 10 * pow10(n),
{
}

/// `10^n` does not shrink as `n` grows.
pub proof fn lemma_pow10_increases(a: nat, b: nat)
    requires
        a <= b,
    ensures
        pow10(a) <= pow10(b),
    decreases b,
{
    if a < b {
        lemma_pow10_increases(a, (b - 1) as nat);
        lemma_pow10_positive((b - 1) as nat);
    }
}

/// `10^(a + b) == 10^a * 10^b`.
pub proof fn lemma_pow10_adds(a: nat, b: nat)
    ensures
        pow10(a + b) == pow10(a) * pow10(b),
    decreases a,
{
    if a == 0 {
    } else {
        lemma_pow10_adds((a - 1) as nat, b);
        assert(10 * (pow10((a - 1) as nat) * pow10(b)) == (10 * pow10((a - 1) as nat)) * pow10(b))
            by (nonlinear_arith);
    }
}

/// Number of decimal digits in `n`; zero is written with one digit.
pub open spec fn num_digits(n: nat) -> nat
    decreases n,
{
    if n < 10 {
        1
    } else {
        1 + num_digits(n / 10)
    }
}

/// A number is strictly below `10^d` where `d` is its digit count, and at
/// least `10^(d - 1)` when it is not zero.
pub proof fn lemma_num_digits_bound(n: nat)
    ensures
        n < pow10(num_digits(n)),
        n >= 1 ==> pow10((num_digits(n) - 1) as nat) <= n,
        num_digits(n) >= 1,
    decreases n,
{
    if n < 10 {
        assert(pow10(1) == 10 && pow10(0) == 1) by {
            reveal_with_fuel(pow10, 3);
        }
    } else {
        lemma_num_digits_bound(n / 10);
        let d = num_digits(n / 10);
        lemma_pow10_step(d);
        assert(num_digits(n) == d + 1);
        assert(n == 10 * (n / 10) + n % 10 && n % 10 < 10) by {
            vstd::arithmetic::div_mod::lemma_fundamental_div_mod(n as int, 10);
            vstd::arithmetic::div_mod::lemma_mod_bound(n as int, 10);
        }
        assert(10 * (n / 10) <= 10 * (pow10(d) - 1));
        assert(n < 10 * pow10(d));
        assert(pow10(num_digits(n)) == 10 * pow10(d)) by {
            lemma_pow10_step(d);
            assert(num_digits(n) == d + 1);
        }
        if d >= 1 {
            lemma_pow10_step((d - 1) as nat);
            assert(10 * pow10((d - 1) as nat) <= 10 * (n / 10));
        }
    }
}

/// Exec digit count for a `u32`.
pub fn num_digits_u32(n: u32) -> (r: u32)
    ensures
        r as nat == num_digits(n as nat),
{
    proof {
        reveal_with_fuel(num_digits, 12);
    }
    if n < 10 {
        1
    } else if n < 100 {
        2
    } else if n < 1_000 {
        3
    } else if n < 10_000 {
        4
    } else if n < 100_000 {
        5
    } else if n < 1_000_000 {
        6
    } else if n < 10_000_000 {
        7
    } else if n < 100_000_000 {
        8
    } else if n < 1_000_000_000 {
        9
    } else {
        10
    }
}

/// Truncating toward zero and multiplying back stays between zero and the
/// dividend, so `tdiv(x, d) * d` never leaves the `i64` range that `x`
/// came from.
pub proof fn lemma_tdiv_mul_bound(x: int, d: int)
    requires
        d > 0,
    ensures
        x >= 0 ==> 0 <= tdiv(x, d) * d <= x,
        x < 0 ==> x <= tdiv(x, d) * d <= 0,
{
    if x != 0 {
        let m = if x > 0 {
            x
        } else {
            x * -1
        };
        let q = m / d;
        vstd::arithmetic::div_mod::lemma_fundamental_div_mod(m, d);
        vstd::arithmetic::div_mod::lemma_mod_bound(m, d);
        vstd::arithmetic::div_mod::lemma_div_pos_is_pos(m, d);
        vstd::arithmetic::mul::lemma_mul_nonnegative(q, d);
        assert(d * q == q * d) by (nonlinear_arith);
        assert((q * -1) * d == -(q * d)) by (nonlinear_arith);
    }
}

/// Exec truncating division for `i64` by a positive divisor.
pub fn tdiv_i64(x: i64, d: i64) -> (r: i64)
    requires
        d > 0,
    ensures
        r as int == tdiv(x as int, d as int),
{
    proof {
        lemma_tdiv_magnitude(x as int, d as int);
    }
    match x.checked_div(d) {
        Some(q) => q,
        None => 0,  // unreachable: a positive divisor cannot overflow the quotient
    }
}

/// Truncate `x` to the nearest multiple of the positive divisor `d`
/// toward zero: `(x / d) * d` with Rust's truncating `/`.
pub fn trunc_multiple_i64(x: i64, d: i64) -> (r: i64)
    requires
        d > 0,
    ensures
        r as int == tdiv(x as int, d as int) * d,
{
    proof {
        lemma_tdiv_mul_bound(x as int, d as int);
    }
    let q = tdiv_i64(x, d);
    q * d
}

/// `10^n` as an `i64`, for exponents that fit (`10^18` is the largest
/// power of ten below `i64::MAX`).
pub fn pow10_i64(n: u32) -> (r: i64)
    requires
        n <= 18,
    ensures
        r as int == pow10(n as nat),
{
    let mut r: i64 = 1;
    let mut i: u32 = 0;
    while i < n
        invariant
            i <= n <= 18,
            r as int == pow10(i as nat),
        decreases n - i,
    {
        proof {
            lemma_pow10_positive(i as nat);
            lemma_pow10_step(i as nat);
            lemma_pow10_increases(i as nat + 1, 18);
            assert(pow10(18) == 1_000_000_000_000_000_000) by {
                reveal_with_fuel(pow10, 19);
            }
        }
        r = r * 10;
        i = i + 1;
    }
    r
}

/// The product of two `i64` values stays strictly inside the `i128` range.
pub proof fn lemma_i64_product_range(a: int, b: int)
    requires
        i64::MIN <= a <= i64::MAX,
        i64::MIN <= b <= i64::MAX,
    ensures
        i128::MIN < a * b < i128::MAX,
{
    assert(i128::MIN < a * b < i128::MAX) by (nonlinear_arith)
        requires
            -0x8000_0000_0000_0000 <= a <= 0x7FFF_FFFF_FFFF_FFFF,
            -0x8000_0000_0000_0000 <= b <= 0x7FFF_FFFF_FFFF_FFFF,
    ;
}

/// Clamp an `i128` into the `i64` range.
pub fn sat_to_i64(q: i128) -> (r: i64)
    ensures
        r as int == sat_i64(q as int),
{
    if q > i64::MAX as i128 {
        i64::MAX
    } else if q < i64::MIN as i128 {
        i64::MIN
    } else {
        q as i64
    }
}

/// Exec truncating division for `i128`, matching `tdiv`.
pub fn tdiv_i128(x: i128, d: i128) -> (r: i128)
    requires
        d != 0,
        !(x == i128::MIN && d == -1),
        x > i128::MIN,
    ensures
        r == tdiv(x as int, d as int),
{
    proof {
        lemma_tdiv_magnitude(x as int, d as int);
    }
    match x.checked_div(d) {
        Some(q) => q,
        None => 0,  // unreachable: the quotient of an in-range dividend fits
    }
}

} // verus!
